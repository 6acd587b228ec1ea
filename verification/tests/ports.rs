use std::cell::RefCell;

use codex_plus_core::ports::{
    acquire_resilient_guard_with_port_fallback_with, acquire_resilient_loopback_port_guard_with,
    bind_helper_loopback_with_fallback_with, exhausted_port_fallback_message,
    find_rebindable_loopback_port_with, io_failure, is_excluded_port_error, is_lock_contention,
    resolve_guard_port, select_packaged_codex_debug_port_with, select_platform_loopback_port_with,
    user_port_offset,
    GuardParts, IoFailure, IoKind, PortFallbackError, LAUNCHER_GUARD_PORT_BASE,
    MANAGER_GUARD_PORT_BASE,
};

fn failure(kind: IoKind, raw: Option<i32>, text: &str) -> IoFailure<String> {
    IoFailure {
        kind,
        raw_os_error: raw,
        error: text.to_string(),
    }
}

fn excluded() -> IoFailure<String> {
    failure(IoKind::PermissionDenied, Some(10013), "os error 10013")
}

#[test]
fn is_excluded_port_error_matches_wsa_eacces_and_permission_denied() {
    assert!(is_excluded_port_error(&io_failure(
        std::io::Error::from_raw_os_error(10013)
    )));
    assert!(is_excluded_port_error(&io_failure(std::io::Error::new(
        std::io::ErrorKind::PermissionDenied,
        "access denied",
    ))));
    assert!(!is_excluded_port_error(&io_failure(std::io::Error::new(
        std::io::ErrorKind::AddrInUse,
        "in use",
    ))));
    assert!(!is_excluded_port_error(&io_failure(std::io::Error::new(
        std::io::ErrorKind::Other,
        "boom",
    ))));
}

#[test]
fn resilient_guard_reports_conflict_when_requested_port_is_connectable() {
    let result = acquire_resilient_loopback_port_guard_with(
        57319,
        |_| Ok::<&str, IoFailure<String>>("lock"),
        |_| Err::<&str, _>(failure(IoKind::AddrInUse, None, "port busy")),
        |_| true,
    );
    match result {
        Err(error) => assert_eq!(error.kind, IoKind::AddrInUse),
        Ok(_) => panic!("a connectable port must be reported as a conflict"),
    }
}

#[test]
fn resilient_guard_uses_lock_fallback_when_requested_port_is_not_connectable() {
    let result = acquire_resilient_loopback_port_guard_with(
        57319,
        |_| Ok::<&str, IoFailure<String>>("lock"),
        |_| Err::<&str, _>(failure(IoKind::AddrInUse, None, "stale port")),
        |_| false,
    );
    assert!(matches!(result, Ok(GuardParts::FallbackLock("lock"))));

    let second = acquire_resilient_loopback_port_guard_with(
        57319,
        |_| Err::<&str, _>(failure(IoKind::WouldBlock, None, "lock held")),
        |_| Err::<&str, _>(failure(IoKind::AddrInUse, None, "stale port")),
        |_| false,
    );
    match second {
        Err(error) => assert_eq!(error.kind, IoKind::WouldBlock),
        Ok(_) => panic!("a held lock must be reported"),
    }
}

#[test]
fn resilient_guard_holds_lock_and_listener_when_requested_port_is_available() {
    let result = acquire_resilient_loopback_port_guard_with(
        57400,
        |_| Ok::<&str, IoFailure<String>>("lock"),
        |port| Ok::<u16, IoFailure<String>>(port),
        |_| false,
    );
    assert!(matches!(result, Ok(GuardParts::LockedListener("lock", 57400))));
}

#[test]
fn port_zero_guard_is_a_listener_without_lock() {
    let locked = RefCell::new(false);
    let result = acquire_resilient_loopback_port_guard_with(
        0,
        |_| {
            *locked.borrow_mut() = true;
            Ok::<&str, IoFailure<String>>("lock")
        },
        |_| Ok::<u16, IoFailure<String>>(41000),
        |_| false,
    );
    assert!(matches!(result, Ok(GuardParts::Listener(41000))));
    assert!(!*locked.borrow());
}

#[test]
fn forbidden_bind_uses_lock_fallback_and_other_errors_are_returned() {
    let forbidden = acquire_resilient_loopback_port_guard_with(
        57319,
        |_| Ok::<&str, IoFailure<String>>("lock"),
        |_| Err::<&str, _>(excluded()),
        |_| true,
    );
    assert!(matches!(forbidden, Ok(GuardParts::FallbackLock("lock"))));

    let other = acquire_resilient_loopback_port_guard_with(
        57319,
        |_| Ok::<&str, IoFailure<String>>("lock"),
        |_| Err::<&str, _>(failure(IoKind::Other, None, "boom")),
        |_| false,
    );
    match other {
        Err(error) => assert_eq!(error.error, "boom"),
        Ok(_) => panic!("other errors are returned"),
    }
}

#[test]
fn excluded_guard_port_falls_back_to_next_candidate() {
    let calls = RefCell::new(0usize);
    let acquisition = acquire_resilient_guard_with_port_fallback_with(
        57745,
        true,
        |port| {
            *calls.borrow_mut() += 1;
            if port == 57745 {
                Err(failure(IoKind::PermissionDenied, Some(10013), "os error 10013"))
            } else {
                Ok(port)
            }
        },
        || Ok(50000),
    )
    .ok()
    .unwrap();
    assert_eq!(acquisition.requested_port, 57745);
    assert_eq!(acquisition.effective_port, 57746);
    assert_eq!(acquisition.attempts, 2);
}

#[test]
fn addr_in_use_guard_port_does_not_try_later_candidates() {
    let calls = RefCell::new(0usize);
    let result = acquire_resilient_guard_with_port_fallback_with(
        57745,
        true,
        |_| {
            *calls.borrow_mut() += 1;
            Err::<u16, _>(failure(IoKind::AddrInUse, None, "in use"))
        },
        || panic!("must not bind ephemeral"),
    );
    match result {
        Err(PortFallbackError::Failed(error)) => assert_eq!(error.kind, IoKind::AddrInUse),
        _ => panic!("AddrInUse must end the search"),
    }
    assert_eq!(*calls.borrow(), 1);
}

#[test]
fn would_block_guard_port_does_not_try_later_candidates() {
    let calls = RefCell::new(0usize);
    let result = acquire_resilient_guard_with_port_fallback_with(
        57745,
        true,
        |_| {
            *calls.borrow_mut() += 1;
            Err::<u16, _>(failure(IoKind::WouldBlock, None, "lock held"))
        },
        || panic!("must not bind ephemeral"),
    );
    match result {
        Err(PortFallbackError::Failed(error)) => assert_eq!(error.kind, IoKind::WouldBlock),
        _ => panic!("WouldBlock must end the search"),
    }
    assert_eq!(*calls.borrow(), 1);
}

#[test]
fn non_windows_guard_error_is_returned_unwrapped() {
    let calls = RefCell::new(0usize);
    let result = acquire_resilient_guard_with_port_fallback_with(
        57745,
        false,
        |_| {
            *calls.borrow_mut() += 1;
            Err::<u16, _>(failure(IoKind::Other, None, "boom"))
        },
        || panic!("must not bind ephemeral"),
    );
    match result {
        Err(PortFallbackError::Failed(error)) => {
            assert_eq!(error.kind, IoKind::Other);
            assert_eq!(error.error, "boom");
        }
        _ => panic!("the single error must be returned as it is"),
    }
    assert_eq!(*calls.borrow(), 1);
}

#[test]
fn permission_denied_guard_port_continues_to_next_candidate() {
    let calls = RefCell::new(0usize);
    let acquisition = acquire_resilient_guard_with_port_fallback_with(
        57745,
        true,
        |port| {
            *calls.borrow_mut() += 1;
            if port == 57745 {
                Err(failure(IoKind::PermissionDenied, None, "access denied"))
            } else {
                Ok(port)
            }
        },
        || Ok(50000),
    )
    .ok()
    .unwrap();
    assert_eq!(acquisition.requested_port, 57745);
    assert_eq!(acquisition.effective_port, 57746);
    assert_eq!(acquisition.attempts, 2);
}

#[test]
fn guard_candidates_near_u16_max_never_wrap_to_port_zero() {
    let attempted = RefCell::new(Vec::new());
    let acquisition = acquire_resilient_guard_with_port_fallback_with(
        65530,
        true,
        |port| {
            attempted.borrow_mut().push(port);
            if (65530..=65535).contains(&port) {
                Err(failure(IoKind::PermissionDenied, None, "access denied"))
            } else {
                Ok(port)
            }
        },
        || Ok(50123),
    )
    .ok()
    .unwrap();
    let attempted = attempted.borrow();
    assert_eq!(attempted.len(), 7);
    assert!(!attempted.contains(&0));
    assert!(acquisition.effective_port != 0);
    assert_eq!(acquisition.effective_port, 50123);
    assert_eq!(acquisition.attempts, 7);
}

#[test]
fn exhausted_guard_search_reports_last_error() {
    let result = acquire_resilient_guard_with_port_fallback_with(
        57745,
        true,
        |_| Err::<u16, _>(excluded()),
        || Ok(50000),
    );
    match result {
        Err(PortFallbackError::Exhausted {
            requested_port,
            attempts,
            last_error,
        }) => {
            assert_eq!(requested_port, 57745);
            assert_eq!(attempts, 9);
            assert_eq!(last_error.unwrap().raw_os_error, Some(10013));
        }
        _ => panic!("every candidate failed"),
    }
}

#[test]
fn excluded_helper_port_falls_back_to_next_candidate() {
    let result = bind_helper_loopback_with_fallback_with(
        57321,
        true,
        "127.0.0.1",
        |port| {
            if port == 57321 {
                Err(excluded())
            } else {
                Ok(port)
            }
        },
        || Some(50000),
    )
    .ok()
    .unwrap();
    assert_eq!(result.requested_port, 57321);
    assert!(result.effective_port != 0);
    assert_eq!(result.attempts, 2);
}

#[test]
fn helper_bind_on_non_loopback_host_does_not_fall_back() {
    let calls = RefCell::new(0usize);
    let result = bind_helper_loopback_with_fallback_with(
        57321,
        true,
        "0.0.0.0",
        |port| {
            *calls.borrow_mut() += 1;
            assert_eq!(port, 57321);
            Err::<u16, _>(excluded())
        },
        || panic!("must not look for an ephemeral port"),
    );
    match result {
        Err(PortFallbackError::Failed(error)) => assert_eq!(error.raw_os_error, Some(10013)),
        _ => panic!("the single error must be returned as it is"),
    }
    assert_eq!(*calls.borrow(), 1);
}

#[test]
fn helper_candidates_near_u16_max_never_wrap_to_port_zero() {
    let attempted = RefCell::new(Vec::new());
    let result = bind_helper_loopback_with_fallback_with(
        65530,
        true,
        "127.0.0.1",
        |port| {
            attempted.borrow_mut().push(port);
            if (65530..=65535).contains(&port) {
                Err(excluded())
            } else {
                Ok(port)
            }
        },
        || Some(50321),
    )
    .ok()
    .unwrap();
    let attempted = attempted.borrow();
    assert_eq!(attempted.len(), 7);
    assert!(!attempted.contains(&0));
    assert!(result.effective_port != 0);
    assert_eq!(result.attempts, 7);
}

#[test]
fn platform_port_selection_keeps_bindable_or_non_windows_ports() {
    assert_eq!(select_platform_loopback_port_with(9222, false, |_| false, || 1), 9222);
    assert_eq!(select_platform_loopback_port_with(9222, true, |_| true, || 1), 9222);
    assert_eq!(select_platform_loopback_port_with(9222, true, |_| false, || 4000), 4000);
    assert_eq!(
        select_packaged_codex_debug_port_with(9222, true, |_| false, |_| true, || 4000),
        9222
    );
    assert_eq!(
        select_packaged_codex_debug_port_with(9222, true, |_| false, |_| false, || 4000),
        4000
    );
}

#[test]
fn rebindable_port_search_tries_three_times() {
    let tries = RefCell::new(0usize);
    let none = find_rebindable_loopback_port_with(
        |_| {
            *tries.borrow_mut() += 1;
            Some(40000)
        },
        |_| false,
    );
    assert_eq!(none, None);
    assert_eq!(*tries.borrow(), 3);
    assert_eq!(find_rebindable_loopback_port_with(|_| Some(40001), |_| true), Some(40001));
    assert_eq!(find_rebindable_loopback_port_with(|_| None, |_| true), None);
}

#[test]
fn lock_violation_code_means_contention() {
    assert!(is_lock_contention(Some(33)));
    assert!(!is_lock_contention(Some(32)));
    assert!(!is_lock_contention(None));
}

#[test]
fn launcher_guard_port_returns_base_when_no_env_override() {
    let port = resolve_guard_port(LAUNCHER_GUARD_PORT_BASE, None, None, None, 0).unwrap();
    assert!(port >= LAUNCHER_GUARD_PORT_BASE);
    assert!(port < LAUNCHER_GUARD_PORT_BASE + 1000);
}

#[test]
fn manager_guard_port_returns_base_when_no_env_override() {
    let port = resolve_guard_port(MANAGER_GUARD_PORT_BASE, None, None, None, 0).unwrap();
    assert!(port >= MANAGER_GUARD_PORT_BASE);
    assert!(port < MANAGER_GUARD_PORT_BASE + 1000);
}

#[test]
fn launcher_guard_port_honors_env_override() {
    assert_eq!(
        resolve_guard_port(LAUNCHER_GUARD_PORT_BASE, Some("9999"), None, None, 0),
        Some(9999)
    );
}

#[test]
fn launcher_guard_port_honors_specific_env_override() {
    assert_eq!(
        resolve_guard_port(LAUNCHER_GUARD_PORT_BASE, None, Some("8888"), None, 0),
        Some(8888)
    );
}

#[test]
fn manager_guard_port_honors_specific_env_override() {
    assert_eq!(
        resolve_guard_port(MANAGER_GUARD_PORT_BASE, None, Some("7777"), None, 0),
        Some(7777)
    );
}

#[test]
fn launcher_guard_port_honors_offset_env() {
    assert_eq!(
        resolve_guard_port(LAUNCHER_GUARD_PORT_BASE, None, None, Some("50"), 0),
        Some(LAUNCHER_GUARD_PORT_BASE + 50)
    );
}

#[test]
fn guard_port_ignores_unparsable_overrides_and_reports_overflow() {
    assert_eq!(
        resolve_guard_port(LAUNCHER_GUARD_PORT_BASE, Some("x"), None, Some("y"), 7),
        Some(LAUNCHER_GUARD_PORT_BASE + 7)
    );
    assert_eq!(resolve_guard_port(65535, None, None, Some("1"), 0), None);
}

#[test]
fn exhausted_message_names_port_attempts_and_cause() {
    let text = exhausted_port_fallback_message(57745, 9, Some("boom"));
    assert_eq!(
        text,
        "failed to bind any loopback candidate near requested port 57745 after 9 attempt(s): boom; os error 10013 usually means the port sits in the Windows excluded port range (often caused by Docker/WSL/WinNAT)"
    );
    assert!(exhausted_port_fallback_message(1, 0, None).contains("no candidate was attempted"));
}

#[test]
fn user_port_offset_sums_name_bytes_modulo_1000() {
    assert_eq!(user_port_offset("alice"), 510);
    assert_eq!(user_port_offset(""), 0);
    let long = "z".repeat(700);
    assert_eq!(user_port_offset(&long), ((122u32 * 700) % 65536 % 1000) as u16);
}

#[test]
fn rebindable_port_search_stops_at_first_rebindable_port() {
    let seen = RefCell::new(Vec::new());
    let found = find_rebindable_loopback_port_with(
        |attempt| {
            seen.borrow_mut().push(attempt);
            Some(40000 + attempt as u16)
        },
        |port| port == 40001,
    );
    assert_eq!(found, Some(40001));
    assert_eq!(*seen.borrow(), vec![0, 1]);
    let seen = RefCell::new(Vec::new());
    let stopped = find_rebindable_loopback_port_with(
        |attempt| {
            seen.borrow_mut().push(attempt);
            if attempt == 0 { Some(40000) } else { None }
        },
        |_| false,
    );
    assert_eq!(stopped, None);
    assert_eq!(*seen.borrow(), vec![0, 1]);
}

#[test]
fn exhausted_helper_search_keeps_last_candidate_error() {
    let result = bind_helper_loopback_with_fallback_with(
        40000,
        true,
        "127.0.0.1",
        |port| {
            if port == 40007 {
                Err::<u16, _>(failure(IoKind::PermissionDenied, Some(5), "last"))
            } else {
                Err(excluded())
            }
        },
        || None,
    );
    match result {
        Err(PortFallbackError::Exhausted {
            requested_port,
            attempts,
            last_error,
        }) => {
            assert_eq!(requested_port, 40000);
            assert_eq!(attempts, 8);
            assert_eq!(last_error.unwrap().raw_os_error, Some(5));
        }
        _ => panic!("every candidate failed and no ephemeral port was found"),
    }
}
