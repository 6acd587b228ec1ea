//! Loopback port selection and the fallback rules for single-instance guards
//! and helper listeners. Binding, locking and connecting are done by the
//! caller through closures; this module decides which port to try next and
//! when to stop.

use vstd::prelude::*;
use crate::text::{chars_of, decimal, parse_u64_digits, valid_u64_digits};
use vstd::string::StringExecFns;
use vstd::string::StringSliceAdditionalSpecFns;

verus! {

pub const LAUNCHER_GUARD_PORT_BASE: u16 = 57320;

pub const MANAGER_GUARD_PORT_BASE: u16 = 57319;

/// Number of deterministic candidates tried on Windows: the requested port and
/// the seven after it.
pub const PORT_FALLBACK_CANDIDATE_SPAN: u16 = 8;

/// Attempts made to find an ephemeral port that can be bound again.
pub const REBINDABLE_PORT_MAX_ATTEMPTS: usize = 3;

/// The kinds of I/O error the fallback rules distinguish.
#[derive(Debug, Clone, Copy, PartialEq, Eq, Structural)]
pub enum IoKind {
    AddrInUse,
    WouldBlock,
    PermissionDenied,
    Other,
}

/// An I/O error as the fallback rules see it: its kind and raw OS code,
/// carrying the original error along.
#[derive(Debug)]
pub struct IoFailure<E> {
    pub kind: IoKind,
    pub raw_os_error: Option<i32>,
    pub error: E,
}

#[verifier::external_type_specification]
#[verifier::external_body]
pub struct ExIoError(std::io::Error);

/// The kind of an I/O error, as reported by `std::io::Error::kind`, grouped
/// into the kinds the fallback rules distinguish. Nothing is claimed of the
/// error that is passed in.
#[verifier::external_body]
fn io_error_kind(error: &std::io::Error) -> IoKind {
    match error.kind() {
        std::io::ErrorKind::AddrInUse => IoKind::AddrInUse,
        std::io::ErrorKind::WouldBlock => IoKind::WouldBlock,
        std::io::ErrorKind::PermissionDenied => IoKind::PermissionDenied,
        _ => IoKind::Other,
    }
}

/// The raw OS error code of an I/O error (`std::io::Error::raw_os_error`).
/// Nothing is claimed of the error that is passed in.
#[verifier::external_body]
fn io_raw_os_error(error: &std::io::Error) -> Option<i32> {
    error.raw_os_error()
}

/// Describes a `std::io::Error` for the fallback rules.
pub fn io_failure(error: std::io::Error) -> (r: IoFailure<std::io::Error>)
    ensures
        r.error == error,
{
    let kind = io_error_kind(&error);
    let raw_os_error = io_raw_os_error(&error);
    IoFailure { kind, raw_os_error, error }
}

/// `WSAEACCES` (10013) or a permission error: the port sits in an excluded
/// range or binding it is forbidden.
pub open spec fn bind_forbidden(kind: IoKind, raw: Option<i32>) -> bool {
    kind == IoKind::PermissionDenied || raw == Some(10013i32)
}

pub fn is_excluded_port_error<E>(error: &IoFailure<E>) -> (r: bool)
    ensures
        r == bind_forbidden(error.kind, error.raw_os_error),
{
    error.raw_os_error == Some(10013i32) || error.kind == IoKind::PermissionDenied
}

/// Raw code 33 (`ERROR_LOCK_VIOLATION`) from a lock attempt means another
/// process holds the lock; it is reported as `WouldBlock`.
pub fn is_lock_contention(raw_os_error: Option<i32>) -> (r: bool)
    ensures
        r == (raw_os_error == Some(33i32)),
{
    raw_os_error == Some(33i32)
}

/// Keeps the requested port unless on Windows it cannot be bound and is not
/// an existing debug endpoint; then asks for an available port.
pub fn select_packaged_codex_debug_port_with(
    requested: u16,
    is_windows: bool,
    can_bind: impl Fn(u16) -> bool,
    is_existing_cdp: impl Fn(u16) -> bool,
    find_available: impl Fn() -> u16,
) -> (r: u16)
    requires
        can_bind.requires((requested,)),
        is_existing_cdp.requires((requested,)),
        find_available.requires(()),
    ensures
        !is_windows ==> r == requested,
        r == requested || (is_windows && find_available.ensures((), r)),
        is_windows && (forall|b: bool| can_bind.ensures((requested,), b) ==> !b) && (forall|b: bool|
            is_existing_cdp.ensures((requested,), b) ==> !b) ==> find_available.ensures((), r),
        (forall|b: bool| can_bind.ensures((requested,), b) ==> b) ==> r == requested,
        (forall|b: bool| is_existing_cdp.ensures((requested,), b) ==> b) ==> r == requested,
{
    if !is_windows || can_bind(requested) || is_existing_cdp(requested) {
        requested
    } else {
        find_available()
    }
}

/// Keeps the requested port unless on Windows it cannot be bound; then asks
/// for an available port.
pub fn select_platform_loopback_port_with(
    requested: u16,
    is_windows: bool,
    can_bind: impl Fn(u16) -> bool,
    find_available: impl Fn() -> u16,
) -> (r: u16)
    requires
        can_bind.requires((requested,)),
        find_available.requires(()),
    ensures
        !is_windows ==> r == requested,
        r == requested || (is_windows && find_available.ensures((), r)),
        is_windows && (forall|b: bool| can_bind.ensures((requested,), b) ==> !b)
            ==> find_available.ensures((), r),
        (forall|b: bool| can_bind.ensures((requested,), b) ==> b) ==> r == requested,
{
    if !is_windows || can_bind(requested) {
        requested
    } else {
        find_available()
    }
}

/// Attempt `j` of the ephemeral-port search bound a port that could not be
/// bound again.
pub open spec fn rebind_failed<B: Fn(usize) -> Option<u16>, C: Fn(u16) -> bool>(
    bind_ephemeral: B,
    can_rebind: C,
    j: usize,
) -> bool {
    exists|q: u16| #[trigger] bind_ephemeral.ensures((j,), Some(q)) && can_rebind.ensures((q,), false)
}

/// An ephemeral port that could be bound again after release. Attempt `k`
/// (from 0, at most `REBINDABLE_PORT_MAX_ATTEMPTS` of them) binds port 0 with
/// `bind_ephemeral(k)`; the search stops at the first failure to bind, and
/// returns the first port that can be bound again. `None` after a failure to
/// bind or after every attempt gave a port that could not be bound again.
pub fn find_rebindable_loopback_port_with(
    bind_ephemeral: impl Fn(usize) -> Option<u16>,
    can_rebind: impl Fn(u16) -> bool,
) -> (r: Option<u16>)
    requires
        forall|k: usize| bind_ephemeral.requires((k,)),
        forall|p: u16| can_rebind.requires((p,)),
    ensures
        match r {
            Some(p) => exists|k: usize|
                k < REBINDABLE_PORT_MAX_ATTEMPTS && #[trigger] bind_ephemeral.ensures((k,), Some(p))
                    && can_rebind.ensures((p,), true) && forall|j: usize|
                    j < k ==> #[trigger] rebind_failed(bind_ephemeral, can_rebind, j),
            None => (exists|k: usize|
                k < REBINDABLE_PORT_MAX_ATTEMPTS && #[trigger] bind_ephemeral.ensures((k,), None)
                    && forall|j: usize|
                    j < k ==> #[trigger] rebind_failed(bind_ephemeral, can_rebind, j)) || forall|
                j: usize,
            |
                j < REBINDABLE_PORT_MAX_ATTEMPTS ==> #[trigger] rebind_failed(
                    bind_ephemeral,
                    can_rebind,
                    j,
                ),
        },
        (forall|k: usize, o: Option<u16>| bind_ephemeral.ensures((k,), o) ==> o is None) ==> r is None,
        (forall|k: usize, o: Option<u16>| bind_ephemeral.ensures((k,), o) ==> o is Some) && (forall|
            p: u16,
            b: bool,
        | can_rebind.ensures((p,), b) ==> b) ==> r is Some,
{
    let mut attempt: usize = 0;
    while attempt < REBINDABLE_PORT_MAX_ATTEMPTS
        invariant
            attempt <= REBINDABLE_PORT_MAX_ATTEMPTS,
            forall|k: usize| bind_ephemeral.requires((k,)),
            forall|p: u16| can_rebind.requires((p,)),
            forall|j: usize| j < attempt ==> #[trigger] rebind_failed(bind_ephemeral, can_rebind, j),
            (forall|k: usize, o: Option<u16>| bind_ephemeral.ensures((k,), o) ==> o is Some) && (
            forall|p: u16, b: bool| can_rebind.ensures((p,), b) ==> b) ==> attempt == 0,
        decreases REBINDABLE_PORT_MAX_ATTEMPTS - attempt,
    {
        let port = match bind_ephemeral(attempt) {
            Some(p) => p,
            None => {
                assert(bind_ephemeral.ensures((attempt,), None::<u16>));
                return None;
            },
        };
        if can_rebind(port) {
            return Some(port);
        }
        assert(bind_ephemeral.ensures((attempt,), Some(port)) && can_rebind.ensures(
            (port,),
            false,
        ));
        assert(rebind_failed(bind_ephemeral, can_rebind, attempt));
        attempt = attempt + 1;
    }
    None
}

/// The parts of a single-instance guard.
pub enum GuardParts<K, L> {
    /// Port 0: a listener and no lock.
    Listener(L),
    /// The lock and a listener on the port.
    LockedListener(K, L),
    /// The lock alone: the port is taken by a process that does not answer.
    FallbackLock(K),
}

/// Acquires a single-instance guard on `port`: the lock for the port, then a
/// listener. When the port is in use by a process that answers connections
/// the error is returned; when it is in use by one that does not, or binding
/// is forbidden, the lock alone serves as the guard.
pub fn acquire_resilient_loopback_port_guard_with<K, L, E>(
    port: u16,
    lock: impl Fn(u16) -> Result<K, IoFailure<E>>,
    bind: impl Fn(u16) -> Result<L, IoFailure<E>>,
    can_connect: impl Fn(u16) -> bool,
) -> (r: Result<GuardParts<K, L>, IoFailure<E>>)
    requires
        lock.requires((port,)),
        bind.requires((port,)),
        can_connect.requires((port,)),
    ensures
        port == 0 ==> match r {
            Ok(GuardParts::Listener(l)) => bind.ensures((port,), Ok(l)),
            Err(e) => bind.ensures((port,), Err(e)),
            _ => false,
        },
        port != 0 ==> match r {
            Ok(GuardParts::LockedListener(k, l)) => lock.ensures((port,), Ok(k)) && bind.ensures(
                (port,),
                Ok(l),
            ),
            Ok(GuardParts::FallbackLock(k)) => lock.ensures((port,), Ok(k)) && exists|e: IoFailure<E>|
                #[trigger] bind.ensures((port,), Err(e)) && (e.kind == IoKind::AddrInUse || bind_forbidden(
                    e.kind,
                    e.raw_os_error,
                )) && (e.kind == IoKind::AddrInUse ==> can_connect.ensures((port,), false)),
            Err(e) => lock.ensures((port,), Err(e)) || ((exists|k: K| lock.ensures((port,), Ok(k)))
                && bind.ensures((port,), Err(e)) && ((e.kind == IoKind::AddrInUse
                && can_connect.ensures((port,), true)) || (e.kind != IoKind::AddrInUse
                && !bind_forbidden(e.kind, e.raw_os_error)))),
            _ => false,
        },
{
    if port == 0 {
        return match bind(port) {
            Ok(l) => Ok(GuardParts::Listener(l)),
            Err(e) => Err(e),
        };
    }
    let k = match lock(port) {
        Ok(k) => k,
        Err(e) => return Err(e),
    };
    assert(lock.ensures((port,), Ok(k)));
    match bind(port) {
        Ok(l) => Ok(GuardParts::LockedListener(k, l)),
        Err(e) => {
            if e.kind == IoKind::AddrInUse {
                let connectable = can_connect(port);
                if connectable {
                    Err(e)
                } else {
                    assert(bind.ensures((port,), Err(e)));
                    Ok(GuardParts::FallbackLock(k))
                }
            } else if is_excluded_port_error(&e) {
                assert(bind.ensures((port,), Err(e)));
                Ok(GuardParts::FallbackLock(k))
            } else {
                Err(e)
            }
        },
    }
}

} // verus!

verus! {

/// AddrInUse or WouldBlock: a real instance or a held lock; the guard keeps
/// its single-instance meaning and stops trying.
pub open spec fn stops_fallback(kind: IoKind) -> bool {
    kind == IoKind::AddrInUse || kind == IoKind::WouldBlock
}

/// How many deterministic candidates are tried: on Windows the requested port
/// and the seven after it (never past 65535), elsewhere the requested port.
pub open spec fn candidate_total(requested: u16, use_fallback: bool) -> int {
    let span: int = if use_fallback {
        PORT_FALLBACK_CANDIDATE_SPAN as int
    } else {
        1
    };
    if requested as int + span > 65536 {
        65536 - requested as int
    } else {
        span
    }
}

/// A guard acquired by the fallback rules, with the ports involved.
pub struct ResilientGuardAcquisition<G> {
    pub guard: G,
    pub requested_port: u16,
    pub effective_port: u16,
    pub attempts: usize,
}

/// A listener bound by the fallback rules, with the ports involved.
pub struct HelperBindResult<L> {
    pub listener: L,
    pub requested_port: u16,
    pub effective_port: u16,
    pub attempts: usize,
}

/// Why the fallback rules gave up.
pub enum PortFallbackError<E> {
    /// An error that ends the search as it is.
    Failed(IoFailure<E>),
    /// Every candidate failed; `last_error` is the last failure seen.
    Exhausted { requested_port: u16, attempts: usize, last_error: Option<IoFailure<E>> },
}

/// Candidate `o` (requested + o) was tried and failed with an error that lets
/// the search go on.
pub open spec fn guard_candidate_skipped<G, E, F: Fn(u16) -> Result<G, IoFailure<E>>>(
    acquire: F,
    requested: u16,
    o: int,
) -> bool {
    exists|e: IoFailure<E>|
        #[trigger] acquire.ensures(((requested as int + o) as u16,), Err(e)) && !stops_fallback(e.kind)
}

fn candidate_count(requested: u16, use_fallback: bool) -> (n: u16)
    ensures
        n as int == candidate_total(requested, use_fallback),
        1 <= n <= PORT_FALLBACK_CANDIDATE_SPAN,
{
    let span: u32 = if use_fallback {
        PORT_FALLBACK_CANDIDATE_SPAN as u32
    } else {
        1
    };
    if requested as u32 + span > 65536 {
        (65536 - requested as u32) as u16
    } else {
        span as u16
    }
}

/// Acquires a single-instance guard near `requested_port`. Elsewhere than on
/// Windows one attempt is made and its error returned as it is. On Windows the
/// requested port and the seven after it are tried in turn (stopping before
/// 65535 would wrap); AddrInUse or WouldBlock ends the search at once; when all
/// fail, an ephemeral port is taken and tried; when that fails too, the search
/// is exhausted.
pub fn acquire_resilient_guard_with_port_fallback_with<G, E>(
    requested_port: u16,
    is_windows: bool,
    acquire: impl Fn(u16) -> Result<G, IoFailure<E>>,
    bind_ephemeral: impl Fn() -> Result<u16, IoFailure<E>>,
) -> (r: Result<ResilientGuardAcquisition<G>, PortFallbackError<E>>)
    requires
        forall|p: u16| acquire.requires((p,)),
        bind_ephemeral.requires(()),
    ensures
        ({
            let n = candidate_total(requested_port, is_windows);
            match r {
                Ok(a) => {
                    &&& a.requested_port == requested_port
                    &&& 1 <= a.attempts <= n + 1
                    &&& acquire.ensures((a.effective_port,), Ok(a.guard))
                    &&& forall|o: int|
                        0 <= o < a.attempts - 1 && o < n ==> guard_candidate_skipped(
                            acquire,
                            requested_port,
                            o,
                        )
                    &&& a.attempts <= n ==> a.effective_port == requested_port + a.attempts - 1
                    &&& a.attempts == n + 1 ==> is_windows && bind_ephemeral.ensures(
                        (),
                        Ok(a.effective_port),
                    )
                },
                Err(PortFallbackError::Failed(e)) => (exists|o: int|
                    0 <= o < n && (stops_fallback(e.kind) || !is_windows) && #[trigger] acquire.ensures(
                        ((requested_port + o) as u16,),
                        Err(e),
                    ) && forall|j: int| 0 <= j < o ==> guard_candidate_skipped(acquire, requested_port, j))
                    || (is_windows && (forall|j: int|
                    0 <= j < n ==> guard_candidate_skipped(acquire, requested_port, j)) && (
                bind_ephemeral.ensures((), Err(e)) || (stops_fallback(e.kind) && exists|p: u16|
                    bind_ephemeral.ensures((), Ok(p)) && #[trigger] acquire.ensures((p,), Err(e))))),
                Err(PortFallbackError::Exhausted { requested_port: rp, attempts, last_error }) => {
                    &&& is_windows
                    &&& rp == requested_port
                    &&& attempts == n + 1
                    &&& forall|j: int| 0 <= j < n ==> guard_candidate_skipped(acquire, requested_port, j)
                    &&& last_error is Some
                    &&& !stops_fallback(last_error->0.kind)
                    &&& exists|p: u16|
                        bind_ephemeral.ensures((), Ok(p)) && #[trigger] acquire.ensures(
                            (p,),
                            Err(last_error->0),
                        )
                },
            }
        }),
{
    let n = candidate_count(requested_port, is_windows);
    let mut attempts: usize = 0;
    let mut offset: u16 = 0;
    while offset < n
        invariant
            forall|p: u16| acquire.requires((p,)),
            bind_ephemeral.requires(()),
            n as int == candidate_total(requested_port, is_windows),
            offset <= n,
            attempts == offset,
            !is_windows ==> offset == 0,
            forall|j: int| 0 <= j < offset ==> guard_candidate_skipped(acquire, requested_port, j),
        decreases n - offset,
    {
        let port: u16 = requested_port + offset;
        attempts = attempts + 1;
        match acquire(port) {
            Ok(guard) => {
                return Ok(
                    ResilientGuardAcquisition {
                        guard,
                        requested_port,
                        effective_port: port,
                        attempts,
                    },
                );
            },
            Err(e) => {
                if e.kind == IoKind::AddrInUse || e.kind == IoKind::WouldBlock || !is_windows {
                    assert(acquire.ensures(((requested_port + offset) as u16,), Err(e)));
                    return Err(PortFallbackError::Failed(e));
                }
                assert(acquire.ensures(((requested_port as int + offset as int) as u16,), Err(e)));
                assert(guard_candidate_skipped(acquire, requested_port, offset as int));
            },
        }
        offset = offset + 1;
    }
    assert(is_windows);
    let port = match bind_ephemeral() {
        Ok(p) => p,
        Err(e) => return Err(PortFallbackError::Failed(e)),
    };
    attempts = attempts + 1;
    match acquire(port) {
        Ok(guard) => Ok(ResilientGuardAcquisition { guard, requested_port, effective_port: port, attempts }),
        Err(e) => {
            assert(acquire.ensures((port,), Err(e)));
            if e.kind == IoKind::AddrInUse || e.kind == IoKind::WouldBlock {
                Err(PortFallbackError::Failed(e))
            } else {
                Err(
                    PortFallbackError::Exhausted {
                        requested_port,
                        attempts,
                        last_error: Some(e),
                    },
                )
            }
        },
    }
}

/// Candidate `o` was tried and failed.
pub open spec fn helper_candidate_failed<L, E, F: Fn(u16) -> Result<L, IoFailure<E>>>(
    bind: F,
    requested: u16,
    o: int,
) -> bool {
    exists|e: IoFailure<E>| #[trigger] bind.ensures(((requested as int + o) as u16,), Err(e))
}

/// Binds a helper listener near `requested_port`. Only on Windows with host
/// `127.0.0.1` are fallbacks used: the requested port and the seven after it
/// (never past 65535), whatever the error, then an ephemeral port that could
/// be bound again; otherwise one attempt whose error is returned as it is.
pub fn bind_helper_loopback_with_fallback_with<L, E>(
    requested_port: u16,
    is_windows: bool,
    bind_host: &str,
    bind: impl Fn(u16) -> Result<L, IoFailure<E>>,
    find_rebindable: impl Fn() -> Option<u16>,
) -> (r: Result<HelperBindResult<L>, PortFallbackError<E>>)
    requires
        forall|p: u16| bind.requires((p,)),
        find_rebindable.requires(()),
    ensures
        ({
            let fallback = is_windows && bind_host@ == "127.0.0.1"@;
            let n = candidate_total(requested_port, fallback);
            match r {
                Ok(h) => {
                    &&& h.requested_port == requested_port
                    &&& 1 <= h.attempts <= n + 1
                    &&& bind.ensures((h.effective_port,), Ok(h.listener))
                    &&& forall|o: int|
                        0 <= o < h.attempts - 1 && o < n ==> helper_candidate_failed(
                            bind,
                            requested_port,
                            o,
                        )
                    &&& h.attempts <= n ==> h.effective_port == requested_port + h.attempts - 1
                    &&& h.attempts == n + 1 ==> fallback && find_rebindable.ensures(
                        (),
                        Some(h.effective_port),
                    )
                },
                Err(PortFallbackError::Failed(e)) => !fallback && bind.ensures((requested_port,), Err(e)),
                Err(PortFallbackError::Exhausted { requested_port: rp, attempts, last_error }) => {
                    &&& fallback
                    &&& rp == requested_port
                    &&& forall|j: int| 0 <= j < n ==> helper_candidate_failed(bind, requested_port, j)
                    &&& (attempts == n && find_rebindable.ensures((), None) && (n >= 1 ==> last_error
                        is Some && bind.ensures(
                        ((requested_port + n - 1) as u16,),
                        Err(last_error->0),
                    ))) || (attempts == n + 1
                        && last_error is Some && exists|p: u16| find_rebindable.ensures((), Some(p))
                        && #[trigger] bind.ensures((p,), Err(last_error->0)))
                },
            }
        }),
{
    let use_fallback = is_windows && crate::text::str_eq(bind_host, "127.0.0.1");
    let n = candidate_count(requested_port, use_fallback);
    let mut attempts: usize = 0;
    let mut last_error: Option<IoFailure<E>> = None;
    let mut offset: u16 = 0;
    while offset < n
        invariant
            forall|p: u16| bind.requires((p,)),
            find_rebindable.requires(()),
            n as int == candidate_total(requested_port, use_fallback),
            use_fallback == (is_windows && bind_host@ == "127.0.0.1"@),
            offset <= n,
            attempts == offset,
            !use_fallback ==> offset == 0,
            forall|j: int| 0 <= j < offset ==> helper_candidate_failed(bind, requested_port, j),
            offset > 0 ==> last_error is Some && bind.ensures(
                ((requested_port as int + offset - 1) as u16,),
                Err(last_error->0),
            ),
        decreases n - offset,
    {
        let port: u16 = requested_port + offset;
        attempts = attempts + 1;
        match bind(port) {
            Ok(listener) => {
                return Ok(HelperBindResult { listener, requested_port, effective_port: port, attempts });
            },
            Err(e) => {
                assert(bind.ensures(((requested_port as int + offset as int) as u16,), Err(e)));
                if !use_fallback {
                    return Err(PortFallbackError::Failed(e));
                }
                assert(helper_candidate_failed(bind, requested_port, offset as int));
                last_error = Some(e);
            },
        }
        offset = offset + 1;
    }
    assert(use_fallback);
    match find_rebindable() {
        Some(port) => {
            attempts = attempts + 1;
            match bind(port) {
                Ok(listener) => Ok(
                    HelperBindResult { listener, requested_port, effective_port: port, attempts },
                ),
                Err(e) => {
                    assert(bind.ensures((port,), Err(e)));
                    let ghost le: Option<IoFailure<E>> = Some(e);
                    assert(find_rebindable.ensures((), Some(port)));
                    assert(bind.ensures((port,), Err(le->0)));
                    assert(exists|p: u16| find_rebindable.ensures((), Some(p))
                        && #[trigger] bind.ensures((p,), Err(le->0)));
                    Err(
                        PortFallbackError::Exhausted {
                            requested_port,
                            attempts,
                            last_error: Some(e),
                        },
                    )
                },
            }
        },
        None => Err(PortFallbackError::Exhausted { requested_port, attempts, last_error }),
    }
}

} // verus!

verus! {

/// `str::parse::<u16>`: an optional `+` then decimal digits, at most 65535.
pub open spec fn parse_u16_spec(s: Seq<char>) -> Option<u16> {
    let d = if s.len() > 0 && s[0] == '+' {
        s.drop_first()
    } else {
        s
    };
    if valid_u64_digits(d) && decimal(d) <= u16::MAX {
        Some(decimal(d) as u16)
    } else {
        None
    }
}

pub fn parse_u16(s: &str) -> (r: Option<u16>)
    ensures
        r == parse_u16_spec(s@),
{
    let v = chars_of(s);
    let from: usize = if v.len() > 0 && v[0] == '+' {
        1
    } else {
        0
    };
    assert(v@.subrange(from as int, v@.len() as int) == (if s@.len() > 0 && s@[0] == '+' {
        s@.drop_first()
    } else {
        s@
    }));
    match parse_u64_digits(&v, from, v.len()) {
        Some(n) => if n <= 65535 {
            Some(n as u16)
        } else {
            None
        },
        None => None,
    }
}

pub open spec fn opt_str_view(o: Option<&str>) -> Option<Seq<char>> {
    match o {
        Some(s) => Some(s@),
        None => None,
    }
}

/// The guard port from the environment: an exact port (`CODEX_PLUS_GUARD_PORT`,
/// or when that is unset the process-specific variable), else the base plus an
/// explicit offset (`CODEX_PLUS_GUARD_PORT_OFFSET`), else the base plus the
/// automatic per-user offset. `None` when the sum does not fit in a port.
pub open spec fn guard_port_spec(
    base: u16,
    exact: Option<Seq<char>>,
    specific: Option<Seq<char>>,
    offset: Option<Seq<char>>,
    auto_offset: u16,
) -> Option<u16> {
    let chosen = match exact {
        Some(v) => Some(v),
        None => specific,
    };
    let port = match chosen {
        Some(v) => parse_u16_spec(v),
        None => None,
    };
    match port {
        Some(p) => Some(p),
        None => {
            let sum = match offset {
                Some(o) => match parse_u16_spec(o) {
                    Some(n) => base + n,
                    None => base + auto_offset,
                },
                None => base + auto_offset,
            };
            if sum <= u16::MAX {
                Some(sum as u16)
            } else {
                None
            }
        },
    }
}

/// Resolves a guard port from the values of its environment variables
/// (`None` for an unset variable).
pub fn resolve_guard_port(
    base: u16,
    exact: Option<&str>,
    specific: Option<&str>,
    offset: Option<&str>,
    auto_offset: u16,
) -> (r: Option<u16>)
    ensures
        r == guard_port_spec(
            base,
            opt_str_view(exact),
            opt_str_view(specific),
            opt_str_view(offset),
            auto_offset,
        ),
{
    let chosen = match exact {
        Some(v) => Some(v),
        None => specific,
    };
    let port = match chosen {
        Some(v) => parse_u16(v),
        None => None,
    };
    match port {
        Some(p) => Some(p),
        None => {
            let add = match offset {
                Some(o) => match parse_u16(o) {
                    Some(n) => n,
                    None => auto_offset,
                },
                None => auto_offset,
            };
            base.checked_add(add)
        },
    }
}

/// The message of the error returned when every candidate failed; `source`
/// describes the last failure, if there was one.
pub open spec fn exhausted_message_spec(requested_port: u16, attempts: usize, source: Option<Seq<char>>) -> Seq<char> {
    "failed to bind any loopback candidate near requested port "@ + crate::text::decimal_text(
        requested_port as nat,
    ) + " after "@ + crate::text::decimal_text(attempts as nat) + " attempt(s): "@ + match source {
        Some(s) => s,
        None => "no candidate was attempted"@,
    } + "; os error 10013 usually means the port sits in the Windows excluded port range (often caused by Docker/WSL/WinNAT)"@
}

pub fn exhausted_port_fallback_message(requested_port: u16, attempts: usize, source: Option<&str>) -> (r:
    String)
    ensures
        r@ == exhausted_message_spec(requested_port, attempts, opt_str_view(source)),
{
    let mut s = String::new();
    s.append("failed to bind any loopback candidate near requested port ");
    let rp = crate::text::decimal_string(requested_port as u64);
    s.append(rp.as_str());
    s.append(" after ");
    let at = crate::text::decimal_string(attempts as u64);
    s.append(at.as_str());
    s.append(" attempt(s): ");
    match source {
        Some(text) => s.append(text),
        None => s.append("no candidate was attempted"),
    }
    s.append(
        "; os error 10013 usually means the port sits in the Windows excluded port range (often caused by Docker/WSL/WinNAT)",
    );
    s
}

} // verus!

verus! {

/// The sum of `bs[..n]`, wrapping at 65536.
pub open spec fn wrapping_byte_sum(bs: Seq<u8>, n: int) -> int
    decreases n,
{
    if n <= 0 {
        0
    } else {
        (wrapping_byte_sum(bs, n - 1) + bs[n - 1]) % 65536
    }
}

/// The automatic guard port offset for a user on Windows: the sum of the
/// bytes of the user name, wrapping at 65536, modulo 1000.
pub open spec fn user_port_offset_spec(name: Seq<u8>) -> int {
    wrapping_byte_sum(name, name.len() as int) % 1000
}

pub fn user_port_offset(user_name: &str) -> (r: u16)
    ensures
        r == user_port_offset_spec(user_name.spec_bytes()),
{
    let bytes = user_name.as_bytes();
    let mut acc: u16 = 0;
    let mut i: usize = 0;
    while i < bytes.len()
        invariant
            bytes@ == user_name.spec_bytes(),
            i <= bytes@.len(),
            acc == wrapping_byte_sum(bytes@, i as int),
        decreases bytes.len() - i,
    {
        acc = ((acc as u32 + bytes[i] as u32) % 65536) as u16;
        i = i + 1;
    }
    acc % 1000
}

} // verus!

verus! {

/// Deterministic candidates never wrap around: each is the requested port plus
/// an offset below the span, and at most 65535, so a requested port other
/// than 0 never leads to candidate port 0.
pub proof fn law_candidates_never_wrap(requested: u16, use_fallback: bool, o: int)
    requires
        0 <= o < candidate_total(requested, use_fallback),
    ensures
        requested as int + o <= 65535,
        o < PORT_FALLBACK_CANDIDATE_SPAN,
        requested != 0 ==> requested as int + o != 0,
{
}

} // verus!
