use codex_plus_core::json::Json;
use codex_plus_core::repair::{
    analyze_local_project_assignments, apply_assignments, apply_local_project_assignments,
    apply_local_project_assignments_with_home, current_safe_assignments, normalize_path,
    check_written_state, plan_local_project_assignments, project_roots, repaired_state_bytes,
    rollout_thread_id, verify_assignments, write_step, PlannedAssignment, RepairError,
    RolloutRecord, RolloutScan, StateField, WriteAction, WriteEvent, WriteFailure, WriteStage,
    ASSIGNMENTS_KEY, MAX_ROLLOUT_LINES,
};

const PROJECT_A: &str = "11111111-1111-1111-1111-111111111111";
const PROJECT_B: &str = "22222222-2222-2222-2222-222222222222";
const THREAD_A: &str = "aaaaaaaa-aaaa-4aaa-8aaa-aaaaaaaaaaaa";
const THREAD_B: &str = "bbbbbbbb-bbbb-4bbb-8bbb-bbbbbbbbbbbb";

fn to_json(value: &serde_json::Value) -> Json {
    match value {
        serde_json::Value::Null => Json::Null,
        serde_json::Value::Bool(b) => Json::Bool(*b),
        serde_json::Value::Number(n) => {
            if let Some(u) = n.as_u64() {
                Json::UInt(u)
            } else if let Some(i) = n.as_i64() {
                Json::Int(i)
            } else {
                Json::Float(n.to_string())
            }
        }
        serde_json::Value::String(s) => Json::Str(s.clone()),
        serde_json::Value::Array(items) => Json::Array(items.iter().map(to_json).collect()),
        serde_json::Value::Object(map) => Json::Object(
            map.iter()
                .map(|(k, v)| (k.clone(), to_json(v)))
                .collect(),
        ),
    }
}

fn from_json(value: &Json) -> serde_json::Value {
    match value {
        Json::Null => serde_json::Value::Null,
        Json::Bool(b) => serde_json::Value::Bool(*b),
        Json::UInt(n) => serde_json::Value::from(*n),
        Json::Int(n) => serde_json::Value::from(*n),
        Json::Float(text) => serde_json::from_str(text).unwrap(),
        Json::Str(s) => serde_json::Value::String(s.clone()),
        Json::Array(items) => serde_json::Value::Array(items.iter().map(from_json).collect()),
        Json::Object(entries) => serde_json::Value::Object(
            entries
                .iter()
                .map(|(k, v)| (k.clone(), from_json(v)))
                .collect(),
        ),
    }
}

fn state_text(roots: &str, assignments: Option<&str>) -> String {
    let assignments = match assignments {
        Some(a) => format!(",\"thread-project-assignments\":{a}"),
        None => String::new(),
    };
    format!(
        "{{\"local-projects\":{{\"{PROJECT_A}\":{{\"id\":\"{PROJECT_A}\"}},\"{PROJECT_B}\":{{\"id\":\"{PROJECT_B}\"}}}},\
         \"project-order\":[\"{PROJECT_A}\",\"{PROJECT_B}\"],\
         \"electron-saved-workspace-roots\":{roots}{assignments},\"unrelated\":{{\"keep\":true}}}}"
    )
}

fn state() -> Json {
    parse(&state_text("[\"/workspace/one\",\"/workspace/two\"]", Some("{}")))
}

fn bytes(value: &Json) -> Vec<u8> {
    serde_json::to_vec(&from_json(value)).unwrap()
}

fn parse(text: &str) -> Json {
    to_json(&serde_json::from_str::<serde_json::Value>(text).unwrap())
}

/// Reads a rollout file's lines as the scan does.
fn record(file_id: &str, contents: &str) -> RolloutRecord {
    let thread_id = rollout_thread_id(&format!("rollout-{file_id}.jsonl")).unwrap();
    let mut scan = RolloutScan::new();
    for line in contents.lines() {
        if scan.feed_line(line.len() as u64, line) {
            break;
        }
    }
    RolloutRecord {
        thread_id,
        cwd: scan.cwd,
        malformed_lines: scan.malformed_lines,
    }
}

fn cwd(value: &str) -> String {
    format!("{{\"payload\":{{\"cwd\":\"{value}\"}}}}")
}

#[test]
fn exact_match_and_nested_cwd_are_planned() {
    let rollouts = vec![
        record(THREAD_A, &cwd("/workspace/one/../one")),
        record(
            THREAD_B,
            "{\"payload\":{\"state\":{\"environments\":{\"environments\":{\"local\":{\"cwd\":\"/workspace/two\"}}}}}}",
        ),
    ];
    let r = analyze_local_project_assignments(&bytes(&state()), &rollouts, false).unwrap();
    assert_eq!(r.safe_assignments_found, 2);
}

#[test]
fn unmatched_missing_and_malformed_are_skipped() {
    let rollouts = vec![record(THREAD_A, "not json\n"), record(THREAD_B, &cwd("/no/match"))];
    let r = analyze_local_project_assignments(&bytes(&state()), &rollouts, false).unwrap();
    assert_eq!(r.safe_assignments_found, 0);
    assert_eq!(r.unmatched, 1);
    assert_eq!(r.missing_cwd, 1);
    assert_eq!(r.malformed_rollout_lines, 1);
}

#[test]
fn current_state_revalidation_skips_stale_project_mapping() {
    let value = parse(&state_text("[\"/workspace/other\",\"/workspace/two\"]", Some("{}")));
    let planned = vec![PlannedAssignment {
        thread_id: THREAD_A.to_string(),
        project_id: PROJECT_A.to_string(),
        cwd: "/workspace/one".to_string(),
    }];

    let applied = current_safe_assignments(&value, &planned, None, false).unwrap();

    assert!(applied.is_empty());
}

#[test]
fn existing_assignment_is_preserved_and_apply_is_idempotent() {
    let value = parse(&state_text(
        "[\"/workspace/one\",\"/workspace/two\"]",
        Some(&format!("{{\"{THREAD_A}\":{{\"projectId\":\"unchanged\"}}}}")),
    ));
    let rollouts = vec![record(THREAD_A, &cwd("/workspace/one"))];
    assert_eq!(
        analyze_local_project_assignments(&bytes(&value), &rollouts, false)
            .unwrap()
            .safe_assignments_found,
        0
    );
    let application = apply_local_project_assignments(&bytes(&value), &rollouts, &bytes(&value), false).unwrap();
    assert_eq!(application.report.applied_assignments, 0);
    assert!(application.new_state.is_none());
}

#[test]
fn duplicate_roots_and_duplicate_rollouts_are_safe() {
    let value = parse(&state_text("[\"/workspace/one\",\"/workspace/one\"]", Some("{}")));
    let mut rollouts = vec![
        record(THREAD_A, &cwd("/workspace/one")),
        record(THREAD_B, &cwd("/workspace/one")),
    ];
    let r = analyze_local_project_assignments(&bytes(&value), &rollouts, false).unwrap();
    assert_eq!(r.ambiguous, 2);
    rollouts.push(record(
        "copy-aaaaaaaa-aaaa-4aaa-8aaa-aaaaaaaaaaaa",
        &cwd("/workspace/one"),
    ));
    assert_eq!(
        analyze_local_project_assignments(&bytes(&value), &rollouts, false)
            .unwrap()
            .duplicate_rollout_thread_ids,
        1
    );
}

#[test]
fn dry_run_preserves_state_backup_and_unrelated_fields() {
    let value = state();
    let before = from_json(&value);
    let rollouts = vec![record(THREAD_A, &cwd("/workspace/one"))];
    analyze_local_project_assignments(&bytes(&value), &rollouts, false).unwrap();
    assert_eq!(from_json(&value), before);
    let application = apply_local_project_assignments(&bytes(&value), &rollouts, &bytes(&value), false).unwrap();
    assert_eq!(application.report.applied_assignments, 1);
    let written = application.new_state.unwrap();
    let out = from_json(&written);
    assert_eq!(out["unrelated"]["keep"], serde_json::Value::Bool(true));
    let again = apply_local_project_assignments(&bytes(&written), &rollouts, &bytes(&written), false).unwrap();
    assert_eq!(again.report.applied_assignments, 0);
}

#[test]
fn missing_assignment_object_is_created_on_apply() {
    let value = parse(&state_text("[\"/workspace/one\",\"/workspace/two\"]", None));
    let rollouts = vec![record(THREAD_A, &cwd("/workspace/one"))];

    let analysis = analyze_local_project_assignments(&bytes(&value), &rollouts, false).unwrap();
    assert_eq!(analysis.existing_assignments, 0);
    assert_eq!(analysis.safe_assignments_found, 1);

    let result = apply_local_project_assignments(&bytes(&value), &rollouts, &bytes(&value), false).unwrap();
    assert_eq!(result.report.applied_assignments, 1);
    let out = from_json(&result.new_state.unwrap());
    assert_eq!(
        out[ASSIGNMENTS_KEY][THREAD_A]["projectId"],
        serde_json::Value::String(PROJECT_A.to_string())
    );
}

#[test]
fn verification_failure_restores_original_state() {
    let value = state();
    let rollouts = vec![record(THREAD_A, &cwd("/workspace/one"))];
    let application = apply_local_project_assignments(&bytes(&value), &rollouts, &bytes(&value), false).unwrap();
    let written = application.new_state.unwrap();
    assert_eq!(verify_assignments(&written, &application.applied), Ok(()));
    let error = verify_assignments(&parse("{}"), &application.applied).unwrap_err();
    assert_eq!(error, RepairError::NotObject(StateField::Assignments));
    let wrong = parse(&format!(
        "{{\"thread-project-assignments\":{{\"{THREAD_A}\":{{\"projectKind\":\"local\",\"projectId\":\"{PROJECT_B}\",\"cwd\":\"/workspace/one\",\"pendingCoreUpdate\":false}}}}}}"
    ));
    assert_eq!(
        verify_assignments(&wrong, &application.applied),
        Err(RepairError::VerificationFailed)
    );
}

#[test]
fn written_assignment_has_the_documented_shape() {
    let value = state();
    let rollouts = vec![record(THREAD_A, &cwd("/workspace/one"))];
    let application = apply_local_project_assignments(&bytes(&value), &rollouts, &bytes(&value), false).unwrap();
    let out = from_json(&application.new_state.unwrap());
    let expected: serde_json::Value = serde_json::from_str(&format!(
        "{{\"projectKind\":\"local\",\"projectId\":\"{PROJECT_A}\",\"cwd\":\"/workspace/one\",\"pendingCoreUpdate\":false}}"
    ))
    .unwrap();
    assert_eq!(out[ASSIGNMENTS_KEY][THREAD_A], expected);
}

#[test]
fn apply_keeps_existing_assignments_of_other_threads() {
    let value = parse(&state_text(
        "[\"/workspace/one\",\"/workspace/two\"]",
        Some(&format!("{{\"{THREAD_B}\":{{\"projectId\":\"kept\"}}}}")),
    ));
    let rollouts = vec![record(THREAD_A, &cwd("/workspace/one"))];
    let application =
        apply_local_project_assignments_with_home(&value, &rollouts, &value, None, false).unwrap();
    let out = from_json(&application.new_state.unwrap());
    assert_eq!(
        out[ASSIGNMENTS_KEY][THREAD_B]["projectId"],
        serde_json::Value::String("kept".to_string())
    );
    assert_eq!(
        out[ASSIGNMENTS_KEY][THREAD_A]["projectId"],
        serde_json::Value::String(PROJECT_A.to_string())
    );
}

#[test]
fn state_defects_are_reported_in_order() {
    let rollouts: Vec<RolloutRecord> = Vec::new();
    assert_eq!(
        plan_local_project_assignments(&parse("[]"), &rollouts, None, false).unwrap_err(),
        RepairError::NotObject(StateField::State)
    );
    assert_eq!(
        plan_local_project_assignments(&parse("{\"thread-project-assignments\":[]}"), &rollouts, None, false)
            .unwrap_err(),
        RepairError::NotObject(StateField::Assignments)
    );
    assert_eq!(
        plan_local_project_assignments(&parse("{}"), &rollouts, None, false).unwrap_err(),
        RepairError::NotObject(StateField::LocalProjects)
    );
    assert_eq!(
        project_roots(&parse("{\"local-projects\":{},\"project-order\":[1],\"electron-saved-workspace-roots\":[]}"), None, false)
            .unwrap_err(),
        RepairError::NotStrings(StateField::ProjectOrder)
    );
    assert_eq!(
        project_roots(&parse("{\"local-projects\":{},\"project-order\":[\"a\"],\"electron-saved-workspace-roots\":[]}"), None, false)
            .unwrap_err(),
        RepairError::RootsLengthMismatch
    );
    assert_eq!(
        project_roots(&parse("{\"local-projects\":{},\"project-order\":[]}"), None, false).unwrap_err(),
        RepairError::NotArray(StateField::SavedWorkspaceRoots)
    );
}

#[test]
fn apply_requires_an_object_state() {
    let planned = vec![PlannedAssignment {
        thread_id: THREAD_A.to_string(),
        project_id: PROJECT_A.to_string(),
        cwd: "/workspace/one".to_string(),
    }];
    assert_eq!(
        apply_assignments(&parse("3"), &planned).unwrap_err(),
        RepairError::NotObject(StateField::State)
    );
    assert_eq!(
        apply_assignments(&parse("{\"thread-project-assignments\":1}"), &planned).unwrap_err(),
        RepairError::NotObject(StateField::Assignments)
    );
}

#[test]
fn paths_are_normalized_for_comparison() {
    assert_eq!(normalize_path("  /a/./b/../c/ ", None, false), Some("/a/c".to_string()));
    assert_eq!(normalize_path("a\\b", None, false), Some("a/b".to_string()));
    assert_eq!(normalize_path("~/x", Some("/home/u"), false), Some("/home/u/x".to_string()));
    assert_eq!(normalize_path("~/x", None, false), None);
    assert_eq!(normalize_path("   ", None, false), None);
    assert_eq!(normalize_path("C:/Users/Me/..", None, true), Some("c:\\users".to_string()));
    assert_eq!(normalize_path("/../..", None, false), Some("/".to_string()));
}

#[test]
fn rollout_file_names_give_lowercase_thread_ids() {
    assert_eq!(
        rollout_thread_id("rollout-2026-01-01T00-00-00-AAAAAAAA-AAAA-4AAA-8AAA-AAAAAAAAAAAA.jsonl"),
        Some(THREAD_A.to_string())
    );
    assert_eq!(rollout_thread_id(&format!("rollout-{THREAD_A}.json")), None);
    assert_eq!(rollout_thread_id("rollout-short.jsonl"), None);
    assert_eq!(
        rollout_thread_id("rollout-aaaaaaaa-aaaa-4aaa-8aaa-aaaaaaaaaaaz.jsonl"),
        None
    );
}

#[test]
fn rollout_scan_stops_at_line_limit_and_skips_long_lines() {
    let mut scan = RolloutScan::new();
    let mut done = false;
    let mut fed = 0usize;
    while !done {
        done = scan.feed(10, None);
        fed += 1;
    }
    assert_eq!(fed, MAX_ROLLOUT_LINES);
    assert_eq!(scan.malformed_lines, MAX_ROLLOUT_LINES);

    let mut scan = RolloutScan::new();
    let long = parse(&cwd("/ignored"));
    assert!(!scan.feed(65537, Some(&long)));
    assert_eq!(scan.cwd, None);
    assert_eq!(scan.malformed_lines, 0);
    let blank = parse(&cwd("   "));
    assert!(!scan.feed(10, Some(&blank)));
    assert!(scan.feed(10, Some(&parse(&cwd("/workspace/one")))));
    assert_eq!(scan.cwd, Some("/workspace/one".to_string()));
}

#[test]
fn normalizing_a_normalized_path_gives_it_back() {
    let once = normalize_path("/workspace/one/../one", None, false).unwrap();
    assert_eq!(once, "/workspace/one");
    assert_eq!(normalize_path(&once, None, false), Some(once.clone()));
    let root = normalize_path("/a/..", None, false).unwrap();
    assert_eq!(root, "/");
    assert_eq!(normalize_path(&root, None, false), Some(root.clone()));
    let relative = normalize_path("x\\.\\y//", None, false).unwrap();
    assert_eq!(relative, "x/y");
    assert_eq!(normalize_path(&relative, None, false), Some(relative.clone()));
}

#[test]
fn analysis_counts_each_thread_once() {
    let value = parse(&state_text("[\"/workspace/one\",\"/workspace/one\"]", Some("{}")));
    let rollouts = vec![
        record(THREAD_A, &cwd("/workspace/one")),
        record(THREAD_B, &cwd("/workspace/one")),
        record("copy-aaaaaaaa-aaaa-4aaa-8aaa-aaaaaaaaaaaa", &cwd("/workspace/one")),
    ];
    let r = analyze_local_project_assignments(&bytes(&value), &rollouts, false).unwrap();
    assert_eq!(r.duplicate_rollout_thread_ids, 1);
    assert_eq!(
        r.safe_assignments_found + r.unmatched + r.ambiguous + r.missing_cwd,
        2 - 1
    );
    assert_eq!(r.applied_assignments, 0);
}

#[test]
fn state_that_is_not_json_is_refused() {
    let rollouts = vec![record(THREAD_A, &cwd("/workspace/one"))];
    assert_eq!(
        analyze_local_project_assignments(b"{not json", &rollouts, false).unwrap_err(),
        RepairError::NotJson
    );
    let value = bytes(&state());
    assert!(matches!(
        apply_local_project_assignments(&value, &rollouts, b"", false),
        Err(RepairError::NotJson)
    ));
    let none: Vec<RolloutRecord> = Vec::new();
    let application = apply_local_project_assignments(&value, &none, b"", false).unwrap();
    assert_eq!(application.report.applied_assignments, 0);
    assert!(application.new_state.is_none());
}

#[test]
fn rollout_lines_are_parsed_as_they_are_fed() {
    let mut scan = RolloutScan::new();
    assert!(!scan.feed_line(8, "not json"));
    assert_eq!(scan.malformed_lines, 1);
    assert!(!scan.feed_line(65537, "{}"));
    assert_eq!(scan.malformed_lines, 1);
    assert!(scan.feed_line(10, &cwd("/workspace/two")));
    assert_eq!(scan.cwd, Some("/workspace/two".to_string()));
}

#[test]
fn written_state_is_read_back_and_restored_on_failure() {
    let value = state();
    let rollouts = vec![record(THREAD_A, &cwd("/workspace/one"))];
    let application =
        apply_local_project_assignments(&bytes(&value), &rollouts, &bytes(&value), false).unwrap();
    let written = repaired_state_bytes(&application.new_state.unwrap()).unwrap();
    assert!(std::str::from_utf8(&written).unwrap().contains('\n'));
    assert_eq!(check_written_state(&written, &application.applied), Ok(()));
    assert_eq!(check_written_state(b"[", &application.applied), Err(RepairError::NotJson));
    let applied = &application.applied;

    let (stage, action) = write_step(WriteStage::Writing, WriteEvent::Written, applied);
    assert_eq!(action, WriteAction::ReadBack);
    let (stage, action) = write_step(stage, WriteEvent::ReadBack(written.clone()), applied);
    assert_eq!((stage, action), (WriteStage::Done, WriteAction::Succeed));

    let (stage, action) = write_step(WriteStage::Checking, WriteEvent::ReadBack(b"{}".to_vec()), applied);
    assert_eq!(action, WriteAction::Restore);
    let (_, action) = write_step(stage, WriteEvent::Restored, applied);
    assert_eq!(
        action,
        WriteAction::Fail {
            failure: WriteFailure::Check(RepairError::NotObject(StateField::Assignments)),
            restored: true
        }
    );

    let (stage, action) = write_step(WriteStage::Writing, WriteEvent::NotWritten, applied);
    assert_eq!(action, WriteAction::Restore);
    let (_, action) = write_step(stage, WriteEvent::NotRestored, applied);
    assert_eq!(
        action,
        WriteAction::Fail { failure: WriteFailure::Write, restored: false }
    );
    let (stage, _) = write_step(WriteStage::Checking, WriteEvent::NotReadBack, applied);
    assert_eq!(stage, WriteStage::Restoring(WriteFailure::ReadBack));
}
