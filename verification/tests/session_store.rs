use browsectl::reap::{caller_is_alive, classify, outcome_lines, reap_sessions, ReapOutcome};
use browsectl::session::{is_session_file, session_file_name, temp_file_name, SessionRecord};

fn record(port: u16, launched_at: u64, fingerprint: Option<&str>) -> SessionRecord {
    SessionRecord {
        port,
        launched_at,
        caller_pid: 4242,
        caller_start_time: fingerprint.map(|s| s.to_string()),
    }
}

#[test]
fn session_files_are_named_by_port() {
    assert_eq!(session_file_name(9401), "9401.json");
    assert_eq!(session_file_name(0), "0.json");
    assert_eq!(temp_file_name(9402, 77), "9402.json.tmp-77");
}

#[test]
fn record_files_are_listed_and_temp_files_are_not() {
    assert!(is_session_file(&session_file_name(9401)));
    assert!(!is_session_file(&temp_file_name(9401, 31337)));
    assert!(is_session_file("not-json.json"));
    assert!(!is_session_file(".json"));
    assert!(!is_session_file("9401.JSON"));
    assert!(!is_session_file("9401.jsonx"));
    assert!(!is_session_file("json"));
}

#[test]
fn a_reused_pid_is_not_the_caller() {
    let r = record(9401, 0, Some("20260716211523.123456+120"));
    assert!(caller_is_alive(&r, true, &Some("20260716211523.123456+120".to_string())));
    assert!(!caller_is_alive(&r, true, &Some("20260801000000.000000+120".to_string())));
    assert!(!caller_is_alive(&r, false, &Some("20260716211523.123456+120".to_string())));
    assert!(caller_is_alive(&r, true, &None));
    assert!(caller_is_alive(&record(9401, 0, None), true, &Some("x".to_string())));
}

#[test]
fn classify_reports_the_age_past_the_limit() {
    let r = record(9401, 1_000, None);
    assert_eq!(
        classify(&r, Some(60), true, 1_100),
        Some("exceeded --max-age (100s old)".to_string())
    );
    assert_eq!(classify(&r, Some(100), true, 1_100), None);
    assert_eq!(classify(&r, None, true, 1_000_000), None);
    // A clock that went backwards gives age 0.
    assert_eq!(classify(&r, Some(0), true, 10), None);
    assert_eq!(
        classify(&r, Some(60), false, 1_001),
        Some("caller process is no longer running".to_string())
    );
}

#[test]
fn reap_keeps_live_young_sessions_and_lists_the_rest_in_order() {
    let records = vec![record(1, 1_000, None), record(2, 1_000, None), record(3, 10, None)];
    let alive = vec![true, false, true];
    let out = reap_sessions(records, &alive, Some(500), 1_100);
    let got: Vec<(u16, String)> = out.iter().map(|o| (o.record.port, o.reason.clone())).collect();
    assert_eq!(
        got,
        vec![
            (2, "caller process is no longer running".to_string()),
            (3, "exceeded --max-age (1090s old)".to_string()),
        ]
    );
}

#[test]
fn nothing_is_reaped_when_every_caller_lives_and_no_limit_is_set() {
    let records = vec![record(1, 0, None), record(2, 5, None)];
    assert!(reap_sessions(records, &vec![true, true], None, u64::MAX).is_empty());
}

#[test]
fn every_session_is_reaped_when_every_caller_is_dead() {
    let records = vec![record(7, 0, None), record(8, 5, None)];
    let out = reap_sessions(records, &vec![false, false], Some(1), 3);
    let ports: Vec<u16> = out.iter().map(|o| o.record.port).collect();
    assert_eq!(ports, vec![7, 8]);
    assert!(out.iter().all(|o| o.reason == "caller process is no longer running"));
}

#[test]
fn outcome_lines_for_a_dry_run_and_for_a_real_one() {
    let outcomes = vec![
        ReapOutcome { record: record(9401, 0, None), reason: "caller process is no longer running".to_string() },
        ReapOutcome { record: record(9402, 0, None), reason: "exceeded --max-age (7s old)".to_string() },
    ];
    assert_eq!(
        outcome_lines(&outcomes, true),
        vec![
            "Would reap session on port 9401 (caller process is no longer running)".to_string(),
            "Would reap session on port 9402 (exceeded --max-age (7s old))".to_string(),
            "Found 2 session(s).".to_string(),
        ]
    );
    assert_eq!(
        outcome_lines(&outcomes, false)[2],
        "Reaped 2 session(s).".to_string()
    );
    assert_eq!(
        outcome_lines(&Vec::new(), false),
        vec!["No orphaned or stale sessions found.".to_string()]
    );
}

use browsectl::reap::{reap_plan, ReapAction};

#[test]
fn reaped_records_are_reported_whole() {
    let records = vec![record(1, 1_000, Some("fp-1")), record(2, 1_000, Some("fp-2"))];
    let out = reap_sessions(records, &vec![false, true], None, 1_100);
    assert_eq!(out.len(), 1);
    let r = &out[0].record;
    assert_eq!(
        (r.port, r.launched_at, r.caller_pid, r.caller_start_time.as_deref()),
        (1, 1_000, 4242, Some("fp-1"))
    );
}

#[test]
fn a_dry_run_closes_nothing() {
    let outcomes = vec![
        ReapOutcome { record: record(9401, 0, None), reason: "x".to_string() },
        ReapOutcome { record: record(9402, 0, None), reason: "y".to_string() },
    ];
    assert!(reap_plan(&outcomes, true).is_empty());
    assert_eq!(
        reap_plan(&outcomes, false),
        vec![
            ReapAction::Close(9401),
            ReapAction::Forget(9401),
            ReapAction::Close(9402),
            ReapAction::Forget(9402),
        ]
    );
}
