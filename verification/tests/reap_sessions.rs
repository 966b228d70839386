use browsectl::reap::classify;
use browsectl::session::{now_unix_secs, SessionRecord};

#[test]
fn test_classify_reaps_when_caller_pid_is_implausible() {
    let record = SessionRecord {
        port: 1,
        launched_at: 0,
        // Far beyond any realistic PID range — never a real caller, so the
        // liveness check reports it dead.
        caller_pid: u32::MAX - 1,
        caller_start_time: None,
    };
    let caller_alive = false;
    assert_eq!(
        classify(&record, None, caller_alive, now_unix_secs()),
        Some("caller process is no longer running".to_string())
    );
}

#[test]
fn test_now_unix_secs_returns_a_plausible_recent_timestamp() {
    // 2026-01-01T00:00:00Z, as a sanity floor — must not be near-zero or negative.
    assert!(now_unix_secs() > 1_767_225_600);
}
