use starscript::steward::{ProcessState, Steward};

#[test]
fn shutdown_drains_only_after_all_stopped() {
    let mut steward = Steward::new();
    for pid in ["worker-a", "worker-b", "worker-c"] {
        steward.process_start(pid.to_string());
        steward.process_ready(pid.to_string());
    }
    assert_eq!(steward.check_shutdown_status().len(), 3);

    steward.safe_shutdown();
    assert!(steward.is_shutdown_requested());

    steward.process_stop("worker-a".to_string());
    // Not empty before every worker has stopped.
    assert_eq!(steward.check_shutdown_status().len(), 2);
    steward.process_stop("worker-b".to_string());
    assert_eq!(steward.check_shutdown_status().len(), 1);
    steward.process_stop("worker-c".to_string());
    // Empty exactly once the whole cohort reached CLOSED.
    assert_eq!(steward.check_shutdown_status().len(), 0);
}

#[test]
fn get_process_state_reports_transitions() {
    let mut steward = Steward::new();
    assert_eq!(steward.get_process_state("w".to_string()), "NOT_FOUND");
    steward.process_start("w".to_string());
    assert_eq!(steward.get_process_state("w".to_string()), "START");
    steward.process_ready("w".to_string());
    assert_eq!(steward.get_process_state("w".to_string()), "READY");
    steward.process_stop("w".to_string());
    assert_eq!(steward.get_process_state("w".to_string()), "CLOSED");
}

#[test]
fn upserts_are_idempotent_per_process() {
    let mut steward = Steward::new();
    steward.process_start("w".to_string());
    steward.process_start("w".to_string());
    steward.process_ready("w".to_string());
    // Still a single record for the process.
    assert_eq!(steward.check_shutdown_status().len(), 1);
}

#[test]
fn poll_lists_only_unfinished_records() {
    let mut steward = Steward::new();
    steward.process_start("a".to_string());
    steward.process_ready("b".to_string());
    steward.process_stop("c".to_string());
    let unfinished = steward.check_shutdown_status();
    assert_eq!(unfinished.len(), 2);
    for record in &unfinished {
        assert_ne!(record.state, "CLOSED");
        assert!(record.process_id == "a" || record.process_id == "b");
    }
}

#[test]
fn shutdown_signal_does_not_touch_records() {
    let mut steward = Steward::new();
    steward.process_ready("a".to_string());
    steward.safe_shutdown();
    assert_eq!(steward.get_process_state("a".to_string()), "READY");
}

#[test]
fn process_state_renders_and_defaults() {
    assert_eq!(ProcessState::START.to_string(), "START");
    assert_eq!(ProcessState::READY.to_string(), "READY");
    assert_eq!(ProcessState::CLOSED.to_string(), "CLOSED");
    assert!(matches!(ProcessState::default(), ProcessState::START));
}

#[test]
fn process_status_record_carries_pid_and_state() {
    let record = starscript::log::ProcessStatus::new("pid-1".to_string(), ProcessState::READY);
    assert_eq!(record.process_id, "pid-1");
    assert_eq!(record.state, "READY");
}
