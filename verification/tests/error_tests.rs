use chronos::error::Error;

#[test]
fn test_deadlock_display() {
    let err = Error::Deadlock { cycle: vec![1, 2, 3, 1] };
    assert!(err.to_string().contains("1 -> 2 -> 3 -> 1"));
}

#[test]
fn test_livelock_display() {
    let err = Error::Livelock { stuck_tasks: vec![1, 2], steps: 10000 };
    assert!(err.to_string().contains("[1, 2]"));
    assert!(err.to_string().contains("10000"));
}

#[test]
fn test_assertion_failed_display() {
    let err = Error::AssertionFailed { message: "x should be 5".to_string(), location: "test.rs:42".to_string() };
    assert!(err.to_string().contains("test.rs:42"));
    assert!(err.to_string().contains("x should be 5"));
}

#[test]
fn test_timeout_display() {
    let err = Error::Timeout { simulated_time: std::time::Duration::from_secs(60) };
    assert!(err.to_string().contains("60s"));
}

#[test]
fn test_replay_mismatch_display() {
    let err = Error::ReplayMismatch { expected: "task 1 runs".to_string(), got: "task 2 runs".to_string() };
    assert!(err.to_string().contains("task 1 runs"));
    assert!(err.to_string().contains("task 2 runs"));
}

#[test]
fn test_config_error_display() {
    let err = Error::ConfigError { message: "invalid timeout".to_string() };
    assert!(err.to_string().contains("invalid timeout"));
}

#[test]
fn messages_are_exact() {
    assert_eq!(Error::Deadlock { cycle: vec![4, 5, 4] }.to_string(), "deadlock detected: cycle involves tasks 4 -> 5 -> 4");
    assert_eq!(
        Error::Livelock { stuck_tasks: vec![], steps: 3 }.to_string(),
        "livelock detected: tasks [] made no progress for 3 steps"
    );
    assert_eq!(Error::NodeNotFound(7).to_string(), "node 7 not found");
    assert_eq!(Error::TaskNotFound(9).to_string(), "task 9 not found");
    assert_eq!(Error::InvalidRecording { reason: "short".to_string() }.to_string(), "invalid recording: short");
    assert_eq!(
        Error::Timeout { simulated_time: std::time::Duration::from_millis(1500) }.to_string(),
        "timeout after 1.5s simulated time"
    );
}

#[test]
fn io_errors_keep_their_text() {
    let err = Error::Io(std::io::Error::new(std::io::ErrorKind::Other, "disk on fire"));
    assert_eq!(err.to_string(), "io error: disk on fire");
}
