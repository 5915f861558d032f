use chronos::runtime::{BlockReason, TaskHandle};
use chronos::time::Instant;

#[test]
fn test_task_handle_new() {
    let handle = TaskHandle::new(42);
    assert_eq!(handle.id(), 42);
    assert!(!handle.is_complete());
}

#[test]
fn test_task_handle_completed() {
    let handle = TaskHandle::completed(42);
    assert!(handle.is_complete());
}

#[test]
fn test_task_handle_mark_complete() {
    let handle = TaskHandle::new(1);
    assert!(!handle.is_complete());
    handle.mark_complete();
    assert!(handle.is_complete());
}

#[test]
fn test_task_handle_clone() {
    let handle1 = TaskHandle::new(1);
    let handle2 = handle1.clone();

    handle1.mark_complete();
    assert!(handle2.is_complete());
}

#[test]
fn block_reasons_compare_by_kind_and_contents() {
    assert_eq!(BlockReason::Time(Instant::from_nanos(5)), BlockReason::Time(Instant::from_nanos(5)));
    assert_ne!(BlockReason::Time(Instant::from_nanos(5)), BlockReason::Time(Instant::from_nanos(6)));
    assert_eq!(BlockReason::Other("x".to_string()).clone(), BlockReason::Other("x".to_string()));
    assert_ne!(BlockReason::Task(1), BlockReason::Lock);
}
