use chronos::detection::{LivelockDetector, ProgressTracker};

#[test]
fn test_tracker_new() {
    let tracker = ProgressTracker::new(100);
    assert_eq!(tracker.threshold(), 100);
}

#[test]
fn test_tracker_record_step() {
    let mut tracker = ProgressTracker::new(10);

    tracker.record_step(1);
    tracker.record_step(1);
    tracker.record_step(1);

    assert_eq!(tracker.steps_without_progress(1), 3);
    assert_eq!(tracker.total_steps(1), 3);
}

#[test]
fn test_tracker_record_progress() {
    let mut tracker = ProgressTracker::new(10);

    tracker.record_step(1);
    tracker.record_step(1);
    tracker.record_progress(1);

    assert_eq!(tracker.steps_without_progress(1), 0);
    assert_eq!(tracker.total_steps(1), 2);
}

#[test]
fn test_tracker_is_stuck() {
    let mut tracker = ProgressTracker::new(5);

    for _ in 0..4 {
        tracker.record_step(1);
    }
    assert!(!tracker.is_stuck(1));

    tracker.record_step(1);
    assert!(tracker.is_stuck(1));
}

#[test]
fn test_tracker_stuck_tasks() {
    let mut tracker = ProgressTracker::new(3);

    for _ in 0..3 {
        tracker.record_step(1);
        tracker.record_step(2);
    }

    let stuck = tracker.stuck_tasks();
    assert_eq!(stuck.len(), 2);

    tracker.record_progress(1);
    let stuck = tracker.stuck_tasks();
    assert_eq!(stuck.len(), 1);
    assert!(stuck.contains(&2));
}

#[test]
fn test_tracker_remove_task() {
    let mut tracker = ProgressTracker::new(5);

    tracker.record_step(1);
    tracker.remove_task(1);

    assert_eq!(tracker.steps_without_progress(1), 0);
    assert_eq!(tracker.total_steps(1), 0);
}

#[test]
fn test_detector_no_livelock() {
    let mut detector = LivelockDetector::new(10);

    for _ in 0..5 {
        detector.task_step(1);
    }

    assert!(detector.check().is_none());
}

#[test]
fn test_detector_livelock() {
    let mut detector = LivelockDetector::new(10);

    for _ in 0..10 {
        detector.task_step(1);
    }

    let stuck = detector.check();
    assert!(stuck.is_some());
    assert!(stuck.unwrap().contains(&1));
}

#[test]
fn test_detector_progress_resets() {
    let mut detector = LivelockDetector::new(10);

    for _ in 0..9 {
        detector.task_step(1);
    }

    detector.task_progress(1);

    for _ in 0..9 {
        detector.task_step(1);
    }

    assert!(detector.check().is_none());
}

#[test]
fn test_detector_task_completed() {
    let mut detector = LivelockDetector::new(5);

    for _ in 0..5 {
        detector.task_step(1);
    }

    assert!(detector.check().is_some());

    detector.task_completed(1);
    assert!(detector.check().is_none());
}

#[test]
fn default_threshold_is_one_thousand() {
    assert_eq!(ProgressTracker::with_default_threshold().threshold(), 1000);
    let detector = LivelockDetector::with_default_threshold();
    assert!(!detector.is_stuck(1));
}

#[test]
fn lowering_threshold_makes_tasks_stuck() {
    let mut tracker = ProgressTracker::new(100);
    tracker.record_step(3);
    tracker.record_step(3);
    assert!(!tracker.is_stuck(3));
    tracker.set_threshold(2);
    assert!(tracker.is_stuck(3));
    assert_eq!(tracker.stuck_tasks(), vec![3]);
}

#[test]
fn task_info_reports_both_counters() {
    let mut detector = LivelockDetector::new(10);
    detector.task_step(4);
    detector.task_step(4);
    detector.task_progress(4);
    detector.task_step(4);
    assert_eq!(detector.task_info(4), (1, 3));
    assert_eq!(detector.task_info(9), (0, 0));
}

#[test]
fn progress_on_unknown_task_records_nothing() {
    let mut tracker = ProgressTracker::new(1);
    tracker.record_progress(8);
    assert_eq!(tracker.total_steps(8), 0);
    assert!(tracker.stuck_tasks().is_empty());
}
