use std::time::Duration;

use chronos::network::fault::{can_communicate, Fault, FaultState};

#[test]
fn fault_test_partition_blocks_communication() {
    let mut state = FaultState::<f64>::new();

    // No partition - all can communicate
    assert!(state.can_communicate(1, 2));
    assert!(state.can_communicate(1, 3));

    // Add partition: [1, 2] and [3, 4]
    state.apply(&Fault::partition(vec![vec![1, 2], vec![3, 4]]));

    // Same group can communicate
    assert!(state.can_communicate(1, 2));
    assert!(state.can_communicate(3, 4));

    // Different groups cannot
    assert!(!state.can_communicate(1, 3));
    assert!(!state.can_communicate(2, 4));
}

#[test]
fn test_clock_jump_fault() {
    let mut state = FaultState::<f64>::new();

    // Default offset is 0
    assert_eq!(state.clock_offset(1), 0);

    // Jump node 1 forward by 1 second
    state.apply(&Fault::clock_jump(1, 1_000_000_000));
    assert_eq!(state.clock_offset(1), 1_000_000_000);

    // Jumps accumulate
    state.apply(&Fault::clock_jump(1, 500_000_000));
    assert_eq!(state.clock_offset(1), 1_500_000_000);

    // Jump backward
    state.apply(&Fault::clock_jump(1, -1_000_000_000));
    assert_eq!(state.clock_offset(1), 500_000_000);
}

#[test]
fn partition_with_free_groups() {
    assert!(can_communicate(&[], 1, 2));
    let groups = vec![vec![1, 2], vec![3, 4]];
    assert!(can_communicate(&groups, 2, 1));
    assert!(!can_communicate(&groups, 4, 1));
    assert!(!can_communicate(&groups, 5, 5));
}

#[test]
fn crash_and_restart_come_back_to_the_caller() {
    let mut state = FaultState::<f64>::new();
    assert_eq!(state.apply(&Fault::crash(3)), Some(Fault::Crash { node: 3 }));
    assert_eq!(state.apply(&Fault::crash(3)), Some(Fault::Crash { node: 3 }));
    assert!(state.is_crashed(3));
    assert!(state.crashed_nodes().contains(&3) && state.crashed_nodes().len() == 1);
    assert!(state.fixed_faults_active());
    assert_eq!(state.apply(&Fault::restart(3)), Some(Fault::Restart { node: 3 }));
    assert!(!state.is_crashed(3));
    assert!(state.crashed_nodes().is_empty());
    assert!(!state.fixed_faults_active());
    assert_eq!(state.apply(&Fault::Drop { rate: 0.25 }), None);
}

#[test]
fn rates_are_kept_as_given() {
    let mut state = FaultState::<f64>::new();
    assert_eq!(state.drop_rate(), None);
    state.apply(&Fault::Drop { rate: 0.5 });
    state.apply(&Fault::Duplicate { rate: 0.3 });
    state.apply(&Fault::ClockSkew { node: 1, rate: 2.0 });
    state.apply(&Fault::DiskReadError { rate: 0.1 });
    state.apply(&Fault::DiskWriteError { rate: 0.2 });
    state.apply(&Fault::Corrupt { rate: 0.05 });
    assert_eq!(state.drop_rate(), Some(0.5));
    assert_eq!(state.duplicate_rate(), Some(0.3));
    assert_eq!(state.clock_skew(1), Some(2.0));
    assert_eq!(state.clock_skew(2), None);
    assert_eq!(state.disk_read_error_rate(), Some(0.1));
    assert_eq!(state.disk_write_error_rate(), Some(0.2));
    assert_eq!(state.corruption_rate(), Some(0.05));
    assert!(state.fixed_faults_active());
    state.clear_clock_skew(1);
    assert_eq!(state.clock_skew(1), None);
    assert!(!state.fixed_faults_active());
}

#[test]
fn heal_clears_everything() {
    let mut state = FaultState::<f64>::new();
    state.apply(&Fault::partition(vec![vec![1], vec![2]]));
    state.apply(&Fault::Drop { rate: 0.5 });
    state.apply(&Fault::delay(Duration::from_millis(10), Duration::from_millis(100)));
    state.apply(&Fault::full_disk());
    state.apply(&Fault::clock_jump(4, 1000));
    assert!(!state.can_communicate(1, 2));
    assert_eq!(state.delay(), Some((Duration::from_millis(10), Duration::from_millis(100))));
    assert!(state.is_full_disk());
    state.apply(&Fault::heal());
    assert!(state.can_communicate(1, 2));
    assert_eq!(state.drop_rate(), None);
    assert!(state.delay().is_none());
    assert!(!state.is_full_disk());
    assert_eq!(state.clock_offset(4), 0);
    assert!(!state.fixed_faults_active());
}

#[test]
fn clear_clock_offset_keeps_other_nodes() {
    let mut state = FaultState::<f64>::new();
    state.apply(&Fault::clock_jump(1, 1000));
    state.apply(&Fault::clock_jump(2, -5));
    state.clear_clock_offset(1);
    assert_eq!(state.clock_offset(1), 0);
    assert_eq!(state.clock_offset(2), -5);
}

#[test]
fn clock_fault_constructors() {
    let jump = Fault::<f64>::clock_jump(2, -1000);
    assert!(matches!(jump, Fault::ClockJump { node: 2, delta: -1000 }));

    let jump_fwd = Fault::<f64>::clock_jump_forward(3, Duration::from_secs(1));
    assert!(matches!(jump_fwd, Fault::ClockJump { node: 3, delta: 1_000_000_000 }));

    let split = Fault::<f64>::split(vec![1, 2], vec![3]);
    assert_eq!(split, Fault::Partition { groups: vec![vec![1, 2], vec![3]] });
}
