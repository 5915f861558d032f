use chronos::network::FaultSchedule;
use chronos::time::Instant;

#[derive(Debug, Clone, PartialEq)]
enum Fault {
    Drop { rate: f64 },
    Duplicate { rate: f64 },
    Heal,
}

impl Fault {
    fn drop(rate: f64) -> Self {
        Fault::Drop { rate }
    }

    fn duplicate(rate: f64) -> Self {
        Fault::Duplicate { rate }
    }

    fn heal() -> Self {
        Fault::Heal
    }
}

#[test]
fn test_schedule_add_and_get() {
    let mut schedule = FaultSchedule::new();
    schedule.add(Instant::from_nanos(100), Fault::drop(0.5));
    schedule.add(Instant::from_nanos(200), Fault::heal());

    let faults = schedule.faults_at(Instant::from_nanos(100));
    assert_eq!(faults.len(), 1);
    assert!(matches!(faults[0], Fault::Drop { rate } if *rate == 0.5));
}

#[test]
fn test_schedule_multiple_at_same_time() {
    let mut schedule = FaultSchedule::new();
    schedule.add(Instant::from_nanos(100), Fault::drop(0.5));
    schedule.add(Instant::from_nanos(100), Fault::duplicate(0.1));

    let faults = schedule.faults_at(Instant::from_nanos(100));
    assert_eq!(faults.len(), 2);
}

#[test]
fn test_next_fault_time() {
    let mut schedule = FaultSchedule::new();
    schedule.add(Instant::from_nanos(100), Fault::drop(0.5));
    schedule.add(Instant::from_nanos(300), Fault::heal());

    assert_eq!(schedule.next_fault_time(Instant::from_nanos(0)), Some(Instant::from_nanos(100)));
    assert_eq!(schedule.next_fault_time(Instant::from_nanos(100)), Some(Instant::from_nanos(300)));
    assert_eq!(schedule.next_fault_time(Instant::from_nanos(300)), None);
}

#[test]
fn test_take_faults_until() {
    let mut schedule = FaultSchedule::new();
    schedule.add(Instant::from_nanos(100), Fault::drop(0.5));
    schedule.add(Instant::from_nanos(200), Fault::duplicate(0.1));
    schedule.add(Instant::from_nanos(300), Fault::heal());

    let taken = schedule.take_faults_until(Instant::from_nanos(200));
    assert_eq!(taken.len(), 2);
    assert_eq!(schedule.len(), 1); // Only the 300ns fault remains
}

#[test]
fn test_schedule_is_empty() {
    let mut schedule = FaultSchedule::new();
    assert!(schedule.is_empty());

    schedule.add(Instant::from_nanos(100), Fault::heal());
    assert!(!schedule.is_empty());
}

#[test]
fn schedule_keeps_instants_in_order() {
    let mut schedule: FaultSchedule<u32> = FaultSchedule::default();
    schedule.add(Instant::from_nanos(300), 1);
    schedule.add(Instant::from_nanos(100), 2);
    schedule.add(Instant::from_nanos(200), 3);
    schedule.add(Instant::from_nanos(100), 4);
    assert_eq!(schedule.len(), 4);
    let faults: Vec<u32> = schedule.faults_at(Instant::from_nanos(100)).into_iter().copied().collect();
    assert_eq!(faults, vec![2, 4]);
    assert!(schedule.faults_at(Instant::from_nanos(150)).is_empty());
    let taken = schedule.take_faults_until(Instant::from_nanos(250));
    assert_eq!(
        taken,
        vec![(Instant::from_nanos(100), 2), (Instant::from_nanos(100), 4), (Instant::from_nanos(200), 3)]
    );
    assert_eq!(schedule.next_fault_time(Instant::from_nanos(0)), Some(Instant::from_nanos(300)));
    assert!(schedule.take_faults_until(Instant::from_nanos(299)).is_empty());
    assert_eq!(schedule.take_faults_until(Instant::from_nanos(300)), vec![(Instant::from_nanos(300), 1)]);
    assert!(schedule.is_empty());
    assert_eq!(schedule.len(), 0);
}
