use chronos::detection::{AccessType, RaceDetector};

#[test]
fn test_race_detector_new() {
    let detector = RaceDetector::new();
    assert!(!detector.has_races());
    assert_eq!(detector.race_count(), 0);
}

#[test]
fn test_no_race_same_task() {
    let mut detector = RaceDetector::new();

    detector.write(1, 100);
    let race = detector.read(1, 100);

    assert!(race.is_none());
    assert!(!detector.has_races());
}

#[test]
fn test_no_race_read_read() {
    let mut detector = RaceDetector::new();

    detector.read(1, 100);
    let race = detector.read(2, 100);

    assert!(race.is_none());
    assert!(!detector.has_races());
}

#[test]
fn test_race_write_write() {
    let mut detector = RaceDetector::new();

    detector.write(1, 100);
    let race = detector.write(2, 100);

    assert!(race.is_some());
    assert!(detector.has_races());
    assert_eq!(detector.race_count(), 1);
}

#[test]
fn test_race_read_write() {
    let mut detector = RaceDetector::new();

    detector.read(1, 100);
    let race = detector.write(2, 100);

    assert!(race.is_some());
    assert!(detector.has_races());
}

#[test]
fn test_no_race_synchronized() {
    let mut detector = RaceDetector::new();

    detector.write(1, 100);
    detector.synchronize(2, 1);
    let race = detector.read(2, 100);

    assert!(race.is_none());
}

#[test]
fn test_ignore_location() {
    let mut detector = RaceDetector::new();
    detector.ignore_location(100);

    detector.write(1, 100);
    let race = detector.write(2, 100);

    assert!(race.is_none());
    assert!(!detector.has_races());
}

#[test]
fn test_race_description() {
    let mut detector = RaceDetector::new();

    detector.write(1, 0x1234);
    let race = detector.read(2, 0x1234).unwrap();

    assert!(race.description.contains("0x1234"));
    assert!(race.description.contains("write"));
    assert!(race.description.contains("read"));
}

#[test]
fn test_multiple_races() {
    let mut detector = RaceDetector::new();

    detector.write(1, 100);
    detector.write(2, 100);

    detector.write(3, 200);
    detector.write(4, 200);

    assert_eq!(detector.race_count(), 2);

    let locations = detector.race_locations();
    assert!(locations.contains(&100));
    assert!(locations.contains(&200));
}

#[test]
fn race_test_reset() {
    let mut detector = RaceDetector::new();

    detector.write(1, 100);
    detector.write(2, 100);
    assert!(detector.has_races());

    detector.reset();
    assert!(!detector.has_races());
    assert_eq!(detector.race_count(), 0);
}

#[test]
fn test_with_history_size() {
    let detector = RaceDetector::with_history_size(50);
    assert_eq!(detector.max_history(), 50);
}

#[test]
fn test_race_has_write() {
    let mut detector = RaceDetector::new();

    detector.write(1, 100);
    let race = detector.read(2, 100).unwrap();

    assert!(race.has_write());
}

#[test]
fn race_description_is_exact() {
    let mut detector = RaceDetector::new();
    detector.write(1, 0x1234);
    let race = detector.read(2, 0x1234).unwrap();
    assert_eq!(
        race.description,
        "Data race on location 0x1234: write by task 1 and read by task 2 are concurrent"
    );
    assert_eq!(race.location(), 0x1234);
    assert_eq!(race.access1.access_type, AccessType::Write);
    assert_eq!(race.access2.access_type, AccessType::Read);
    assert_eq!((race.access1.task, race.access2.task), (1, 2));
}

#[test]
fn history_limit_forgets_old_accesses() {
    let mut detector = RaceDetector::with_history_size(1);
    detector.write(1, 7);
    detector.read(2, 7);
    assert_eq!(detector.race_count(), 1);
    // Task 1's write has been dropped: only task 2's read is kept.
    detector.synchronize(3, 2);
    assert!(detector.write(3, 7).is_none());
}

#[test]
fn races_slice_lists_races_in_order() {
    let mut detector = RaceDetector::default();
    detector.write(1, 100);
    detector.write(2, 100);
    detector.write(3, 200);
    detector.read(4, 200);
    let races = detector.races();
    assert_eq!(races.len(), 2);
    assert_eq!(races[0].location(), 100);
    assert_eq!(races[1].location(), 200);
}

#[test]
fn access_ids_grow_from_zero() {
    let mut detector = RaceDetector::new();
    detector.write(1, 5);
    let race = detector.write(2, 5).unwrap();
    assert_eq!(race.access1.id, 0);
    assert_eq!(race.access2.id, 1);
}
