use chronos::recording::{Event, EventPayload, EventType, Header, MAGIC, VERSION};

#[test]
fn test_header_new() {
    let header = Header::new(42, 1);
    assert_eq!(header.magic, MAGIC);
    assert_eq!(header.version, VERSION);
    assert_eq!(header.seed, 42);
    assert_eq!(header.strategy, 1);
    assert!(header.timestamp > 0);
}

#[test]
fn test_header_validate() {
    let header = Header::new(42, 1);
    assert!(header.validate().is_ok());
}

#[test]
fn test_header_validate_bad_magic() {
    let mut header = Header::new(42, 1);
    header.magic = *b"XXXX";
    assert_eq!(header.validate(), Err("invalid magic bytes"));
}

#[test]
fn test_header_validate_bad_version() {
    let mut header = Header::new(42, 1);
    header.version = VERSION + 1;
    assert_eq!(header.validate(), Err("unsupported version"));
}

#[test]
fn test_event_task_spawn() {
    let event = Event::task_spawn(1, 0, "main".to_string(), 1000);
    assert_eq!(event.event_type, EventType::TaskSpawn);
    assert_eq!(event.task_id, 1);
    assert_eq!(event.timestamp, 1000);
    match event.payload {
        EventPayload::TaskSpawn { parent, name } => {
            assert_eq!(parent, 0);
            assert_eq!(name, "main");
        }
        _ => panic!("wrong payload type"),
    }
}

#[test]
fn magic_spells_chrn() {
    assert_eq!(&MAGIC, b"CHRN");
}

#[test]
fn bad_magic_is_reported_before_bad_version() {
    let mut header = Header::new(7, 0);
    header.magic = *b"CHRX";
    header.version = VERSION + 5;
    assert_eq!(header.validate(), Err("invalid magic bytes"));
}

#[test]
fn older_versions_are_accepted() {
    let mut header = Header::new(7, 0);
    header.version = 0;
    assert_eq!(header.validate(), Ok(()));
}

#[test]
fn every_event_constructor_sets_its_type_and_payload() {
    let events = vec![
        (Event::task_yield(1, 100), EventType::TaskYield, EventPayload::TaskYield),
        (Event::task_complete(1, 200), EventType::TaskComplete, EventPayload::TaskComplete),
        (Event::time_query(1, 300, 12345), EventType::TimeQuery, EventPayload::TimeQuery { result: 12345 }),
        (Event::random_gen(1, 400, 99999), EventType::RandomGen, EventPayload::RandomGen { result: 99999 }),
        (Event::net_send(1, 500, 2, vec![1, 2, 3]), EventType::NetSend, EventPayload::NetSend { dst: 2, data: vec![1, 2, 3] }),
        (Event::net_recv(1, 600, 2, vec![4, 5, 6]), EventType::NetRecv, EventPayload::NetRecv { src: 2, data: vec![4, 5, 6] }),
        (
            Event::schedule_decision(0, 700, 1, vec![1, 2]),
            EventType::ScheduleDecision,
            EventPayload::ScheduleDecision { chosen: 1, ready: vec![1, 2] },
        ),
        (
            Event::fault_injected(0, 800, 1, 3),
            EventType::FaultInjected,
            EventPayload::FaultInjected { fault_type: 1, target: 3 },
        ),
    ];
    for (event, ty, payload) in events {
        assert_eq!(event.event_type, ty);
        assert_eq!(event.payload, payload);
    }
}

#[test]
fn stamped_header_carries_the_clock_nanoseconds() {
    let h = Header::stamped(7, 2, Some(std::time::Duration::from_nanos(5_000)));
    assert_eq!(h.timestamp, 5_000);
    assert_eq!(h.seed, 7);
    assert_eq!(h.strategy, 2);
    assert!(h.validate().is_ok());
    assert_eq!(Header::stamped(7, 2, None).timestamp, 0);
}
