use chronos::network::message::InFlightMessage;
use chronos::network::Message;
use chronos::time::Instant;
use std::time::Duration;

#[test]
fn test_message_size() {
    let msg = Message::with_id(0, 1, 2, vec![0; 100], Instant::from_nanos(0));
    assert_eq!(msg.size(), 100);

    let empty_msg = Message::with_id(0, 1, 2, vec![], Instant::from_nanos(0));
    assert_eq!(empty_msg.size(), 0);
    assert!(empty_msg.is_empty());
}

#[test]
fn test_message_clone() {
    let original = Message::with_id(42, 1, 2, vec![1, 2, 3], Instant::from_nanos(100));
    let cloned = original.clone();

    assert_eq!(original, cloned);
    assert_eq!(original.id, cloned.id);
    assert_eq!(original.data, cloned.data);
}

#[test]
fn test_in_flight_message() {
    let msg = Message::with_id(0, 1, 2, vec![], Instant::from_nanos(100));
    let in_flight = InFlightMessage::new(msg, Instant::from_nanos(200));

    assert_eq!(in_flight.latency(), Duration::from_nanos(100));
}

#[test]
fn test_with_id() {
    let msg = Message::with_id(999, 1, 2, vec![42], Instant::from_nanos(50));
    assert_eq!(msg.id, 999);
}

#[test]
fn early_delivery_has_zero_latency() {
    let msg = Message::with_id(0, 1, 2, vec![], Instant::from_nanos(500));
    let in_flight = InFlightMessage::new(msg, Instant::from_nanos(200));
    assert_eq!(in_flight.latency(), Duration::ZERO);
}

#[test]
fn messages_differing_in_payload_are_unequal() {
    let a = Message::with_id(1, 1, 2, vec![1], Instant::from_nanos(0));
    let b = Message::with_id(1, 1, 2, vec![2], Instant::from_nanos(0));
    assert_ne!(a, b);
    assert!(!a.is_empty());
}
