use chronos::network::message::InFlightMessage;
use chronos::network::{BandwidthWindow, InFlightQueue, Message};
use chronos::time::Instant;

fn msg(id: u64) -> Message {
    Message::with_id(id, 1, 2, vec![0; id as usize], Instant::from_nanos(0))
}

#[test]
fn queue_delivers_due_messages_in_order() {
    let mut q = InFlightQueue::new();
    assert!(q.is_empty());
    assert_eq!(q.next_delivery_time(), None);
    q.push(InFlightMessage::new(msg(1), Instant::from_nanos(30)));
    q.push(InFlightMessage::new(msg(2), Instant::from_nanos(10)));
    q.push(InFlightMessage::new(msg(3), Instant::from_nanos(20)));
    assert_eq!(q.in_flight_count(), 3);
    assert_eq!(q.next_delivery_time(), Some(Instant::from_nanos(10)));

    let peek: Vec<u64> = q.peek_deliverable(Instant::from_nanos(20)).iter().map(|m| m.id).collect();
    assert_eq!(peek, vec![2, 3]);
    assert_eq!(q.in_flight_count(), 3);

    let got: Vec<u64> = q.deliver(Instant::from_nanos(5)).iter().map(|m| m.id).collect();
    assert!(got.is_empty());
    let got: Vec<u64> = q.deliver(Instant::from_nanos(20)).iter().map(|m| m.id).collect();
    assert_eq!(got, vec![2, 3]);
    assert_eq!(q.in_flight_count(), 1);
    assert_eq!(q.next_delivery_time(), Some(Instant::from_nanos(30)));
    q.clear();
    assert!(q.is_empty());
}

#[test]
fn bandwidth_window_limits_each_second() {
    let mut w = BandwidthWindow::new();
    assert!(w.try_send(1_000_000, Instant::from_nanos(0)));
    assert_eq!(w.window_start, None);

    w.bandwidth_bps = 100;
    assert!(w.try_send(60, Instant::from_nanos(5)));
    assert_eq!(w.window_start, Some(Instant::from_nanos(5)));
    assert_eq!(w.bytes_in_window, 60);
    assert!(!w.try_send(41, Instant::from_nanos(10)));
    assert_eq!(w.bytes_in_window, 60);
    assert!(w.try_send(40, Instant::from_nanos(10)));
    assert_eq!(w.bytes_in_window, 100);
    assert!(!w.try_send(1, Instant::from_nanos(999_999_999)));
    assert!(w.try_send(50, Instant::from_nanos(1_000_000_005)));
    assert_eq!(w.window_start, Some(Instant::from_nanos(1_000_000_005)));
    assert_eq!(w.bytes_in_window, 50);

    w.reset();
    assert_eq!(w.bytes_in_window, 0);
    assert_eq!(w.window_start, None);
    assert_eq!(w.bandwidth_bps, 100);
}
