use chronos::cluster::{HappensBeforeGraph, VectorClock};

#[test]
fn test_vector_clock_new() {
    let vc = VectorClock::new();
    assert_eq!(vc.get(0), 0);
    assert_eq!(vc.get(1), 0);
}

#[test]
fn test_vector_clock_increment() {
    let mut vc = VectorClock::new();
    vc.increment(0);
    vc.increment(0);
    vc.increment(1);

    assert_eq!(vc.get(0), 2);
    assert_eq!(vc.get(1), 1);
}

#[test]
fn test_vector_clock_merge() {
    let mut vc1 = VectorClock::new();
    vc1.increment(0);
    vc1.increment(0);

    let mut vc2 = VectorClock::new();
    vc2.increment(1);
    vc2.increment(1);
    vc2.increment(1);

    vc1.merge(&vc2);

    assert_eq!(vc1.get(0), 2);
    assert_eq!(vc1.get(1), 3);
}

#[test]
fn test_vector_clock_happened_before() {
    let mut vc1 = VectorClock::new();
    vc1.increment(0);

    let mut vc2 = VectorClock::new();
    vc2.increment(0);
    vc2.increment(0);

    assert!(vc1.happened_before(&vc2));
    assert!(!vc2.happened_before(&vc1));
}

#[test]
fn test_vector_clock_concurrent() {
    let mut vc1 = VectorClock::new();
    vc1.increment(0);

    let mut vc2 = VectorClock::new();
    vc2.increment(1);

    assert!(vc1.concurrent(&vc2));
    assert!(vc2.concurrent(&vc1));
}

#[test]
fn equal_clocks_are_neither_before_nor_concurrent() {
    let mut a = VectorClock::new();
    a.increment(3);
    let b = a.clone();
    assert!(!a.happened_before(&b));
    assert!(!b.happened_before(&a));
    assert!(!a.concurrent(&b));
    assert!(a == b);
}

#[test]
fn merge_takes_pointwise_maximum() {
    let mut a = VectorClock::new();
    a.increment(0);
    a.increment(0);
    a.increment(1);
    let mut b = VectorClock::new();
    b.increment(1);
    b.increment(1);
    b.increment(2);
    a.merge(&b);
    assert_eq!((a.get(0), a.get(1), a.get(2)), (2, 2, 1));
    assert!(b.happened_before(&a));
}

#[test]
fn increment_moves_clock_forward() {
    let mut a = VectorClock::default();
    a.increment(4);
    let before = a.clone();
    a.increment(4);
    assert!(before.happened_before(&a));
}

#[test]
fn test_hb_graph_local_events() {
    let mut hb = HappensBeforeGraph::new();

    let e1 = hb.local_event(0, "event 1");
    let e2 = hb.local_event(0, "event 2");
    let e3 = hb.local_event(0, "event 3");

    // Sequential events on same node
    assert!(hb.happened_before(e1, e2));
    assert!(hb.happened_before(e2, e3));
    assert!(hb.happened_before(e1, e3));

    // Not concurrent
    assert!(!hb.concurrent(e1, e2));
}

#[test]
fn test_hb_graph_concurrent_nodes() {
    let mut hb = HappensBeforeGraph::new();

    let e1 = hb.local_event(0, "node 0 event");
    let e2 = hb.local_event(1, "node 1 event");

    // Events on different nodes without communication are concurrent
    assert!(hb.concurrent(e1, e2));
    assert!(!hb.happened_before(e1, e2));
    assert!(!hb.happened_before(e2, e1));
}

#[test]
fn test_hb_graph_send_recv() {
    let mut hb = HappensBeforeGraph::new();

    // Node 0 sends to node 1
    let send = hb.send_event(0, "send");
    let recv = hb.recv_event(1, send, "recv");

    // Send happens before receive
    assert!(hb.happened_before(send, recv));
    assert!(!hb.happened_before(recv, send));
    assert!(!hb.concurrent(send, recv));
}

#[test]
fn test_hb_graph_causal_chain() {
    let mut hb = HappensBeforeGraph::new();

    // Node 0: e1 -> send
    let e1 = hb.local_event(0, "e1");
    let send = hb.send_event(0, "send");

    // Node 1: recv -> e2
    let recv = hb.recv_event(1, send, "recv");
    let e2 = hb.local_event(1, "e2");

    // Full causal chain
    assert!(hb.happened_before(e1, e2));
    assert!(hb.happened_before(send, recv));
    assert!(hb.happened_before(e1, recv));
}

#[test]
fn test_hb_graph_reset() {
    let mut hb = HappensBeforeGraph::new();
    hb.local_event(0, "e1");
    hb.local_event(1, "e2");

    assert_eq!(hb.event_count(), 2);

    hb.reset();

    assert_eq!(hb.event_count(), 0);
}

#[test]
fn hb_graph_keeps_events_by_id() {
    let mut hb = HappensBeforeGraph::default();
    let a = hb.local_event(3, "a");
    let b = hb.recv_event(4, 99, "b");
    assert_eq!((a, b), (0, 1));
    let e = hb.get_event(b).unwrap();
    assert_eq!(e.node, 4);
    assert_eq!(e.description, "b");
    assert_eq!(e.clock.get(4), 1);
    assert_eq!(e.clock.get(3), 0);
    assert!(hb.get_event(2).is_none());
    assert_eq!(hb.events().len(), 2);
    assert!(!hb.happened_before(a, 7));
    assert!(hb.concurrent(a, b));
    let c = hb.recv_event(4, a, "c");
    assert_eq!(hb.get_event(c).unwrap().clock.get(3), 1);
    assert_eq!(hb.get_event(c).unwrap().clock.get(4), 2);
    assert!(hb.happened_before(a, c));
    assert!(hb.happened_before(b, c));
}
