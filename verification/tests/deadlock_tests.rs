use chronos::detection::{DeadlockDetector, WaitGraph};

#[test]
fn test_wait_graph_empty() {
    let graph = WaitGraph::new();
    assert!(graph.is_empty());
    assert_eq!(graph.edge_count(), 0);
}

#[test]
fn test_wait_graph_add_remove() {
    let mut graph = WaitGraph::new();

    graph.add_wait(1, 2);
    assert_eq!(graph.edge_count(), 1);

    graph.add_wait(1, 3);
    assert_eq!(graph.edge_count(), 2);

    graph.remove_wait(1, 2);
    assert_eq!(graph.edge_count(), 1);
}

#[test]
fn test_wait_graph_remove_task() {
    let mut graph = WaitGraph::new();

    graph.add_wait(1, 2);
    graph.add_wait(2, 3);
    graph.add_wait(3, 1);

    graph.remove_task(2);
    assert_eq!(graph.edge_count(), 1);
}

#[test]
fn test_no_cycle() {
    let mut graph = WaitGraph::new();

    graph.add_wait(1, 2);
    graph.add_wait(2, 3);

    assert!(graph.detect_cycle().is_none());
}

#[test]
fn test_simple_cycle() {
    let mut graph = WaitGraph::new();

    graph.add_wait(1, 2);
    graph.add_wait(2, 1);

    let cycle = graph.detect_cycle();
    assert!(cycle.is_some());
    let cycle = cycle.unwrap();
    assert!(cycle.contains(&1));
    assert!(cycle.contains(&2));
}

#[test]
fn test_longer_cycle() {
    let mut graph = WaitGraph::new();

    graph.add_wait(1, 2);
    graph.add_wait(2, 3);
    graph.add_wait(3, 1);

    let cycle = graph.detect_cycle();
    assert!(cycle.is_some());
}

#[test]
fn test_would_deadlock() {
    let mut graph = WaitGraph::new();

    graph.add_wait(1, 2);
    graph.add_wait(2, 3);

    assert!(graph.would_deadlock(3, 1));
    assert!(!graph.would_deadlock(3, 4));
}

#[test]
fn test_detector_basic() {
    let mut detector = DeadlockDetector::new();

    detector.task_waiting(1, 2);
    assert!(detector.check().is_none());

    detector.task_waiting(2, 1);
    assert!(detector.check().is_some());
}

#[test]
fn test_detector_release() {
    let mut detector = DeadlockDetector::new();

    detector.task_waiting(1, 2);
    detector.task_waiting(2, 1);
    assert!(detector.check().is_some());

    detector.task_released(2, 1);
    assert!(detector.check().is_none());
}

#[test]
fn test_detector_completed() {
    let mut detector = DeadlockDetector::new();

    detector.task_waiting(1, 2);
    detector.task_waiting(2, 3);
    detector.task_waiting(3, 1);

    detector.task_completed(2);
    assert!(detector.check().is_none());
}

#[test]
fn self_wait_is_a_cycle() {
    let mut graph = WaitGraph::new();
    graph.add_wait(5, 5);
    assert_eq!(graph.detect_cycle(), Some(vec![5, 5]));
    assert!(graph.would_deadlock(7, 7));
}

#[test]
fn cycle_found_follows_wait_edges() {
    let mut graph = WaitGraph::new();
    graph.add_wait(10, 1);
    graph.add_wait(1, 2);
    graph.add_wait(2, 3);
    graph.add_wait(3, 1);
    let cycle = graph.detect_cycle().unwrap();
    assert!(!cycle.contains(&10));
    assert_eq!(cycle.len(), 4);
    assert_eq!(cycle[0], cycle[3]);
    let mut inner = cycle[..3].to_vec();
    inner.sort();
    assert_eq!(inner, vec![1, 2, 3]);
}

#[test]
fn duplicate_waits_count_once() {
    let mut graph = WaitGraph::new();
    graph.add_wait(1, 2);
    graph.add_wait(1, 2);
    assert_eq!(graph.edge_count(), 1);
    graph.remove_wait(1, 2);
    assert_eq!(graph.edge_count(), 0);
}

#[test]
fn would_deadlock_leaves_graph_unchanged() {
    let mut detector = DeadlockDetector::new();
    detector.task_waiting(1, 2);
    assert!(detector.would_deadlock(2, 1));
    assert!(!detector.would_deadlock(1, 3));
    assert!(detector.check().is_none());
}

#[test]
fn removing_the_only_holder_leaves_the_graph_empty() {
    let mut graph = WaitGraph::new();
    graph.add_wait(1, 2);
    graph.remove_task(2);
    assert_eq!(graph.edge_count(), 0);
    assert!(graph.is_empty());
}

#[test]
fn removing_a_task_keeps_other_waits() {
    let mut graph = WaitGraph::new();
    graph.add_wait(1, 2);
    graph.add_wait(1, 3);
    graph.add_wait(4, 2);
    graph.remove_task(2);
    assert_eq!(graph.edge_count(), 1);
    assert!(!graph.is_empty());
    assert!(graph.would_deadlock(3, 1));
}

#[test]
fn waiting_then_releasing_restores_the_graph() {
    let mut graph = WaitGraph::new();
    graph.add_wait(1, 2);
    graph.add_wait(3, 4);
    let before = graph.edge_count();
    graph.add_wait(1, 5);
    graph.add_wait(6, 7);
    graph.remove_wait(6, 7);
    graph.remove_wait(1, 5);
    assert_eq!(graph.edge_count(), before);
    assert!(!graph.is_empty());
    graph.remove_wait(1, 2);
    graph.remove_wait(3, 4);
    assert!(graph.is_empty());
}
