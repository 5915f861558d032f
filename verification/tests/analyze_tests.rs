use chronos::cli::analyze::{
    analyze_events, analyze_lowered, passes_filters, describe_event, event_type_name, AnalysisResult, AnalyzeArgs, IssueSeverity,
    LivenessIssueType,
};
use chronos::recording::{Event, Header};
use chronos::recording::EventType;
use std::path::PathBuf;

fn test_recording() -> (Header, Vec<Event>) {
    let header = Header::new(42, 1);
    let events = vec![
        Event::task_spawn(1, 0, "main".to_string(), 0),
        Event::task_yield(1, 100),
        Event::net_send(1, 200, 2, vec![1, 2, 3]),
        Event::task_complete(1, 300),
    ];
    (header, events)
}

fn args(task: Option<u32>, event_type: Option<&str>, races: bool, liveness: bool) -> AnalyzeArgs {
    AnalyzeArgs {
        recording: PathBuf::from("test.chrn"),
        timeline: false,
        graph: false,
        races,
        liveness,
        format: "text".to_string(),
        task,
        event_type: event_type.map(|s| s.to_string()),
        verbose: false,
    }
}

fn analyze(events: &[Event], a: &AnalyzeArgs) -> AnalysisResult {
    analyze_events(events, 42, 1, a)
}

#[test]
fn test_analyze_basic() {
    let (header, events) = test_recording();
    let a = args(None, None, false, false);
    let result = analyze_events(&events, header.seed, header.strategy, &a);

    assert_eq!(result.seed, 42);
    assert_eq!(result.total_events, 4);
}

#[test]
fn test_analyze_with_filter() {
    let (header, events) = test_recording();
    let a = args(Some(1), None, false, false);
    let result = analyze_events(&events, header.seed, header.strategy, &a);
    assert_eq!(result.total_events, 4);
}

#[test]
fn analysis_counts_and_timeline() {
    let (_, events) = test_recording();
    let result = analyze(&events, &args(None, None, false, false));
    assert_eq!(result.strategy, 1);
    assert_eq!(result.max_time_ns, 300);
    assert_eq!(result.events_by_task.get(&1), Some(&4));
    assert_eq!(result.events_by_type.get(&EventType::TaskYield), Some(&1));
    assert_eq!(result.events_by_type.get(&EventType::NetRecv), None);
    let texts: Vec<&str> = result.timeline.iter().map(|t| t.description.as_str()).collect();
    assert_eq!(texts, vec!["spawn(main) by task 0", "yield", "send(3 bytes) -> node 2", "complete"]);
    assert_eq!(result.timeline[2].timestamp_ns, 200);
    assert_eq!(result.timeline[2].event_type, EventType::NetSend);
    assert_eq!(result.hb_edges, vec![(0, 1), (1, 2), (2, 3)]);
    assert!(result.concurrent_pairs.is_empty());
}

#[test]
fn analysis_reports_undelivered_sends() {
    let (_, events) = test_recording();
    let result = analyze(&events, &args(None, None, false, true));
    assert_eq!(result.issues.len(), 1);
    assert_eq!(result.issues[0].severity, IssueSeverity::Warning);
    assert_eq!(result.issues[0].description, "1 messages to node 2 were never received");
    assert_eq!(result.issues[0].event_id, None);
    assert_eq!(result.liveness_issues.len(), 1);
    assert_eq!(result.liveness_issues[0].issue_type, LivenessIssueType::UndeliveredMessages);
    assert_eq!(result.liveness_issues[0].description, "1 messages were never received");
}

#[test]
fn analysis_type_filter_ignores_case() {
    let (_, events) = test_recording();
    let result = analyze(&events, &args(None, Some("YIELD"), false, false));
    assert_eq!(result.total_events, 4);
    assert_eq!(result.timeline.len(), 1);
    assert_eq!(result.timeline[0].event_type, EventType::TaskYield);

    let result = analyze(&events, &args(None, Some("task"), false, false));
    assert_eq!(result.timeline.len(), 3);

    let result = analyze(&events, &args(Some(7), None, false, false));
    assert_eq!(result.total_events, 4);
    assert!(result.timeline.is_empty());
    assert_eq!(result.max_time_ns, 0);
}

#[test]
fn analysis_lowered_filter_is_taken_as_given() {
    let (_, events) = test_recording();
    let result = analyze_lowered(&events, 1, 0, None, Some("netsend"), false, false);
    assert_eq!(result.timeline.len(), 1);
    let result = analyze_lowered(&events, 1, 0, None, Some("NetSend"), false, false);
    assert!(result.timeline.is_empty());
}

fn two_task_run() -> Vec<Event> {
    vec![
        Event::task_spawn(1, 0, "a".to_string(), 0),
        Event::task_spawn(2, 0, "b".to_string(), 5),
        Event::net_send(1, 10, 2, vec![9]),
        Event::task_yield(2, 12),
        Event::net_recv(2, 20, 1, vec![9]),
        Event::task_yield(1, 25),
    ]
}

#[test]
fn analysis_orders_send_before_receive() {
    let events = two_task_run();
    let result = analyze(&events, &args(None, None, true, true));
    assert_eq!(result.hb_edges, vec![(0, 2), (1, 3), (3, 4), (2, 4), (2, 5)]);
    assert_eq!(result.concurrent_pairs, vec![(0, 1), (0, 3), (2, 1), (2, 3), (5, 1), (5, 3), (5, 4)]);
    assert_eq!(result.races.len(), 3);
    assert_eq!(result.races[0].event1_idx, 2);
    assert_eq!(result.races[0].event2_idx, 3);
    assert_eq!(result.races[0].task1, 1);
    assert_eq!(result.races[0].task2, 2);
    assert_eq!(result.races[0].description, "Concurrent operations: T1 send(1 bytes) -> node 2 || T2 yield");
    assert_eq!(result.races[2].description, "Concurrent operations: T1 yield || T2 recv(1 bytes) <- node 1");
    let kinds: Vec<LivenessIssueType> = result.liveness_issues.iter().map(|i| i.issue_type).collect();
    assert_eq!(
        kinds,
        vec![
            LivenessIssueType::IncompleteTasks,
            LivenessIssueType::PotentialDeadlock
        ]
    );
    assert_eq!(result.liveness_issues[0].description, "2 tasks never completed");
    assert_eq!(result.liveness_issues[1].description, "All 2 tasks appear to be blocked");
    let warnings: Vec<&str> = result.issues.iter().map(|i| i.description.as_str()).collect();
    assert_eq!(warnings, vec!["Task 1 never completed", "Task 2 never completed"]);
}

#[test]
fn analysis_without_race_pass_lists_none() {
    let events = two_task_run();
    let result = analyze(&events, &args(None, None, false, false));
    assert!(result.races.is_empty());
    assert!(result.liveness_issues.is_empty());
    assert_eq!(result.concurrent_pairs.len(), 7);
}

#[test]
fn analysis_flags_receive_without_send_and_faults() {
    let events = vec![
        Event::net_send(1, 1, 5, vec![]),
        Event::net_recv(5, 2, 1, vec![]),
        Event::net_recv(5, 3, 1, vec![]),
        Event::fault_injected(0, 4, 2, 7),
    ];
    let result = analyze(&events, &args(None, None, false, false));
    assert_eq!(result.issues.len(), 2);
    assert_eq!(result.issues[0].severity, IssueSeverity::Warning);
    assert_eq!(result.issues[0].description, "Receive from 1 without matching send");
    assert_eq!(result.issues[0].event_id, Some(3));
    assert_eq!(result.issues[0].timestamp_ns, Some(3));
    assert_eq!(result.issues[1].severity, IssueSeverity::Info);
    assert_eq!(result.issues[1].description, "Fault type 2 injected at target 7");
    assert_eq!(result.issues[1].event_id, Some(4));
    assert_eq!(IssueSeverity::Info.label(), "INFO");
    assert_eq!(IssueSeverity::Warning.label(), "WARN");
    assert_eq!(IssueSeverity::Error.label(), "ERROR");
}

#[test]
fn analysis_finds_livelock() {
    let mut events = vec![Event::task_spawn(3, 0, "spin".to_string(), 0)];
    for i in 0..101u64 {
        events.push(Event::task_yield(3, i + 1));
    }
    let result = analyze(&events, &args(None, None, false, true));
    let last = result.liveness_issues.last().unwrap();
    assert_eq!(last.issue_type, LivenessIssueType::PotentialLivelock);
    assert_eq!(last.task_id, Some(3));
    assert_eq!(last.description, "Task 3 has 101 yields without completing");
    assert_eq!(result.liveness_issues.len(), 2);

    events.truncate(100);
    let result = analyze(&events, &args(None, None, false, true));
    assert_eq!(result.liveness_issues.len(), 1);
}

#[test]
fn describes_each_payload() {
    assert_eq!(describe_event(&Event::time_query(1, 0, 77)), "time_query() = 77ns");
    assert_eq!(describe_event(&Event::random_gen(1, 0, 5)), "random() = 5");
    assert_eq!(describe_event(&Event::schedule_decision(1, 0, 2, vec![1, 2])), "schedule: chose 2 from [1, 2]");
    assert_eq!(describe_event(&Event::fault_injected(1, 0, 3, 4)), "fault(type=3) @ target 4");
    assert_eq!(event_type_name(EventType::ScheduleDecision), "ScheduleDecision");
}

#[test]
fn receive_consumes_send_addressed_to_receiver() {
    let events = vec![
        Event::task_spawn(1, 0, "a".to_string(), 0),
        Event::task_spawn(2, 0, "b".to_string(), 0),
        Event::net_send(1, 100, 2, vec![1]),
        Event::net_recv(2, 150, 1, vec![1]),
        Event::task_complete(1, 200),
        Event::task_complete(2, 200),
    ];
    let result = analyze(&events, &args(None, None, false, true));
    assert_eq!(result.total_events, 6);
    assert!(result.issues.iter().all(|i| !i.description.contains("never received")));
    assert!(result.liveness_issues.is_empty());
}

#[test]
fn filters_pass_events_by_task_and_type() {
    let spawn = Event::task_spawn(1, 0, "main".to_string(), 0);
    let send = Event::net_send(2, 10, 1, vec![1]);
    assert!(passes_filters(&spawn, &args(None, None, false, false)));
    assert!(passes_filters(&spawn, &args(Some(1), Some("SPAWN"), false, false)));
    assert!(!passes_filters(&spawn, &args(Some(2), None, false, false)));
    assert!(!passes_filters(&send, &args(None, Some("spawn"), false, false)));
    assert!(passes_filters(&send, &args(Some(2), Some("send"), false, false)));
}
