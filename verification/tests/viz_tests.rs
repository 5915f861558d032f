use chronos::recording::{Event, Header};
use chronos::viz::{Report, ReportConfig, SequenceDiagram, TimelineBuilder};

#[test]
fn empty_timeline() {
    let builder = TimelineBuilder::new();
    let timeline = builder.build();

    assert_eq!(timeline.event_count(), 0);
    assert_eq!(timeline.task_count(), 0);
    assert_eq!(timeline.duration_ns(), 0);
}

#[test]
fn single_task_lifecycle() {
    let mut builder = TimelineBuilder::new();

    builder.add_event(&Event::task_spawn(1, 0, "main".to_string(), 0));
    builder.add_event(&Event::task_yield(1, 100));
    builder.add_event(&Event::task_complete(1, 200));

    let timeline = builder.build();

    assert_eq!(timeline.event_count(), 3);
    assert_eq!(timeline.task_count(), 1);
    assert_eq!(timeline.duration_ns(), 200);

    let task = timeline.tasks.get(&1).unwrap();
    assert_eq!(task.name, "main");
    assert_eq!(task.spawn_time, 0);
    assert_eq!(task.complete_time, Some(200));
}

#[test]
fn failure_tracking() {
    let mut builder = TimelineBuilder::new();

    builder.add_event(&Event::task_spawn(1, 0, "main".to_string(), 0));
    builder.add_event(&Event::fault_injected(0, 100, 1, 1));

    let timeline = builder.build();

    assert!(timeline.has_failures());
    assert_eq!(timeline.failure_count(), 1);
}

#[test]
fn network_events() {
    let mut builder = TimelineBuilder::new();

    builder.add_event(&Event::task_spawn(1, 0, "sender".to_string(), 0));
    builder.add_event(&Event::task_spawn(2, 0, "receiver".to_string(), 0));
    builder.add_event(&Event::net_send(1, 100, 2, vec![1, 2, 3]));
    builder.add_event(&Event::net_recv(2, 150, 1, vec![1, 2, 3]));

    let timeline = builder.build();

    assert_eq!(timeline.event_count(), 4);
    assert_eq!(timeline.task_count(), 2);
}

#[test]
fn entry_descriptions() {
    let mut builder = TimelineBuilder::new();
    builder.add_event(&Event::task_spawn(1, 0, "test".to_string(), 0));

    let timeline = builder.build();
    let entry = &timeline.entries[0];

    assert_eq!(entry.event_type, "spawn");
    assert!(entry.description.contains("test"));
    assert_eq!(entry.css_class, "spawn");
}

#[test]
fn every_description_is_exact() {
    let mut b = TimelineBuilder::default();
    b.add_event(&Event::task_spawn(1, 0, "main".to_string(), 0));
    b.add_event(&Event::task_yield(1, 10));
    b.add_event(&Event::time_query(1, 20, 99));
    b.add_event(&Event::random_gen(1, 30, 7));
    b.add_event(&Event::net_send(1, 40, 2, vec![1, 2]));
    b.add_event(&Event::net_recv(3, 50, 1, vec![1]));
    b.add_event(&Event::schedule_decision(0, 60, 1, vec![1, 3]));
    b.add_event(&Event::fault_injected(0, 70, 4, 2));
    b.add_event(&Event::task_complete(1, 80));
    let t = b.build();
    let got: Vec<(&str, &str, &str)> =
        t.entries.iter().map(|e| (e.event_type.as_str(), e.description.as_str(), e.css_class.as_str())).collect();
    assert_eq!(
        got,
        vec![
            ("spawn", "Task 'main' spawned by task 0", "spawn"),
            ("yield", "Task 'main' yielded", "yield"),
            ("time", "Task 'main' queried time: 99ns", "time"),
            ("random", "Task 'main' generated random: 7", "random"),
            ("send", "Task 'main' sent 2 bytes to task 2", "network"),
            ("recv", "Task 'unknown' received 1 bytes from task 1", "network"),
            ("schedule", "Scheduler chose task 1 from 2 ready", "schedule"),
            ("fault", "Fault type 4 injected on task 2", "failure"),
            ("complete", "Task 'main' completed", "complete"),
        ]
    );
    assert_eq!(t.duration_ns(), 80);
    assert_eq!(t.failures.len(), 1);
    assert_eq!(t.failures[0].timestamp, 70);
}

#[test]
fn completion_of_unknown_task_records_nothing() {
    let mut b = TimelineBuilder::new();
    b.add_event(&Event::task_complete(9, 5));
    let t = b.build();
    assert_eq!(t.task_count(), 0);
    assert_eq!(t.event_count(), 1);
}

#[test]
fn duration_is_latest_timestamp_not_last() {
    let mut b = TimelineBuilder::new();
    b.add_event(&Event::task_yield(1, 500));
    b.add_event(&Event::task_yield(1, 100));
    assert_eq!(b.build().duration_ns(), 500);
}

#[test]
fn empty_diagram() {
    let diagram = SequenceDiagram::new();
    assert_eq!(diagram.message_count(), 0);
    assert_eq!(diagram.participant_count(), 0);
}

#[test]
fn single_message() {
    let mut diagram = SequenceDiagram::new();

    diagram.add_event(&Event::task_spawn(1, 0, "sender".to_string(), 0));
    diagram.add_event(&Event::task_spawn(2, 0, "receiver".to_string(), 0));
    diagram.add_event(&Event::net_send(1, 100, 2, vec![1, 2, 3]));
    diagram.add_event(&Event::net_recv(2, 150, 1, vec![1, 2, 3]));

    assert_eq!(diagram.participant_count(), 2);
    assert_eq!(diagram.message_count(), 1);

    let msg = &diagram.messages()[0];
    assert_eq!(msg.from, 1);
    assert_eq!(msg.to, 2);
    assert_eq!(msg.send_time, 100);
    assert_eq!(msg.recv_time, Some(150));
    assert_eq!(msg.size, 3);
}

#[test]
fn multiple_messages() {
    let mut diagram = SequenceDiagram::new();

    diagram.add_event(&Event::task_spawn(1, 0, "a".to_string(), 0));
    diagram.add_event(&Event::task_spawn(2, 0, "b".to_string(), 0));

    diagram.add_event(&Event::net_send(1, 100, 2, vec![1]));
    diagram.add_event(&Event::net_recv(2, 150, 1, vec![1]));

    diagram.add_event(&Event::net_send(2, 200, 1, vec![2, 3]));
    diagram.add_event(&Event::net_recv(1, 250, 2, vec![2, 3]));

    assert_eq!(diagram.message_count(), 2);
    assert_eq!(diagram.total_bytes(), 3);
}

#[test]
fn active_participants() {
    let mut diagram = SequenceDiagram::new();

    diagram.add_event(&Event::task_spawn(1, 0, "a".to_string(), 0));
    diagram.add_event(&Event::task_spawn(2, 0, "b".to_string(), 0));
    diagram.add_event(&Event::task_spawn(3, 0, "c".to_string(), 0));

    diagram.add_event(&Event::net_send(1, 100, 2, vec![1]));
    diagram.add_event(&Event::net_recv(2, 150, 1, vec![1]));

    let active = diagram.active_participants();
    assert!(active.contains(&1));
    assert!(active.contains(&2));
    assert!(!active.contains(&3));
}

#[test]
fn average_latency() {
    let mut diagram = SequenceDiagram::new();

    diagram.add_event(&Event::task_spawn(1, 0, "a".to_string(), 0));
    diagram.add_event(&Event::task_spawn(2, 0, "b".to_string(), 0));

    diagram.add_event(&Event::net_send(1, 100, 2, vec![1]));
    diagram.add_event(&Event::net_recv(2, 150, 1, vec![1]));

    diagram.add_event(&Event::net_send(1, 200, 2, vec![1]));
    diagram.add_event(&Event::net_recv(2, 300, 1, vec![1]));

    assert_eq!(diagram.avg_latency_ns(), Some(75));
}

#[test]
fn messages_for_task() {
    let mut diagram = SequenceDiagram::new();

    diagram.add_event(&Event::task_spawn(1, 0, "a".to_string(), 0));
    diagram.add_event(&Event::task_spawn(2, 0, "b".to_string(), 0));

    diagram.add_event(&Event::net_send(1, 100, 2, vec![1]));
    diagram.add_event(&Event::net_recv(2, 150, 1, vec![1]));

    let msgs = diagram.messages_for_task(1);
    assert_eq!(msgs.len(), 1);
}

#[test]
fn receive_without_send_starts_at_zero() {
    let mut d = SequenceDiagram::default();
    d.add_event(&Event::net_recv(2, 40, 1, vec![9, 9]));
    let m = &d.messages()[0];
    assert_eq!((m.send_time, m.recv_time, m.label.as_str()), (0, Some(40), "2 bytes"));
    assert_eq!(d.avg_latency_ns(), Some(40));
    assert!(d.messages_for_task(5).is_empty());
    assert_eq!(SequenceDiagram::new().avg_latency_ns(), None);
}

#[test]
fn sends_match_receives_by_ends_and_size() {
    let mut d = SequenceDiagram::new();
    d.add_event(&Event::net_send(1, 10, 2, vec![1, 2]));
    d.add_event(&Event::net_send(1, 20, 2, vec![1]));
    d.add_event(&Event::net_recv(2, 30, 1, vec![1]));
    d.add_event(&Event::net_recv(2, 35, 1, vec![1, 2]));
    assert_eq!(d.messages()[0].send_time, 20);
    assert_eq!(d.messages()[1].send_time, 10);
}

#[test]
fn empty_report() {
    let report = Report::from_events(&[], ReportConfig::default());
    let html = report.generate_html();

    assert!(html.contains("<!DOCTYPE html>"));
    assert!(html.contains("Chronos Test Report"));
}

#[test]
fn report_with_events() {
    let events = vec![Event::task_spawn(1, 0, "main".to_string(), 0), Event::task_complete(1, 1000)];

    let report = Report::from_events(&events, ReportConfig::default());
    let html = report.generate_html();

    assert!(html.contains("main"));
    assert!(html.contains("spawn"));
    assert!(html.contains("complete"));
}

#[test]
fn report_with_failures() {
    let events = vec![Event::task_spawn(1, 0, "main".to_string(), 0), Event::fault_injected(0, 500, 1, 1)];

    let report = Report::from_events(&events, ReportConfig::default());
    let html = report.generate_html();

    assert!(html.contains("Failures"));
    assert!(html.contains("failure"));
}

#[test]
fn report_with_messages() {
    let events = vec![
        Event::task_spawn(1, 0, "a".to_string(), 0),
        Event::task_spawn(2, 0, "b".to_string(), 0),
        Event::net_send(1, 100, 2, vec![1, 2, 3]),
        Event::net_recv(2, 150, 1, vec![1, 2, 3]),
    ];

    let report = Report::from_events(&events, ReportConfig::default());
    let html = report.generate_html();

    assert!(html.contains("Message Sequence"));
    assert!(html.contains("3 bytes"));
}

#[test]
fn report_with_header() {
    let events = vec![Event::task_spawn(1, 0, "main".to_string(), 0)];
    let header = Header::new(12345, 1);

    let report = Report::from_events(&events, ReportConfig::default()).with_header(header);
    let html = report.generate_html();

    assert!(html.contains("12345"));
    assert!(html.contains("Random"));
}

#[test]
fn custom_title() {
    let config = ReportConfig { title: "My Custom Report".to_string(), ..Default::default() };

    let report = Report::from_events(&[], config);
    let html = report.generate_html();

    assert!(html.contains("My Custom Report"));
}

#[test]
fn write_to_buffer() {
    let events = vec![Event::task_spawn(1, 0, "test".to_string(), 0)];
    let report = Report::from_events(&events, ReportConfig::default());

    let mut buffer = Vec::new();
    report.write_html(&mut buffer).unwrap();

    let html = String::from_utf8(buffer).unwrap();
    assert!(html.contains("test"));
}

#[test]
fn report_sections_follow_the_config() {
    let events = vec![
        Event::task_spawn(1, 0, "a".to_string(), 0),
        Event::net_send(1, 100, 2, vec![1]),
        Event::net_recv(2, 160, 1, vec![1]),
    ];
    let bare = ReportConfig { include_stats: false, include_timeline: false, include_sequence: false, ..Default::default() };
    let html = Report::from_events(&events, bare).generate_html();
    assert!(!html.contains("<div class=\"stats\">"));
    assert!(!html.contains("<h2>Timeline</h2>"));
    assert!(!html.contains("Message Sequence"));
    assert!(html.ends_with("</div>\n</body>\n</html>"));

    let full = Report::from_events(&events, ReportConfig::default()).generate_html();
    assert!(full.contains("<p>Average latency: 60ns</p>"));
    assert!(full.contains("<p>Total bytes: 1</p>"));
    assert!(full.contains("<span>a (T1)</span><span class=\"message-arrow\">--[1 bytes]--></span><span>? (T2)</span>"));
    assert!(full.contains("N/A"));
    assert!(full.contains("<span class=\"timeline-time\">100ns</span><span class=\"timeline-task\">T1</span>"));
}

#[test]
fn report_page_starts_with_its_head() {
    let html = Report::from_events(&[], ReportConfig::default()).generate_html();
    assert!(html.starts_with("<!DOCTYPE html>\n<html lang=\"en\">\n<head>\n    <meta charset=\"UTF-8\">"));
    assert!(html.contains("<title>Chronos Test Report</title>\n    <style>\n        :root {\n"));
    assert!(html.contains("<h1>Chronos Test Report</h1>\n"));
}
