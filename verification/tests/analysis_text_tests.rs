use chronos::cli::analysis_text::{analysis_json, analysis_text};
use chronos::cli::analyze::{
    AnalysisIssue, AnalysisResult, AnalyzeArgs, IssueSeverity, LivenessIssue, LivenessIssueType, PotentialRace,
    TimelineEntry,
};
use chronos::recording::EventType;
use chronos::util::vec_map::VecMap;
use std::path::PathBuf;

fn entry(ts: u64, task: u32, t: EventType, d: &str) -> TimelineEntry {
    TimelineEntry { timestamp_ns: ts, task_id: task, event_type: t, description: d.to_string() }
}

fn flags(timeline: bool, graph: bool, races: bool, liveness: bool) -> AnalyzeArgs {
    AnalyzeArgs {
        recording: PathBuf::from("x.chrn"),
        timeline,
        graph,
        races,
        liveness,
        format: "text".to_string(),
        task: None,
        event_type: None,
        verbose: false,
    }
}

fn sample() -> AnalysisResult {
    let mut by_type = VecMap::new();
    by_type.insert(EventType::TaskSpawn, 2);
    by_type.insert(EventType::TaskYield, 1);
    by_type.insert(EventType::NetSend, 2);
    let mut by_task = VecMap::new();
    by_task.insert(7, 2);
    by_task.insert(3, 3);
    AnalysisResult {
        seed: 42,
        strategy: 1,
        total_events: 5,
        events_by_type: by_type,
        events_by_task: by_task,
        timeline: vec![
            entry(0, 3, EventType::TaskSpawn, "spawn a"),
            entry(5, 7, EventType::TaskSpawn, "spawn b"),
            entry(10, 3, EventType::TaskYield, "yield"),
            entry(20, 3, EventType::NetSend, "send"),
            entry(30, 7, EventType::NetSend, "send"),
        ],
        hb_edges: vec![(0, 2), (2, 3), (1, 9)],
        concurrent_pairs: vec![(0, 1)],
        issues: vec![
            AnalysisIssue {
                severity: IssueSeverity::Warning,
                description: "late".to_string(),
                event_id: None,
                timestamp_ns: Some(30),
            },
            AnalysisIssue { severity: IssueSeverity::Info, description: "note".to_string(), event_id: None, timestamp_ns: None },
        ],
        max_time_ns: 30,
        races: vec![PotentialRace { event1_idx: 3, event2_idx: 4, task1: 3, task2: 7, description: "both send".to_string() }],
        liveness_issues: vec![LivenessIssue {
            issue_type: LivenessIssueType::IncompleteTasks,
            task_id: Some(7),
            description: "never completed".to_string(),
        }],
    }
}

#[test]
fn counts_sections_only() {
    let text = analysis_text(&sample(), &flags(false, false, false, false));
    let mut expected = String::new();
    expected.push_str("Events by type:\n");
    expected.push_str(&format!("  {:20} {}\n", "TaskSpawn", 2));
    expected.push_str(&format!("  {:20} {}\n", "NetSend", 2));
    expected.push_str(&format!("  {:20} {}\n", "TaskYield", 1));
    expected.push_str("\n");
    expected.push_str("Events by task:\n");
    expected.push_str(&format!("  Task {:4}: {} events\n", 3, 3));
    expected.push_str(&format!("  Task {:4}: {} events\n", 7, 2));
    expected.push_str("\n");
    expected.push_str("=== Issues ===\n[WARN] late (at 30ns)\n[INFO] note\n\n");
    expected.push_str("Analysis complete.\n");
    assert_eq!(text, expected);
}

#[test]
fn every_section() {
    let text = analysis_text(&sample(), &flags(true, true, true, true));
    let mut e = String::new();
    e.push_str("Events by type:\n");
    e.push_str(&format!("  {:20} {}\n", "TaskSpawn", 2));
    e.push_str(&format!("  {:20} {}\n", "NetSend", 2));
    e.push_str(&format!("  {:20} {}\n", "TaskYield", 1));
    e.push_str("\nEvents by task:\n");
    e.push_str(&format!("  Task {:4}: {} events\n", 3, 3));
    e.push_str(&format!("  Task {:4}: {} events\n", 7, 2));
    e.push_str("\n=== Timeline ===\n");
    for (ts, task, t, d) in [
        (0u64, 3u32, "TaskSpawn", "spawn a"),
        (5, 7, "TaskSpawn", "spawn b"),
        (10, 3, "TaskYield", "yield"),
        (20, 3, "NetSend", "send"),
        (30, 7, "NetSend", "send"),
    ] {
        e.push_str(&format!("{:12}ns  task {:3}  {:20}  {}\n", ts, task, t, d));
    }
    e.push_str("\n=== Happens-Before Graph ===\n\n");
    e.push_str("     ");
    e.push_str(&format!(" T{:<3}", 3));
    e.push_str(&format!(" T{:<3}", 7));
    e.push_str("\n");
    e.push_str(&format!("{:>4} ", 0));
    e.push_str(&format!(" {:^3} ", "S"));
    e.push_str(&format!(" {:^3} ", "S"));
    e.push_str("\n");
    e.push_str(&format!("{:>4} ", 1));
    e.push_str(&format!(" {:^3} ", "Y"));
    e.push_str(&format!(" {:^3} ", ">"));
    e.push_str("\n");
    e.push_str(&format!("{:>4} ", 2));
    e.push_str(&format!(" {:^3} ", ">"));
    e.push_str("     ");
    e.push_str("\n");
    e.push_str("\nLegend: S=spawn, Y=yield, C=complete, >=send, <=recv\n\n");
    e.push_str("Happens-Before Edges (3 total):\n");
    e.push_str("  0 (T3) -> 2 (T3)\n  2 (T3) -> 3 (T3)\n\n");
    e.push_str("Concurrent Events (1 pairs):\n  0 (T3) || 1 (T7)\n\n");
    e.push_str("=== Issues ===\n[WARN] late (at 30ns)\n[INFO] note\n\n");
    e.push_str("=== Potential Data Races ===\nFound 1 potential race(s):\n\n");
    e.push_str("  1. both send\n");
    e.push_str("     Event 3: T3 at 20ns - NetSend\n");
    e.push_str("     Event 4: T7 at 30ns - NetSend\n\n\n");
    e.push_str("=== Liveness Analysis ===\nFound 1 liveness issue(s):\n\n  [INCOMPLETE] never completed (task 7)\n\n");
    e.push_str("Analysis complete.\n");
    assert_eq!(text, e);
}

#[test]
fn empty_races_and_liveness() {
    let mut r = sample();
    r.races.clear();
    r.liveness_issues.clear();
    r.issues.clear();
    let text = analysis_text(&r, &flags(false, false, true, true));
    assert!(text.ends_with(
        "=== Race Detection ===\nNo potential races detected in 1 concurrent event pairs.\n\n=== Liveness Analysis ===\nNo liveness issues detected.\n\nAnalysis complete.\n"
    ));
}

#[test]
fn long_timeline_is_cut_at_a_hundred() {
    let mut r = sample();
    r.timeline = (0..105).map(|i| entry(i, 1, EventType::TaskYield, "y")).collect();
    let text = analysis_text(&r, &flags(true, false, false, false));
    assert_eq!(text.matches("ns  task ").count(), 100);
    assert!(text.contains("  ... (5 more events)\n"));
}

#[test]
fn json_summary() {
    let json = analysis_json(&sample());
    let expected = "{\n  \"seed\": 42,\n  \"strategy\": 1,\n  \"total_events\": 5,\n  \"max_time_ns\": 30,\n  \"events_by_type\": {\n    \"TaskSpawn\": 2,\n    \"TaskYield\": 1,\n    \"NetSend\": 2\n  },\n  \"issues_count\": 2,\n  \"races_count\": 1,\n  \"liveness_issues_count\": 1,\n  \"concurrent_pairs_count\": 1\n}\n";
    assert_eq!(json, expected);
}
