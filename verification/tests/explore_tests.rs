use chronos::cli::explore::{bug_from_text, bug_report_text, checkpoint_lines, refill_seeds, schedule_outcome, Bug, ExplorationState};

#[test]
fn test_exploration_state_new() {
    let state = ExplorationState::new(42);
    assert_eq!(state.next_seed, 42);
    assert!(state.explored_seeds.is_empty());
    assert!(state.bug_seeds.is_empty());
}

#[test]
fn test_exploration_state_save_load() {
    let mut state = ExplorationState::new(100);
    state.explored_seeds.insert(1);
    state.explored_seeds.insert(2);
    state.bug_seeds.insert(5);
    state.schedules_explored = 50;

    let text = state.to_text();

    let loaded = ExplorationState::parse(&text);
    assert_eq!(loaded.next_seed, 100);
    assert_eq!(loaded.schedules_explored, 50);
    assert!(loaded.explored_seeds.contains(&1));
    assert!(loaded.bug_seeds.contains(&5));
}

#[test]
fn test_bug_structure() {
    let bug = Bug {
        seed: 42,
        schedule_id: 42,
        description: "assertion failed".to_string(),
        trace: vec!["line 1".to_string(), "line 2".to_string()],
    };

    assert_eq!(bug.seed, 42);
    assert_eq!(bug.description, "assertion failed");
    assert_eq!(bug.trace.len(), 2);
}

#[test]
fn checkpoint_text_lists_each_key() {
    let text = checkpoint_lines(7, 3, &[4, 9], &[]);
    assert_eq!(text, "next_seed=7\nschedules_explored=3\nexplored=4,9\nbugs=\n");
    let many: Vec<u64> = (0..10005).collect();
    let text = checkpoint_lines(0, 0, &many, &[1]);
    assert!(text.contains(",9999\nbugs=1\n"));
}

#[test]
fn checkpoint_parse_skips_what_it_cannot_read() {
    let state = ExplorationState::parse("next_seed=abc\nfoo\nexplored=1,x,3\r\nbugs=2=3\nschedules_explored=+12");
    assert_eq!(state.next_seed, 0);
    assert_eq!(state.schedules_explored, 12);
    assert_eq!(state.explored_seeds.len(), 2);
    assert!(state.explored_seeds.contains(&1));
    assert!(state.explored_seeds.contains(&3));
    assert!(state.bug_seeds.is_empty());
}

#[test]
fn first_fill_skips_explored_seeds() {
    let mut state = ExplorationState::new(10);
    state.explored_seeds.insert(11);
    let seeds = state.initial_seeds(1, 100);
    assert_eq!(seeds, vec![10, 12, 13, 14, 15, 16, 17, 18, 19]);
    assert_eq!(state.next_seed, 20);

    let mut state = ExplorationState::new(10);
    state.explored_seeds.insert(11);
    let seeds = state.initial_seeds(2, 3);
    assert_eq!(seeds, vec![10, 12]);
    assert_eq!(state.next_seed, 30);
}

#[test]
fn refill_stops_at_limit() {
    assert_eq!(refill_seeds(5, 8, 0, 1), (vec![5, 6, 7], 8));
    assert_eq!(refill_seeds(5, 100, 1, 1), (vec![5, 6, 7, 8, 9], 10));
    assert_eq!(refill_seeds(5, 100, 2, 1), (vec![], 5));
    assert_eq!(refill_seeds(9, 8, 0, 3), (vec![], 9));
}

#[test]
fn bug_description_is_last_failing_line() {
    let bug = bug_from_text(
        3,
        "thread 'main' panicked at src/x.rs:3\nassertion failed: x\n",
        "ok\nerror: boom",
    );
    assert_eq!(bug.seed, 3);
    assert_eq!(bug.schedule_id, 3);
    assert_eq!(bug.description, "assertion failed: x");
    assert_eq!(bug.trace, vec!["thread 'main' panicked at src/x.rs:3".to_string(), "error: boom".to_string()]);
}

#[test]
fn schedule_outcome_reports_failures_only() {
    assert!(schedule_outcome(7, true, b"panic", b"").is_none());
    let bug = schedule_outcome(7, false, b"", b"").unwrap();
    assert_eq!(bug.description, "Test failed");
    assert!(bug.trace.is_empty());
    let bug = schedule_outcome(8, false, b"", b"oops: panic here").unwrap();
    assert_eq!(bug.description, "oops: panic here");
}

#[test]
fn bug_report_lists_each_bug() {
    let bugs = vec![
        Bug { seed: 4, schedule_id: 4, description: "boom".to_string(), trace: vec![] },
        Bug { seed: 9, schedule_id: 9, description: "bang".to_string(), trace: vec!["at a".to_string()] },
    ];
    let text = bug_report_text("tests/t", &bugs);
    let expected = "# Chronos Bug Report\n\nTest: tests/t\nBugs found: 2\n\n\
## Bug 1\n\n- Seed: 4\n- Description: boom\n- Replay: `chronos run tests/t --seed 4`\n\n\n\
## Bug 2\n\n- Seed: 9\n- Description: bang\n- Replay: `chronos run tests/t --seed 9`\n\n### Trace\n```\nat a\n```\n\n";
    assert_eq!(text, expected);
}
