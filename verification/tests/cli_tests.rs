use chronos::cli::run::clock_seed;
use chronos::cli::junit::timestamp_of;
use chronos::cli::replay::{compare_recordings, replay_event_text, replay_pass, timeline_json, RecordingMatch, ReplayStop};
use chronos::cli::replay::{parse_replay_command, ReplayCommand};
use chronos::cli::run::{IterationOutcome, RunProgress};
use chronos::cli::run::{binary_failure_trace, cargo_failure_trace, exit_failure_reason, iteration_seed, output_failure_trace};
use chronos::cli::junit::{case_xml, suite_close_xml, suite_open_xml, CaseCounts, Failure};
use chronos::cli::explore::Bug;
use chronos::cli::junit::{bug_failure, exploration_failure, run_failure};
use chronos::cli::inject::failure_lines;
use chronos::cli::junit::{iso_timestamp, xml_escape};
use chronos::cli::output::{time_scale, TimeScale};
use chronos::cli::{
    chrono_timestamp, parse_duration, parse_duration_range, ReplayState, RunArgs, RunConfig, RunResult, StrategyArg, TraceEntry,
};
use chronos::error::Error;
use chronos::recording::Event;
use chronos::scheduler::Strategy;
use std::path::PathBuf;
use std::time::Duration;

#[test]
fn test_trace_entry() {
    let entry = TraceEntry::new(1000, "test event".to_string())
        .with_node("node0".to_string())
        .with_fault("partition".to_string());

    assert_eq!(entry.time_ns, 1000);
    assert_eq!(entry.node, Some("node0".to_string()));
    assert_eq!(entry.fault, Some("partition".to_string()));
}

#[test]
fn time_scale_picks_the_largest_unit_reached() {
    assert_eq!(time_scale(500), TimeScale::Nanos);
    assert_eq!(time_scale(500_000), TimeScale::Micros);
    assert_eq!(time_scale(500_000_000), TimeScale::Millis);
    assert_eq!(time_scale(5_000_000_000), TimeScale::Seconds);
    assert_eq!(time_scale(1_000), TimeScale::Micros);
    assert_eq!(TimeScale::Micros.suffix(), "μs");
    assert_eq!(TimeScale::Millis.nanos_per_unit(), 1_000_000);
}

#[test]
fn test_strategy_conversion() {
    let seed = 42u64;
    assert!(matches!(StrategyArg::Fifo.to_strategy(seed), Strategy::Fifo));
    assert!(matches!(StrategyArg::Random.to_strategy(seed), Strategy::Random { .. }));
    assert!(matches!(StrategyArg::Pct.to_strategy(seed), Strategy::PCT { .. }));
    assert!(matches!(StrategyArg::Dfs.to_strategy(seed), Strategy::DepthFirst { .. }));
    assert!(matches!(StrategyArg::ContextBound.to_strategy(seed), Strategy::ContextBound { .. }));
}

#[test]
fn test_strategy_names() {
    assert_eq!(StrategyArg::Fifo.name(), "FIFO");
    assert_eq!(StrategyArg::Random.name(), "Random");
    assert_eq!(StrategyArg::Pct.name(), "PCT");
    assert_eq!(StrategyArg::Dfs.name(), "DFS");
    assert_eq!(StrategyArg::ContextBound.name(), "ContextBound");
}

fn args(seed: Option<u64>) -> RunArgs {
    RunArgs {
        test_binary: "test".to_string(),
        seed,
        strategy: StrategyArg::Random,
        iterations: 1,
        timeout: None,
        record: None,
        replay: None,
        verbose: false,
        pct_depth: 3,
        max_preemptions: 3,
        dfs_depth: 100,
        cargo: false,
        args: vec![],
    }
}

#[test]
fn test_effective_seed_provided() {
    assert_eq!(args(Some(999)).effective_seed(), 999);
}

#[test]
fn test_effective_seed_random() {
    let seed = args(None).effective_seed();
    assert!(seed > 0);
}

#[test]
fn test_run_config_from_args() {
    let args = RunArgs {
        test_binary: "my_test".to_string(),
        seed: Some(12345),
        strategy: StrategyArg::Pct,
        iterations: 100,
        timeout: Some(30),
        record: Some(PathBuf::from("out.chrn")),
        replay: None,
        verbose: true,
        pct_depth: 5,
        max_preemptions: 3,
        dfs_depth: 100,
        cargo: false,
        args: vec!["--extra".to_string()],
    };

    let config = RunConfig::from(&args);

    assert_eq!(config.test_binary, "my_test");
    assert_eq!(config.seed, 12345);
    assert_eq!(config.strategy_name, "PCT");
    assert_eq!(config.iterations, 100);
    assert_eq!(config.timeout, Duration::from_secs(30));
    assert!(config.verbose);
    assert_eq!(config.extra_args, vec!["--extra"]);
}

#[test]
fn run_config_uses_custom_parameters_and_default_timeout() {
    let mut a = args(Some(7));
    a.strategy = StrategyArg::ContextBound;
    a.max_preemptions = 9;
    let config = RunConfig::from(&a);
    assert_eq!(config.strategy, Strategy::ContextBound { max_preemptions: 9, seed: 7 });
    assert_eq!(config.timeout, Duration::from_secs(60));
    assert_eq!(StrategyArg::default(), StrategyArg::Random);
    assert_eq!(StrategyArg::Pct.to_strategy(1), Strategy::PCT { seed: 1, bug_depth: 3 });
}

#[test]
fn test_parse_duration_units() {
    assert_eq!(parse_duration("100ms").unwrap(), Duration::from_millis(100));
    assert_eq!(parse_duration("5s").unwrap(), Duration::from_secs(5));
    assert_eq!(parse_duration("1000us").unwrap(), Duration::from_micros(1000));
    assert_eq!(parse_duration("50").unwrap(), Duration::from_millis(50));
}

#[test]
fn parse_duration_trims_and_reports_errors() {
    assert_eq!(parse_duration("  20ns \n").unwrap(), Duration::from_nanos(20));
    assert_eq!(parse_duration("+7s").unwrap(), Duration::from_secs(7));
    match parse_duration(" 5x ") {
        Err(Error::ConfigError { message }) => assert_eq!(message, "invalid duration: 5x"),
        other => panic!("unexpected {:?}", other),
    }
    assert!(parse_duration("ms").is_err());
    assert!(parse_duration("99999999999999999999").is_err());
    assert!(parse_duration("-5").is_err());
}

#[test]
fn parse_duration_range_needs_one_dash() {
    assert_eq!(
        parse_duration_range("50ms-200ms").unwrap(),
        (Duration::from_millis(50), Duration::from_millis(200))
    );
    match parse_duration_range("1-2-3") {
        Err(Error::ConfigError { message }) => assert_eq!(message, "invalid duration range: 1-2-3"),
        other => panic!("unexpected {:?}", other),
    }
    assert!(parse_duration_range("10ms-x").is_err());
}

#[test]
fn test_xml_escaping() {
    let escaped = xml_escape("<test & \"value\">");
    assert_eq!(escaped, "&lt;test &amp; &quot;value&quot;&gt;");
}

#[test]
fn xml_escape_handles_apostrophes_and_plain_text() {
    assert_eq!(xml_escape("it's"), "it&apos;s");
    assert_eq!(xml_escape("plain"), "plain");
    assert_eq!(xml_escape(""), "");
}

#[test]
fn test_timestamp_format() {
    let ts = chrono_timestamp();
    assert!(ts.contains("T"));
    assert!(ts.ends_with("Z"));
    assert_eq!(ts.len(), 20);
}

#[test]
fn iso_timestamps_of_known_instants() {
    assert_eq!(iso_timestamp(0), "1970-01-01T00:00:00Z");
    assert_eq!(iso_timestamp(951_782_400), "2000-02-29T00:00:00Z");
    assert_eq!(iso_timestamp(1_700_000_000), "2023-11-14T22:13:20Z");
    assert_eq!(iso_timestamp(1_709_251_199), "2024-02-29T23:59:59Z");
}

#[test]
fn test_replay_state_next_random() {
    let mut state = ReplayState::new();
    state.random_values = vec![100, 200, 300];

    assert_eq!(state.next_random(), Some(100));
    assert_eq!(state.next_random(), Some(200));
    assert_eq!(state.next_random(), Some(300));
    assert_eq!(state.next_random(), None);
}

#[test]
fn replay_state_indexes_and_replays_events() {
    let mut state = ReplayState::new();
    for e in [
        Event::task_spawn(1, 0, "main".to_string(), 0),
        Event::random_gen(1, 10, 77),
        Event::time_query(1, 20, 500),
        Event::net_recv(1, 25, 3, vec![9]),
        Event::net_send(1, 30, 2, vec![1, 2]),
        Event::schedule_decision(0, 40, 1, vec![1, 2]),
        Event::task_complete(1, 50),
    ] {
        state.record(&e);
    }
    assert_eq!(state.next_random(), Some(77));
    assert_eq!(state.next_time(), Some(500));
    assert_eq!(state.next_time(), None);
    assert_eq!(state.next_send(), Some((2, vec![1, 2])));
    assert_eq!(state.next_send(), None);
    assert!(!state.verify_decision(2, &[1, 2]));
    assert!(state.verify_decision(5, &[]));
    let task = state.active_tasks.get(&1).unwrap();
    assert_eq!((task.spawned_at, task.completed_at, task.parent), (0, Some(50), 0));
    state.rewind();
    assert_eq!(state.next_random(), Some(77));
    assert_eq!(state.next_send(), Some((2, vec![1, 2])));
}

#[test]
fn junit_case_and_suite_xml() {
    let mut counts = CaseCounts::new();
    counts.add(false, false);
    counts.add(true, false);
    counts.add(false, true);
    assert_eq!((counts.tests, counts.failures, counts.errors, counts.skipped), (3, 1, 0, 1));
    let head = suite_open_xml("multi<1>", &counts, "0.300", "2024-01-01T00:00:00Z");
    assert_eq!(
        head,
        "<?xml version=\"1.0\" encoding=\"UTF-8\"?>\n<testsuite name=\"multi&lt;1&gt;\" tests=\"3\" failures=\"1\" errors=\"0\" skipped=\"1\" time=\"0.300\" timestamp=\"2024-01-01T00:00:00Z\">\n"
    );
    assert_eq!(case_xml("pass1", "t", "0.100", &None, false), "  <testcase name=\"pass1\" classname=\"t\" time=\"0.100\"/>\n");
    let failure = Some(Failure {
        message: "oops".to_string(),
        failure_type: "Error".to_string(),
        content: "a & b".to_string(),
    });
    assert_eq!(
        case_xml("fail1", "t", "0.200", &failure, false),
        "  <testcase name=\"fail1\" classname=\"t\" time=\"0.200\">\n    <failure message=\"oops\" type=\"Error\">a &amp; b</failure>\n  </testcase>\n"
    );
    assert_eq!(
        case_xml("skip1", "t", "0.000", &None, true),
        "  <testcase name=\"skip1\" classname=\"t\" time=\"0.000\">\n    <skipped/>\n  </testcase>\n"
    );
    assert_eq!(suite_close_xml(), "</testsuite>\n");
}

#[test]
fn junit_failures_of_results() {
    let mut result = RunResult {
        iterations_run: 5,
        bugs_found: 1,
        seed_used: 123,
        schedules_explored: 5,
        simulated_time: Duration::from_secs(2),
        real_time: Duration::from_millis(200),
        failure_trace: Some(vec![
            TraceEntry::new(0, "panic at line 42".to_string()),
            TraceEntry::new(5, "second".to_string()),
        ]),
        failure_reason: Some("deadlock detected".to_string()),
        exit_code: 1,
    };
    let f = run_failure(&result).unwrap();
    assert_eq!(f.message, "deadlock detected");
    assert_eq!(f.failure_type, "SimulationFailure");
    assert_eq!(f.content, "panic at line 42\nsecond");
    result.failure_reason = None;
    result.failure_trace = None;
    let f = run_failure(&result).unwrap();
    assert_eq!(f.message, "Test failed");
    assert_eq!(f.content, "");
    result.bugs_found = 0;
    assert!(run_failure(&result).is_none());

    let bugs = vec![
        Bug { seed: 4, schedule_id: 4, description: "boom".to_string(), trace: vec!["t1".to_string(), "t2".to_string()] },
        Bug { seed: 9, schedule_id: 9, description: "bang".to_string(), trace: vec![] },
    ];
    let f = exploration_failure(&bugs, 30).unwrap();
    assert_eq!(f.message, "2 bugs found across 30 schedules");
    assert_eq!(f.failure_type, "ExplorationBugsFound");
    assert_eq!(f.content, "Bug found with seed 4: boom\nBug found with seed 9: bang");
    assert!(exploration_failure(&[], 30).is_none());
    let f = bug_failure(&bugs[0], "my_test");
    assert_eq!(f.message, "boom");
    assert_eq!(f.failure_type, "SimulationBug");
    assert_eq!(f.content, "Seed: 4\nReplay: chronos run my_test --seed 4\nTrace:\nt1\nt2");
}

#[test]
fn failure_lines_pick_out_failures() {
    let out = "running 1 test\nthread 'x' panicked at a.rs\nassertion failed: ok\r\ntest t ... FAILED\nfine";
    assert_eq!(
        failure_lines(out),
        vec![
            "thread 'x' panicked at a.rs".to_string(),
            "assertion failed: ok".to_string(),
            "test t ... FAILED".to_string()
        ]
    );
    assert!(failure_lines("").is_empty());
}

#[test]
fn run_failure_traces() {
    assert_eq!(iteration_seed(5, 3), 8);
    assert_eq!(iteration_seed(u64::MAX, 2), 1);
    assert_eq!(exit_failure_reason(3), "Test failed with exit code 3");
    assert_eq!(exit_failure_reason(-1), "Test failed with exit code -1");

    let t = binary_failure_trace(101, "thread 'main' panicked\nnote: run", "test x ... FAILED");
    let d: Vec<&str> = t.iter().map(|e| e.description.as_str()).collect();
    assert_eq!(d, vec!["thread 'main' panicked", "test x ... FAILED"]);
    assert!(t.iter().all(|e| e.time_ns == 0 && e.node.is_none() && e.fault.is_none()));
    let t = binary_failure_trace(-9, "", "all good");
    assert_eq!(t.len(), 1);
    assert_eq!(t[0].description, "Exit code: -9");

    let t = cargo_failure_trace("error[E0425]: cannot find", "test a ... FAIL\ntest b ... FAILED");
    let d: Vec<&str> = t.iter().map(|e| e.description.as_str()).collect();
    assert_eq!(d, vec!["error[E0425]: cannot find", "test b ... FAILED"]);
    assert_eq!(cargo_failure_trace("", "")[0].description, "Test failed");

    let t = output_failure_trace(false, 2, b"assertion failed", b"");
    assert_eq!(t[0].description, "assertion failed");
    let t = output_failure_trace(true, 2, b"", b"");
    assert_eq!(t[0].description, "Test failed");
}

fn replay_events() -> Vec<Event> {
    vec![
        Event::task_spawn(1, 0, "main".to_string(), 0),
        Event::task_yield(2, 100),
        Event::task_complete(1, 300),
        Event::task_yield(1, 400),
    ]
}

#[test]
fn replay_pass_counts_and_stops() {
    let events = replay_events();
    let p = replay_pass(&events, None, None, None);
    assert_eq!((p.events_replayed, p.final_time, p.tasks_spawned, p.tasks_completed), (4, 400, 1, 1));
    assert_eq!(p.stopped, ReplayStop::End);
    let p = replay_pass(&events, Some(250), None, None);
    assert_eq!((p.events_replayed, p.final_time, p.steps), (2, 100, 2));
    assert_eq!(p.stopped, ReplayStop::AtTime);
    let p = replay_pass(&events, None, Some(1), None);
    assert_eq!((p.events_replayed, p.final_time, p.tasks_spawned, p.steps), (1, 0, 1, 1));
    assert_eq!(p.stopped, ReplayStop::AtEvent);
    let p = replay_pass(&events, None, None, Some(2));
    assert_eq!((p.events_replayed, p.final_time, p.tasks_spawned), (1, 400, 0));
}

#[test]
fn replay_stops_at_timestamp_without_passing_it() {
    let events = vec![
        Event::task_spawn(1, 0, "main".to_string(), 0),
        Event::random_gen(1, 100, 12345),
        Event::time_query(1, 200, 200),
        Event::task_yield(1, 300),
        Event::task_complete(1, 400),
    ];
    let p = replay_pass(&events, Some(250), None, None);
    assert_eq!((p.events_replayed, p.tasks_spawned, p.tasks_completed), (3, 1, 0));
    assert!(p.final_time <= 250);
    assert_eq!(p.final_time, 200);
}

#[test]
fn recordings_compare_by_type_and_task() {
    let a = replay_events();
    let mut b = replay_events();
    assert_eq!(compare_recordings(1, &a, 1, &b), RecordingMatch::Same);
    assert_eq!(compare_recordings(1, &a, 2, &b), RecordingMatch::SeedsDiffer);
    b[2] = Event::task_complete(1, 999);
    assert_eq!(compare_recordings(1, &a, 1, &b), RecordingMatch::Same);
    b[1] = Event::task_yield(3, 100);
    assert_eq!(compare_recordings(1, &a, 1, &b), RecordingMatch::TaskDiffers { index: 1 });
    b[0] = Event::task_yield(1, 0);
    assert_eq!(compare_recordings(1, &a, 1, &b), RecordingMatch::TypeDiffers { index: 0 });
    b.pop();
    assert_eq!(compare_recordings(1, &a, 1, &b), RecordingMatch::CountDiffers { first: 4, second: 3 });
}

#[test]
fn replay_text_and_json() {
    let events = replay_events();
    assert_eq!(replay_event_text(&events[0]), "[           0ns] task   1 SPAWN main (parent=0)");
    assert_eq!(
        replay_event_text(&Event::net_send(12, 1234567890123, 2, vec![1, 2])),
        "[1234567890123ns] task  12 SEND -> node 2 (2 bytes)"
    );
    assert_eq!(
        replay_event_text(&Event::schedule_decision(0, 5, 1, vec![1, 2])),
        "[           5ns] task   0 SCHEDULE chose 1 from [1, 2]"
    );
    let json = timeline_json(42, 1, &events[..2]);
    assert_eq!(
        json,
        "{\n  \"seed\": 42,\n  \"strategy\": 1,\n  \"events\": [\n    {\"type\": \"TaskSpawn\", \"task\": 1, \"time\": 0},\n    {\"type\": \"TaskYield\", \"task\": 2, \"time\": 100}\n  ]\n}\n"
    );
}

#[test]
fn replay_prompt_commands_are_read_after_trimming() {
    assert_eq!(parse_replay_command("  n \n"), ReplayCommand::Next);
    assert_eq!(parse_replay_command("next"), ReplayCommand::Next);
    assert_eq!(parse_replay_command("\n"), ReplayCommand::Next);
    assert_eq!(parse_replay_command("quit\n"), ReplayCommand::Quit);
    assert_eq!(parse_replay_command("q"), ReplayCommand::Quit);
    assert_eq!(parse_replay_command("s"), ReplayCommand::Status);
    assert_eq!(parse_replay_command("status"), ReplayCommand::Status);
    assert_eq!(parse_replay_command("j 12"), ReplayCommand::Jump(12));
    assert_eq!(parse_replay_command("jump   7\n"), ReplayCommand::Jump(7));
    assert_eq!(parse_replay_command("j x"), ReplayCommand::Ignored);
    assert_eq!(parse_replay_command("j 1 2"), ReplayCommand::Ignored);
    assert_eq!(parse_replay_command("jump"), ReplayCommand::Unknown);
    assert_eq!(parse_replay_command("restart"), ReplayCommand::Unknown);
}

#[test]
fn run_progress_stops_at_the_first_failure() {
    let mut p = RunProgress::new();
    assert_eq!(p.next_seed(10, 3), Some(10));
    p.record(false, IterationOutcome::Passed { exit_code: 0 });
    assert_eq!(p.next_seed(10, 3), Some(11));
    p.record(false, IterationOutcome::Failed { exit_code: 3, stderr: b"boom\n".to_vec(), stdout: Vec::new() });
    assert!(p.stopped);
    assert_eq!(p.iteration, 2);
    assert_eq!(p.schedules_explored, 2);
    assert_eq!(p.bugs_found, 1);
    assert_eq!(p.last_exit_code, 3);
    assert_eq!(p.failure_reason.as_deref(), Some("Test failed with exit code 3"));
    assert!(p.failure_trace.is_some());
    assert_eq!(p.next_seed(10, 3), None);
}

#[test]
fn run_progress_records_a_launch_failure() {
    let mut p = RunProgress::new();
    p.record(true, IterationOutcome::LaunchFailed { message: "not found".to_string() });
    assert!(p.stopped);
    assert_eq!(p.schedules_explored, 0);
    assert_eq!(p.failure_reason.as_deref(), Some("Failed to run cargo test: not found"));
    let trace = p.failure_trace.as_ref().unwrap();
    assert_eq!(trace.len(), 1);
    assert_eq!(trace[0].description, "not found");
    assert_eq!(p.next_seed(0, 5), None);
}

#[test]
fn clock_seed_takes_the_low_bits_of_the_nanoseconds() {
    assert_eq!(clock_seed(Some(Duration::from_nanos(123))), 123);
    assert_eq!(clock_seed(None), 42);
    let d = Duration::from_secs(40_000_000_000);
    assert_eq!(clock_seed(Some(d)), d.as_nanos() as u64);
}

#[test]
fn timestamps_of_times_since_the_epoch() {
    assert_eq!(timestamp_of(Some(Duration::from_secs(86_400))), "1970-01-02T00:00:00Z");
    assert_eq!(timestamp_of(Some(Duration::from_millis(1_999))), "1970-01-01T00:00:01Z");
    assert_eq!(timestamp_of(None), "1970-01-01T00:00:00Z");
}

#[test]
fn replay_state_steps_and_jumps_through_events() {
    let events = vec![
        Event::task_spawn(1, 0, "main".to_string(), 10),
        Event::task_yield(1, 20),
        Event::task_complete(1, 30),
    ];
    let mut state = ReplayState::new();
    assert_eq!(state.advance(&events), Some(0));
    assert_eq!(state.current_time, 10);
    assert_eq!(state.advance(&events), Some(1));
    assert_eq!(state.advance(&events), Some(2));
    assert_eq!(state.advance(&events), None);
    assert_eq!(state.event_index, 3);
    state.jump(&events, 1);
    assert_eq!((state.event_index, state.current_time), (1, 10));
    state.jump(&events, 9);
    assert_eq!((state.event_index, state.current_time), (3, 30));
    state.jump(&events, 0);
    assert_eq!((state.event_index, state.current_time), (0, 0));
}
