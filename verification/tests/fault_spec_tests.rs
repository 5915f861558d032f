use chronos::cli::inject::{fault_list_json, faults_json};
use chronos::cli::fault_spec::{fault_rate_text, parse_fault_spec, FaultSpec};
use chronos::error::Error;
use std::time::Duration;

fn rate_of(t: &str) -> Result<f64, Error> {
    t.trim_end_matches('%').parse::<f64>().map(|v| v / 100.0).map_err(|_| Error::ConfigError { message: format!("invalid percentage: {}", t) })
}

fn parse(spec: &str) -> Result<FaultSpec<f64>, Error> {
    parse_fault_spec(spec, fault_rate_text(spec).map(|t| rate_of(&t)))
}

fn message(r: Result<FaultSpec<f64>, Error>) -> String {
    match r {
        Err(Error::ConfigError { message }) => message,
        other => panic!("expected a config error, got {:?}", other),
    }
}

#[test]
fn parses_partition_with_groups_and_duration() {
    match parse("network:partition:1,2| 3 ,x,4:10s").unwrap() {
        FaultSpec::Partition { groups, duration } => {
            assert_eq!(groups, vec![vec![1, 2], vec![3, 4]]);
            assert_eq!(duration, Some(Duration::from_secs(10)));
        }
        other => panic!("{:?}", other),
    }
    match parse("network:partition:1:bogus").unwrap() {
        FaultSpec::Partition { duration, .. } => assert_eq!(duration, None),
        other => panic!("{:?}", other),
    }
}

#[test]
fn rates_come_from_the_caller() {
    assert_eq!(fault_rate_text("network:drop:10%"), Some("10%".to_string()));
    assert_eq!(fault_rate_text("disk:error:write:5%"), Some("5%".to_string()));
    assert_eq!(fault_rate_text("crash:1:after:1s"), None);
    assert!(matches!(parse("network:drop:10%").unwrap(), FaultSpec::Drop { rate } if (rate - 0.1).abs() < 1e-9));
    assert!(matches!(parse("network:duplicate:50%").unwrap(), FaultSpec::Duplicate { .. }));
    assert!(matches!(parse("disk:error:read:5%").unwrap(), FaultSpec::DiskReadError { .. }));
    assert!(matches!(parse("disk:error:write:5%").unwrap(), FaultSpec::DiskWriteError { .. }));
    assert_eq!(message(parse("disk:error:bogus:x%")), "invalid percentage: x%");
    assert_eq!(message(parse("disk:error:bogus:5%")), "unknown disk operation: bogus");
}

#[test]
fn delay_crash_and_heal() {
    match parse("network:delay:10ms-100ms").unwrap() {
        FaultSpec::Delay { min, max } => {
            assert_eq!(min, Duration::from_millis(10));
            assert_eq!(max, Duration::from_millis(100));
        }
        other => panic!("{:?}", other),
    }
    match parse("crash:2:after:1s").unwrap() {
        FaultSpec::Crash { node, after } => {
            assert_eq!(node, 2);
            assert_eq!(after, Duration::from_secs(1));
        }
        other => panic!("{:?}", other),
    }
    assert!(matches!(parse("heal").unwrap(), FaultSpec::Heal));
}

#[test]
fn errors_name_what_is_wrong() {
    assert_eq!(message(parse("bogus")), "unknown fault type: bogus");
    assert_eq!(message(parse("network")), "network fault requires subtype");
    assert_eq!(message(parse("network:partition")), "partition requires node groups");
    assert_eq!(message(parse("network:drop")), "drop requires rate");
    assert_eq!(message(parse("network:delay")), "delay requires range");
    assert_eq!(message(parse("network:jitter:1")), "unknown network fault: jitter");
    assert_eq!(message(parse("disk:error")), "disk fault requires: error:read|write:rate");
    assert_eq!(message(parse("disk:full:read:1")), "unknown disk fault: full");
    assert_eq!(message(parse("crash:1")), "crash fault requires: node:after:duration");
    assert_eq!(message(parse("crash:x:after:1s")), "invalid node id: x");
    assert_eq!(message(parse("crash:1:before:1s")), "expected 'after' keyword");
    assert_eq!(message(parse("crash:1:after:soon")), "invalid duration: soon");
}

#[test]
fn fault_list_is_handed_over_as_a_json_array() {
    let specs = vec!["network:partition=1,2|3".to_string(), "say \"hi\"".to_string()];
    assert_eq!(faults_json(&specs), "[\"network:partition=1,2|3\",\"say \\\"hi\\\"\"]");
    assert_eq!(faults_json(&Vec::new()), "[]");
}

#[test]
fn a_failed_serialisation_hands_over_an_empty_array() {
    assert_eq!(fault_list_json(None), "[]");
    assert_eq!(fault_list_json(Some("[\"x\"]".to_string())), "[\"x\"]");
}

#[test]
fn fault_list_json_escapes_backslashes_and_control_characters() {
    let specs = vec!["a\\b\nc\u{1}\u{1f}".to_string(), "x".to_string()];
    assert_eq!(faults_json(&specs), "[\"a\\\\b\\nc\\u0001\\u001f\",\"x\"]");
}
