use chronos::config::{DetectionConfig, RecordingConfig, SchedulerConfig};
use chronos::error::Error;
use chronos::recording::framing::{frame, is_gzip_magic, length_prefix, prefix_length};
use std::time::Duration;

#[test]
fn scheduler_config_defaults_and_timeout() {
    let c = SchedulerConfig::default();
    assert_eq!(c.strategy, "random");
    assert_eq!((c.seed, c.iterations, c.pct_depth, c.max_steps, c.timeout_secs), (0, 1000, 3, 1_000_000, 60));
    assert_eq!(c.timeout(), Duration::from_secs(60));
    assert!(c.validate().is_ok());
}

#[test]
fn scheduler_config_rejects_bad_values() {
    let mut c = SchedulerConfig::default();
    c.strategy = "quantum".to_string();
    match c.validate() {
        Err(Error::Io(e)) => assert!(e.to_string().contains("invalid strategy: quantum")),
        other => panic!("unexpected {:?}", other),
    }
    let mut c = SchedulerConfig::default();
    c.pct_depth = 0;
    assert!(c.validate().is_err());
    let mut c = SchedulerConfig::default();
    c.iterations = 0;
    assert!(c.validate().is_err());
    let mut c = SchedulerConfig::default();
    c.strategy = "context_bound".to_string();
    assert!(c.validate().is_ok());
}

#[test]
fn detection_and_recording_defaults() {
    let d = DetectionConfig::default();
    assert!(d.deadlock && d.livelock && !d.race_detection);
    assert_eq!(d.livelock_threshold, 10000);
    assert!(d.validate().is_ok());
    let bad = DetectionConfig { livelock_threshold: 0, ..d };
    assert!(bad.validate().is_err());
    let off = DetectionConfig { livelock: false, livelock_threshold: 0, ..d };
    assert!(off.validate().is_ok());
    let r = RecordingConfig::default();
    assert!(!r.enabled && r.compress);
    assert_eq!(r.output_dir, "./recordings");
}

#[test]
fn frames_carry_their_length() {
    let f = frame(&[7, 8, 9]);
    assert_eq!(f, vec![3, 0, 0, 0, 7, 8, 9]);
    assert_eq!(prefix_length([3, 0, 0, 0]), 3);
    assert_eq!(length_prefix(0x0102_0304), [4, 3, 2, 1]);
    assert_eq!(prefix_length(length_prefix(70_000)), 70_000);
    assert!(is_gzip_magic(&[0x1f, 0x8b, 0]));
    assert!(!is_gzip_magic(&[0x1f]));
}

#[test]
fn configuration_problems_carry_their_messages() {
    let mut c = SchedulerConfig::default();
    assert_eq!(c.problem(), None);
    c.strategy = "bogus".to_string();
    assert_eq!(
        c.problem().as_deref(),
        Some("invalid strategy: bogus. Valid: [\"fifo\", \"random\", \"pct\", \"dfs\", \"context_bound\"]")
    );
    c.strategy = "pct".to_string();
    c.pct_depth = 0;
    assert_eq!(c.problem().as_deref(), Some("pct_depth must be > 0"));
    c.pct_depth = 2;
    c.iterations = 0;
    assert_eq!(c.problem().as_deref(), Some("iterations must be > 0"));
    let mut d = DetectionConfig::default();
    assert_eq!(d.problem(), None);
    d.livelock_threshold = 0;
    assert_eq!(d.problem().as_deref(), Some("livelock_threshold must be > 0 when livelock is enabled"));
}
