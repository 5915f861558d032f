//! Configuration of the scheduler, the bug detectors and recording.
use std::time::Duration;
use vstd::prelude::*;
use crate::error::Error;
use crate::time::duration::{duration_from_secs, nanos_of};

verus! {

/// Calls `std::io::Error::new` with `ErrorKind::InvalidData` and a message.
/// The error is opaque here: nothing is stated of it.
#[verifier::external_body]
fn invalid_data(message: String) -> (e: std::io::Error) {
    std::io::Error::new(std::io::ErrorKind::InvalidData, message)
}

/// Scheduler configuration.
#[derive(Debug)]
pub struct SchedulerConfig {
    /// Default scheduling strategy.
    pub strategy: String,
    /// Random seed (0 = use system time).
    pub seed: u64,
    /// Number of iterations for exploration.
    pub iterations: u32,
    /// PCT depth parameter.
    pub pct_depth: u32,
    /// Maximum steps before timeout.
    pub max_steps: u64,
    /// Timeout in seconds (simulated time).
    pub timeout_secs: u64,
}

impl Default for SchedulerConfig {
    /// Random scheduling, seed 0, 1000 iterations, depth 3, a million steps
    /// and a minute.
    fn default() -> (r: Self)
        ensures
            r.strategy@ == "random"@,
            r.seed == 0,
            r.iterations == 1000,
            r.pct_depth == 3,
            r.max_steps == 1_000_000,
            r.timeout_secs == 60,
    {
        SchedulerConfig {
            strategy: String::from_str("random"),
            seed: 0,
            iterations: 1000,
            pct_depth: 3,
            max_steps: 1_000_000,
            timeout_secs: 60,
        }
    }
}

/// The strategy names a configuration accepts.
pub open spec fn known_strategy(s: Seq<char>) -> bool {
    s == "fifo"@ || s == "random"@ || s == "pct"@ || s == "dfs"@ || s == "context_bound"@
}

/// Whether `s` is the name `name`.
fn named(s: &String, name: &str) -> (r: bool)
    ensures
        r == (s@ == name@),
{
    let other = String::from_str(name);
    *s == other
}

impl SchedulerConfig {
    /// What is wrong with the configuration, checked in this order: an
    /// unknown strategy, a PCT depth of zero, no iterations; `None` when
    /// nothing is.
    pub fn problem(&self) -> (r: Option<String>)
        ensures
            r is None <==> (known_strategy(self.strategy@) && self.pct_depth > 0 && self.iterations > 0),
            r matches Some(m) ==> m@ == (if !known_strategy(self.strategy@) {
                "invalid strategy: "@ + self.strategy@ + ". Valid: [\"fifo\", \"random\", \"pct\", \"dfs\", \"context_bound\"]"@
            } else if self.pct_depth == 0 {
                "pct_depth must be > 0"@
            } else {
                "iterations must be > 0"@
            }),
    {
        let known = named(&self.strategy, "fifo") || named(&self.strategy, "random") || named(&self.strategy, "pct")
            || named(&self.strategy, "dfs") || named(&self.strategy, "context_bound");
        if !known {
            let mut message = String::from_str("invalid strategy: ");
            message.append(self.strategy.as_str());
            message.append(". Valid: [\"fifo\", \"random\", \"pct\", \"dfs\", \"context_bound\"]");
            return Some(message);
        }
        if self.pct_depth == 0 {
            return Some(String::from_str("pct_depth must be > 0"));
        }
        if self.iterations == 0 {
            return Some(String::from_str("iterations must be > 0"));
        }
        None
    }

    /// Checks the configuration: the problem found, if any, as an
    /// invalid-data I/O error carrying its message.
    pub fn validate(&self) -> (r: Result<(), Error>)
        ensures
            r is Ok <==> (known_strategy(self.strategy@) && self.pct_depth > 0 && self.iterations > 0),
            r matches Err(e) ==> e is Io,
    {
        match self.problem() {
            Some(m) => Err(Error::Io(invalid_data(m))),
            None => Ok(()),
        }
    }

    /// Get the timeout as a Duration.
    pub fn timeout(&self) -> (r: Duration)
        ensures
            nanos_of(r) == self.timeout_secs as u128 * 1_000_000_000,
    {
        duration_from_secs(self.timeout_secs)
    }
}

/// Detection configuration.
#[derive(Debug, Clone, Copy, PartialEq, Eq, Structural)]
pub struct DetectionConfig {
    /// Enable deadlock detection.
    pub deadlock: bool,
    /// Enable livelock detection.
    pub livelock: bool,
    /// Livelock threshold (steps without progress).
    pub livelock_threshold: u64,
    /// Enable data race detection.
    pub race_detection: bool,
}

impl Default for DetectionConfig {
    /// Deadlock and livelock detection on (threshold 10000), races off.
    fn default() -> (r: Self)
        ensures
            r == (DetectionConfig { deadlock: true, livelock: true, livelock_threshold: 10000, race_detection: false }),
    {
        DetectionConfig { deadlock: true, livelock: true, livelock_threshold: 10000, race_detection: false }
    }
}

impl DetectionConfig {
    /// What is wrong with the configuration: livelock detection with a
    /// threshold of zero; `None` when nothing is.
    pub fn problem(&self) -> (r: Option<String>)
        ensures
            r is None <==> !(self.livelock && self.livelock_threshold == 0),
            r matches Some(m) ==> m@ == "livelock_threshold must be > 0 when livelock is enabled"@,
    {
        if self.livelock && self.livelock_threshold == 0 {
            return Some(String::from_str("livelock_threshold must be > 0 when livelock is enabled"));
        }
        None
    }

    /// Checks the configuration: the problem found, if any, as an
    /// invalid-data I/O error carrying its message.
    pub fn validate(&self) -> (r: Result<(), Error>)
        ensures
            r is Ok <==> !(self.livelock && self.livelock_threshold == 0),
            r matches Err(e) ==> e is Io,
    {
        match self.problem() {
            Some(m) => Err(Error::Io(invalid_data(m))),
            None => Ok(()),
        }
    }
}

/// Recording configuration.
#[derive(Debug)]
pub struct RecordingConfig {
    /// Enable execution recording.
    pub enabled: bool,
    /// Output directory for recordings.
    pub output_dir: String,
    /// Compress recordings.
    pub compress: bool,
}

impl Default for RecordingConfig {
    /// Off, into "./recordings", compressed.
    fn default() -> (r: Self)
        ensures
            !r.enabled,
            r.output_dir@ == "./recordings"@,
            r.compress,
    {
        RecordingConfig { enabled: false, output_dir: String::from_str("./recordings"), compress: true }
    }
}

} // verus!
