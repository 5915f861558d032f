//! Error types for the simulation framework.
use std::time::Duration;
use vstd::prelude::*;
use crate::util::fmt::{dec, push_dec};
use crate::{NodeId, TaskId};

verus! {

/// Errors that can occur during simulation.
#[derive(Debug)]
pub enum Error {
    /// A deadlock was detected in the simulation.
    Deadlock {
        /// Tasks involved in the deadlock cycle.
        cycle: Vec<TaskId>,
    },
    /// A livelock was detected (tasks running but making no progress).
    Livelock {
        /// Tasks that are stuck in a livelock.
        stuck_tasks: Vec<TaskId>,
        /// Number of steps without progress.
        steps: u64,
    },
    /// An assertion failed during simulation.
    AssertionFailed {
        /// Description of the failed assertion.
        message: String,
        /// Source location of the assertion.
        location: String,
    },
    /// Simulation exceeded the time limit.
    Timeout {
        /// Simulated time when timeout occurred.
        simulated_time: Duration,
    },
    /// Replay diverged from the recorded execution.
    ReplayMismatch {
        /// What the recording expected.
        expected: String,
        /// What actually happened.
        got: String,
    },
    /// Recording file is invalid or corrupted.
    InvalidRecording {
        /// Why the recording is invalid.
        reason: String,
    },
    /// Configuration error.
    ConfigError {
        /// Description of the configuration error.
        message: String,
    },
    /// IO error.
    Io(std::io::Error),
    /// Node not found.
    NodeNotFound(NodeId),
    /// Task not found.
    TaskNotFound(TaskId),
}

/// An I/O error of std.
#[verifier::external_type_specification]
#[verifier::external_body]
pub struct ExIoError(std::io::Error);

/// What `{:?}` prints for a duration.
pub uninterp spec fn duration_debug_text(d: Duration) -> Seq<char>;

/// Formats a duration with `{:?}` (std's `Debug`, such as `60s` or `1.5ms`);
/// the text is named `duration_debug_text`.
#[verifier::external_body]
fn debug_duration(d: &Duration) -> (r: String)
    ensures
        r@ == duration_debug_text(*d),
{
    format!("{:?}", d)
}

/// Formats an I/O error with its `Display`. The text comes from the
/// operating system for OS errors: nothing is stated of it.
#[verifier::external_body]
fn display_io_error(e: &std::io::Error) -> (r: String) {
    format!("{}", e)
}

/// `r` is a configuration error whose message is `text`.
pub open spec fn config_error_with<T>(r: Result<T, Error>, text: Seq<char>) -> bool {
    r matches Err(Error::ConfigError { message }) && message@ == text
}

/// Task ids in decimal, separated by `sep`.
pub open spec fn joined_ids(ids: Seq<TaskId>, sep: Seq<char>) -> Seq<char>
    decreases ids.len(),
{
    if ids.len() == 0 {
        Seq::empty()
    } else if ids.len() == 1 {
        dec(ids[0] as nat)
    } else {
        joined_ids(ids.drop_last(), sep) + sep + dec(ids.last() as nat)
    }
}

/// Task ids as `{:?}` prints a list of them: `[1, 2]`.
pub open spec fn id_list_text(ids: Seq<TaskId>) -> Seq<char> {
    "["@ + joined_ids(ids, ", "@) + "]"@
}

/// The message of a deadlock through the tasks of `cycle`.
pub open spec fn deadlock_text(cycle: Seq<TaskId>) -> Seq<char> {
    "deadlock detected: cycle involves tasks "@ + joined_ids(cycle, " -> "@)
}

/// Appends the ids of `ids`, decimal, separated by `sep`.
pub fn push_joined_ids(out: &mut String, ids: &[TaskId], sep: &str)
    ensures
        final(out)@ == old(out)@ + joined_ids(ids@, sep@),
{
    let mut i: usize = 0;
    while i < ids.len()
        invariant
            i <= ids@.len(),
            out@ == old(out)@ + joined_ids(ids@.take(i as int), sep@),
        decreases ids@.len() - i,
    {
        let ghost before = out@;
        if i > 0 {
            out.append(sep);
        }
        push_dec(out, ids[i] as u64);
        proof {
            let t = ids@.take(i as int + 1);
            assert(t.drop_last() =~= ids@.take(i as int));
            assert(t.last() == ids@[i as int]);
            if i == 0 {
                assert(ids@.take(0) =~= Seq::<TaskId>::empty());
                assert(before =~= old(out)@);
                assert(out@ =~= old(out)@ + joined_ids(t, sep@));
            } else {
                assert(out@ =~= old(out)@ + joined_ids(t, sep@));
            }
        }
        i = i + 1;
    }
    proof {
        assert(ids@.take(ids@.len() as int) =~= ids@);
    }
}

impl Error {
    /// The error's message.
    pub fn to_string(&self) -> (r: String)
        ensures
            match self {
                Error::Deadlock { cycle } => r@ == deadlock_text(cycle@),
                Error::Livelock { stuck_tasks, steps } => r@ == "livelock detected: tasks "@ + id_list_text(stuck_tasks@)
                    + " made no progress for "@ + dec(*steps as nat) + " steps"@,
                Error::AssertionFailed { message, location } => r@ == "assertion failed at "@ + location@ + ": "@
                    + message@,
                Error::Timeout { simulated_time } => r@ == "timeout after "@ + duration_debug_text(*simulated_time)
                    + " simulated time"@,
                Error::ReplayMismatch { expected, got } => r@ == "replay mismatch: expected "@ + expected@ + ", got "@
                    + got@,
                Error::InvalidRecording { reason } => r@ == "invalid recording: "@ + reason@,
                Error::ConfigError { message } => r@ == "config error: "@ + message@,
                Error::Io(_) => r@.len() >= 10 && r@.subrange(0, 10) == "io error: "@,
                Error::NodeNotFound(n) => r@ == "node "@ + dec(*n as nat) + " not found"@,
                Error::TaskNotFound(t) => r@ == "task "@ + dec(*t as nat) + " not found"@,
            },
    {
        match self {
            Error::Deadlock { cycle } => {
                let mut s = String::from_str("deadlock detected: cycle involves tasks ");
                push_joined_ids(&mut s, cycle.as_slice(), " -> ");
                s
            },
            Error::Livelock { stuck_tasks, steps } => {
                let mut s = String::from_str("livelock detected: tasks ");
                s.append("[");
                push_joined_ids(&mut s, stuck_tasks.as_slice(), ", ");
                s.append("]");
                s.append(" made no progress for ");
                push_dec(&mut s, *steps);
                s.append(" steps");
                assert(s@ =~= "livelock detected: tasks "@ + id_list_text(stuck_tasks@) + " made no progress for "@
                    + dec(*steps as nat) + " steps"@);
                s
            },
            Error::AssertionFailed { message, location } => {
                let mut s = String::from_str("assertion failed at ");
                s.append(location.as_str());
                s.append(": ");
                s.append(message.as_str());
                s
            },
            Error::Timeout { simulated_time } => {
                let mut s = String::from_str("timeout after ");
                let t = debug_duration(simulated_time);
                s.append(t.as_str());
                s.append(" simulated time");
                s
            },
            Error::ReplayMismatch { expected, got } => {
                let mut s = String::from_str("replay mismatch: expected ");
                s.append(expected.as_str());
                s.append(", got ");
                s.append(got.as_str());
                s
            },
            Error::InvalidRecording { reason } => {
                let mut s = String::from_str("invalid recording: ");
                s.append(reason.as_str());
                s
            },
            Error::ConfigError { message } => {
                let mut s = String::from_str("config error: ");
                s.append(message.as_str());
                s
            },
            Error::Io(e) => {
                let mut s = String::from_str("io error: ");
                proof {
                    reveal_strlit("io error: ");
                }
                let ghost head = s@;
                let t = display_io_error(e);
                s.append(t.as_str());
                assert(s@.subrange(0, 10) =~= head);
                s
            },
            Error::NodeNotFound(n) => {
                let mut s = String::from_str("node ");
                push_dec(&mut s, *n as u64);
                s.append(" not found");
                s
            },
            Error::TaskNotFound(t) => {
                let mut s = String::from_str("task ");
                push_dec(&mut s, *t as u64);
                s.append(" not found");
                s
            },
        }
    }
}

} // verus!
