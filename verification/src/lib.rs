//! Deterministic simulation testing for distributed systems: virtual time,
//! schedulers, fault injection and bug detectors, with their behaviour stated
//! as contracts and proved.

pub mod cli;
pub mod cluster;
pub mod config;
pub mod detection;
pub mod error;
pub mod network;
pub mod recording;
pub mod runtime;
pub mod scheduler;
pub mod time;
pub mod util;
pub mod viz;

use vstd::prelude::*;

verus! {

/// Unique identifier for a simulated task.
pub type TaskId = u32;

/// Unique identifier for a simulated node.
pub type NodeId = u32;

/// Unique identifier for a message.
pub type MessageId = u64;

/// Unique identifier for an event (for happens-before tracking).
pub type EventId = u64;

} // verus!
