//! Runtime components for deterministic task execution.

pub mod task;

pub use task::{BlockReason, TaskHandle};
