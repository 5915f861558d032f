//! Task scheduling with pluggable strategies.

pub mod context_bound;
pub mod scheduler_core;
pub mod dfs;
pub mod pct;
pub mod random;
pub mod strategy;

pub use context_bound::ContextBoundStrategy;
pub use scheduler_core::Scheduler;
pub use dfs::DFSStrategy;
pub use pct::PCTStrategy;
pub use random::RandomStrategy;
pub use strategy::{FifoStrategy, ScheduleStrategy, Strategy};
