//! Virtual time for deterministic simulation.

pub mod duration;
pub mod instant;

pub use duration::nanos_of;
pub use instant::Instant;
pub mod clock;
pub use clock::Clock;
pub mod timer;
pub use timer::{TimerId, TimerWheel};
