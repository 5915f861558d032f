//! Bug detection: deadlocks (circular waits), livelocks (no progress) and
//! data races (concurrent conflicting memory accesses).

pub mod deadlock;
pub mod livelock;
pub mod race;

pub use deadlock::{DeadlockDetector, WaitGraph};
pub use livelock::{LivelockDetector, ProgressTracker};
pub use race::{AccessType, DataRace, MemoryAccess, RaceDetector};
