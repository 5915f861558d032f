//! Recording format: the header, the events and the framing of a recorded run.

pub mod format;
pub mod framing;

pub use format::{Event, EventPayload, EventType, Header, MAGIC, VERSION};
