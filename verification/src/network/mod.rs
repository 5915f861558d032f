//! The simulated network: messages, links, and fault injection.

pub mod fault;
pub mod link;
pub mod message;

pub use fault::{Fault, FaultSchedule, FaultState};
pub use link::{BandwidthWindow, InFlightQueue};
pub use message::Message;
