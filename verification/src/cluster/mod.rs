//! Cluster simulation: nodes and causal ordering between their events.

pub mod happens_before;
pub mod node;

pub use happens_before::{HBEvent, HappensBeforeGraph, VectorClock};
pub use node::{ByteMessage, EchoHandler, InternalMessage, Message, MessageHandler, Node, NodeState};
