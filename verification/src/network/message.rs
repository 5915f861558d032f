//! Network message types for simulation.
use std::time::Duration;
use vstd::prelude::*;
use vstd::std_specs::cmp::PartialEqSpecImpl;
use crate::time::duration::{duration_from_nanos, nanos_of};
use crate::time::instant::Instant;
use crate::util::bytes::{bytes_eq, copy_bytes};
use crate::{MessageId, NodeId};

verus! {

/// What a message holds, as plain values.
pub struct MessageView {
    pub id: MessageId,
    pub from: NodeId,
    pub to: NodeId,
    pub data: Seq<u8>,
    pub sent_at: u64,
}

/// A network message between nodes.
#[derive(Debug)]
pub struct Message {
    /// Unique identifier for this message.
    pub id: MessageId,
    /// Source node.
    pub from: NodeId,
    /// Destination node.
    pub to: NodeId,
    /// Message payload.
    pub data: Vec<u8>,
    /// Simulated time when the message was sent.
    pub sent_at: Instant,
}

impl View for Message {
    type V = MessageView;

    open spec fn view(&self) -> MessageView {
        MessageView { id: self.id, from: self.from, to: self.to, data: self.data@, sent_at: self.sent_at@ }
    }
}

impl Message {
    /// Creates a message with a specific ID (for testing/replay).
    pub fn with_id(id: MessageId, from: NodeId, to: NodeId, data: Vec<u8>, sent_at: Instant) -> (r: Self)
        ensures
            r@ == (MessageView { id, from, to, data: data@, sent_at: sent_at@ }),
    {
        Message { id, from, to, data, sent_at }
    }

    /// Returns the size of the message payload in bytes.
    pub fn size(&self) -> (r: usize)
        ensures
            r == self.data@.len(),
    {
        self.data.len()
    }

    /// Returns true if this is an empty message.
    pub fn is_empty(&self) -> (r: bool)
        ensures
            r == (self.data@.len() == 0),
    {
        self.data.len() == 0
    }
}

impl Clone for Message {
    fn clone(&self) -> (r: Self)
        ensures
            r@ == self@,
    {
        Message { id: self.id, from: self.from, to: self.to, data: copy_bytes(&self.data), sent_at: self.sent_at }
    }
}

impl PartialEq for Message {
    fn eq(&self, other: &Self) -> (r: bool) {
        self.id == other.id && self.from == other.from && self.to == other.to
            && bytes_eq(self.data.as_slice(), other.data.as_slice())
            && self.sent_at.as_nanos() == other.sent_at.as_nanos()
    }
}

impl PartialEqSpecImpl for Message {
    open spec fn obeys_eq_spec() -> bool {
        true
    }

    open spec fn eq_spec(&self, other: &Self) -> bool {
        self@ == other@
    }
}

impl Eq for Message {}

/// A message in flight with scheduled delivery time.
#[derive(Debug)]
pub struct InFlightMessage {
    /// The message being delivered.
    pub msg: Message,
    /// Simulated time when the message will be delivered.
    pub deliver_at: Instant,
}

impl InFlightMessage {
    /// Creates a new in-flight message.
    pub fn new(msg: Message, deliver_at: Instant) -> (r: Self)
        ensures
            r.msg@ == msg@,
            r.deliver_at == deliver_at,
    {
        InFlightMessage { msg, deliver_at }
    }

    /// The latency: delivery time minus sending time, or zero if the
    /// message was due before it was sent.
    pub fn latency(&self) -> (r: Duration)
        ensures
            nanos_of(r) == (if self.msg.sent_at@ <= self.deliver_at@ { self.deliver_at@ - self.msg.sent_at@ } else { 0 }),
    {
        match self.deliver_at.duration_since(self.msg.sent_at) {
            Some(d) => d,
            None => duration_from_nanos(0),
        }
    }
}

} // verus!
