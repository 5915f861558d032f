//! What the command line prints: trace lines and the unit a time is shown in.
use vstd::prelude::*;

verus! {

/// The unit a length of time is shown in: the largest one it reaches.
#[derive(Debug, Clone, Copy, PartialEq, Eq, Structural)]
pub enum TimeScale {
    Seconds,
    Millis,
    Micros,
    Nanos,
}

/// The unit for a length of `nanos` nanoseconds.
pub open spec fn scale_of(nanos: u128) -> TimeScale {
    if nanos >= 1_000_000_000 {
        TimeScale::Seconds
    } else if nanos >= 1_000_000 {
        TimeScale::Millis
    } else if nanos >= 1_000 {
        TimeScale::Micros
    } else {
        TimeScale::Nanos
    }
}

/// Picks the unit a length of `nanos` nanoseconds is shown in.
pub fn time_scale(nanos: u128) -> (r: TimeScale)
    ensures
        r == scale_of(nanos),
{
    if nanos >= 1_000_000_000 {
        TimeScale::Seconds
    } else if nanos >= 1_000_000 {
        TimeScale::Millis
    } else if nanos >= 1_000 {
        TimeScale::Micros
    } else {
        TimeScale::Nanos
    }
}

impl TimeScale {
    /// How many nanoseconds one unit holds.
    pub fn nanos_per_unit(&self) -> (r: u64)
        ensures
            r == (match *self {
                TimeScale::Seconds => 1_000_000_000u64,
                TimeScale::Millis => 1_000_000u64,
                TimeScale::Micros => 1_000u64,
                TimeScale::Nanos => 1u64,
            }),
    {
        match self {
            TimeScale::Seconds => 1_000_000_000,
            TimeScale::Millis => 1_000_000,
            TimeScale::Micros => 1_000,
            TimeScale::Nanos => 1,
        }
    }

    /// The unit's suffix.
    pub fn suffix(&self) -> (r: &'static str)
        ensures
            r@ == (match *self {
                TimeScale::Seconds => "s"@,
                TimeScale::Millis => "ms"@,
                TimeScale::Micros => "μs"@,
                TimeScale::Nanos => "ns"@,
            }),
    {
        match self {
            TimeScale::Seconds => "s",
            TimeScale::Millis => "ms",
            TimeScale::Micros => "μs",
            TimeScale::Nanos => "ns",
        }
    }
}

/// A trace entry for failure output.
#[derive(Debug)]
pub struct TraceEntry {
    pub time_ns: u64,
    pub node: Option<String>,
    pub description: String,
    pub fault: Option<String>,
}

impl Clone for TraceEntry {
    fn clone(&self) -> (r: Self)
        ensures
            r.time_ns == self.time_ns,
            r.description@ == self.description@,
            r.node.is_some() == self.node.is_some(),
            r.fault.is_some() == self.fault.is_some(),
    {
        TraceEntry {
            time_ns: self.time_ns,
            node: match &self.node {
                Some(n) => Some(n.clone()),
                None => None,
            },
            description: self.description.clone(),
            fault: match &self.fault {
                Some(f) => Some(f.clone()),
                None => None,
            },
        }
    }
}

impl TraceEntry {
    /// An entry at `time_ns` with a description, no node and no fault.
    pub fn new(time_ns: u64, description: String) -> (r: Self)
        ensures
            r.time_ns == time_ns,
            r.description == description,
            r.node is None,
            r.fault is None,
    {
        TraceEntry { time_ns, node: None, description, fault: None }
    }

    /// The entry, on a node.
    pub fn with_node(self, node: String) -> (r: Self)
        ensures
            r.time_ns == self.time_ns,
            r.description == self.description,
            r.node == Some(node),
            r.fault == self.fault,
    {
        TraceEntry { node: Some(node), ..self }
    }

    /// The entry, marked with a fault.
    pub fn with_fault(self, fault: String) -> (r: Self)
        ensures
            r.time_ns == self.time_ns,
            r.description == self.description,
            r.node == self.node,
            r.fault == Some(fault),
    {
        TraceEntry { fault: Some(fault), ..self }
    }
}

} // verus!
