//! Binary recording format: header and events.
use std::time::{Duration, SystemTime};
use vstd::prelude::*;
use crate::time::duration::{duration_as_nanos, nanos_of};

verus! {

/// Magic bytes for recording files ("CHRN").
pub const MAGIC: [u8; 4] = [67u8, 72u8, 82u8, 78u8];

/// Current format version.
pub const VERSION: u32 = 1;

/// The magic bytes as a sequence.
pub open spec fn magic_seq() -> Seq<u8> {
    seq![67u8, 72u8, 82u8, 78u8]
}

/// A point of the machine's wall clock.
#[verifier::external_type_specification]
#[verifier::external_body]
pub struct ExSystemTime(SystemTime);

/// Calls `SystemTime::now`. The result is the machine's clock: nothing is
/// stated of it.
#[verifier::external_body]
pub(crate) fn wall_clock_now() -> (t: SystemTime) {
    SystemTime::now()
}

/// Calls `SystemTime::duration_since` with `UNIX_EPOCH`; `None` where the
/// clock stands before the epoch. Nothing is stated of the duration.
#[verifier::external_body]
pub(crate) fn since_unix_epoch(t: &SystemTime) -> (r: Option<Duration>) {
    t.duration_since(std::time::UNIX_EPOCH).ok()
}

/// A stamp taken from the time since the epoch: its nanoseconds, low 64
/// bits, or `otherwise` where the clock stands before the epoch.
pub open spec fn stamp_of(since: Option<Duration>, otherwise: u64) -> u64 {
    match since {
        Some(d) => nanos_of(d) as u64,
        None => otherwise,
    }
}

/// The stamp of a time since the epoch (see `stamp_of`).
pub fn stamp(since: Option<Duration>, otherwise: u64) -> (r: u64)
    ensures
        r == stamp_of(since, otherwise),
{
    match since {
        Some(d) => {
            let n = duration_as_nanos(&d);
            n as u64
        },
        None => otherwise,
    }
}

/// Recording file header.
#[derive(Debug, Clone, PartialEq)]
pub struct Header {
    /// Magic bytes (should be MAGIC).
    pub magic: [u8; 4],
    /// Format version.
    pub version: u32,
    /// Random seed used for this run.
    pub seed: u64,
    /// Scheduling strategy (0=FIFO, 1=Random, 2=PCT).
    pub strategy: u8,
    /// Real wall clock start time (unix timestamp nanos).
    pub timestamp: u64,
}

/// Why a header is refused, if it is: the magic bytes first, then the version.
pub open spec fn header_check(magic: Seq<u8>, version: u32) -> Result<(), &'static str> {
    if magic != magic_seq() {
        Err("invalid magic bytes")
    } else if version > VERSION {
        Err("unsupported version")
    } else {
        Ok(())
    }
}

impl Header {
    /// Creates a header for a run with the given seed and strategy, stamped
    /// with the wall clock (zero where the clock stands before the epoch).
    pub fn new(seed: u64, strategy: u8) -> (h: Self)
        ensures
            h.magic@ == magic_seq(),
            h.version == VERSION,
            h.seed == seed,
            h.strategy == strategy,
            exists|since: Option<Duration>| h.timestamp == stamp_of(since, 0),
    {
        let now = wall_clock_now();
        let since = since_unix_epoch(&now);
        let h = Header::stamped(seed, strategy, since);
        proof {
            assert(h.timestamp == stamp_of(since, 0));
        }
        h
    }

    /// The header of a run with the given seed and strategy, stamped with a
    /// time since the epoch (zero where the clock stands before it).
    pub fn stamped(seed: u64, strategy: u8, since: Option<Duration>) -> (h: Self)
        ensures
            h.magic@ == magic_seq(),
            h.version == VERSION,
            h.seed == seed,
            h.strategy == strategy,
            h.timestamp == stamp_of(since, 0),
    {
        let timestamp = stamp(since, 0);
        let h = Header { magic: MAGIC, version: VERSION, seed, strategy, timestamp };
        assert(h.magic@ =~= magic_seq());
        h
    }

    /// Validates the header: the magic bytes must be `MAGIC` and the version
    /// no newer than `VERSION`.
    pub fn validate(&self) -> (r: Result<(), &'static str>)
        ensures
            r == header_check(self.magic@, self.version),
    {
        let m = &self.magic;
        let magic_ok = m[0] == 67u8 && m[1] == 72u8 && m[2] == 82u8 && m[3] == 78u8;
        proof {
            if magic_ok {
                assert(self.magic@ =~= magic_seq());
            } else {
                assert(self.magic@ != magic_seq()) by {
                    if self.magic@ == magic_seq() {
                        assert(self.magic@[0] == 67u8);
                        assert(self.magic@[1] == 72u8);
                        assert(self.magic@[2] == 82u8);
                        assert(self.magic@[3] == 78u8);
                    }
                }
            }
        }
        if !magic_ok {
            return Err("invalid magic bytes");
        }
        if self.version > VERSION {
            return Err("unsupported version");
        }
        Ok(())
    }
}

/// Event types for recording.
#[derive(Debug, Clone, Copy, PartialEq, Eq, Structural)]
pub enum EventType {
    TaskSpawn,
    TaskYield,
    TaskComplete,
    TimeQuery,
    RandomGen,
    NetSend,
    NetRecv,
    ScheduleDecision,
    FaultInjected,
}

/// Event-specific data.
#[derive(Debug, Clone, PartialEq)]
pub enum EventPayload {
    TaskSpawn { parent: u32, name: String },
    TaskYield,
    TaskComplete,
    TimeQuery { result: u64 },
    RandomGen { result: u64 },
    NetSend { dst: u32, data: Vec<u8> },
    NetRecv { src: u32, data: Vec<u8> },
    ScheduleDecision { chosen: u32, ready: Vec<u32> },
    FaultInjected { fault_type: u8, target: u32 },
}

/// A recorded event.
#[derive(Debug, Clone, PartialEq)]
pub struct Event {
    /// Type of event.
    pub event_type: EventType,
    /// Task that generated this event.
    pub task_id: u32,
    /// Simulated time when the event occurred (nanos).
    pub timestamp: u64,
    /// Event-specific payload.
    pub payload: EventPayload,
}

impl Event {
    /// Creates a task spawn event.
    pub fn task_spawn(task_id: u32, parent: u32, name: String, timestamp: u64) -> (e: Self)
        ensures
            e.event_type == EventType::TaskSpawn,
            e.task_id == task_id,
            e.timestamp == timestamp,
            e.payload == (EventPayload::TaskSpawn { parent, name }),
    {
        Event { event_type: EventType::TaskSpawn, task_id, timestamp, payload: EventPayload::TaskSpawn { parent, name } }
    }

    /// Creates a task yield event.
    pub fn task_yield(task_id: u32, timestamp: u64) -> (e: Self)
        ensures
            e.event_type == EventType::TaskYield,
            e.task_id == task_id,
            e.timestamp == timestamp,
            e.payload == EventPayload::TaskYield,
    {
        Event { event_type: EventType::TaskYield, task_id, timestamp, payload: EventPayload::TaskYield }
    }

    /// Creates a task complete event.
    pub fn task_complete(task_id: u32, timestamp: u64) -> (e: Self)
        ensures
            e.event_type == EventType::TaskComplete,
            e.task_id == task_id,
            e.timestamp == timestamp,
            e.payload == EventPayload::TaskComplete,
    {
        Event { event_type: EventType::TaskComplete, task_id, timestamp, payload: EventPayload::TaskComplete }
    }

    /// Creates a time query event.
    pub fn time_query(task_id: u32, timestamp: u64, result: u64) -> (e: Self)
        ensures
            e.event_type == EventType::TimeQuery,
            e.task_id == task_id,
            e.timestamp == timestamp,
            e.payload == (EventPayload::TimeQuery { result }),
    {
        Event { event_type: EventType::TimeQuery, task_id, timestamp, payload: EventPayload::TimeQuery { result } }
    }

    /// Creates a random generation event.
    pub fn random_gen(task_id: u32, timestamp: u64, result: u64) -> (e: Self)
        ensures
            e.event_type == EventType::RandomGen,
            e.task_id == task_id,
            e.timestamp == timestamp,
            e.payload == (EventPayload::RandomGen { result }),
    {
        Event { event_type: EventType::RandomGen, task_id, timestamp, payload: EventPayload::RandomGen { result } }
    }

    /// Creates a network send event.
    pub fn net_send(task_id: u32, timestamp: u64, dst: u32, data: Vec<u8>) -> (e: Self)
        ensures
            e.event_type == EventType::NetSend,
            e.task_id == task_id,
            e.timestamp == timestamp,
            e.payload == (EventPayload::NetSend { dst, data }),
    {
        Event { event_type: EventType::NetSend, task_id, timestamp, payload: EventPayload::NetSend { dst, data } }
    }

    /// Creates a network receive event.
    pub fn net_recv(task_id: u32, timestamp: u64, src: u32, data: Vec<u8>) -> (e: Self)
        ensures
            e.event_type == EventType::NetRecv,
            e.task_id == task_id,
            e.timestamp == timestamp,
            e.payload == (EventPayload::NetRecv { src, data }),
    {
        Event { event_type: EventType::NetRecv, task_id, timestamp, payload: EventPayload::NetRecv { src, data } }
    }

    /// Creates a schedule decision event.
    pub fn schedule_decision(task_id: u32, timestamp: u64, chosen: u32, ready: Vec<u32>) -> (e: Self)
        ensures
            e.event_type == EventType::ScheduleDecision,
            e.task_id == task_id,
            e.timestamp == timestamp,
            e.payload == (EventPayload::ScheduleDecision { chosen, ready }),
    {
        Event {
            event_type: EventType::ScheduleDecision,
            task_id,
            timestamp,
            payload: EventPayload::ScheduleDecision { chosen, ready },
        }
    }

    /// Creates a fault injection event.
    pub fn fault_injected(task_id: u32, timestamp: u64, fault_type: u8, target: u32) -> (e: Self)
        ensures
            e.event_type == EventType::FaultInjected,
            e.task_id == task_id,
            e.timestamp == timestamp,
            e.payload == (EventPayload::FaultInjected { fault_type, target }),
    {
        Event {
            event_type: EventType::FaultInjected,
            task_id,
            timestamp,
            payload: EventPayload::FaultInjected { fault_type, target },
        }
    }
}

/// A header as `Header::new` makes it passes `validate`: the right magic
/// bytes and the current version.
pub proof fn law_new_header_validates(magic: Seq<u8>, version: u32)
    requires
        magic == magic_seq(),
        version == VERSION,
    ensures
        header_check(magic, version) == Ok::<(), &'static str>(()),
{
}

} // verus!
