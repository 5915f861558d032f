//! Replay state: the recorded values a replay feeds back, and its cursors.
use vstd::prelude::*;
use vstd::string::StrSliceExecFns;
use crate::cli::analyze::{event_type_name, kind_label};
use crate::error::{id_list_text, push_joined_ids};
use crate::recording::format::{Event, EventPayload};
use crate::util::fmt::{dec, dec_string, push_dec};
use std::collections::HashMap;
use crate::TaskId;
use crate::util::text::{chars_of, is_white, parse_u64, parsed_u64, trim_chars, trimmed, white};

verus! {

broadcast use vstd::std_specs::hash::group_hash_axioms;

/// What a replay knows of a recorded task.
#[derive(Debug)]
pub struct TaskState {
    pub name: String,
    pub spawned_at: u64,
    pub completed_at: Option<u64>,
    pub parent: u32,
}

/// A recorded network event.
#[derive(Debug)]
pub struct NetworkEvent {
    pub timestamp: u64,
    pub event_type: NetworkEventType,
}

/// The two kinds of recorded network events.
#[derive(Debug)]
pub enum NetworkEventType {
    Send { task_id: u32, dst: u32, data: Vec<u8> },
    Recv { task_id: u32, src: u32, data: Vec<u8> },
}

/// Result of a replay.
#[derive(Debug)]
pub struct ReplayResult {
    pub events_replayed: usize,
    pub final_time: u64,
    pub tasks_spawned: usize,
    pub tasks_completed: usize,
    pub verification_passed: Option<bool>,
}

/// The position of the first send at or after `i`, if any.
pub open spec fn first_send(s: Seq<NetworkEvent>, i: int) -> Option<int>
    decreases s.len() - i,
{
    if i < 0 || i >= s.len() {
        None
    } else if s[i].event_type is Send {
        Some(i)
    } else {
        first_send(s, i + 1)
    }
}

/// The first send found lies in range and is a send.
proof fn lemma_first_send(s: Seq<NetworkEvent>, i: int)
    ensures
        first_send(s, i) matches Some(j) ==> i <= j < s.len() && s[j].event_type is Send,
    decreases s.len() - i,
{
    if 0 <= i < s.len() && !(s[i].event_type is Send) {
        lemma_first_send(s, i + 1);
    }
}

/// The position of the first send at or after `from`, or the end of the
/// events (`from` itself when it lies beyond them).
fn find_send(events: &Vec<NetworkEvent>, from: usize) -> (r: usize)
    ensures
        first_send(events@, from as int) matches Some(j) ==> r == j,
        first_send(events@, from as int) is None ==> r == (if from < events@.len() {
            events@.len() as usize
        } else {
            from
        }),
{
    if from >= events.len() {
        return from;
    }
    let mut i = from;
    while i < events.len()
        invariant
            from <= i <= events@.len(),
            first_send(events@, i as int) == first_send(events@, from as int),
        decreases events@.len() - i,
    {
        match &events[i].event_type {
            NetworkEventType::Send { .. } => {
                return i;
            },
            NetworkEventType::Recv { .. } => {},
        }
        i = i + 1;
    }
    i
}

/// Current state during replay.
pub struct ReplayState {
    /// Current event index.
    pub event_index: usize,
    /// Current simulated time.
    pub current_time: u64,
    /// Tasks seen spawned.
    pub active_tasks: HashMap<TaskId, TaskState>,
    /// Recorded random values to feed back.
    pub random_values: Vec<u64>,
    /// Random value index.
    pub random_index: usize,
    /// Recorded time queries.
    pub time_queries: Vec<u64>,
    /// Time query index.
    pub time_index: usize,
    /// Network events for replay.
    pub network_events: Vec<NetworkEvent>,
    /// Network event index.
    pub network_index: usize,
    /// Schedule decisions for verification.
    pub schedule_decisions: Vec<(u32, Vec<u32>)>,
    /// Schedule decision index.
    pub schedule_index: usize,
}

impl ReplayState {
    /// An empty replay state at the start.
    pub fn new() -> (r: Self)
        ensures
            r.event_index == 0,
            r.current_time == 0,
            r.active_tasks@ == Map::<TaskId, TaskState>::empty(),
            r.random_values@ == Seq::<u64>::empty(),
            r.random_index == 0,
            r.time_queries@ == Seq::<u64>::empty(),
            r.time_index == 0,
            r.network_events@ == Seq::<NetworkEvent>::empty(),
            r.network_index == 0,
            r.schedule_decisions@ == Seq::<(u32, Vec<u32>)>::empty(),
            r.schedule_index == 0,
    {
        ReplayState {
            event_index: 0,
            current_time: 0,
            active_tasks: HashMap::new(),
            random_values: Vec::new(),
            random_index: 0,
            time_queries: Vec::new(),
            time_index: 0,
            network_events: Vec::new(),
            network_index: 0,
            schedule_decisions: Vec::new(),
            schedule_index: 0,
        }
    }

    /// Get the next random value from the recording, if one is left.
    pub fn next_random(&mut self) -> (r: Option<u64>)
        ensures
            old(self).random_index < old(self).random_values@.len() ==> r == Some(
                old(self).random_values@[old(self).random_index as int],
            ) && *final(self) == (ReplayState { random_index: (old(self).random_index + 1) as usize, ..*old(self) }),
            old(self).random_index >= old(self).random_values@.len() ==> r is None && *final(self) == *old(self),
    {
        if self.random_index < self.random_values.len() {
            let value = self.random_values[self.random_index];
            self.random_index = self.random_index + 1;
            Some(value)
        } else {
            None
        }
    }

    /// Get the next time query result from the recording, if one is left.
    pub fn next_time(&mut self) -> (r: Option<u64>)
        ensures
            old(self).time_index < old(self).time_queries@.len() ==> r == Some(
                old(self).time_queries@[old(self).time_index as int],
            ) && *final(self) == (ReplayState { time_index: (old(self).time_index + 1) as usize, ..*old(self) }),
            old(self).time_index >= old(self).time_queries@.len() ==> r is None && *final(self) == *old(self),
    {
        if self.time_index < self.time_queries.len() {
            let value = self.time_queries[self.time_index];
            self.time_index = self.time_index + 1;
            Some(value)
        } else {
            None
        }
    }

    /// Get the next recorded send, skipping receives: its destination and
    /// data. The cursor moves past it, or to the end when none is left.
    pub fn next_send(&mut self) -> (r: Option<(u32, Vec<u8>)>)
        ensures
            first_send(old(self).network_events@, old(self).network_index as int) matches Some(j) ==> {
                &&& old(self).network_events@[j].event_type matches NetworkEventType::Send { dst, data, .. }
                    && (r matches Some(p) && p.0 == dst && p.1@ == data@)
                &&& *final(self) == (ReplayState { network_index: (j + 1) as usize, ..*old(self) })
            },
            first_send(old(self).network_events@, old(self).network_index as int) is None ==> {
                &&& r is None
                &&& *final(self) == (ReplayState {
                    network_index: if old(self).network_index < old(self).network_events@.len() {
                        old(self).network_events@.len() as usize
                    } else {
                        old(self).network_index
                    },
                    ..*old(self)
                })
            },
    {
        let j = find_send(&self.network_events, self.network_index);
        proof {
            lemma_first_send(self.network_events@, self.network_index as int);
        }
        if j < self.network_events.len() {
            self.network_index = j + 1;
            match &self.network_events[j].event_type {
                NetworkEventType::Send { dst, data, .. } => Some((*dst, vstd::slice::slice_to_vec(data.as_slice()))),
                NetworkEventType::Recv { .. } => None,
            }
        } else {
            self.network_index = j;
            None
        }
    }

    /// Check a schedule decision against the recording: true when it chose
    /// the recorded task, or when no recorded decision is left.
    pub fn verify_decision(&mut self, chosen: u32, _ready: &[u32]) -> (r: bool)
        ensures
            old(self).schedule_index < old(self).schedule_decisions@.len() ==> r == (
            old(self).schedule_decisions@[old(self).schedule_index as int].0 == chosen) && *final(self) == (
            ReplayState { schedule_index: (old(self).schedule_index + 1) as usize, ..*old(self) }),
            old(self).schedule_index >= old(self).schedule_decisions@.len() ==> r && *final(self) == *old(self),
    {
        if self.schedule_index < self.schedule_decisions.len() {
            let expected = self.schedule_decisions[self.schedule_index].0;
            self.schedule_index = self.schedule_index + 1;
            expected == chosen
        } else {
            true
        }
    }

    /// Moves every cursor back to the start of the recording.
    pub fn rewind(&mut self)
        ensures
            *final(self) == (ReplayState {
                event_index: 0,
                current_time: 0,
                random_index: 0,
                time_index: 0,
                network_index: 0,
                schedule_index: 0,
                ..*old(self)
            }),
    {
        self.event_index = 0;
        self.current_time = 0;
        self.random_index = 0;
        self.time_index = 0;
        self.network_index = 0;
        self.schedule_index = 0;
    }

    /// Steps past the next event of `events`: its position is returned, the
    /// event index moves on by one and the time becomes the event's; at the
    /// end of the events nothing changes and `None` comes back.
    pub fn advance(&mut self, events: &[Event]) -> (r: Option<usize>)
        ensures
            old(self).event_index < events@.len() ==> r == Some(old(self).event_index) && *final(self) == (ReplayState {
                event_index: (old(self).event_index + 1) as usize,
                current_time: events@[old(self).event_index as int].timestamp,
                ..*old(self)
            }),
            old(self).event_index >= events@.len() ==> r is None && *final(self) == *old(self),
    {
        if self.event_index < events.len() {
            let i = self.event_index;
            self.event_index = i + 1;
            self.current_time = events[i].timestamp;
            Some(i)
        } else {
            None
        }
    }

    /// Starts over and steps past the first `target` events (all of them,
    /// if there are fewer).
    pub fn jump(&mut self, events: &[Event], target: usize)
        ensures
            final(self).event_index == if target < events@.len() { target } else { events@.len() as usize },
            final(self).current_time == if final(self).event_index == 0 {
                0
            } else {
                events@[final(self).event_index - 1].timestamp
            },
            *final(self) == (ReplayState {
                event_index: final(self).event_index,
                current_time: final(self).current_time,
                random_index: 0,
                time_index: 0,
                network_index: 0,
                schedule_index: 0,
                ..*old(self)
            }),
    {
        self.rewind();
        let ghost start = *self;
        let mut k: usize = 0;
        while k < target
            invariant
                k <= target,
                self.event_index == if k < events@.len() { k } else { events@.len() as usize },
                self.current_time == if self.event_index == 0 { 0 } else { events@[self.event_index - 1].timestamp },
                *self == (ReplayState { event_index: self.event_index, current_time: self.current_time, ..start }),
            ensures
                self.event_index == if target < events@.len() { target } else { events@.len() as usize },
                self.current_time == if self.event_index == 0 { 0 } else { events@[self.event_index - 1].timestamp },
                *self == (ReplayState { event_index: self.event_index, current_time: self.current_time, ..start }),
            decreases target - k,
        {
            if self.advance(events).is_none() {
                break;
            }
            k = k + 1;
        }
    }

    /// Indexes a recorded event for replay: random values, time queries,
    /// network events and schedule decisions are kept in order, spawns add a
    /// task and completions stamp a known one.
    pub fn record(&mut self, event: &Event)
        ensures
            final(self).random_values@ == (match event.payload {
                EventPayload::RandomGen { result } => old(self).random_values@.push(result),
                _ => old(self).random_values@,
            }),
            final(self).time_queries@ == (match event.payload {
                EventPayload::TimeQuery { result } => old(self).time_queries@.push(result),
                _ => old(self).time_queries@,
            }),
            event.payload is NetSend || event.payload is NetRecv ==> {
                &&& final(self).network_events@.len() == old(self).network_events@.len() + 1
                &&& final(self).network_events@.drop_last() == old(self).network_events@
                &&& final(self).network_events@.last().timestamp == event.timestamp
                &&& event.payload matches EventPayload::NetSend { dst, data } ==> final(self).network_events@.last().event_type
                    matches NetworkEventType::Send { task_id: t, dst: d, data: v } && t == event.task_id && d == dst
                    && v@ == data@
                &&& event.payload matches EventPayload::NetRecv { src, data } ==> final(self).network_events@.last().event_type
                    matches NetworkEventType::Recv { task_id: t, src: s, data: v } && t == event.task_id && s == src
                    && v@ == data@
            },
            !(event.payload is NetSend || event.payload is NetRecv) ==> final(self).network_events@ == old(
                self,
            ).network_events@,
            event.payload matches EventPayload::ScheduleDecision { chosen, ready } ==> {
                &&& final(self).schedule_decisions@.len() == old(self).schedule_decisions@.len() + 1
                &&& final(self).schedule_decisions@.drop_last() == old(self).schedule_decisions@
                &&& final(self).schedule_decisions@.last().0 == chosen
                &&& final(self).schedule_decisions@.last().1@ == ready@
            },
            !(event.payload is ScheduleDecision) ==> final(self).schedule_decisions@ == old(self).schedule_decisions@,
            event.payload matches EventPayload::TaskSpawn { parent, name } ==> {
                &&& final(self).active_tasks@.dom() == old(self).active_tasks@.dom().insert(event.task_id)
                &&& final(self).active_tasks@[event.task_id].name@ == name@
                &&& final(self).active_tasks@[event.task_id].spawned_at == event.timestamp
                &&& final(self).active_tasks@[event.task_id].completed_at is None
                &&& final(self).active_tasks@[event.task_id].parent == parent
                &&& forall|t: TaskId| t != event.task_id && #[trigger] old(self).active_tasks@.contains_key(t)
                    ==> final(self).active_tasks@[t] == old(self).active_tasks@[t]
            },
            event.payload is TaskComplete ==> {
                &&& final(self).active_tasks@.dom() == old(self).active_tasks@.dom()
                &&& old(self).active_tasks@.contains_key(event.task_id) ==> {
                    &&& final(self).active_tasks@[event.task_id].completed_at == Some(event.timestamp)
                    &&& final(self).active_tasks@[event.task_id].name == old(self).active_tasks@[event.task_id].name
                    &&& final(self).active_tasks@[event.task_id].spawned_at == old(
                        self,
                    ).active_tasks@[event.task_id].spawned_at
                    &&& final(self).active_tasks@[event.task_id].parent == old(self).active_tasks@[event.task_id].parent
                }
                &&& forall|t: TaskId| t != event.task_id && #[trigger] old(self).active_tasks@.contains_key(t)
                    ==> final(self).active_tasks@[t] == old(self).active_tasks@[t]
            },
            !(event.payload is TaskSpawn || event.payload is TaskComplete) ==> final(self).active_tasks@ == old(
                self,
            ).active_tasks@,
            final(self).event_index == old(self).event_index,
            final(self).current_time == old(self).current_time,
            final(self).random_index == old(self).random_index,
            final(self).time_index == old(self).time_index,
            final(self).network_index == old(self).network_index,
            final(self).schedule_index == old(self).schedule_index,
    {
        match &event.payload {
            EventPayload::RandomGen { result } => {
                self.random_values.push(*result);
            },
            EventPayload::TimeQuery { result } => {
                self.time_queries.push(*result);
            },
            EventPayload::NetSend { dst, data } => {
                let copy = vstd::slice::slice_to_vec(data.as_slice());
                self.network_events.push(NetworkEvent {
                    timestamp: event.timestamp,
                    event_type: NetworkEventType::Send { task_id: event.task_id, dst: *dst, data: copy },
                });
                proof {
                    assert(self.network_events@.drop_last() =~= old(self).network_events@);
                }
            },
            EventPayload::NetRecv { src, data } => {
                let copy = vstd::slice::slice_to_vec(data.as_slice());
                self.network_events.push(NetworkEvent {
                    timestamp: event.timestamp,
                    event_type: NetworkEventType::Recv { task_id: event.task_id, src: *src, data: copy },
                });
                proof {
                    assert(self.network_events@.drop_last() =~= old(self).network_events@);
                }
            },
            EventPayload::ScheduleDecision { chosen, ready } => {
                let copy = vstd::slice::slice_to_vec(ready.as_slice());
                self.schedule_decisions.push((*chosen, copy));
                proof {
                    assert(self.schedule_decisions@.drop_last() =~= old(self).schedule_decisions@);
                }
            },
            EventPayload::TaskSpawn { parent, name } => {
                let state = TaskState {
                    name: name.clone(),
                    spawned_at: event.timestamp,
                    completed_at: None,
                    parent: *parent,
                };
                self.active_tasks.insert(event.task_id, state);
            },
            EventPayload::TaskComplete => {
                match self.active_tasks.remove(&event.task_id) {
                    Some(task) => {
                        self.active_tasks.insert(event.task_id, TaskState { completed_at: Some(event.timestamp), ..task });
                        proof {
                            assert(self.active_tasks@.dom() =~= old(self).active_tasks@.dom());
                        }
                    },
                    None => {
                        proof {
                            assert(self.active_tasks@ =~= old(self).active_tasks@);
                        }
                    },
                }
            },
            _ => {},
        }
    }
}

/// What a non-interactive replay of a recording found: the events replayed
/// (those of the task asked for), the time reached, the spawns and
/// completions among them, and why it stopped early, if it did.
#[derive(Debug, Clone, Copy, PartialEq, Eq, Structural)]
pub struct ReplayPass {
    /// Events stepped through, the one it stopped at included.
    pub steps: usize,
    pub events_replayed: usize,
    pub final_time: u64,
    pub tasks_spawned: usize,
    pub tasks_completed: usize,
    pub stopped: ReplayStop,
}

/// Why a replay stopped.
#[derive(Debug, Clone, Copy, PartialEq, Eq, Structural)]
pub enum ReplayStop {
    /// It ran to the end.
    End,
    /// An event came after the time limit.
    AtTime,
    /// The number of events replayed reached the limit.
    AtEvent,
}

/// The replay on reaching the event `e`: it stops, without stepping to the
/// event, when the event lies past `stop_at` or `stop_event` events were
/// replayed; else the time moves to the event, and the event is counted
/// when it belongs to the task asked for.
pub open spec fn replay_step(p: ReplayPass, e: Event, stop_at: Option<u64>, stop_event: Option<usize>, task: Option<u32>) -> ReplayPass {
    let q = ReplayPass { final_time: e.timestamp, steps: (p.steps + 1) as usize, ..p };
    if stop_at matches Some(t) && e.timestamp > t {
        ReplayPass { stopped: ReplayStop::AtTime, ..p }
    } else if stop_event matches Some(n) && p.events_replayed >= n {
        ReplayPass { stopped: ReplayStop::AtEvent, ..p }
    } else if task matches Some(t) && e.task_id != t {
        q
    } else {
        ReplayPass {
            events_replayed: (p.events_replayed + 1) as usize,
            tasks_spawned: if e.payload is TaskSpawn { (p.tasks_spawned + 1) as usize } else { p.tasks_spawned },
            tasks_completed: if e.payload is TaskComplete { (p.tasks_completed + 1) as usize } else { p.tasks_completed },
            ..q
        }
    }
}

/// The replay of the events, one after the other, until it stops.
pub open spec fn replay_of(events: Seq<Event>, stop_at: Option<u64>, stop_event: Option<usize>, task: Option<u32>) -> ReplayPass
    decreases events.len(),
{
    if events.len() == 0 {
        ReplayPass { steps: 0, events_replayed: 0, final_time: 0, tasks_spawned: 0, tasks_completed: 0, stopped: ReplayStop::End }
    } else {
        let p = replay_of(events.drop_last(), stop_at, stop_event, task);
        if p.stopped == ReplayStop::End {
            replay_step(p, events.last(), stop_at, stop_event, task)
        } else {
            p
        }
    }
}

proof fn lemma_replay_counts(events: Seq<Event>, stop_at: Option<u64>, stop_event: Option<usize>, task: Option<u32>)
    ensures
        replay_of(events, stop_at, stop_event, task).steps <= events.len(),
        replay_of(events, stop_at, stop_event, task).events_replayed <= events.len(),
        replay_of(events, stop_at, stop_event, task).tasks_spawned <= events.len(),
        replay_of(events, stop_at, stop_event, task).tasks_completed <= events.len(),
    decreases events.len(),
{
    if events.len() > 0 {
        lemma_replay_counts(events.drop_last(), stop_at, stop_event, task);
    }
}

/// A replay with a stop time never moves the time past it.
proof fn lemma_replay_before_stop(events: Seq<Event>, stop_at: Option<u64>, stop_event: Option<usize>, task: Option<u32>)
    ensures
        stop_at matches Some(t) ==> replay_of(events, stop_at, stop_event, task).final_time <= t,
    decreases events.len(),
{
    if events.len() > 0 {
        lemma_replay_before_stop(events.drop_last(), stop_at, stop_event, task);
    }
}

/// Replays the events without interaction: each event moves the time on;
/// the replay stops before the first event past `stop_at`, or once
/// `stop_event` events were replayed; only events of `task`, when given,
/// are counted. With a stop time, the time never passes it.
pub fn replay_pass(events: &[Event], stop_at: Option<u64>, stop_event: Option<usize>, task: Option<u32>) -> (r: ReplayPass)
    ensures
        r == replay_of(events@, stop_at, stop_event, task),
        stop_at matches Some(t) ==> r.final_time <= t,
{
    proof {
        lemma_replay_before_stop(events@, stop_at, stop_event, task);
    }
    let mut p = ReplayPass {
        steps: 0,
        events_replayed: 0,
        final_time: 0,
        tasks_spawned: 0,
        tasks_completed: 0,
        stopped: ReplayStop::End,
    };
    let mut i: usize = 0;
    proof {
        assert(events@.take(0) =~= Seq::<Event>::empty());
    }
    while i < events.len()
        invariant
            i <= events@.len(),
            p == replay_of(events@.take(i as int), stop_at, stop_event, task),
            p.stopped == ReplayStop::End,
        decreases events@.len() - i,
    {
        let e = &events[i];
        proof {
            let q = events@.take(i as int + 1);
            assert(q.drop_last() =~= events@.take(i as int));
            assert(q.last() == *e);
            lemma_replay_counts(events@.take(i as int), stop_at, stop_event, task);
        }
        match stop_at {
            Some(t) => {
                if e.timestamp > t {
                    p.stopped = ReplayStop::AtTime;
                    proof {
                        lemma_replay_rest(events@, i as int + 1, stop_at, stop_event, task);
                    }
                    return p;
                }
            },
            None => {},
        }
        match stop_event {
            Some(n) => {
                if p.events_replayed >= n {
                    p.stopped = ReplayStop::AtEvent;
                    proof {
                        lemma_replay_rest(events@, i as int + 1, stop_at, stop_event, task);
                    }
                    return p;
                }
            },
            None => {},
        }
        p.final_time = e.timestamp;
        p.steps = p.steps + 1;
        let counted = match task {
            Some(t) => e.task_id == t,
            None => true,
        };
        if counted {
            p.events_replayed = p.events_replayed + 1;
            match &e.payload {
                EventPayload::TaskSpawn { .. } => {
                    p.tasks_spawned = p.tasks_spawned + 1;
                },
                EventPayload::TaskComplete => {
                    p.tasks_completed = p.tasks_completed + 1;
                },
                _ => {},
            }
        }
        i = i + 1;
    }
    proof {
        assert(events@.take(events@.len() as int) =~= events@);
    }
    p
}

/// Once stopped, a replay stays as it was.
proof fn lemma_replay_rest(events: Seq<Event>, k: int, stop_at: Option<u64>, stop_event: Option<usize>, task: Option<u32>)
    requires
        0 <= k <= events.len(),
        replay_of(events.take(k), stop_at, stop_event, task).stopped != ReplayStop::End,
    ensures
        replay_of(events, stop_at, stop_event, task) == replay_of(events.take(k), stop_at, stop_event, task),
    decreases events.len() - k,
{
    if k < events.len() {
        let q = events.take(k + 1);
        assert(q.drop_last() =~= events.take(k));
        lemma_replay_rest(events, k + 1, stop_at, stop_event, task);
    } else {
        assert(events.take(k) =~= events);
    }
}

/// How two recordings compare, by seed, then event count, then each event's
/// type and task.
#[derive(Debug, Clone, Copy, PartialEq, Eq, Structural)]
pub enum RecordingMatch {
    Same,
    SeedsDiffer,
    CountDiffers { first: usize, second: usize },
    TypeDiffers { index: usize },
    TaskDiffers { index: usize },
}

/// The first position below `n` where the events' types or tasks differ.
pub open spec fn first_difference(a: Seq<Event>, b: Seq<Event>, n: int) -> Option<int>
    decreases n,
{
    if n <= 0 {
        None
    } else {
        match first_difference(a, b, n - 1) {
            Some(i) => Some(i),
            None => if a[n - 1].event_type != b[n - 1].event_type || a[n - 1].task_id != b[n - 1].task_id {
                Some(n - 1)
            } else {
                None
            },
        }
    }
}

/// How two recordings compare; timestamps are not compared.
pub open spec fn recordings_compare(seed1: u64, a: Seq<Event>, seed2: u64, b: Seq<Event>) -> RecordingMatch {
    if seed1 != seed2 {
        RecordingMatch::SeedsDiffer
    } else if a.len() != b.len() {
        RecordingMatch::CountDiffers { first: a.len() as usize, second: b.len() as usize }
    } else {
        match first_difference(a, b, a.len() as int) {
            Some(i) => if a[i].event_type != b[i].event_type {
                RecordingMatch::TypeDiffers { index: i as usize }
            } else {
                RecordingMatch::TaskDiffers { index: i as usize }
            },
            None => RecordingMatch::Same,
        }
    }
}

/// Compares two recordings, as the check of determinism does.
pub fn compare_recordings(seed1: u64, a: &[Event], seed2: u64, b: &[Event]) -> (r: RecordingMatch)
    ensures
        r == recordings_compare(seed1, a@, seed2, b@),
{
    if seed1 != seed2 {
        return RecordingMatch::SeedsDiffer;
    }
    if a.len() != b.len() {
        return RecordingMatch::CountDiffers { first: a.len(), second: b.len() };
    }
    let mut i: usize = 0;
    while i < a.len()
        invariant
            seed1 == seed2,
            a@.len() == b@.len(),
            i <= a@.len(),
            first_difference(a@, b@, i as int) is None,
        decreases a@.len() - i,
    {
        if a[i].event_type != b[i].event_type {
            proof {
                assert(a@[i as int].event_type != b@[i as int].event_type);
                assert(first_difference(a@, b@, i as int + 1) == Some(i as int));
                lemma_first_difference_stays(a@, b@, i as int + 1, a@.len() as int);
            }
            return RecordingMatch::TypeDiffers { index: i };
        }
        if a[i].task_id != b[i].task_id {
            proof {
                assert(a@[i as int].event_type == b@[i as int].event_type);
                assert(a@[i as int].task_id != b@[i as int].task_id);
                assert(first_difference(a@, b@, i as int + 1) == Some(i as int));
                lemma_first_difference_stays(a@, b@, i as int + 1, a@.len() as int);
            }
            return RecordingMatch::TaskDiffers { index: i };
        }
        i = i + 1;
    }
    RecordingMatch::Same
}

/// A difference found below `k` is the first below any larger bound.
proof fn lemma_first_difference_stays(a: Seq<Event>, b: Seq<Event>, k: int, n: int)
    requires
        0 <= k <= n,
        first_difference(a, b, k) is Some,
    ensures
        first_difference(a, b, n) == first_difference(a, b, k),
    decreases n - k,
{
    if k < n {
        lemma_first_difference_stays(a, b, k, n - 1);
    }
}

/// `s` right-aligned in `width` columns: spaces before it when shorter.
pub open spec fn right_aligned(s: Seq<char>, width: nat) -> Seq<char> {
    if s.len() < width {
        Seq::new((width - s.len()) as nat, |i: int| ' ') + s
    } else {
        s
    }
}

/// Appends `n` in decimal, right-aligned in `width` columns.
fn push_right_aligned(out: &mut String, n: u64, width: usize)
    ensures
        final(out)@ == old(out)@ + right_aligned(dec(n as nat), width as nat),
{
    let digits = dec_string(n);
    let len = digits.as_str().unicode_len();
    let ghost start = out@;
    if len < width {
        let mut k: usize = 0;
        while k < width - len
            invariant
                len < width,
                k <= width - len,
                out@ == start + Seq::new(k as nat, |i: int| ' '),
            decreases width - len - k,
        {
            out.push(' ');
            proof {
                assert(out@ =~= start + Seq::new((k + 1) as nat, |i: int| ' '));
            }
            k = k + 1;
        }
    }
    out.append(digits.as_str());
    proof {
        if len >= width {
            assert(out@ =~= start + dec(n as nat));
        } else {
            assert(out@ =~= start + (Seq::new((width - len) as nat, |i: int| ' ') + dec(n as nat)));
        }
    }
}

/// What a replayed event shows after its time and task.
pub open spec fn replay_event_desc(e: Event) -> Seq<char> {
    match e.payload {
        EventPayload::TaskSpawn { parent, name } => "SPAWN "@ + name@ + " (parent="@ + dec(parent as nat) + ")"@,
        EventPayload::TaskYield => "YIELD"@,
        EventPayload::TaskComplete => "COMPLETE"@,
        EventPayload::TimeQuery { result } => "TIME -> "@ + dec(result as nat) + "ns"@,
        EventPayload::RandomGen { result } => "RANDOM -> "@ + dec(result as nat),
        EventPayload::NetSend { dst, data } => "SEND -> node "@ + dec(dst as nat) + " ("@ + dec(data@.len()) + " bytes)"@,
        EventPayload::NetRecv { src, data } => "RECV <- node "@ + dec(src as nat) + " ("@ + dec(data@.len()) + " bytes)"@,
        EventPayload::ScheduleDecision { chosen, ready } => "SCHEDULE chose "@ + dec(chosen as nat) + " from "@
            + id_list_text(ready@),
        EventPayload::FaultInjected { fault_type, target } => "FAULT type="@ + dec(fault_type as nat) + " target="@
            + dec(target as nat),
    }
}

/// The line a replay prints for an event: its time and task, right-aligned,
/// then what it did.
pub open spec fn replay_event_line(e: Event) -> Seq<char> {
    "["@ + right_aligned(dec(e.timestamp as nat), 12) + "ns] task "@ + right_aligned(dec(e.task_id as nat), 3) + " "@
        + replay_event_desc(e)
}

/// The line a replay prints for an event.
pub fn replay_event_text(e: &Event) -> (r: String)
    ensures
        r@ == replay_event_line(*e),
{
    let mut s = String::from_str("[");
    push_right_aligned(&mut s, e.timestamp, 12);
    s.append("ns] task ");
    push_right_aligned(&mut s, e.task_id as u64, 3);
    s.append(" ");
    let ghost head = s@;
    match &e.payload {
        EventPayload::TaskSpawn { parent, name } => {
            s.append("SPAWN ");
            s.append(name.as_str());
            s.append(" (parent=");
            push_dec(&mut s, *parent as u64);
            s.append(")");
        },
        EventPayload::TaskYield => {
            s.append("YIELD");
        },
        EventPayload::TaskComplete => {
            s.append("COMPLETE");
        },
        EventPayload::TimeQuery { result } => {
            s.append("TIME -> ");
            push_dec(&mut s, *result);
            s.append("ns");
        },
        EventPayload::RandomGen { result } => {
            s.append("RANDOM -> ");
            push_dec(&mut s, *result);
        },
        EventPayload::NetSend { dst, data } => {
            s.append("SEND -> node ");
            push_dec(&mut s, *dst as u64);
            s.append(" (");
            push_dec(&mut s, data.len() as u64);
            s.append(" bytes)");
        },
        EventPayload::NetRecv { src, data } => {
            s.append("RECV <- node ");
            push_dec(&mut s, *src as u64);
            s.append(" (");
            push_dec(&mut s, data.len() as u64);
            s.append(" bytes)");
        },
        EventPayload::ScheduleDecision { chosen, ready } => {
            s.append("SCHEDULE chose ");
            push_dec(&mut s, *chosen as u64);
            s.append(" from ");
            s.append("[");
            push_joined_ids(&mut s, ready.as_slice(), ", ");
            s.append("]");
        },
        EventPayload::FaultInjected { fault_type, target } => {
            s.append("FAULT type=");
            push_dec(&mut s, *fault_type as u64);
            s.append(" target=");
            push_dec(&mut s, *target as u64);
        },
    }
    proof {
        assert(s@ =~= head + replay_event_desc(*e));
        assert(s@ =~= replay_event_line(*e));
    }
    s
}

/// One event of the exported timeline, with a comma after it unless it is
/// the last.
pub open spec fn json_event_line(e: Event, last: bool) -> Seq<char> {
    "    {\"type\": \""@ + kind_label(e.event_type) + "\", \"task\": "@ + dec(e.task_id as nat) + ", \"time\": "@
        + dec(e.timestamp as nat) + "}"@ + (if last { Seq::empty() } else { ","@ }) + "\n"@
}

/// The exported events, each on its line.
pub open spec fn json_event_lines(events: Seq<Event>, n: nat) -> Seq<char>
    decreases events.len(),
{
    if events.len() == 0 {
        Seq::empty()
    } else {
        json_event_lines(events.drop_last(), n) + json_event_line(events.last(), events.len() == n)
    }
}

/// The timeline of a recording exported as JSON: its seed, its strategy,
/// and each event's type, task and time.
pub open spec fn timeline_json_text(seed: u64, strategy: u8, events: Seq<Event>) -> Seq<char> {
    "{\n"@ + "  \"seed\": "@ + dec(seed as nat) + ",\n"@ + "  \"strategy\": "@ + dec(strategy as nat) + ",\n"@
        + "  \"events\": [\n"@ + json_event_lines(events, events.len()) + "  ]\n"@ + "}\n"@
}

/// Exports the timeline of a recording as JSON.
pub fn timeline_json(seed: u64, strategy: u8, events: &[Event]) -> (r: String)
    ensures
        r@ == timeline_json_text(seed, strategy, events@),
{
    let mut s = String::from_str("{\n");
    s.append("  \"seed\": ");
    push_dec(&mut s, seed);
    s.append(",\n");
    s.append("  \"strategy\": ");
    push_dec(&mut s, strategy as u64);
    s.append(",\n");
    s.append("  \"events\": [\n");
    let ghost head = s@;
    let n = events.len();
    let mut i: usize = 0;
    proof {
        assert(events@.take(0) =~= Seq::<Event>::empty());
        assert(head + json_event_lines(events@.take(0), n as nat) =~= head);
    }
    while i < n
        invariant
            n == events@.len(),
            i <= n,
            s@ == head + json_event_lines(events@.take(i as int), n as nat),
        decreases n - i,
    {
        let e = &events[i];
        let ghost before = s@;
        s.append("    {\"type\": \"");
        s.append(event_type_name(e.event_type));
        s.append("\", \"task\": ");
        push_dec(&mut s, e.task_id as u64);
        s.append(", \"time\": ");
        push_dec(&mut s, e.timestamp);
        s.append("}");
        if i + 1 < n {
            s.append(",");
        }
        s.append("\n");
        proof {
            let q = events@.take(i as int + 1);
            assert(q.drop_last() =~= events@.take(i as int));
            assert(q.last() == *e);
            assert(q.len() == i + 1);
            if i + 1 < n {
                assert(s@ =~= before + json_event_line(*e, false));
            } else {
                assert(s@ =~= before + json_event_line(*e, true));
            }
            assert(s@ =~= head + json_event_lines(q, n as nat));
        }
        i = i + 1;
    }
    s.append("  ]\n");
    s.append("}\n");
    proof {
        assert(events@.take(n as int) =~= events@);
        assert(s@ =~= timeline_json_text(seed, strategy, events@));
    }
    s
}


/// A command typed at the interactive replay prompt.
#[derive(Debug, Clone, Copy, PartialEq, Eq, Structural)]
pub enum ReplayCommand {
    /// `n`, `next` or an empty line: step one event.
    Next,
    /// `q` or `quit`: leave.
    Quit,
    /// `s` or `status`: show where the replay stands.
    Status,
    /// `j N` or `jump N`: start over and step `N` events.
    Jump(usize),
    /// A jump without one number after it: nothing happens.
    Ignored,
    /// Anything else.
    Unknown,
}

/// `t` begins with `w`.
pub open spec fn begins_with(t: Seq<char>, w: Seq<char>) -> bool {
    t.len() >= w.len() && t.take(w.len() as int) == w
}

/// The number after a jump word of length `k`, when exactly one word
/// follows it and it reads as a `usize`.
pub open spec fn jump_target(t: Seq<char>, k: int) -> Option<usize> {
    let arg = trimmed(t.skip(k));
    if arg.len() > 0 && (forall|i: int| 0 <= i < arg.len() ==> !is_white(#[trigger] arg[i])) {
        match parsed_u64(arg) {
            Some(v) => if v <= usize::MAX { Some(v as usize) } else { None },
            None => None,
        }
    } else {
        None
    }
}

/// What a line typed at the prompt asks for, once trimmed.
pub open spec fn replay_command_of(input: Seq<char>) -> ReplayCommand {
    let t = trimmed(input);
    if t == "n"@ || t == "next"@ || t.len() == 0 {
        ReplayCommand::Next
    } else if t == "q"@ || t == "quit"@ {
        ReplayCommand::Quit
    } else if t == "s"@ || t == "status"@ {
        ReplayCommand::Status
    } else if begins_with(t, "j "@) || begins_with(t, "jump "@) {
        match jump_target(t, if begins_with(t, "j "@) { 1 } else { 4 }) {
            Some(n) => ReplayCommand::Jump(n),
            None => ReplayCommand::Ignored,
        }
    } else {
        ReplayCommand::Unknown
    }
}

/// Whether the characters begin with the text `w`.
fn begins(t: &Vec<char>, w: &str) -> (r: bool)
    ensures
        r == begins_with(t@, w@),
{
    let wc = chars_of(w);
    if t.len() < wc.len() {
        return false;
    }
    let mut i: usize = 0;
    while i < wc.len()
        invariant
            wc@ == w@,
            wc@.len() <= t@.len(),
            i <= wc@.len(),
            forall|j: int| 0 <= j < i ==> t@[j] == wc@[j],
        decreases wc@.len() - i,
    {
        if t[i] != wc[i] {
            proof {
                assert(t@.take(wc@.len() as int)[i as int] != w@[i as int]);
            }
            return false;
        }
        i = i + 1;
    }
    proof {
        assert(t@.take(wc@.len() as int) =~= w@);
    }
    true
}

/// Whether the characters are the text `w`.
fn same_text(t: &Vec<char>, w: &str) -> (r: bool)
    ensures
        r == (t@ == w@),
{
    let wc = chars_of(w);
    crate::util::split::chars_eq(t.as_slice(), wc.as_slice())
}

/// Whether none of the characters is white space.
fn no_white(arg: &Vec<char>) -> (r: bool)
    ensures
        r == (forall|j: int| 0 <= j < arg@.len() ==> !is_white(#[trigger] arg@[j])),
{
    let mut i: usize = 0;
    while i < arg.len()
        invariant
            i <= arg@.len(),
            forall|j: int| 0 <= j < i ==> !is_white(#[trigger] arg@[j]),
        decreases arg@.len() - i,
    {
        if white(arg[i]) {
            proof {
                assert(is_white(arg@[i as int]));
            }
            return false;
        }
        i = i + 1;
    }
    true
}

/// Reads what a line typed at the interactive replay prompt asks for.
pub fn parse_replay_command(input: &str) -> (r: ReplayCommand)
    ensures
        r == replay_command_of(input@),
{
    let all = chars_of(input);
    let t = trim_chars(all.as_slice());
    if same_text(&t, "n") || same_text(&t, "next") || t.len() == 0 {
        return ReplayCommand::Next;
    }
    if same_text(&t, "q") || same_text(&t, "quit") {
        return ReplayCommand::Quit;
    }
    if same_text(&t, "s") || same_text(&t, "status") {
        return ReplayCommand::Status;
    }
    let short = begins(&t, "j ");
    if !short && !begins(&t, "jump ") {
        return ReplayCommand::Unknown;
    }
    let k: usize = if short { 1 } else { 4 };
    proof {
        reveal_strlit("j ");
        reveal_strlit("jump ");
    }
    let rest = vstd::slice::slice_subrange(t.as_slice(), k, t.len());
    let arg = trim_chars(rest);
    proof {
        assert(rest@ =~= t@.skip(k as int));
    }
    if arg.len() == 0 {
        return ReplayCommand::Ignored;
    }
    if !no_white(&arg) {
        return ReplayCommand::Ignored;
    }
    match parse_u64(arg.as_slice()) {
        Some(v) => {
            if v <= usize::MAX as u64 {
                ReplayCommand::Jump(v as usize)
            } else {
                ReplayCommand::Ignored
            }
        },
        None => ReplayCommand::Ignored,
    }
}

/// The events at `i` agree in type and task.
pub open spec fn events_agree(a: Seq<Event>, b: Seq<Event>, i: int) -> bool {
    a[i].event_type == b[i].event_type && a[i].task_id == b[i].task_id
}

/// `first_difference` finds the first position below `n` where the events
/// disagree, and finds none only when they agree everywhere below `n`.
proof fn lemma_first_difference_is_first(a: Seq<Event>, b: Seq<Event>, n: int)
    ensures
        first_difference(a, b, n) is None <==> forall|i: int| 0 <= i < n ==> #[trigger] events_agree(a, b, i),
        first_difference(a, b, n) matches Some(k) ==> 0 <= k < n && !events_agree(a, b, k)
            && forall|i: int| 0 <= i < k ==> #[trigger] events_agree(a, b, i),
    decreases n,
{
    if n > 0 {
        lemma_first_difference_is_first(a, b, n - 1);
        if first_difference(a, b, n - 1) is None {
            if events_agree(a, b, n - 1) {
                assert(first_difference(a, b, n) is None);
                assert forall|i: int| 0 <= i < n implies #[trigger] events_agree(a, b, i) by {
                    if i < n - 1 {
                        assert(events_agree(a, b, i));
                    }
                }
            } else {
                assert(first_difference(a, b, n) == Some(n - 1));
            }
        } else {
            let k = first_difference(a, b, n - 1)->0;
            assert(first_difference(a, b, n) == Some(k));
            assert(!events_agree(a, b, k));
        }
    }
}

/// Two recordings compare as the same exactly when their seeds are equal,
/// they hold as many events, and at every position the events have the
/// same type and task. A reported difference is the first position where
/// the events disagree: in type, or else in task.
pub proof fn law_recordings_same_exactly_when_all_agree(seed1: u64, a: Seq<Event>, seed2: u64, b: Seq<Event>)
    requires
        a.len() <= usize::MAX,
    ensures
        (recordings_compare(seed1, a, seed2, b) == RecordingMatch::Same) <==> (seed1 == seed2 && a.len() == b.len()
            && forall|i: int| 0 <= i < a.len() ==> #[trigger] events_agree(a, b, i)),
        (recordings_compare(seed1, a, seed2, b) == RecordingMatch::SeedsDiffer) <==> seed1 != seed2,
        (recordings_compare(seed1, a, seed2, b) is CountDiffers) <==> (seed1 == seed2 && a.len() != b.len()),
        recordings_compare(seed1, a, seed2, b) matches RecordingMatch::TypeDiffers { index } ==> {
            &&& index < a.len() && a.len() == b.len()
            &&& a[index as int].event_type != b[index as int].event_type
            &&& forall|i: int| 0 <= i < index ==> #[trigger] events_agree(a, b, i)
        },
        recordings_compare(seed1, a, seed2, b) matches RecordingMatch::TaskDiffers { index } ==> {
            &&& index < a.len() && a.len() == b.len()
            &&& a[index as int].event_type == b[index as int].event_type
            &&& a[index as int].task_id != b[index as int].task_id
            &&& forall|i: int| 0 <= i < index ==> #[trigger] events_agree(a, b, i)
        },
{
    lemma_first_difference_is_first(a, b, a.len() as int);
    if seed1 == seed2 && a.len() == b.len() {
        if let Some(k) = first_difference(a, b, a.len() as int) {
            assert(k as usize as int == k);
            assert(!events_agree(a, b, k));
        }
    }
}

} // verus!
