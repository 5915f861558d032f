//! Timeline view of a recorded run.
use vstd::prelude::*;
use crate::recording::format::{Event, EventPayload};
use crate::util::fmt::{dec, push_dec};
use std::collections::HashMap;

verus! {

broadcast use vstd::std_specs::hash::group_hash_axioms;

/// Task info for timeline display.
#[derive(Debug)]
pub struct TaskInfo {
    /// Task ID.
    pub id: u32,
    /// Task name.
    pub name: String,
    /// Parent task ID.
    pub parent: u32,
    /// Spawn time (nanos).
    pub spawn_time: u64,
    /// Complete time (nanos), None if still running.
    pub complete_time: Option<u64>,
}

/// What the timeline knows of a task, as plain values.
pub struct TaskView {
    pub id: u32,
    pub name: Seq<char>,
    pub parent: u32,
    pub spawn_time: u64,
    pub complete_time: Option<u64>,
}

impl View for TaskInfo {
    type V = TaskView;

    open spec fn view(&self) -> TaskView {
        TaskView {
            id: self.id,
            name: self.name@,
            parent: self.parent,
            spawn_time: self.spawn_time,
            complete_time: self.complete_time,
        }
    }
}

/// The views of a task record.
pub open spec fn task_views(m: Map<u32, TaskInfo>) -> Map<u32, TaskView> {
    m.map_values(|t: TaskInfo| t@)
}

impl Clone for TaskInfo {
    fn clone(&self) -> (r: Self)
        ensures
            r@ == self@,
    {
        TaskInfo {
            id: self.id,
            name: self.name.clone(),
            parent: self.parent,
            spawn_time: self.spawn_time,
            complete_time: self.complete_time,
        }
    }
}

/// What a timeline entry holds, as plain values.
pub struct EntryView {
    pub timestamp: u64,
    pub task_id: u32,
    pub event_type: Seq<char>,
    pub description: Seq<char>,
    pub css_class: Seq<char>,
}

/// Timeline entry for display.
#[derive(Debug)]
pub struct TimelineEntry {
    /// Timestamp (nanos).
    pub timestamp: u64,
    /// Task ID.
    pub task_id: u32,
    /// Event type name.
    pub event_type: String,
    /// Human-readable description.
    pub description: String,
    /// CSS class for styling.
    pub css_class: String,
}

impl View for TimelineEntry {
    type V = EntryView;

    open spec fn view(&self) -> EntryView {
        EntryView {
            timestamp: self.timestamp,
            task_id: self.task_id,
            event_type: self.event_type@,
            description: self.description@,
            css_class: self.css_class@,
        }
    }
}

impl Clone for TimelineEntry {
    fn clone(&self) -> (r: Self)
        ensures
            r@ == self@,
    {
        TimelineEntry {
            timestamp: self.timestamp,
            task_id: self.task_id,
            event_type: self.event_type.clone(),
            description: self.description.clone(),
            css_class: self.css_class.clone(),
        }
    }
}

/// The views of a list of entries.
pub open spec fn entry_views(s: Seq<TimelineEntry>) -> Seq<EntryView> {
    s.map_values(|e: TimelineEntry| e@)
}

/// The name a timeline gives a task: the name it was spawned with, or
/// "unknown" for a task it has not seen spawned.
pub open spec fn task_name(tasks: Map<u32, TaskView>, id: u32) -> Seq<char> {
    if tasks.contains_key(id) { tasks[id].name } else { "unknown"@ }
}

/// The event type name shown for a payload.
pub open spec fn kind_of(p: EventPayload) -> Seq<char> {
    match p {
        EventPayload::TaskSpawn { .. } => "spawn"@,
        EventPayload::TaskYield => "yield"@,
        EventPayload::TaskComplete => "complete"@,
        EventPayload::TimeQuery { .. } => "time"@,
        EventPayload::RandomGen { .. } => "random"@,
        EventPayload::NetSend { .. } => "send"@,
        EventPayload::NetRecv { .. } => "recv"@,
        EventPayload::ScheduleDecision { .. } => "schedule"@,
        EventPayload::FaultInjected { .. } => "fault"@,
    }
}

/// The CSS class of a payload's entry: network traffic shares one class,
/// injected faults are failures.
pub open spec fn class_of(p: EventPayload) -> Seq<char> {
    match p {
        EventPayload::NetSend { .. } => "network"@,
        EventPayload::NetRecv { .. } => "network"@,
        EventPayload::FaultInjected { .. } => "failure"@,
        _ => kind_of(p),
    }
}

/// "Task '<name>'".
pub open spec fn quoted(name: Seq<char>) -> Seq<char> {
    "Task '"@ + name + "'"@
}

/// The description of a payload's entry, for a task named `tn`.
pub open spec fn text_of(tn: Seq<char>, p: EventPayload) -> Seq<char> {
    match p {
        EventPayload::TaskSpawn { parent, name } => quoted(name@) + " spawned by task "@ + dec(parent as nat),
        EventPayload::TaskYield => quoted(tn) + " yielded"@,
        EventPayload::TaskComplete => quoted(tn) + " completed"@,
        EventPayload::TimeQuery { result } => quoted(tn) + " queried time: "@ + dec(result as nat) + "ns"@,
        EventPayload::RandomGen { result } => quoted(tn) + " generated random: "@ + dec(result as nat),
        EventPayload::NetSend { dst, data } => quoted(tn) + " sent "@ + dec(data@.len()) + " bytes to task "@
            + dec(dst as nat),
        EventPayload::NetRecv { src, data } => quoted(tn) + " received "@ + dec(data@.len())
            + " bytes from task "@ + dec(src as nat),
        EventPayload::ScheduleDecision { chosen, ready } => "Scheduler chose task "@ + dec(chosen as nat) + " from "@
            + dec(ready@.len()) + " ready"@,
        EventPayload::FaultInjected { fault_type, target } => "Fault type "@ + dec(fault_type as nat)
            + " injected on task "@ + dec(target as nat),
    }
}

/// The entry a timeline that knows `tasks` makes for `e`.
pub open spec fn entry_of(tasks: Map<u32, TaskView>, e: Event) -> EntryView {
    EntryView {
        timestamp: e.timestamp,
        task_id: e.task_id,
        event_type: kind_of(e.payload),
        description: text_of(task_name(tasks, e.task_id), e.payload),
        css_class: class_of(e.payload),
    }
}

/// Whether an event is a failure (an injected fault).
pub open spec fn is_failure(e: Event) -> bool {
    e.payload is FaultInjected
}

/// The task record after `e`: a spawn records the task (again, if it was
/// known), a completion stamps a known task, other events change nothing.
pub open spec fn tasks_after(tasks: Map<u32, TaskView>, e: Event) -> Map<u32, TaskView> {
    match e.payload {
        EventPayload::TaskSpawn { parent, name } => tasks.insert(
            e.task_id,
            TaskView { id: e.task_id, name: name@, parent, spawn_time: e.timestamp, complete_time: None },
        ),
        EventPayload::TaskComplete => if tasks.contains_key(e.task_id) {
            tasks.insert(e.task_id, TaskView { complete_time: Some(e.timestamp), ..tasks[e.task_id] })
        } else {
            tasks
        },
        _ => tasks,
    }
}

/// Appends "Task '<name>'".
fn push_quoted(out: &mut String, name: &str)
    ensures
        final(out)@ == old(out)@ + quoted(name@),
{
    out.append("Task '");
    out.append(name);
    out.append("'");
}

/// The description of an event's payload for a task named `tn`.
fn describe(tn: &str, p: &EventPayload) -> (r: String)
    ensures
        r@ == text_of(tn@, *p),
{
    let mut s = String::new();
    match p {
        EventPayload::TaskSpawn { parent, name } => {
            push_quoted(&mut s, name.as_str());
            s.append(" spawned by task ");
            push_dec(&mut s, *parent as u64);
        },
        EventPayload::TaskYield => {
            push_quoted(&mut s, tn);
            s.append(" yielded");
        },
        EventPayload::TaskComplete => {
            push_quoted(&mut s, tn);
            s.append(" completed");
        },
        EventPayload::TimeQuery { result } => {
            push_quoted(&mut s, tn);
            s.append(" queried time: ");
            push_dec(&mut s, *result);
            s.append("ns");
        },
        EventPayload::RandomGen { result } => {
            push_quoted(&mut s, tn);
            s.append(" generated random: ");
            push_dec(&mut s, *result);
        },
        EventPayload::NetSend { dst, data } => {
            push_quoted(&mut s, tn);
            s.append(" sent ");
            push_dec(&mut s, data.len() as u64);
            s.append(" bytes to task ");
            push_dec(&mut s, *dst as u64);
        },
        EventPayload::NetRecv { src, data } => {
            push_quoted(&mut s, tn);
            s.append(" received ");
            push_dec(&mut s, data.len() as u64);
            s.append(" bytes from task ");
            push_dec(&mut s, *src as u64);
        },
        EventPayload::ScheduleDecision { chosen, ready } => {
            s.append("Scheduler chose task ");
            push_dec(&mut s, *chosen as u64);
            s.append(" from ");
            push_dec(&mut s, ready.len() as u64);
            s.append(" ready");
        },
        EventPayload::FaultInjected { fault_type, target } => {
            s.append("Fault type ");
            push_dec(&mut s, *fault_type as u64);
            s.append(" injected on task ");
            push_dec(&mut s, *target as u64);
        },
    }
    proof {
        assert(s@ =~= text_of(tn@, *p));
    }
    s
}

/// The event type name and CSS class of a payload.
fn kind_and_class(p: &EventPayload) -> (r: (&'static str, &'static str))
    ensures
        r.0@ == kind_of(*p),
        r.1@ == class_of(*p),
{
    match p {
        EventPayload::TaskSpawn { .. } => ("spawn", "spawn"),
        EventPayload::TaskYield => ("yield", "yield"),
        EventPayload::TaskComplete => ("complete", "complete"),
        EventPayload::TimeQuery { .. } => ("time", "time"),
        EventPayload::RandomGen { .. } => ("random", "random"),
        EventPayload::NetSend { .. } => ("send", "network"),
        EventPayload::NetRecv { .. } => ("recv", "network"),
        EventPayload::ScheduleDecision { .. } => ("schedule", "schedule"),
        EventPayload::FaultInjected { .. } => ("fault", "failure"),
    }
}

/// Timeline builder from events.
pub struct TimelineBuilder {
    tasks: HashMap<u32, TaskInfo>,
    entries: Vec<TimelineEntry>,
    failures: Vec<TimelineEntry>,
}

impl TimelineBuilder {
    /// The tasks seen so far.
    pub closed spec fn task_map(&self) -> Map<u32, TaskView> {
        task_views(self.tasks@)
    }

    /// The entries so far, in event order.
    pub closed spec fn entry_list(&self) -> Seq<EntryView> {
        entry_views(self.entries@)
    }

    /// The failure entries so far, in event order.
    pub closed spec fn failure_list(&self) -> Seq<EntryView> {
        entry_views(self.failures@)
    }

    /// Create a new timeline builder.
    pub fn new() -> (r: Self)
        ensures
            r.task_map() == Map::<u32, TaskView>::empty(),
            r.entry_list() == Seq::<EntryView>::empty(),
            r.failure_list() == Seq::<EntryView>::empty(),
    {
        let r = TimelineBuilder { tasks: HashMap::new(), entries: Vec::new(), failures: Vec::new() };
        proof {
            assert(entry_views(r.entries@) =~= Seq::<EntryView>::empty());
            assert(entry_views(r.failures@) =~= Seq::<EntryView>::empty());
        }
        r
    }

    /// The entry for an event, named with the tasks seen so far.
    fn event_to_entry(&self, event: &Event) -> (r: TimelineEntry)
        ensures
            r@ == entry_of(self.task_map(), *event),
    {
        let tn: &str = match self.tasks.get(&event.task_id) {
            Some(t) => t.name.as_str(),
            None => "unknown",
        };
        let description = describe(tn, &event.payload);
        let (kind, class) = kind_and_class(&event.payload);
        TimelineEntry {
            timestamp: event.timestamp,
            task_id: event.task_id,
            event_type: String::from_str(kind),
            description,
            css_class: String::from_str(class),
        }
    }

    /// Add an event: its entry goes last (and last among the failures for an
    /// injected fault), and spawns and completions update the task record.
    pub fn add_event(&mut self, event: &Event)
        ensures
            final(self).entry_list() == old(self).entry_list().push(entry_of(old(self).task_map(), *event)),
            final(self).failure_list() == (if is_failure(*event) {
                old(self).failure_list().push(entry_of(old(self).task_map(), *event))
            } else {
                old(self).failure_list()
            }),
            final(self).task_map() == tasks_after(old(self).task_map(), *event),
    {
        let entry = self.event_to_entry(event);
        let ghost ev = entry@;
        let failure = match &event.payload {
            EventPayload::FaultInjected { .. } => true,
            _ => false,
        };
        if failure {
            let copy = entry.clone();
            self.failures.push(copy);
            proof {
                assert(entry_views(self.failures@) =~= old(self).failure_list().push(ev));
            }
        }
        self.entries.push(entry);
        proof {
            assert(entry_views(self.entries@) =~= old(self).entry_list().push(ev));
        }
        match &event.payload {
            EventPayload::TaskSpawn { parent, name } => {
                let info = TaskInfo {
                    id: event.task_id,
                    name: name.clone(),
                    parent: *parent,
                    spawn_time: event.timestamp,
                    complete_time: None,
                };
                self.tasks.insert(event.task_id, info);
                proof {
                    assert(task_views(self.tasks@) =~= tasks_after(old(self).task_map(), *event));
                }
            },
            EventPayload::TaskComplete => {
                let old_info = self.tasks.remove(&event.task_id);
                match old_info {
                    Some(info) => {
                        let stamped = TaskInfo { complete_time: Some(event.timestamp), ..info };
                        self.tasks.insert(event.task_id, stamped);
                        proof {
                            assert(task_views(self.tasks@) =~= tasks_after(old(self).task_map(), *event));
                        }
                    },
                    None => {
                        proof {
                            assert(task_views(self.tasks@) =~= tasks_after(old(self).task_map(), *event));
                        }
                    },
                }
            },
            _ => {
                proof {
                    assert(task_views(self.tasks@) =~= tasks_after(old(self).task_map(), *event));
                }
            },
        }
    }

    /// Build the timeline.
    pub fn build(self) -> (r: Timeline)
        ensures
            task_views(r.tasks@) == self.task_map(),
            entry_views(r.entries@) == self.entry_list(),
            entry_views(r.failures@) == self.failure_list(),
    {
        Timeline { tasks: self.tasks, entries: self.entries, failures: self.failures }
    }
}

impl Default for TimelineBuilder {
    fn default() -> (r: Self)
        ensures
            r.task_map() == Map::<u32, TaskView>::empty(),
            r.entry_list() == Seq::<EntryView>::empty(),
            r.failure_list() == Seq::<EntryView>::empty(),
    {
        Self::new()
    }
}

/// Completed timeline.
pub struct Timeline {
    /// Task information.
    pub tasks: HashMap<u32, TaskInfo>,
    /// All timeline entries.
    pub entries: Vec<TimelineEntry>,
    /// Failure entries only.
    pub failures: Vec<TimelineEntry>,
}

/// The latest timestamp among entries, zero for none.
pub open spec fn latest(s: Seq<TimelineEntry>) -> u64
    decreases s.len(),
{
    if s.len() == 0 {
        0
    } else {
        let rest = latest(s.drop_last());
        if s.last().timestamp > rest { s.last().timestamp } else { rest }
    }
}

impl Timeline {
    /// Get the duration of the timeline in nanoseconds: its latest timestamp.
    pub fn duration_ns(&self) -> (r: u64)
        ensures
            r == latest(self.entries@),
    {
        let mut best: u64 = 0;
        let mut i: usize = 0;
        while i < self.entries.len()
            invariant
                i <= self.entries@.len(),
                best == latest(self.entries@.take(i as int)),
            decreases self.entries@.len() - i,
        {
            proof {
                assert(self.entries@.take(i as int + 1).drop_last() =~= self.entries@.take(i as int));
            }
            if self.entries[i].timestamp > best {
                best = self.entries[i].timestamp;
            }
            i = i + 1;
        }
        proof {
            assert(self.entries@.take(self.entries@.len() as int) =~= self.entries@);
        }
        best
    }

    /// Get the number of events.
    pub fn event_count(&self) -> (r: usize)
        ensures
            r == self.entries@.len(),
    {
        self.entries.len()
    }

    /// Get the number of tasks.
    pub fn task_count(&self) -> (r: usize)
        ensures
            r == self.tasks@.dom().len(),
    {
        self.tasks.len()
    }

    /// Get the failure count.
    pub fn failure_count(&self) -> (r: usize)
        ensures
            r == self.failures@.len(),
    {
        self.failures.len()
    }

    /// Check if the timeline has failures.
    pub fn has_failures(&self) -> (r: bool)
        ensures
            r == (self.failures@.len() > 0),
    {
        self.failures.len() > 0
    }
}

} // verus!
