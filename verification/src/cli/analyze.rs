//! Analysis of a recorded run: statistics, issues, happens-before edges,
//! concurrent events, potential races and liveness problems.
use std::path::PathBuf;
use vstd::prelude::*;
use std::collections::HashMap;
use crate::error::id_list_text;
use crate::recording::format::{Event, EventPayload, EventType};
use crate::util::fmt::{dec, push_dec};
use crate::util::split::{contains_text, has_substring};
use crate::util::text::chars_of;
use crate::util::vec_map::{MapKey, VecMap};

verus! {

broadcast use vstd::std_specs::hash::group_hash_axioms;

impl MapKey for EventType {
    fn same(&self, other: &Self) -> (r: bool) {
        *self == *other
    }
}

/// Arguments for the analyze command.
#[derive(Debug)]
pub struct AnalyzeArgs {
    /// Path to the recording file.
    pub recording: PathBuf,
    /// Show timeline visualization.
    pub timeline: bool,
    /// Show happens-before graph.
    pub graph: bool,
    /// Detect data races.
    pub races: bool,
    /// Analyze liveness properties.
    pub liveness: bool,
    /// Output format (text, json).
    pub format: String,
    /// Filter by task ID.
    pub task: Option<u32>,
    /// Filter by event type.
    pub event_type: Option<String>,
    /// Verbose output.
    pub verbose: bool,
}

/// A timeline entry of the analysis.
#[derive(Debug)]
pub struct TimelineEntry {
    pub timestamp_ns: u64,
    pub task_id: u32,
    pub event_type: EventType,
    pub description: String,
}

/// Severity of an issue.
#[derive(Debug, Clone, Copy, PartialEq, Eq, Structural)]
pub enum IssueSeverity {
    Info,
    Warning,
    Error,
}

impl IssueSeverity {
    /// The label printed for the severity.
    pub fn label(&self) -> (r: &'static str)
        ensures
            r@ == (match *self {
                IssueSeverity::Info => "INFO"@,
                IssueSeverity::Warning => "WARN"@,
                IssueSeverity::Error => "ERROR"@,
            }),
    {
        match self {
            IssueSeverity::Info => "INFO",
            IssueSeverity::Warning => "WARN",
            IssueSeverity::Error => "ERROR",
        }
    }
}

/// An issue found during analysis.
#[derive(Debug)]
pub struct AnalysisIssue {
    pub severity: IssueSeverity,
    pub description: String,
    pub event_id: Option<usize>,
    pub timestamp_ns: Option<u64>,
}

/// A potential data race found during analysis.
#[derive(Debug)]
pub struct PotentialRace {
    pub event1_idx: usize,
    pub event2_idx: usize,
    pub task1: u32,
    pub task2: u32,
    pub description: String,
}

/// Kinds of liveness issues.
#[derive(Debug, Clone, Copy, PartialEq, Eq, Structural)]
pub enum LivenessIssueType {
    IncompleteTasks,
    UndeliveredMessages,
    PotentialDeadlock,
    PotentialLivelock,
}

/// A liveness issue found during analysis.
#[derive(Debug)]
pub struct LivenessIssue {
    pub issue_type: LivenessIssueType,
    pub task_id: Option<u32>,
    pub description: String,
}

/// Analysis result.
pub struct AnalysisResult {
    /// Recording metadata.
    pub seed: u64,
    pub strategy: u8,
    /// Number of events read, filtered or not.
    pub total_events: usize,
    /// Events kept, by type and by task.
    pub events_by_type: VecMap<EventType, usize>,
    pub events_by_task: VecMap<u32, usize>,
    /// Timeline of the kept events.
    pub timeline: Vec<TimelineEntry>,
    /// Happens-before edges between timeline positions (earlier, later).
    pub hb_edges: Vec<(usize, usize)>,
    /// Pairs of timeline positions found concurrent.
    pub concurrent_pairs: Vec<(usize, usize)>,
    /// Potential issues found.
    pub issues: Vec<AnalysisIssue>,
    /// Latest simulated time reached.
    pub max_time_ns: u64,
    /// Potential data races.
    pub races: Vec<PotentialRace>,
    /// Liveness issues.
    pub liveness_issues: Vec<LivenessIssue>,
}

/// The name of an event type, as `{:?}` prints it.
pub open spec fn kind_label(t: EventType) -> Seq<char> {
    match t {
        EventType::TaskSpawn => "TaskSpawn"@,
        EventType::TaskYield => "TaskYield"@,
        EventType::TaskComplete => "TaskComplete"@,
        EventType::TimeQuery => "TimeQuery"@,
        EventType::RandomGen => "RandomGen"@,
        EventType::NetSend => "NetSend"@,
        EventType::NetRecv => "NetRecv"@,
        EventType::ScheduleDecision => "ScheduleDecision"@,
        EventType::FaultInjected => "FaultInjected"@,
    }
}

/// The name of an event type in lower case.
pub open spec fn lower_type_name(t: EventType) -> Seq<char> {
    match t {
        EventType::TaskSpawn => "taskspawn"@,
        EventType::TaskYield => "taskyield"@,
        EventType::TaskComplete => "taskcomplete"@,
        EventType::TimeQuery => "timequery"@,
        EventType::RandomGen => "randomgen"@,
        EventType::NetSend => "netsend"@,
        EventType::NetRecv => "netrecv"@,
        EventType::ScheduleDecision => "scheduledecision"@,
        EventType::FaultInjected => "faultinjected"@,
    }
}

/// The name of an event type, as `{:?}` prints it.
pub fn event_type_name(t: EventType) -> (r: &'static str)
    ensures
        r@ == kind_label(t),
{
    match t {
        EventType::TaskSpawn => "TaskSpawn",
        EventType::TaskYield => "TaskYield",
        EventType::TaskComplete => "TaskComplete",
        EventType::TimeQuery => "TimeQuery",
        EventType::RandomGen => "RandomGen",
        EventType::NetSend => "NetSend",
        EventType::NetRecv => "NetRecv",
        EventType::ScheduleDecision => "ScheduleDecision",
        EventType::FaultInjected => "FaultInjected",
    }
}

/// The name of an event type in lower case.
fn lower_name(t: EventType) -> (r: &'static str)
    ensures
        r@ == lower_type_name(t),
{
    match t {
        EventType::TaskSpawn => "taskspawn",
        EventType::TaskYield => "taskyield",
        EventType::TaskComplete => "taskcomplete",
        EventType::TimeQuery => "timequery",
        EventType::RandomGen => "randomgen",
        EventType::NetSend => "netsend",
        EventType::NetRecv => "netrecv",
        EventType::ScheduleDecision => "scheduledecision",
        EventType::FaultInjected => "faultinjected",
    }
}

/// What `str::to_lowercase` returns for a text.
pub uninterp spec fn lowercase_text(s: Seq<char>) -> Seq<char>;

/// Calls `str::to_lowercase` (Unicode lower case); the result is named
/// `lowercase_text`.
#[verifier::external_body]
fn lowercase(s: &str) -> (r: String)
    ensures
        r@ == lowercase_text(s@),
{
    s.to_lowercase()
}

/// Whether an event passes the filters: the task, if one is given, and the
/// type, whose lower-case name must contain `lowered`, the lower-cased type
/// filter, if one is given.
pub open spec fn passes(e: Event, task: Option<u32>, lowered: Option<Seq<char>>) -> bool {
    &&& (task matches Some(t) ==> e.task_id == t)
    &&& (lowered matches Some(f) ==> has_substring(lower_type_name(e.event_type), f))
}

/// The lower-cased type filter of the arguments.
pub open spec fn lowered_filter(args: AnalyzeArgs) -> Option<Seq<char>> {
    match args.event_type {
        Some(f) => Some(lowercase_text(f@)),
        None => None,
    }
}

/// The text describing an event in the analysis timeline.
pub open spec fn describe_text(e: Event) -> Seq<char> {
    match e.payload {
        EventPayload::TaskSpawn { parent, name } => "spawn("@ + name@ + ") by task "@ + dec(parent as nat),
        EventPayload::TaskYield => "yield"@,
        EventPayload::TaskComplete => "complete"@,
        EventPayload::TimeQuery { result } => "time_query() = "@ + dec(result as nat) + "ns"@,
        EventPayload::RandomGen { result } => "random() = "@ + dec(result as nat),
        EventPayload::NetSend { dst, data } => "send("@ + dec(data@.len()) + " bytes) -> node "@ + dec(dst as nat),
        EventPayload::NetRecv { src, data } => "recv("@ + dec(data@.len()) + " bytes) <- node "@ + dec(src as nat),
        EventPayload::ScheduleDecision { chosen, ready } => "schedule: chose "@ + dec(chosen as nat) + " from "@
            + id_list_text(ready@),
        EventPayload::FaultInjected { fault_type, target } => "fault(type="@ + dec(fault_type as nat) + ") @ target "@
            + dec(target as nat),
    }
}

/// Describes an event for the analysis timeline.
pub fn describe_event(e: &Event) -> (r: String)
    ensures
        r@ == describe_text(*e),
{
    let mut s = String::new();
    match &e.payload {
        EventPayload::TaskSpawn { parent, name } => {
            s.append("spawn(");
            s.append(name.as_str());
            s.append(") by task ");
            push_dec(&mut s, *parent as u64);
        },
        EventPayload::TaskYield => {
            s.append("yield");
        },
        EventPayload::TaskComplete => {
            s.append("complete");
        },
        EventPayload::TimeQuery { result } => {
            s.append("time_query() = ");
            push_dec(&mut s, *result);
            s.append("ns");
        },
        EventPayload::RandomGen { result } => {
            s.append("random() = ");
            push_dec(&mut s, *result);
        },
        EventPayload::NetSend { dst, data } => {
            s.append("send(");
            push_dec(&mut s, data.len() as u64);
            s.append(" bytes) -> node ");
            push_dec(&mut s, *dst as u64);
        },
        EventPayload::NetRecv { src, data } => {
            s.append("recv(");
            push_dec(&mut s, data.len() as u64);
            s.append(" bytes) <- node ");
            push_dec(&mut s, *src as u64);
        },
        EventPayload::ScheduleDecision { chosen, ready } => {
            s.append("schedule: chose ");
            push_dec(&mut s, *chosen as u64);
            s.append(" from ");
            s.append("[");
            crate::error::push_joined_ids(&mut s, ready.as_slice(), ", ");
            s.append("]");
        },
        EventPayload::FaultInjected { fault_type, target } => {
            s.append("fault(type=");
            push_dec(&mut s, *fault_type as u64);
            s.append(") @ target ");
            push_dec(&mut s, *target as u64);
        },
    }
    proof {
        assert(s@ =~= describe_text(*e));
    }
    s
}

/// Whether an event passes the filters of the arguments.
fn event_passes(e: &Event, task: Option<u32>, lowered: &Option<Vec<char>>) -> (r: bool)
    ensures
        r == passes(*e, task, match lowered { Some(f) => Some(f@), None => None }),
{
    match task {
        Some(t) => {
            if e.task_id != t {
                return false;
            }
        },
        None => {},
    }
    match lowered {
        Some(f) => {
            let name = chars_of(lower_name(e.event_type));
            contains_text(name.as_slice(), f.as_slice())
        },
        None => true,
    }
}

/// What an issue holds, as plain values.
pub struct IssueView {
    pub severity: IssueSeverity,
    pub description: Seq<char>,
    pub event_id: Option<usize>,
    pub timestamp_ns: Option<u64>,
}

impl View for AnalysisIssue {
    type V = IssueView;

    open spec fn view(&self) -> IssueView {
        IssueView {
            severity: self.severity,
            description: self.description@,
            event_id: self.event_id,
            timestamp_ns: self.timestamp_ns,
        }
    }
}

/// The views of a list of issues.
pub open spec fn issue_views(s: Seq<AnalysisIssue>) -> Seq<IssueView> {
    s.map_values(|i: AnalysisIssue| i@)
}

/// The events that pass the filters, each with its position (from 1) among
/// all events.
pub open spec fn kept_events(events: Seq<Event>, task: Option<u32>, lowered: Option<Seq<char>>) -> Seq<(usize, Event)>
    decreases events.len(),
{
    if events.len() == 0 {
        Seq::empty()
    } else {
        let before = kept_events(events.drop_last(), task, lowered);
        if passes(events.last(), task, lowered) {
            before.push((events.len() as usize, events.last()))
        } else {
            before
        }
    }
}

/// What the scan of the kept events has gathered.
pub struct ScanView {
    pub by_type: Map<EventType, usize>,
    pub by_task: Map<u32, usize>,
    pub max_time: u64,
    pub issues: Seq<IssueView>,
    pub active: Map<u32, bool>,
    pub active_order: Seq<u32>,
    pub pending: Map<u32, Seq<(u64, u32)>>,
    pub pending_order: Seq<u32>,
}

/// A count in a map of counts (zero when absent).
pub open spec fn count_in<K>(m: Map<K, usize>, k: K) -> usize {
    if m.contains_key(k) { m[k] } else { 0 }
}

/// The keys in the order first inserted, after inserting `k`.
pub open spec fn order_after<K>(order: Seq<K>, m: Map<K, bool>, k: K) -> Seq<K> {
    if m.contains_key(k) { order } else { order.push(k) }
}

/// The sends waiting for node `dst` (none when absent).
pub open spec fn sends_to(m: Map<u32, Seq<(u64, u32)>>, dst: u32) -> Seq<(u64, u32)> {
    if m.contains_key(dst) { m[dst] } else { Seq::empty() }
}

/// The scan after the event at position `pos`: counts, the latest time,
/// spawns and completions, sends waiting at their destination, and a
/// receive consuming the oldest send waiting for the receiving task (a
/// warning if it has had sends and none is left).
pub open spec fn scan_step(s: ScanView, pos: usize, e: Event) -> ScanView {
    let counted = ScanView {
        by_type: s.by_type.insert(e.event_type, (count_in(s.by_type, e.event_type) + 1) as usize),
        by_task: s.by_task.insert(e.task_id, (count_in(s.by_task, e.task_id) + 1) as usize),
        max_time: if e.timestamp > s.max_time { e.timestamp } else { s.max_time },
        ..s
    };
    match e.payload {
        EventPayload::TaskSpawn { .. } => ScanView {
            active: counted.active.insert(e.task_id, true),
            active_order: if counted.active.contains_key(e.task_id) { counted.active_order } else { counted.active_order.push(e.task_id) },
            ..counted
        },
        EventPayload::TaskComplete => ScanView {
            active: counted.active.insert(e.task_id, false),
            active_order: if counted.active.contains_key(e.task_id) { counted.active_order } else { counted.active_order.push(e.task_id) },
            ..counted
        },
        EventPayload::NetSend { dst, .. } => ScanView {
            pending: counted.pending.insert(dst, sends_to(counted.pending, dst).push((e.timestamp, e.task_id))),
            pending_order: if counted.pending.contains_key(dst) { counted.pending_order } else { counted.pending_order.push(dst) },
            ..counted
        },
        EventPayload::NetRecv { src, .. } => if !counted.pending.contains_key(e.task_id) {
            counted
        } else if counted.pending[e.task_id].len() == 0 {
            ScanView {
                issues: counted.issues.push(IssueView {
                    severity: IssueSeverity::Warning,
                    description: "Receive from "@ + dec(src as nat) + " without matching send"@,
                    event_id: Some(pos),
                    timestamp_ns: Some(e.timestamp),
                }),
                ..counted
            }
        } else {
            ScanView {
                pending: counted.pending.insert(e.task_id, counted.pending[e.task_id].drop_first()),
                ..counted
            }
        },
        EventPayload::FaultInjected { fault_type, target } => ScanView {
            issues: counted.issues.push(IssueView {
                severity: IssueSeverity::Info,
                description: "Fault type "@ + dec(fault_type as nat) + " injected at target "@ + dec(target as nat),
                event_id: Some(pos),
                timestamp_ns: Some(e.timestamp),
            }),
            ..counted
        },
        _ => counted,
    }
}

/// The scan of a list of kept events.
pub open spec fn scan(kept: Seq<(usize, Event)>) -> ScanView
    decreases kept.len(),
{
    if kept.len() == 0 {
        ScanView {
            by_type: Map::empty(),
            by_task: Map::empty(),
            max_time: 0,
            issues: Seq::empty(),
            active: Map::empty(),
            active_order: Seq::empty(),
            pending: Map::empty(),
            pending_order: Seq::empty(),
        }
    } else {
        scan_step(scan(kept.drop_last()), kept.last().0, kept.last().1)
    }
}

/// The warnings for tasks never seen completing, in the order first seen.
pub open spec fn incomplete_issues(order: Seq<u32>, active: Map<u32, bool>) -> Seq<IssueView>
    decreases order.len(),
{
    if order.len() == 0 {
        Seq::empty()
    } else {
        let before = incomplete_issues(order.drop_last(), active);
        let t = order.last();
        if active.contains_key(t) && active[t] {
            before.push(IssueView {
                severity: IssueSeverity::Warning,
                description: "Task "@ + dec(t as nat) + " never completed"@,
                event_id: None,
                timestamp_ns: None,
            })
        } else {
            before
        }
    }
}

/// The warnings for nodes with sends never received, in the order first sent to.
pub open spec fn undelivered_issues(order: Seq<u32>, pending: Map<u32, Seq<(u64, u32)>>) -> Seq<IssueView>
    decreases order.len(),
{
    if order.len() == 0 {
        Seq::empty()
    } else {
        let before = undelivered_issues(order.drop_last(), pending);
        let d = order.last();
        if sends_to(pending, d).len() > 0 {
            before.push(IssueView {
                severity: IssueSeverity::Warning,
                description: dec(sends_to(pending, d).len()) + " messages to node "@ + dec(d as nat)
                    + " were never received"@,
                event_id: None,
                timestamp_ns: None,
            })
        } else {
            before
        }
    }
}

/// Counts in a scan never exceed the number of events scanned.
proof fn lemma_scan_counts(kept: Seq<(usize, Event)>)
    ensures
        forall|t: EventType| #[trigger] count_in(scan(kept).by_type, t) <= kept.len(),
        forall|t: u32| #[trigger] count_in(scan(kept).by_task, t) <= kept.len(),
    decreases kept.len(),
{
    if kept.len() > 0 {
        lemma_scan_counts(kept.drop_last());
        let prev = scan(kept.drop_last());
        let e = kept.last().1;
        let next = scan(kept);
        assert(next.by_type == prev.by_type.insert(e.event_type, (count_in(prev.by_type, e.event_type) + 1) as usize));
        assert(next.by_task == prev.by_task.insert(e.task_id, (count_in(prev.by_task, e.task_id) + 1) as usize));
        assert forall|t: EventType| #[trigger] count_in(next.by_type, t) <= kept.len() by {
            assert(count_in(prev.by_type, t) <= kept.len() - 1);
        }
        assert forall|t: u32| #[trigger] count_in(next.by_task, t) <= kept.len() by {
            assert(count_in(prev.by_task, t) <= kept.len() - 1);
        }
    }
}

/// The working state of a scan.
struct Scanner {
    by_type: VecMap<EventType, usize>,
    by_task: VecMap<u32, usize>,
    max_time: u64,
    issues: Vec<AnalysisIssue>,
    active: VecMap<u32, bool>,
    pending: VecMap<u32, Vec<(u64, u32)>>,
}

/// The values of a map of lists.
pub open spec fn list_views(m: Map<u32, Vec<(u64, u32)>>) -> Map<u32, Seq<(u64, u32)>> {
    m.map_values(|v: Vec<(u64, u32)>| v@)
}

impl Scanner {
    closed spec fn view(&self) -> ScanView {
        ScanView {
            by_type: self.by_type@,
            by_task: self.by_task@,
            max_time: self.max_time,
            issues: issue_views(self.issues@),
            active: self.active@,
            active_order: self.active.keys(),
            pending: list_views(self.pending@),
            pending_order: self.pending.keys(),
        }
    }

    fn new() -> (r: Self)
        ensures
            r.view() == scan(Seq::empty()),
    {
        let r = Scanner {
            by_type: VecMap::new(),
            by_task: VecMap::new(),
            max_time: 0,
            issues: Vec::new(),
            active: VecMap::new(),
            pending: VecMap::new(),
        };
        proof {
            assert(issue_views(r.issues@) =~= Seq::<IssueView>::empty());
            assert(list_views(r.pending@) =~= Map::<u32, Seq<(u64, u32)>>::empty());
        }
        r
    }

    fn step(&mut self, pos: usize, e: &Event)
        requires
            count_in(old(self).view().by_type, e.event_type) < usize::MAX,
            count_in(old(self).view().by_task, e.task_id) < usize::MAX,
        ensures
            final(self).view() == scan_step(old(self).view(), pos, *e),
    {
        let ghost before = self.view();
        let nt: usize = match self.by_type.get(&e.event_type) {
            Some(c) => *c,
            None => 0,
        };
        self.by_type.insert(e.event_type, nt + 1);
        let nk: usize = match self.by_task.get(&e.task_id) {
            Some(c) => *c,
            None => 0,
        };
        self.by_task.insert(e.task_id, nk + 1);
        if e.timestamp > self.max_time {
            self.max_time = e.timestamp;
        }
        let ghost counted = ScanView {
            by_type: before.by_type.insert(e.event_type, (count_in(before.by_type, e.event_type) + 1) as usize),
            by_task: before.by_task.insert(e.task_id, (count_in(before.by_task, e.task_id) + 1) as usize),
            max_time: if e.timestamp > before.max_time { e.timestamp } else { before.max_time },
            ..before
        };
        assert(self.view() == counted);
        match &e.payload {
            EventPayload::TaskSpawn { .. } => {
                self.active.insert(e.task_id, true);
            },
            EventPayload::TaskComplete => {
                self.active.insert(e.task_id, false);
            },
            EventPayload::NetSend { dst, .. } => {
                let mut list = match self.pending.get(dst) {
                    Some(v) => copy_pairs(v),
                    None => Vec::new(),
                };
                list.push((e.timestamp, e.task_id));
                self.pending.insert(*dst, list);
                proof {
                    assert(list_views(self.pending@) =~= counted.pending.insert(
                        *dst,
                        sends_to(counted.pending, *dst).push((e.timestamp, e.task_id)),
                    ));
                }
            },
            EventPayload::NetRecv { src, .. } => {
                match self.pending.get(&e.task_id) {
                    Some(v) => {
                        if v.len() == 0 {
                            let mut d = String::from_str("Receive from ");
                            push_dec(&mut d, *src as u64);
                            d.append(" without matching send");
                            let ghost issues0 = self.issues@;
                            self.issues.push(AnalysisIssue {
                                severity: IssueSeverity::Warning,
                                description: d,
                                event_id: Some(pos),
                                timestamp_ns: Some(e.timestamp),
                            });
                            proof {
                                assert(issue_views(self.issues@) =~= issue_views(issues0).push(
                                    self.issues@.last()@,
                                ));
                            }
                        } else {
                            let rest = copy_pairs_from(v, 1);
                            self.pending.insert(e.task_id, rest);
                            proof {
                                assert(list_views(self.pending@) =~= counted.pending.insert(
                                    e.task_id,
                                    counted.pending[e.task_id].drop_first(),
                                ));
                            }
                        }
                    },
                    None => {},
                }
            },
            EventPayload::FaultInjected { fault_type, target } => {
                let mut d = String::from_str("Fault type ");
                push_dec(&mut d, *fault_type as u64);
                d.append(" injected at target ");
                push_dec(&mut d, *target as u64);
                let ghost issues0 = self.issues@;
                self.issues.push(AnalysisIssue {
                    severity: IssueSeverity::Info,
                    description: d,
                    event_id: Some(pos),
                    timestamp_ns: Some(e.timestamp),
                });
                proof {
                    assert(issue_views(self.issues@) =~= issue_views(issues0).push(self.issues@.last()@));
                }
            },
            _ => {},
        }
        proof {
            assert(self.view() =~= scan_step(before, pos, *e));
        }
    }
}

/// A copy of a list of pairs.
fn copy_pairs(v: &Vec<(u64, u32)>) -> (r: Vec<(u64, u32)>)
    ensures
        r@ == v@,
{
    copy_pairs_from(v, 0)
}

/// A copy of a list of pairs from position `start` on.
fn copy_pairs_from(v: &Vec<(u64, u32)>, start: usize) -> (r: Vec<(u64, u32)>)
    requires
        start <= v@.len(),
    ensures
        r@ == v@.skip(start as int),
{
    let mut out: Vec<(u64, u32)> = Vec::new();
    let mut i: usize = start;
    while i < v.len()
        invariant
            start <= i <= v@.len(),
            out@ == v@.subrange(start as int, i as int),
        decreases v@.len() - i,
    {
        out.push(v[i]);
        proof {
            assert(out@ =~= v@.subrange(start as int, i as int + 1));
        }
        i = i + 1;
    }
    proof {
        assert(v@.subrange(start as int, v@.len() as int) =~= v@.skip(start as int));
    }
    out
}

/// A direction of traffic between two tasks.
#[derive(Debug, Clone, Copy, PartialEq, Eq, Structural)]
pub struct LinkKey {
    pub from: u32,
    pub to: u32,
}

impl MapKey for LinkKey {
    fn same(&self, other: &Self) -> (r: bool) {
        self.from == other.from && self.to == other.to
    }
}

/// What the happens-before pass has gathered.
pub struct HbView {
    pub last: Map<u32, usize>,
    pub sends: Map<LinkKey, Seq<usize>>,
    pub edges: Seq<(usize, usize)>,
}

/// The sends waiting on a link (none when absent).
pub open spec fn sends_on(m: Map<LinkKey, Seq<usize>>, k: LinkKey) -> Seq<usize> {
    if m.contains_key(k) { m[k] } else { Seq::empty() }
}

/// The pass after the timeline entry at position `idx` for event `e`: an
/// edge from the task's previous entry, and from the oldest unmatched send
/// to a receive.
pub open spec fn hb_step(h: HbView, idx: usize, e: Event) -> HbView {
    let edges1 = if h.last.contains_key(e.task_id) { h.edges.push((h.last[e.task_id], idx)) } else { h.edges };
    let last1 = h.last.insert(e.task_id, idx);
    match e.payload {
        EventPayload::NetSend { dst, .. } => {
            let k = LinkKey { from: e.task_id, to: dst };
            HbView { last: last1, sends: h.sends.insert(k, sends_on(h.sends, k).push(idx)), edges: edges1 }
        },
        EventPayload::NetRecv { src, .. } => {
            let k = LinkKey { from: src, to: e.task_id };
            if sends_on(h.sends, k).len() > 0 {
                HbView {
                    last: last1,
                    sends: h.sends.insert(k, sends_on(h.sends, k).drop_first()),
                    edges: edges1.push((sends_on(h.sends, k)[0], idx)),
                }
            } else {
                HbView { last: last1, sends: h.sends, edges: edges1 }
            }
        },
        _ => HbView { last: last1, sends: h.sends, edges: edges1 },
    }
}

/// The happens-before pass over the timeline's events.
pub open spec fn hb(es: Seq<Event>) -> HbView
    decreases es.len(),
{
    if es.len() == 0 {
        HbView { last: Map::empty(), sends: Map::empty(), edges: Seq::empty() }
    } else {
        hb_step(hb(es.drop_last()), (es.len() - 1) as usize, es.last())
    }
}

/// Every edge goes forward, between positions below `n`.
pub open spec fn forward_below(edges: Seq<(usize, usize)>, n: nat) -> bool {
    forall|i: int| 0 <= i < edges.len() ==> (#[trigger] edges[i]).0 < edges[i].1 && edges[i].1 < n
}

/// The pass only ever records positions already passed.
proof fn lemma_hb_forward(es: Seq<Event>)
    requires
        es.len() <= usize::MAX,
    ensures
        forward_below(hb(es).edges, es.len()),
        forall|t: u32| #[trigger] hb(es).last.contains_key(t) ==> hb(es).last[t] < es.len(),
        forall|k: LinkKey, i: int| 0 <= i < sends_on(hb(es).sends, k).len() ==> #[trigger] sends_on(hb(es).sends, k)[i] < es.len(),
    decreases es.len(),
{
    if es.len() > 0 {
        lemma_hb_forward(es.drop_last());
        let h = hb(es.drop_last());
        let e = es.last();
        let idx = (es.len() - 1) as usize;
        let n = hb(es);
        assert forall|k: LinkKey, i: int| 0 <= i < sends_on(n.sends, k).len() implies #[trigger] sends_on(n.sends, k)[i] < es.len() by {
            match e.payload {
                EventPayload::NetSend { dst, .. } => {
                    let k2 = LinkKey { from: e.task_id, to: dst };
                    if k == k2 && i < sends_on(h.sends, k).len() {
                        assert(sends_on(n.sends, k)[i] == sends_on(h.sends, k)[i]);
                    }
                },
                EventPayload::NetRecv { src, .. } => {
                    let k2 = LinkKey { from: src, to: e.task_id };
                    if k == k2 && sends_on(h.sends, k).len() > 0 {
                        assert(sends_on(n.sends, k)[i] == sends_on(h.sends, k)[i + 1]);
                    }
                },
                _ => {},
            }
        }
        let edges1 = if h.last.contains_key(e.task_id) { h.edges.push((h.last[e.task_id], idx)) } else { h.edges };
        assert(forward_below(edges1, es.len())) by {
            assert forall|i: int| 0 <= i < edges1.len() implies (#[trigger] edges1[i]).0 < edges1[i].1 && edges1[i].1 < es.len() by {
                if i < h.edges.len() {
                    assert(edges1[i] == h.edges[i]);
                }
            }
        }
        match e.payload {
            EventPayload::NetRecv { src, .. } => {
                let k = LinkKey { from: src, to: e.task_id };
                if sends_on(h.sends, k).len() > 0 {
                    let x = sends_on(h.sends, k)[0];
                    assert(x < es.len() - 1);
                    let e2 = edges1.push((x, idx));
                    assert forall|i: int| 0 <= i < e2.len() implies (#[trigger] e2[i]).0 < e2[i].1 && e2[i].1 < es.len() by {
                        if i < edges1.len() {
                            assert(e2[i] == edges1[i]);
                        }
                    }
                    assert(n.edges == e2);
                } else {
                    assert(n.edges == edges1);
                }
            },
            _ => {
                assert(n.edges == edges1);
            },
        }
        assert(forward_below(n.edges, es.len()));
    }
}

/// The working state of the happens-before pass.
struct HbBuilder {
    last: HashMap<u32, usize>,
    sends: VecMap<LinkKey, Vec<usize>>,
    edges: Vec<(usize, usize)>,
}

/// The values of a map of position lists.
pub open spec fn position_views(m: Map<LinkKey, Vec<usize>>) -> Map<LinkKey, Seq<usize>> {
    m.map_values(|v: Vec<usize>| v@)
}

impl HbBuilder {
    closed spec fn view(&self) -> HbView {
        HbView { last: self.last@, sends: position_views(self.sends@), edges: self.edges@ }
    }

    fn new() -> (r: Self)
        ensures
            r.view() == hb(Seq::empty()),
    {
        let r = HbBuilder { last: HashMap::new(), sends: VecMap::new(), edges: Vec::new() };
        proof {
            assert(position_views(r.sends@) =~= Map::<LinkKey, Seq<usize>>::empty());
        }
        r
    }

    fn step(&mut self, idx: usize, e: &Event)
        ensures
            final(self).view() == hb_step(old(self).view(), idx, *e),
    {
        let ghost h = self.view();
        match self.last.get(&e.task_id) {
            Some(prev) => {
                let p = *prev;
                self.edges.push((p, idx));
            },
            None => {},
        }
        self.last.insert(e.task_id, idx);
        match &e.payload {
            EventPayload::NetSend { dst, .. } => {
                let k = LinkKey { from: e.task_id, to: *dst };
                let mut list = match self.sends.get(&k) {
                    Some(v) => {
                        let c = copy_positions(v, 0);
                        proof {
                            assert(v@.skip(0) =~= v@);
                        }
                        c
                    },
                    None => Vec::new(),
                };
                assert(list@ == sends_on(h.sends, k));
                list.push(idx);
                self.sends.insert(k, list);
                proof {
                    assert(position_views(self.sends@) =~= h.sends.insert(k, sends_on(h.sends, k).push(idx)));
                }
            },
            EventPayload::NetRecv { src, .. } => {
                let k = LinkKey { from: *src, to: e.task_id };
                match self.sends.get(&k) {
                    Some(v) => {
                        if v.len() > 0 {
                            let first = v[0];
                            let rest = copy_positions(v, 1);
                            self.edges.push((first, idx));
                            self.sends.insert(k, rest);
                            proof {
                                assert(position_views(self.sends@) =~= h.sends.insert(k, sends_on(h.sends, k).drop_first()));
                            }
                        }
                    },
                    None => {},
                }
            },
            _ => {},
        }
        proof {
            assert(self.view() =~= hb_step(h, idx, *e));
        }
    }
}

/// A copy of a list of positions from `start` on.
fn copy_positions(v: &Vec<usize>, start: usize) -> (r: Vec<usize>)
    requires
        start <= v@.len(),
    ensures
        r@ == v@.skip(start as int),
{
    let mut out: Vec<usize> = Vec::new();
    let mut i: usize = start;
    while i < v.len()
        invariant
            start <= i <= v@.len(),
            out@ == v@.subrange(start as int, i as int),
        decreases v@.len() - i,
    {
        out.push(v[i]);
        proof {
            assert(out@ =~= v@.subrange(start as int, i as int + 1));
        }
        i = i + 1;
    }
    proof {
        assert(v@.subrange(start as int, v@.len() as int) =~= v@.skip(start as int));
    }
    out
}

/// `p` follows happens-before edges: at least one edge, each step an edge.
pub open spec fn hb_path(edges: Seq<(usize, usize)>, p: Seq<usize>) -> bool {
    &&& p.len() >= 2
    &&& forall|i: int| 0 <= i < p.len() - 1 ==> #[trigger] edges.contains((p[i], p[i + 1]))
}

/// Entry `a` happened before entry `b`: a path of edges leads from `a` to `b`.
pub open spec fn hb_before(edges: Seq<(usize, usize)>, a: usize, b: usize) -> bool {
    exists|p: Seq<usize>| #[trigger] hb_path(edges, p) && p[0] == a && p[p.len() - 1] == b
}

/// `v` is `a` itself or reached from `a`.
pub open spec fn reach0(edges: Seq<(usize, usize)>, a: usize, v: usize) -> bool {
    v == a || hb_before(edges, a, v)
}

/// Along forward edges a path only climbs.
proof fn lemma_path_climbs(edges: Seq<(usize, usize)>, n: nat, p: Seq<usize>, i: int)
    requires
        forward_below(edges, n),
        hb_path(edges, p),
        0 <= i < p.len(),
    ensures
        p[0] <= p[i],
        i < p.len() - 1 ==> p[i] < p[i + 1],
    decreases i,
{
    if i < p.len() - 1 {
        let m = choose|m: int| 0 <= m < edges.len() && edges[m] == (p[i], p[i + 1]);
        assert(edges.contains((p[i], p[i + 1])));
        assert((edges[m]).0 < edges[m].1);
    }
    if i > 0 {
        lemma_path_climbs(edges, n, p, i - 1);
        assert(edges.contains((p[i - 1], p[i])));
        let m = choose|m: int| 0 <= m < edges.len() && edges[m] == (p[i - 1], p[i]);
        assert((edges[m]).0 < edges[m].1);
    }
}

/// An edge into `j` from a position reached from `a` reaches `j`.
proof fn lemma_extend(edges: Seq<(usize, usize)>, a: usize, x: usize, j: usize)
    requires
        reach0(edges, a, x),
        edges.contains((x, j)),
    ensures
        hb_before(edges, a, j),
{
    if x == a {
        let p = seq![a, j];
        assert(hb_path(edges, p)) by {
            assert forall|i: int| 0 <= i < p.len() - 1 implies #[trigger] edges.contains((p[i], p[i + 1])) by {
                assert(i == 0);
            }
        }
    } else {
        let p = choose|p: Seq<usize>| #[trigger] hb_path(edges, p) && p[0] == a && p[p.len() - 1] == x;
        let q = p.push(j);
        assert(hb_path(edges, q)) by {
            assert forall|i: int| 0 <= i < q.len() - 1 implies #[trigger] edges.contains((q[i], q[i + 1])) by {
                if i < p.len() - 1 {
                    assert(q[i] == p[i] && q[i + 1] == p[i + 1]);
                } else {
                    assert(q[i] == x && q[i + 1] == j);
                }
            }
        }
    }
}

/// A position reached from `a` is reached over an edge from a position at
/// or after `a` and before it, itself `a` or reached from `a`.
proof fn lemma_last_edge(edges: Seq<(usize, usize)>, n: nat, a: usize, j: usize) -> (x: usize)
    requires
        forward_below(edges, n),
        hb_before(edges, a, j),
    ensures
        edges.contains((x, j)),
        a <= x < j,
        reach0(edges, a, x),
{
    let p = choose|p: Seq<usize>| #[trigger] hb_path(edges, p) && p[0] == a && p[p.len() - 1] == j;
    let k = p.len() - 2;
    let x = p[k];
    lemma_path_climbs(edges, n, p, k);
    assert(edges.contains((p[k], p[k + 1])));
    if k > 0 {
        let q = p.take(k + 1);
        assert(hb_path(edges, q)) by {
            assert forall|i: int| 0 <= i < q.len() - 1 implies #[trigger] edges.contains((q[i], q[i + 1])) by {
                assert(q[i] == p[i] && q[i + 1] == p[i + 1]);
                assert(edges.contains((p[i], p[i + 1])));
            }
        }
        assert(q[0] == a && q[q.len() - 1] == x);
    }
    x
}

/// The edge at `m` leads into `j` from a position in `[a, j)` marked in `r`.
pub open spec fn feeds(e: (usize, usize), a: usize, j: usize, r: Seq<bool>) -> bool {
    e.1 == j && a <= e.0 < j && r[e.0 - a]
}

/// Whether some edge leads into `j` from a position in `[a, j)` marked in `r`.
fn fed(edges: &Vec<(usize, usize)>, a: usize, j: usize, r: &Vec<bool>) -> (found: bool)
    requires
        a < j,
        r@.len() == j - a,
    ensures
        found == exists|m: int| 0 <= m < edges@.len() && feeds(#[trigger] edges@[m], a, j, r@),
{
    let mut k: usize = 0;
    while k < edges.len()
        invariant
            a < j,
            r@.len() == j - a,
            k <= edges@.len(),
            forall|m: int| 0 <= m < k ==> !feeds(#[trigger] edges@[m], a, j, r@),
        decreases edges@.len() - k,
    {
        let (x, y) = edges[k];
        if y == j && a <= x && x < j && r[x - a] {
            assert(feeds(edges@[k as int], a, j, r@));
            return true;
        }
        k = k + 1;
    }
    false
}

/// Whether entry `b` happened after entry `a`, along forward edges below `n`.
fn hb_reaches(edges: &Vec<(usize, usize)>, n: usize, a: usize, b: usize) -> (r: bool)
    requires
        forward_below(edges@, n as nat),
        a < n,
        b < n,
    ensures
        r == hb_before(edges@, a, b),
{
    if b <= a {
        proof {
            if hb_before(edges@, a, b) {
                let x = lemma_last_edge(edges@, n as nat, a, b);
            }
        }
        return false;
    }
    let mut reach: Vec<bool> = Vec::new();
    reach.push(true);
    let mut j: usize = a + 1;
    while j <= b
        invariant
            forward_below(edges@, n as nat),
            a < j <= b + 1,
            b < n,
            reach@.len() == j - a,
            forall|k: int| 0 <= k < reach@.len() ==> #[trigger] reach@[k] == reach0(edges@, a, (a + k) as usize),
        decreases b + 1 - j,
    {
        let found = fed(edges, a, j, &reach);
        proof {
            if found {
                let m = choose|m: int| 0 <= m < edges@.len() && feeds(#[trigger] edges@[m], a, j, reach@);
                let x = edges@[m].0;
                assert(reach@[x - a] == reach0(edges@, a, x));
                assert(edges@.contains((x, j)));
                lemma_extend(edges@, a, x, j);
            }
            if hb_before(edges@, a, j) {
                let x = lemma_last_edge(edges@, n as nat, a, j);
                assert(reach@[x - a] == reach0(edges@, a, (a + (x - a)) as usize));
                let m = choose|m: int| 0 <= m < edges@.len() && edges@[m] == (x, j);
                assert(feeds(edges@[m], a, j, reach@));
            }
        }
        let ghost before = reach@;
        reach.push(found);
        proof {
            assert forall|k: int| 0 <= k < reach@.len() implies #[trigger] reach@[k] == reach0(edges@, a, (a + k) as usize) by {
                if k < before.len() {
                    assert(reach@[k] == before[k]);
                }
            }
        }
        j = j + 1;
    }
    let r = reach[b - a];
    r
}

/// Timeline positions grouped by task, with tasks in the order first seen.
pub struct Groups {
    pub map: Map<u32, Seq<usize>>,
    pub order: Seq<u32>,
}

/// The positions of a task (none when absent).
pub open spec fn positions_of(g: Groups, t: u32) -> Seq<usize> {
    if g.map.contains_key(t) { g.map[t] } else { Seq::empty() }
}

/// The positions of the entries grouped by task.
pub open spec fn grouped(es: Seq<Event>) -> Groups
    decreases es.len(),
{
    if es.len() == 0 {
        Groups { map: Map::empty(), order: Seq::empty() }
    } else {
        let g = grouped(es.drop_last());
        let t = es.last().task_id;
        Groups {
            map: g.map.insert(t, positions_of(g, t).push((es.len() - 1) as usize)),
            order: if g.map.contains_key(t) { g.order } else { g.order.push(t) },
        }
    }
}

/// At most the first ten items.
pub open spec fn first10(s: Seq<usize>) -> Seq<usize> {
    if s.len() <= 10 { s } else { s.take(10) }
}

/// The pairs `(x, y)` for `y` in `ys` with neither before the other.
pub open spec fn row_pairs(edges: Seq<(usize, usize)>, x: usize, ys: Seq<usize>) -> Seq<(usize, usize)>
    decreases ys.len(),
{
    if ys.len() == 0 {
        Seq::empty()
    } else {
        let y = ys.last();
        row_pairs(edges, x, ys.drop_last()) + if !hb_before(edges, x, y) && !hb_before(edges, y, x) {
            seq![(x, y)]
        } else {
            Seq::empty()
        }
    }
}

/// The concurrent pairs between two lists of positions, row by row.
pub open spec fn block_pairs(edges: Seq<(usize, usize)>, xs: Seq<usize>, ys: Seq<usize>) -> Seq<(usize, usize)>
    decreases xs.len(),
{
    if xs.len() == 0 { Seq::empty() } else { block_pairs(edges, xs.drop_last(), ys) + row_pairs(edges, xs.last(), ys) }
}

/// The concurrent pairs of task `t1` with each later-numbered task in `ts`.
pub open spec fn task_pairs(edges: Seq<(usize, usize)>, g: Groups, t1: u32, ts: Seq<u32>) -> Seq<(usize, usize)>
    decreases ts.len(),
{
    if ts.len() == 0 {
        Seq::empty()
    } else {
        let t2 = ts.last();
        task_pairs(edges, g, t1, ts.drop_last()) + if t1 < t2 {
            block_pairs(edges, first10(positions_of(g, t1)), first10(positions_of(g, t2)))
        } else {
            Seq::empty()
        }
    }
}

/// The concurrent pairs of each task of `ts` with every later-numbered task.
pub open spec fn all_pairs(edges: Seq<(usize, usize)>, g: Groups, ts: Seq<u32>) -> Seq<(usize, usize)>
    decreases ts.len(),
{
    if ts.len() == 0 {
        Seq::empty()
    } else {
        all_pairs(edges, g, ts.drop_last()) + task_pairs(edges, g, ts.last(), g.order)
    }
}

/// The working groups.
struct GroupBuilder {
    map: VecMap<u32, Vec<usize>>,
}

/// The values of a map of task positions.
pub open spec fn task_position_views(m: Map<u32, Vec<usize>>) -> Map<u32, Seq<usize>> {
    m.map_values(|v: Vec<usize>| v@)
}

impl GroupBuilder {
    closed spec fn view(&self) -> Groups {
        Groups { map: task_position_views(self.map@), order: self.map.keys() }
    }
}

/// The events at the positions `idx`, in order.
pub open spec fn picked(events: Seq<Event>, idx: Seq<usize>) -> Seq<Event> {
    idx.map_values(|j: usize| events[j as int])
}

/// Groups by task the positions of the first `limit` events among those at
/// the positions `idx`.
fn group_events(events: &[Event], idx: &Vec<usize>, limit: usize) -> (r: GroupBuilder)
    requires
        forall|k: int| 0 <= k < idx@.len() ==> #[trigger] idx@[k] < events@.len(),
    ensures
        r.view() == grouped(
            picked(events@, idx@).take(if limit < idx@.len() { limit as int } else { idx@.len() as int }),
        ),
{
    let ghost es = picked(events@, idx@);
    let end = if limit < idx.len() { limit } else { idx.len() };
    let mut g = GroupBuilder { map: VecMap::new() };
    proof {
        assert(task_position_views(g.map@) =~= Map::<u32, Seq<usize>>::empty());
        assert(es.take(0) =~= Seq::<Event>::empty());
    }
    let mut i: usize = 0;
    while i < end
        invariant
            forall|k: int| 0 <= k < idx@.len() ==> #[trigger] idx@[k] < events@.len(),
            es == picked(events@, idx@),
            end <= idx@.len(),
            i <= end,
            g.view() == grouped(es.take(i as int)),
        decreases end - i,
    {
        let t = events[idx[i]].task_id;
        let mut list = match g.map.get(&t) {
            Some(v) => {
                let c = copy_positions(v, 0);
                proof {
                    assert(v@.skip(0) =~= v@);
                }
                c
            },
            None => Vec::new(),
        };
        list.push(i);
        g.map.insert(t, list);
        proof {
            let q = es.take(i as int + 1);
            assert(q.drop_last() =~= es.take(i as int));
            assert(q.last() == es[i as int]);
            assert(task_position_views(g.map@) =~= grouped(q).map);
        }
        i = i + 1;
    }
    g
}

/// At most the first ten positions of a list.
fn first_ten(v: &Vec<usize>) -> (r: Vec<usize>)
    ensures
        r@ == first10(v@),
{
    let n = if v.len() <= 10 { v.len() } else { 10 };
    let mut out: Vec<usize> = Vec::new();
    let mut i: usize = 0;
    while i < n
        invariant
            n <= v@.len(),
            n == (if v@.len() <= 10 { v@.len() } else { 10 }),
            i <= n,
            out@ == v@.take(i as int),
        decreases n - i,
    {
        out.push(v[i]);
        proof {
            assert(out@ =~= v@.take(i as int + 1));
        }
        i = i + 1;
    }
    proof {
        assert(v@.take(n as int) =~= first10(v@));
    }
    out
}

/// Appends the concurrent pairs `(x, y)` for `y` in `ys`.
fn push_row(edges: &Vec<(usize, usize)>, n: usize, x: usize, ys: &Vec<usize>, out: &mut Vec<(usize, usize)>)
    requires
        forward_below(edges@, n as nat),
        x < n,
        forall|i: int| 0 <= i < ys@.len() ==> #[trigger] ys@[i] < n,
    ensures
        final(out)@ == old(out)@ + row_pairs(edges@, x, ys@),
{
    let ghost start = out@;
    let mut i: usize = 0;
    while i < ys.len()
        invariant
            forward_below(edges@, n as nat),
            x < n,
            forall|k: int| 0 <= k < ys@.len() ==> #[trigger] ys@[k] < n,
            i <= ys@.len(),
            out@ == start + row_pairs(edges@, x, ys@.take(i as int)),
        decreases ys@.len() - i,
    {
        let y = ys[i];
        let ab = hb_reaches(edges, n, x, y);
        let ba = hb_reaches(edges, n, y, x);
        proof {
            assert(ys@.take(i as int + 1).drop_last() =~= ys@.take(i as int));
            assert(ys@.take(i as int + 1).last() == y);
        }
        if !ab && !ba {
            out.push((x, y));
        }
        proof {
            assert(out@ =~= start + row_pairs(edges@, x, ys@.take(i as int + 1)));
        }
        i = i + 1;
    }
    proof {
        assert(ys@.take(ys@.len() as int) =~= ys@);
    }
}

/// Appends the concurrent pairs between two lists of positions.
fn push_block(edges: &Vec<(usize, usize)>, n: usize, xs: &Vec<usize>, ys: &Vec<usize>, out: &mut Vec<(usize, usize)>)
    requires
        forward_below(edges@, n as nat),
        forall|i: int| 0 <= i < xs@.len() ==> #[trigger] xs@[i] < n,
        forall|i: int| 0 <= i < ys@.len() ==> #[trigger] ys@[i] < n,
    ensures
        final(out)@ == old(out)@ + block_pairs(edges@, xs@, ys@),
{
    let ghost start = out@;
    let mut i: usize = 0;
    while i < xs.len()
        invariant
            forward_below(edges@, n as nat),
            forall|k: int| 0 <= k < xs@.len() ==> #[trigger] xs@[k] < n,
            forall|k: int| 0 <= k < ys@.len() ==> #[trigger] ys@[k] < n,
            i <= xs@.len(),
            out@ == start + block_pairs(edges@, xs@.take(i as int), ys@),
        decreases xs@.len() - i,
    {
        proof {
            assert(xs@.take(i as int + 1).drop_last() =~= xs@.take(i as int));
            assert(xs@.take(i as int + 1).last() == xs@[i as int]);
        }
        let ghost mid = out@;
        push_row(edges, n, xs[i], ys, out);
        proof {
            assert(out@ =~= start + block_pairs(edges@, xs@.take(i as int + 1), ys@));
        }
        i = i + 1;
    }
    proof {
        assert(xs@.take(xs@.len() as int) =~= xs@);
    }
}

/// Grouped positions lie among the grouped entries.
proof fn lemma_grouped_bounds(es: Seq<Event>)
    requires
        es.len() <= usize::MAX,
    ensures
        forall|t: u32, i: int| 0 <= i < positions_of(grouped(es), t).len() ==> #[trigger] positions_of(grouped(es), t)[i] < es.len(),
        forall|t: u32| #[trigger] grouped(es).map.contains_key(t) <==> grouped(es).order.contains(t),
    decreases es.len(),
{
    if es.len() > 0 {
        lemma_grouped_bounds(es.drop_last());
        let g = grouped(es.drop_last());
        let t0 = es.last().task_id;
        let n = grouped(es);
        assert forall|t: u32, i: int| 0 <= i < positions_of(n, t).len() implies #[trigger] positions_of(n, t)[i] < es.len() by {
            if t == t0 {
                assert(positions_of(n, t) == positions_of(g, t).push((es.len() - 1) as usize));
                if i < positions_of(g, t).len() {
                    assert(positions_of(n, t)[i] == positions_of(g, t)[i]);
                }
            } else {
                assert(positions_of(n, t) == positions_of(g, t));
            }
        }
        assert forall|t: u32| #[trigger] n.map.contains_key(t) <==> n.order.contains(t) by {
            if !g.map.contains_key(t0) {
                assert(n.order == g.order.push(t0));
                if n.order.contains(t) && t != t0 {
                    let k = choose|k: int| 0 <= k < n.order.len() && n.order[k] == t;
                    assert(g.order[k] == t);
                }
                if g.order.contains(t) {
                    let k = choose|k: int| 0 <= k < g.order.len() && g.order[k] == t;
                    assert(n.order[k] == t);
                }
                assert(n.order[n.order.len() - 1] == t0);
            }
        }
    }
}

/// Appends the concurrent pairs of task `t1` with each later-numbered task
/// in the group order.
fn push_task_pairs(
    edges: &Vec<(usize, usize)>,
    n: usize,
    g: &GroupBuilder,
    t1: u32,
    out: &mut Vec<(usize, usize)>,
)
    requires
        forward_below(edges@, n as nat),
        forall|t: u32, i: int| 0 <= i < positions_of(g.view(), t).len() ==> #[trigger] positions_of(g.view(), t)[i] < n,
    ensures
        final(out)@ == old(out)@ + task_pairs(edges@, g.view(), t1, g.view().order),
{
    let ghost start = out@;
    let ghost order = g.view().order;
    let count = g.map.len();
    let mut i: usize = 0;
    while i < count
        invariant
            forward_below(edges@, n as nat),
            forall|t: u32, k: int| 0 <= k < positions_of(g.view(), t).len() ==> #[trigger] positions_of(g.view(), t)[k] < n,
            count == order.len(),
            order == g.view().order,
            i <= count,
            out@ == start + task_pairs(edges@, g.view(), t1, order.take(i as int)),
        decreases count - i,
    {
        let t2 = g.map.key_at(i);
        proof {
            assert(order.take(i as int + 1).drop_last() =~= order.take(i as int));
            assert(order.take(i as int + 1).last() == t2);
        }
        if t1 < t2 {
            let xs = match g.map.get(&t1) {
                Some(v) => first_ten(v),
                None => Vec::new(),
            };
            let ys = first_ten(g.map.value_at(i));
            proof {
                assert(xs@ == first10(positions_of(g.view(), t1)));
                assert(ys@ == first10(positions_of(g.view(), t2)));
                assert forall|k: int| 0 <= k < xs@.len() implies #[trigger] xs@[k] < n by {
                    assert(xs@[k] == positions_of(g.view(), t1)[k]);
                }
                assert forall|k: int| 0 <= k < ys@.len() implies #[trigger] ys@[k] < n by {
                    assert(ys@[k] == positions_of(g.view(), t2)[k]);
                }
            }
            push_block(edges, n, &xs, &ys, out);
        }
        proof {
            assert(out@ =~= start + task_pairs(edges@, g.view(), t1, order.take(i as int + 1)));
        }
        i = i + 1;
    }
    proof {
        assert(order.take(order.len() as int) =~= order);
    }
}

/// The concurrent pairs of all tasks of the groups.
fn concurrent_pairs_of(edges: &Vec<(usize, usize)>, n: usize, g: &GroupBuilder) -> (r: Vec<(usize, usize)>)
    requires
        forward_below(edges@, n as nat),
        forall|t: u32, i: int| 0 <= i < positions_of(g.view(), t).len() ==> #[trigger] positions_of(g.view(), t)[i] < n,
    ensures
        r@ == all_pairs(edges@, g.view(), g.view().order),
{
    let mut out: Vec<(usize, usize)> = Vec::new();
    let ghost order = g.view().order;
    let count = g.map.len();
    let mut i: usize = 0;
    while i < count
        invariant
            forward_below(edges@, n as nat),
            forall|t: u32, k: int| 0 <= k < positions_of(g.view(), t).len() ==> #[trigger] positions_of(g.view(), t)[k] < n,
            count == order.len(),
            order == g.view().order,
            i <= count,
            out@ == all_pairs(edges@, g.view(), order.take(i as int)),
        decreases count - i,
    {
        let t1 = g.map.key_at(i);
        proof {
            assert(order.take(i as int + 1).drop_last() =~= order.take(i as int));
            assert(order.take(i as int + 1).last() == t1);
        }
        push_task_pairs(edges, n, g, t1, &mut out);
        i = i + 1;
    }
    proof {
        assert(order.take(order.len() as int) =~= order);
    }
    out
}

/// How many sends wait, over the nodes of `order`.
pub open spec fn waiting_total(order: Seq<u32>, pending: Map<u32, Seq<(u64, u32)>>) -> nat
    decreases order.len(),
{
    if order.len() == 0 { 0 } else { waiting_total(order.drop_last(), pending) + sends_to(pending, order.last()).len() }
}

/// How many tasks of `order` are marked active.
pub open spec fn active_count(order: Seq<u32>, active: Map<u32, bool>) -> nat
    decreases order.len(),
{
    if order.len() == 0 {
        0
    } else {
        active_count(order.drop_last(), active) + if active.contains_key(order.last()) && active[order.last()] {
            1nat
        } else {
            0nat
        }
    }
}

/// The waiting total depends only on the lists of the nodes counted.
proof fn lemma_waiting_frame(order: Seq<u32>, a: Map<u32, Seq<(u64, u32)>>, b: Map<u32, Seq<(u64, u32)>>)
    requires
        forall|i: int| 0 <= i < order.len() ==> sends_to(a, #[trigger] order[i]) == sends_to(b, order[i]),
    ensures
        waiting_total(order, a) == waiting_total(order, b),
    decreases order.len(),
{
    if order.len() > 0 {
        lemma_waiting_frame(order.drop_last(), a, b);
        assert(sends_to(a, order[order.len() - 1]) == sends_to(b, order[order.len() - 1]));
    }
}

/// Changing the list of one node counted once changes the total by the
/// difference of the lists' lengths.
proof fn lemma_waiting_update(order: Seq<u32>, m: Map<u32, Seq<(u64, u32)>>, k: u32, v: Seq<(u64, u32)>)
    requires
        order.no_duplicates(),
        order.contains(k),
    ensures
        waiting_total(order, m.insert(k, v)) + sends_to(m, k).len() == waiting_total(order, m) + v.len(),
    decreases order.len(),
{
    let last = order.last();
    let rest = order.drop_last();
    if last == k {
        assert(!rest.contains(k));
        lemma_waiting_frame(rest, m.insert(k, v), m);
    } else {
        assert(rest.contains(k)) by {
            let i = choose|i: int| 0 <= i < order.len() && order[i] == k;
            assert(rest[i] == k);
        }
        lemma_waiting_update(rest, m, k, v);
    }
}

/// What the scan keeps: the node and task orders list their maps' keys once
/// each, and no more sends wait than events were scanned.
pub open spec fn scan_ok(s: ScanView, n: nat) -> bool {
    &&& s.pending_order.no_duplicates()
    &&& forall|d: u32| #[trigger] s.pending.contains_key(d) <==> s.pending_order.contains(d)
    &&& waiting_total(s.pending_order, s.pending) <= n
}

proof fn lemma_scan_ok(kept: Seq<(usize, Event)>)
    ensures
        scan_ok(scan(kept), kept.len()),
    decreases kept.len(),
{
    if kept.len() > 0 {
        lemma_scan_ok(kept.drop_last());
        let s = scan(kept.drop_last());
        let e = kept.last().1;
        let n = scan(kept);
        match e.payload {
            EventPayload::NetSend { dst, .. } => {
                let v = sends_to(s.pending, dst).push((e.timestamp, e.task_id));
                if s.pending.contains_key(dst) {
                    lemma_waiting_update(s.pending_order, s.pending, dst, v);
                } else {
                    let o = s.pending_order.push(dst);
                    assert(o.drop_last() == s.pending_order);
                    lemma_waiting_frame(s.pending_order, s.pending.insert(dst, v), s.pending);
                    assert forall|i: int, j: int| 0 <= i < j < o.len() implies o[i] != o[j] by {
                        if j == o.len() - 1 {
                            assert(s.pending_order.contains(o[i]));
                        }
                    }
                }
                assert forall|d: u32| #[trigger] n.pending.contains_key(d) <==> n.pending_order.contains(d) by {
                    if n.pending_order.contains(d) && d != dst {
                        let i = choose|i: int| 0 <= i < n.pending_order.len() && n.pending_order[i] == d;
                        if !s.pending.contains_key(dst) && i == s.pending_order.len() {
                        } else {
                            assert(s.pending_order[i] == d);
                        }
                    }
                    if s.pending_order.contains(d) {
                        let i = choose|i: int| 0 <= i < s.pending_order.len() && s.pending_order[i] == d;
                        if !s.pending.contains_key(dst) {
                            assert(n.pending_order[i] == d);
                        }
                    }
                    if d == dst && !s.pending.contains_key(dst) {
                        assert(n.pending_order[n.pending_order.len() - 1] == dst);
                    }
                }
            },
            EventPayload::NetRecv { .. } => {
                let t = e.task_id;
                if s.pending.contains_key(t) && s.pending[t].len() > 0 {
                    lemma_waiting_update(s.pending_order, s.pending, t, s.pending[t].drop_first());
                }
            },
            _ => {},
        }
    }
}

/// What a liveness issue holds, as plain values.
pub struct LivenessView {
    pub issue_type: LivenessIssueType,
    pub task_id: Option<u32>,
    pub description: Seq<char>,
}

impl View for LivenessIssue {
    type V = LivenessView;

    open spec fn view(&self) -> LivenessView {
        LivenessView { issue_type: self.issue_type, task_id: self.task_id, description: self.description@ }
    }
}

/// How many of the positions `ps` hold a yield.
pub open spec fn yields_at(es: Seq<Event>, ps: Seq<usize>) -> nat
    decreases ps.len(),
{
    if ps.len() == 0 {
        0
    } else {
        yields_at(es, ps.drop_last()) + if 0 <= ps.last() < es.len() && es[ps.last() as int].event_type == EventType::TaskYield {
            1nat
        } else {
            0nat
        }
    }
}

/// The livelock warnings: tasks of `order` with more than 100 yields that
/// were not seen completing.
pub open spec fn livelock_issues(es: Seq<Event>, g: Groups, order: Seq<u32>, active: Map<u32, bool>) -> Seq<LivenessView>
    decreases order.len(),
{
    if order.len() == 0 {
        Seq::empty()
    } else {
        let before = livelock_issues(es, g, order.drop_last(), active);
        let t = order.last();
        let y = yields_at(es, positions_of(g, t));
        let completed = active.contains_key(t) && !active[t];
        if y > 100 && !completed {
            before.push(LivenessView {
                issue_type: LivenessIssueType::PotentialLivelock,
                task_id: Some(t),
                description: "Task "@ + dec(t as nat) + " has "@ + dec(y) + " yields without completing"@,
            })
        } else {
            before
        }
    }
}

/// Every task of `order` is marked active.
pub open spec fn all_active(order: Seq<u32>, active: Map<u32, bool>) -> bool {
    forall|i: int| 0 <= i < order.len() ==> #[trigger] active.contains_key(order[i]) && active[order[i]]
}

/// The liveness issues of a scan, the grouped timeline and its events.
pub open spec fn liveness_of(es: Seq<Event>, s: ScanView, g: Groups) -> Seq<LivenessView> {
    let c = active_count(s.active_order, s.active);
    let u = waiting_total(s.pending_order, s.pending);
    (if c > 0 {
        seq![LivenessView {
            issue_type: LivenessIssueType::IncompleteTasks,
            task_id: None,
            description: dec(c) + " tasks never completed"@,
        }]
    } else {
        Seq::empty()
    }) + (if u > 0 {
        seq![LivenessView {
            issue_type: LivenessIssueType::UndeliveredMessages,
            task_id: None,
            description: dec(u) + " messages were never received"@,
        }]
    } else {
        Seq::empty()
    }) + (if s.active_order.len() > 0 && all_active(s.active_order, s.active) && c > 1 {
        seq![LivenessView {
            issue_type: LivenessIssueType::PotentialDeadlock,
            task_id: None,
            description: "All "@ + dec(c) + " tasks appear to be blocked"@,
        }]
    } else {
        Seq::empty()
    }) + livelock_issues(es, g, g.order, s.active)
}

/// Whether an event type changes shared state: yields, sends and receives.
pub open spec fn state_modifying(t: EventType) -> bool {
    t == EventType::TaskYield || t == EventType::NetSend || t == EventType::NetRecv
}

/// What a potential race holds, as plain values.
pub struct PotentialRaceView {
    pub event1_idx: usize,
    pub event2_idx: usize,
    pub task1: u32,
    pub task2: u32,
    pub description: Seq<char>,
}

impl View for PotentialRace {
    type V = PotentialRaceView;

    open spec fn view(&self) -> PotentialRaceView {
        PotentialRaceView {
            event1_idx: self.event1_idx,
            event2_idx: self.event2_idx,
            task1: self.task1,
            task2: self.task2,
            description: self.description@,
        }
    }
}

/// The potential races among concurrent pairs: both events change state.
pub open spec fn races_of(pairs: Seq<(usize, usize)>, es: Seq<Event>) -> Seq<PotentialRaceView>
    decreases pairs.len(),
{
    if pairs.len() == 0 {
        Seq::empty()
    } else {
        let before = races_of(pairs.drop_last(), es);
        let (i, j) = pairs.last();
        if i < es.len() && j < es.len() && state_modifying(es[i as int].event_type) && state_modifying(
            es[j as int].event_type,
        ) {
            let a = es[i as int];
            let b = es[j as int];
            before.push(PotentialRaceView {
                event1_idx: i,
                event2_idx: j,
                task1: a.task_id,
                task2: b.task_id,
                description: "Concurrent operations: T"@ + dec(a.task_id as nat) + " "@ + describe_text(a) + " || T"@
                    + dec(b.task_id as nat) + " "@ + describe_text(b),
            })
        } else {
            before
        }
    }
}

/// What a timeline entry holds, as plain values.
pub struct TimelineEntryView {
    pub timestamp_ns: u64,
    pub task_id: u32,
    pub event_type: EventType,
    pub description: Seq<char>,
}

impl View for TimelineEntry {
    type V = TimelineEntryView;

    open spec fn view(&self) -> TimelineEntryView {
        TimelineEntryView {
            timestamp_ns: self.timestamp_ns,
            task_id: self.task_id,
            event_type: self.event_type,
            description: self.description@,
        }
    }
}

/// The timeline entry of an event.
pub open spec fn entry_view(e: Event) -> TimelineEntryView {
    TimelineEntryView {
        timestamp_ns: e.timestamp,
        task_id: e.task_id,
        event_type: e.event_type,
        description: describe_text(e),
    }
}

/// The timeline of a list of events.
pub open spec fn timeline_of(es: Seq<Event>) -> Seq<TimelineEntryView> {
    es.map_values(|e: Event| entry_view(e))
}

/// The views of a list of timeline entries.
pub open spec fn timeline_views(s: Seq<TimelineEntry>) -> Seq<TimelineEntryView> {
    s.map_values(|t: TimelineEntry| t@)
}

/// The views of a list of potential races.
pub open spec fn race_views(s: Seq<PotentialRace>) -> Seq<PotentialRaceView> {
    s.map_values(|x: PotentialRace| x@)
}

/// The views of a list of liveness issues.
pub open spec fn liveness_views(s: Seq<LivenessIssue>) -> Seq<LivenessView> {
    s.map_values(|x: LivenessIssue| x@)
}

/// The events of a list of kept events, in order.
pub open spec fn kept_seq(kept: Seq<(usize, Event)>) -> Seq<Event> {
    kept.map_values(|p: (usize, Event)| p.1)
}

/// The events at the positions `idx`, each with its position counted from 1.
spec fn kept_from(events: Seq<Event>, idx: Seq<usize>) -> Seq<(usize, Event)> {
    idx.map_values(|j: usize| ((j + 1) as usize, events[j as int]))
}

/// A filter text as plain characters.
pub open spec fn text_opt(o: Option<&str>) -> Option<Seq<char>> {
    match o {
        Some(f) => Some(f@),
        None => None,
    }
}

/// A filter as plain characters.
pub open spec fn chars_opt(o: Option<Vec<char>>) -> Option<Seq<char>> {
    match o {
        Some(f) => Some(f@),
        None => None,
    }
}

/// Whether an event type changes shared state.
fn modifies(t: EventType) -> (r: bool)
    ensures
        r == state_modifying(t),
{
    match t {
        EventType::TaskYield => true,
        EventType::NetSend => true,
        EventType::NetRecv => true,
        _ => false,
    }
}

/// Appends the warnings for tasks never seen completing.
fn push_incomplete(active: &VecMap<u32, bool>, issues: &mut Vec<AnalysisIssue>)
    ensures
        issue_views(final(issues)@) == issue_views(old(issues)@) + incomplete_issues(active.keys(), active@),
{
    let ghost start = issue_views(issues@);
    let ghost order = active.keys();
    let count = active.len();
    let mut i: usize = 0;
    while i < count
        invariant
            order == active.keys(),
            count == order.len(),
            i <= count,
            issue_views(issues@) == start + incomplete_issues(order.take(i as int), active@),
        decreases count - i,
    {
        let t = active.key_at(i);
        let a = *active.value_at(i);
        proof {
            let q = order.take(i as int + 1);
            assert(q.drop_last() =~= order.take(i as int));
            assert(q.last() == t);
        }
        if a {
            let mut d = String::from_str("Task ");
            push_dec(&mut d, t as u64);
            d.append(" never completed");
            let ghost before = issues@;
            issues.push(AnalysisIssue { severity: IssueSeverity::Warning, description: d, event_id: None, timestamp_ns: None });
            proof {
                assert(issue_views(issues@) =~= issue_views(before).push(issues@.last()@));
            }
        }
        proof {
            assert(issue_views(issues@) =~= start + incomplete_issues(order.take(i as int + 1), active@));
        }
        i = i + 1;
    }
    proof {
        assert(order.take(count as int) =~= order);
    }
}

/// Appends the warnings for nodes with sends never received.
fn push_undelivered(pending: &VecMap<u32, Vec<(u64, u32)>>, issues: &mut Vec<AnalysisIssue>)
    ensures
        issue_views(final(issues)@) == issue_views(old(issues)@) + undelivered_issues(
            pending.keys(),
            list_views(pending@),
        ),
{
    let ghost start = issue_views(issues@);
    let ghost order = pending.keys();
    let ghost m = list_views(pending@);
    let count = pending.len();
    let mut i: usize = 0;
    while i < count
        invariant
            order == pending.keys(),
            m == list_views(pending@),
            count == order.len(),
            i <= count,
            issue_views(issues@) == start + undelivered_issues(order.take(i as int), m),
        decreases count - i,
    {
        let d = pending.key_at(i);
        let v = pending.value_at(i);
        proof {
            let q = order.take(i as int + 1);
            assert(q.drop_last() =~= order.take(i as int));
            assert(q.last() == d);
            assert(sends_to(m, d) == v@);
        }
        if v.len() > 0 {
            let mut text = String::new();
            push_dec(&mut text, v.len() as u64);
            text.append(" messages to node ");
            push_dec(&mut text, d as u64);
            text.append(" were never received");
            let ghost before = issues@;
            issues.push(
                AnalysisIssue { severity: IssueSeverity::Warning, description: text, event_id: None, timestamp_ns: None },
            );
            proof {
                assert(issue_views(issues@) =~= issue_views(before).push(issues@.last()@));
            }
        }
        proof {
            assert(issue_views(issues@) =~= start + undelivered_issues(order.take(i as int + 1), m));
        }
        i = i + 1;
    }
    proof {
        assert(order.take(count as int) =~= order);
    }
}

/// A total over a prefix of the nodes is at most the total over all of them.
proof fn lemma_waiting_prefix(order: Seq<u32>, m: Map<u32, Seq<(u64, u32)>>, i: int)
    requires
        0 <= i <= order.len(),
    ensures
        waiting_total(order.take(i), m) <= waiting_total(order, m),
    decreases order.len(),
{
    if i < order.len() {
        lemma_waiting_prefix(order.drop_last(), m, i);
        assert(order.drop_last().take(i) =~= order.take(i));
    } else {
        assert(order.take(i) =~= order);
    }
}

/// How many sends wait, over all nodes.
fn waiting_sum(pending: &VecMap<u32, Vec<(u64, u32)>>) -> (r: usize)
    requires
        waiting_total(pending.keys(), list_views(pending@)) <= usize::MAX,
    ensures
        r == waiting_total(pending.keys(), list_views(pending@)),
{
    let ghost order = pending.keys();
    let ghost m = list_views(pending@);
    let count = pending.len();
    let mut sum: usize = 0;
    let mut i: usize = 0;
    while i < count
        invariant
            order == pending.keys(),
            m == list_views(pending@),
            waiting_total(order, m) <= usize::MAX,
            count == order.len(),
            i <= count,
            sum == waiting_total(order.take(i as int), m),
        decreases count - i,
    {
        let d = pending.key_at(i);
        let v = pending.value_at(i);
        proof {
            let q = order.take(i as int + 1);
            assert(q.drop_last() =~= order.take(i as int));
            assert(q.last() == d);
            assert(sends_to(m, d) == v@);
            lemma_waiting_prefix(order, m, i as int + 1);
        }
        sum = sum + v.len();
        i = i + 1;
    }
    proof {
        assert(order.take(count as int) =~= order);
    }
    sum
}

/// How many tasks are marked active, and whether all are.
fn active_tally(active: &VecMap<u32, bool>) -> (r: (usize, bool))
    ensures
        r.0 == active_count(active.keys(), active@),
        r.1 == all_active(active.keys(), active@),
{
    let ghost order = active.keys();
    let count = active.len();
    let mut c: usize = 0;
    let mut all = true;
    let mut i: usize = 0;
    while i < count
        invariant
            order == active.keys(),
            count == order.len(),
            i <= count,
            c <= i,
            c == active_count(order.take(i as int), active@),
            all == all_active(order.take(i as int), active@),
        decreases count - i,
    {
        let t = active.key_at(i);
        let a = *active.value_at(i);
        proof {
            let q = order.take(i as int + 1);
            assert(q.drop_last() =~= order.take(i as int));
            assert(q.last() == t);
            assert(q[i as int] == t);
            if all && a {
                assert forall|k: int| 0 <= k < q.len() implies #[trigger] active@.contains_key(q[k]) && active@[q[k]] by {
                    if k < i {
                        assert(q[k] == order.take(i as int)[k]);
                    }
                }
                assert(all_active(q, active@));
            }
            if !all {
                let p = order.take(i as int);
                if all_active(q, active@) {
                    assert forall|k: int| 0 <= k < p.len() implies #[trigger] active@.contains_key(p[k]) && active@[p[k]] by {
                        assert(q[k] == p[k]);
                    }
                }
            }
            if !a {
                assert(!(active@.contains_key(q[i as int]) && active@[q[i as int]]));
                assert(!all_active(q, active@));
            }
        }
        if a {
            c = c + 1;
        } else {
            all = false;
        }
        i = i + 1;
    }
    proof {
        assert(order.take(count as int) =~= order);
    }
    (c, all)
}

/// How many of the positions `ps` hold a yield, among the events at `idx`.
fn yield_count(events: &[Event], idx: &Vec<usize>, ps: &Vec<usize>) -> (r: usize)
    requires
        forall|k: int| 0 <= k < idx@.len() ==> #[trigger] idx@[k] < events@.len(),
    ensures
        r == yields_at(picked(events@, idx@), ps@),
{
    let ghost es = picked(events@, idx@);
    let mut y: usize = 0;
    let mut k: usize = 0;
    while k < ps.len()
        invariant
            forall|j: int| 0 <= j < idx@.len() ==> #[trigger] idx@[j] < events@.len(),
            es == picked(events@, idx@),
            k <= ps@.len(),
            y <= k,
            y == yields_at(es, ps@.take(k as int)),
        decreases ps@.len() - k,
    {
        let p = ps[k];
        proof {
            let q = ps@.take(k as int + 1);
            assert(q.drop_last() =~= ps@.take(k as int));
            assert(q.last() == p);
        }
        if p < idx.len() {
            if events[idx[p]].event_type == EventType::TaskYield {
                y = y + 1;
            }
        }
        k = k + 1;
    }
    proof {
        assert(ps@.take(ps@.len() as int) =~= ps@);
    }
    y
}

/// Appends the livelock warnings for the tasks of the groups.
fn push_livelocks(
    events: &[Event],
    idx: &Vec<usize>,
    g: &GroupBuilder,
    active: &VecMap<u32, bool>,
    out: &mut Vec<LivenessIssue>,
)
    requires
        forall|k: int| 0 <= k < idx@.len() ==> #[trigger] idx@[k] < events@.len(),
    ensures
        liveness_views(final(out)@) == liveness_views(old(out)@) + livelock_issues(
            picked(events@, idx@),
            g.view(),
            g.view().order,
            active@,
        ),
{
    let ghost es = picked(events@, idx@);
    let ghost start = liveness_views(out@);
    let ghost order = g.view().order;
    let count = g.map.len();
    let mut i: usize = 0;
    while i < count
        invariant
            forall|k: int| 0 <= k < idx@.len() ==> #[trigger] idx@[k] < events@.len(),
            es == picked(events@, idx@),
            order == g.view().order,
            count == order.len(),
            i <= count,
            liveness_views(out@) == start + livelock_issues(es, g.view(), order.take(i as int), active@),
        decreases count - i,
    {
        let t = g.map.key_at(i);
        let y = yield_count(events, idx, g.map.value_at(i));
        let completed = match active.get(&t) {
            Some(a) => !*a,
            None => false,
        };
        proof {
            let q = order.take(i as int + 1);
            assert(q.drop_last() =~= order.take(i as int));
            assert(q.last() == t);
            assert(positions_of(g.view(), t) == g.map@[t]@);
        }
        if y > 100 && !completed {
            let mut d = String::from_str("Task ");
            push_dec(&mut d, t as u64);
            d.append(" has ");
            push_dec(&mut d, y as u64);
            d.append(" yields without completing");
            let ghost before = out@;
            out.push(LivenessIssue { issue_type: LivenessIssueType::PotentialLivelock, task_id: Some(t), description: d });
            proof {
                assert(liveness_views(out@) =~= liveness_views(before).push(out@.last()@));
            }
        }
        proof {
            assert(liveness_views(out@) =~= start + livelock_issues(es, g.view(), order.take(i as int + 1), active@));
        }
        i = i + 1;
    }
    proof {
        assert(order.take(count as int) =~= order);
    }
}

/// The potential races among the concurrent pairs of the timeline of the
/// events at `idx`.
fn races_among(
    events: &[Event],
    idx: &Vec<usize>,
    timeline: &Vec<TimelineEntry>,
    pairs: &Vec<(usize, usize)>,
) -> (r: Vec<PotentialRace>)
    requires
        forall|k: int| 0 <= k < idx@.len() ==> #[trigger] idx@[k] < events@.len(),
        timeline_views(timeline@) == timeline_of(picked(events@, idx@)),
    ensures
        race_views(r@) == races_of(pairs@, picked(events@, idx@)),
{
    let ghost es = picked(events@, idx@);
    proof {
        assert(timeline_views(timeline@).len() == timeline@.len());
    }
    let mut out: Vec<PotentialRace> = Vec::new();
    let mut k: usize = 0;
    while k < pairs.len()
        invariant
            forall|j: int| 0 <= j < idx@.len() ==> #[trigger] idx@[j] < events@.len(),
            es == picked(events@, idx@),
            timeline_views(timeline@) == timeline_of(es),
            timeline@.len() == idx@.len(),
            k <= pairs@.len(),
            race_views(out@) == races_of(pairs@.take(k as int), es),
        decreases pairs@.len() - k,
    {
        let (i, j) = pairs[k];
        proof {
            let q = pairs@.take(k as int + 1);
            assert(q.drop_last() =~= pairs@.take(k as int));
            assert(q.last() == (i, j));
        }
        if i < idx.len() && j < idx.len() {
            let a = &events[idx[i]];
            let b = &events[idx[j]];
            if modifies(a.event_type) && modifies(b.event_type) {
                proof {
                    assert(timeline_views(timeline@)[i as int] == timeline@[i as int]@);
                    assert(timeline_views(timeline@)[j as int] == timeline@[j as int]@);
                    assert(es[i as int] == *a);
                    assert(es[j as int] == *b);
                }
                let mut d = String::from_str("Concurrent operations: T");
                push_dec(&mut d, a.task_id as u64);
                d.append(" ");
                d.append(timeline[i].description.as_str());
                d.append(" || T");
                push_dec(&mut d, b.task_id as u64);
                d.append(" ");
                d.append(timeline[j].description.as_str());
                let ghost before = out@;
                out.push(
                    PotentialRace { event1_idx: i, event2_idx: j, task1: a.task_id, task2: b.task_id, description: d },
                );
                proof {
                    assert(race_views(out@) =~= race_views(before).push(out@.last()@));
                }
            }
        }
        proof {
            assert(race_views(out@) =~= races_of(pairs@.take(k as int + 1), es));
        }
        k = k + 1;
    }
    proof {
        assert(pairs@.take(pairs@.len() as int) =~= pairs@);
    }
    out
}

/// The happens-before edges of the timeline of the events at `idx`.
fn hb_edges_of(events: &[Event], idx: &Vec<usize>) -> (r: Vec<(usize, usize)>)
    requires
        forall|k: int| 0 <= k < idx@.len() ==> #[trigger] idx@[k] < events@.len(),
    ensures
        r@ == hb(picked(events@, idx@)).edges,
{
    let ghost es = picked(events@, idx@);
    let mut h = HbBuilder::new();
    proof {
        assert(es.take(0) =~= Seq::<Event>::empty());
    }
    let mut k: usize = 0;
    while k < idx.len()
        invariant
            forall|j: int| 0 <= j < idx@.len() ==> #[trigger] idx@[j] < events@.len(),
            es == picked(events@, idx@),
            k <= idx@.len(),
            h.view() == hb(es.take(k as int)),
        decreases idx@.len() - k,
    {
        h.step(k, &events[idx[k]]);
        proof {
            let q = es.take(k as int + 1);
            assert(q.drop_last() =~= es.take(k as int));
            assert(q.last() == es[k as int]);
        }
        k = k + 1;
    }
    proof {
        assert(es.take(idx@.len() as int) =~= es);
    }
    h.edges
}

/// Scans the events that pass the filters: their positions, the scan, and
/// their timeline.
fn collect_kept(events: &[Event], task: Option<u32>, lowered: &Option<Vec<char>>) -> (r: (
    Vec<usize>,
    Scanner,
    Vec<TimelineEntry>,
))
    requires
        events@.len() < usize::MAX,
    ensures
        ({
            let lv = chars_opt(*lowered);
            &&& kept_events(events@, task, lv) == kept_from(events@, r.0@)
            &&& forall|k: int| 0 <= k < r.0@.len() ==> #[trigger] r.0@[k] < events@.len()
            &&& r.1.view() == scan(kept_from(events@, r.0@))
            &&& timeline_views(r.2@) == timeline_of(picked(events@, r.0@))
        }),
{
    let ghost lv = chars_opt(*lowered);
    let mut sc = Scanner::new();
    let mut idx: Vec<usize> = Vec::new();
    let mut timeline: Vec<TimelineEntry> = Vec::new();
    proof {
        assert(events@.take(0) =~= Seq::<Event>::empty());
        assert(kept_from(events@, idx@) =~= Seq::<(usize, Event)>::empty());
        assert(timeline_views(timeline@) =~= timeline_of(picked(events@, idx@)));
    }
    let mut i: usize = 0;
    while i < events.len()
        invariant
            events@.len() < usize::MAX,
            lv == chars_opt(*lowered),
            i <= events@.len(),
            idx@.len() <= i,
            forall|k: int| 0 <= k < idx@.len() ==> #[trigger] idx@[k] < i,
            kept_events(events@.take(i as int), task, lv) == kept_from(events@, idx@),
            sc.view() == scan(kept_from(events@, idx@)),
            timeline_views(timeline@) == timeline_of(picked(events@, idx@)),
        decreases events@.len() - i,
    {
        let e = &events[i];
        let ghost kept0 = kept_from(events@, idx@);
        proof {
            let q = events@.take(i as int + 1);
            assert(q.drop_last() =~= events@.take(i as int));
            assert(q.last() == events@[i as int]);
        }
        if event_passes(e, task, lowered) {
            proof {
                lemma_scan_counts(kept0);
            }
            sc.step(i + 1, e);
            let d = describe_event(e);
            let ghost tl0 = timeline@;
            timeline.push(TimelineEntry { timestamp_ns: e.timestamp, task_id: e.task_id, event_type: e.event_type, description: d });
            let ghost idx0 = idx@;
            idx.push(i);
            proof {
                let x = ((i + 1) as usize, events@[i as int]);
                assert(kept_from(events@, idx@) =~= kept0.push(x));
                assert(kept0.push(x).drop_last() =~= kept0);
                assert(picked(events@, idx@) =~= picked(events@, idx0).push(events@[i as int]));
                assert(timeline_views(timeline@) =~= timeline_views(tl0).push(timeline@.last()@));
                assert(timeline_views(timeline@) =~= timeline_of(picked(events@, idx@)));
            }
        }
        i = i + 1;
    }
    proof {
        assert(events@.take(events@.len() as int) =~= events@);
    }
    (idx, sc, timeline)
}

/// What an analysis result holds, as plain values.
pub struct AnalysisView {
    pub seed: u64,
    pub strategy: u8,
    pub total_events: usize,
    pub events_by_type: Map<EventType, usize>,
    pub events_by_task: Map<u32, usize>,
    pub timeline: Seq<TimelineEntryView>,
    pub hb_edges: Seq<(usize, usize)>,
    pub concurrent_pairs: Seq<(usize, usize)>,
    pub issues: Seq<IssueView>,
    pub max_time_ns: u64,
    pub races: Seq<PotentialRaceView>,
    pub liveness_issues: Seq<LivenessView>,
}

impl View for AnalysisResult {
    type V = AnalysisView;

    open spec fn view(&self) -> AnalysisView {
        AnalysisView {
            seed: self.seed,
            strategy: self.strategy,
            total_events: self.total_events,
            events_by_type: self.events_by_type@,
            events_by_task: self.events_by_task@,
            timeline: timeline_views(self.timeline@),
            hb_edges: self.hb_edges@,
            concurrent_pairs: self.concurrent_pairs@,
            issues: issue_views(self.issues@),
            max_time_ns: self.max_time_ns,
            races: race_views(self.races@),
            liveness_issues: liveness_views(self.liveness_issues@),
        }
    }
}

/// How many of the first timeline entries the search for concurrent pairs
/// looks at.
pub const PAIR_WINDOW: usize = 50;

/// The first `PAIR_WINDOW` entries of a timeline, or all if fewer.
pub open spec fn pair_window(es: Seq<Event>) -> Seq<Event> {
    es.take(if PAIR_WINDOW < es.len() { PAIR_WINDOW as int } else { es.len() as int })
}

/// The concurrent pairs of a timeline: among its first `PAIR_WINDOW`
/// entries, for each two tasks, the first ten entries of the lower-numbered
/// task with the first ten of the other, where neither happened before the
/// other.
pub open spec fn concurrent_of(es: Seq<Event>) -> Seq<(usize, usize)> {
    let g = grouped(pair_window(es));
    all_pairs(hb(es).edges, g, g.order)
}

/// The analysis of a run's events, with the filters of a task and of a
/// lower-cased type name, and the race and liveness passes on request.
pub open spec fn analysis_of(
    events: Seq<Event>,
    seed: u64,
    strategy: u8,
    task: Option<u32>,
    lowered: Option<Seq<char>>,
    races: bool,
    liveness: bool,
) -> AnalysisView {
    let kept = kept_events(events, task, lowered);
    let es = kept_seq(kept);
    let s = scan(kept);
    AnalysisView {
        seed: seed,
        strategy: strategy,
        total_events: events.len() as usize,
        events_by_type: s.by_type,
        events_by_task: s.by_task,
        timeline: timeline_of(es),
        hb_edges: hb(es).edges,
        concurrent_pairs: concurrent_of(es),
        issues: s.issues + incomplete_issues(s.active_order, s.active) + undelivered_issues(s.pending_order, s.pending),
        max_time_ns: s.max_time,
        races: if races { races_of(concurrent_of(es), es) } else { Seq::empty() },
        liveness_issues: if liveness { liveness_of(es, s, grouped(es)) } else { Seq::empty() },
    }
}

/// Analyzes a run's events. `type_filter`, when given, is already in lower
/// case: an event is kept when its type's lower-case name contains it.
pub fn analyze_lowered(
    events: &[Event],
    seed: u64,
    strategy: u8,
    task: Option<u32>,
    type_filter: Option<&str>,
    races: bool,
    liveness: bool,
) -> (r: AnalysisResult)
    requires
        events@.len() < usize::MAX,
    ensures
        r@ == analysis_of(events@, seed, strategy, task, text_opt(type_filter), races, liveness),
{
    let lowered: Option<Vec<char>> = match type_filter {
        Some(f) => Some(chars_of(f)),
        None => None,
    };
    let (idx, sc, timeline) = collect_kept(events, task, &lowered);
    let ghost kept = kept_events(events@, task, text_opt(type_filter));
    let ghost es = picked(events@, idx@);
    let n = idx.len();
    proof {
        assert(kept_seq(kept) =~= es);
        assert(es.len() == idx@.len());
        lemma_hb_forward(es);
        lemma_scan_ok(kept);
    }
    let edges = hb_edges_of(events, &idx);
    let window = group_events(events, &idx, PAIR_WINDOW);
    proof {
        let w = es.take(if PAIR_WINDOW < n { PAIR_WINDOW as int } else { n as int });
        lemma_grouped_bounds(w);
    }
    let pairs = concurrent_pairs_of(&edges, n, &window);
    let race_list = if races {
        races_among(events, &idx, &timeline, &pairs)
    } else {
        Vec::new()
    };
    let mut live: Vec<LivenessIssue> = Vec::new();
    if liveness {
        let (c, all) = active_tally(&sc.active);
        let u = waiting_sum(&sc.pending);
        if c > 0 {
            let mut d = String::new();
            push_dec(&mut d, c as u64);
            d.append(" tasks never completed");
            live.push(LivenessIssue { issue_type: LivenessIssueType::IncompleteTasks, task_id: None, description: d });
        }
        if u > 0 {
            let mut d = String::new();
            push_dec(&mut d, u as u64);
            d.append(" messages were never received");
            live.push(LivenessIssue { issue_type: LivenessIssueType::UndeliveredMessages, task_id: None, description: d });
        }
        if sc.active.len() > 0 && all && c > 1 {
            let mut d = String::from_str("All ");
            push_dec(&mut d, c as u64);
            d.append(" tasks appear to be blocked");
            live.push(LivenessIssue { issue_type: LivenessIssueType::PotentialDeadlock, task_id: None, description: d });
        }
        let ghost head = liveness_views(live@);
        let full = group_events(events, &idx, n);
        proof {
            assert(es.take(n as int) =~= es);
        }
        push_livelocks(events, &idx, &full, &sc.active, &mut live);
        proof {
            let s = scan(kept);
            assert(head =~= liveness_of(es, s, grouped(es)).take(head.len() as int));
            assert(liveness_views(live@) =~= liveness_of(es, s, grouped(es)));
        }
    }
    let Scanner { by_type, by_task, max_time, issues: scan_issues, active, pending } = sc;
    let mut issues = scan_issues;
    push_incomplete(&active, &mut issues);
    push_undelivered(&pending, &mut issues);
    let r = AnalysisResult {
        seed: seed,
        strategy: strategy,
        total_events: events.len(),
        events_by_type: by_type,
        events_by_task: by_task,
        timeline: timeline,
        hb_edges: edges,
        concurrent_pairs: pairs,
        issues: issues,
        max_time_ns: max_time,
        races: race_list,
        liveness_issues: live,
    };
    proof {
        let a = analysis_of(events@, seed, strategy, task, text_opt(type_filter), races, liveness);
        assert(r@.issues =~= a.issues);
        assert(r@.timeline == a.timeline);
        assert(r@.hb_edges == a.hb_edges);
        assert(r@.concurrent_pairs == a.concurrent_pairs);
        assert(r@.races == a.races);
        assert(r@.liveness_issues == a.liveness_issues);
        assert(r@.events_by_type == a.events_by_type);
        assert(r@.max_time_ns == a.max_time_ns);
    }
    r
}

/// Whether an event passes the task and type filters of the arguments (the
/// type filter compared in lower case).
pub fn passes_filters(e: &Event, args: &AnalyzeArgs) -> (r: bool)
    ensures
        r == passes(*e, args.task, lowered_filter(*args)),
{
    match &args.event_type {
        Some(f) => {
            let l = lowercase(f.as_str());
            let lowered = Some(chars_of(l.as_str()));
            event_passes(e, args.task, &lowered)
        },
        None => event_passes(e, args.task, &None),
    }
}

/// Analyzes a run's events with the filters and passes that the arguments
/// ask for; the type filter is compared in lower case.
pub fn analyze_events(events: &[Event], seed: u64, strategy: u8, args: &AnalyzeArgs) -> (r: AnalysisResult)
    requires
        events@.len() < usize::MAX,
    ensures
        r@ == analysis_of(events@, seed, strategy, args.task, lowered_filter(*args), args.races, args.liveness),
{
    match &args.event_type {
        Some(f) => {
            let l = lowercase(f.as_str());
            analyze_lowered(events, seed, strategy, args.task, Some(l.as_str()), args.races, args.liveness)
        },
        None => analyze_lowered(events, seed, strategy, args.task, None, args.races, args.liveness),
    }
}

/// Neither of two timeline entries happened before the other.
pub open spec fn unordered(edges: Seq<(usize, usize)>, a: usize, b: usize) -> bool {
    !hb_before(edges, a, b) && !hb_before(edges, b, a)
}

/// The positions grouped under task `t` are entries of task `t`.
pub open spec fn groups_sound(es: Seq<Event>, g: Groups) -> bool {
    forall|t: u32, i: int|
        0 <= i < positions_of(g, t).len() ==> #[trigger] positions_of(g, t)[i] < es.len()
            && es[positions_of(g, t)[i] as int].task_id == t
}

proof fn lemma_grouped_sound(es: Seq<Event>)
    requires
        es.len() <= usize::MAX,
    ensures
        groups_sound(es, grouped(es)),
    decreases es.len(),
{
    if es.len() > 0 {
        let prev = es.drop_last();
        lemma_grouped_sound(prev);
        let g = grouped(prev);
        let n = grouped(es);
        let t0 = es.last().task_id;
        assert forall|t: u32, i: int| 0 <= i < positions_of(n, t).len() implies #[trigger] positions_of(n, t)[i] < es.len()
            && es[positions_of(n, t)[i] as int].task_id == t by {
            if t == t0 {
                assert(positions_of(n, t) == positions_of(g, t).push((es.len() - 1) as usize));
                if i < positions_of(g, t).len() {
                    let p = positions_of(g, t)[i];
                    assert(positions_of(n, t)[i] == p);
                    assert(es[p as int] == prev[p as int]);
                }
            } else {
                assert(positions_of(n, t) == positions_of(g, t));
                let p = positions_of(g, t)[i];
                assert(es[p as int] == prev[p as int]);
            }
        }
    }
}

proof fn lemma_row_pairs(edges: Seq<(usize, usize)>, x: usize, ys: Seq<usize>)
    ensures
        forall|k: int| 0 <= k < row_pairs(edges, x, ys).len() ==> (#[trigger] row_pairs(edges, x, ys)[k]).0 == x
            && ys.contains(row_pairs(edges, x, ys)[k].1) && unordered(edges, x, row_pairs(edges, x, ys)[k].1),
    decreases ys.len(),
{
    if ys.len() > 0 {
        let prev = ys.drop_last();
        lemma_row_pairs(edges, x, prev);
        let r0 = row_pairs(edges, x, prev);
        let r = row_pairs(edges, x, ys);
        assert forall|k: int| 0 <= k < r.len() implies (#[trigger] r[k]).0 == x && ys.contains(r[k].1) && unordered(edges, x, r[k].1) by {
            if k < r0.len() {
                assert(r[k] == r0[k]);
                let j = choose|j: int| 0 <= j < prev.len() && prev[j] == r0[k].1;
                assert(ys[j] == prev[j]);
            } else {
                assert(r[k] == (x, ys.last()));
                assert(ys[ys.len() - 1] == ys.last());
            }
        }
    }
}

proof fn lemma_block_pairs(edges: Seq<(usize, usize)>, xs: Seq<usize>, ys: Seq<usize>)
    ensures
        forall|k: int| 0 <= k < block_pairs(edges, xs, ys).len() ==> xs.contains(
            (#[trigger] block_pairs(edges, xs, ys)[k]).0,
        ) && ys.contains(block_pairs(edges, xs, ys)[k].1) && unordered(
            edges,
            block_pairs(edges, xs, ys)[k].0,
            block_pairs(edges, xs, ys)[k].1,
        ),
    decreases xs.len(),
{
    if xs.len() > 0 {
        let prev = xs.drop_last();
        lemma_block_pairs(edges, prev, ys);
        lemma_row_pairs(edges, xs.last(), ys);
        let b0 = block_pairs(edges, prev, ys);
        let row = row_pairs(edges, xs.last(), ys);
        let b = block_pairs(edges, xs, ys);
        assert forall|k: int| 0 <= k < b.len() implies xs.contains((#[trigger] b[k]).0) && ys.contains(b[k].1) && unordered(
            edges,
            b[k].0,
            b[k].1,
        ) by {
            if k < b0.len() {
                assert(b[k] == b0[k]);
                let j = choose|j: int| 0 <= j < prev.len() && prev[j] == b0[k].0;
                assert(xs[j] == prev[j]);
            } else {
                assert(b[k] == row[k - b0.len()]);
                assert(xs[xs.len() - 1] == xs.last());
            }
        }
    }
}

/// A position among the first ten of a list is in the list.
proof fn lemma_first10(s: Seq<usize>, v: usize)
    requires
        first10(s).contains(v),
    ensures
        s.contains(v),
{
    if s.len() > 10 {
        let j = choose|j: int| 0 <= j < first10(s).len() && first10(s)[j] == v;
        assert(s[j] == v);
    }
}

proof fn lemma_task_pairs(edges: Seq<(usize, usize)>, w: Seq<Event>, g: Groups, t1: u32, ts: Seq<u32>)
    requires
        groups_sound(w, g),
    ensures
        forall|k: int| 0 <= k < task_pairs(edges, g, t1, ts).len() ==> {
            let p = #[trigger] task_pairs(edges, g, t1, ts)[k];
            &&& p.0 < w.len()
            &&& p.1 < w.len()
            &&& w[p.0 as int].task_id == t1
            &&& t1 < w[p.1 as int].task_id
            &&& unordered(edges, p.0, p.1)
        },
    decreases ts.len(),
{
    if ts.len() > 0 {
        let prev = ts.drop_last();
        lemma_task_pairs(edges, w, g, t1, prev);
        let t2 = ts.last();
        let xs = first10(positions_of(g, t1));
        let ys = first10(positions_of(g, t2));
        lemma_block_pairs(edges, xs, ys);
        let a0 = task_pairs(edges, g, t1, prev);
        let a = task_pairs(edges, g, t1, ts);
        assert forall|k: int| 0 <= k < a.len() implies {
            let p = #[trigger] a[k];
            &&& p.0 < w.len()
            &&& p.1 < w.len()
            &&& w[p.0 as int].task_id == t1
            &&& t1 < w[p.1 as int].task_id
            &&& unordered(edges, p.0, p.1)
        } by {
            if k < a0.len() {
                assert(a[k] == a0[k]);
            } else {
                let b = block_pairs(edges, xs, ys);
                assert(t1 < t2);
                assert(a[k] == b[k - a0.len()]);
                let p = b[k - a0.len()];
                lemma_first10(positions_of(g, t1), p.0);
                lemma_first10(positions_of(g, t2), p.1);
                let i = choose|i: int| 0 <= i < positions_of(g, t1).len() && positions_of(g, t1)[i] == p.0;
                let j = choose|j: int| 0 <= j < positions_of(g, t2).len() && positions_of(g, t2)[j] == p.1;
                assert(positions_of(g, t1)[i] < w.len());
                assert(positions_of(g, t2)[j] < w.len());
            }
        }
    }
}

proof fn lemma_all_pairs(edges: Seq<(usize, usize)>, w: Seq<Event>, g: Groups, ts: Seq<u32>)
    requires
        groups_sound(w, g),
    ensures
        forall|k: int| 0 <= k < all_pairs(edges, g, ts).len() ==> {
            let p = #[trigger] all_pairs(edges, g, ts)[k];
            &&& p.0 < w.len()
            &&& p.1 < w.len()
            &&& w[p.0 as int].task_id < w[p.1 as int].task_id
            &&& unordered(edges, p.0, p.1)
        },
    decreases ts.len(),
{
    if ts.len() > 0 {
        let prev = ts.drop_last();
        lemma_all_pairs(edges, w, g, prev);
        lemma_task_pairs(edges, w, g, ts.last(), g.order);
        let a0 = all_pairs(edges, g, prev);
        let a = all_pairs(edges, g, ts);
        let tp = task_pairs(edges, g, ts.last(), g.order);
        assert forall|k: int| 0 <= k < a.len() implies {
            let p = #[trigger] a[k];
            &&& p.0 < w.len()
            &&& p.1 < w.len()
            &&& w[p.0 as int].task_id < w[p.1 as int].task_id
            &&& unordered(edges, p.0, p.1)
        } by {
            if k < a0.len() {
                assert(a[k] == a0[k]);
            } else {
                assert(a[k] == tp[k - a0.len()]);
            }
        }
    }
}

proof fn lemma_kept_len(events: Seq<Event>, task: Option<u32>, lowered: Option<Seq<char>>)
    ensures
        kept_events(events, task, lowered).len() <= events.len(),
    decreases events.len(),
{
    if events.len() > 0 {
        lemma_kept_len(events.drop_last(), task, lowered);
    }
}

/// Every happens-before edge of an analysis leads from an earlier timeline
/// entry to a later one.
pub proof fn law_edges_go_forward(
    events: Seq<Event>,
    seed: u64,
    strategy: u8,
    task: Option<u32>,
    lowered: Option<Seq<char>>,
    races: bool,
    liveness: bool,
)
    requires
        events.len() < usize::MAX,
    ensures
        forward_below(
            analysis_of(events, seed, strategy, task, lowered, races, liveness).hb_edges,
            analysis_of(events, seed, strategy, task, lowered, races, liveness).timeline.len(),
        ),
{
    let kept = kept_events(events, task, lowered);
    lemma_kept_len(events, task, lowered);
    lemma_hb_forward(kept_seq(kept));
}

/// Every concurrent pair of an analysis joins an entry of a lower-numbered
/// task to an entry of a higher-numbered one, neither of which happened
/// before the other.
pub proof fn law_concurrent_pairs_unordered(
    events: Seq<Event>,
    seed: u64,
    strategy: u8,
    task: Option<u32>,
    lowered: Option<Seq<char>>,
    races: bool,
    liveness: bool,
    k: int,
)
    requires
        events.len() < usize::MAX,
        0 <= k < analysis_of(events, seed, strategy, task, lowered, races, liveness).concurrent_pairs.len(),
    ensures
        ({
            let a = analysis_of(events, seed, strategy, task, lowered, races, liveness);
            let p = a.concurrent_pairs[k];
            &&& p.0 < a.timeline.len()
            &&& p.1 < a.timeline.len()
            &&& a.timeline[p.0 as int].task_id < a.timeline[p.1 as int].task_id
            &&& unordered(a.hb_edges, p.0, p.1)
        }),
{
    let kept = kept_events(events, task, lowered);
    lemma_kept_len(events, task, lowered);
    let es = kept_seq(kept);
    let w = pair_window(es);
    let g = grouped(w);
    lemma_grouped_sound(w);
    lemma_all_pairs(hb(es).edges, w, g, g.order);
    let p = all_pairs(hb(es).edges, g, g.order)[k];
    assert(w[p.0 as int] == es[p.0 as int]);
    assert(w[p.1 as int] == es[p.1 as int]);
}

/// Without filters the timeline holds every event, in order.
pub proof fn law_unfiltered_keeps_every_event(events: Seq<Event>, seed: u64, strategy: u8, races: bool, liveness: bool)
    ensures
        analysis_of(events, seed, strategy, None, None, races, liveness).timeline == timeline_of(events),
{
    lemma_kept_all(events);
    assert(kept_seq(kept_events(events, None, None)) =~= events);
}

proof fn lemma_kept_all(events: Seq<Event>)
    ensures
        kept_events(events, None, None).len() == events.len(),
        forall|i: int| 0 <= i < events.len() ==> (#[trigger] kept_events(events, None, None)[i]).1 == events[i],
    decreases events.len(),
{
    if events.len() > 0 {
        lemma_kept_all(events.drop_last());
        let k0 = kept_events(events.drop_last(), None, None);
        let k = kept_events(events, None, None);
        assert forall|i: int| 0 <= i < events.len() implies (#[trigger] k[i]).1 == events[i] by {
            if i < events.len() - 1 {
                assert(k[i] == k0[i]);
            }
        }
    }
}

/// A livelock warning is only ever about a task of `order` that took more
/// than 100 yields and was not seen completing: a task seen completing
/// (marked inactive) never gets one.
pub proof fn law_completed_tasks_are_no_livelock(es: Seq<Event>, g: Groups, order: Seq<u32>, active: Map<u32, bool>)
    ensures
        forall|j: int| 0 <= j < livelock_issues(es, g, order, active).len() ==> {
            let issue = #[trigger] livelock_issues(es, g, order, active)[j];
            &&& issue.issue_type == LivenessIssueType::PotentialLivelock
            &&& issue.task_id is Some
            &&& order.contains(issue.task_id->0)
            &&& !(active.contains_key(issue.task_id->0) && !active[issue.task_id->0])
            &&& yields_at(es, positions_of(g, issue.task_id->0)) > 100
        },
    decreases order.len(),
{
    if order.len() > 0 {
        law_completed_tasks_are_no_livelock(es, g, order.drop_last(), active);
        let before = livelock_issues(es, g, order.drop_last(), active);
        let all = livelock_issues(es, g, order, active);
        assert forall|j: int| 0 <= j < all.len() implies {
            let issue = #[trigger] all[j];
            &&& issue.issue_type == LivenessIssueType::PotentialLivelock
            &&& issue.task_id is Some
            &&& order.contains(issue.task_id->0)
            &&& !(active.contains_key(issue.task_id->0) && !active[issue.task_id->0])
            &&& yields_at(es, positions_of(g, issue.task_id->0)) > 100
        } by {
            if j < before.len() {
                assert(all[j] == before[j]);
                let t = before[j].task_id->0;
                let k = choose|k: int| 0 <= k < order.drop_last().len() && order.drop_last()[k] == t;
                assert(order[k] == t);
            } else {
                assert(order[order.len() - 1] == order.last());
            }
        }
    }
}

/// Every task of `order` that took more than 100 yields and was not seen
/// completing gets a livelock warning naming it.
pub proof fn law_busy_unfinished_tasks_are_flagged(es: Seq<Event>, g: Groups, order: Seq<u32>, active: Map<u32, bool>, t: u32)
    requires
        order.contains(t),
        yields_at(es, positions_of(g, t)) > 100,
        !(active.contains_key(t) && !active[t]),
    ensures
        exists|j: int| 0 <= j < livelock_issues(es, g, order, active).len()
            && (#[trigger] livelock_issues(es, g, order, active)[j]).task_id == Some(t),
    decreases order.len(),
{
    let all = livelock_issues(es, g, order, active);
    let before = livelock_issues(es, g, order.drop_last(), active);
    if order.last() == t {
        assert(all[all.len() - 1].task_id == Some(t));
    } else {
        let k = choose|k: int| 0 <= k < order.len() && order[k] == t;
        assert(order.drop_last()[k] == t);
        law_busy_unfinished_tasks_are_flagged(es, g, order.drop_last(), active, t);
        let j = choose|j: int| 0 <= j < before.len() && (#[trigger] before[j]).task_id == Some(t);
        assert(all[j] == before[j]);
    }
}

} // verus!
