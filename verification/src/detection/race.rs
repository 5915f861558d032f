//! Data race detection using happens-before analysis.
//!
//! Tracks memory accesses and synchronization to detect concurrent
//! conflicting accesses.
use std::collections::HashSet;
use vstd::prelude::*;
use vstd::string::StringExecFns;
use crate::cluster::happens_before::{VectorClock, clock_le, clock_lt, clock_max, law_receive_after_send, tick};
use crate::util::fmt::{dec, hex, push_dec, push_hex};
use std::collections::HashMap;
use crate::{EventId, NodeId, TaskId};

verus! {

broadcast use vstd::std_specs::hash::group_hash_axioms;

/// Type of memory access.
#[derive(Debug, Clone, Copy, PartialEq, Eq, Hash, Structural)]
pub enum AccessType {
    Read,
    Write,
}

/// What the detector knows of an access.
pub struct AccessView {
    pub id: EventId,
    pub task: TaskId,
    pub location: u64,
    pub access_type: AccessType,
    pub clock: Map<NodeId, u64>,
    pub source_loc: Option<Seq<char>>,
}

/// A memory access event.
pub struct MemoryAccess {
    /// Unique ID for this access.
    pub id: EventId,
    /// Task that performed the access.
    pub task: TaskId,
    /// Memory location (address or variable name hash).
    pub location: u64,
    /// Type of access.
    pub access_type: AccessType,
    /// Vector clock at time of access.
    pub clock: VectorClock,
    /// Source location for reporting.
    pub source_loc: Option<String>,
}

impl View for MemoryAccess {
    type V = AccessView;

    open spec fn view(&self) -> AccessView {
        AccessView {
            id: self.id,
            task: self.task,
            location: self.location,
            access_type: self.access_type,
            clock: self.clock@,
            source_loc: match self.source_loc {
                Some(s) => Some(s@),
                None => None,
            },
        }
    }
}

impl Clone for MemoryAccess {
    fn clone(&self) -> (r: Self)
        ensures
            r@ == self@,
    {
        let source_loc = match &self.source_loc {
            Some(s) => Some(s.clone()),
            None => None,
        };
        MemoryAccess {
            id: self.id,
            task: self.task,
            location: self.location,
            access_type: self.access_type,
            clock: self.clock.clone(),
            source_loc,
        }
    }
}

/// What the detector knows of a race.
pub struct RaceView {
    pub access1: AccessView,
    pub access2: AccessView,
    pub description: Seq<char>,
}

/// A detected data race.
pub struct DataRace {
    /// First access in the race.
    pub access1: MemoryAccess,
    /// Second access in the race.
    pub access2: MemoryAccess,
    /// Description of the race.
    pub description: String,
}

impl View for DataRace {
    type V = RaceView;

    open spec fn view(&self) -> RaceView {
        RaceView { access1: self.access1@, access2: self.access2@, description: self.description@ }
    }
}

impl Clone for DataRace {
    fn clone(&self) -> (r: Self)
        ensures
            r@ == self@,
    {
        DataRace { access1: self.access1.clone(), access2: self.access2.clone(), description: self.description.clone() }
    }
}

impl DataRace {
    /// Whether either access is a write.
    pub fn has_write(&self) -> (r: bool)
        ensures
            r == (self.access1.access_type == AccessType::Write || self.access2.access_type == AccessType::Write),
    {
        self.access1.access_type == AccessType::Write || self.access2.access_type == AccessType::Write
    }

    /// The memory location involved (that of the first access).
    pub fn location(&self) -> (r: u64)
        ensures
            r == self.access1.location,
    {
        self.access1.location
    }
}

/// "read" or "write".
pub open spec fn kind_name(t: AccessType) -> Seq<char> {
    if t == AccessType::Write { "write"@ } else { "read"@ }
}

/// The description of a race between an earlier access and a new one.
pub open spec fn race_description(location: u64, t1: AccessType, task1: TaskId, t2: AccessType, task2: TaskId) -> Seq<char> {
    "Data race on location 0x"@ + hex(location as nat) + ": "@ + kind_name(t1) + " by task "@ + dec(task1 as nat)
        + " and "@ + kind_name(t2) + " by task "@ + dec(task2 as nat) + " are concurrent"@
}

/// An earlier access `prev` races with a new access by `task` of type `t`
/// whose clock is `clock`: another task, neither clock before the other,
/// and at least one write.
pub open spec fn conflicts(prev: AccessView, task: TaskId, t: AccessType, clock: Map<NodeId, u64>) -> bool {
    &&& prev.task != task
    &&& !clock_lt(prev.clock, clock)
    &&& !clock_lt(clock, prev.clock)
    &&& (prev.access_type == AccessType::Write || t == AccessType::Write)
}

/// The history of a location after recording `a`: `a` is added last, and
/// the oldest access is dropped when there are then more than `max`.
pub open spec fn trimmed(h: Seq<AccessView>, a: AccessView, max: usize) -> Seq<AccessView> {
    if h.len() + 1 > max { h.push(a).drop_first() } else { h.push(a) }
}

/// Recording keeps the newest accesses: with a history no longer than
/// `max`, the history after recording `a` is the last `min(len + 1, max)`
/// accesses of the history followed by `a`, so only the oldest access goes
/// when the limit is reached.
pub proof fn law_history_keeps_newest(h: Seq<AccessView>, a: AccessView, max: usize)
    requires
        h.len() <= max,
    ensures
        trimmed(h, a, max).len() == if h.len() < max { h.len() + 1 } else { max as nat },
        forall|i: int| 0 <= i < trimmed(h, a, max).len() ==> #[trigger] trimmed(h, a, max)[i]
            == h.push(a)[h.len() + 1 - trimmed(h, a, max).len() + i],
        max >= 1 ==> trimmed(h, a, max).last() == a,
{
    let p = h.push(a);
    let r = trimmed(h, a, max);
    assert forall|i: int| 0 <= i < r.len() implies #[trigger] r[i] == p[h.len() + 1 - r.len() + i] by {
        if h.len() + 1 > max {
            assert(r[i] == p[i + 1]);
        }
    }
    if max >= 1 {
        assert(r[r.len() - 1] == p[h.len() as int]);
    }
}

/// Every access in `h` is of location `l`.
pub open spec fn all_at(h: Seq<AccessView>, l: u64) -> bool {
    forall|i: int| 0 <= i < h.len() ==> (#[trigger] h[i]).location == l
}

/// Adding an access of `l` to a history of `l` keeps it a history of `l`.
pub proof fn lemma_trimmed_at(h: Seq<AccessView>, a: AccessView, max: usize, l: u64)
    requires
        all_at(h, l),
        a.location == l,
    ensures
        all_at(trimmed(h, a, max), l),
{
    let p = h.push(a);
    assert(all_at(p, l)) by {
        assert forall|i: int| 0 <= i < p.len() implies (#[trigger] p[i]).location == l by {
            if i < h.len() {
                assert(p[i] == h[i]);
            }
        }
    }
    if h.len() + 1 > max {
        assert forall|i: int| 0 <= i < p.drop_first().len() implies (#[trigger] p.drop_first()[i]).location == l by {
            assert(p.drop_first()[i] == p[i + 1]);
        }
    }
}

/// Detector for data races.
pub struct RaceDetector {
    /// Recent accesses per memory location (a bounded history).
    accesses: HashMap<u64, Vec<MemoryAccess>>,
    /// Maximum history size per location.
    max_history: usize,
    /// Current vector clock per task.
    task_clocks: HashMap<TaskId, VectorClock>,
    /// Next event ID.
    next_id: EventId,
    /// Detected races.
    races: Vec<DataRace>,
    /// Locations to ignore (e.g., known-safe atomics).
    ignore_locations: HashSet<u64>,
}

/// No location keeps more than `max` accesses.
closed spec fn histories_within(m: Map<u64, Vec<MemoryAccess>>, max: usize) -> bool {
    forall|l: u64| #[trigger] m.contains_key(l) ==> m[l]@.len() <= max
}

/// Every access kept under a location lies at that location.
closed spec fn accesses_located(m: Map<u64, Vec<MemoryAccess>>) -> bool {
    forall|l: u64| #[trigger] m.contains_key(l) ==> all_at(m[l]@.map_values(|x: MemoryAccess| x@), l)
}

impl RaceDetector {
    /// Every kept access lies at the location it is kept under.
    #[verifier::type_invariant]
    closed spec fn inv(self) -> bool {
        &&& accesses_located(self.accesses@)
        &&& histories_within(self.accesses@, self.max_history)
    }

    /// The recorded history of each location that has one.
    pub closed spec fn history(&self) -> Map<u64, Seq<AccessView>> {
        self.accesses@.map_values(|v: Vec<MemoryAccess>| v@.map_values(|a: MemoryAccess| a@))
    }

    /// A location's recorded accesses, oldest first.
    pub open spec fn history_of(&self, location: u64) -> Seq<AccessView> {
        if self.history().contains_key(location) { self.history()[location] } else { Seq::empty() }
    }

    /// Each task's current clock.
    pub closed spec fn clocks(&self) -> Map<TaskId, Map<NodeId, u64>> {
        self.task_clocks@.map_values(|c: VectorClock| c@)
    }

    /// Each location's kept accesses are accesses of that location.
    pub open spec fn located(&self) -> bool {
        forall|l: u64| #[trigger] self.history().contains_key(l) ==> all_at(self.history()[l], l)
    }

    /// A task's current clock (empty for a task never seen).
    pub open spec fn clock_of(&self, task: TaskId) -> Map<NodeId, u64> {
        if self.clocks().contains_key(task) { self.clocks()[task] } else { Map::empty() }
    }

    /// The races found so far, oldest first.
    pub closed spec fn found(&self) -> Seq<RaceView> {
        self.races@.map_values(|r: DataRace| r@)
    }

    /// The id the next access gets.
    pub closed spec fn next_event_id(&self) -> EventId {
        self.next_id
    }

    /// How many accesses are kept per location.
    pub closed spec fn history_limit(&self) -> usize {
        self.max_history
    }

    /// Locations whose accesses are not checked.
    pub closed spec fn ignored(&self) -> Set<u64> {
        self.ignore_locations@
    }

    /// Create a new race detector keeping 100 accesses per location.
    pub fn new() -> (r: Self)
        ensures
            r.history() == Map::<u64, Seq<AccessView>>::empty(),
            r.clocks() == Map::<TaskId, Map<NodeId, u64>>::empty(),
            r.found() == Seq::<RaceView>::empty(),
            r.next_event_id() == 0,
            r.history_limit() == 100,
            r.ignored() == Set::<u64>::empty(),
            r.located(),
    {
        let r = RaceDetector {
            accesses: HashMap::new(),
            max_history: 100,
            task_clocks: HashMap::new(),
            next_id: 0,
            races: Vec::new(),
            ignore_locations: HashSet::new(),
        };
        proof {
            assert(r.history() =~= Map::<u64, Seq<AccessView>>::empty());
            assert(r.clocks() =~= Map::<TaskId, Map<NodeId, u64>>::empty());
            assert(r.found() =~= Seq::<RaceView>::empty());
            assert(r.ignored() =~= Set::<u64>::empty());
        }
        r
    }

    /// Create with a custom history size.
    pub fn with_history_size(max_history: usize) -> (r: Self)
        ensures
            r.history() == Map::<u64, Seq<AccessView>>::empty(),
            r.clocks() == Map::<TaskId, Map<NodeId, u64>>::empty(),
            r.found() == Seq::<RaceView>::empty(),
            r.next_event_id() == 0,
            r.history_limit() == max_history,
            r.ignored() == Set::<u64>::empty(),
            r.located(),
    {
        let r = RaceDetector {
            accesses: HashMap::new(),
            max_history,
            task_clocks: HashMap::new(),
            next_id: 0,
            races: Vec::new(),
            ignore_locations: HashSet::new(),
        };
        proof {
            assert(r.history() =~= Map::<u64, Seq<AccessView>>::empty());
            assert(r.clocks() =~= Map::<TaskId, Map<NodeId, u64>>::empty());
            assert(r.found() =~= Seq::<RaceView>::empty());
            assert(r.ignored() =~= Set::<u64>::empty());
        }
        r
    }

    /// The number of accesses kept per location.
    pub fn max_history(&self) -> (r: usize)
        ensures
            r == self.history_limit(),
    {
        self.max_history
    }

    /// Add a location to ignore (e.g., atomic variables).
    pub fn ignore_location(&mut self, location: u64)
        ensures
            final(self).ignored() == old(self).ignored().insert(location),
            final(self).history() == old(self).history(),
            final(self).clocks() == old(self).clocks(),
            final(self).found() == old(self).found(),
            final(self).next_event_id() == old(self).next_event_id(),
            final(self).history_limit() == old(self).history_limit(),
    {
        proof {
            use_type_invariant(&*self);
        }
        let mut ignored: HashSet<u64> = HashSet::new();
        std::mem::swap(&mut ignored, &mut self.ignore_locations);
        ignored.insert(location);
        self.ignore_locations = ignored;
    }

    /// Record a synchronization point (e.g., lock acquire): `task`'s clock
    /// takes the point-wise maximum with `from_task`'s, creating a
    /// happens-before edge from the release to this acquire.
    pub fn synchronize(&mut self, task: TaskId, from_task: TaskId)
        ensures
            final(self).clocks() == old(self).clocks().insert(task, clock_max(old(self).clock_of(task), old(self).clock_of(from_task))),
            final(self).history() == old(self).history(),
            final(self).found() == old(self).found(),
            final(self).next_event_id() == old(self).next_event_id(),
            final(self).history_limit() == old(self).history_limit(),
            final(self).ignored() == old(self).ignored(),
    {
        proof {
            use_type_invariant(&*self);
        }
        let from_clock = match self.task_clocks.get(&from_task) {
            Some(c) => c.clone(),
            None => VectorClock::new(),
        };
        let mut clocks: HashMap<TaskId, VectorClock> = HashMap::new();
        std::mem::swap(&mut clocks, &mut self.task_clocks);
        let mut clock = match clocks.remove(&task) {
            Some(c) => c,
            None => VectorClock::new(),
        };
        clock.merge(&from_clock);
        clocks.insert(task, clock);
        self.task_clocks = clocks;
        proof {
            assert(self.clocks() =~= old(self).clocks().insert(task, clock_max(old(self).clock_of(task), old(self).clock_of(from_task))));
        }
    }


    /// The clock a task's next access carries: its current clock with its
    /// own entry one higher.
    pub open spec fn next_clock(&self, task: TaskId) -> Map<NodeId, u64> {
        self.clock_of(task).insert(task, (tick(self.clock_of(task), task) + 1) as u64)
    }

    /// Record a memory access. Unless the location is ignored, the task's
    /// clock ticks, the access is added to the location's history, and the
    /// first earlier access (oldest first) that races with it, if any, is
    /// reported and kept.
    pub fn record_access(
        &mut self,
        task: TaskId,
        location: u64,
        access_type: AccessType,
        source_loc: Option<String>,
    ) -> (r: Option<DataRace>)
        requires
            old(self).ignored().contains(location) || old(self).next_event_id() < u64::MAX,
            old(self).ignored().contains(location) || tick(old(self).clock_of(task), task) < u64::MAX,
        ensures
            old(self).ignored().contains(location) ==> r is None && final(self).history() == old(self).history()
                && final(self).clocks() == old(self).clocks() && final(self).found() == old(self).found()
                && final(self).next_event_id() == old(self).next_event_id(),
            !old(self).ignored().contains(location) ==> ({
                let c = old(self).next_clock(task);
                let a = AccessView {
                    id: old(self).next_event_id(),
                    task,
                    location,
                    access_type,
                    clock: c,
                    source_loc: match source_loc { Some(s) => Some(s@), None => None },
                };
                let h = old(self).history_of(location);
                &&& final(self).clocks() == old(self).clocks().insert(task, c)
                &&& final(self).history() == old(self).history().insert(location, trimmed(h, a, old(self).history_limit()))
                &&& final(self).history_of(location).len() == if h.len() < old(self).history_limit() {
                    h.len() + 1
                } else {
                    old(self).history_limit() as nat
                }
                &&& final(self).next_event_id() == old(self).next_event_id() + 1
                &&& (r is None <==> forall|i: int| 0 <= i < h.len() ==> !conflicts(#[trigger] h[i], task, access_type, c))
                &&& (r is None ==> final(self).found() == old(self).found())
                &&& (r matches Some(race) ==> exists|i: int| 0 <= i < h.len()
                    && conflicts(#[trigger] h[i], task, access_type, c)
                    && (forall|j: int| 0 <= j < i ==> !conflicts(#[trigger] h[j], task, access_type, c))
                    && race@ == (RaceView {
                        access1: h[i],
                        access2: a,
                        description: race_description(location, h[i].access_type, h[i].task, access_type, task),
                    })
                    && final(self).found() == old(self).found().push(race@))
            }),
            final(self).history_limit() == old(self).history_limit(),
            final(self).ignored() == old(self).ignored(),
            final(self).located(),
            (r matches Some(race) ==> race@.access1.location == location
                && race@.access2.location == location),
    {
        proof {
            use_type_invariant(&*self);
        }
        if self.is_ignored(location) {
            return None;
        }
        let mut clocks: HashMap<TaskId, VectorClock> = HashMap::new();
        std::mem::swap(&mut clocks, &mut self.task_clocks);
        let mut clock = match clocks.remove(&task) {
            Some(c) => c,
            None => VectorClock::new(),
        };
        clock.increment(task);
        let access_clock = clock.clone();
        clocks.insert(task, clock);
        self.task_clocks = clocks;
        let access = MemoryAccess {
            id: self.next_id,
            task,
            location,
            access_type,
            clock: access_clock,
            source_loc,
        };
        self.next_id = self.next_id + 1;
        let mut accesses: HashMap<u64, Vec<MemoryAccess>> = HashMap::new();
        std::mem::swap(&mut accesses, &mut self.accesses);
        let ghost before_all = accesses@;
        let mut history = match accesses.remove(&location) {
            Some(h) => h,
            None => Vec::new(),
        };
        let ghost h = history@.map_values(|a: MemoryAccess| a@);
        proof {
            assert(h =~= old(self).history_of(location));
            assert(self.clocks() =~= old(self).clocks().insert(task, old(self).next_clock(task)));
        }
        let ghost c = access.clock@;
        let mut race: Option<DataRace> = None;
        match first_conflict(&history, task, access_type, &access.clock) {
            Some(i) => {
                let prev = &history[i];
                let description = describe_race(location, prev.access_type, prev.task, access_type, task);
                let data_race = DataRace { access1: prev.clone(), access2: access.clone(), description };
                let mut races: Vec<DataRace> = Vec::new();
                std::mem::swap(&mut races, &mut self.races);
                races.push(data_race.clone());
                self.races = races;
                race = Some(data_race);
                proof {
                    assert(h[i as int] == prev@);
                    assert(self.found() =~= old(self).found().push(race->0@));
                }
            },
            None => {
                proof {
                    assert(self.found() =~= old(self).found());
                }
            },
        }
        let ghost a = access@;
        let ghost old_accesses = accesses@;
        history.push(access);
        if history.len() > self.max_history {
            history.remove(0);
        }
        let ghost hv = history@;
        proof {
            assert(hv.map_values(|x: MemoryAccess| x@) =~= trimmed(h, a, self.max_history));
        }
        accesses.insert(location, history);
        proof {
            assert(all_at(h, location));
            lemma_trimmed_at(h, a, old(self).history_limit(), location);
            assert(h.len() <= old(self).history_limit()) by {
                if before_all.contains_key(location) {
                    assert(before_all[location]@.len() <= self.max_history);
                }
            }
            law_history_keeps_newest(h, a, old(self).history_limit());
            assert(accesses@.contains_key(location) && accesses@[location]@ == hv);
            assert forall|l: u64| #[trigger] accesses@.contains_key(l) implies accesses@[l]@.len() <= self.max_history by {
                if l != location {
                    assert(before_all.contains_key(l));
                }
            }
            assert forall|l: u64| #[trigger] accesses@.contains_key(l)
                implies all_at(accesses@[l]@.map_values(|x: MemoryAccess| x@), l) by {
                if l != location {
                    assert(before_all.contains_key(l));
                    assert(old(self).history().contains_key(l));
                    assert(old(self).history()[l] == before_all[l]@.map_values(|x: MemoryAccess| x@));
                }
            }
        }
        self.accesses = accesses;
        proof {
            assert(self.accesses@.contains_key(location) && self.accesses@[location]@ == hv);
            assert(forall|l: u64| l != location ==> (#[trigger] self.accesses@.contains_key(l) <==> old_accesses.contains_key(l)));
            assert(forall|l: u64| l != location && #[trigger] self.accesses@.contains_key(l) ==> self.accesses@[l] == old_accesses[l]);
            assert(old_accesses == old(self).accesses@.remove(location));
            assert(self.history() =~= old(self).history().insert(location, trimmed(h, a, old(self).history_limit())));
            assert(all_at(h, location));
            lemma_trimmed_at(h, a, old(self).history_limit(), location);
            assert forall|l: u64| #[trigger] self.history().contains_key(l) implies all_at(self.history()[l], l) by {
                if l != location {
                    assert(old(self).history().contains_key(l));
                }
            }
        }
        race
    }

    /// Record a read access.
    pub fn read(&mut self, task: TaskId, location: u64) -> (r: Option<DataRace>)
        requires
            old(self).ignored().contains(location) || old(self).next_event_id() < u64::MAX,
            old(self).ignored().contains(location) || tick(old(self).clock_of(task), task) < u64::MAX,
        ensures
            old(self).ignored().contains(location) ==> r is None && final(self).history() == old(self).history()
                && final(self).clocks() == old(self).clocks() && final(self).found() == old(self).found()
                && final(self).next_event_id() == old(self).next_event_id(),
            !old(self).ignored().contains(location) ==> ({
                let c = old(self).next_clock(task);
                let a = AccessView { id: old(self).next_event_id(), task, location, access_type: AccessType::Read, clock: c, source_loc: None };
                let h = old(self).history_of(location);
                &&& final(self).clocks() == old(self).clocks().insert(task, c)
                &&& final(self).history() == old(self).history().insert(location, trimmed(h, a, old(self).history_limit()))
                &&& final(self).history_of(location).len() == if h.len() < old(self).history_limit() {
                    h.len() + 1
                } else {
                    old(self).history_limit() as nat
                }
                &&& final(self).next_event_id() == old(self).next_event_id() + 1
                &&& (r is None <==> forall|i: int| 0 <= i < h.len() ==> !conflicts(#[trigger] h[i], task, AccessType::Read, c))
                &&& (r is None ==> final(self).found() == old(self).found())
                &&& (r matches Some(race) ==> exists|i: int| 0 <= i < h.len()
                    && conflicts(#[trigger] h[i], task, AccessType::Read, c)
                    && (forall|j: int| 0 <= j < i ==> !conflicts(#[trigger] h[j], task, AccessType::Read, c))
                    && race@ == (RaceView {
                        access1: h[i],
                        access2: a,
                        description: race_description(location, h[i].access_type, h[i].task, AccessType::Read, task),
                    })
                    && final(self).found() == old(self).found().push(race@))
            }),
            final(self).history_limit() == old(self).history_limit(),
            final(self).ignored() == old(self).ignored(),
            final(self).located(),
            (r matches Some(race) ==> race@.access1.location == location
                && race@.access2.location == location),
    {
        self.record_access(task, location, AccessType::Read, None)
    }

    /// Record a write access.
    pub fn write(&mut self, task: TaskId, location: u64) -> (r: Option<DataRace>)
        requires
            old(self).ignored().contains(location) || old(self).next_event_id() < u64::MAX,
            old(self).ignored().contains(location) || tick(old(self).clock_of(task), task) < u64::MAX,
        ensures
            old(self).ignored().contains(location) ==> r is None && final(self).history() == old(self).history()
                && final(self).clocks() == old(self).clocks() && final(self).found() == old(self).found()
                && final(self).next_event_id() == old(self).next_event_id(),
            !old(self).ignored().contains(location) ==> ({
                let c = old(self).next_clock(task);
                let a = AccessView { id: old(self).next_event_id(), task, location, access_type: AccessType::Write, clock: c, source_loc: None };
                let h = old(self).history_of(location);
                &&& final(self).clocks() == old(self).clocks().insert(task, c)
                &&& final(self).history() == old(self).history().insert(location, trimmed(h, a, old(self).history_limit()))
                &&& final(self).history_of(location).len() == if h.len() < old(self).history_limit() {
                    h.len() + 1
                } else {
                    old(self).history_limit() as nat
                }
                &&& final(self).next_event_id() == old(self).next_event_id() + 1
                &&& (r is None <==> forall|i: int| 0 <= i < h.len() ==> !conflicts(#[trigger] h[i], task, AccessType::Write, c))
                &&& (r is None ==> final(self).found() == old(self).found())
                &&& (r matches Some(race) ==> exists|i: int| 0 <= i < h.len()
                    && conflicts(#[trigger] h[i], task, AccessType::Write, c)
                    && (forall|j: int| 0 <= j < i ==> !conflicts(#[trigger] h[j], task, AccessType::Write, c))
                    && race@ == (RaceView {
                        access1: h[i],
                        access2: a,
                        description: race_description(location, h[i].access_type, h[i].task, AccessType::Write, task),
                    })
                    && final(self).found() == old(self).found().push(race@))
            }),
            final(self).history_limit() == old(self).history_limit(),
            final(self).ignored() == old(self).ignored(),
            final(self).located(),
            (r matches Some(race) ==> race@.access1.location == location
                && race@.access2.location == location),
    {
        self.record_access(task, location, AccessType::Write, None)
    }

    /// All detected races, oldest first.
    pub fn races(&self) -> (r: &[DataRace])
        ensures
            r@.map_values(|x: DataRace| x@) == self.found(),
    {
        self.races.as_slice()
    }

    /// The number of races detected.
    pub fn race_count(&self) -> (r: usize)
        ensures
            r == self.found().len(),
    {
        self.races.len()
    }

    /// Whether any race was detected.
    pub fn has_races(&self) -> (r: bool)
        ensures
            r == (self.found().len() > 0),
    {
        self.races.len() > 0
    }

    /// Clear accesses, clocks, races and the event counter. Ignored
    /// locations and the history size stay.
    pub fn reset(&mut self)
        ensures
            final(self).history() == Map::<u64, Seq<AccessView>>::empty(),
            final(self).clocks() == Map::<TaskId, Map<NodeId, u64>>::empty(),
            final(self).found() == Seq::<RaceView>::empty(),
            final(self).next_event_id() == 0,
            final(self).history_limit() == old(self).history_limit(),
            final(self).ignored() == old(self).ignored(),
            final(self).located(),
    {
        self.accesses = HashMap::new();
        self.task_clocks = HashMap::new();
        self.races = Vec::new();
        self.next_id = 0;
        proof {
            assert(self.history() =~= Map::<u64, Seq<AccessView>>::empty());
            assert(self.clocks() =~= Map::<TaskId, Map<NodeId, u64>>::empty());
            assert(self.found() =~= Seq::<RaceView>::empty());
        }
    }

    /// The distinct locations of the races found.
    pub fn race_locations(&self) -> (r: HashSet<u64>)
        ensures
            forall|l: u64| r@.contains(l) <==> exists|i: int| 0 <= i < self.found().len() && #[trigger] self.found()[i].access1.location == l,
    {
        let mut set: HashSet<u64> = HashSet::new();
        let mut i: usize = 0;
        while i < self.races.len()
            invariant
                0 <= i <= self.races@.len(),
                forall|l: u64| set@.contains(l) <==> exists|j: int| 0 <= j < i && #[trigger] self.races@[j].access1.location == l,
            decreases self.races@.len() - i,
        {
            set.insert(self.races[i].location());
            proof {
                assert forall|l: u64| set@.contains(l) <==> exists|j: int| 0 <= j < i + 1 && #[trigger] self.races@[j].access1.location == l by {
                    if exists|j: int| 0 <= j < i + 1 && #[trigger] self.races@[j].access1.location == l {
                        let j = choose|j: int| 0 <= j < i + 1 && #[trigger] self.races@[j].access1.location == l;
                        if j < i {
                            assert(exists|j2: int| 0 <= j2 < i && #[trigger] self.races@[j2].access1.location == l);
                        }
                    }
                }
            }
            i = i + 1;
        }
        proof {
            assert forall|l: u64| set@.contains(l) <==> exists|j: int| 0 <= j < self.found().len() && #[trigger] self.found()[j].access1.location == l by {
                if set@.contains(l) {
                    let j = choose|j: int| 0 <= j < self.races@.len() && #[trigger] self.races@[j].access1.location == l;
                    assert(self.found()[j].access1.location == l);
                }
                if exists|j: int| 0 <= j < self.found().len() && #[trigger] self.found()[j].access1.location == l {
                    let j = choose|j: int| 0 <= j < self.found().len() && #[trigger] self.found()[j].access1.location == l;
                    assert(self.races@[j].access1.location == l);
                }
            }
        }
        set
    }

    /// Whether a location is ignored.
    fn is_ignored(&self, location: u64) -> (r: bool)
        ensures
            r == self.ignored().contains(location),
    {
        self.ignore_locations.contains(&location)
    }
}

/// Where the first access in `history` that races with a new access by
/// `task` of type `t` and clock `clock` stands, if any does.
fn first_conflict(history: &Vec<MemoryAccess>, task: TaskId, t: AccessType, clock: &VectorClock) -> (r: Option<usize>)
    ensures
        r is None <==> forall|j: int| 0 <= j < history@.len() ==> !conflicts(#[trigger] history@[j]@, task, t, clock@),
        r matches Some(i) ==> i < history@.len() && conflicts(history@[i as int]@, task, t, clock@)
            && forall|j: int| 0 <= j < i ==> !conflicts(#[trigger] history@[j]@, task, t, clock@),
{
    let mut i: usize = 0;
    while i < history.len()
        invariant
            0 <= i <= history@.len(),
            forall|j: int| 0 <= j < i ==> !conflicts(#[trigger] history@[j]@, task, t, clock@),
        decreases history@.len() - i,
    {
        let prev = &history[i];
        if prev.task != task {
            let hb1 = prev.clock.happened_before(clock);
            let hb2 = clock.happened_before(&prev.clock);
            if !hb1 && !hb2 && (prev.access_type == AccessType::Write || t == AccessType::Write) {
                proof {
                    assert(conflicts(history@[i as int]@, task, t, clock@));
                }
                return Some(i);
            }
        }
        i = i + 1;
    }
    None
}

/// "read" or "write".
fn kind_str(t: AccessType) -> (r: &'static str)
    ensures
        r@ == kind_name(t),
{
    match t {
        AccessType::Write => "write",
        AccessType::Read => "read",
    }
}

/// The text reported for a race.
fn describe_race(location: u64, t1: AccessType, task1: TaskId, t2: AccessType, task2: TaskId) -> (r: String)
    ensures
        r@ == race_description(location, t1, task1, t2, task2),
{
    let mut d = String::from_str("Data race on location 0x");
    push_hex(&mut d, location);
    d.append(": ");
    d.append(kind_str(t1));
    d.append(" by task ");
    push_dec(&mut d, task1 as u64);
    d.append(" and ");
    d.append(kind_str(t2));
    d.append(" by task ");
    push_dec(&mut d, task2 as u64);
    d.append(" are concurrent");
    d
}

impl Default for RaceDetector {
    fn default() -> (r: Self)
        ensures
            r.history() == Map::<u64, Seq<AccessView>>::empty(),
            r.clocks() == Map::<TaskId, Map<NodeId, u64>>::empty(),
            r.found() == Seq::<RaceView>::empty(),
            r.next_event_id() == 0,
            r.history_limit() == 100,
            r.ignored() == Set::<u64>::empty(),
    {
        RaceDetector::new()
    }
}

/// Synchronizing orders accesses: if an earlier access's clock is at most
/// the clock of the task synchronized from, the next access of the task that
/// synchronized happened after it, so the two never race.
pub proof fn law_synchronized_access_does_not_race(
    prev: AccessView,
    task_clock: Map<NodeId, u64>,
    from_clock: Map<NodeId, u64>,
    task: TaskId,
    t: AccessType,
)
    requires
        clock_le(prev.clock, from_clock),
        tick(clock_max(task_clock, from_clock), task) < u64::MAX,
    ensures
        !conflicts(
            prev,
            task,
            t,
            clock_max(task_clock, from_clock).insert(task, (tick(clock_max(task_clock, from_clock), task) + 1) as u64),
        ),
{
    let m = clock_max(task_clock, from_clock);
    let c = m.insert(task, (tick(m, task) + 1) as u64);
    law_receive_after_send(task_clock, from_clock, task);
    let n = choose|n: NodeId| #[trigger] tick(from_clock, n) < tick(c, n);
    assert forall|k: NodeId| #[trigger] tick(prev.clock, k) <= tick(c, k) by {
        assert(tick(prev.clock, k) <= tick(from_clock, k));
        assert(tick(from_clock, k) <= tick(c, k));
    }
    assert(tick(prev.clock, n) < tick(c, n));
    assert(clock_lt(prev.clock, c));
}

/// Accesses of one task never race with each other, and two reads never race.
pub proof fn law_no_race_same_task_or_reads(prev: AccessView, task: TaskId, t: AccessType, clock: Map<NodeId, u64>)
    ensures
        prev.task == task ==> !conflicts(prev, task, t, clock),
        prev.access_type == AccessType::Read && t == AccessType::Read ==> !conflicts(prev, task, t, clock),
{
}

} // verus!
