//! Core scheduler for managing task execution order.
use vstd::prelude::*;
use vstd::slice::slice_to_vec;
use crate::runtime::task::BlockReason;
use crate::scheduler::context_bound::{preemption_points_ok, ContextBoundStrategy};
use crate::scheduler::dfs::DFSStrategy;
use crate::scheduler::pct::{drawn_points, PCTStrategy};
use crate::scheduler::random::RandomStrategy;
use crate::scheduler::strategy::{FifoStrategy, ScheduleStrategy, Strategy};
use crate::util::ids::{contains_id, lemma_without_unique, remove_id, without_id};
use crate::util::seq_facts::lemma_push_to_set;
use crate::util::rng::seeded;
use std::collections::HashMap;
use crate::TaskId;

verus! {

broadcast use vstd::std_specs::hash::group_hash_axioms;

/// The strategy a scheduler runs, one of the built-in ones.
pub enum StrategyImpl {
    Fifo(FifoStrategy),
    Random(RandomStrategy),
    DepthFirst(DFSStrategy),
    PCT(PCTStrategy),
    ContextBound(ContextBoundStrategy),
}

/// What `reset` leaves of a strategy: the same kind, started over as that
/// kind's own `reset` states.
pub open spec fn reset_from(before: StrategyImpl, after: StrategyImpl) -> bool {
    match (before, after) {
        (StrategyImpl::Fifo(_), StrategyImpl::Fifo(_)) => true,
        (StrategyImpl::Random(a), StrategyImpl::Random(b)) => {
            &&& b.seed_value() == a.seed_value()
            &&& b.generator() == seeded(a.seed_value())
        },
        (StrategyImpl::DepthFirst(a), StrategyImpl::DepthFirst(b)) => {
            &&& b.depth() == 0
            &&& b.stack() == a.stack()
            &&& b.depth_limit() == a.depth_limit()
            &&& b.explored() == a.explored()
            &&& b.done() == a.done()
        },
        (StrategyImpl::PCT(a), StrategyImpl::PCT(b)) => {
            let d = a.depth();
            let (pts, g) = drawn_points(
                seeded(a.seed_value()),
                if d > 0 { (d - 1) as nat } else { 0 },
                a.step_limit(),
            );
            &&& (a.depth() <= 1 || a.step_limit() >= 1 ==> b.points() == pts && b.generator() == g)
            &&& b.seed_value() == a.seed_value()
            &&& b.depth() == a.depth()
            &&& b.priority_map() == Map::<TaskId, usize>::empty()
            &&& b.steps() == 0
            &&& b.next_prio() == usize::MAX
            &&& b.step_limit() == a.step_limit()
        },
        (StrategyImpl::ContextBound(a), StrategyImpl::ContextBound(b)) => {
            &&& b.wf()
            &&& b.current() is None
            &&& b.preemptions() == 0
            &&& b.passed() == 0
            &&& b.decision_count() == 0
            &&& b.generator() == seeded(a.seed_value())
            &&& b.seed_value() == a.seed_value()
            &&& b.bound() == a.bound()
            &&& preemption_points_ok(b.points(), a.seed_value(), a.bound() as nat, 1000)
        },
        _ => false,
    }
}

impl StrategyImpl {
    /// The strategy can make its next choice from `ready`.
    pub open spec fn can_select(&self, ready: Seq<TaskId>) -> bool {
        match self {
            StrategyImpl::Fifo(s) => s.can_select(ready),
            StrategyImpl::Random(s) => s.can_select(ready),
            StrategyImpl::DepthFirst(s) => s.can_select(ready),
            StrategyImpl::PCT(s) => s.can_select(ready),
            StrategyImpl::ContextBound(s) => s.can_select(ready),
        }
    }

    fn select(&mut self, ready: &[TaskId]) -> (r: TaskId)
        requires
            ready@.len() > 0,
            old(self).can_select(ready@),
        ensures
            ready@.contains(r),
            *old(self) is Fifo ==> r == ready@[0] && *final(self) is Fifo,
    {
        match self {
            StrategyImpl::Fifo(s) => s.select(ready),
            StrategyImpl::Random(s) => s.select(ready),
            StrategyImpl::DepthFirst(s) => s.select(ready),
            StrategyImpl::PCT(s) => s.select(ready),
            StrategyImpl::ContextBound(s) => s.select(ready),
        }
    }

    fn on_decision(&mut self, chosen: TaskId, ready: &[TaskId])
        ensures
            *final(self) == *old(self),
    {
        match self {
            StrategyImpl::Fifo(s) => s.on_decision(chosen, ready),
            StrategyImpl::Random(s) => s.on_decision(chosen, ready),
            StrategyImpl::DepthFirst(s) => s.on_decision(chosen, ready),
            StrategyImpl::PCT(s) => s.on_decision(chosen, ready),
            StrategyImpl::ContextBound(s) => s.on_decision(chosen, ready),
        }
    }

    fn reset(&mut self)
        ensures
            reset_from(*old(self), *final(self)),
    {
        match self {
            StrategyImpl::Fifo(s) => s.reset(),
            StrategyImpl::Random(s) => s.reset(),
            StrategyImpl::DepthFirst(s) => s.reset(),
            StrategyImpl::PCT(s) => s.reset(),
            StrategyImpl::ContextBound(s) => s.reset(),
        }
    }
}

/// The core scheduler that manages task states and selection.
pub struct Scheduler {
    /// Tasks that are ready to run, in queue order.
    ready: Vec<TaskId>,
    /// Tasks that are blocked and why.
    blocked: HashMap<TaskId, BlockReason>,
    /// All known task IDs.
    all_tasks: Vec<TaskId>,
    /// Scheduling strategy.
    strategy: StrategyImpl,
    /// Next task ID to assign.
    next_id: TaskId,
}

impl Scheduler {
    /// The ready queue, no task twice, every one known; known tasks all
    /// have ids below the next id.
    pub closed spec fn wf(&self) -> bool {
        &&& self.ready@.no_duplicates()
        &&& self.all_tasks@.no_duplicates()
        &&& forall|t: TaskId| #[trigger] self.ready@.contains(t) ==> self.all_tasks@.contains(t)
        &&& forall|t: TaskId| #[trigger] self.all_tasks@.contains(t) ==> t < self.next_id
    }

    /// Ready tasks, first to be offered first.
    pub closed spec fn ready_queue(&self) -> Seq<TaskId> {
        self.ready@
    }

    /// Blocked tasks and why.
    pub closed spec fn blocked_map(&self) -> Map<TaskId, BlockReason> {
        self.blocked@
    }

    /// All known tasks.
    pub closed spec fn tasks(&self) -> Set<TaskId> {
        self.all_tasks@.to_set()
    }

    /// The id the next added task gets.
    pub closed spec fn next_task_id(&self) -> TaskId {
        self.next_id
    }

    /// The strategy in use.
    pub closed spec fn strategy_state(&self) -> StrategyImpl {
        self.strategy
    }

    /// The strategy can choose among the current ready tasks.
    pub open spec fn can_select_next(&self) -> bool {
        self.strategy_state().can_select(self.ready_queue())
    }

    /// Creates a new scheduler with the given strategy.
    pub fn new(strategy: Strategy) -> (r: Self)
        ensures
            r.wf(),
            r.ready_queue() == Seq::<TaskId>::empty(),
            r.blocked_map() == Map::<TaskId, BlockReason>::empty(),
            r.tasks() == Set::<TaskId>::empty(),
            r.next_task_id() == 0,
            strategy is Fifo ==> r.strategy_state() is Fifo,
            strategy is Random ==> r.strategy_state() is Random,
            strategy is DepthFirst ==> r.strategy_state() is DepthFirst,
            strategy is PCT ==> r.strategy_state() is PCT,
            strategy is ContextBound ==> r.strategy_state() is ContextBound,
    {
        let strategy_impl = match strategy {
            Strategy::Fifo => StrategyImpl::Fifo(FifoStrategy::new()),
            Strategy::Random { seed } => StrategyImpl::Random(RandomStrategy::new(seed)),
            Strategy::DepthFirst { max_depth } => StrategyImpl::DepthFirst(DFSStrategy::new(max_depth)),
            Strategy::PCT { seed, bug_depth } => StrategyImpl::PCT(PCTStrategy::new(seed, bug_depth)),
            Strategy::ContextBound { max_preemptions, seed } => StrategyImpl::ContextBound(
                ContextBoundStrategy::new(max_preemptions, seed),
            ),
        };
        let r = Scheduler {
            ready: Vec::new(),
            blocked: HashMap::new(),
            all_tasks: Vec::new(),
            strategy: strategy_impl,
            next_id: 0,
        };
        proof {
            assert(r.all_tasks@.to_set() =~= Set::<TaskId>::empty());
        }
        r
    }

    /// Creates a scheduler with FIFO strategy.
    pub fn fifo() -> (r: Self)
        ensures
            r.wf(),
            r.ready_queue() == Seq::<TaskId>::empty(),
            r.blocked_map() == Map::<TaskId, BlockReason>::empty(),
            r.tasks() == Set::<TaskId>::empty(),
            r.next_task_id() == 0,
            r.strategy_state() is Fifo,
    {
        Self::new(Strategy::Fifo)
    }

    /// Adds a new task, ready to run, and returns its ID.
    pub fn add_task(&mut self) -> (id: TaskId)
        requires
            old(self).wf(),
            old(self).next_task_id() < u32::MAX,
        ensures
            final(self).wf(),
            id == old(self).next_task_id(),
            !old(self).tasks().contains(id),
            final(self).next_task_id() == id + 1,
            final(self).tasks() == old(self).tasks().insert(id),
            final(self).ready_queue() == old(self).ready_queue().push(id),
            final(self).blocked_map() == old(self).blocked_map(),
            final(self).strategy_state() == old(self).strategy_state(),
    {
        let id = self.next_id;
        self.next_id = self.next_id + 1;
        let ghost old_all = self.all_tasks@;
        let ghost old_ready = self.ready@;
        proof {
            assert(!old_all.contains(id));
            assert(!old_ready.contains(id));
        }
        self.all_tasks.push(id);
        self.ready.push(id);
        proof {
            lemma_push_to_set(old_all, id);
            lemma_push_unique(old_all, id);
            lemma_push_unique(old_ready, id);
            assert forall|t: TaskId| #[trigger] self.ready@.contains(t) implies self.all_tasks@.contains(t) by {
                if t != id {
                    let a = choose|a: int| 0 <= a < self.ready@.len() && self.ready@[a] == t;
                    assert(old_ready[a] == t);
                    assert(old_ready.contains(t));
                    assert(old(self).ready@.contains(t));
                    assert(old_all.contains(t));
                    let b = choose|b: int| 0 <= b < old_all.len() && old_all[b] == t;
                    assert(self.all_tasks@[b] == t);
                } else {
                    assert(self.all_tasks@[old_all.len() as int] == id);
                }
            }
            assert forall|t: TaskId| #[trigger] self.all_tasks@.contains(t) implies t < self.next_id by {
                if t != id {
                    let a = choose|a: int| 0 <= a < self.all_tasks@.len() && self.all_tasks@[a] == t;
                    assert(old_all[a] == t);
                    assert(old_all.contains(t));
                }
            }
        }
        id
    }

    /// Removes a task from the scheduler.
    pub fn remove_task(&mut self, id: TaskId)
        requires
            old(self).wf(),
        ensures
            final(self).wf(),
            final(self).tasks() == old(self).tasks().remove(id),
            final(self).ready_queue() == without_id(old(self).ready_queue(), id),
            final(self).blocked_map() == old(self).blocked_map().remove(id),
            final(self).next_task_id() == old(self).next_task_id(),
            final(self).strategy_state() == old(self).strategy_state(),
    {
        let ghost old_all = self.all_tasks@;
        let ghost old_ready = self.ready@;
        remove_id(&mut self.all_tasks, id);
        remove_id(&mut self.ready, id);
        self.blocked.remove(&id);
        proof {
            lemma_without_unique(old_all, id);
            lemma_without_unique(old_ready, id);
            assert(self.all_tasks@.to_set() =~= old_all.to_set().remove(id));
        }
    }

    /// Marks a known task that is not already ready as ready to run: it
    /// leaves the blocked tasks and joins the back of the ready queue.
    pub fn mark_ready(&mut self, id: TaskId)
        requires
            old(self).wf(),
        ensures
            final(self).wf(),
            final(self).tasks() == old(self).tasks(),
            final(self).next_task_id() == old(self).next_task_id(),
            final(self).strategy_state() == old(self).strategy_state(),
            old(self).tasks().contains(id) && !old(self).ready_queue().contains(id) ==> {
                &&& final(self).ready_queue() == old(self).ready_queue().push(id)
                &&& final(self).blocked_map() == old(self).blocked_map().remove(id)
            },
            !(old(self).tasks().contains(id) && !old(self).ready_queue().contains(id)) ==> {
                &&& final(self).ready_queue() == old(self).ready_queue()
                &&& final(self).blocked_map() == old(self).blocked_map()
            },
    {
        if contains_id(&self.all_tasks, id) && !contains_id(&self.ready, id) {
            let ghost old_ready = self.ready@;
            self.blocked.remove(&id);
            self.ready.push(id);
            proof {
                lemma_push_unique(old_ready, id);
                assert forall|t: TaskId| #[trigger] self.ready@.contains(t) implies self.all_tasks@.contains(t) by {
                    if t != id {
                        let a = choose|a: int| 0 <= a < self.ready@.len() && self.ready@[a] == t;
                        assert(old_ready[a] == t);
                        assert(old_ready.contains(t));
                    }
                }
            }
        }
    }

    /// Marks a known task as blocked with the given reason: it leaves the
    /// ready queue.
    pub fn mark_blocked(&mut self, id: TaskId, reason: BlockReason)
        requires
            old(self).wf(),
        ensures
            final(self).wf(),
            final(self).tasks() == old(self).tasks(),
            final(self).next_task_id() == old(self).next_task_id(),
            final(self).strategy_state() == old(self).strategy_state(),
            old(self).tasks().contains(id) ==> {
                &&& final(self).ready_queue() == without_id(old(self).ready_queue(), id)
                &&& final(self).blocked_map() == old(self).blocked_map().insert(id, reason)
            },
            !old(self).tasks().contains(id) ==> {
                &&& final(self).ready_queue() == old(self).ready_queue()
                &&& final(self).blocked_map() == old(self).blocked_map()
            },
    {
        if contains_id(&self.all_tasks, id) {
            let ghost old_ready = self.ready@;
            remove_id(&mut self.ready, id);
            self.blocked.insert(id, reason);
            proof {
                lemma_without_unique(old_ready, id);
            }
        }
    }

    /// Returns the next task to run, or `None` if no task is ready. The
    /// chosen task is one of the ready tasks and leaves the ready queue;
    /// FIFO chooses the front of the queue.
    pub fn select_next(&mut self) -> (r: Option<TaskId>)
        requires
            old(self).wf(),
            old(self).can_select_next(),
        ensures
            final(self).wf(),
            r is None <==> old(self).ready_queue().len() == 0,
            r is None ==> final(self).ready_queue() == old(self).ready_queue()
                && final(self).strategy_state() == old(self).strategy_state(),
            r matches Some(c) ==> old(self).ready_queue().contains(c)
                && final(self).ready_queue() == without_id(old(self).ready_queue(), c),
            old(self).strategy_state() is Fifo && old(self).ready_queue().len() > 0 ==>
                r == Some(old(self).ready_queue()[0]) && final(self).strategy_state() is Fifo,
            final(self).tasks() == old(self).tasks(),
            final(self).blocked_map() == old(self).blocked_map(),
            final(self).next_task_id() == old(self).next_task_id(),
    {
        if self.ready.len() == 0 {
            return None;
        }
        let ready_vec: Vec<TaskId> = slice_to_vec(self.ready.as_slice());
        let chosen = self.strategy.select(ready_vec.as_slice());
        let ghost old_ready = self.ready@;
        remove_id(&mut self.ready, chosen);
        self.strategy.on_decision(chosen, ready_vec.as_slice());
        proof {
            lemma_without_unique(old_ready, chosen);
        }
        Some(chosen)
    }

    /// Returns true if any tasks are ready.
    pub fn has_ready(&self) -> (r: bool)
        ensures
            r == (self.ready_queue().len() > 0),
    {
        self.ready.len() > 0
    }

    /// Returns true if no task is ready and some task is blocked (a
    /// potential deadlock).
    pub fn all_blocked(&self) -> (r: bool)
        ensures
            r == (self.ready_queue().len() == 0 && self.blocked_map().dom().len() > 0),
    {
        self.ready.len() == 0 && self.blocked.len() > 0
    }

    /// Returns the number of ready tasks.
    pub fn ready_count(&self) -> (r: usize)
        ensures
            r == self.ready_queue().len(),
    {
        self.ready.len()
    }

    /// Returns the number of blocked tasks.
    pub fn blocked_count(&self) -> (r: usize)
        ensures
            r == self.blocked_map().dom().len(),
    {
        self.blocked.len()
    }

    /// Returns the total number of tasks.
    pub fn task_count(&self) -> (r: usize)
        requires
            self.wf(),
        ensures
            r == self.tasks().len(),
    {
        proof {
            self.all_tasks@.unique_seq_to_set();
        }
        self.all_tasks.len()
    }

    /// Returns the block reason for a task, if blocked.
    pub fn block_reason(&self, id: TaskId) -> (r: Option<&BlockReason>)
        ensures
            r is Some <==> self.blocked_map().contains_key(id),
            r matches Some(b) ==> *b == self.blocked_map()[id],
    {
        self.blocked.get(&id)
    }

    /// Resets the scheduler for a new simulation run: no tasks, ids from 0,
    /// and the strategy reset.
    pub fn reset(&mut self)
        ensures
            final(self).wf(),
            final(self).ready_queue() == Seq::<TaskId>::empty(),
            final(self).blocked_map() == Map::<TaskId, BlockReason>::empty(),
            final(self).tasks() == Set::<TaskId>::empty(),
            final(self).next_task_id() == 0,
            old(self).strategy_state() is Fifo ==> final(self).strategy_state() is Fifo,
    {
        self.ready = Vec::new();
        self.blocked.clear();
        self.all_tasks = Vec::new();
        self.next_id = 0;
        self.strategy.reset();
        proof {
            assert(self.all_tasks@.to_set() =~= Set::<TaskId>::empty());
        }
    }
}

/// Pushing an item not yet present keeps a list free of repeats.
proof fn lemma_push_unique(s: Seq<TaskId>, x: TaskId)
    requires
        s.no_duplicates(),
        !s.contains(x),
    ensures
        s.push(x).no_duplicates(),
{
    let t = s.push(x);
    assert forall|a: int, b: int| 0 <= a < t.len() && 0 <= b < t.len() && a != b implies t[a] != t[b] by {
        if a == s.len() {
            assert(s.contains(s[b]));
        } else if b == s.len() {
            assert(s.contains(s[a]));
        }
    }
}

} // verus!
