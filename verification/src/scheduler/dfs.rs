//! Depth-first search scheduling strategy.
//!
//! DFS systematically explores the schedule space by trying all possible
//! interleavings up to a maximum depth.
use vstd::prelude::*;
use vstd::slice::slice_to_vec;
use crate::scheduler::strategy::ScheduleStrategy;
use crate::TaskId;

verus! {

/// One decision point: the ready set seen there and the option to try.
pub type Decision = (Seq<TaskId>, usize);

/// The decision stack after backtracking: drop exhausted decision points
/// from the top, then move the topmost one with options left to its next
/// option. `None` when no decision point has options left.
pub open spec fn backtracked(stack: Seq<Decision>) -> Option<Seq<Decision>>
    decreases stack.len(),
{
    if stack.len() == 0 {
        None
    } else {
        let (ready, idx) = stack.last();
        if idx + 1 < ready.len() {
            Some(stack.drop_last().push((ready, (idx + 1) as usize)))
        } else {
            backtracked(stack.drop_last())
        }
    }
}

/// DFS scheduling strategy.
///
/// Explores schedules depth-first, backtracking when reaching max depth
/// or when all possibilities at a level have been tried.
#[derive(Debug)]
pub struct DFSStrategy {
    /// Maximum exploration depth.
    max_depth: usize,
    /// Current depth in the exploration tree.
    current_depth: usize,
    /// Stack of decision points: (ready_set, index_to_try_next).
    decision_stack: Vec<(Vec<TaskId>, usize)>,
    /// Number of schedules explored.
    schedules_explored: u64,
    /// Whether we've completed exploration.
    exhausted: bool,
}

impl DFSStrategy {
    pub closed spec fn depth_limit(&self) -> usize {
        self.max_depth
    }

    /// Decisions taken so far in the current run.
    pub closed spec fn depth(&self) -> usize {
        self.current_depth
    }

    /// The decision points, outermost first.
    pub closed spec fn stack(&self) -> Seq<Decision> {
        self.decision_stack@.map_values(|d: (Vec<TaskId>, usize)| (d.0@, d.1))
    }

    pub closed spec fn explored(&self) -> u64 {
        self.schedules_explored
    }

    pub closed spec fn done(&self) -> bool {
        self.exhausted
    }

    /// Creates a new DFS strategy with the given max depth.
    pub fn new(max_depth: usize) -> (r: Self)
        ensures
            r.depth_limit() == max_depth,
            r.depth() == 0,
            r.stack() == Seq::<Decision>::empty(),
            r.explored() == 0,
            !r.done(),
    {
        let r = DFSStrategy {
            max_depth,
            current_depth: 0,
            decision_stack: Vec::new(),
            schedules_explored: 0,
            exhausted: false,
        };
        proof {
            assert(r.stack() =~= Seq::<Decision>::empty());
        }
        r
    }

    /// Returns the number of schedules explored so far.
    pub fn schedules_explored(&self) -> (r: u64)
        ensures
            r == self.explored(),
    {
        self.schedules_explored
    }

    /// Returns true if exploration is exhausted.
    pub fn is_exhausted(&self) -> (r: bool)
        ensures
            r == self.done(),
    {
        self.exhausted
    }

    /// Returns the maximum depth.
    pub fn max_depth(&self) -> (r: usize)
        ensures
            r == self.depth_limit(),
    {
        self.max_depth
    }

    /// Backtrack to try the next alternative at a decision point.
    fn backtrack(&mut self) -> (r: bool)
        ensures
            r == backtracked(old(self).stack()) is Some,
            r ==> final(self).stack() == backtracked(old(self).stack())->0 && final(self).done() == old(self).done(),
            !r ==> final(self).stack() == Seq::<Decision>::empty() && final(self).done(),
            final(self).depth_limit() == old(self).depth_limit(),
            final(self).depth() == old(self).depth(),
            final(self).explored() == old(self).explored(),
    {
        while self.decision_stack.len() > 0
            invariant
                backtracked(self.stack()) == backtracked(old(self).stack()),
                self.exhausted == old(self).exhausted,
                self.max_depth == old(self).max_depth,
                self.current_depth == old(self).current_depth,
                self.schedules_explored == old(self).schedules_explored,
            decreases self.decision_stack@.len(),
        {
            let ghost before = self.stack();
            let (ready, idx) = self.decision_stack.pop().unwrap();
            proof {
                assert(self.stack() =~= before.drop_last());
                assert(before.last() == (ready@, idx));
            }
            if ready.len() > 0 && idx < ready.len() - 1 {
                self.decision_stack.push((ready, idx + 1));
                proof {
                    assert(self.stack() =~= before.drop_last().push((before.last().0, (idx + 1) as usize)));
                }
                return true;
            }
        }
        proof {
            assert(self.stack() =~= Seq::<Decision>::empty());
        }
        self.exhausted = true;
        false
    }

    /// Signal that the current schedule is complete (the test finished):
    /// count it and backtrack to the next schedule to try.
    pub fn schedule_complete(&mut self)
        requires
            old(self).explored() < u64::MAX,
        ensures
            final(self).explored() == old(self).explored() + 1,
            backtracked(old(self).stack()) matches Some(s) ==> final(self).stack() == s && final(self).done() == old(self).done(),
            backtracked(old(self).stack()) is None ==> final(self).stack() == Seq::<Decision>::empty() && final(self).done(),
            final(self).depth_limit() == old(self).depth_limit(),
            final(self).depth() == old(self).depth(),
    {
        self.schedules_explored = self.schedules_explored + 1;
        self.backtrack();
    }
}

impl ScheduleStrategy for DFSStrategy {
    open spec fn can_select(&self, ready: Seq<TaskId>) -> bool {
        ready.len() == 1 || self.depth() < usize::MAX
    }

    /// A lone ready task is chosen without a decision. Otherwise the depth
    /// goes up by one; past the depth limit the first task is chosen; at a
    /// depth with a recorded decision, that decision's option is replayed
    /// (modulo the ready count); at a new depth a decision point is pushed
    /// and its first option chosen.
    fn select(&mut self, ready: &[TaskId]) -> (r: TaskId)
        ensures
            final(self).depth_limit() == old(self).depth_limit(),
            final(self).explored() == old(self).explored(),
            final(self).done() == old(self).done(),
            ready@.len() == 1 ==> r == ready@[0] && final(self).depth() == old(self).depth()
                && final(self).stack() == old(self).stack(),
            ready@.len() > 1 ==> ({
                let d = old(self).depth() + 1;
                &&& final(self).depth() == d
                &&& d > old(self).depth_limit() ==> r == ready@[0] && final(self).stack() == old(self).stack()
                &&& d <= old(self).depth_limit() && d <= old(self).stack().len() ==>
                    r == ready@[(old(self).stack()[d - 1].1 as int) % (ready@.len() as int)]
                    && final(self).stack() == old(self).stack()
                &&& d <= old(self).depth_limit() && d > old(self).stack().len() ==>
                    r == ready@[0] && final(self).stack() == old(self).stack().push((ready@, 0usize))
            }),
    {
        if ready.len() == 1 {
            return ready[0];
        }
        self.current_depth = self.current_depth + 1;
        if self.current_depth > self.max_depth {
            return ready[0];
        }
        if self.current_depth <= self.decision_stack.len() {
            let idx = self.decision_stack[self.current_depth - 1].1;
            proof {
                assert(self.stack()[self.current_depth - 1].1 == idx);
            }
            return ready[idx % ready.len()];
        }
        let copy = slice_to_vec(ready);
        let ghost before = self.stack();
        self.decision_stack.push((copy, 0));
        proof {
            assert(self.stack() =~= before.push((ready@, 0usize)));
        }
        ready[0]
    }

    fn on_yield(&mut self, _task: TaskId) {
    }

    /// Nothing changes: this strategy does not learn from decisions.
    fn on_decision(&mut self, _chosen: TaskId, _ready: &[TaskId])
        ensures
            *final(self) == *old(self),
    {
    }

    /// Starts a new run from the top of the decision tree; the decision
    /// stack is kept, so exploration continues.
    fn reset(&mut self)
        ensures
            final(self).depth() == 0,
            final(self).stack() == old(self).stack(),
            final(self).depth_limit() == old(self).depth_limit(),
            final(self).explored() == old(self).explored(),
            final(self).done() == old(self).done(),
    {
        self.current_depth = 0;
    }
}

} // verus!
