//! Context-bounded scheduling: keep running the current task, and switch
//! away from it (preempt) only at a bounded number of drawn decision points.
use rand::rngs::StdRng;
use vstd::prelude::*;
use crate::scheduler::strategy::ScheduleStrategy;
use crate::util::ids::{contains_id, lemma_without_subset, remove_id, without_id};
use crate::util::rng::{draw_index, draw_u64_inclusive, index_draw, rng_from_seed, seeded, u64_draw};
use crate::util::sorting::{sort_u64, sorted_u64};
use crate::TaskId;

verus! {

/// `n` draws in `1..=max` from `rng`, in draw order.
pub open spec fn drawn_u64s(rng: StdRng, n: nat, max: u64) -> Seq<u64>
    decreases n,
{
    if n == 0 {
        Seq::empty()
    } else {
        let prev = drawn_u64s(rng, (n - 1) as nat, max);
        prev.push(u64_draw(rng_after(rng, (n - 1) as nat, max), 1, max).0)
    }
}

/// The generator after `n` draws in `1..=max`.
pub open spec fn rng_after(rng: StdRng, n: nat, max: u64) -> StdRng
    decreases n,
{
    if n == 0 {
        rng
    } else {
        u64_draw(rng_after(rng, (n - 1) as nat, max), 1, max).1
    }
}

/// The preemption points made from `n` draws in `1..=max` with the
/// generator seeded by `seed`: those draws, sorted.
pub open spec fn preemption_points_ok(points: Seq<u64>, seed: u64, n: nat, max: u64) -> bool {
    &&& sorted_u64(points)
    &&& points.to_multiset() == drawn_u64s(seeded(seed), n, max).to_multiset()
}

/// Context-bounded scheduling strategy.
pub struct ContextBoundStrategy {
    max_preemptions: usize,
    preemption_count: usize,
    current_task: Option<TaskId>,
    rng: StdRng,
    seed: u64,
    decisions: u64,
    preemption_points: Vec<u64>,
    preemption_index: usize,
}

impl ContextBoundStrategy {
    /// Preemptions so far match the preemption points passed, and no more.
    pub closed spec fn wf(&self) -> bool {
        &&& self.preemption_count == self.preemption_index
        &&& self.preemption_index <= self.preemption_points@.len()
    }

    pub closed spec fn bound(&self) -> usize {
        self.max_preemptions
    }

    pub closed spec fn preemptions(&self) -> usize {
        self.preemption_count
    }

    pub closed spec fn current(&self) -> Option<TaskId> {
        self.current_task
    }

    pub closed spec fn generator(&self) -> StdRng {
        self.rng
    }

    pub closed spec fn seed_value(&self) -> u64 {
        self.seed
    }

    pub closed spec fn decision_count(&self) -> u64 {
        self.decisions
    }

    /// The decision numbers at which to preempt, in order.
    pub closed spec fn points(&self) -> Seq<u64> {
        self.preemption_points@
    }

    /// How many preemption points have been passed.
    pub closed spec fn passed(&self) -> usize {
        self.preemption_index
    }

    /// Creates a strategy with preemption points drawn in `1..=1000`.
    pub fn new(max_preemptions: usize, seed: u64) -> (r: Self)
        ensures
            r.wf(),
            r.bound() == max_preemptions,
            r.preemptions() == 0,
            r.current() is None,
            r.generator() == seeded(seed),
            r.seed_value() == seed,
            r.decision_count() == 0,
            r.passed() == 0,
            preemption_points_ok(r.points(), seed, max_preemptions as nat, 1000),
    {
        Self::with_preemption_points(max_preemptions, seed, 1000)
    }

    /// Creates a strategy whose `max_preemptions` preemption points are
    /// drawn in `1..=max_decisions` and sorted; the generator is then
    /// seeded afresh for the choices themselves.
    pub fn with_preemption_points(max_preemptions: usize, seed: u64, max_decisions: u64) -> (r: Self)
        requires
            max_preemptions == 0 || max_decisions >= 1,
        ensures
            r.wf(),
            r.bound() == max_preemptions,
            r.preemptions() == 0,
            r.current() is None,
            r.generator() == seeded(seed),
            r.seed_value() == seed,
            r.decision_count() == 0,
            r.passed() == 0,
            preemption_points_ok(r.points(), seed, max_preemptions as nat, max_decisions),
    {
        let points = draw_points(seed, max_preemptions, max_decisions);
        ContextBoundStrategy {
            max_preemptions,
            preemption_count: 0,
            current_task: None,
            rng: rng_from_seed(seed),
            seed,
            decisions: 0,
            preemption_points: points,
            preemption_index: 0,
        }
    }

    /// The preemption bound.
    pub fn max_preemptions(&self) -> (r: usize)
        ensures
            r == self.bound(),
    {
        self.max_preemptions
    }

    /// Preemptions made so far.
    pub fn preemption_count(&self) -> (r: usize)
        ensures
            r == self.preemptions(),
    {
        self.preemption_count
    }

    /// The seed.
    pub fn seed(&self) -> (r: u64)
        ensures
            r == self.seed_value(),
    {
        self.seed
    }

    /// Whether the current decision is the next preemption point; if so,
    /// that point is passed and a preemption counted.
    fn should_preempt(&mut self) -> (r: bool)
        requires
            old(self).wf(),
        ensures
            final(self).wf(),
            r == (old(self).passed() < old(self).points().len()
                && old(self).points()[old(self).passed() as int] == old(self).decision_count()),
            r ==> final(self).passed() == old(self).passed() + 1 && final(self).preemptions() == old(self).preemptions() + 1,
            !r ==> final(self).passed() == old(self).passed() && final(self).preemptions() == old(self).preemptions(),
            final(self).points() == old(self).points(),
            final(self).decision_count() == old(self).decision_count(),
            final(self).current() == old(self).current(),
            final(self).generator() == old(self).generator(),
            final(self).seed_value() == old(self).seed_value(),
            final(self).bound() == old(self).bound(),
    {
        if self.preemption_index >= self.preemption_points.len() {
            return false;
        }
        if self.decisions == self.preemption_points[self.preemption_index] {
            self.preemption_index = self.preemption_index + 1;
            self.preemption_count = self.preemption_count + 1;
            return true;
        }
        false
    }
}

/// Draws `n` points in `1..=max` from a generator seeded by `seed`, sorted.
fn draw_points(seed: u64, n: usize, max: u64) -> (r: Vec<u64>)
    requires
        n == 0 || max >= 1,
    ensures
        preemption_points_ok(r@, seed, n as nat, max),
{
    let mut rng = rng_from_seed(seed);
    let mut points: Vec<u64> = Vec::new();
    let mut i: usize = 0;
    while i < n
        invariant
            0 <= i <= n,
            n == 0 || max >= 1,
            points@ == drawn_u64s(seeded(seed), i as nat, max),
            rng == rng_after(seeded(seed), i as nat, max),
        decreases n - i,
    {
        let p = draw_u64_inclusive(&mut rng, 1, max);
        points.push(p);
        i = i + 1;
    }
    sort_u64(&mut points);
    points
}

impl ScheduleStrategy for ContextBoundStrategy {
    open spec fn can_select(&self, ready: Seq<TaskId>) -> bool {
        self.wf() && self.decision_count() < u64::MAX
    }

    /// Counts the decision. A lone ready task is chosen. Otherwise the
    /// current task keeps running if it is ready and this is not a
    /// preemption point; at a preemption point another ready task is drawn
    /// (the first ready task if there is no other); else any ready task is
    /// drawn. The choice becomes the current task.
    fn select(&mut self, ready: &[TaskId]) -> (r: TaskId)
        ensures
            final(self).wf(),
            final(self).decision_count() == old(self).decision_count() + 1,
            final(self).current() == Some(r),
            final(self).points() == old(self).points(),
            final(self).seed_value() == old(self).seed_value(),
            final(self).bound() == old(self).bound(),
            ready@.len() == 1 ==> r == ready@[0] && final(self).generator() == old(self).generator()
                && final(self).passed() == old(self).passed(),
            ready@.len() > 1 ==> ({
                let d = (old(self).decision_count() + 1) as u64;
                let preempt = old(self).passed() < old(self).points().len()
                    && old(self).points()[old(self).passed() as int] == d;
                let current_ready = old(self).current() matches Some(c) && ready@.contains(c);
                let others = match old(self).current() { Some(c) => without_id(ready@, c), None => ready@ };
                &&& final(self).passed() == old(self).passed() + (if preempt { 1int } else { 0int })
                &&& (current_ready && !preempt ==> Some(r) == old(self).current()
                    && final(self).generator() == old(self).generator())
                &&& (preempt && others.len() == 0 ==> r == ready@[0]
                    && final(self).generator() == old(self).generator())
                &&& (preempt && others.len() > 0 ==> ({
                        let (i, g) = index_draw(old(self).generator(), others.len() as usize);
                        r == others[i as int] && final(self).generator() == g
                    }))
                &&& (!preempt && !current_ready ==> ({
                        let (i, g) = index_draw(old(self).generator(), ready@.len() as usize);
                        r == ready@[i as int] && final(self).generator() == g
                    }))
            }),
    {
        self.decisions = self.decisions + 1;
        if ready.len() == 1 {
            self.current_task = Some(ready[0]);
            return ready[0];
        }
        let current_ready = match self.current_task {
            Some(t) => contains_id(ready, t),
            None => false,
        };
        let preempt = self.should_preempt();
        let chosen = if current_ready && !preempt {
            match self.current_task {
                Some(t) => t,
                None => ready[0],
            }
        } else if preempt && ready.len() > 1 {
            let mut others: Vec<TaskId> = vstd::slice::slice_to_vec(ready);
            match self.current_task {
                Some(c) => remove_id(&mut others, c),
                None => {},
            }
            if others.len() == 0 {
                ready[0]
            } else {
                let idx = draw_index(&mut self.rng, others.len());
                proof {
                    if let Some(c) = self.current_task {
                        lemma_without_subset(ready@, c);
                    }
                }
                others[idx]
            }
        } else {
            let idx = draw_index(&mut self.rng, ready.len());
            ready[idx]
        };
        self.current_task = Some(chosen);
        chosen
    }

    /// A yielding current task stops being current.
    fn on_yield(&mut self, task: TaskId)
        ensures
            final(self).current() == (if old(self).current() == Some(task) { None } else { old(self).current() }),
            final(self).wf() == old(self).wf(),
            final(self).points() == old(self).points(),
            final(self).passed() == old(self).passed(),
            final(self).preemptions() == old(self).preemptions(),
            final(self).decision_count() == old(self).decision_count(),
            final(self).generator() == old(self).generator(),
            final(self).seed_value() == old(self).seed_value(),
            final(self).bound() == old(self).bound(),
    {
        if self.current_task == Some(task) {
            self.current_task = None;
        }
    }

    /// Nothing changes: this strategy does not learn from decisions.
    fn on_decision(&mut self, _chosen: TaskId, _ready: &[TaskId])
        ensures
            *final(self) == *old(self),
    {
    }

    /// Starts over: no current task, no decisions or preemptions, fresh
    /// preemption points drawn in `1..=1000`, and the generator re-seeded.
    fn reset(&mut self)
        ensures
            final(self).wf(),
            final(self).current() is None,
            final(self).preemptions() == 0,
            final(self).passed() == 0,
            final(self).decision_count() == 0,
            final(self).generator() == seeded(old(self).seed_value()),
            final(self).seed_value() == old(self).seed_value(),
            final(self).bound() == old(self).bound(),
            preemption_points_ok(final(self).points(), old(self).seed_value(), old(self).bound() as nat, 1000),
    {
        self.current_task = None;
        self.preemption_count = 0;
        self.decisions = 0;
        self.preemption_index = 0;
        self.preemption_points = draw_points(self.seed, self.max_preemptions, 1000);
        self.rng = rng_from_seed(self.seed);
    }
}

} // verus!
