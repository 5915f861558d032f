//! Probabilistic Concurrency Testing (PCT) scheduling strategy.
//!
//! Each task gets a priority when first seen, the first-seen highest; the
//! highest-priority ready task runs. At `bug_depth - 1` change points,
//! drawn from the seeded generator, the running task drops to priority 0.
use rand::rngs::StdRng;
use vstd::prelude::*;
use crate::scheduler::strategy::ScheduleStrategy;
use crate::util::rng::{draw_usize_inclusive, rng_from_seed, seeded, usize_draw};
use std::collections::HashMap;
use crate::util::seq_facts::lemma_push_to_set;
use crate::TaskId;

verus! {

broadcast use vstd::std_specs::hash::group_hash_axioms;

/// The change points drawn from `rng`: `n` draws in `1..=max`, and the
/// generator after them.
pub open spec fn drawn_points(rng: StdRng, n: nat, max: usize) -> (Set<usize>, StdRng)
    decreases n,
{
    if n == 0 {
        (Set::empty(), rng)
    } else {
        let (pts, r1) = drawn_points(rng, (n - 1) as nat, max);
        let (p, r2) = usize_draw(r1, 1, max);
        (pts.insert(p), r2)
    }
}

/// A task's priority (0 for one never seen).
pub open spec fn prio(m: Map<TaskId, usize>, t: TaskId) -> usize {
    if m.contains_key(t) { m[t] } else { 0 }
}

/// Priorities after giving each task of `ready` not yet seen the next
/// priority in turn (counting down, not below 0); with the next priority
/// left over.
pub open spec fn assign(m: Map<TaskId, usize>, next: usize, ready: Seq<TaskId>) -> (Map<TaskId, usize>, usize)
    decreases ready.len(),
{
    if ready.len() == 0 {
        (m, next)
    } else {
        let (m1, n1) = assign(m, next, ready.drop_last());
        assign_one(m1, n1, ready.last())
    }
}

/// Priorities after giving `t`, if not yet seen, the priority `next`; with
/// the next priority left over (one lower, not below 0).
pub open spec fn assign_one(m: Map<TaskId, usize>, next: usize, t: TaskId) -> (Map<TaskId, usize>, usize) {
    if m.contains_key(t) {
        (m, next)
    } else {
        (m.insert(t, next), if next > 0 { (next - 1) as usize } else { 0 })
    }
}

/// The best position lies within the prefix.
pub proof fn lemma_best_bounds(m: Map<TaskId, usize>, ready: Seq<TaskId>, n: int)
    requires
        n >= 1,
    ensures
        0 <= best(m, ready, n) < n,
    decreases n,
{
    if n > 1 {
        lemma_best_bounds(m, ready, n - 1);
    }
}

/// The position in `ready[..n]` of the task with the highest priority; the
/// last one among equals.
pub open spec fn best(m: Map<TaskId, usize>, ready: Seq<TaskId>, n: int) -> int
    decreases n,
{
    if n <= 1 {
        0
    } else {
        let b = best(m, ready, n - 1);
        if prio(m, ready[n - 1]) >= prio(m, ready[b]) { n - 1 } else { b }
    }
}

/// PCT scheduling strategy.
pub struct PCTStrategy {
    rng: StdRng,
    seed: u64,
    bug_depth: usize,
    priorities: HashMap<TaskId, usize>,
    change_points: Vec<usize>,
    step: usize,
    next_priority: usize,
    max_steps: usize,
}

impl PCTStrategy {
    pub closed spec fn generator(&self) -> StdRng {
        self.rng
    }

    pub closed spec fn seed_value(&self) -> u64 {
        self.seed
    }

    pub closed spec fn depth(&self) -> usize {
        self.bug_depth
    }

    pub closed spec fn priority_map(&self) -> Map<TaskId, usize> {
        self.priorities@
    }

    /// The steps at which the running task is demoted.
    pub closed spec fn points(&self) -> Set<usize> {
        self.change_points@.to_set()
    }

    pub closed spec fn steps(&self) -> usize {
        self.step
    }

    pub closed spec fn next_prio(&self) -> usize {
        self.next_priority
    }

    pub closed spec fn step_limit(&self) -> usize {
        self.max_steps
    }

    /// Creates a PCT strategy with change points drawn in `1..=1000`.
    pub fn new(seed: u64, bug_depth: usize) -> (r: Self)
        ensures
            ({
                let (pts, g) = drawn_points(seeded(seed), if bug_depth > 0 { (bug_depth - 1) as nat } else { 0 }, 1000);
                &&& r.points() == pts
                &&& r.generator() == g
            }),
            r.seed_value() == seed,
            r.depth() == bug_depth,
            r.priority_map() == Map::<TaskId, usize>::empty(),
            r.steps() == 0,
            r.next_prio() == usize::MAX,
            r.step_limit() == 1000,
    {
        Self::with_max_steps(seed, bug_depth, 1000)
    }

    /// Creates a PCT strategy whose `bug_depth - 1` change points are drawn
    /// in `1..=max_steps` (an empty range panics, hence the requirement).
    pub fn with_max_steps(seed: u64, bug_depth: usize, max_steps: usize) -> (r: Self)
        requires
            bug_depth <= 1 || max_steps >= 1,
        ensures
            ({
                let (pts, g) = drawn_points(seeded(seed), if bug_depth > 0 { (bug_depth - 1) as nat } else { 0 }, max_steps);
                &&& r.points() == pts
                &&& r.generator() == g
            }),
            r.seed_value() == seed,
            r.depth() == bug_depth,
            r.priority_map() == Map::<TaskId, usize>::empty(),
            r.steps() == 0,
            r.next_prio() == usize::MAX,
            r.step_limit() == max_steps,
    {
        let mut rng = rng_from_seed(seed);
        let num_change_points = bug_depth.saturating_sub(1);
        let mut change_points: Vec<usize> = Vec::new();
        draw_change_points(&mut rng, &mut change_points, num_change_points, max_steps);
        PCTStrategy {
            rng,
            seed,
            bug_depth,
            priorities: HashMap::new(),
            change_points,
            step: 0,
            next_priority: usize::MAX,
            max_steps,
        }
    }

    /// The seed.
    pub fn seed(&self) -> (r: u64)
        ensures
            r == self.seed_value(),
    {
        self.seed
    }

    /// The bug depth.
    pub fn bug_depth(&self) -> (r: usize)
        ensures
            r == self.depth(),
    {
        self.bug_depth
    }

    /// Gives `task` the next priority if it has none yet.
    fn ensure_priority(&mut self, task: TaskId)
        ensures
            (final(self).priority_map(), final(self).next_prio())
                == assign_one(old(self).priority_map(), old(self).next_prio(), task),
            final(self).generator() == old(self).generator(),
            final(self).seed_value() == old(self).seed_value(),
            final(self).depth() == old(self).depth(),
            final(self).points() == old(self).points(),
            final(self).steps() == old(self).steps(),
            final(self).step_limit() == old(self).step_limit(),
    {
        if !self.priorities.contains_key(&task) {
            self.priorities.insert(task, self.next_priority);
            self.next_priority = self.next_priority.saturating_sub(1);
        }
    }

    /// A task's priority (0 for one never seen).
    fn priority(&self, task: TaskId) -> (r: usize)
        ensures
            r == prio(self.priority_map(), task),
    {
        match self.priorities.get(&task) {
            Some(p) => *p,
            None => 0,
        }
    }

    /// The ready task with the highest priority (the last among equals).
    fn highest_priority(&self, ready: &[TaskId]) -> (r: TaskId)
        requires
            ready@.len() > 0,
        ensures
            r == ready@[best(self.priority_map(), ready@, ready@.len() as int)],
    {
        let mut b: usize = 0;
        let mut i: usize = 1;
        while i < ready.len()
            invariant
                1 <= i <= ready@.len(),
                b < i,
                b as int == best(self.priority_map(), ready@, i as int),
            decreases ready@.len() - i,
        {
            if self.priority(ready[i]) >= self.priority(ready[b]) {
                b = i;
            }
            i = i + 1;
        }
        ready[b]
    }
}

/// Draws `n` change points in `1..=max` and adds them to `points`.
fn draw_change_points(rng: &mut StdRng, points: &mut Vec<usize>, n: usize, max: usize)
    requires
        n == 0 || max >= 1,
        old(points)@.len() == 0,
    ensures
        ({
            let (pts, g) = drawn_points(*old(rng), n as nat, max);
            &&& final(points)@.to_set() == pts
            &&& *final(rng) == g
        }),
{
    let ghost start = *rng;
    let mut i: usize = 0;
    while i < n
        invariant
            0 <= i <= n,
            n == 0 || max >= 1,
            ({
                let (pts, g) = drawn_points(start, i as nat, max);
                &&& points@.to_set() == pts
                &&& *rng == g
            }),
        decreases n - i,
    {
        let p = draw_usize_inclusive(rng, 1, max);
        let ghost before = points@;
        points.push(p);
        proof {
            assert(points@ == before.push(p));
            lemma_push_to_set(before, p);
        }
        i = i + 1;
    }
    proof {
        if n == 0 {
            assert(points@.to_set() =~= Set::<usize>::empty());
        }
    }
}

impl ScheduleStrategy for PCTStrategy {
    open spec fn can_select(&self, ready: Seq<TaskId>) -> bool {
        self.steps() < usize::MAX
    }

    /// Gives unseen ready tasks priorities, counts the step, demotes the
    /// highest-priority ready task to 0 at a change point, and returns the
    /// highest-priority ready task.
    fn select(&mut self, ready: &[TaskId]) -> (r: TaskId)
        ensures
            ({
                let (m1, n1) = assign(old(self).priority_map(), old(self).next_prio(), ready@);
                let s = old(self).steps() + 1;
                let m2 = if old(self).points().contains(s as usize) {
                    m1.insert(ready@[best(m1, ready@, ready@.len() as int)], 0)
                } else {
                    m1
                };
                &&& final(self).priority_map() == m2
                &&& final(self).next_prio() == n1
                &&& final(self).steps() == s
                &&& r == ready@[best(m2, ready@, ready@.len() as int)]
            }),
            final(self).generator() == old(self).generator(),
            final(self).seed_value() == old(self).seed_value(),
            final(self).depth() == old(self).depth(),
            final(self).points() == old(self).points(),
            final(self).step_limit() == old(self).step_limit(),
    {
        let mut i: usize = 0;
        while i < ready.len()
            invariant
                0 <= i <= ready@.len(),
                (self.priority_map(), self.next_prio())
                    == assign(old(self).priority_map(), old(self).next_prio(), ready@.take(i as int)),
                self.generator() == old(self).generator(),
                self.seed_value() == old(self).seed_value(),
                self.depth() == old(self).depth(),
                self.points() == old(self).points(),
                self.steps() == old(self).steps(),
                self.step_limit() == old(self).step_limit(),
            decreases ready@.len() - i,
        {
            let ghost m0 = self.priority_map();
            let ghost n0 = self.next_prio();
            self.ensure_priority(ready[i]);
            proof {
                assert(ready@.take(i + 1).drop_last() =~= ready@.take(i as int));
                assert(ready@.take(i + 1).last() == ready@[i as int]);
            }
            i = i + 1;
        }
        proof {
            assert(ready@.take(ready@.len() as int) =~= ready@);
        }
        self.step = self.step + 1;
        proof {
            lemma_best_bounds(self.priority_map(), ready@, ready@.len() as int);
        }
        if contains_usize(&self.change_points, self.step) {
            let highest = self.highest_priority(ready);
            self.priorities.insert(highest, 0);
        }
        proof {
            lemma_best_bounds(self.priority_map(), ready@, ready@.len() as int);
        }
        let r = self.highest_priority(ready);
        proof {
            assert(ready@.contains(ready@[best(self.priority_map(), ready@, ready@.len() as int)]));
        }
        r
    }

    fn on_yield(&mut self, _task: TaskId) {
    }

    /// Nothing changes: this strategy does not learn from decisions.
    fn on_decision(&mut self, _chosen: TaskId, _ready: &[TaskId])
        ensures
            *final(self) == *old(self),
    {
    }

    /// Re-seeds the generator, forgets priorities and steps, and draws the
    /// change points anew (in `1..=step_limit`).
    fn reset(&mut self)
        ensures
            ({
                let d = old(self).depth();
                let (pts, g) = drawn_points(seeded(old(self).seed_value()), if d > 0 { (d - 1) as nat } else { 0 }, old(self).step_limit());
                old(self).depth() <= 1 || old(self).step_limit() >= 1 ==> final(self).points() == pts && final(self).generator() == g
            }),
            final(self).seed_value() == old(self).seed_value(),
            final(self).depth() == old(self).depth(),
            final(self).priority_map() == Map::<TaskId, usize>::empty(),
            final(self).steps() == 0,
            final(self).next_prio() == usize::MAX,
            final(self).step_limit() == old(self).step_limit(),
    {
        self.rng = rng_from_seed(self.seed);
        self.priorities.clear();
        self.step = 0;
        self.next_priority = usize::MAX;
        let num_change_points = self.bug_depth.saturating_sub(1);
        if num_change_points == 0 || self.max_steps >= 1 {
            let mut points: Vec<usize> = Vec::new();
            draw_change_points(&mut self.rng, &mut points, num_change_points, self.max_steps);
            self.change_points = points;
        } else {
            self.change_points = Vec::new();
        }
    }
}

/// `x` occurs in `v`.
fn contains_usize(v: &Vec<usize>, x: usize) -> (r: bool)
    ensures
        r == v@.to_set().contains(x),
{
    let mut i: usize = 0;
    while i < v.len()
        invariant
            0 <= i <= v@.len(),
            forall|j: int| 0 <= j < i ==> v@[j] != x,
        decreases v@.len() - i,
    {
        if v[i] == x {
            proof {
                assert(v@.contains(v@[i as int]));
            }
            return true;
        }
        i = i + 1;
    }
    false
}

/// PCT runs the highest-priority ready task: the task at the position
/// `best` picks has a priority at least that of every ready task.
pub proof fn law_pct_runs_highest_priority(m: Map<TaskId, usize>, ready: Seq<TaskId>, n: int)
    requires
        1 <= n <= ready.len(),
    ensures
        0 <= best(m, ready, n) < n,
        forall|i: int| 0 <= i < n ==> prio(m, #[trigger] ready[i]) <= prio(m, ready[best(m, ready, n)]),
    decreases n,
{
    if n > 1 {
        law_pct_runs_highest_priority(m, ready, n - 1);
    }
}

/// Giving priorities from `top` down to the tasks of `s` in the order first
/// seen: the first task gets `top`, every other task a lower one, and the
/// next priority left over is lower than `top`.
proof fn lemma_first_seen_on_top(s: Seq<TaskId>, top: usize)
    requires
        s.len() >= 1,
        top >= 1,
    ensures
        ({
            let (m, next) = assign(Map::empty(), top, s);
            &&& m.contains_key(s[0])
            &&& m[s[0]] == top
            &&& next < top
            &&& forall|k: TaskId| #[trigger] m.contains_key(k) && k != s[0] ==> m[k] < top
            &&& forall|i: int| 0 <= i < s.len() ==> m.contains_key(#[trigger] s[i])
        }),
    decreases s.len(),
{
    if s.len() > 1 {
        lemma_first_seen_on_top(s.drop_last(), top);
        assert(s.drop_last()[0] == s[0]);
        let (m0, n0) = assign(Map::empty(), top, s.drop_last());
        assert forall|i: int| 0 <= i < s.drop_last().len() implies m0.contains_key(#[trigger] s[i]) by {
            assert(s.drop_last()[i] == s[i]);
        }
        let (m1, n1) = assign_one(m0, n0, s.last());
        assert(assign(Map::empty(), top, s) == (m1, n1));
        assert(m1.contains_key(s.last()));
        assert forall|i: int| 0 <= i < s.len() implies m1.contains_key(#[trigger] s[i]) by {
            if i < s.len() - 1 {
                assert(m0.contains_key(s[i]));
            }
        }
        if !m0.contains_key(s.last()) {
            assert(s.last() != s[0]);
            assert forall|k: TaskId| #[trigger] m1.contains_key(k) && k != s[0] implies m1[k] < top by {
                if k != s.last() {
                    assert(m0.contains_key(k));
                }
            }
        }
    } else {
        assert(s.drop_last() =~= Seq::<TaskId>::empty());
        assert(assign(Map::<TaskId, usize>::empty(), top, s.drop_last()) == (Map::<TaskId, usize>::empty(), top));
        let (m1, n1) = assign_one(Map::<TaskId, usize>::empty(), top, s.last());
        assert(assign(Map::empty(), top, s) == (m1, n1));
        assert(s.last() == s[0]);
    }
}

/// A fresh PCT strategy, with no change point at the step, runs the ready
/// task it sees first: that task gets the top priority, above every other
/// ready task.
pub proof fn law_pct_runs_first_seen(ready: Seq<TaskId>)
    requires
        ready.len() >= 1,
    ensures
        ({
            let (m, next) = assign(Map::empty(), usize::MAX, ready);
            &&& forall|i: int| 0 <= i < ready.len() && #[trigger] ready[i] != ready[0]
                ==> prio(m, ready[i]) < prio(m, ready[0])
            &&& ready[best(m, ready, ready.len() as int)] == ready[0]
        }),
{
    lemma_first_seen_on_top(ready, usize::MAX);
    let (m, next) = assign(Map::empty(), usize::MAX, ready);
    law_pct_runs_highest_priority(m, ready, ready.len() as int);
    let b = best(m, ready, ready.len() as int);
    assert(prio(m, ready[0]) <= prio(m, ready[b]));
    assert(m.contains_key(ready[b]));
}

} // verus!
