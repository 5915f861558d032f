//! Random scheduling strategy for exploring interleavings.
use rand::rngs::StdRng;
use vstd::prelude::*;
use crate::scheduler::strategy::ScheduleStrategy;
use crate::util::rng::{draw_index, index_draw, rng_from_seed, seeded};
use crate::TaskId;

verus! {

/// Random scheduling strategy: picks uniformly among the ready tasks with a
/// generator seeded for reproducibility. Same seed, same choices.
pub struct RandomStrategy {
    rng: StdRng,
    seed: u64,
}

impl RandomStrategy {
    /// The generator's current state.
    pub closed spec fn generator(&self) -> StdRng {
        self.rng
    }

    /// The seed the strategy was made with.
    pub closed spec fn seed_value(&self) -> u64 {
        self.seed
    }

    /// Creates a new random strategy with the given seed.
    pub fn new(seed: u64) -> (r: Self)
        ensures
            r.seed_value() == seed,
            r.generator() == seeded(seed),
    {
        RandomStrategy { rng: rng_from_seed(seed), seed }
    }

    /// Returns the seed used for this strategy.
    pub fn seed(&self) -> (r: u64)
        ensures
            r == self.seed_value(),
    {
        self.seed
    }
}

impl ScheduleStrategy for RandomStrategy {
    open spec fn can_select(&self, ready: Seq<TaskId>) -> bool {
        true
    }

    /// A lone ready task is chosen without drawing; otherwise an index is
    /// drawn from the generator.
    fn select(&mut self, ready: &[TaskId]) -> (r: TaskId)
        ensures
            final(self).seed_value() == old(self).seed_value(),
            ready@.len() == 1 ==> r == ready@[0] && final(self).generator() == old(self).generator(),
            ready@.len() > 1 ==> ({
                let (i, next) = index_draw(old(self).generator(), ready@.len() as usize);
                r == ready@[i as int] && final(self).generator() == next
            }),
    {
        if ready.len() == 1 {
            return ready[0];
        }
        let idx = draw_index(&mut self.rng, ready.len());
        ready[idx]
    }

    fn on_yield(&mut self, _task: TaskId) {
    }

    /// Nothing changes: this strategy does not learn from decisions.
    fn on_decision(&mut self, _chosen: TaskId, _ready: &[TaskId])
        ensures
            *final(self) == *old(self),
    {
    }

    /// Re-seeds the generator, so the next run repeats this run's choices.
    fn reset(&mut self)
        ensures
            final(self).seed_value() == old(self).seed_value(),
            final(self).generator() == seeded(old(self).seed_value()),
    {
        self.rng = rng_from_seed(self.seed);
    }
}

} // verus!
