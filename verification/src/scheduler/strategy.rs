//! Scheduling strategy trait and configuration.
use vstd::prelude::*;
use crate::TaskId;

verus! {

/// Configuration for scheduling strategy.
#[derive(Clone, Copy, Debug, PartialEq, Eq, Structural)]
pub enum Strategy {
    /// Random selection with given seed for reproducibility.
    Random { seed: u64 },
    /// First-in-first-out (deterministic baseline).
    Fifo,
    /// Depth-first exploration with bounded stack.
    DepthFirst { max_depth: usize },
    /// Probabilistic Concurrency Testing.
    PCT { seed: u64, bug_depth: usize },
    /// Bound the number of context switches.
    ContextBound { max_preemptions: usize, seed: u64 },
}

impl Default for Strategy {
    /// FIFO.
    fn default() -> (r: Self)
        ensures
            r == Strategy::Fifo,
    {
        Strategy::Fifo
    }
}

/// Trait for scheduling strategy implementations.
pub trait ScheduleStrategy {
    /// When this strategy can make its next choice from `ready` (its own
    /// counters must not overflow).
    spec fn can_select(&self, ready: Seq<TaskId>) -> bool;

    /// Select which task to run from a non-empty ready set; the choice is
    /// one of the ready tasks.
    fn select(&mut self, ready: &[TaskId]) -> (r: TaskId)
        requires
            ready@.len() > 0,
            old(self).can_select(ready@),
        ensures
            ready@.contains(r);

    /// Called when a task yields voluntarily.
    fn on_yield(&mut self, task: TaskId);

    /// Called after a scheduling decision is made.
    fn on_decision(&mut self, chosen: TaskId, ready: &[TaskId]);

    /// Reset state for a new simulation run.
    fn reset(&mut self);
}

/// FIFO strategy: always picks the first ready task.
#[derive(Debug)]
pub struct FifoStrategy;

impl FifoStrategy {
    pub fn new() -> (r: Self) {
        FifoStrategy
    }
}

impl Default for FifoStrategy {
    fn default() -> (r: Self) {
        FifoStrategy
    }
}

impl ScheduleStrategy for FifoStrategy {
    open spec fn can_select(&self, ready: Seq<TaskId>) -> bool {
        true
    }

    /// The first ready task.
    fn select(&mut self, ready: &[TaskId]) -> (r: TaskId)
        ensures
            r == ready@[0],
    {
        ready[0]
    }

    fn on_yield(&mut self, _task: TaskId) {
    }

    /// Nothing changes: this strategy does not learn from decisions.
    fn on_decision(&mut self, _chosen: TaskId, _ready: &[TaskId])
        ensures
            *final(self) == *old(self),
    {
    }

    fn reset(&mut self)
        ensures
            *final(self) == *old(self),
    {
    }
}

} // verus!
