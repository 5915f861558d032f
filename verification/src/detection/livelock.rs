//! Livelock detection by counting steps taken without progress.
use vstd::prelude::*;
use crate::TaskId;
use std::collections::HashMap;
use vstd::std_specs::hash::spec_keys_iter;
use vstd::std_specs::iter::IteratorSpec;
use crate::util::seq_facts::{collected, lemma_collect_step};

verus! {

broadcast use vstd::std_specs::hash::group_hash_axioms;

/// A count kept per task: the stored value, or 0 for a task never seen.
pub open spec fn count_of(m: Map<TaskId, u64>, task: TaskId) -> u64 {
    if m.contains_key(task) { m[task] } else { 0 }
}

/// Tracks task progress for livelock detection.
pub struct ProgressTracker {
    /// Steps since last meaningful progress per task
    steps_without_progress: HashMap<TaskId, u64>,
    /// Total steps taken per task
    total_steps: HashMap<TaskId, u64>,
    /// Threshold for considering a task stuck
    threshold: u64,
}

impl ProgressTracker {
    /// Steps since the last progress, per task that has a counter.
    pub closed spec fn stalled(&self) -> Map<TaskId, u64> {
        self.steps_without_progress@
    }

    /// Total steps per task that has a counter.
    pub closed spec fn totals(&self) -> Map<TaskId, u64> {
        self.total_steps@
    }

    /// The number of steps without progress at which a task counts as stuck.
    pub closed spec fn limit(&self) -> u64 {
        self.threshold
    }

    /// A task never has more steps without progress than steps in total.
    pub closed spec fn wf(&self) -> bool {
        forall|t: TaskId| count_of(self.steps_without_progress@, t) <= #[trigger] count_of(self.total_steps@, t)
    }

    /// Whether `task` counts as stuck: it has a counter of steps without
    /// progress and that counter has reached the threshold.
    pub open spec fn spec_is_stuck(&self, task: TaskId) -> bool {
        self.stalled().contains_key(task) && self.stalled()[task] >= self.limit()
    }

    /// Create a new progress tracker.
    pub fn new(threshold: u64) -> (r: Self)
        ensures
            r.wf(),
            r.stalled() == Map::<TaskId, u64>::empty(),
            r.totals() == Map::<TaskId, u64>::empty(),
            r.limit() == threshold,
    {
        ProgressTracker { steps_without_progress: HashMap::new(), total_steps: HashMap::new(), threshold }
    }

    /// Create with the default threshold (1000 steps).
    pub fn with_default_threshold() -> (r: Self)
        ensures
            r.wf(),
            r.stalled() == Map::<TaskId, u64>::empty(),
            r.totals() == Map::<TaskId, u64>::empty(),
            r.limit() == 1000,
    {
        Self::new(1000)
    }

    /// Record that a task took a step: both of its counters go up by one.
    pub fn record_step(&mut self, task: TaskId)
        requires
            old(self).wf(),
            count_of(old(self).totals(), task) < u64::MAX,
        ensures
            final(self).wf(),
            final(self).limit() == old(self).limit(),
            final(self).stalled() == old(self).stalled().insert(task, (count_of(old(self).stalled(), task) + 1) as u64),
            final(self).totals() == old(self).totals().insert(task, (count_of(old(self).totals(), task) + 1) as u64),
    {
        let s = match self.steps_without_progress.get(&task) {
            Some(v) => *v,
            None => 0,
        };
        let t = match self.total_steps.get(&task) {
            Some(v) => *v,
            None => 0,
        };
        proof {
            assert(count_of(self.steps_without_progress@, task) <= count_of(self.total_steps@, task));
        }
        self.steps_without_progress.insert(task, s + 1);
        self.total_steps.insert(task, t + 1);
        proof {
            assert forall|x: TaskId| count_of(self.steps_without_progress@, x) <= #[trigger] count_of(self.total_steps@, x) by {
                assert(count_of(old(self).steps_without_progress@, x) <= count_of(old(self).total_steps@, x));
            }
        }
    }

    /// Record that a task made meaningful progress: its counter of steps
    /// without progress is set to zero.
    pub fn record_progress(&mut self, task: TaskId)
        requires
            old(self).wf(),
        ensures
            final(self).wf(),
            final(self).limit() == old(self).limit(),
            final(self).stalled() == old(self).stalled().insert(task, 0),
            final(self).totals() == old(self).totals(),
    {
        self.steps_without_progress.insert(task, 0);
        proof {
            assert forall|x: TaskId| count_of(self.steps_without_progress@, x) <= #[trigger] count_of(self.total_steps@, x) by {
                assert(count_of(old(self).steps_without_progress@, x) <= count_of(old(self).total_steps@, x));
            }
        }
    }

    /// Remove a task (e.g., when it completes): both counters are dropped.
    pub fn remove_task(&mut self, task: TaskId)
        requires
            old(self).wf(),
        ensures
            final(self).wf(),
            final(self).limit() == old(self).limit(),
            final(self).stalled() == old(self).stalled().remove(task),
            final(self).totals() == old(self).totals().remove(task),
    {
        self.steps_without_progress.remove(&task);
        self.total_steps.remove(&task);
        proof {
            assert forall|x: TaskId| count_of(self.steps_without_progress@, x) <= #[trigger] count_of(self.total_steps@, x) by {
                assert(count_of(old(self).steps_without_progress@, x) <= count_of(old(self).total_steps@, x));
            }
        }
    }

    /// Steps without progress for a task (0 for an unknown task).
    pub fn steps_without_progress(&self, task: TaskId) -> (r: u64)
        ensures
            r == count_of(self.stalled(), task),
    {
        match self.steps_without_progress.get(&task) {
            Some(v) => *v,
            None => 0,
        }
    }

    /// Total steps for a task (0 for an unknown task).
    pub fn total_steps(&self, task: TaskId) -> (r: u64)
        ensures
            r == count_of(self.totals(), task),
    {
        match self.total_steps.get(&task) {
            Some(v) => *v,
            None => 0,
        }
    }

    /// Whether a task's steps without progress have reached the threshold
    /// (an unknown task counts as having taken none).
    pub fn is_stuck(&self, task: TaskId) -> (r: bool)
        ensures
            r == (count_of(self.stalled(), task) >= self.limit()),
    {
        self.steps_without_progress(task) >= self.threshold
    }

    /// All tasks that appear stuck, each once.
    pub fn stuck_tasks(&self) -> (r: Vec<TaskId>)
        ensures
            r@.no_duplicates(),
            forall|t: TaskId| r@.contains(t) <==> self.spec_is_stuck(t),
    {
        let ghost keys = spec_keys_iter(&self.steps_without_progress).remaining().unref();
        let ghost p = |t: TaskId| self.spec_is_stuck(t);
        let mut out: Vec<TaskId> = Vec::new();
        for k in it: self.steps_without_progress.keys()
            invariant
                it.seq().unref() == keys,
                keys.no_duplicates(),
                keys.to_set() == self.steps_without_progress@.dom(),
                collected(out@, keys, it.index() as int, p),
                p == (|t: TaskId| self.spec_is_stuck(t)),
        {
            proof {
                lemma_collect_step(out@, keys, it.index() as int, p);
            }
            if self.steps_without_progress(*k) >= self.threshold {
                out.push(*k);
            }
        }
        proof {
            assert forall|t: TaskId| out@.contains(t) <==> self.spec_is_stuck(t) by {
                if self.spec_is_stuck(t) {
                    assert(keys.contains(t));
                    let j = choose|j: int| 0 <= j < keys.len() && keys[j] == t;
                    assert(p(t));
                }
            }
        }
        out
    }

    /// Set the threshold.
    pub fn set_threshold(&mut self, threshold: u64)
        requires
            old(self).wf(),
        ensures
            final(self).wf(),
            final(self).limit() == threshold,
            final(self).stalled() == old(self).stalled(),
            final(self).totals() == old(self).totals(),
    {
        self.threshold = threshold;
    }

    /// Get the threshold.
    pub fn threshold(&self) -> (r: u64)
        ensures
            r == self.limit(),
    {
        self.threshold
    }
}

/// Livelock detector that monitors multiple tasks.
pub struct LivelockDetector {
    tracker: ProgressTracker,
}

impl LivelockDetector {
    /// The progress counters the detector keeps.
    pub closed spec fn tracker(&self) -> ProgressTracker {
        self.tracker
    }

    pub closed spec fn wf(&self) -> bool {
        self.tracker.wf()
    }

    /// Create a new livelock detector.
    pub fn new(threshold: u64) -> (r: Self)
        ensures
            r.wf(),
            r.tracker().stalled() == Map::<TaskId, u64>::empty(),
            r.tracker().totals() == Map::<TaskId, u64>::empty(),
            r.tracker().limit() == threshold,
    {
        LivelockDetector { tracker: ProgressTracker::new(threshold) }
    }

    /// Create with the default threshold (1000 steps).
    pub fn with_default_threshold() -> (r: Self)
        ensures
            r.wf(),
            r.tracker().stalled() == Map::<TaskId, u64>::empty(),
            r.tracker().totals() == Map::<TaskId, u64>::empty(),
            r.tracker().limit() == 1000,
    {
        Self::new(1000)
    }

    /// Record that a task took a step (no meaningful progress).
    pub fn task_step(&mut self, task: TaskId)
        requires
            old(self).wf(),
            count_of(old(self).tracker().totals(), task) < u64::MAX,
        ensures
            final(self).wf(),
            final(self).tracker().limit() == old(self).tracker().limit(),
            final(self).tracker().stalled() == old(self).tracker().stalled().insert(
                task, (count_of(old(self).tracker().stalled(), task) + 1) as u64),
            final(self).tracker().totals() == old(self).tracker().totals().insert(
                task, (count_of(old(self).tracker().totals(), task) + 1) as u64),
    {
        self.tracker.record_step(task);
    }

    /// Record that a task made meaningful progress.
    pub fn task_progress(&mut self, task: TaskId)
        requires
            old(self).wf(),
        ensures
            final(self).wf(),
            final(self).tracker().limit() == old(self).tracker().limit(),
            final(self).tracker().stalled() == old(self).tracker().stalled().insert(task, 0),
            final(self).tracker().totals() == old(self).tracker().totals(),
    {
        self.tracker.record_progress(task);
    }

    /// Record that a task completed: it is no longer tracked.
    pub fn task_completed(&mut self, task: TaskId)
        requires
            old(self).wf(),
        ensures
            final(self).wf(),
            final(self).tracker().limit() == old(self).tracker().limit(),
            final(self).tracker().stalled() == old(self).tracker().stalled().remove(task),
            final(self).tracker().totals() == old(self).tracker().totals().remove(task),
    {
        self.tracker.remove_task(task);
    }

    /// Check for livelock: `None` when no task is stuck, otherwise every
    /// stuck task, each once.
    pub fn check(&self) -> (r: Option<Vec<TaskId>>)
        ensures
            r is None <==> !exists|t: TaskId| self.tracker().spec_is_stuck(t),
            r matches Some(v) ==> v@.no_duplicates()
                && forall|t: TaskId| v@.contains(t) <==> self.tracker().spec_is_stuck(t),
    {
        let stuck = self.tracker.stuck_tasks();
        if stuck.len() == 0 {
            proof {
                assert forall|t: TaskId| !self.tracker().spec_is_stuck(t) by {
                    if self.tracker().spec_is_stuck(t) {
                        assert(stuck@.contains(t));
                    }
                }
            }
            None
        } else {
            proof {
                assert(stuck@.contains(stuck@[0]));
                assert(self.tracker().spec_is_stuck(stuck@[0]));
            }
            Some(stuck)
        }
    }

    /// Check if a specific task is stuck.
    pub fn is_stuck(&self, task: TaskId) -> (r: bool)
        ensures
            r == (count_of(self.tracker().stalled(), task) >= self.tracker().limit()),
    {
        self.tracker.is_stuck(task)
    }

    /// Progress info for a task: (steps without progress, total steps).
    pub fn task_info(&self, task: TaskId) -> (r: (u64, u64))
        ensures
            r.0 == count_of(self.tracker().stalled(), task),
            r.1 == count_of(self.tracker().totals(), task),
    {
        (self.tracker.steps_without_progress(task), self.tracker.total_steps(task))
    }
}

} // verus!
