//! Task handles and the reasons a task can be blocked.
use std::sync::atomic::{AtomicBool, Ordering};
use std::sync::Arc;
use vstd::prelude::*;
use vstd::std_specs::cmp::PartialEqSpecImpl;
use crate::time::instant::Instant;
use crate::TaskId;

verus! {

/// Reason a task is blocked.
#[derive(Debug)]
pub enum BlockReason {
    /// Blocked on time (sleep).
    Time(Instant),
    /// Blocked on channel.
    Channel,
    /// Blocked on network I/O.
    Network,
    /// Blocked on disk I/O.
    Disk,
    /// Blocked on another task.
    Task(TaskId),
    /// Blocked on lock/mutex.
    Lock,
    /// Custom reason.
    Other(String),
}

/// Two reasons are the same: same kind, same instant, task or text.
pub open spec fn same_reason(a: BlockReason, b: BlockReason) -> bool {
    match (a, b) {
        (BlockReason::Time(x), BlockReason::Time(y)) => x == y,
        (BlockReason::Channel, BlockReason::Channel) => true,
        (BlockReason::Network, BlockReason::Network) => true,
        (BlockReason::Disk, BlockReason::Disk) => true,
        (BlockReason::Task(x), BlockReason::Task(y)) => x == y,
        (BlockReason::Lock, BlockReason::Lock) => true,
        (BlockReason::Other(x), BlockReason::Other(y)) => x@ == y@,
        _ => false,
    }
}

impl Clone for BlockReason {
    fn clone(&self) -> (r: Self)
        ensures
            same_reason(r, *self),
    {
        match self {
            BlockReason::Time(i) => BlockReason::Time(*i),
            BlockReason::Channel => BlockReason::Channel,
            BlockReason::Network => BlockReason::Network,
            BlockReason::Disk => BlockReason::Disk,
            BlockReason::Task(t) => BlockReason::Task(*t),
            BlockReason::Lock => BlockReason::Lock,
            BlockReason::Other(s) => BlockReason::Other(s.clone()),
        }
    }
}

impl PartialEq for BlockReason {
    fn eq(&self, other: &Self) -> (r: bool) {
        match (self, other) {
            (BlockReason::Time(x), BlockReason::Time(y)) => x.as_nanos() == y.as_nanos(),
            (BlockReason::Channel, BlockReason::Channel) => true,
            (BlockReason::Network, BlockReason::Network) => true,
            (BlockReason::Disk, BlockReason::Disk) => true,
            (BlockReason::Task(x), BlockReason::Task(y)) => *x == *y,
            (BlockReason::Lock, BlockReason::Lock) => true,
            (BlockReason::Other(x), BlockReason::Other(y)) => x.eq(y),
            _ => false,
        }
    }
}

impl PartialEqSpecImpl for BlockReason {
    open spec fn obeys_eq_spec() -> bool {
        true
    }

    open spec fn eq_spec(&self, other: &Self) -> bool {
        same_reason(*self, *other)
    }
}

/// A handle to a spawned task. Clones share the completion flag, so the
/// flag is state shared between handles and only its reads are reported.
pub struct TaskHandle {
    id: TaskId,
    complete: Arc<AtomicBool>,
}

impl TaskHandle {
    /// The task's id.
    pub closed spec fn task_id(&self) -> TaskId {
        self.id
    }

    /// Create a new task handle, not complete.
    pub fn new(id: TaskId) -> (r: Self)
        ensures
            r.task_id() == id,
    {
        TaskHandle { id, complete: Arc::new(AtomicBool::new(false)) }
    }

    /// Create a task handle that is already complete.
    pub fn completed(id: TaskId) -> (r: Self)
        ensures
            r.task_id() == id,
    {
        let handle = Self::new(id);
        handle.complete.store(true, Ordering::Release);
        handle
    }

    /// Get the task ID.
    pub fn id(&self) -> (r: TaskId)
        ensures
            r == self.task_id(),
    {
        self.id
    }

    /// Whether the task has completed, as any handle of it has recorded.
    pub fn is_complete(&self) -> bool {
        self.complete.load(Ordering::Acquire)
    }

    /// Mark the task as complete, for every handle of it.
    pub fn mark_complete(&self) {
        self.complete.store(true, Ordering::Release);
    }
}

impl Clone for TaskHandle {
    /// Another handle to the same task, sharing its completion flag.
    fn clone(&self) -> (r: Self)
        ensures
            r.task_id() == self.task_id(),
    {
        TaskHandle { id: self.id, complete: Arc::clone(&self.complete) }
    }
}

} // verus!
