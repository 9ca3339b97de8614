//! The one-shot result of a task that was started to be awaited later.

use crate::job::{JobHandle, JobTree};
use vstd::prelude::*;

verus! {

/// Why awaiting a task gave no value.
#[derive(Debug, Clone, Copy, PartialEq, Eq, Structural)]
pub enum AwaitError {
    /// The task was cancelled before it delivered its result.
    Cancelled,
    /// The task went away without delivering a result and without being
    /// cancelled: its dispatcher dropped it.
    TaskDropped,
}

/// What a task has left for the one that awaits it.
pub enum Slot<T> {
    /// Nothing yet; the task may still deliver.
    Pending,
    /// The result, not yet taken.
    Ready(T),
    /// The task went away without delivering.
    Dropped,
}

/// The handle to a task's result.
pub struct Deferred<T> {
    job: JobHandle,
    slot: Slot<T>,
}

/// What one look at a [`Deferred`] gives.
pub enum Awaited<T> {
    /// The task's result. It is handed out once: the handle is used up.
    Value(T),
    /// The task will never deliver. The handle is used up.
    Failed(AwaitError),
    /// Nothing is decided yet: the caller suspends and looks again with the
    /// handle it gets back.
    Waiting(Deferred<T>),
}

/// Whether the tree holds `job` as a cancelled job.
pub open spec fn job_cancelled(tree: JobTree, job: JobHandle) -> bool {
    job.index() < tree@.len() && tree@[job.index()].cancelled
}

impl<T> Deferred<T> {
    /// The job of the task.
    pub closed spec fn spec_job(&self) -> JobHandle {
        self.job
    }

    /// What the task has left so far.
    pub closed spec fn slot(&self) -> Slot<T> {
        self.slot
    }

    /// The handle to the result of the task that runs as `job`.
    pub fn new(job: JobHandle) -> (deferred: Self)
        ensures
            deferred.job() == job,
            deferred.slot() is Pending,
    {
        Deferred { job, slot: Slot::Pending }
    }

    /// The job of the task, to cancel or join it.
    #[verifier::when_used_as_spec(spec_job)]
    pub fn job(&self) -> (job: JobHandle)
        ensures
            job == self.spec_job(),
    {
        self.job
    }

    /// The task hands in its result. It is accepted if and only if nothing
    /// was handed in before and the task is not cancelled; a result that is
    /// not accepted is dropped and never seen.
    pub fn deliver(&mut self, value: T, tree: &JobTree) -> (accepted: bool)
        ensures
            accepted == (old(self).slot() is Pending && !job_cancelled(*tree, old(self).job())),
            final(self).job() == old(self).job(),
            final(self).slot() == if accepted {
                Slot::Ready(value)
            } else {
                old(self).slot()
            },
    {
        let pending = match &self.slot {
            Slot::Pending => true,
            _ => false,
        };
        if pending && !self.job.is_cancelled(tree) {
            self.slot = Slot::Ready(value);
            true
        } else {
            false
        }
    }

    /// The task goes away. Where it has delivered nothing, it never will.
    pub fn abandon(&mut self)
        ensures
            final(self).job() == old(self).job(),
            final(self).slot() == match old(self).slot() {
                Slot::Pending => Slot::Dropped,
                other => other,
            },
    {
        let pending = match &self.slot {
            Slot::Pending => true,
            _ => false,
        };
        if pending {
            self.slot = Slot::Dropped;
        }
    }

    /// One look at the result. A result that was delivered is handed out,
    /// also where the task was cancelled afterwards. Without a result, a
    /// cancelled task gives `Cancelled`, a task that went away gives
    /// `TaskDropped`, and a task that may still deliver gives the handle back.
    pub fn poll(self, tree: &JobTree) -> (outcome: Awaited<T>)
        ensures
            outcome == match self.slot() {
                Slot::Ready(value) => Awaited::Value(value),
                Slot::Pending => if job_cancelled(*tree, self.job()) {
                    Awaited::Failed(AwaitError::Cancelled)
                } else {
                    Awaited::Waiting(self)
                },
                Slot::Dropped => if job_cancelled(*tree, self.job()) {
                    Awaited::Failed(AwaitError::Cancelled)
                } else {
                    Awaited::Failed(AwaitError::TaskDropped)
                },
            },
    {
        let cancelled = self.job.is_cancelled(tree);
        match self.slot {
            Slot::Ready(value) => Awaited::Value(value),
            Slot::Pending => if cancelled {
                Awaited::Failed(AwaitError::Cancelled)
            } else {
                Awaited::Waiting(Deferred { job: self.job, slot: Slot::Pending })
            },
            Slot::Dropped => if cancelled {
                Awaited::Failed(AwaitError::Cancelled)
            } else {
                Awaited::Failed(AwaitError::TaskDropped)
            },
        }
    }
}

} // verus!
