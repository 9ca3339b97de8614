//! Scopes: a dispatcher bound to a job, and the decisions taken when work is
//! launched under a scope, started, and awaited.

use crate::dispatcher::{Dispatcher, Executor};
use crate::job::{
    cancelled_after, lemma_cancel_reaches_below, linked_below, well_formed, JobHandle, JobNode,
    JobTree,
};
use vstd::prelude::*;

verus! {

/// A lifetime for work: everything launched through a scope runs under the
/// scope's job, so that cancelling the scope cancels all of it.
pub struct CoroutineScope<E> {
    dispatcher: Dispatcher<E>,
    job: JobHandle,
}

/// What a launched task does when its turn comes.
#[derive(Debug, Clone, Copy, PartialEq, Eq, Structural)]
pub enum Gate {
    /// The task's body runs.
    RunBody,
    /// The task was cancelled before it began: the body is skipped, and the
    /// task completes at once.
    SkipBody,
}

impl<E: Executor> CoroutineScope<E> {
    /// The job that everything in the scope runs under.
    pub closed spec fn job(&self) -> JobHandle {
        self.job
    }

    /// The dispatcher that the scope's work is handed to.
    pub closed spec fn dispatcher(&self) -> Dispatcher<E> {
        self.dispatcher
    }

    /// A root scope on `dispatcher`, under a new job without a parent.
    pub fn new(dispatcher: Dispatcher<E>, tree: &mut JobTree) -> (scope: Self)
        ensures
            scope.dispatcher() == dispatcher,
            scope.job().index() == old(tree)@.len(),
            final(tree)@ == old(tree)@.push(
                JobNode { parent: None, cancelled: false, completed: false, alive: true },
            ),
    {
        let job = JobHandle::new(tree);
        CoroutineScope { dispatcher, job }
    }

    /// The scope's job.
    pub fn job_handle(&self) -> (job: JobHandle)
        ensures
            job == self.job(),
    {
        self.job
    }

    /// The scope's dispatcher.
    pub fn dispatcher_handle(&self) -> (dispatcher: &Dispatcher<E>)
        ensures
            *dispatcher == self.dispatcher(),
    {
        &self.dispatcher
    }

    /// Registers a task under the scope: a new job below the scope's job,
    /// cancelled from the start if the scope is. The caller schedules the
    /// task's work on the scope's dispatcher, asks [`gate`] when its turn
    /// comes and calls `complete` on the job when it is through.
    pub fn launch(&self, tree: &mut JobTree) -> (task: Option<JobHandle>)
        ensures
            task is Some <==> self.job().index() < old(tree)@.len(),
            task is None ==> final(tree)@ == old(tree)@,
            task matches Some(job) ==> job.index() == old(tree)@.len() && final(tree)@ == old(
                tree,
            )@.push(
                JobNode {
                    parent: Some(self.job().index() as usize),
                    cancelled: old(tree)@[self.job().index()].cancelled,
                    completed: false,
                    alive: true,
                },
            ),
    {
        self.job.new_child(tree)
    }

    /// A scope for work that runs on another dispatcher: bound to
    /// `dispatcher`, under a new job below this scope's job, so that the work
    /// is cancelled with this scope wherever it runs.
    pub fn child_scope<D: Executor>(&self, dispatcher: Dispatcher<D>, tree: &mut JobTree) -> (child:
        Option<CoroutineScope<D>>)
        ensures
            child is Some <==> self.job().index() < old(tree)@.len(),
            child is None ==> final(tree)@ == old(tree)@,
            child matches Some(scope) ==> scope.dispatcher() == dispatcher && scope.job().index()
                == old(tree)@.len() && final(tree)@ == old(tree)@.push(
                JobNode {
                    parent: Some(self.job().index() as usize),
                    cancelled: old(tree)@[self.job().index()].cancelled,
                    completed: false,
                    alive: true,
                },
            ),
    {
        match self.job.new_child(tree) {
            Some(job) => Some(CoroutineScope { dispatcher, job }),
            None => None,
        }
    }

    /// Cancels the scope's job and all that hangs below it.
    pub fn cancel(&self, tree: &mut JobTree)
        ensures
            final(tree)@ == cancelled_after(old(tree)@, self.job().index()),
            well_formed(final(tree)@),
    {
        let _ = self.job.cancel(tree);
    }

    /// Whether the scope is cancelled.
    pub fn is_cancelled(&self, tree: &JobTree) -> (cancelled: bool)
        ensures
            cancelled == (self.job().index() < tree@.len() && tree@[self.job().index()].cancelled),
    {
        self.job.is_cancelled(tree)
    }
}

/// What the task at `task` does when its turn comes, the jobs being `jobs`.
pub open spec fn gate_of(jobs: Seq<JobNode>, task: int) -> Gate {
    if task < jobs.len() && jobs[task].cancelled {
        Gate::SkipBody
    } else {
        Gate::RunBody
    }
}

/// What the task registered as `task` does when its turn comes: its body runs
/// if and only if the task is not cancelled by then.
pub fn gate(task: &JobHandle, tree: &JobTree) -> (decision: Gate)
    ensures
        decision == gate_of(tree@, task.index()),
{
    if task.is_cancelled(tree) {
        Gate::SkipBody
    } else {
        Gate::RunBody
    }
}

/// A task that is launched under a scope, or under anything launched under
/// it, and has not begun when the scope is cancelled never runs its body.
pub proof fn lemma_cancelled_scope_skips_bodies(jobs: Seq<JobNode>, scope: int, task: int)
    requires
        well_formed(jobs),
        0 <= scope < jobs.len(),
        0 <= task < jobs.len(),
        linked_below(jobs, task, scope),
    ensures
        gate_of(cancelled_after(jobs, scope), task) == Gate::SkipBody,
{
    lemma_cancel_reaches_below(jobs, task, scope);
}

/// A task launched under a scope that is cancelled already never runs its
/// body either.
pub proof fn lemma_late_task_skips_body(jobs: Seq<JobNode>, scope: int)
    requires
        0 <= scope < jobs.len(),
        jobs[scope].cancelled,
    ensures
        gate_of(
            jobs.push(
                JobNode {
                    parent: Some(scope as usize),
                    cancelled: jobs[scope].cancelled,
                    completed: false,
                    alive: true,
                },
            ),
            jobs.len() as int,
        ) == Gate::SkipBody,
{
}

} // verus!
