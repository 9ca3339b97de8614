//! The cancellation tree.
//!
//! A [`JobTree`] owns every job; a [`JobHandle`] names one of them. A job
//! knows its parent, so that cancelling a job reaches the jobs below it
//! through links that are still alive, without the parent owning its children.

use vstd::prelude::*;

verus! {

/// One job of the tree.
pub struct JobNode {
    /// The job this one was created under, if any.
    pub parent: Option<usize>,
    /// Whether the job is cancelled. Cancellation is never undone.
    pub cancelled: bool,
    /// Whether the job's work has ended.
    pub completed: bool,
    /// Whether somebody still holds the job. A job that nobody holds is
    /// skipped when a cancellation comes down from its parent.
    pub alive: bool,
}

/// Whether `node` is `root` or hangs below it by links that are alive.
pub open spec fn linked_below(jobs: Seq<JobNode>, node: int, root: int) -> bool
    decreases node,
{
    node == root || (0 <= node < jobs.len() && jobs[node].alive && match jobs[node].parent {
        Some(parent) => parent < node && linked_below(jobs, parent as int, root),
        None => false,
    })
}

/// Every job comes after its parent, and a job that is alive under a
/// cancelled parent is cancelled.
pub open spec fn well_formed(jobs: Seq<JobNode>) -> bool {
    forall|i: int|
        0 <= i < jobs.len() ==> match (#[trigger] jobs[i]).parent {
            Some(parent) => parent < i && (jobs[i].alive && jobs[parent as int].cancelled
                ==> jobs[i].cancelled),
            None => true,
        }
}

/// The jobs after `target` is cancelled: a job is cancelled if it was before,
/// or if it is `target` or hangs below it. Cancelling what is cancelled
/// already, or what the tree does not hold, changes nothing.
pub open spec fn cancelled_after(jobs: Seq<JobNode>, target: int) -> Seq<JobNode> {
    if 0 <= target < jobs.len() && !jobs[target].cancelled {
        Seq::new(
            jobs.len(),
            |i: int|
                JobNode {
                    parent: jobs[i].parent,
                    cancelled: jobs[i].cancelled || linked_below(jobs, i, target),
                    completed: jobs[i].completed,
                    alive: jobs[i].alive,
                },
        )
    } else {
        jobs
    }
}

/// All jobs, in the order of their creation.
pub struct JobTree {
    nodes: Vec<JobNode>,
}

impl View for JobTree {
    type V = Seq<JobNode>;

    closed spec fn view(&self) -> Seq<JobNode> {
        self.nodes@
    }
}

/// The name of one job of a tree.
#[derive(Clone, Copy, Debug, PartialEq, Eq, Structural)]
pub struct JobHandle {
    index: usize,
}

impl JobTree {
    #[verifier::type_invariant]
    spec fn inv(self) -> bool {
        well_formed(self.nodes@)
    }

    /// A tree without jobs.
    pub fn new() -> (tree: Self)
        ensures
            tree@ == Seq::<JobNode>::empty(),
    {
        JobTree { nodes: Vec::new() }
    }
}

impl JobHandle {
    /// The place of the job in its tree.
    pub closed spec fn index(&self) -> int {
        self.index as int
    }

    /// Creates a job without a parent: running, alive, the last of the tree.
    pub fn new(tree: &mut JobTree) -> (job: Self)
        ensures
            job.index() == old(tree)@.len(),
            final(tree)@ == old(tree)@.push(
                JobNode { parent: None, cancelled: false, completed: false, alive: true },
            ),
    {
        proof {
            use_type_invariant(&*tree);
        }
        let index = tree.nodes.len();
        let mut nodes: Vec<JobNode> = Vec::new();
        core::mem::swap(&mut tree.nodes, &mut nodes);
        nodes.push(JobNode { parent: None, cancelled: false, completed: false, alive: true });
        tree.nodes = nodes;
        JobHandle { index }
    }

    /// Creates a job under this one, the last of the tree. It is cancelled
    /// from the start if and only if this job is. Where the tree does not
    /// hold this job, nothing is created.
    pub fn new_child(&self, tree: &mut JobTree) -> (child: Option<Self>)
        ensures
            child is Some <==> self.index() < old(tree)@.len(),
            child is None ==> final(tree)@ == old(tree)@,
            child matches Some(job) ==> job.index() == old(tree)@.len() && final(tree)@ == old(
                tree,
            )@.push(
                JobNode {
                    parent: Some(self.index() as usize),
                    cancelled: old(tree)@[self.index()].cancelled,
                    completed: false,
                    alive: true,
                },
            ),
    {
        proof {
            use_type_invariant(&*tree);
        }
        if self.index < tree.nodes.len() {
            let index = tree.nodes.len();
            let cancelled = tree.nodes[self.index].cancelled;
            let mut nodes: Vec<JobNode> = Vec::new();
            core::mem::swap(&mut tree.nodes, &mut nodes);
            nodes.push(
                JobNode { parent: Some(self.index), cancelled, completed: false, alive: true },
            );
            tree.nodes = nodes;
            Some(JobHandle { index })
        } else {
            None
        }
    }

    /// Whether the job is cancelled. A job that the tree does not hold is not.
    pub fn is_cancelled(&self, tree: &JobTree) -> (cancelled: bool)
        ensures
            cancelled == (self.index() < tree@.len() && tree@[self.index()].cancelled),
    {
        self.index < tree.nodes.len() && tree.nodes[self.index].cancelled
    }

    /// Whether the job has reached a terminal state, cancelled or completed:
    /// what a caller that joins the job waits for.
    pub fn is_terminal(&self, tree: &JobTree) -> (terminal: bool)
        ensures
            terminal == (self.index() < tree@.len() && (tree@[self.index()].cancelled
                || tree@[self.index()].completed)),
    {
        self.index < tree.nodes.len() && (tree.nodes[self.index].cancelled
            || tree.nodes[self.index].completed)
    }

    /// Cancels the job and every job that hangs below it by links that are
    /// alive. Only the call that takes the job from running to cancelled does
    /// anything, and reports so; on a job that is cancelled already, or that
    /// the tree does not hold, nothing changes.
    pub fn cancel(&self, tree: &mut JobTree) -> (won: bool)
        ensures
            won == (self.index() < old(tree)@.len() && !old(tree)@[self.index()].cancelled),
            final(tree)@ == cancelled_after(old(tree)@, self.index()),
            well_formed(final(tree)@),
    {
        proof {
            use_type_invariant(&*tree);
        }
        if self.index >= tree.nodes.len() || tree.nodes[self.index].cancelled {
            return false;
        }
        let ghost before = tree@;
        let target = self.index;
        let mut nodes: Vec<JobNode> = Vec::new();
        core::mem::swap(&mut tree.nodes, &mut nodes);
        nodes[target].cancelled = true;
        let count = nodes.len();
        let mut j = target + 1;
        proof {
            assert forall|i: int| 0 <= i < target implies !linked_below(
                before,
                i,
                target as int,
            ) by {
                lemma_linked_not_above(before, i, target as int);
            }
        }
        while j < count
            invariant
                well_formed(before),
                target < j <= count,
                count == before.len(),
                nodes@.len() == before.len(),
                forall|i: int|
                    0 <= i < before.len() ==> (#[trigger] nodes@[i]).parent == before[i].parent
                        && nodes@[i].completed == before[i].completed && nodes@[i].alive
                        == before[i].alive,
                forall|i: int|
                    0 <= i < j ==> (#[trigger] nodes@[i]).cancelled == (before[i].cancelled
                        || linked_below(before, i, target as int)),
                forall|i: int|
                    j <= i < before.len() ==> (#[trigger] nodes@[i]).cancelled
                        == before[i].cancelled,
            decreases count - j,
        {
            let reached = nodes[j].alive && match nodes[j].parent {
                Some(parent) => parent < count && nodes[parent].cancelled,
                None => false,
            };
            proof {
                assert(before[j as int].parent == nodes@[j as int].parent);
                match before[j as int].parent {
                    Some(parent) => {
                        assert(parent < j);
                        lemma_linked_not_above(before, parent as int, target as int);
                    },
                    None => {},
                }
            }
            if reached {
                nodes[j].cancelled = true;
            }
            j = j + 1;
        }
        proof {
            assert(nodes@ =~= cancelled_after(before, target as int));
            lemma_cancel_keeps_well_formed(before, target as int);
        }
        tree.nodes = nodes;
        true
    }

    /// Marks the job's work as ended. A job that the tree does not hold is
    /// left alone.
    pub fn complete(&self, tree: &mut JobTree)
        ensures
            final(tree)@ == completed_after(old(tree)@, self.index()),
            well_formed(final(tree)@),
    {
        proof {
            use_type_invariant(&*tree);
        }
        if self.index < tree.nodes.len() {
            let ghost before = tree@;
            let mut nodes: Vec<JobNode> = Vec::new();
            core::mem::swap(&mut tree.nodes, &mut nodes);
            nodes[self.index].completed = true;
            proof {
                assert(nodes@ =~= completed_after(before, self.index()));
            }
            tree.nodes = nodes;
        }
    }

    /// Gives the job up: nobody holds it any more. A cancellation that comes
    /// down from its parent later skips it, and with it what hangs below.
    pub fn release(&self, tree: &mut JobTree)
        ensures
            final(tree)@ == released_after(old(tree)@, self.index()),
            well_formed(final(tree)@),
    {
        proof {
            use_type_invariant(&*tree);
        }
        if self.index < tree.nodes.len() {
            let ghost before = tree@;
            let mut nodes: Vec<JobNode> = Vec::new();
            core::mem::swap(&mut tree.nodes, &mut nodes);
            nodes[self.index].alive = false;
            proof {
                assert(nodes@ =~= released_after(before, self.index()));
            }
            tree.nodes = nodes;
        }
    }
}

/// The jobs after `target` is marked as completed.
pub open spec fn completed_after(jobs: Seq<JobNode>, target: int) -> Seq<JobNode> {
    if 0 <= target < jobs.len() {
        jobs.update(
            target,
            JobNode {
                parent: jobs[target].parent,
                cancelled: jobs[target].cancelled,
                completed: true,
                alive: jobs[target].alive,
            },
        )
    } else {
        jobs
    }
}

/// The jobs after `target` is given up.
pub open spec fn released_after(jobs: Seq<JobNode>, target: int) -> Seq<JobNode> {
    if 0 <= target < jobs.len() {
        jobs.update(
            target,
            JobNode {
                parent: jobs[target].parent,
                cancelled: jobs[target].cancelled,
                completed: jobs[target].completed,
                alive: false,
            },
        )
    } else {
        jobs
    }
}

/// A job never hangs below a job that was created after it.
pub proof fn lemma_linked_not_above(jobs: Seq<JobNode>, node: int, root: int)
    ensures
        linked_below(jobs, node, root) ==> root <= node,
    decreases node,
{
    if node != root && 0 <= node < jobs.len() {
        match jobs[node].parent {
            Some(parent) => {
                if parent < node {
                    lemma_linked_not_above(jobs, parent as int, root);
                }
            },
            None => {},
        }
    }
}

/// Cancellation keeps the tree well formed.
pub proof fn lemma_cancel_keeps_well_formed(jobs: Seq<JobNode>, target: int)
    requires
        well_formed(jobs),
    ensures
        well_formed(cancelled_after(jobs, target)),
{
    let after = cancelled_after(jobs, target);
    assert forall|i: int| 0 <= i < after.len() implies match (#[trigger] after[i]).parent {
        Some(parent) => parent < i && (after[i].alive && after[parent as int].cancelled
            ==> after[i].cancelled),
        None => true,
    } by {
        assert(jobs[i].parent == after[i].parent);
    }
}

/// Cancelling a job twice leaves the tree as cancelling it once does.
pub proof fn lemma_cancel_twice_is_cancel_once(jobs: Seq<JobNode>, target: int)
    ensures
        cancelled_after(cancelled_after(jobs, target), target) == cancelled_after(jobs, target),
{
}

/// In a well-formed tree, what hangs below a cancelled job by links that are
/// alive is cancelled.
pub proof fn lemma_cancelled_reaches_below(jobs: Seq<JobNode>, node: int, root: int)
    requires
        well_formed(jobs),
        0 <= root < jobs.len(),
        0 <= node < jobs.len(),
        jobs[root].cancelled,
        linked_below(jobs, node, root),
    ensures
        jobs[node].cancelled,
    decreases node,
{
    if node != root {
        let parent = jobs[node].parent.unwrap();
        lemma_cancelled_reaches_below(jobs, parent as int, root);
    }
}

/// Once a job is cancelled, every job that hangs below it by links that are
/// alive is cancelled too: a task launched under a scope, and not begun when
/// the scope is cancelled, finds itself cancelled when its turn comes.
pub proof fn lemma_cancel_reaches_below(jobs: Seq<JobNode>, node: int, root: int)
    requires
        well_formed(jobs),
        0 <= root < jobs.len(),
        0 <= node < jobs.len(),
        linked_below(jobs, node, root),
    ensures
        cancelled_after(jobs, root)[node].cancelled,
{
    if jobs[root].cancelled {
        lemma_cancelled_reaches_below(jobs, node, root);
    }
}

/// Cancellation is for good and touches nothing else: a job that was
/// cancelled stays so, and parents, completion and liveness stay as they are.
pub proof fn lemma_cancel_only_adds(jobs: Seq<JobNode>, target: int, node: int)
    requires
        0 <= node < jobs.len(),
    ensures
        cancelled_after(jobs, target).len() == jobs.len(),
        jobs[node].cancelled ==> cancelled_after(jobs, target)[node].cancelled,
        cancelled_after(jobs, target)[node].parent == jobs[node].parent,
        cancelled_after(jobs, target)[node].completed == jobs[node].completed,
        cancelled_after(jobs, target)[node].alive == jobs[node].alive,
{
}

} // verus!
