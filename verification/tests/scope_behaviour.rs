use coroflow::deferred::{AwaitError, Awaited, Deferred};
use coroflow::{gate, CoroutineScope, Dispatchers, Gate, JobHandle, JobTree};

#[test]
fn launched_coroutines_complete() {
    let mut tree = JobTree::new();
    let scope = CoroutineScope::new(Dispatchers::main(), &mut tree);
    let mut flag = false;

    let job = scope.launch(&mut tree).expect("scope is in the tree");
    if gate(&job, &tree) == Gate::RunBody {
        flag = true;
    }
    job.complete(&mut tree);

    assert!(job.is_terminal(&tree));
    assert!(flag);
}

#[test]
fn cancellation_stops_future_progress() {
    let mut tree = JobTree::new();
    let scope = CoroutineScope::new(Dispatchers::main(), &mut tree);
    let mut flag = false;

    let job = scope.launch(&mut tree).expect("scope is in the tree");

    scope.cancel(&mut tree);
    if gate(&job, &tree) == Gate::RunBody {
        flag = true;
    }
    job.complete(&mut tree);
    assert!(job.is_terminal(&tree));

    assert!(!flag);
}

#[test]
fn launch_installs_scope_and_runs() {
    let mut tree = JobTree::new();
    let scope = CoroutineScope::new(Dispatchers::main(), &mut tree);

    let job = scope.launch(&mut tree).expect("scope is in the tree");
    assert_eq!(gate(&job, &tree), Gate::RunBody);
    let seen = scope.job_handle().is_cancelled(&tree);

    assert!(!seen);
}

#[test]
fn async_task_returns_value() {
    let mut tree = JobTree::new();
    let scope = CoroutineScope::new(Dispatchers::main(), &mut tree);

    let child = scope.child_scope(Dispatchers::io(), &mut tree).expect("scope is in the tree");
    let mut deferred = Deferred::new(child.job_handle());
    assert_eq!(gate(&child.job_handle(), &tree), Gate::RunBody);
    assert!(deferred.deliver(2 + 2, &tree));

    match deferred.poll(&tree) {
        Awaited::Value(result) => assert_eq!(result, 4),
        _ => panic!("the task delivered"),
    }
}

#[test]
fn a_task_launched_under_a_cancelled_scope_never_runs() {
    let mut tree = JobTree::new();
    let scope = CoroutineScope::new(Dispatchers::main(), &mut tree);
    scope.cancel(&mut tree);
    assert!(scope.is_cancelled(&tree));
    let job = scope.launch(&mut tree).expect("scope is in the tree");
    assert!(job.is_cancelled(&tree));
    assert_eq!(gate(&job, &tree), Gate::SkipBody);
}

#[test]
fn cancel_reaches_every_level_and_nothing_else() {
    let mut tree = JobTree::new();
    let root = JobHandle::new(&mut tree);
    let left = root.new_child(&mut tree).unwrap();
    let right = root.new_child(&mut tree).unwrap();
    let below_left = left.new_child(&mut tree).unwrap();
    let deep = below_left.new_child(&mut tree).unwrap();
    let other = JobHandle::new(&mut tree);

    assert!(left.cancel(&mut tree));

    assert!(left.is_cancelled(&tree));
    assert!(below_left.is_cancelled(&tree));
    assert!(deep.is_cancelled(&tree));
    assert!(!root.is_cancelled(&tree));
    assert!(!right.is_cancelled(&tree));
    assert!(!other.is_cancelled(&tree));
}

#[test]
fn cancel_twice_is_cancel_once() {
    let mut tree = JobTree::new();
    let root = JobHandle::new(&mut tree);
    let child = root.new_child(&mut tree).unwrap();

    assert!(root.cancel(&mut tree));
    let late = root.new_child(&mut tree).unwrap();
    assert!(!root.cancel(&mut tree));

    assert!(root.is_cancelled(&tree));
    assert!(child.is_cancelled(&tree));
    assert!(late.is_cancelled(&tree));
    assert!(!child.cancel(&mut tree));
}

#[test]
fn a_released_job_is_skipped_with_what_hangs_below() {
    let mut tree = JobTree::new();
    let root = JobHandle::new(&mut tree);
    let gone = root.new_child(&mut tree).unwrap();
    let below_gone = gone.new_child(&mut tree).unwrap();
    let kept = root.new_child(&mut tree).unwrap();

    gone.release(&mut tree);
    root.cancel(&mut tree);

    assert!(kept.is_cancelled(&tree));
    assert!(!gone.is_cancelled(&tree));
    assert!(!below_gone.is_cancelled(&tree));
}

#[test]
fn a_job_of_another_tree_is_not_held() {
    let mut big = JobTree::new();
    let _first = JobHandle::new(&mut big);
    let second = JobHandle::new(&mut big);
    let mut small = JobTree::new();
    let _only = JobHandle::new(&mut small);

    assert!(!second.is_cancelled(&small));
    assert!(!second.cancel(&mut small));
    assert!(second.new_child(&mut small).is_none());
    assert!(!second.is_terminal(&small));
    second.complete(&mut small);
    second.release(&mut small);
}

#[test]
fn join_waits_for_cancelled_or_completed() {
    let mut tree = JobTree::new();
    let done = JobHandle::new(&mut tree);
    let stopped = JobHandle::new(&mut tree);
    let running = JobHandle::new(&mut tree);
    done.complete(&mut tree);
    stopped.cancel(&mut tree);
    assert!(done.is_terminal(&tree));
    assert!(!done.is_cancelled(&tree));
    assert!(stopped.is_terminal(&tree));
    assert!(!running.is_terminal(&tree));
}

#[test]
fn awaiting_a_cancelled_task_fails_as_cancelled() {
    let mut tree = JobTree::new();
    let job = JobHandle::new(&mut tree);
    let mut deferred: Deferred<i32> = Deferred::new(job);
    job.cancel(&mut tree);
    assert!(!deferred.deliver(5, &tree));
    match deferred.poll(&tree) {
        Awaited::Failed(error) => assert_eq!(error, AwaitError::Cancelled),
        _ => panic!("the task was cancelled"),
    }
}

#[test]
fn a_result_delivered_before_cancellation_is_kept() {
    let mut tree = JobTree::new();
    let job = JobHandle::new(&mut tree);
    let mut deferred = Deferred::new(job);
    assert!(deferred.deliver(5, &tree));
    assert!(!deferred.deliver(6, &tree));
    job.cancel(&mut tree);
    match deferred.poll(&tree) {
        Awaited::Value(value) => assert_eq!(value, 5),
        _ => panic!("the task delivered"),
    }
}

#[test]
fn awaiting_a_dropped_task_fails_as_dropped() {
    let mut tree = JobTree::new();
    let job = JobHandle::new(&mut tree);
    let mut deferred: Deferred<i32> = Deferred::new(job);
    deferred.abandon();
    assert!(!deferred.deliver(1, &tree));
    assert_eq!(deferred.job(), job);
    match deferred.poll(&tree) {
        Awaited::Failed(error) => assert_eq!(error, AwaitError::TaskDropped),
        _ => panic!("the task went away"),
    }
}

#[test]
fn a_pending_task_gives_the_handle_back() {
    let mut tree = JobTree::new();
    let job = JobHandle::new(&mut tree);
    let deferred: Deferred<i32> = Deferred::new(job);
    let mut again = match deferred.poll(&tree) {
        Awaited::Waiting(handle) => handle,
        _ => panic!("nothing is decided yet"),
    };
    assert!(again.deliver(3, &tree));
    match again.poll(&tree) {
        Awaited::Value(value) => assert_eq!(value, 3),
        _ => panic!("the task delivered"),
    }
}
