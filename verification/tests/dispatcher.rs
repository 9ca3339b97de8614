use coroflow::{Dispatcher, Dispatchers, Executor, FlowExt, FlowTerminal};
use std::future::Future;
use std::sync::atomic::{AtomicUsize, Ordering};
use std::sync::mpsc;
use std::sync::Arc;
use std::time::Duration;

struct Counting {
    spawned: AtomicUsize,
}

impl Executor for Counting {
    fn spawn<F: Future<Output = ()> + Send + 'static>(&self, fut: F) {
        self.spawned.fetch_add(1, Ordering::SeqCst);
        drop(fut);
    }
}

#[test]
fn a_dispatcher_hands_work_to_its_executor() {
    let executor = Arc::new(Counting { spawned: AtomicUsize::new(0) });
    let dispatcher = Dispatcher::new(Arc::clone(&executor));
    dispatcher.spawn(async {});
    let copy = dispatcher.clone();
    copy.spawn(async {});
    let custom = Dispatchers::new_custom(Arc::clone(&executor));
    custom.spawn(async {});
    assert_eq!(executor.spawned.load(Ordering::SeqCst), 3);
}

#[test]
fn the_standard_dispatchers_run_work_on_the_current_runtime() {
    let runtime = tokio::runtime::Builder::new_multi_thread()
        .worker_threads(1)
        .build()
        .expect("runtime");
    let (tx, rx) = mpsc::channel();
    let _guard = runtime.enter();
    for (dispatcher, value) in
        [(Dispatchers::main(), 1), (Dispatchers::io(), 2), (Dispatchers::default(), 3)]
    {
        let tx = tx.clone();
        dispatcher.spawn(async move {
            let _ = tx.send(value);
        });
    }
    let mut seen = Vec::new();
    for _ in 0..3 {
        seen.push(rx.recv_timeout(Duration::from_secs(5)).expect("the work ran"));
    }
    seen.sort();
    assert_eq!(seen, vec![1, 2, 3]);
}

#[test]
fn outside_a_runtime_the_work_is_dropped() {
    let (tx, rx) = mpsc::channel::<i32>();
    Dispatchers::main().spawn(async move {
        let _ = tx.send(1);
    });
    assert!(rx.recv_timeout(Duration::from_millis(200)).is_err());
}

#[test]
fn flow_on_keeps_values_and_order() {
    let values = coroflow::flow_of(vec![2, 1, 3]).flow_on(Dispatchers::io()).to_vec();
    assert_eq!(values, vec![2, 1, 3]);
}
