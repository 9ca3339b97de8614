//! Where work runs: executors, and the dispatchers that hand work to them.

use std::future::Future;
use std::sync::Arc;
use vstd::prelude::*;

verus! {

#[verifier::external_type_specification]
#[verifier::external_body]
pub struct ExRuntimeHandle(tokio::runtime::Handle);

/// The capability to run a unit of work. Nothing is promised about when, or
/// whether, the work runs: an executor that is shut down may drop it.
pub trait Executor: Send + Sync + 'static {
    /// Submits `fut` for execution and returns at once.
    fn spawn<F: Future<Output = ()> + Send + 'static>(&self, fut: F);
}

/// A shareable handle to an executor.
pub struct Dispatcher<E> {
    inner: Arc<E>,
}

impl<E: Executor> Dispatcher<E> {
    /// The executor the dispatcher hands work to.
    pub closed spec fn executor(&self) -> Arc<E> {
        self.inner
    }

    /// A dispatcher on `inner`.
    pub fn new(inner: Arc<E>) -> (dispatcher: Self)
        ensures
            dispatcher.executor() == inner,
    {
        Dispatcher { inner }
    }

    /// Submits `fut` to the executor and returns at once.
    pub fn spawn<F: Future<Output = ()> + Send + 'static>(&self, fut: F) {
        self.inner.spawn(fut)
    }
}

impl<E: Executor> Clone for Dispatcher<E> {
    /// A second handle to the same executor.
    fn clone(&self) -> (copy: Self)
        ensures
            copy.executor() == self.executor(),
    {
        Dispatcher { inner: self.inner.clone() }
    }
}

/// `tokio::runtime::Handle::try_current`: the handle of the runtime that the
/// calling thread is in, and nothing where it is in none. Which of the two
/// comes back depends on the caller's thread, so nothing is claimed of it.
#[verifier::external_body]
fn current_runtime() -> Option<tokio::runtime::Handle> {
    tokio::runtime::Handle::try_current().ok()
}

/// `tokio::runtime::Handle::spawn`: hands the future to the runtime. The join
/// handle is dropped, which detaches the task; nothing is claimed of when the
/// runtime polls it.
#[verifier::external_body]
fn spawn_on<F: Future<Output = ()> + Send + 'static>(runtime: &tokio::runtime::Handle, fut: F) {
    let _ = runtime.spawn(fut);
}

/// The executor that runs work on the Tokio runtime of the calling thread.
pub struct TokioExecutor;

impl Executor for TokioExecutor {
    /// Spawns `fut` on the runtime the caller is in. Outside a runtime there
    /// is nowhere to run it, and it is dropped.
    fn spawn<F: Future<Output = ()> + Send + 'static>(&self, fut: F) {
        match current_runtime() {
            Some(runtime) => spawn_on(&runtime, fut),
            None => {},
        }
    }
}

/// The standard dispatchers. They differ in name only: all of them hand work
/// to the runtime of the calling thread.
pub struct Dispatchers;

impl Dispatchers {
    /// The general-purpose dispatcher.
    pub fn main() -> (dispatcher: Dispatcher<TokioExecutor>) {
        Dispatcher::new(Arc::new(TokioExecutor))
    }

    /// The dispatcher meant for work that waits on I/O.
    pub fn io() -> (dispatcher: Dispatcher<TokioExecutor>) {
        Dispatcher::new(Arc::new(TokioExecutor))
    }

    /// Same as [`Dispatchers::main`].
    pub fn default() -> (dispatcher: Dispatcher<TokioExecutor>) {
        Dispatchers::main()
    }

    /// A dispatcher on an executor of the caller's own.
    pub fn new_custom<E: Executor>(executor: Arc<E>) -> (dispatcher: Dispatcher<E>)
        ensures
            dispatcher.executor() == executor,
    {
        Dispatcher::new(executor)
    }
}

} // verus!
