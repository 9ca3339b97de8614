//! A block of work that can be run any number of times.

use crate::flow::Flow;
use vstd::prelude::*;

verus! {

/// A block that computes a value each time it is called.
pub struct Suspending<F> {
    block: F,
}

impl<T, F: Fn() -> T> Suspending<F> {
    /// The block that is run.
    pub closed spec fn block(&self) -> F {
        self.block
    }

    /// Wraps `f`, to be run on each call.
    pub fn new(f: F) -> (suspending: Self)
        ensures
            suspending.block() == f,
    {
        Suspending { block: f }
    }

    /// Runs the block once and gives what it returns.
    pub fn call(&self) -> (value: T)
        requires
            call_requires(self.block(), ()),
        ensures
            call_ensures(self.block(), (), value),
    {
        (self.block)()
    }

    /// Same as [`Suspending::call`].
    pub fn invoke(&self) -> (value: T)
        requires
            call_requires(self.block(), ()),
        ensures
            call_ensures(self.block(), (), value),
    {
        self.call()
    }
}

/// Turns a block into a stream.
pub trait SuspendingExt<T> {
    /// Whether the block can be run.
    spec fn runnable(&self) -> bool;

    /// Whether the block may return `value`.
    spec fn may_return(&self, value: T) -> bool;

    /// The stream that runs the block once and delivers what it returns.
    fn as_flow(&self) -> (flow: Flow<T>)
        requires
            self.runnable(),
        ensures
            flow@.len() == 1,
            self.may_return(flow@[0]),
    ;
}

impl<T, F: Fn() -> T> SuspendingExt<T> for Suspending<F> {
    open spec fn runnable(&self) -> bool {
        call_requires(self.block(), ())
    }

    open spec fn may_return(&self, value: T) -> bool {
        call_ensures(self.block(), (), value)
    }

    fn as_flow(&self) -> (flow: Flow<T>) {
        let value = self.call();
        let mut values: Vec<T> = Vec::new();
        values.push(value);
        Flow::from_vec(values)
    }
}

} // verus!
