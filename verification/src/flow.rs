//! Cold streams and the collector a producer emits into.
//!
//! A [`Flow`] describes one complete collection of a cold stream: the values
//! the producer delivers, in emission order. Every operator consumes such a
//! description and returns the description of the stream it builds, so a
//! contract can say exactly which values reach the consumer.

use vstd::prelude::*;

verus! {

/// The sink handed to a producer. Each `emit` delivers one value downstream;
/// the view is the sequence of values delivered so far.
pub struct FlowCollector<T> {
    received: Vec<T>,
}

impl<T> View for FlowCollector<T> {
    type V = Seq<T>;

    closed spec fn view(&self) -> Seq<T> {
        self.received@
    }
}

impl<T> FlowCollector<T> {
    /// A collector that has received nothing yet.
    pub fn new() -> (collector: Self)
        ensures
            collector@ == Seq::<T>::empty(),
    {
        FlowCollector { received: Vec::new() }
    }

    /// Delivers `value` after everything delivered before it.
    pub fn emit(&mut self, value: T)
        ensures
            final(self)@ == old(self)@.push(value),
    {
        self.received.push(value);
    }

    /// The values delivered so far, in emission order.
    pub fn into_values(self) -> (values: Vec<T>)
        ensures
            values@ == self@,
    {
        self.received
    }
}

/// `produced` is what `producer` may leave in a collector that was empty when
/// the producer started.
pub open spec fn produces<T, F: FnOnce(FlowCollector<T>) -> FlowCollector<T>>(
    producer: F,
    produced: Seq<T>,
) -> bool {
    exists|start: FlowCollector<T>, end: FlowCollector<T>|
        start@ == Seq::<T>::empty() && call_ensures(producer, (start,), end) && end@ == produced
}

/// A producer can be started on any empty collector.
pub open spec fn can_produce<T, F: FnOnce(FlowCollector<T>) -> FlowCollector<T>>(
    producer: F,
) -> bool {
    forall|start: FlowCollector<T>|
        start@ == Seq::<T>::empty() ==> call_requires(producer, (start,))
}

/// A cold stream, given by the values one collection of it delivers.
pub struct Flow<T> {
    values: Vec<T>,
}

impl<T> View for Flow<T> {
    type V = Seq<T>;

    closed spec fn view(&self) -> Seq<T> {
        self.values@
    }
}

impl<T> Flow<T> {
    /// Runs `producer` against a fresh collector; the stream delivers what the
    /// producer emitted, in that order.
    pub fn new<F: FnOnce(FlowCollector<T>) -> FlowCollector<T>>(producer: F) -> (flow: Self)
        requires
            can_produce(producer),
        ensures
            produces(producer, flow@),
    {
        let collector = producer(FlowCollector::new());
        Flow { values: collector.into_values() }
    }

    /// Same as [`Flow::new`].
    pub fn from_fn<F: FnOnce(FlowCollector<T>) -> FlowCollector<T>>(producer: F) -> (flow: Self)
        requires
            can_produce(producer),
        ensures
            produces(producer, flow@),
    {
        Flow::new(producer)
    }

    /// The stream that delivers exactly `values`, in order.
    pub fn from_vec(values: Vec<T>) -> (flow: Self)
        ensures
            flow@ == values@,
    {
        Flow { values }
    }

    /// The delivered values, in order.
    pub fn into_vec(self) -> (values: Vec<T>)
        ensures
            values@ == self@,
    {
        self.values
    }

    /// How many values one collection delivers.
    pub fn len(&self) -> (n: usize)
        ensures
            n == self@.len(),
    {
        self.values.len()
    }

    /// Hands every value to `on_value`, in emission order. The consumer is
    /// called once per value and never after the last one.
    pub fn collect<F: Fn(T)>(self, on_value: F)
        requires
            forall|i: int| 0 <= i < self@.len() ==> call_requires(on_value, (#[trigger] self@[i],)),
        ensures
            forall|i: int| 0 <= i < self@.len() ==> call_ensures(on_value, (#[trigger] self@[i],), ()),
    {
        let ghost input = self@;
        for value in it: self.values.into_iter()
            invariant
                it.seq() == input,
                forall|i: int| 0 <= i < input.len() ==> call_requires(on_value, (#[trigger] input[i],)),
                forall|i: int|
                    0 <= i < it.index() ==> call_ensures(on_value, (#[trigger] input[i],), ()),
        {
            on_value(value);
        }
    }

    /// Feeds every value into `collector`, after what it already holds.
    pub fn collect_into(self, collector: &mut FlowCollector<T>)
        ensures
            final(collector)@ == old(collector)@ + self@,
    {
        let ghost input = self@;
        for value in it: self.values.into_iter()
            invariant
                it.seq() == input,
                collector@ == old(collector)@ + input.take(it.index() as int),
        {
            proof {
                let i = it.index() as int;
                assert(input.take(i + 1) =~= input.take(i).push(input[i]));
                assert((old(collector)@ + input.take(i)).push(input[i]) =~= old(collector)@
                    + input.take(i + 1));
            }
            collector.emit(value);
        }
        proof {
            assert(input.take(input.len() as int) =~= input);
        }
    }
}

impl<T> Flow<T> {
    /// The values in reverse order, so that the earliest can be popped first.
    pub(crate) fn into_reversed(self) -> (stack: Vec<T>)
        ensures
            stack@ == self@.reverse(),
    {
        let ghost input = self@;
        let mut rest = self.values;
        let mut stack: Vec<T> = Vec::new();
        while rest.len() > 0
            invariant
                rest@.len() + stack@.len() == input.len(),
                rest@ == input.take(rest@.len() as int),
                forall|k: int| 0 <= k < stack@.len() ==> stack@[k] == input[input.len() - 1 - k],
            decreases rest.len(),
        {
            let value = rest.pop().unwrap();
            stack.push(value);
            proof {
                assert(rest@ =~= input.take(rest@.len() as int));
            }
        }
        proof {
            assert(stack@ =~= input.reverse());
        }
        stack
    }
}

impl<T: Clone> Clone for Flow<T> {
    /// A second description of the same stream: value by value a clone.
    fn clone(&self) -> (copy: Self)
        ensures
            copy@.len() == self@.len(),
            forall|i: int| 0 <= i < self@.len() ==> cloned(#[trigger] self@[i], copy@[i]),
    {
        Flow { values: self.values.clone() }
    }
}

/// Builds a stream from a producer; same as [`Flow::new`].
pub fn flow<T, F: FnOnce(FlowCollector<T>) -> FlowCollector<T>>(builder: F) -> (flow: Flow<T>)
    requires
        can_produce(builder),
    ensures
        produces(builder, flow@),
{
    Flow::new(builder)
}

} // verus!
