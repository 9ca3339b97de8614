//! Ways to make a stream from values that are there already.

use crate::flow::Flow;
use std::ops::{Range, RangeInclusive};
use vstd::prelude::*;

verus! {

/// The integers from `start` up to, not including, `end`.
pub open spec fn span(start: int, end: int) -> Seq<i32> {
    Seq::new(
        if start < end {
            (end - start) as nat
        } else {
            0nat
        },
        |i: int| (start + i) as i32,
    )
}

/// `RangeInclusive::start`: the lower bound of a range that has not been
/// iterated to its end.
#[verifier::external_body]
fn lower_bound(range: &RangeInclusive<i32>) -> (start: i32)
    requires
        !range@.exhausted,
    ensures
        start == range@.start,
{
    *range.start()
}

/// `RangeInclusive::end`: the upper bound of a range that has not been
/// iterated to its end.
#[verifier::external_body]
fn upper_bound(range: &RangeInclusive<i32>) -> (end: i32)
    requires
        !range@.exhausted,
    ensures
        end == range@.end,
{
    *range.end()
}

/// `RangeInclusive::is_empty`: whether the range holds no value, because its
/// bounds are out of order or because it was iterated to its end.
#[verifier::external_body]
fn has_no_items(range: &RangeInclusive<i32>) -> (empty: bool)
    ensures
        empty == (range@.exhausted || range@.start > range@.end),
{
    range.is_empty()
}

/// What can be turned into a stream.
pub trait IntoFlow<T>: Sized {
    /// The values the stream will deliver, in order.
    spec fn items(&self) -> Seq<T>;

    /// The stream that delivers the items, in order.
    fn into_flow(self) -> (flow: Flow<T>)
        ensures
            flow@ == self.items(),
    ;
}

impl<T> IntoFlow<T> for Vec<T> {
    open spec fn items(&self) -> Seq<T> {
        self@
    }

    fn into_flow(self) -> (flow: Flow<T>) {
        Flow::from_vec(self)
    }
}

impl IntoFlow<i32> for Range<i32> {
    open spec fn items(&self) -> Seq<i32> {
        span(self.start as int, self.end as int)
    }

    fn into_flow(self) -> (flow: Flow<i32>) {
        let start = self.start;
        let end = self.end;
        let mut values: Vec<i32> = Vec::new();
        let mut next = start;
        while next < end
            invariant
                start <= next,
                next <= end || next == start,
                values@ == span(start as int, next as int),
            decreases end - next,
        {
            values.push(next);
            next = next + 1;
            proof {
                assert(values@ =~= span(start as int, next as int));
            }
        }
        proof {
            assert(values@ =~= span(start as int, end as int));
        }
        Flow::from_vec(values)
    }
}

impl IntoFlow<i32> for RangeInclusive<i32> {
    open spec fn items(&self) -> Seq<i32> {
        if self@.exhausted {
            Seq::empty()
        } else {
            span(self@.start as int, self@.end + 1)
        }
    }

    fn into_flow(self) -> (flow: Flow<i32>) {
        let mut values: Vec<i32> = Vec::new();
        if has_no_items(&self) {
            proof {
                assert(self.items() =~= Seq::<i32>::empty());
            }
            return Flow::from_vec(values);
        }
        let start = lower_bound(&self);
        let end = upper_bound(&self);
        let mut next = start;
        while next < end
            invariant
                start <= next <= end,
                values@ == span(start as int, next as int),
            decreases end - next,
        {
            values.push(next);
            next = next + 1;
            proof {
                assert(values@ =~= span(start as int, next as int));
            }
        }
        values.push(end);
        proof {
            assert(values@ =~= span(start as int, end + 1));
        }
        Flow::from_vec(values)
    }
}

/// The stream that delivers nothing.
pub fn empty_flow<T>() -> (flow: Flow<T>)
    ensures
        flow@ == Seq::<T>::empty(),
{
    Flow::from_vec(Vec::new())
}

/// The stream that delivers `value` and nothing else.
pub fn flow_of_one<T>(value: T) -> (flow: Flow<T>)
    ensures
        flow@ == seq![value],
{
    let mut values: Vec<T> = Vec::new();
    values.push(value);
    Flow::from_vec(values)
}

/// The stream that delivers `values`, in order.
pub fn flow_of<T, I: IntoFlow<T>>(values: I) -> (flow: Flow<T>)
    ensures
        flow@ == values.items(),
{
    values.into_flow()
}

/// The stream of the integers of `range`, in rising order.
pub fn flow_range(range: Range<i32>) -> (flow: Flow<i32>)
    ensures
        flow@ == span(range.start as int, range.end as int),
{
    range.into_flow()
}

/// The stream of the integers of `range`, both bounds included, in rising
/// order.
pub fn flow_range_inclusive(range: RangeInclusive<i32>) -> (flow: Flow<i32>)
    ensures
        flow@ == range.items(),
{
    range.into_flow()
}

/// What a collection of the endless stream of `value` delivers when it is
/// stopped after `count` values: that many clones of `value`.
pub fn repeat_flow<T: Clone>(value: T, count: usize) -> (flow: Flow<T>)
    ensures
        flow@.len() == count,
        forall|i: int| 0 <= i < count ==> cloned(value, #[trigger] flow@[i]),
{
    let mut values: Vec<T> = Vec::new();
    let mut i: usize = 0;
    while i < count
        invariant
            i <= count,
            values@.len() == i,
            forall|k: int| 0 <= k < i ==> cloned(value, #[trigger] values@[k]),
        decreases count - i,
    {
        values.push(value.clone());
        i = i + 1;
    }
    Flow::from_vec(values)
}

/// What a collection of the endless stream of ticks delivers when it is
/// stopped after `ticks` of them: the count of the ticks before, from zero.
pub fn interval_flow(ticks: u64) -> (flow: Flow<u64>)
    ensures
        flow@.len() == ticks,
        forall|i: int| 0 <= i < ticks ==> #[trigger] flow@[i] == i,
{
    let mut values: Vec<u64> = Vec::new();
    let mut counter: u64 = 0;
    while counter < ticks
        invariant
            counter <= ticks,
            values@.len() == counter,
            forall|k: int| 0 <= k < counter ==> #[trigger] values@[k] == k,
        decreases ticks - counter,
    {
        values.push(counter);
        counter = counter + 1;
    }
    Flow::from_vec(values)
}

/// The generator is asked `asked` times: each time but the last it gives the
/// next of `given`, and the last time, where it is asked once more than it
/// gives, it has nothing left.
pub open spec fn generated<T, F: Fn() -> Option<T>>(generator: F, given: Seq<T>, asked: int) -> bool {
    &&& given.len() <= asked <= given.len() + 1
    &&& forall|i: int| 0 <= i < given.len() ==> call_ensures(generator, (), Some(#[trigger] given[i]))
    &&& asked == given.len() + 1 ==> call_ensures(generator, (), None::<T>)
}

/// Asks the generator for value after value and delivers each, until it has
/// none or `limit` values are delivered, where the collection is stopped.
pub fn generate_flow<T, F: Fn() -> Option<T>>(generator: F, limit: usize) -> (flow: Flow<T>)
    requires
        call_requires(generator, ()),
    ensures
        flow@.len() <= limit,
        generated(
            generator,
            flow@,
            if flow@.len() < limit {
                flow@.len() as int + 1
            } else {
                flow@.len() as int
            },
        ),
{
    let mut values: Vec<T> = Vec::new();
    let mut ended = false;
    while !ended && values.len() < limit
        invariant
            call_requires(generator, ()),
            values@.len() <= limit,
            forall|i: int|
                0 <= i < values@.len() ==> call_ensures(generator, (), Some(#[trigger] values@[i])),
            ended ==> values@.len() < limit && call_ensures(generator, (), None::<T>),
        decreases limit - values@.len() + if ended {
            0int
        } else {
            1int
        },
    {
        match generator() {
            Some(value) => {
                values.push(value);
            },
            None => {
                ended = true;
            },
        }
    }
    Flow::from_vec(values)
}

} // verus!
