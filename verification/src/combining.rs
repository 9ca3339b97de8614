//! Operators that join several streams into one.
//!
//! Where the result depends on the order in which values of different
//! upstreams arrive, the operator takes that order as an argument and its
//! contract says what is delivered for every such order.

use crate::flow::Flow;
use vstd::prelude::*;

verus! {

/// Which of two upstreams delivered a value.
#[derive(Clone, Copy, Debug, PartialEq, Eq, Structural)]
pub enum Side {
    Left,
    Right,
}

/// How many entries of `order` name `side`.
pub open spec fn count_side(order: Seq<Side>, side: Side) -> nat
    decreases order.len(),
{
    if order.len() == 0 {
        0
    } else {
        count_side(order.drop_last(), side) + if order.last() == side {
            1nat
        } else {
            0nat
        }
    }
}

/// How many values an upstream that holds `available` values has delivered
/// once `order` has been played: an entry for an exhausted upstream delivers
/// nothing.
pub open spec fn taken(order: Seq<Side>, side: Side, available: nat) -> nat {
    if count_side(order, side) <= available {
        count_side(order, side)
    } else {
        available
    }
}

/// The complete arrival order of one collection: the given entries, then what
/// is left of the left upstream, then what is left of the right one. Entries
/// beyond what an upstream holds deliver nothing.
pub open spec fn arrivals(order: Seq<Side>, left_len: nat, right_len: nat) -> Seq<Side> {
    order + Seq::new(left_len, |i: int| Side::Left) + Seq::new(right_len, |i: int| Side::Right)
}

/// The pairs of latest values that `combine` hands to its transform, one for
/// each arrival at which both upstreams have delivered at least once.
pub open spec fn combine_pairs<T, U>(left: Seq<T>, right: Seq<U>, order: Seq<Side>) -> Seq<(T, U)>
    decreases order.len(),
{
    if order.len() == 0 {
        Seq::empty()
    } else {
        let before = order.drop_last();
        let earlier = combine_pairs(left, right, before);
        let l = taken(before, Side::Left, left.len());
        let r = taken(before, Side::Right, right.len());
        match order.last() {
            Side::Left => if l < left.len() && r >= 1 {
                earlier.push((left[l as int], right[r - 1]))
            } else {
                earlier
            },
            Side::Right => if r < right.len() && l >= 1 {
                earlier.push((left[l - 1], right[r as int]))
            } else {
                earlier
            },
        }
    }
}

/// `transform` can be called on a clone of any value of `left` together with
/// a clone of any value of `right`.
pub open spec fn combinable<T: Clone, U: Clone, R, F: Fn(T, U) -> R>(
    transform: F,
    left: Seq<T>,
    right: Seq<U>,
) -> bool {
    forall|i: int, j: int, a: T, b: U|
        0 <= i < left.len() && 0 <= j < right.len() && #[trigger] cloned(left[i], a)
            && #[trigger] cloned(right[j], b) ==> call_requires(transform, (a, b))
}

/// Component by component, `copies` holds a clone of `pairs`.
pub open spec fn pairwise_cloned<T: Clone, U: Clone>(
    pairs: Seq<(T, U)>,
    copies: Seq<(T, U)>,
) -> bool {
    &&& copies.len() == pairs.len()
    &&& forall|k: int|
        0 <= k < pairs.len() ==> cloned(pairs[k].0, (#[trigger] copies[k]).0) && cloned(
            pairs[k].1,
            copies[k].1,
        )
}

/// `results[k]` is what `transform` may return for the pair `inputs[k]`.
pub open spec fn transformed<T, U, R, F: Fn(T, U) -> R>(
    transform: F,
    inputs: Seq<(T, U)>,
    results: Seq<R>,
) -> bool {
    &&& results.len() == inputs.len()
    &&& forall|k: int|
        0 <= k < inputs.len() ==> call_ensures(
            transform,
            (inputs[k].0, inputs[k].1),
            #[trigger] results[k],
        )
}

/// The state of one `combine` collection: the latest value of each upstream.
pub struct CombineLatest<T, U> {
    left: Option<T>,
    right: Option<U>,
}

impl<T: Clone, U: Clone> CombineLatest<T, U> {
    /// The latest value the left upstream delivered, if any.
    pub closed spec fn left_latest(&self) -> Option<T> {
        self.left
    }

    /// The latest value the right upstream delivered, if any.
    pub closed spec fn right_latest(&self) -> Option<U> {
        self.right
    }

    /// Neither upstream has delivered yet.
    pub fn new() -> (state: Self)
        ensures
            state.left_latest() is None,
            state.right_latest() is None,
    {
        CombineLatest { left: None, right: None }
    }

    /// The left upstream delivers `value`. It becomes the latest left value;
    /// a pair of clones goes downstream if and only if the right upstream has
    /// delivered before.
    pub fn on_left(&mut self, value: T) -> (pair: Option<(T, U)>)
        ensures
            final(self).left_latest() == Some(value),
            final(self).right_latest() == old(self).right_latest(),
            pair is Some <==> old(self).right_latest() is Some,
            pair matches Some(p) ==> cloned(value, p.0) && cloned(
                old(self).right_latest().unwrap(),
                p.1,
            ),
    {
        let pair = match &self.right {
            None => None,
            Some(right) => Some((value.clone(), right.clone())),
        };
        self.left = Some(value);
        pair
    }

    /// The right upstream delivers `value`. It becomes the latest right
    /// value; a pair of clones goes downstream if and only if the left
    /// upstream has delivered before.
    pub fn on_right(&mut self, value: U) -> (pair: Option<(T, U)>)
        ensures
            final(self).right_latest() == Some(value),
            final(self).left_latest() == old(self).left_latest(),
            pair is Some <==> old(self).left_latest() is Some,
            pair matches Some(p) ==> cloned(old(self).left_latest().unwrap(), p.0) && cloned(
                value,
                p.1,
            ),
    {
        let pair = match &self.left {
            None => None,
            Some(left) => Some((left.clone(), value.clone())),
        };
        self.right = Some(value);
        pair
    }
}

/// The pairs `zip` hands to its transform: the values of both upstreams at the
/// same position, as far as both reach.
pub open spec fn zip_pairs<T, U>(left: Seq<T>, right: Seq<U>) -> Seq<(T, U)> {
    Seq::new(
        if left.len() <= right.len() {
            left.len()
        } else {
            right.len()
        },
        |i: int| (left[i], right[i]),
    )
}

/// The values `sample` picks: at every tick of the sampler that arrives after
/// the data stream has delivered, the latest data value. `order` names the
/// data stream `Left` and the sampler `Right`.
pub open spec fn sample_picks<T>(data: Seq<T>, ticks: nat, order: Seq<Side>) -> Seq<T>
    decreases order.len(),
{
    if order.len() == 0 {
        Seq::empty()
    } else {
        let before = order.drop_last();
        let earlier = sample_picks(data, ticks, before);
        let l = taken(before, Side::Left, data.len());
        let r = taken(before, Side::Right, ticks);
        if order.last() == Side::Right && r < ticks && l >= 1 {
            earlier.push(data[l - 1])
        } else {
            earlier
        }
    }
}

/// Value by value, `copies` holds a clone of `values`.
pub open spec fn clones_of<T: Clone>(values: Seq<T>, copies: Seq<T>) -> bool {
    &&& copies.len() == values.len()
    &&& forall|k: int| 0 <= k < values.len() ==> cloned(values[k], #[trigger] copies[k])
}

/// The state of one `sample` collection: the latest data value.
pub struct Sampler<T> {
    latest: Option<T>,
}

impl<T: Clone> Sampler<T> {
    /// The latest value the data stream delivered, if any.
    pub closed spec fn latest(&self) -> Option<T> {
        self.latest
    }

    /// The data stream has not delivered yet.
    pub fn new() -> (state: Self)
        ensures
            state.latest() is None,
    {
        Sampler { latest: None }
    }

    /// The data stream delivers `value`; nothing goes downstream.
    pub fn on_value(&mut self, value: T)
        ensures
            final(self).latest() == Some(value),
    {
        self.latest = Some(value);
    }

    /// The sampler ticks: a clone of the latest data value goes downstream,
    /// and nothing if the data stream has not delivered yet.
    pub fn on_tick(&self) -> (pick: Option<T>)
        ensures
            pick is Some <==> self.latest() is Some,
            pick matches Some(p) ==> cloned(self.latest().unwrap(), p),
    {
        match &self.latest {
            None => None,
            Some(value) => Some(value.clone()),
        }
    }
}

/// What `zip` decides when both upstreams have answered: a pair while both
/// delivered a value, and the end of the collection as soon as either is
/// exhausted.
pub fn pair_up<T, U>(left: Option<T>, right: Option<U>) -> (pair: Option<(T, U)>)
    ensures
        pair == match (left, right) {
            (Some(a), Some(b)) => Some((a, b)),
            _ => None::<(T, U)>,
        },
{
    match (left, right) {
        (Some(a), Some(b)) => Some((a, b)),
        _ => None,
    }
}

/// Appending an entry for `side` raises its count by one and leaves the other
/// count alone.
pub proof fn lemma_count_side_push(order: Seq<Side>, entry: Side, side: Side)
    ensures
        count_side(order.push(entry), side) == count_side(order, side) + if entry == side {
            1nat
        } else {
            0nat
        },
{
    assert(order.push(entry).drop_last() =~= order);
}

/// The complete arrival order as a vector.
fn full_order(order: Vec<Side>, left_len: usize, right_len: usize) -> (full: Vec<Side>)
    ensures
        full@ == arrivals(order@, left_len as nat, right_len as nat),
{
    let ghost given = order@;
    let mut full = order;
    let mut i: usize = 0;
    while i < left_len
        invariant
            i <= left_len,
            full@ == given + Seq::new(i as nat, |k: int| Side::Left),
        decreases left_len - i,
    {
        full.push(Side::Left);
        i = i + 1;
        proof {
            assert(full@ =~= given + Seq::new(i as nat, |k: int| Side::Left));
        }
    }
    let ghost with_left = full@;
    let mut j: usize = 0;
    while j < right_len
        invariant
            j <= right_len,
            full@ == with_left + Seq::new(j as nat, |k: int| Side::Right),
        decreases right_len - j,
    {
        full.push(Side::Right);
        j = j + 1;
        proof {
            assert(full@ =~= with_left + Seq::new(j as nat, |k: int| Side::Right));
        }
    }
    full
}

/// Operators that join this stream with others.
pub trait FlowCombining<T>: Sized + View<V = Seq<T>> {
    /// Keeps the latest value of each upstream and, at every arrival after
    /// both have delivered, hands clones of the two latest values to
    /// `transform` and delivers its result. `order` is the order in which the
    /// upstreams deliver; what it leaves out arrives afterwards, the rest of
    /// this stream first.
    fn combine<U: Clone, R, F: Fn(T, U) -> R>(
        self,
        other: Flow<U>,
        order: Vec<Side>,
        transform: F,
    ) -> (out: Flow<R>) where T: Clone
        requires
            combinable(transform, self@, other@),
        ensures
            exists|inputs: Seq<(T, U)>|
                pairwise_cloned(
                    combine_pairs(
                        self@,
                        other@,
                        arrivals(order@, self@.len(), other@.len()),
                    ),
                    inputs,
                ) && transformed(transform, inputs, out@),
    ;

    /// Pairs the values of both upstreams position by position and delivers
    /// what `transform` makes of each pair; ends with the shorter upstream.
    fn zip<U, R, F: Fn(T, U) -> R>(self, other: Flow<U>, transform: F) -> (out: Flow<R>)
        requires
            forall|i: int|
                0 <= i < self@.len() && i < other@.len() ==> call_requires(
                    transform,
                    (#[trigger] self@[i], other@[i]),
                ),
        ensures
            transformed(transform, zip_pairs(self@, other@), out@),
    ;

    /// Delivers a clone of the latest value of this stream at every tick of
    /// `sampler`; a tick that arrives before this stream has delivered gives
    /// nothing. `order` names this stream `Left` and the sampler `Right`; what
    /// it leaves out arrives afterwards, the rest of this stream first.
    fn sample<U>(self, sampler: Flow<U>, order: Vec<Side>) -> (out: Flow<T>) where T: Clone
        ensures
            clones_of(
                sample_picks(
                    self@,
                    sampler@.len(),
                    arrivals(order@, self@.len(), sampler@.len()),
                ),
                out@,
            ),
    ;

    /// Delivers all of this stream, then all of `other`.
    fn concat(self, other: Flow<T>) -> (out: Flow<T>)
        ensures
            out@ == self@ + other@,
    ;

    /// Delivers `values` first, then all of this stream.
    fn start_with(self, values: Vec<T>) -> (out: Flow<T>)
        ensures
            out@ == values@ + self@,
    ;
}

impl<T> FlowCombining<T> for Flow<T> {
    fn combine<U: Clone, R, F: Fn(T, U) -> R>(
        self,
        other: Flow<U>,
        order: Vec<Side>,
        transform: F,
    ) -> (out: Flow<R>) where T: Clone {
        let ghost left = self@;
        let ghost right = other@;
        let full = full_order(order, self.len(), other.len());
        let mut left_stack = self.into_reversed();
        let mut right_stack = other.into_reversed();
        let mut state: CombineLatest<T, U> = CombineLatest::new();
        let mut out: Vec<R> = Vec::new();
        let ghost mut inputs: Seq<(T, U)> = Seq::empty();
        let mut k: usize = 0;
        while k < full.len()
            invariant
                k <= full.len(),
                combinable(transform, left, right),
                left_stack@.len() + taken(full@.take(k as int), Side::Left, left.len())
                    == left.len(),
                right_stack@.len() + taken(full@.take(k as int), Side::Right, right.len())
                    == right.len(),
                forall|m: int|
                    0 <= m < left_stack@.len() ==> left_stack@[m] == left[left.len() - 1 - m],
                forall|m: int|
                    0 <= m < right_stack@.len() ==> right_stack@[m] == right[right.len() - 1 - m],
                state.left_latest() == if left_stack@.len() == left.len() {
                    None
                } else {
                    Some(left[left.len() - left_stack@.len() - 1])
                },
                state.right_latest() == if right_stack@.len() == right.len() {
                    None
                } else {
                    Some(right[right.len() - right_stack@.len() - 1])
                },
                pairwise_cloned(combine_pairs(left, right, full@.take(k as int)), inputs),
                transformed(transform, inputs, out@),
            decreases full.len() - k,
        {
            let ghost before = full@.take(k as int);
            proof {
                assert(full@.take(k + 1) =~= before.push(full@[k as int]));
                assert(full@.take(k + 1).drop_last() =~= before);
                lemma_count_side_push(before, full@[k as int], Side::Left);
                lemma_count_side_push(before, full@[k as int], Side::Right);
            }
            let pair = match full[k] {
                Side::Left => match left_stack.pop() {
                    Some(value) => state.on_left(value),
                    None => None,
                },
                Side::Right => match right_stack.pop() {
                    Some(value) => state.on_right(value),
                    None => None,
                },
            };
            match pair {
                Some((a, b)) => {
                    let result = transform(a, b);
                    out.push(result);
                    proof {
                        inputs = inputs.push((a, b));
                    }
                },
                None => {},
            }
            k = k + 1;
        }
        proof {
            assert(full@.take(full@.len() as int) =~= full@);
        }
        Flow::from_vec(out)
    }

    fn zip<U, R, F: Fn(T, U) -> R>(self, other: Flow<U>, transform: F) -> (out: Flow<R>) {
        let ghost left = self@;
        let ghost right = other@;
        let mut left_stack = self.into_reversed();
        let mut right_stack = other.into_reversed();
        let mut out: Vec<R> = Vec::new();
        while left_stack.len() > 0 && right_stack.len() > 0
            invariant
                forall|i: int|
                    0 <= i < left.len() && i < right.len() ==> call_requires(
                        transform,
                        (#[trigger] left[i], right[i]),
                    ),
                out@.len() + left_stack@.len() == left.len(),
                out@.len() + right_stack@.len() == right.len(),
                forall|m: int|
                    0 <= m < left_stack@.len() ==> left_stack@[m] == left[left.len() - 1 - m],
                forall|m: int|
                    0 <= m < right_stack@.len() ==> right_stack@[m] == right[right.len() - 1 - m],
                forall|i: int|
                    0 <= i < out@.len() ==> call_ensures(
                        transform,
                        (left[i], right[i]),
                        #[trigger] out@[i],
                    ),
            decreases left_stack@.len(),
        {
            let pair = pair_up(left_stack.pop(), right_stack.pop());
            match pair {
                Some((a, b)) => {
                    let result = transform(a, b);
                    out.push(result);
                },
                None => {},
            }
        }
        Flow::from_vec(out)
    }

    fn sample<U>(self, sampler: Flow<U>, order: Vec<Side>) -> (out: Flow<T>) where T: Clone {
        let ghost data = self@;
        let ticks = sampler.len();
        let full = full_order(order, self.len(), ticks);
        let mut data_stack = self.into_reversed();
        let mut ticked: usize = 0;
        let mut state: Sampler<T> = Sampler::new();
        let mut out: Vec<T> = Vec::new();
        let mut k: usize = 0;
        while k < full.len()
            invariant
                k <= full.len(),
                data_stack@.len() + taken(full@.take(k as int), Side::Left, data.len())
                    == data.len(),
                ticked == taken(full@.take(k as int), Side::Right, ticks as nat),
                forall|m: int|
                    0 <= m < data_stack@.len() ==> data_stack@[m] == data[data.len() - 1 - m],
                state.latest() == if data_stack@.len() == data.len() {
                    None
                } else {
                    Some(data[data.len() - data_stack@.len() - 1])
                },
                clones_of(sample_picks(data, ticks as nat, full@.take(k as int)), out@),
            decreases full.len() - k,
        {
            let ghost before = full@.take(k as int);
            proof {
                assert(full@.take(k + 1) =~= before.push(full@[k as int]));
                assert(full@.take(k + 1).drop_last() =~= before);
                lemma_count_side_push(before, full@[k as int], Side::Left);
                lemma_count_side_push(before, full@[k as int], Side::Right);
            }
            match full[k] {
                Side::Left => match data_stack.pop() {
                    Some(value) => state.on_value(value),
                    None => {},
                },
                Side::Right => if ticked < ticks {
                    ticked = ticked + 1;
                    match state.on_tick() {
                        Some(pick) => out.push(pick),
                        None => {},
                    }
                },
            }
            k = k + 1;
        }
        proof {
            assert(full@.take(full@.len() as int) =~= full@);
        }
        Flow::from_vec(out)
    }

    fn concat(self, other: Flow<T>) -> (out: Flow<T>) {
        let mut values = self.into_vec();
        let mut rest = other.into_vec();
        values.append(&mut rest);
        Flow::from_vec(values)
    }

    fn start_with(self, values: Vec<T>) -> (out: Flow<T>) {
        let mut first = values;
        let mut rest = self.into_vec();
        first.append(&mut rest);
        Flow::from_vec(first)
    }
}

} // verus!
