//! Operators that transform one stream into another.

use crate::dispatcher::{Dispatcher, Executor};
use crate::flow::Flow;
use crate::stages::{DistinctStage, DropFirstStage, DropWhileStage, TakeStage, TakeWhileStage};
use vstd::prelude::*;
use vstd::std_specs::cmp::PartialEqSpec;

verus! {

/// `output[i]` is what `f` may return for `input[i]`.
pub open spec fn mapped<T, U, F: Fn(T) -> U>(f: F, input: Seq<T>, output: Seq<U>) -> bool {
    &&& output.len() == input.len()
    &&& forall|i: int| 0 <= i < input.len() ==> call_ensures(f, (input[i],), #[trigger] output[i])
}

/// `output[i]` is what `f` may return for a reference to `input[i]`.
pub open spec fn inspected<T, U, F: Fn(&T) -> U>(f: F, input: Seq<T>, output: Seq<U>) -> bool {
    &&& output.len() == input.len()
    &&& forall|i: int| 0 <= i < input.len() ==> call_ensures(f, (&input[i],), #[trigger] output[i])
}

/// `f` can be called on a reference to every value of `input`.
pub open spec fn inspectable<T, U, F: Fn(&T) -> U>(f: F, input: Seq<T>) -> bool {
    forall|i: int| 0 <= i < input.len() ==> call_requires(f, (&#[trigger] input[i],))
}

/// The values of `input` whose verdict is true, in order.
pub open spec fn keep_where<T>(input: Seq<T>, verdicts: Seq<bool>) -> Seq<T>
    decreases input.len(),
{
    if input.len() == 0 || verdicts.len() == 0 {
        Seq::empty()
    } else {
        let earlier = keep_where(input.drop_last(), verdicts.drop_last());
        if verdicts.last() {
            earlier.push(input.last())
        } else {
            earlier
        }
    }
}

/// The smaller of a count and a length.
pub open spec fn at_most(count: usize, len: nat) -> int {
    if count <= len {
        count as int
    } else {
        len as int
    }
}

/// The predicate holds for the first `k` values of `input` and fails for the
/// next one, if there is one.
pub open spec fn holds_until<T, F: Fn(&T) -> bool>(predicate: F, input: Seq<T>, k: int) -> bool {
    &&& 0 <= k <= input.len()
    &&& forall|i: int| 0 <= i < k ==> call_ensures(predicate, (&#[trigger] input[i],), true)
    &&& k < input.len() ==> call_ensures(predicate, (&input[k],), false)
}

/// The key that `distinct_until_changed` remembers after values with these
/// keys: the key of the last value that went downstream.
pub open spec fn distinct_last<K: PartialEq>(keys: Seq<K>) -> Option<K>
    decreases keys.len(),
{
    if keys.len() == 0 {
        None
    } else {
        match distinct_last(keys.drop_last()) {
            None => Some(keys.last()),
            Some(previous) => if previous.eq_spec(&keys.last()) {
                Some(previous)
            } else {
                Some(keys.last())
            },
        }
    }
}

/// Whether the value with key `keys[i]` goes downstream: it is the first, or
/// its key differs from the remembered one.
pub open spec fn is_change<K: PartialEq>(keys: Seq<K>, i: int) -> bool {
    match distinct_last(keys.take(i)) {
        None => true,
        Some(previous) => !previous.eq_spec(&keys[i]),
    }
}

/// What `distinct_until_changed` may decide for values with these keys. The
/// first value always goes downstream; where `==` on keys is the relation
/// `eq_spec`, every verdict is fixed.
pub open spec fn distinct_verdicts<K: PartialEq>(keys: Seq<K>, verdicts: Seq<bool>) -> bool {
    &&& verdicts.len() == keys.len()
    &&& keys.len() > 0 ==> verdicts[0]
    &&& K::obeys_eq_spec() ==> forall|i: int|
        0 <= i < keys.len() ==> #[trigger] verdicts[i] == is_change(keys, i)
}

/// All values of all `parts`, part after part.
pub open spec fn concat_all<T>(parts: Seq<Seq<T>>) -> Seq<T>
    decreases parts.len(),
{
    if parts.len() == 0 {
        Seq::empty()
    } else {
        concat_all(parts.drop_last()) + parts.last()
    }
}

/// The views of the given streams.
pub open spec fn views_of<T>(flows: Seq<Flow<T>>) -> Seq<Seq<T>> {
    Seq::new(flows.len(), |i: int| flows[i]@)
}

/// What inner stream number `i` of `flat_map_latest` delivers: the last one
/// everything, an earlier one what it delivered before it was replaced, which
/// is nothing where `progress` has no entry for it.
pub open spec fn latest_part<T>(inners: Seq<Seq<T>>, progress: Seq<usize>, i: int) -> Seq<T> {
    if i == inners.len() - 1 {
        inners[i]
    } else if i < progress.len() {
        inners[i].take(at_most(progress[i], inners[i].len()))
    } else {
        Seq::empty()
    }
}

/// What the first `upto` inner streams of `flat_map_latest` deliver.
pub open spec fn latest_parts<T>(inners: Seq<Seq<T>>, progress: Seq<usize>, upto: int) -> Seq<T>
    decreases upto,
{
    if upto <= 0 {
        Seq::empty()
    } else {
        latest_parts(inners, progress, upto - 1) + latest_part(inners, progress, upto - 1)
    }
}

/// Stateless and counting operators on a stream.
pub trait FlowExt<T>: Sized + View<V = Seq<T>> {
    /// Delivers what `f` makes of each value, in order.
    fn map<U, F: Fn(T) -> U>(self, f: F) -> (out: Flow<U>)
        requires
            forall|i: int| 0 <= i < self@.len() ==> call_requires(f, (#[trigger] self@[i],)),
        ensures
            mapped(f, self@, out@),
    ;

    /// Same as [`FlowExt::map`].
    fn map_sync<U, F: Fn(T) -> U>(self, f: F) -> (out: Flow<U>)
        requires
            forall|i: int| 0 <= i < self@.len() ==> call_requires(f, (#[trigger] self@[i],)),
        ensures
            mapped(f, self@, out@),
    ;

    /// Delivers the values for which `predicate` answers true, in order. The
    /// predicate is asked once about every value.
    fn filter<F: Fn(&T) -> bool>(self, predicate: F) -> (out: Flow<T>)
        requires
            inspectable(predicate, self@),
        ensures
            exists|verdicts: Seq<bool>|
                inspected(predicate, self@, verdicts) && out@ == keep_where(self@, verdicts),
    ;

    /// Same as [`FlowExt::filter`].
    fn filter_sync<F: Fn(&T) -> bool>(self, predicate: F) -> (out: Flow<T>)
        requires
            inspectable(predicate, self@),
        ensures
            exists|verdicts: Seq<bool>|
                inspected(predicate, self@, verdicts) && out@ == keep_where(self@, verdicts),
    ;

    /// Delivers the first `count` values, or all where there are fewer, and
    /// asks the upstream for nothing after the last of them.
    fn take(self, count: usize) -> (out: Flow<T>)
        ensures
            out@ == self@.take(at_most(count, self@.len())),
    ;

    /// Delivers everything after the first `count` values.
    fn drop_first(self, count: usize) -> (out: Flow<T>)
        ensures
            out@ == self@.skip(at_most(count, self@.len())),
    ;

    /// Calls `f` on every value, in order, and delivers the values unchanged.
    fn on_each<F: Fn(&T)>(self, f: F) -> (out: Flow<T>)
        requires
            inspectable(f, self@),
        ensures
            out@ == self@,
            forall|i: int| 0 <= i < self@.len() ==> call_ensures(f, (&#[trigger] self@[i],), ()),
    ;

    /// Same as [`FlowExt::on_each`].
    fn on_each_async<F: Fn(&T)>(self, f: F) -> (out: Flow<T>)
        requires
            inspectable(f, self@),
        ensures
            out@ == self@,
            forall|i: int| 0 <= i < self@.len() ==> call_ensures(f, (&#[trigger] self@[i],), ()),
    ;

    /// Decouples producer and consumer by a queue of `capacity` values. The
    /// values delivered, and their order, are those of the upstream.
    fn buffer(self, capacity: usize) -> (out: Flow<T>)
        requires
            capacity > 0,
        ensures
            out@ == self@,
    ;

    /// Has the upstream collected on `dispatcher`, decoupled from the consumer
    /// by a queue. The values delivered, and their order, are those of the
    /// upstream.
    fn flow_on<E: Executor>(self, dispatcher: Dispatcher<E>) -> (out: Flow<T>)
        ensures
            out@ == self@,
    ;

    /// Drops values while `predicate` holds, and delivers the first value for
    /// which it fails and everything after it. The predicate is not asked
    /// again once it has failed.
    fn drop_while<F: Fn(&T) -> bool>(self, predicate: F) -> (out: Flow<T>)
        requires
            inspectable(predicate, self@),
        ensures
            exists|k: int| holds_until(predicate, self@, k) && out@ == self@.skip(k),
    ;

    /// Delivers values while `predicate` holds and nothing from the first
    /// value on for which it fails. The predicate is not asked again once it
    /// has failed.
    fn take_while<F: Fn(&T) -> bool>(self, predicate: F) -> (out: Flow<T>)
        requires
            inspectable(predicate, self@),
        ensures
            exists|k: int| holds_until(predicate, self@, k) && out@ == self@.take(k),
    ;

    /// Delivers a value if it is the first or differs from the last value
    /// delivered.
    fn distinct_until_changed(self) -> (out: Flow<T>) where T: PartialEq
        ensures
            exists|verdicts: Seq<bool>|
                distinct_verdicts(self@, verdicts) && out@ == keep_where(self@, verdicts),
    ;

    /// Delivers a value if it is the first or its key differs from the key
    /// of the last value delivered. The key is computed once for every value.
    fn distinct_until_changed_by<K: PartialEq, F: Fn(&T) -> K>(self, key_selector: F) -> (out:
        Flow<T>)
        requires
            inspectable(key_selector, self@),
        ensures
            exists|keys: Seq<K>, verdicts: Seq<bool>|
                inspected(key_selector, self@, keys) && distinct_verdicts(keys, verdicts) && out@
                    == keep_where(self@, verdicts),
    ;

    /// Delivers, for each value in turn, all of the stream that `f` makes of
    /// it.
    fn flat_map<U, F: Fn(T) -> Flow<U>>(self, f: F) -> (out: Flow<U>)
        requires
            forall|i: int| 0 <= i < self@.len() ==> call_requires(f, (#[trigger] self@[i],)),
        ensures
            exists|inners: Seq<Flow<U>>|
                mapped(f, self@, inners) && out@ == concat_all(views_of(inners)),
    ;

    /// Same as [`FlowExt::flat_map`].
    fn flat_map_sync<U, F: Fn(T) -> Flow<U>>(self, f: F) -> (out: Flow<U>)
        requires
            forall|i: int| 0 <= i < self@.len() ==> call_requires(f, (#[trigger] self@[i],)),
        ensures
            exists|inners: Seq<Flow<U>>|
                mapped(f, self@, inners) && out@ == concat_all(views_of(inners)),
    ;

    /// Collects the stream that `f` makes of each value until the next value
    /// arrives, and then drops it for the stream of that value; the stream of
    /// the last value is collected to its end. `progress[i]` is the number of
    /// values that the stream of value number `i` delivers before the next
    /// value arrives; a stream without an entry is replaced before it
    /// delivers anything.
    fn flat_map_latest<U, F: Fn(T) -> Flow<U>>(self, f: F, progress: Vec<usize>) -> (out: Flow<U>)
        requires
            forall|i: int| 0 <= i < self@.len() ==> call_requires(f, (#[trigger] self@[i],)),
        ensures
            exists|inners: Seq<Flow<U>>|
                mapped(f, self@, inners) && out@ == latest_parts(
                    views_of(inners),
                    progress@,
                    inners.len() as int,
                ),
    ;

    /// Same as [`FlowExt::flat_map_latest`].
    fn flat_map_latest_sync<U, F: Fn(T) -> Flow<U>>(self, f: F, progress: Vec<usize>) -> (out:
        Flow<U>)
        requires
            forall|i: int| 0 <= i < self@.len() ==> call_requires(f, (#[trigger] self@[i],)),
        ensures
            exists|inners: Seq<Flow<U>>|
                mapped(f, self@, inners) && out@ == latest_parts(
                    views_of(inners),
                    progress@,
                    inners.len() as int,
                ),
    ;
}

impl<T> FlowExt<T> for Flow<T> {
    fn map<U, F: Fn(T) -> U>(self, f: F) -> (out: Flow<U>) {
        let ghost input = self@;
        let mut out: Vec<U> = Vec::new();
        for value in it: self.into_vec().into_iter()
            invariant
                it.seq() == input,
                forall|i: int| 0 <= i < input.len() ==> call_requires(f, (#[trigger] input[i],)),
                mapped(f, input.take(it.index() as int), out@),
        {
            let result = f(value);
            out.push(result);
        }
        proof {
            assert(input.take(input.len() as int) =~= input);
        }
        Flow::from_vec(out)
    }

    fn map_sync<U, F: Fn(T) -> U>(self, f: F) -> (out: Flow<U>) {
        self.map(f)
    }

    fn filter<F: Fn(&T) -> bool>(self, predicate: F) -> (out: Flow<T>) {
        let ghost input = self@;
        let ghost mut verdicts: Seq<bool> = Seq::empty();
        let mut out: Vec<T> = Vec::new();
        for value in it: self.into_vec().into_iter()
            invariant
                it.seq() == input,
                inspectable(predicate, input),
                inspected(predicate, input.take(it.index() as int), verdicts),
                out@ == keep_where(input.take(it.index() as int), verdicts),
        {
            let keep = predicate(&value);
            proof {
                let i = it.index() as int;
                assert(input.take(i + 1).drop_last() =~= input.take(i));
                assert(verdicts.push(keep).drop_last() =~= verdicts);
                verdicts = verdicts.push(keep);
            }
            if keep {
                out.push(value);
            }
        }
        proof {
            assert(input.take(input.len() as int) =~= input);
        }
        Flow::from_vec(out)
    }

    fn filter_sync<F: Fn(&T) -> bool>(self, predicate: F) -> (out: Flow<T>) {
        self.filter(predicate)
    }

    fn take(self, count: usize) -> (out: Flow<T>) {
        let ghost input = self@;
        let mut stage = TakeStage::new(count);
        let mut stack = self.into_reversed();
        let mut out: Vec<T> = Vec::new();
        while !stage.is_done() && stack.len() > 0
            invariant
                stage.limit() == count,
                stage.emitted() == out@.len(),
                out@.len() + stack@.len() == input.len(),
                stack@ == input.reverse().take(stack@.len() as int),
                out@ == input.take(out@.len() as int),
            decreases stack@.len(),
        {
            let value = stack.pop().unwrap();
            proof {
                assert(value == input[out@.len() as int]);
                assert(input.take(out@.len() as int + 1) =~= out@.push(value));
                assert(stack@ =~= input.reverse().take(stack@.len() as int));
            }
            if stage.accept() {
                out.push(value);
            }
        }
        Flow::from_vec(out)
    }

    fn drop_first(self, count: usize) -> (out: Flow<T>) {
        let ghost input = self@;
        let mut stage = DropFirstStage::new(count);
        let mut out: Vec<T> = Vec::new();
        for value in it: self.into_vec().into_iter()
            invariant
                it.seq() == input,
                stage.count() == count,
                stage.dropped() == at_most(count, it.index() as nat),
                out@ == input.take(it.index() as int).skip(stage.dropped() as int),
        {
            proof {
                let i = it.index() as int;
                let d = stage.dropped() as int;
                if d == count {
                    assert(input.take(i + 1).skip(d) =~= input.take(i).skip(d).push(value));
                } else {
                    assert(input.take(i + 1).skip(d + 1) =~= Seq::<T>::empty());
                    assert(input.take(i).skip(d) =~= Seq::<T>::empty());
                }
            }
            if stage.accept() {
                out.push(value);
            }
        }
        proof {
            assert(input.take(input.len() as int) =~= input);
        }
        Flow::from_vec(out)
    }

    fn on_each<F: Fn(&T)>(self, f: F) -> (out: Flow<T>) {
        let ghost input = self@;
        let mut out: Vec<T> = Vec::new();
        for value in it: self.into_vec().into_iter()
            invariant
                it.seq() == input,
                inspectable(f, input),
                out@ == input.take(it.index() as int),
                forall|i: int| 0 <= i < it.index() ==> call_ensures(f, (&#[trigger] input[i],), ()),
        {
            f(&value);
            proof {
                let i = it.index() as int;
                assert(input.take(i + 1) =~= input.take(i).push(value));
            }
            out.push(value);
        }
        proof {
            assert(input.take(input.len() as int) =~= input);
        }
        Flow::from_vec(out)
    }

    fn on_each_async<F: Fn(&T)>(self, f: F) -> (out: Flow<T>) {
        self.on_each(f)
    }

    fn buffer(self, capacity: usize) -> (out: Flow<T>) {
        self
    }

    fn flow_on<E: Executor>(self, dispatcher: Dispatcher<E>) -> (out: Flow<T>) {
        self
    }

    fn drop_while<F: Fn(&T) -> bool>(self, predicate: F) -> (out: Flow<T>) {
        let ghost input = self@;
        let ghost mut k: int = 0;
        let mut stage = DropWhileStage::new();
        let mut out: Vec<T> = Vec::new();
        for value in it: self.into_vec().into_iter()
            invariant
                it.seq() == input,
                inspectable(predicate, input),
                0 <= k <= it.index(),
                stage.dropping() <==> k == it.index(),
                forall|i: int| 0 <= i < k ==> call_ensures(predicate, (&#[trigger] input[i],), true),
                k < it.index() ==> call_ensures(predicate, (&input[k],), false),
                out@ == input.take(it.index() as int).skip(k),
        {
            let pass = stage.accept(&predicate, &value);
            proof {
                let i = it.index() as int;
                if pass {
                    assert(input.take(i + 1).skip(k) =~= input.take(i).skip(k).push(value));
                } else {
                    k = k + 1;
                    assert(input.take(i + 1).skip(k) =~= Seq::<T>::empty());
                    assert(input.take(i).skip(i) =~= Seq::<T>::empty());
                }
            }
            if pass {
                out.push(value);
            }
        }
        proof {
            assert(input.take(input.len() as int) =~= input);
            assert(holds_until(predicate, input, k));
        }
        Flow::from_vec(out)
    }

    fn take_while<F: Fn(&T) -> bool>(self, predicate: F) -> (out: Flow<T>) {
        let ghost input = self@;
        let mut stage = TakeWhileStage::new();
        let mut stack = self.into_reversed();
        let mut out: Vec<T> = Vec::new();
        while !stage.is_done() && stack.len() > 0
            invariant
                inspectable(predicate, input),
                out@.len() + stack@.len() + (if stage.done() {
                    1int
                } else {
                    0int
                }) == input.len(),
                stack@ == input.reverse().take(stack@.len() as int),
                out@ == input.take(out@.len() as int),
                forall|i: int|
                    0 <= i < out@.len() ==> call_ensures(predicate, (&#[trigger] input[i],), true),
                stage.done() ==> call_ensures(predicate, (&input[out@.len() as int],), false),
            decreases stack@.len(),
        {
            let value = stack.pop().unwrap();
            proof {
                assert(value == input[out@.len() as int]);
                assert(input.take(out@.len() as int + 1) =~= out@.push(value));
                assert(stack@ =~= input.reverse().take(stack@.len() as int));
            }
            if stage.accept(&predicate, &value) {
                out.push(value);
            }
        }
        proof {
            assert(holds_until(predicate, input, out@.len() as int));
        }
        Flow::from_vec(out)
    }

    fn distinct_until_changed(self) -> (out: Flow<T>) where T: PartialEq {
        let ghost input = self@;
        let ghost mut verdicts: Seq<bool> = Seq::empty();
        let mut out: Vec<T> = Vec::new();
        for value in it: self.into_vec().into_iter()
            invariant
                it.seq() == input,
                verdicts.len() == it.index(),
                it.index() > 0 ==> verdicts[0],
                T::obeys_eq_spec() ==> forall|i: int|
                    0 <= i < it.index() ==> #[trigger] verdicts[i] == is_change(input, i),
                out@ == keep_where(input.take(it.index() as int), verdicts),
                it.index() > 0 ==> out@.len() > 0,
                T::obeys_eq_spec() ==> distinct_last(input.take(it.index() as int)) == if out@.len()
                    == 0 {
                    None
                } else {
                    Some(out@.last())
                },
        {
            let pass = out.len() == 0 || out[out.len() - 1] != value;
            proof {
                let i = it.index() as int;
                assert(input.take(i + 1).drop_last() =~= input.take(i));
                assert(verdicts.push(pass).drop_last() =~= verdicts);
                verdicts = verdicts.push(pass);
            }
            if pass {
                out.push(value);
            }
        }
        proof {
            assert(input.take(input.len() as int) =~= input);
        }
        Flow::from_vec(out)
    }

    fn distinct_until_changed_by<K: PartialEq, F: Fn(&T) -> K>(self, key_selector: F) -> (out:
        Flow<T>) {
        let ghost input = self@;
        let ghost mut keys: Seq<K> = Seq::empty();
        let ghost mut verdicts: Seq<bool> = Seq::empty();
        let mut stage: DistinctStage<K> = DistinctStage::new();
        let mut out: Vec<T> = Vec::new();
        for value in it: self.into_vec().into_iter()
            invariant
                it.seq() == input,
                inspectable(key_selector, input),
                inspected(key_selector, input.take(it.index() as int), keys),
                verdicts.len() == it.index(),
                it.index() > 0 ==> verdicts[0],
                K::obeys_eq_spec() ==> forall|i: int|
                    0 <= i < it.index() ==> #[trigger] verdicts[i] == is_change(keys, i),
                out@ == keep_where(input.take(it.index() as int), verdicts),
                it.index() > 0 <==> stage.last() is Some,
                K::obeys_eq_spec() ==> stage.last() == distinct_last(keys),
        {
            let key = key_selector(&value);
            let pass = stage.accept(key);
            proof {
                let i = it.index() as int;
                let longer = keys.push(key);
                assert(input.take(i + 1).drop_last() =~= input.take(i));
                assert(verdicts.push(pass).drop_last() =~= verdicts);
                assert(longer.drop_last() =~= keys);
                assert(longer.take(i) =~= keys);
                assert forall|j: int| 0 <= j < i implies is_change(longer, j) == is_change(
                    keys,
                    j,
                ) by {
                    assert(longer.take(j) =~= keys.take(j));
                }
                keys = longer;
                verdicts = verdicts.push(pass);
            }
            if pass {
                out.push(value);
            }
        }
        proof {
            assert(input.take(input.len() as int) =~= input);
            assert(distinct_verdicts(keys, verdicts));
        }
        Flow::from_vec(out)
    }

    fn flat_map<U, F: Fn(T) -> Flow<U>>(self, f: F) -> (out: Flow<U>) {
        let ghost input = self@;
        let ghost mut inners: Seq<Flow<U>> = Seq::empty();
        let mut out: Vec<U> = Vec::new();
        for value in it: self.into_vec().into_iter()
            invariant
                it.seq() == input,
                forall|i: int| 0 <= i < input.len() ==> call_requires(f, (#[trigger] input[i],)),
                mapped(f, input.take(it.index() as int), inners),
                out@ == concat_all(views_of(inners)),
        {
            let inner = f(value);
            proof {
                assert(views_of(inners.push(inner)).drop_last() =~= views_of(inners));
                inners = inners.push(inner);
            }
            let mut values = inner.into_vec();
            out.append(&mut values);
        }
        proof {
            assert(input.take(input.len() as int) =~= input);
        }
        Flow::from_vec(out)
    }

    fn flat_map_sync<U, F: Fn(T) -> Flow<U>>(self, f: F) -> (out: Flow<U>) {
        self.flat_map(f)
    }

    fn flat_map_latest<U, F: Fn(T) -> Flow<U>>(self, f: F, progress: Vec<usize>) -> (out: Flow<U>) {
        let ghost input = self@;
        let ghost mut inners: Seq<Flow<U>> = Seq::empty();
        let count = self.len();
        let mut i: usize = 0;
        let mut out: Vec<U> = Vec::new();
        for value in it: self.into_vec().into_iter()
            invariant
                it.seq() == input,
                count == input.len(),
                i == it.index(),
                forall|j: int| 0 <= j < input.len() ==> call_requires(f, (#[trigger] input[j],)),
                mapped(f, input.take(it.index() as int), inners),
                forall|full: Seq<Seq<U>>|
                    full.len() == count && full.take(i as int) == views_of(inners) ==> out@
                        == #[trigger] latest_parts(full, progress@, i as int),
        {
            let inner = f(value);
            let ghost before = inners;
            let ghost whole = inner@;
            proof {
                inners = inners.push(inner);
            }
            let limit = if i + 1 == count {
                inner.len()
            } else if i < progress.len() {
                progress[i]
            } else {
                0
            };
            let mut part = inner.take(limit).into_vec();
            let ghost delivered = part@;
            out.append(&mut part);
            proof {
                assert(whole.take(whole.len() as int) =~= whole);
                assert(whole.take(0) =~= Seq::<U>::empty());
                assert forall|full: Seq<Seq<U>>|
                    full.len() == count && full.take(i + 1) == views_of(inners) implies out@
                    == #[trigger] latest_parts(full, progress@, i + 1) by {
                    assert(full.take(i as int) =~= views_of(before)) by {
                        assert(full.take(i + 1).take(i as int) =~= full.take(i as int));
                        assert(views_of(inners).take(i as int) =~= views_of(before));
                    }
                    assert(full[i as int] == full.take(i + 1)[i as int]);
                    assert(full[i as int] == whole);
                    assert(delivered == latest_part(full, progress@, i as int));
                    assert(out@ == latest_parts(full, progress@, i as int) + delivered);
                }
            }
            i = i + 1;
        }
        proof {
            let full = views_of(inners);
            assert(input.take(input.len() as int) =~= input);
            assert(full.take(count as int) =~= full);
            assert(out@ == latest_parts(full, progress@, count as int));
        }
        Flow::from_vec(out)
    }

    fn flat_map_latest_sync<U, F: Fn(T) -> Flow<U>>(self, f: F, progress: Vec<usize>) -> (out:
        Flow<U>) {
        self.flat_map_latest(f, progress)
    }
}

/// `take` delivers exactly as many values as the smaller of its limit and the
/// number of values the upstream holds, and they are the upstream's first.
pub proof fn lemma_take_delivers_minimum<T>(input: Seq<T>, count: usize)
    ensures
        input.take(at_most(count, input.len())).len() == at_most(count, input.len()),
        at_most(count, input.len()) <= count,
        at_most(count, input.len()) <= input.len(),
        forall|i: int|
            0 <= i < at_most(count, input.len()) ==> input.take(at_most(count, input.len()))[i]
                == input[i],
{
}

/// Where every value arrives before the stream of the value before it has
/// delivered anything, `flat_map_latest` delivers the stream of the last
/// value and nothing else.
pub proof fn lemma_latest_only<T>(inners: Seq<Seq<T>>)
    requires
        inners.len() > 0,
    ensures
        latest_parts(inners, Seq::<usize>::empty(), inners.len() as int) == inners.last(),
{
    lemma_superseded_deliver_nothing(inners, inners.len() - 1);
    assert(Seq::<T>::empty() + inners.last() =~= inners.last());
}

proof fn lemma_superseded_deliver_nothing<T>(inners: Seq<Seq<T>>, upto: int)
    requires
        0 <= upto < inners.len(),
    ensures
        latest_parts(inners, Seq::<usize>::empty(), upto) == Seq::<T>::empty(),
    decreases upto,
{
    if upto > 0 {
        lemma_superseded_deliver_nothing(inners, upto - 1);
        assert(Seq::<T>::empty() + Seq::<T>::empty() =~= Seq::<T>::empty());
    }
}

} // verus!
