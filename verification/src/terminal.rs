//! Terminal consumers: they collect a stream once and reduce it to one result.

use crate::flow::Flow;
use crate::operators::holds_until;
use crate::operators::inspectable;
use std::collections::HashSet;
use std::hash::Hash;
use vstd::prelude::*;
use vstd::std_specs::hash::obeys_key_model;

verus! {

broadcast use vstd::std_specs::hash::group_hash_axioms;

/// Why a terminal consumer could not give a value.
#[derive(Debug, Clone, Copy, PartialEq, Eq, Structural)]
pub enum FlowError {
    /// The stream ended without delivering a value.
    Empty,
    /// The stream delivered more than one value where exactly one was
    /// expected.
    MoreThanOneElement,
}

impl FlowError {
    /// The text that describes the error.
    pub fn message(&self) -> (text: String)
        ensures
            text@ == match self {
                FlowError::Empty => "Flow completed without emitting any values"@,
                FlowError::MoreThanOneElement =>
                    "Flow emitted more than one value when exactly one was expected"@,
            },
    {
        match self {
            FlowError::Empty => "Flow completed without emitting any values".to_owned(),
            FlowError::MoreThanOneElement => {
                "Flow emitted more than one value when exactly one was expected".to_owned()
            },
        }
    }
}

/// The predicate fails for the first `k` values of `input` and holds for the
/// next one, if there is one.
pub open spec fn fails_until<T, F: Fn(&T) -> bool>(predicate: F, input: Seq<T>, k: int) -> bool {
    &&& 0 <= k <= input.len()
    &&& forall|i: int| 0 <= i < k ==> call_ensures(predicate, (&#[trigger] input[i],), false)
    &&& k < input.len() ==> call_ensures(predicate, (&input[k],), true)
}

/// `steps` are the accumulators of one fold: it starts at `initial`, and each
/// next one is what `f` may return for the one before it and the next value.
pub open spec fn folded<T, R, F: Fn(R, T) -> R>(
    f: F,
    initial: R,
    input: Seq<T>,
    steps: Seq<R>,
) -> bool {
    &&& steps.len() == input.len() + 1
    &&& steps[0] == initial
    &&& forall|i: int|
        0 <= i < input.len() ==> call_ensures(f, (steps[i], input[i]), #[trigger] steps[i + 1])
}

/// State of `first`: the first value, once it has arrived.
pub struct FirstStage<T> {
    found: Option<T>,
}

impl<T> FirstStage<T> {
    /// The first value that arrived, if any.
    pub closed spec fn found(&self) -> Option<T> {
        self.found
    }

    /// A stage that has seen nothing.
    pub fn new() -> (stage: Self)
        ensures
            stage.found() is None,
    {
        FirstStage { found: None }
    }

    /// Whether a value is captured, so that the upstream can be stopped.
    pub fn is_done(&self) -> (done: bool)
        ensures
            done == self.found() is Some,
    {
        self.found.is_some()
    }

    /// A value arrives: it is kept if it is the first, and dropped otherwise.
    pub fn offer(&mut self, value: T)
        ensures
            final(self).found() == if old(self).found() is None {
                Some(value)
            } else {
                old(self).found()
            },
    {
        if self.found.is_none() {
            self.found = Some(value);
        }
    }

    /// The collection has ended: the first value, or `Empty` if none arrived.
    pub fn finish(self) -> (result: Result<T, FlowError>)
        ensures
            result == match self.found() {
                Some(value) => Ok::<T, FlowError>(value),
                None => Err::<T, FlowError>(FlowError::Empty),
            },
    {
        match self.found {
            Some(value) => Ok(value),
            None => Err(FlowError::Empty),
        }
    }
}

/// What `single` has seen so far.
pub enum Seen<T> {
    /// No value yet.
    Nothing,
    /// Exactly one value.
    One(T),
    /// More than one value.
    Many,
}

/// State of `single`.
pub struct SingleStage<T> {
    seen: Seen<T>,
}

impl<T> SingleStage<T> {
    /// What has arrived so far.
    pub closed spec fn seen(&self) -> Seen<T> {
        self.seen
    }

    /// A stage that has seen nothing.
    pub fn new() -> (stage: Self)
        ensures
            stage.seen() is Nothing,
    {
        SingleStage { seen: Seen::Nothing }
    }

    /// Whether the result is settled, so that the upstream can be stopped:
    /// true once a second value has arrived.
    pub fn is_done(&self) -> (done: bool)
        ensures
            done == self.seen() is Many,
    {
        match &self.seen {
            Seen::Many => true,
            _ => false,
        }
    }

    /// A value arrives: the first is kept, a second one makes the result an
    /// error for good.
    pub fn offer(&mut self, value: T)
        ensures
            final(self).seen() == match old(self).seen() {
                Seen::Nothing => Seen::One(value),
                _ => Seen::Many,
            },
    {
        let next = match &self.seen {
            Seen::Nothing => Seen::One(value),
            _ => Seen::Many,
        };
        self.seen = next;
    }

    /// The collection has ended: the value if exactly one arrived, and else
    /// the error that tells none from too many.
    pub fn finish(self) -> (result: Result<T, FlowError>)
        ensures
            result == match self.seen() {
                Seen::Nothing => Err::<T, FlowError>(FlowError::Empty),
                Seen::One(value) => Ok::<T, FlowError>(value),
                Seen::Many => Err::<T, FlowError>(FlowError::MoreThanOneElement),
            },
    {
        match self.seen {
            Seen::Nothing => Err(FlowError::Empty),
            Seen::One(value) => Ok(value),
            Seen::Many => Err(FlowError::MoreThanOneElement),
        }
    }
}

/// Consumers that collect a stream once and reduce it to one result.
pub trait FlowTerminal<T>: Sized + View<V = Seq<T>> {
    /// The first value, or `Empty` if the stream delivers none. Nothing is
    /// asked of the upstream after its first value.
    fn first(self) -> (result: Result<T, FlowError>)
        ensures
            result == if self@.len() == 0 {
                Err::<T, FlowError>(FlowError::Empty)
            } else {
                Ok::<T, FlowError>(self@[0])
            },
    ;

    /// The first value, if the stream delivers one.
    fn first_or_none(self) -> (result: Option<T>)
        ensures
            result == if self@.len() == 0 {
                None
            } else {
                Some(self@[0])
            },
    ;

    /// The value of a stream that delivers exactly one; `Empty` if it
    /// delivers none and `MoreThanOneElement` if it delivers more.
    fn single(self) -> (result: Result<T, FlowError>)
        ensures
            result == if self@.len() == 0 {
                Err::<T, FlowError>(FlowError::Empty)
            } else if self@.len() == 1 {
                Ok::<T, FlowError>(self@[0])
            } else {
                Err::<T, FlowError>(FlowError::MoreThanOneElement)
            },
    ;

    /// The value of a stream that delivers exactly one, and nothing else.
    fn single_or_none(self) -> (result: Option<T>)
        ensures
            result == if self@.len() == 1 {
                Some(self@[0])
            } else {
                None
            },
    ;

    /// The last value, if the stream delivers one.
    fn last_or_none(self) -> (result: Option<T>)
        ensures
            result == if self@.len() == 0 {
                None
            } else {
                Some(self@.last())
            },
    ;

    /// All values, in the order delivered.
    fn to_vec(self) -> (values: Vec<T>)
        ensures
            values@ == self@,
    ;

    /// The set of the values delivered.
    fn to_set(self) -> (values: HashSet<T>) where T: Eq + Hash
        ensures
            obeys_key_model::<T>() ==> values@ == self@.to_set(),
    ;

    /// Starts at `initial` and replaces the accumulator, value by value, by
    /// what `f` makes of it and the value; the result is the last one.
    fn fold<R, F: Fn(R, T) -> R>(self, initial: R, f: F) -> (result: R)
        requires
            forall|acc: R, i: int|
                0 <= i < self@.len() ==> #[trigger] call_requires(f, (acc, self@[i])),
        ensures
            exists|steps: Seq<R>| folded(f, initial, self@, steps) && result == steps.last(),
    ;

    /// Like `fold`, starting at the first value; `Empty` if there is none.
    fn reduce<F: Fn(T, T) -> T>(self, f: F) -> (result: Result<T, FlowError>)
        requires
            forall|acc: T, i: int|
                0 <= i < self@.len() ==> #[trigger] call_requires(f, (acc, self@[i])),
        ensures
            self@.len() == 0 ==> result == Err::<T, FlowError>(FlowError::Empty),
            self@.len() > 0 ==> exists|steps: Seq<T>|
                folded(f, self@[0], self@.skip(1), steps) && result == Ok::<T, FlowError>(
                    steps.last(),
                ),
    ;

    /// The number of values delivered.
    fn count(self) -> (n: usize)
        ensures
            n == self@.len(),
    ;

    /// Whether `predicate` holds for some value. It is asked value by value
    /// and not again once it has held.
    fn any<F: Fn(&T) -> bool>(self, predicate: F) -> (found: bool)
        requires
            inspectable(predicate, self@),
        ensures
            exists|k: int| fails_until(predicate, self@, k) && found == (k < self@.len()),
    ;

    /// Whether `predicate` holds for every value. It is asked value by value
    /// and not again once it has failed.
    fn all<F: Fn(&T) -> bool>(self, predicate: F) -> (every: bool)
        requires
            inspectable(predicate, self@),
        ensures
            exists|k: int| holds_until(predicate, self@, k) && every == (k == self@.len()),
    ;

    /// Whether `predicate` holds for no value: the opposite of `any`.
    fn none<F: Fn(&T) -> bool>(self, predicate: F) -> (absent: bool)
        requires
            inspectable(predicate, self@),
        ensures
            exists|k: int| fails_until(predicate, self@, k) && absent == (k == self@.len()),
    ;
}

impl<T> FlowTerminal<T> for Flow<T> {
    fn first(self) -> (result: Result<T, FlowError>) {
        let ghost input = self@;
        let mut stage: FirstStage<T> = FirstStage::new();
        let mut stack = self.into_reversed();
        while !stage.is_done() && stack.len() > 0
            invariant
                stack@.len() <= input.len(),
                stack@ == input.reverse().take(stack@.len() as int),
                stage.found() == if stack@.len() == input.len() {
                    None
                } else {
                    Some(input[0])
                },
            decreases stack@.len(),
        {
            let value = stack.pop().unwrap();
            proof {
                assert(stack@ =~= input.reverse().take(stack@.len() as int));
            }
            stage.offer(value);
        }
        stage.finish()
    }

    fn first_or_none(self) -> (result: Option<T>) {
        match self.first() {
            Ok(value) => Some(value),
            Err(_) => None,
        }
    }

    fn single(self) -> (result: Result<T, FlowError>) {
        let ghost input = self@;
        let mut stage: SingleStage<T> = SingleStage::new();
        let mut stack = self.into_reversed();
        while !stage.is_done() && stack.len() > 0
            invariant
                stack@.len() <= input.len(),
                stack@ == input.reverse().take(stack@.len() as int),
                stage.seen() == if stack@.len() == input.len() {
                    Seen::Nothing
                } else if stack@.len() + 1 == input.len() {
                    Seen::One(input[0])
                } else {
                    Seen::Many
                },
            decreases stack@.len(),
        {
            let value = stack.pop().unwrap();
            proof {
                assert(stack@ =~= input.reverse().take(stack@.len() as int));
            }
            stage.offer(value);
        }
        stage.finish()
    }

    fn single_or_none(self) -> (result: Option<T>) {
        match self.single() {
            Ok(value) => Some(value),
            Err(_) => None,
        }
    }

    fn last_or_none(self) -> (result: Option<T>) {
        let mut values = self.into_vec();
        values.pop()
    }

    fn to_vec(self) -> (values: Vec<T>) {
        self.into_vec()
    }

    fn to_set(self) -> (values: HashSet<T>) where T: Eq + Hash {
        let ghost input = self@;
        let mut values: HashSet<T> = HashSet::new();
        for value in it: self.into_vec().into_iter()
            invariant
                it.seq() == input,
                obeys_key_model::<T>() ==> values@ == input.take(it.index() as int).to_set(),
        {
            proof {
                let i = it.index() as int;
                let seen = input.take(i);
                let more = input.take(i + 1);
                assert(more =~= seen.push(value));
                assert forall|x: T| more.contains(x) <==> seen.contains(x) || x == value by {
                    if seen.contains(x) {
                        let j = choose|j: int| 0 <= j < seen.len() && seen[j] == x;
                        assert(more[j] == x);
                    }
                    if x == value {
                        assert(more[i] == x);
                    }
                }
                assert(more.to_set() =~= seen.to_set().insert(value));
            }
            values.insert(value);
        }
        proof {
            assert(input.take(input.len() as int) =~= input);
        }
        values
    }

    fn fold<R, F: Fn(R, T) -> R>(self, initial: R, f: F) -> (result: R) {
        let ghost input = self@;
        let ghost mut steps: Seq<R> = seq![initial];
        let mut acc = initial;
        for value in it: self.into_vec().into_iter()
            invariant
                it.seq() == input,
                forall|acc: R, i: int|
                    0 <= i < input.len() ==> #[trigger] call_requires(f, (acc, input[i])),
                folded(f, initial, input.take(it.index() as int), steps),
                acc == steps.last(),
        {
            acc = f(acc, value);
            proof {
                steps = steps.push(acc);
            }
        }
        proof {
            assert(input.take(input.len() as int) =~= input);
        }
        acc
    }

    fn reduce<F: Fn(T, T) -> T>(self, f: F) -> (result: Result<T, FlowError>) {
        let ghost input = self@;
        let mut stack = self.into_reversed();
        match stack.pop() {
            None => Err(FlowError::Empty),
            Some(start) => {
                let ghost rest = input.skip(1);
                let ghost mut steps: Seq<T> = seq![start];
                let mut acc = start;
                while stack.len() > 0
                    invariant
                        input.len() > 0,
                        rest == input.skip(1),
                        start == input[0],
                        stack@.len() < input.len(),
                        stack@ == input.reverse().take(stack@.len() as int),
                        forall|acc: T, i: int|
                            0 <= i < input.len() ==> #[trigger] call_requires(f, (acc, input[i])),
                        folded(f, start, rest.take(rest.len() - stack@.len()), steps),
                        acc == steps.last(),
                    decreases stack@.len(),
                {
                    let ghost done = rest.len() - stack@.len();
                    let value = stack.pop().unwrap();
                    proof {
                        assert(stack@ =~= input.reverse().take(stack@.len() as int));
                        assert(value == rest[done]);
                        assert(rest.take(done + 1) =~= rest.take(done).push(value));
                    }
                    acc = f(acc, value);
                    proof {
                        steps = steps.push(acc);
                    }
                }
                proof {
                    assert(rest.take(rest.len() as int) =~= rest);
                }
                Ok(acc)
            },
        }
    }

    fn count(self) -> (n: usize) {
        self.len()
    }

    fn any<F: Fn(&T) -> bool>(self, predicate: F) -> (found: bool) {
        let ghost input = self@;
        let ghost mut k: int = 0;
        let mut found = false;
        for value in it: self.into_vec().into_iter()
            invariant
                it.seq() == input,
                inspectable(predicate, input),
                0 <= k <= it.index(),
                found <==> k < it.index(),
                forall|i: int| 0 <= i < k ==> call_ensures(predicate, (&#[trigger] input[i],), false),
                k < it.index() ==> call_ensures(predicate, (&input[k],), true),
        {
            if !found {
                if predicate(&value) {
                    found = true;
                } else {
                    proof {
                        k = k + 1;
                    }
                }
            }
        }
        proof {
            assert(fails_until(predicate, input, k));
        }
        found
    }

    fn all<F: Fn(&T) -> bool>(self, predicate: F) -> (every: bool) {
        let ghost input = self@;
        let ghost mut k: int = 0;
        let mut every = true;
        for value in it: self.into_vec().into_iter()
            invariant
                it.seq() == input,
                inspectable(predicate, input),
                0 <= k <= it.index(),
                every <==> k == it.index(),
                forall|i: int| 0 <= i < k ==> call_ensures(predicate, (&#[trigger] input[i],), true),
                k < it.index() ==> call_ensures(predicate, (&input[k],), false),
        {
            if every {
                if !predicate(&value) {
                    every = false;
                } else {
                    proof {
                        k = k + 1;
                    }
                }
            }
        }
        proof {
            assert(holds_until(predicate, input, k));
        }
        every
    }

    fn none<F: Fn(&T) -> bool>(self, predicate: F) -> (absent: bool) {
        !self.any(predicate)
    }
}

} // verus!
