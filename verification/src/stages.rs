//! The per-collection state of the stateful operators.
//!
//! Each stage is created when a collection starts and is asked once per
//! upstream value whether that value goes downstream. A stage never looks at
//! more than the value in front of it and what it remembers of earlier ones.

use vstd::prelude::*;
use vstd::std_specs::cmp::PartialEqSpec;

verus! {

/// State of `take`: how many values went downstream so far, out of a limit.
pub struct TakeStage {
    limit: usize,
    emitted: usize,
}

impl TakeStage {
    #[verifier::type_invariant]
    spec fn well_formed(self) -> bool {
        self.emitted <= self.limit
    }

    /// The number of values the stage lets through in all.
    pub closed spec fn limit(&self) -> nat {
        self.limit as nat
    }

    /// The number of values the stage has let through.
    pub closed spec fn emitted(&self) -> nat {
        self.emitted as nat
    }

    /// A stage that lets the first `limit` values through.
    pub fn new(limit: usize) -> (stage: Self)
        ensures
            stage.limit() == limit,
            stage.emitted() == 0,
    {
        TakeStage { limit, emitted: 0 }
    }

    /// Whether the limit is reached, so that the upstream can be stopped: true
    /// from the start for a limit of zero, and else right after the value
    /// that reaches the limit.
    pub fn is_done(&self) -> (done: bool)
        ensures
            done == (self.emitted() == self.limit()),
            self.emitted() <= self.limit(),
    {
        proof {
            use_type_invariant(self);
        }
        self.emitted >= self.limit
    }

    /// An upstream value arrives: it goes downstream if and only if the limit
    /// is not reached yet.
    pub fn accept(&mut self) -> (pass: bool)
        ensures
            pass == (old(self).emitted() < old(self).limit()),
            final(self).limit() == old(self).limit(),
            final(self).emitted() == old(self).emitted() + if pass {
                1nat
            } else {
                0nat
            },
    {
        proof {
            use_type_invariant(&*self);
        }
        if self.emitted < self.limit {
            self.emitted = self.emitted + 1;
            true
        } else {
            false
        }
    }
}

/// State of `drop_first`: how many values were held back so far.
pub struct DropFirstStage {
    count: usize,
    dropped: usize,
}

impl DropFirstStage {
    #[verifier::type_invariant]
    spec fn well_formed(self) -> bool {
        self.dropped <= self.count
    }

    /// The number of values the stage holds back in all.
    pub closed spec fn count(&self) -> nat {
        self.count as nat
    }

    /// The number of values the stage has held back.
    pub closed spec fn dropped(&self) -> nat {
        self.dropped as nat
    }

    /// A stage that holds back the first `count` values.
    pub fn new(count: usize) -> (stage: Self)
        ensures
            stage.count() == count,
            stage.dropped() == 0,
    {
        DropFirstStage { count, dropped: 0 }
    }

    /// An upstream value arrives: it goes downstream if and only if `count`
    /// values were held back before it.
    pub fn accept(&mut self) -> (pass: bool)
        ensures
            pass == (old(self).dropped() == old(self).count()),
            old(self).dropped() <= old(self).count(),
            final(self).count() == old(self).count(),
            final(self).dropped() == old(self).dropped() + if pass {
                0nat
            } else {
                1nat
            },
    {
        proof {
            use_type_invariant(&*self);
        }
        if self.dropped < self.count {
            self.dropped = self.dropped + 1;
            false
        } else {
            true
        }
    }
}

/// State of `drop_while`: whether values are still held back.
pub struct DropWhileStage {
    dropping: bool,
}

impl DropWhileStage {
    /// Whether the stage still holds values back.
    pub closed spec fn dropping(&self) -> bool {
        self.dropping
    }

    /// A stage that holds values back until the predicate first fails.
    pub fn new() -> (stage: Self)
        ensures
            stage.dropping(),
    {
        DropWhileStage { dropping: true }
    }

    /// An upstream value arrives. While the stage holds back, the predicate
    /// is asked: where it holds the value is dropped, where it fails the
    /// value goes downstream and so does every later one, unasked.
    pub fn accept<T, F: Fn(&T) -> bool>(&mut self, predicate: &F, value: &T) -> (pass: bool)
        requires
            call_requires(*predicate, (value,)),
        ensures
            !old(self).dropping() ==> pass,
            old(self).dropping() ==> call_ensures(*predicate, (value,), !pass),
            final(self).dropping() == !pass,
    {
        if self.dropping {
            if predicate(value) {
                false
            } else {
                self.dropping = false;
                true
            }
        } else {
            true
        }
    }
}

/// State of `take_while`: whether the predicate has failed once.
pub struct TakeWhileStage {
    done: bool,
}

impl TakeWhileStage {
    /// Whether the predicate has failed, so that nothing more goes downstream.
    pub closed spec fn done(&self) -> bool {
        self.done
    }

    /// A stage that lets values through until the predicate first fails.
    pub fn new() -> (stage: Self)
        ensures
            !stage.done(),
    {
        TakeWhileStage { done: false }
    }

    /// Whether the upstream can be stopped.
    pub fn is_done(&self) -> (done: bool)
        ensures
            done == self.done(),
    {
        self.done
    }

    /// An upstream value arrives. Until the predicate has failed, it is
    /// asked: where it holds the value goes downstream, where it fails the
    /// stage is done for good and no later value is asked about.
    pub fn accept<T, F: Fn(&T) -> bool>(&mut self, predicate: &F, value: &T) -> (pass: bool)
        requires
            call_requires(*predicate, (value,)),
        ensures
            old(self).done() ==> !pass,
            !old(self).done() ==> call_ensures(*predicate, (value,), pass),
            final(self).done() == !pass,
    {
        if !self.done && predicate(value) {
            true
        } else {
            self.done = true;
            false
        }
    }
}

/// State of `distinct_until_changed`: the key of the last value that went
/// downstream.
pub struct DistinctStage<K> {
    last: Option<K>,
}

impl<K: PartialEq> DistinctStage<K> {
    /// The key of the last value that went downstream, if any.
    pub closed spec fn last(&self) -> Option<K> {
        self.last
    }

    /// A stage that has let nothing through yet.
    pub fn new() -> (stage: Self)
        ensures
            stage.last() is None,
    {
        DistinctStage { last: None }
    }

    /// A value with key `key` arrives: it goes downstream if it is the first,
    /// or if its key differs from the key of the last value that went
    /// downstream. Only then is its key remembered.
    pub fn accept(&mut self, key: K) -> (pass: bool)
        ensures
            old(self).last() is None ==> pass,
            old(self).last() matches Some(previous) ==> (K::obeys_eq_spec() ==> pass
                == !previous.eq_spec(&key)),
            final(self).last() == if pass {
                Some(key)
            } else {
                old(self).last()
            },
    {
        let pass = match &self.last {
            None => true,
            Some(previous) => *previous != key,
        };
        if pass {
            self.last = Some(key);
        }
        pass
    }
}

/// State of `flat_map_latest`: which inner stream is the current one. Every
/// inner stream gets a token when it starts; its values go downstream only
/// while its token is the newest.
pub struct LatestStage {
    started: u64,
}

impl LatestStage {
    /// The number of inner streams started so far; the token of the current
    /// one, if any was started.
    pub closed spec fn started(&self) -> nat {
        self.started as nat
    }

    /// A stage without an inner stream.
    pub fn new() -> (stage: Self)
        ensures
            stage.started() == 0,
    {
        LatestStage { started: 0 }
    }

    /// Whether all tokens are handed out, so that no further inner stream can
    /// be started.
    pub fn is_exhausted(&self) -> (exhausted: bool)
        ensures
            exhausted == (self.started() == u64::MAX),
    {
        self.started == u64::MAX
    }

    /// A new upstream value arrives: its inner stream becomes the current
    /// one and replaces the one before it. The token is new.
    pub fn switch(&mut self) -> (token: u64)
        requires
            old(self).started() < u64::MAX,
        ensures
            token == old(self).started() + 1,
            final(self).started() == token,
    {
        self.started = self.started + 1;
        self.started
    }

    /// A value of the inner stream with `token` arrives: it goes downstream
    /// if and only if that stream is the current one.
    pub fn accept(&self, token: u64) -> (pass: bool)
        ensures
            pass == (token == self.started() && token > 0),
    {
        token == self.started && token > 0
    }
}

} // verus!
