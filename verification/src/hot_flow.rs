//! Hot streams: sources that live on their own and hand what they get to
//! whoever is subscribed at the time.
//!
//! [`SharedFlow`] broadcasts every value through a bounded buffer;
//! [`StateFlow`] holds one current value and tells its subscribers that it
//! changed. A subscription is a cursor: each `next` gives what has come since
//! the last one, and nothing where nothing has.

use vstd::prelude::*;

verus! {

/// How many entries of `slots` are in use.
pub open spec fn live_count<A>(slots: Seq<Option<A>>) -> nat
    decreases slots.len(),
{
    if slots.len() == 0 {
        0
    } else {
        live_count(slots.drop_last()) + if slots.last() is Some {
            1nat
        } else {
            0nat
        }
    }
}

/// The number of slots in use.
fn count_live<A>(slots: &Vec<Option<A>>) -> (n: usize)
    ensures
        n == live_count(slots@),
{
    let mut n: usize = 0;
    let mut i: usize = 0;
    while i < slots.len()
        invariant
            i <= slots.len(),
            n == live_count(slots@.take(i as int)),
            n <= i,
        decreases slots.len() - i,
    {
        proof {
            assert(slots@.take(i + 1).drop_last() =~= slots@.take(i as int));
        }
        if slots[i].is_some() {
            n = n + 1;
        }
        i = i + 1;
    }
    proof {
        assert(slots@.take(slots@.len() as int) =~= slots@);
    }
    n
}

/// The name of one subscription of a hot stream.
#[derive(Clone, Copy, Debug, PartialEq, Eq, Structural)]
pub struct Subscription {
    slot: usize,
}

impl Subscription {
    /// The place of the subscription in its stream.
    pub closed spec fn slot(&self) -> int {
        self.slot as int
    }
}

/// A hot stream that holds one current value.
pub struct StateFlow<T> {
    value: T,
    unseen: Vec<Option<bool>>,
}

impl<T: Clone> StateFlow<T> {
    /// The current value.
    pub closed spec fn current(&self) -> T {
        self.value
    }

    /// For each subscription, whether the current value was written after
    /// the subscription last looked; nothing for a subscription that is
    /// closed.
    pub closed spec fn unseen(&self) -> Seq<Option<bool>> {
        self.unseen@
    }

    /// A state that holds `initial` and has no subscribers.
    pub fn new(initial: T) -> (state: Self)
        ensures
            state.current() == initial,
            state.unseen() == Seq::<Option<bool>>::empty(),
    {
        StateFlow { value: initial, unseen: Vec::new() }
    }

    /// Overwrites the current value and tells every subscriber. This always
    /// succeeds, with or without subscribers.
    pub fn emit(&mut self, value: T)
        ensures
            final(self).current() == value,
            final(self).unseen() == Seq::new(
                old(self).unseen().len(),
                |i: int|
                    match old(self).unseen()[i] {
                        Some(_) => Some(true),
                        None => None,
                    },
            ),
    {
        self.value = value;
        let ghost before = self.unseen@;
        let mut i: usize = 0;
        while i < self.unseen.len()
            invariant
                i <= self.unseen.len(),
                self.unseen@.len() == before.len(),
                self.value == value,
                forall|k: int|
                    0 <= k < i ==> #[trigger] self.unseen@[k] == match before[k] {
                        Some(_) => Some(true),
                        None => None::<bool>,
                    },
                forall|k: int| i <= k < before.len() ==> #[trigger] self.unseen@[k] == before[k],
            decreases self.unseen.len() - i,
        {
            if self.unseen[i].is_some() {
                self.unseen[i] = Some(true);
            }
            i = i + 1;
        }
        proof {
            assert(self.unseen@ =~= Seq::new(
                before.len(),
                |i: int|
                    match before[i] {
                        Some(_) => Some(true),
                        None => None,
                    },
            ));
        }
    }

    /// Same as [`StateFlow::emit`].
    pub fn set(&mut self, value: T)
        ensures
            final(self).current() == value,
            final(self).unseen() == Seq::new(
                old(self).unseen().len(),
                |i: int|
                    match old(self).unseen()[i] {
                        Some(_) => Some(true),
                        None => None,
                    },
            ),
    {
        self.emit(value)
    }

    /// A clone of the current value.
    pub fn get(&self) -> (value: T)
        ensures
            cloned(self.current(), value),
    {
        self.value.clone()
    }

    /// Opens a subscription. Its first emission comes with it: a clone of the
    /// value that is current now, whether or not anything is written later.
    pub fn subscribe(&mut self) -> (opened: (Subscription, T))
        ensures
            cloned(old(self).current(), opened.1),
            opened.0.slot() == old(self).unseen().len(),
            final(self).current() == old(self).current(),
            final(self).unseen() == old(self).unseen().push(Some(false)),
    {
        let slot = self.unseen.len();
        self.unseen.push(Some(false));
        (Subscription { slot }, self.value.clone())
    }

    /// What has come for `subscription` since it last looked: a clone of the
    /// current value if it was written since, however often, and nothing
    /// otherwise, or where the subscription is closed or not of this stream.
    pub fn next(&mut self, subscription: &Subscription) -> (update: Option<T>)
        ensures
            final(self).current() == old(self).current(),
            update is Some <==> subscription.slot() < old(self).unseen().len() && old(self).unseen()[subscription.slot()] == Some(true),
            update matches Some(value) ==> cloned(old(self).current(), value) && final(self).unseen() == old(self).unseen().update(subscription.slot(), Some(false)),
            update is None ==> final(self).unseen() == old(self).unseen(),
    {
        if subscription.slot < self.unseen.len() {
            match self.unseen[subscription.slot] {
                Some(true) => {
                    self.unseen[subscription.slot] = Some(false);
                    Some(self.value.clone())
                },
                _ => None,
            }
        } else {
            None
        }
    }

    /// Closes `subscription`: it gets nothing more.
    pub fn unsubscribe(&mut self, subscription: Subscription)
        ensures
            final(self).current() == old(self).current(),
            final(self).unseen() == if subscription.slot() < old(self).unseen().len() {
                old(self).unseen().update(subscription.slot(), None)
            } else {
                old(self).unseen()
            },
    {
        if subscription.slot < self.unseen.len() {
            self.unseen[subscription.slot] = None;
        }
    }

    /// The number of open subscriptions.
    pub fn subscriber_count(&self) -> (n: usize)
        ensures
            n == live_count(self.unseen()),
    {
        count_live(&self.unseen)
    }
}

/// The buffer after `value` is broadcast: the value comes last, and the
/// oldest value leaves where the buffer was full.
pub open spec fn broadcast_into<T>(buffer: Seq<T>, value: T, capacity: nat) -> Seq<T> {
    if buffer.len() < capacity {
        buffer.push(value)
    } else {
        buffer.skip(1).push(value)
    }
}

/// The subscribers' backlogs after one more value is broadcast: each grows by
/// one, but not beyond the capacity, so that a subscriber that is that far
/// behind misses the value that left the buffer.
pub open spec fn backlog_grown(backlog: Seq<Option<usize>>, capacity: nat) -> Seq<Option<usize>> {
    Seq::new(
        backlog.len(),
        |i: int|
            match backlog[i] {
                Some(behind) => Some(
                    if behind < capacity {
                        (behind + 1) as usize
                    } else {
                        capacity as usize
                    },
                ),
                None => None,
            },
    )
}

/// A hot stream that broadcasts every value to all who are subscribed when it
/// is emitted, through a buffer of bounded size.
pub struct SharedFlow<T> {
    capacity: usize,
    buffer: Vec<T>,
    backlog: Vec<Option<usize>>,
}

impl<T> SharedFlow<T> {
    #[verifier::type_invariant]
    spec fn inv(self) -> bool {
        &&& self.capacity > 0
        &&& self.buffer@.len() <= self.capacity
        &&& forall|i: int|
            0 <= i < self.backlog@.len() ==> match #[trigger] self.backlog@[i] {
                Some(behind) => behind <= self.buffer@.len(),
                None => true,
            }
    }
}

impl<T: Clone> SharedFlow<T> {
    /// The number of values the buffer holds at most.
    pub closed spec fn capacity(&self) -> nat {
        self.capacity as nat
    }

    /// The values in the buffer, oldest first.
    pub closed spec fn buffered(&self) -> Seq<T> {
        self.buffer@
    }

    /// For each subscription, how many of the newest buffered values it has
    /// not taken yet; nothing for a subscription that is closed.
    pub closed spec fn backlog(&self) -> Seq<Option<usize>> {
        self.backlog@
    }

    /// A stream with an empty buffer for `capacity` values and no subscribers.
    pub fn new(capacity: usize) -> (shared: Self)
        requires
            capacity > 0,
        ensures
            shared.capacity() == capacity,
            shared.buffered() == Seq::<T>::empty(),
            shared.backlog() == Seq::<Option<usize>>::empty(),
    {
        SharedFlow { capacity, buffer: Vec::new(), backlog: Vec::new() }
    }

    /// Broadcasts `value` without waiting. With no subscriber the value is
    /// dropped; else it enters the buffer, the oldest value leaves where the
    /// buffer was full, and every subscriber has one more value to take.
    pub fn emit(&mut self, value: T)
        ensures
            final(self).capacity() == old(self).capacity(),
            live_count(old(self).backlog()) == 0 ==> final(self).buffered() == old(self).buffered()
                && final(self).backlog() == old(self).backlog(),
            live_count(old(self).backlog()) > 0 ==> final(self).buffered() == broadcast_into(
                old(self).buffered(),
                value,
                old(self).capacity(),
            ) && final(self).backlog() == backlog_grown(
                old(self).backlog(),
                old(self).capacity(),
            ),
    {
        proof {
            use_type_invariant(&*self);
        }
        if count_live(&self.backlog) == 0 {
            return ;
        }
        let ghost before = self.backlog@;
        let ghost held = self.buffer@;
        let capacity = self.capacity;
        let mut backlog: Vec<Option<usize>> = Vec::new();
        core::mem::swap(&mut self.backlog, &mut backlog);
        let mut buffer: Vec<T> = Vec::new();
        core::mem::swap(&mut self.buffer, &mut buffer);
        if buffer.len() == capacity {
            let _ = buffer.remove(0);
        }
        buffer.push(value);
        proof {
            assert(buffer@ =~= broadcast_into(held, value, capacity as nat));
        }
        let mut i: usize = 0;
        while i < backlog.len()
            invariant
                i <= backlog.len(),
                backlog@.len() == before.len(),
                capacity > 0,
                held.len() <= capacity,
                buffer@.len() == if held.len() < capacity {
                    held.len() + 1
                } else {
                    capacity as nat
                },
                forall|k: int|
                    0 <= k < before.len() ==> match #[trigger] before[k] {
                        Some(behind) => behind <= held.len(),
                        None => true,
                    },
                forall|k: int|
                    0 <= k < i ==> #[trigger] backlog@[k] == backlog_grown(
                        before,
                        capacity as nat,
                    )[k],
                forall|k: int| i <= k < before.len() ==> #[trigger] backlog@[k] == before[k],
            decreases backlog.len() - i,
        {
            match backlog[i] {
                Some(behind) => {
                    backlog[i] = Some(
                        if behind < capacity {
                            behind + 1
                        } else {
                            capacity
                        },
                    );
                },
                None => {},
            }
            i = i + 1;
        }
        proof {
            assert(backlog@ =~= backlog_grown(before, capacity as nat));
        }
        self.buffer = buffer;
        self.backlog = backlog;
    }

    /// Opens a subscription that starts now: it gets what is emitted from
    /// here on, and nothing of what the buffer holds already.
    pub fn subscribe(&mut self) -> (subscription: Subscription)
        ensures
            subscription.slot() == old(self).backlog().len(),
            final(self).capacity() == old(self).capacity(),
            final(self).buffered() == old(self).buffered(),
            final(self).backlog() == old(self).backlog().push(Some(0usize)),
    {
        proof {
            use_type_invariant(&*self);
        }
        let slot = self.backlog.len();
        let mut backlog: Vec<Option<usize>> = Vec::new();
        core::mem::swap(&mut self.backlog, &mut backlog);
        backlog.push(Some(0));
        self.backlog = backlog;
        Subscription { slot }
    }

    /// The next value for `subscription`: a clone of the oldest buffered
    /// value that it has not taken, and nothing where it has taken all, or
    /// where it is closed or not of this stream.
    pub fn next(&mut self, subscription: &Subscription) -> (value: Option<T>)
        ensures
            final(self).capacity() == old(self).capacity(),
            final(self).buffered() == old(self).buffered(),
            value is Some <==> subscription.slot() < old(self).backlog().len() && (old(self).backlog()[subscription.slot()] matches Some(behind) && behind > 0),
            value is None ==> final(self).backlog() == old(self).backlog(),
            value matches Some(taken) ==> {
                let behind = old(self).backlog()[subscription.slot()].unwrap();
                &&& behind <= old(self).buffered().len()
                &&& cloned(old(self).buffered()[old(self).buffered().len() - behind], taken)
                &&& final(self).backlog() == old(self).backlog().update(
                    subscription.slot(),
                    Some((behind - 1) as usize),
                )
            },
    {
        proof {
            use_type_invariant(&*self);
        }
        if subscription.slot >= self.backlog.len() {
            return None;
        }
        match self.backlog[subscription.slot] {
            Some(behind) => {
                if behind > 0 {
                    let taken = self.buffer[self.buffer.len() - behind].clone();
                    let mut backlog: Vec<Option<usize>> = Vec::new();
                    core::mem::swap(&mut self.backlog, &mut backlog);
                    backlog[subscription.slot] = Some(behind - 1);
                    self.backlog = backlog;
                    Some(taken)
                } else {
                    None
                }
            },
            None => None,
        }
    }

    /// Closes `subscription`: it gets nothing more and no longer counts.
    pub fn unsubscribe(&mut self, subscription: Subscription)
        ensures
            final(self).capacity() == old(self).capacity(),
            final(self).buffered() == old(self).buffered(),
            final(self).backlog() == if subscription.slot() < old(self).backlog().len() {
                old(self).backlog().update(subscription.slot(), None)
            } else {
                old(self).backlog()
            },
    {
        proof {
            use_type_invariant(&*self);
        }
        if subscription.slot < self.backlog.len() {
            let mut backlog: Vec<Option<usize>> = Vec::new();
            core::mem::swap(&mut self.backlog, &mut backlog);
            backlog[subscription.slot] = None;
            self.backlog = backlog;
        }
    }

    /// The number of open subscriptions.
    pub fn subscriber_count(&self) -> (n: usize)
        ensures
            n == live_count(self.backlog()),
    {
        count_live(&self.backlog)
    }
}

} // verus!
