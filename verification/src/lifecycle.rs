//! Operators that hook into the start and the end of a collection, and the
//! decisions taken when a collection fails or runs out of time.

use crate::flow::{can_produce, produces, Flow, FlowCollector};
use crate::operators::{at_most, concat_all, views_of};
use vstd::prelude::*;

verus! {

/// What a panic carried, as far as it can be shown.
pub enum PanicPayload {
    /// The panic carried a text.
    Text(String),
    /// The panic carried something else.
    Other,
}

/// How the collection of an upstream ended.
pub enum Completion {
    /// The producer returned.
    Finished,
    /// The producer panicked.
    Panicked(PanicPayload),
}

/// The message handed to a panic handler: the text the panic carried, and a
/// fixed text where it carried none.
pub fn panic_message(payload: PanicPayload) -> (message: String)
    ensures
        message@ == match payload {
            PanicPayload::Text(text) => text@,
            PanicPayload::Other => "Unknown panic"@,
        },
{
    match payload {
        PanicPayload::Text(text) => text,
        PanicPayload::Other => "Unknown panic".to_owned(),
    }
}

/// What is done after a failed attempt.
#[derive(Debug, Clone, Copy, PartialEq, Eq, Structural)]
pub enum RetryDecision {
    /// The upstream is collected again, from scratch.
    Again,
    /// The failure is raised to the caller.
    GiveUp,
}

/// State of `retry`: how many retries were started, out of a budget.
pub struct RetryStage {
    max_retries: usize,
    retries: usize,
}

impl RetryStage {
    #[verifier::type_invariant]
    spec fn well_formed(self) -> bool {
        self.retries <= self.max_retries
    }

    /// The number of retries allowed in all.
    pub closed spec fn max_retries(&self) -> nat {
        self.max_retries as nat
    }

    /// The number of retries started so far.
    pub closed spec fn retries(&self) -> nat {
        self.retries as nat
    }

    /// A stage that allows `max_retries` retries after the first attempt.
    pub fn new(max_retries: usize) -> (stage: Self)
        ensures
            stage.max_retries() == max_retries,
            stage.retries() == 0,
    {
        RetryStage { max_retries, retries: 0 }
    }

    /// An attempt has failed: it is tried again if and only if the budget is
    /// not used up, so that no more than `max_retries + 1` attempts are made.
    pub fn on_failure(&mut self) -> (decision: RetryDecision)
        ensures
            old(self).retries() <= old(self).max_retries(),
            decision == if old(self).retries() < old(self).max_retries() {
                RetryDecision::Again
            } else {
                RetryDecision::GiveUp
            },
            final(self).max_retries() == old(self).max_retries(),
            final(self).retries() == old(self).retries() + if decision == RetryDecision::Again {
                1nat
            } else {
                0nat
            },
    {
        proof {
            use_type_invariant(&*self);
        }
        if self.retries < self.max_retries {
            self.retries = self.retries + 1;
            RetryDecision::Again
        } else {
            RetryDecision::GiveUp
        }
    }
}

/// State of `with_timeout`: whether the timer has fired.
pub struct DeadlineStage {
    expired: bool,
}

impl DeadlineStage {
    /// Whether the timer has fired.
    pub closed spec fn expired(&self) -> bool {
        self.expired
    }

    /// A stage whose timer has not fired.
    pub fn new() -> (stage: Self)
        ensures
            !stage.expired(),
    {
        DeadlineStage { expired: false }
    }

    /// The timer fires: from now on nothing goes downstream.
    pub fn on_timeout(&mut self)
        ensures
            final(self).expired(),
    {
        self.expired = true;
    }

    /// An upstream value arrives: it goes downstream if and only if the timer
    /// has not fired.
    pub fn accept(&self) -> (pass: bool)
        ensures
            pass == !self.expired(),
    {
        !self.expired
    }
}

/// State of `on_empty`: whether the upstream has delivered anything.
pub struct EmptyStage {
    emitted: bool,
}

impl EmptyStage {
    /// Whether the upstream has delivered a value.
    pub closed spec fn emitted(&self) -> bool {
        self.emitted
    }

    /// A stage whose upstream has delivered nothing.
    pub fn new() -> (stage: Self)
        ensures
            !stage.emitted(),
    {
        EmptyStage { emitted: false }
    }

    /// An upstream value arrives; it goes downstream.
    pub fn on_value(&mut self)
        ensures
            final(self).emitted(),
    {
        self.emitted = true;
    }

    /// The upstream has ended: whether the action for an empty stream runs.
    pub fn runs_action(&self) -> (run: bool)
        ensures
            run == !self.emitted(),
    {
        !self.emitted
    }
}

/// What `retry` hands downstream, and whether it raises the failure.
pub struct Retried<T> {
    /// The values delivered by all attempts, one attempt after the other.
    pub delivered: Flow<T>,
    /// Whether the last attempt failed with the budget used up.
    pub reraised: bool,
}

/// `produced` is what `action` may leave in a collector that was empty when
/// the action started with `argument`.
pub open spec fn produces_with<T, A, F: FnOnce(FlowCollector<T>, A) -> FlowCollector<T>>(
    action: F,
    argument: A,
    produced: Seq<T>,
) -> bool {
    exists|start: FlowCollector<T>, end: FlowCollector<T>|
        start@ == Seq::<T>::empty() && call_ensures(action, (start, argument), end) && end@
            == produced
}

/// An action can be started with `argument` on any empty collector.
pub open spec fn can_produce_with<T, A, F: FnOnce(FlowCollector<T>, A) -> FlowCollector<T>>(
    action: F,
    argument: A,
) -> bool {
    forall|start: FlowCollector<T>|
        start@ == Seq::<T>::empty() ==> call_requires(action, (start, argument))
}

/// The text that a panic's payload stands for.
pub open spec fn message_of(payload: PanicPayload) -> Seq<char> {
    match payload {
        PanicPayload::Text(text) => text@,
        PanicPayload::Other => "Unknown panic"@,
    }
}

/// Operators that act at the start or the end of a collection.
pub trait FlowLifecycle<T>: Sized + View<V = Seq<T>> {
    /// Runs `action` before the upstream is asked for anything: what it
    /// emits is delivered first, then all of this stream.
    fn on_start<F: FnOnce(FlowCollector<T>) -> FlowCollector<T>>(self, action: F) -> (out: Flow<T>)
        requires
            can_produce(action),
        ensures
            exists|first: Seq<T>| produces(action, first) && out@ == first + self@,
    ;

    /// Runs `action` after the upstream has ended, with no failure to report:
    /// all of this stream is delivered, then what the action emits.
    fn on_completion<F: FnOnce(FlowCollector<T>, Option<String>) -> FlowCollector<T>>(
        self,
        action: F,
    ) -> (out: Flow<T>)
        requires
            can_produce_with(action, None::<String>),
        ensures
            exists|last: Seq<T>|
                produces_with(action, None::<String>, last) && out@ == self@ + last,
    ;

    /// Runs `action` only if the upstream ends without a value: then what the
    /// action emits is delivered, and else this stream unchanged.
    fn on_empty<F: FnOnce(FlowCollector<T>) -> FlowCollector<T>>(self, action: F) -> (out: Flow<T>)
        requires
            self@.len() == 0 ==> can_produce(action),
        ensures
            self@.len() > 0 ==> out@ == self@,
            self@.len() == 0 ==> produces(action, out@),
    ;

    /// This stream is what the upstream delivered until its collection ended
    /// as `outcome` says. Where it panicked, `handler` gets the panic's
    /// message and what it emits is delivered after the values of this
    /// stream; where it finished, the handler is not called. Either way the
    /// collection completes.
    fn catch_panic<F: FnOnce(FlowCollector<T>, String) -> FlowCollector<T>>(
        self,
        outcome: Completion,
        handler: F,
    ) -> (out: Flow<T>)
        requires
            outcome is Panicked ==> forall|message: String|
                #[trigger] can_produce_with(handler, message),
        ensures
            outcome is Finished ==> out@ == self@,
            outcome matches Completion::Panicked(payload) ==> exists|
                message: String,
                last: Seq<T>,
            |
                message@ == message_of(payload) && produces_with(handler, message, last) && out@
                    == self@ + last,
    ;

    /// This stream is what the upstream delivers when its collection does not
    /// fail; `failed` holds what each attempt that panicked delivered before,
    /// attempt by attempt. Every attempt starts from scratch and hands on all
    /// it delivers. After a failure the upstream is collected again, up to
    /// `max_retries` times; a failure after that is raised.
    fn retry(self, max_retries: usize, failed: Vec<Flow<T>>) -> (outcome: Retried<T>)
        ensures
            outcome.reraised == (failed@.len() > max_retries),
            outcome.reraised ==> outcome.delivered@ == concat_all(
                views_of(failed@).take(max_retries + 1),
            ),
            !outcome.reraised ==> outcome.delivered@ == concat_all(views_of(failed@)) + self@,
    ;

    /// Delivers the values that arrive before the timer fires, `in_time` of
    /// them, or all where the upstream ends before; nothing after it, and no
    /// error either way.
    fn with_timeout(self, in_time: usize) -> (out: Flow<T>)
        ensures
            out@ == self@.take(at_most(in_time, self@.len())),
    ;
}

impl<T> FlowLifecycle<T> for Flow<T> {
    fn on_start<F: FnOnce(FlowCollector<T>) -> FlowCollector<T>>(self, action: F) -> (out: Flow<
        T,
    >) {
        let mut collector = action(FlowCollector::new());
        let ghost first = collector@;
        self.collect_into(&mut collector);
        proof {
            assert(produces(action, first));
        }
        Flow::from_vec(collector.into_values())
    }

    fn on_completion<F: FnOnce(FlowCollector<T>, Option<String>) -> FlowCollector<T>>(
        self,
        action: F,
    ) -> (out: Flow<T>) {
        let collector = action(FlowCollector::new(), None);
        let ghost last = collector@;
        let mut values = self.into_vec();
        let mut rest = collector.into_values();
        values.append(&mut rest);
        proof {
            assert(produces_with(action, None::<String>, last));
        }
        Flow::from_vec(values)
    }

    fn on_empty<F: FnOnce(FlowCollector<T>) -> FlowCollector<T>>(self, action: F) -> (out: Flow<
        T,
    >) {
        let mut stage = EmptyStage::new();
        if self.len() > 0 {
            stage.on_value();
        }
        if stage.runs_action() {
            let collector = action(FlowCollector::new());
            Flow::from_vec(collector.into_values())
        } else {
            self
        }
    }

    fn catch_panic<F: FnOnce(FlowCollector<T>, String) -> FlowCollector<T>>(
        self,
        outcome: Completion,
        handler: F,
    ) -> (out: Flow<T>) {
        match outcome {
            Completion::Finished => self,
            Completion::Panicked(payload) => {
                let message = panic_message(payload);
                let ghost shown = message;
                proof {
                    assert(can_produce_with(handler, message));
                }
                let collector = handler(FlowCollector::new(), message);
                let ghost last = collector@;
                let mut values = self.into_vec();
                let mut rest = collector.into_values();
                values.append(&mut rest);
                proof {
                    assert(produces_with(handler, shown, last));
                }
                Flow::from_vec(values)
            },
        }
    }

    fn retry(self, max_retries: usize, failed: Vec<Flow<T>>) -> (outcome: Retried<T>) {
        let ghost attempts = views_of(failed@);
        let mut stage = RetryStage::new(max_retries);
        let mut delivered: Vec<T> = Vec::new();
        let mut reraised = false;
        for attempt in it: failed.into_iter()
            invariant
                views_of(it.seq()) == attempts,
                stage.max_retries() == max_retries,
                !reraised ==> stage.retries() == it.index(),
                !reraised ==> delivered@ == concat_all(attempts.take(it.index() as int)),
                reraised ==> attempts.len() > max_retries,
                reraised ==> delivered@ == concat_all(attempts.take(max_retries + 1)),
                it.index() > max_retries ==> reraised,
        {
            if !reraised {
                proof {
                    let i = it.index() as int;
                    assert(attempts[i] == attempt@);
                    assert(attempts.take(i + 1).drop_last() =~= attempts.take(i));
                }
                let mut values = attempt.into_vec();
                delivered.append(&mut values);
                match stage.on_failure() {
                    RetryDecision::Again => {},
                    RetryDecision::GiveUp => {
                        reraised = true;
                    },
                }
            }
        }
        proof {
            assert(attempts.take(attempts.len() as int) =~= attempts);
        }
        if !reraised {
            let mut values = self.into_vec();
            delivered.append(&mut values);
        }
        Retried { delivered: Flow::from_vec(delivered), reraised }
    }

    fn with_timeout(self, in_time: usize) -> (out: Flow<T>) {
        let ghost input = self@;
        let mut stage = DeadlineStage::new();
        let mut stack = self.into_reversed();
        let mut out: Vec<T> = Vec::new();
        if in_time == 0 {
            stage.on_timeout();
        }
        while stage.accept() && stack.len() > 0
            invariant
                stage.expired() <==> out@.len() == in_time,
                out@.len() <= in_time,
                out@.len() + stack@.len() == input.len(),
                stack@ == input.reverse().take(stack@.len() as int),
                out@ == input.take(out@.len() as int),
            decreases stack@.len(),
        {
            let value = stack.pop().unwrap();
            proof {
                assert(value == input[out@.len() as int]);
                assert(input.take(out@.len() as int + 1) =~= out@.push(value));
                assert(stack@ =~= input.reverse().take(stack@.len() as int));
            }
            out.push(value);
            if out.len() == in_time {
                stage.on_timeout();
            }
        }
        Flow::from_vec(out)
    }
}

} // verus!
