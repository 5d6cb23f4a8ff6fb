//! Promises of the engine that futures of the host settle.
//!
//! A future of the host is handed to a script as a promise. When the future completes, the
//! host has the engine resolve the promise, under the instance lock; that only queues the
//! reactions to the promise as jobs. What the script makes of the outcome is there once the
//! job queue has been drained after that, and not before. [`Bridge`] keeps the book on how
//! far one such promise has come.
use vstd::prelude::*;

verus! {

/// How far a promise that a future of the host settles has come.
pub struct Bridge<T> {
    outcome: Option<T>,
    delivered: bool,
}

/// What a [`Bridge`] records.
pub enum Stage<T> {
    /// The future of the host has not completed.
    Waiting,
    /// The future has completed with this outcome. The reactions to it wait in the engine's
    /// job queue.
    Queued(T),
    /// The job queue has been drained since: the outcome has reached the script.
    Settled(T),
}

/// What happens to a bridged promise.
pub enum Event<T> {
    /// The future of the host completes with this outcome.
    Completed(T),
    /// The job queue of the engine is drained to the end.
    Drained,
}

impl<T> Stage<T> {
    /// The stage after the future of the host completed with `outcome`. A future completes
    /// once: a second outcome is not taken.
    pub open spec fn completed(self, outcome: T) -> Stage<T> {
        match self {
            Stage::Waiting => Stage::Queued(outcome),
            _ => self,
        }
    }

    /// The stage after the job queue was drained.
    pub open spec fn drained(self) -> Stage<T> {
        match self {
            Stage::Queued(outcome) => Stage::Settled(outcome),
            _ => self,
        }
    }

    /// The outcome as far as the script has it.
    pub open spec fn settled(self) -> Option<T> {
        match self {
            Stage::Settled(outcome) => Some(outcome),
            _ => None,
        }
    }

    /// The stage after `events` happened one after the other.
    pub open spec fn after(self, events: Seq<Event<T>>) -> Stage<T>
        decreases events.len(),
    {
        if events.len() == 0 {
            self
        } else {
            let before = self.after(events.drop_last());
            match events.last() {
                Event::Completed(outcome) => before.completed(outcome),
                Event::Drained => before.drained(),
            }
        }
    }
}

impl<T> View for Bridge<T> {
    type V = Stage<T>;

    closed spec fn view(&self) -> Stage<T> {
        match self.outcome {
            None => Stage::Waiting,
            Some(outcome) => if self.delivered {
                Stage::Settled(outcome)
            } else {
                Stage::Queued(outcome)
            },
        }
    }
}

impl<T> Bridge<T> {
    /// The bridge of a promise whose future has not completed.
    pub fn new() -> (r: Bridge<T>)
        ensures
            r@ == Stage::<T>::Waiting,
    {
        Bridge { outcome: None, delivered: false }
    }

    /// The future of the host completed with `outcome`. Returns whether the outcome was
    /// taken: if so, the engine is to be told to resolve the promise now.
    pub fn complete(&mut self, outcome: T) -> (taken: bool)
        ensures
            final(self)@ == old(self)@.completed(outcome),
            taken == (old(self)@ is Waiting),
    {
        if self.outcome.is_none() {
            self.outcome = Some(outcome);
            self.delivered = false;
            true
        } else {
            false
        }
    }

    /// The job queue of the engine was drained to the end.
    pub fn drained(&mut self)
        ensures
            final(self)@ == old(self)@.drained(),
    {
        if self.outcome.is_some() {
            self.delivered = true;
        }
    }

    /// The outcome, once it has reached the script.
    pub fn poll(&self) -> (r: Option<&T>)
        ensures
            r matches Some(outcome) ==> self@.settled() == Some(*outcome),
            r is None ==> self@.settled() is None,
    {
        if self.delivered {
            self.outcome.as_ref()
        } else {
            None
        }
    }
}

/// The place of the first completion among `events`, or their number if there is none.
pub open spec fn first_completion<T>(events: Seq<Event<T>>) -> int
    decreases events.len(),
{
    if events.len() == 0 {
        0
    } else if first_completion(events.drop_last()) < events.len() - 1 {
        first_completion(events.drop_last())
    } else if events.last() is Completed {
        events.len() - 1
    } else {
        events.len() as int
    }
}

/// The outcome of a promise that a future of the host settles reaches the script only after
/// the future has completed and the job queue has been drained after that, and not before:
/// whatever happens, the promise is settled exactly if a draining has followed the first
/// completion, and settled with the outcome of that completion.
pub proof fn law_settled_after_completion_and_drain<T>(events: Seq<Event<T>>)
    ensures
        0 <= first_completion(events) <= events.len(),
        first_completion(events) < events.len() ==> events[first_completion(events)] is Completed,
        forall|i: int| 0 <= i < first_completion(events) ==> !(events[i] is Completed),
        Stage::<T>::Waiting.after(events).settled() is Some <==> exists|j: int|
            first_completion(events) < j < events.len() && events[j] is Drained,
        Stage::<T>::Waiting.after(events).settled() matches Some(outcome) ==> events[first_completion(
            events,
        )] == Event::Completed(outcome),
        Stage::<T>::Waiting.after(events) matches Stage::Queued(outcome) ==> events[first_completion(
            events,
        )] == Event::Completed(outcome),
        Stage::<T>::Waiting.after(events) is Waiting <==> first_completion(events) == events.len(),
    decreases events.len(),
{
    if events.len() > 0 {
        let init = events.drop_last();
        law_settled_after_completion_and_drain(init);
        let first = first_completion(init);
        assert forall|i: int| 0 <= i < init.len() implies init[i] == events[i] by {}
        if first < init.len() {
            assert(init[first] == events[first]);
        }
        if Stage::<T>::Waiting.after(init).settled() is Some {
            let j = choose|j: int| first < j < init.len() && init[j] is Drained;
            assert(events[j] is Drained);
        }
        if Stage::<T>::Waiting.after(events).settled() is Some && !(Stage::<T>::Waiting.after(
            init,
        ).settled() is Some) {
            assert(events[events.len() - 1] is Drained);
        }
        if exists|j: int| first_completion(events) < j < events.len() && events[j] is Drained {
            let j = choose|j: int|
                first_completion(events) < j < events.len() && events[j] is Drained;
            if j < init.len() {
                assert(init[j] is Drained);
            }
        }
    }
}

} // verus!
