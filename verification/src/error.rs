//! Errors, and the bridge that turns the engine's pending exception into one.
use vstd::prelude::*;
use crate::engine::{Call, Reply, Step};
use crate::model::{completes, follows, lemma_follows, lemma_state_at_prefix, Engine};

verus! {

/// A failure reported to host code.
#[derive(Clone, Debug, PartialEq, Eq)]
pub enum Error {
    /// The script threw, or a built-in operation raised. Carries the string form of what
    /// was thrown.
    Exception(String),
    /// The engine signalled failure and left no exception to read.
    Unknown,
    /// The interrupt mechanism aborted execution.
    Interrupted,
    /// A job drained from the engine's queue threw. Carries the string form of what was
    /// thrown.
    Job(String),
}

/// Empties the engine's exception slot without looking at what was in it.
///
/// Two calls: take the exception out, then give the reference up.
pub open spec fn discard_step<'a>(log: Seq<Reply>) -> Step<'a, ()> {
    if log.len() == 0 {
        Step::Call(Call::GetException)
    } else if log.len() == 1 {
        Step::Call(Call::FreeValue(log[0].value()))
    } else {
        Step::Done(())
    }
}

/// Reads the engine's pending exception and turns it into an [`Error`].
///
/// The exception is taken out of the engine first, which empties the slot. If the interrupt
/// mechanism had aborted execution the error is `Interrupted`. If the slot was empty it is
/// `Unknown`. Otherwise the exception's text is borrowed, copied and handed back, and the
/// error is `Exception` with that text; if the engine cannot produce the text, the
/// exception that this attempt left behind is discarded and the error is `Unknown`. On every
/// path the reference to the exception is given up before the operation completes.
pub open spec fn raise_step<'a>(log: Seq<Reply>) -> Step<'a, Error> {
    if log.len() == 0 {
        Step::Call(Call::GetException)
    } else if log.len() == 1 {
        Step::Call(Call::TakeInterrupt)
    } else if log[1].flag() {
        if log.len() == 2 {
            Step::Call(Call::FreeValue(log[0].value()))
        } else {
            Step::Done(Error::Interrupted)
        }
    } else if log[0].value().absent() {
        Step::Done(Error::Unknown)
    } else if log.len() == 2 {
        Step::Call(Call::ToCStringLen(log[0].value()))
    } else {
        match log[2].text() {
            Some(buf) => {
                if log.len() == 3 {
                    Step::Call(Call::FreeCString(buf.ptr))
                } else if log.len() == 4 {
                    Step::Call(Call::FreeValue(log[0].value()))
                } else {
                    Step::Done(Error::Exception(buf.text))
                }
            },
            None => {
                match discard_step(log.skip(3)) {
                    Step::Call(call) => Step::Call(call),
                    Step::Done(_) => {
                        if log.len() == 5 {
                            Step::Call(Call::FreeValue(log[0].value()))
                        } else {
                            Step::Done(Error::Unknown)
                        }
                    },
                }
            },
        }
    }
}

/// Runs [`discard_step`] on the replies from position `at` on.
pub fn discard<'a>(log: &[Reply], at: usize) -> (r: Step<'a, ()>)
    requires
        at <= log@.len(),
    ensures
        r == discard_step(log@.skip(at as int)),
{
    let n = log.len() - at;
    if n == 0 {
        Step::Call(Call::GetException)
    } else if n == 1 {
        Step::Call(Call::FreeValue(log[at].value()))
    } else {
        Step::Done(())
    }
}

/// Runs [`raise_step`] on the replies from position `at` on.
pub fn raise<'a>(log: &[Reply], at: usize) -> (r: Step<'a, Error>)
    requires
        at <= log@.len(),
    ensures
        r == raise_step(log@.skip(at as int)),
{
    let n = log.len() - at;
    let ghost rest = log@.skip(at as int);
    if n == 0 {
        return Step::Call(Call::GetException);
    }
    let exception = log[at].value();
    if n == 1 {
        return Step::Call(Call::TakeInterrupt);
    }
    if log[at + 1].flag() {
        if n == 2 {
            return Step::Call(Call::FreeValue(exception));
        }
        return Step::Done(Error::Interrupted);
    }
    if exception.is_absent() {
        return Step::Done(Error::Unknown);
    }
    if n == 2 {
        return Step::Call(Call::ToCStringLen(exception));
    }
    match log[at + 2].text() {
        Some(buf) => {
            if n == 3 {
                Step::Call(Call::FreeCString(buf.ptr))
            } else if n == 4 {
                Step::Call(Call::FreeValue(exception))
            } else {
                Step::Done(Error::Exception(buf.text))
            }
        },
        None => {
            assert(rest.skip(3) == log@.skip(at + 3));
            match discard(log, at + 3) {
                Step::Call(call) => Step::Call(call),
                Step::Done(_) => {
                    if n == 5 {
                        Step::Call(Call::FreeValue(exception))
                    } else {
                        Step::Done(Error::Unknown)
                    }
                },
            }
        },
    }
}

/// [`raise_step`] as an operation.
pub open spec fn raise_op<'a>() -> spec_fn(Seq<Reply>) -> Step<'a, Error> {
    |log: Seq<Reply>| raise_step(log)
}

/// The number of replies after which [`raise_step`] is done, given what they are.
pub open spec fn raise_len(log: Seq<Reply>) -> nat {
    if log[1].flag() {
        3
    } else if log[0].value().absent() {
        2
    } else if log[2].text() is Some {
        5
    } else {
        6
    }
}

/// [`raise_step`] is done after [`raise_len`] replies and not before.
pub proof fn lemma_raise_len(log: Seq<Reply>)
    ensures
        raise_step(log) is Done <==> log.len() >= 2 && log.len() >= raise_len(log),
{
    if log.len() >= 3 {
        assert(log.skip(3).len() == log.len() - 3);
    }
}

/// [`raise_step`] along one of its four paths, the replies being exactly those of the path.
proof fn lemma_raise_path(engine: Engine, replies: Seq<Reply>)
    requires
        engine.locked,
        replies.len() >= 2,
        replies.len() == raise_len(replies),
    ensures
        engine.permits(raise_op(), replies),
        engine.after(raise_op(), replies) == (Engine { pending: false, ..engine }),
{
    let op = raise_op();
    assert(replies.take(replies.len() as int) == replies);
    if replies[1].flag() {
        reveal_with_fuel(Engine::state_at, 4);
        assert(engine.after(op, replies).held =~= engine.held);
    } else if replies[0].value().absent() {
        reveal_with_fuel(Engine::state_at, 3);
        assert(engine.after(op, replies).held =~= engine.held);
    } else if replies[2].text() is Some {
        lemma_raise_path_text(engine, replies);
    } else {
        lemma_raise_path_no_text(engine, replies);
    }
}

proof fn lemma_raise_path_text(engine: Engine, replies: Seq<Reply>)
    requires
        engine.locked,
        replies.len() == 5,
        !replies[1].flag(),
        !replies[0].value().absent(),
        replies[2].text() is Some,
    ensures
        engine.permits(raise_op(), replies),
        engine.after(raise_op(), replies) == (Engine { pending: false, ..engine }),
{
    let op = raise_op();
    assert(replies.take(replies.len() as int) == replies);
    reveal_with_fuel(Engine::state_at, 6);
    assert(engine.after(op, replies).held =~= engine.held);
}

proof fn lemma_raise_path_no_text(engine: Engine, replies: Seq<Reply>)
    requires
        engine.locked,
        replies.len() == 6,
        !replies[1].flag(),
        !replies[0].value().absent(),
        replies[2].text() is None,
    ensures
        engine.permits(raise_op(), replies),
        engine.after(raise_op(), replies) == (Engine { pending: false, ..engine }),
{
    let op = raise_op();
    assert(replies.take(replies.len() as int) == replies);
    assert(replies.take(3).skip(3).len() == 0);
    assert(replies.take(4).skip(3).len() == 1);
    assert(replies.take(5).skip(3).len() == 2);
    assert(replies.take(4).skip(3)[0] == replies[3]);
    reveal_with_fuel(Engine::state_at, 7);
    assert(engine.after(op, replies).held =~= engine.held);
}

/// Reading the pending exception is safe under the lock, empties the exception slot, and
/// leaves the host holding exactly what it held before: the exception and the buffer with
/// its text are both given back, whatever the engine answers.
pub proof fn law_raise_consumes(engine: Engine, replies: Seq<Reply>)
    requires
        engine.locked,
        completes(raise_op(), replies),
    ensures
        engine.permits(raise_op(), replies),
        engine.after(raise_op(), replies) == (Engine { pending: false, ..engine }),
{
    let n = raise_len(replies);
    assert(replies.take(replies.len() as int) == replies);
    lemma_raise_len(replies);
    if replies.len() > n {
        let part = replies.take(n as int);
        lemma_raise_len(part);
        assert(part[0] == replies[0]);
        assert(part[1] == replies[1]);
        if n >= 3 {
            assert(part[2] == replies[2]);
        }
        assert(raise_op()(part) is Call);
    }
    lemma_raise_path(engine, replies);
}

/// An abort by the interrupt mechanism surfaces as `Interrupted`, whatever the engine left
/// in the exception slot, and the reference to that is given up first.
pub proof fn law_interrupt_surfaces(log: Seq<Reply>)
    requires
        log.len() >= 2,
        log[1].flag(),
    ensures
        log.len() == 2 ==> raise_step(log) == Step::<Error>::Call(Call::FreeValue(log[0].value())),
        log.len() > 2 ==> raise_step(log) == Step::Done(Error::Interrupted),
{
}

/// Once [`raise_step`] is done, further replies change nothing.
pub proof fn lemma_raise_stable<'a>(log: Seq<Reply>, j: nat)
    requires
        j <= log.len(),
        raise_step::<'a>(log.take(j as int)) is Done,
    ensures
        raise_step::<'a>(log) == raise_step::<'a>(log.take(j as int)),
        raise_len(log) == raise_len(log.take(j as int)),
        raise_len(log) <= j,
{
    let part = log.take(j as int);
    lemma_raise_len(part);
    if j >= 3 {
        assert(part.skip(3).len() == j - 3);
        assert(log.skip(3).len() == log.len() - 3);
        if j >= 4 {
            assert(part.skip(3)[0] == log.skip(3)[0]);
        }
    }
}

/// An operation that reads the pending exception with its calls number `k` to `k + n` is
/// safe while it does, and has by then emptied the exception slot and left the host
/// holding what it held `k` calls in.
pub proof fn lemma_raise_within<T>(
    engine: Engine,
    op: spec_fn(Seq<Reply>) -> Step<T>,
    replies: Seq<Reply>,
    k: nat,
    n: nat,
)
    requires
        k + n <= replies.len(),
        completes(raise_op(), replies.skip(k as int).take(n as int)),
        follows(op, raise_op(), replies, k),
        engine.state_at(op, replies, k).locked,
    ensures
        forall|j: nat|
            j < n ==> (#[trigger] op(replies.take((k + j) as int)) matches Step::Call(call)
                && engine.state_at(op, replies, k + j).allows(call)),
        engine.state_at(op, replies, k + n) == (Engine {
            pending: false,
            ..engine.state_at(op, replies, k)
        }),
{
    let part = raise_op();
    let rest = replies.skip(k as int);
    let read = rest.take(n as int);
    let begun = engine.state_at(op, replies, k);
    law_raise_consumes(begun, read);
    assert forall|j: nat| j < n implies #[trigger] part(rest.take(j as int)) is Call by {
        assert(read.take(j as int) == rest.take(j as int));
    }
    assert forall|j: nat| j < n implies (#[trigger] op(replies.take((k + j) as int)) matches Step::Call(
        call,
    ) && engine.state_at(op, replies, k + j).allows(call)) by {
        assert forall|i: nat| i < j implies #[trigger] part(rest.take(i as int)) is Call by {}
        lemma_follows(engine, op, part, replies, k, j);
        lemma_state_at_prefix(begun, part, rest, n, j);
        assert(read.take(j as int) == rest.take(j as int));
        assert(part(rest.take(j as int)) is Call);
        assert(part(read.take(j as int)) is Call);
    }
    lemma_follows(engine, op, part, replies, k, n);
    lemma_state_at_prefix(begun, part, rest, n, n);
    assert(read.len() == n);
}

/// An operation that, from its call number `k` on, does nothing but read the pending
/// exception, is safe from there on and ends with the exception slot empty and the host
/// holding what it held `k` calls in.
pub proof fn lemma_ends_in_raise<T>(
    engine: Engine,
    op: spec_fn(Seq<Reply>) -> Step<T>,
    replies: Seq<Reply>,
    k: nat,
)
    requires
        completes(op, replies),
        k <= replies.len(),
        engine.state_at(op, replies, k).locked,
        follows(op, raise_op(), replies, k),
        forall|j: nat|
            k + j <= replies.len() ==> (#[trigger] raise_step(
                replies.skip(k as int).take(j as int),
            ) is Done ==> op(replies.take((k + j) as int)) is Done),
    ensures
        forall|m: nat|
            k <= m <= replies.len() ==> (#[trigger] op(replies.take(m as int)) matches Step::Call(
                call,
            ) ==> engine.state_at(op, replies, m).allows(call)),
        engine.after(op, replies) == (Engine { pending: false, ..engine.state_at(op, replies, k) }),
{
    let part = raise_op();
    let rest = replies.skip(k as int);
    let n = (replies.len() - k) as nat;
    assert(rest.take(n as int) == rest);
    assert(replies.take(replies.len() as int) == replies);
    assert(part(rest) is Done) by {
        assert(part(rest.take(n as int)) is Call ==> op(replies.take((k + n) as int)) is Call);
    }
    assert forall|j: int| 0 <= j < rest.len() implies #[trigger] part(rest.take(j)) is Call by {
        let i = j as nat;
        assert(op(replies.take((k + i) as int)) is Call);
        assert(raise_step(replies.skip(k as int).take(i as int)) is Done ==> op(
            replies.take((k + i) as int),
        ) is Done);
    }
    lemma_raise_within(engine, op, replies, k, n);
    assert forall|m: nat| k <= m <= replies.len() implies (#[trigger] op(
        replies.take(m as int),
    ) matches Step::Call(call) ==> engine.state_at(op, replies, m).allows(call)) by {
        let j = (m - k) as nat;
        if j < n {
            assert(op(replies.take((k + j) as int)) is Call);
        }
    }
}

/// Whether `op`, once the first `k` replies are as in `replies`, does nothing but read the
/// pending exception: it makes the calls of [`raise_step`] on the replies that follow, and
/// is done when that is done.
pub open spec fn raises_from<T>(op: spec_fn(Seq<Reply>) -> Step<T>, replies: Seq<Reply>, k: nat) -> bool {
    forall|log: Seq<Reply>|
        log.len() >= k && log.take(k as int) == replies.take(k as int) ==> match raise_step(
            log.skip(k as int),
        ) {
            Step::Call(call) => #[trigger] op(log) == Step::<T>::Call(call),
            Step::Done(_) => op(log) is Done,
        }
}

/// An operation that reads the pending exception after its first `k` calls is safe from
/// there on, and ends with the exception slot empty and the host holding what it held `k`
/// calls in.
pub proof fn lemma_raises_from<T>(
    engine: Engine,
    op: spec_fn(Seq<Reply>) -> Step<T>,
    replies: Seq<Reply>,
    k: nat,
)
    requires
        completes(op, replies),
        k <= replies.len(),
        engine.state_at(op, replies, k).locked,
        raises_from(op, replies, k),
    ensures
        forall|m: nat|
            k <= m <= replies.len() ==> (#[trigger] op(replies.take(m as int)) matches Step::Call(
                call,
            ) ==> engine.state_at(op, replies, m).allows(call)),
        engine.after(op, replies) == (Engine { pending: false, ..engine.state_at(op, replies, k) }),
{
    assert forall|j: nat| k + j <= replies.len() implies match #[trigger] raise_step(
        replies.skip(k as int).take(j as int),
    ) {
        Step::Call(call) => op(replies.take((k + j) as int)) == Step::<T>::Call(call),
        Step::Done(_) => op(replies.take((k + j) as int)) is Done,
    } by {
        let log = replies.take((k + j) as int);
        assert(log.take(k as int) == replies.take(k as int));
        assert(log.skip(k as int) == replies.skip(k as int).take(j as int));
        assert(op(log) == op(log));
    }
    assert(follows(op, raise_op(), replies, k));
    lemma_ends_in_raise(engine, op, replies, k);
}

} // verus!
