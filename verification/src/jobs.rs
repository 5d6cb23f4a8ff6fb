//! The engine's job queue.
//!
//! Promise reactions and the like pile up in a queue inside the engine. The host drains it:
//! it has the engine run one job after the other, each under the instance lock, until the
//! queue is empty or a job fails.
use vstd::prelude::*;
use crate::engine::{Call, Reply, Step};
use crate::error::{
    lemma_raise_len, lemma_raise_stable, lemma_raise_within, raise, raise_len, raise_op,
    raise_step, Error,
};
use crate::model::{completes, follows, lemma_ends_in_part, Engine};
use crate::runtime::Runtime;

verus! {

/// The error that a failed job is reported with: what the job threw, marked as thrown by a
/// job. An interruption and an unknown failure stay what they are.
pub open spec fn job_error(error: Error) -> Error {
    match error {
        Error::Exception(text) => Error::Job(text),
        other => other,
    }
}

/// What [`Runtime::execute_pending_job`] answers to a log of replies.
///
/// The lock is taken and the engine asked to run one job. Zero means that the queue was
/// empty, a positive number that a job ran. A negative number means that the job failed:
/// the pending exception is read, which empties the slot, and becomes the error. On every
/// path the lock is released before the operation completes.
pub open spec fn job_step<'a>(log: Seq<Reply>) -> Step<'a, Result<bool, Error>> {
    if log.len() == 0 {
        Step::Call(Call::Lock)
    } else if log.len() == 1 {
        Step::Call(Call::ExecutePendingJob)
    } else if log[1].number() >= 0 {
        if log.len() == 2 {
            Step::Call(Call::Unlock)
        } else {
            Step::Done(Ok(log[1].number() > 0))
        }
    } else {
        match raise_step(log.skip(2)) {
            Step::Call(next) => Step::Call(next),
            Step::Done(error) => {
                if log.len() == 2 + raise_len(log.skip(2)) {
                    Step::Call(Call::Unlock)
                } else {
                    Step::Done(Err(job_error(error)))
                }
            },
        }
    }
}

/// What [`Runtime::run_pending_jobs`] answers to a log of replies: what
/// [`Runtime::execute_pending_job`] answers, again and again for as long as a job ran, and
/// the first answer that is not "a job ran" as the last.
pub open spec fn drain_step<'a>(log: Seq<Reply>) -> Step<'a, Result<(), Error>>
    decreases log.len(),
{
    match job_step(log) {
        Step::Call(next) => Step::Call(next),
        Step::Done(Ok(ran)) => {
            if ran {
                drain_step(log.skip(3))
            } else {
                Step::Done(Ok(()))
            }
        },
        Step::Done(Err(error)) => Step::Done(Err(error)),
    }
}

/// The number of replies that reading the pending exception has used, reading the replies
/// from position `at` on.
fn raise_used(log: &[Reply], at: usize) -> (r: usize)
    requires
        at <= log@.len(),
        raise_step(log@.skip(at as int)) is Done,
    ensures
        r == raise_len(log@.skip(at as int)),
        at + r <= log@.len(),
{
    proof {
        lemma_raise_len(log@.skip(at as int));
        assert(log@.skip(at as int).len() == log@.len() - at);
    }
    let len = log.len();
    assert(at + 2 <= len);
    if log[at + 1].flag() {
        3
    } else if log[at].value().is_absent() {
        2
    } else if log[at + 2].text().is_some() {
        5
    } else {
        6
    }
}

fn job<'a>(log: &[Reply], at: usize) -> (r: Step<'a, Result<bool, Error>>)
    requires
        at <= log@.len(),
    ensures
        r == job_step(log@.skip(at as int)),
{
    let n = log.len() - at;
    if n == 0 {
        return Step::Call(Call::Lock);
    }
    if n == 1 {
        return Step::Call(Call::ExecutePendingJob);
    }
    let status = log[at + 1].number();
    if status >= 0 {
        if n == 2 {
            return Step::Call(Call::Unlock);
        }
        return Step::Done(Ok(status > 0));
    }
    assert(log@.skip(at as int).skip(2) == log@.skip(at + 2));
    match raise(log, at + 2) {
        Step::Call(next) => Step::Call(next),
        Step::Done(error) => {
            let used = raise_used(log, at + 2);
            if n == 2 + used {
                Step::Call(Call::Unlock)
            } else {
                Step::Done(
                    Err(
                        match error {
                            Error::Exception(text) => Error::Job(text),
                            other => other,
                        },
                    ),
                )
            }
        },
    }
}

impl Runtime {
    /// Run one job of the engine's queue, if there is one. `Ok(true)` if a job ran,
    /// `Ok(false)` if the queue was empty.
    pub fn execute_pending_job<'a>(&self, log: &[Reply]) -> (r: Step<'a, Result<bool, Error>>)
        ensures
            r == job_step(log@),
    {
        assert(log@.skip(0) == log@);
        job(log, 0)
    }

    /// Run the jobs of the engine's queue until it is empty or a job fails. The failure of a
    /// job ends the draining and is the result.
    pub fn run_pending_jobs<'a>(&self, log: &[Reply]) -> (r: Step<'a, Result<(), Error>>)
        ensures
            r == drain_step(log@),
    {
        let mut at: usize = 0;
        let len = log.len();
        assert(log@.skip(0) == log@);
        loop
            invariant
                at <= log@.len() == len,
                drain_step::<'a>(log@) == drain_step::<'a>(log@.skip(at as int)),
            decreases len - at,
        {
            match job(log, at) {
                Step::Call(next) => {
                    return Step::Call(next);
                },
                Step::Done(Ok(ran)) => {
                    if !ran {
                        return Step::Done(Ok(()));
                    }
                    assert(log@.skip(at as int).len() >= 3);
                    assert(log@.skip(at as int).skip(3) == log@.skip(at + 3));
                    at = at + 3;
                },
                Step::Done(Err(error)) => {
                    return Step::Done(Err(error));
                },
            }
        }
    }
}

/// [`Runtime::execute_pending_job`] as an operation.
pub open spec fn job_op<'a>() -> spec_fn(Seq<Reply>) -> Step<'a, Result<bool, Error>> {
    |log: Seq<Reply>| job_step(log)
}

/// [`Runtime::run_pending_jobs`] as an operation.
pub open spec fn drain_op<'a>() -> spec_fn(Seq<Reply>) -> Step<'a, Result<(), Error>> {
    |log: Seq<Reply>| drain_step(log)
}

proof fn lemma_job_ran(engine: Engine, replies: Seq<Reply>)
    requires
        !engine.locked,
        !engine.pending,
        completes(job_op(), replies),
        replies.len() >= 2,
        replies[1].number() >= 0,
    ensures
        replies.len() == 3,
        engine.permits(job_op(), replies),
        engine.after(job_op(), replies) == engine,
{
    let op = job_op();
    reveal_with_fuel(Engine::state_at, 4);
    assert(replies.take(replies.len() as int) == replies);
    assert forall|n: int| 0 <= n <= 3 && n < replies.len() implies #[trigger] op(
        replies.take(n),
    ) is Call by {}
    assert(replies.len() <= 3) by {
        if replies.len() > 3 {
            assert(op(replies.take(3)) is Call);
        }
    }
}

proof fn lemma_job_failed(engine: Engine, replies: Seq<Reply>)
    requires
        !engine.locked,
        !engine.pending,
        completes(job_op(), replies),
        replies.len() >= 2,
        replies[1].number() < 0,
    ensures
        engine.permits(job_op(), replies),
        engine.after(job_op(), replies) == engine,
{
    let op = job_op();
    let rest = replies.skip(2);
    let n = raise_len(rest);
    reveal_with_fuel(Engine::state_at, 3);
    assert(replies.take(replies.len() as int) == replies);
    assert(rest.len() == replies.len() - 2);
    lemma_raise_len(rest);
    assert(replies.len() >= 3 + n);
    let read = rest.take(n as int);
    assert(raise_step(read) is Done && raise_len(read) == n) by {
        lemma_raise_len(read);
        if n >= 3 {
            assert(read[2] == rest[2]);
        }
        assert(read[0] == rest[0]);
        assert(read[1] == rest[1]);
    }
    assert(replies.len() == 3 + n) by {
        if replies.len() > 3 + n {
            let log = replies.take((3 + n) as int);
            assert(log.skip(2) == rest.take((n + 1) as int));
            assert(rest.take((n + 1) as int).take(n as int) == read);
            lemma_raise_stable(rest.take((n + 1) as int), n);
            assert(op(log) is Done);
        }
    }
    assert forall|j: int| 0 <= j < read.len() implies #[trigger] raise_op()(read.take(j)) is Call by {
        let log = replies.take(2 + j);
        assert(op(log) is Call);
        assert(log.skip(2) == rest.take(j));
        assert(read.take(j) == rest.take(j));
        if raise_step(rest.take(j)) is Done {
            lemma_raise_stable(rest, j as nat);
        }
    }
    assert(follows(op, raise_op(), replies, 2)) by {
        assert forall|j: nat| 2 + j <= replies.len() implies (#[trigger] raise_op()(
            replies.skip(2).take(j as int),
        ) matches Step::Call(call) ==> op(replies.take((2 + j) as int)) == Step::<
            Result<bool, Error>,
        >::Call(call)) by {
            let log = replies.take((2 + j) as int);
            assert(log.skip(2) == rest.take(j as int));
        }
    }
    assert(op(replies.take(0)) is Call);
    assert(op(replies.take(1)) is Call);
    lemma_raise_within(engine, op, replies, 2, n);
    let log = replies.take((2 + n) as int);
    assert(log.skip(2) == read);
    assert(op(log) == Step::<Result<bool, Error>>::Call(Call::Unlock));
    assert forall|m: nat| m <= replies.len() implies (#[trigger] op(
        replies.take(m as int),
    ) matches Step::Call(call) ==> engine.state_at(op, replies, m).allows(call)) by {
        if 2 <= m < 2 + n {
            let j = (m - 2) as nat;
            assert(op(replies.take((2 + j) as int)) is Call);
        }
    }
}

/// Running one job is safe when the lock is free, and leaves the engine as it was: the
/// lock is released on every path, and where the job failed its exception has been taken
/// out of the engine.
pub proof fn law_job_balanced(engine: Engine, replies: Seq<Reply>)
    requires
        !engine.locked,
        !engine.pending,
        completes(job_op(), replies),
    ensures
        engine.permits(job_op(), replies),
        engine.after(job_op(), replies) == engine,
{
    let op = job_op();
    assert(replies.take(replies.len() as int) == replies);
    assert(op(replies.take(0)) is Call);
    assert(replies.len() >= 2) by {
        if replies.len() == 1 {
            assert(op(replies.take(1)) is Call);
        }
    }
    if replies[1].number() >= 0 {
        lemma_job_ran(engine, replies);
    } else {
        lemma_job_failed(engine, replies);
    }
}

/// Draining, where the first job ran: the rest of the replies are a draining of their own.
proof fn lemma_drain_rest(replies: Seq<Reply>)
    requires
        completes(drain_op(), replies),
        replies.len() >= 2,
        replies[1].number() > 0,
    ensures
        replies.len() >= 3,
        completes(drain_op(), replies.skip(3)),
        follows(drain_op(), drain_op(), replies, 3),
        drain_op()(replies.take(0)) == Step::<Result<(), Error>>::Call(Call::Lock),
        drain_op()(replies.take(1)) == Step::<Result<(), Error>>::Call(Call::ExecutePendingJob),
        drain_op()(replies.take(2)) == Step::<Result<(), Error>>::Call(Call::Unlock),
{
    let op = drain_op();
    let rest = replies.skip(3);
    assert(replies.take(replies.len() as int) == replies);
    assert(replies.len() >= 3) by {
        if replies.len() == 2 {
            assert(op(replies.take(2)) is Call);
        }
    }
    assert(replies.take(2)[1] == replies[1]);
    assert forall|j: nat| 3 + j <= replies.len() implies op(replies.take((3 + j) as int)) == op(
        #[trigger] rest.take(j as int),
    ) by {
        let log = replies.take((3 + j) as int);
        assert(log.skip(3) == rest.take(j as int));
        assert(log[1] == replies[1]);
    }
    assert(rest.take(rest.len() as int) == rest);
    assert forall|n: int| 0 <= n < rest.len() implies #[trigger] op(rest.take(n)) is Call by {
        let j = n as nat;
        assert(op(replies.take((3 + j) as int)) == op(rest.take(j as int)));
        assert(op(replies.take(3 + n)) is Call);
    }
    assert(op(rest) is Done) by {
        let j = rest.len();
        assert(op(replies.take((3 + j) as int)) == op(rest.take(j as int)));
    }
}

/// Draining, where the first job did not run: the draining is that one job.
proof fn lemma_drain_last(replies: Seq<Reply>)
    requires
        completes(drain_op(), replies),
        replies.len() >= 2,
        replies[1].number() <= 0,
    ensures
        completes(job_op(), replies),
        follows(drain_op(), job_op(), replies, 0),
{
    let op = drain_op();
    let one = job_op();
    assert(replies.take(replies.len() as int) == replies);
    assert(replies.skip(0) == replies);
    assert forall|j: nat| j <= replies.len() implies match #[trigger] one(replies.take(j as int)) {
        Step::Call(call) => op(replies.take(j as int)) == Step::<Result<(), Error>>::Call(call),
        Step::Done(_) => op(replies.take(j as int)) is Done,
    } by {
        let log = replies.take(j as int);
        if j >= 2 {
            assert(log[1] == replies[1]);
        }
    }
    assert forall|n: int| 0 <= n < replies.len() implies #[trigger] one(replies.take(n)) is Call by {
        assert(op(replies.take(n)) is Call);
        let j = n as nat;
        assert(one(replies.take(j as int)) is Done ==> op(replies.take(j as int)) is Done);
    }
    assert(one(replies) is Done) by {
        let j = replies.len();
        assert(one(replies.take(j as int)) is Call ==> op(replies.take(j as int)) is Call);
    }
}

/// An operation that begins by running one job that does not fail is, three calls in, safe
/// so far and back in the state it began in.
proof fn lemma_job_prefix<T>(engine: Engine, op: spec_fn(Seq<Reply>) -> Step<T>, replies: Seq<Reply>)
    requires
        !engine.locked,
        !engine.pending,
        replies.len() >= 3,
        replies[1].number() >= 0,
        op(replies.take(0)) == Step::<T>::Call(Call::Lock),
        op(replies.take(1)) == Step::<T>::Call(Call::ExecutePendingJob),
        op(replies.take(2)) == Step::<T>::Call(Call::Unlock),
    ensures
        engine.state_at(op, replies, 3) == engine,
        forall|m: nat|
            m < 3 ==> (#[trigger] op(replies.take(m as int)) matches Step::Call(call)
                ==> engine.state_at(op, replies, m).allows(call)),
{
    reveal_with_fuel(Engine::state_at, 4);
}

/// Draining the queue is safe when the lock is free, and leaves the engine as it was,
/// however many jobs ran and whether or not the last of them failed: the lock is free
/// again, no exception is pending, and the host holds what it held before.
pub proof fn law_drain_balanced(engine: Engine, replies: Seq<Reply>)
    requires
        !engine.locked,
        !engine.pending,
        completes(drain_op(), replies),
    ensures
        engine.permits(drain_op(), replies),
        engine.after(drain_op(), replies) == engine,
    decreases replies.len(),
{
    lemma_drain_shape(replies);
    if replies[1].number() > 0 {
        lemma_drain_rest(replies);
        law_drain_balanced(engine, replies.skip(3));
        lemma_job_prefix(engine, drain_op(), replies);
        lemma_ends_in_part(engine, drain_op(), drain_op(), replies, 3);
    } else {
        lemma_drain_last(replies);
        law_job_balanced(engine, replies);
        assert(replies.skip(0) == replies);
        lemma_ends_in_part(engine, drain_op(), job_op(), replies, 0);
    }
}

/// A draining takes at least the replies to one lock and one job.
proof fn lemma_drain_shape(replies: Seq<Reply>)
    requires
        completes(drain_op(), replies),
    ensures
        replies.len() >= 2,
{
    let op = drain_op();
    assert(replies.take(replies.len() as int) == replies);
    assert(op(replies.take(0)) is Call);
    if replies.len() == 1 {
        assert(op(replies.take(1)) is Call);
    }
}

} // verus!
