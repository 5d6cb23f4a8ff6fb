//! Execution contexts.
use vstd::prelude::*;
use vstd::multiset::Multiset;
use crate::engine::{Call, JSValue, Reply, Step};
use crate::error::{lemma_raises_from, raise, raise_step, raises_from, Error};
use crate::model::{completes, Engine};
use crate::runtime::{Instance, Runtime};
use crate::value::{handle_refs, Value};

verus! {

/// One global environment inside an engine instance.
///
/// A context is an owner of its instance: the instance lives at least as long as the
/// context. Contexts of one instance end independently of each other.
#[derive(Debug, PartialEq, Eq, Structural)]
pub struct Context {
    id: u64,
    runtime: Runtime,
}

/// A context in use, with the instance lock held: the origin of every handle made while it
/// is entered. No handle outlives the borrow of the [`Context`] it came from.
#[derive(Clone, Copy, Debug, PartialEq, Eq, Structural)]
pub struct Ctx<'js> {
    context: &'js Context,
}

impl Context {
    pub closed spec fn spec_id(&self) -> u64 {
        self.id
    }

    pub closed spec fn spec_runtime(&self) -> Runtime {
        self.runtime
    }

    /// The record of the context at the address `id`, which the engine made for the
    /// instance that `runtime` owns. The context takes the owner over.
    pub fn new(runtime: Runtime, id: u64) -> (r: Context)
        ensures
            r.id() == id,
            r.spec_runtime() == runtime,
    {
        Context { id, runtime }
    }

    /// The record of the context at the address `id`, with an owner of its own entered in
    /// the record of the instance. `None`, and the record unchanged, where
    /// [`Runtime::clone`] gives `None`.
    pub fn full(runtime: &Runtime, instance: &mut Instance, id: u64) -> (r: Option<Context>)
        ensures
            final(instance)@ == old(instance)@.retained(runtime.id()),
            r is Some <==> old(instance)@.grants(runtime.id()),
            r matches Some(context) ==> context.id() == id && context.spec_runtime().id()
                == runtime.id(),
    {
        match runtime.clone(instance) {
            Some(owner) => Some(Context { id, runtime: owner }),
            None => None,
        }
    }

    /// The address of the context.
    #[verifier::when_used_as_spec(spec_id)]
    pub fn id(&self) -> (r: u64)
        ensures
            r == self.spec_id(),
    {
        self.id
    }

    /// The owner through which the context keeps its instance alive.
    pub fn runtime(&self) -> (r: &Runtime)
        ensures
            *r == self.spec_runtime(),
    {
        &self.runtime
    }

    /// The context in use. To be called with the instance lock held.
    pub fn enter<'js>(&'js self) -> (r: Ctx<'js>)
        ensures
            r.context() == self,
            r.id() == self.id(),
    {
        Ctx { context: self }
    }

    /// Ends the context, and with it one owner of the instance. Returns whether it was the
    /// last: if so, the engine instance is to be torn down now.
    pub fn drop(self, instance: &mut Instance) -> (last: bool)
        ensures
            final(instance)@ == old(instance)@.released(self.spec_runtime().id()),
            last == (old(instance)@.id == self.spec_runtime().id() && old(instance)@.owners == 1),
    {
        self.runtime.drop(instance)
    }
}

impl<'js> Ctx<'js> {
    pub closed spec fn spec_context(&self) -> &'js Context {
        self.context
    }

    pub open spec fn spec_id(&self) -> u64 {
        self.spec_context().id()
    }

    /// The context that is in use.
    #[verifier::when_used_as_spec(spec_context)]
    pub fn context(&self) -> (r: &'js Context)
        ensures
            r == self.spec_context(),
    {
        self.context
    }

    /// The address of the context.
    #[verifier::when_used_as_spec(spec_id)]
    pub fn id(&self) -> (r: u64)
        ensures
            r == self.spec_id(),
    {
        self.context.id
    }

    /// What [`Ctx::eval`] answers to a log of replies.
    ///
    /// The script is evaluated. If the engine answers with the failure sentinel, the pending
    /// exception is read, which empties the slot, and becomes the error.
    pub open spec fn eval_step<'a>(self, source: &'a str, log: Seq<Reply>) -> Step<
        'a,
        Result<Value<'js>, Error>,
    > {
        if log.len() == 0 {
            Step::Call(Call::Eval(source))
        } else if log[0].value() != JSValue::Exception {
            Step::Done(Ok(Value::from_js_value(self, log[0].value())))
        } else {
            match raise_step(log.skip(1)) {
                Step::Call(next) => Step::Call(next),
                Step::Done(error) => Step::Done(Err(error)),
            }
        }
    }

    /// Evaluate a script in the global scope of the context.
    pub fn eval<'a>(self, source: &'a str, log: &[Reply]) -> (r: Step<'a, Result<Value<'js>, Error>>)
        ensures
            r == self.eval_step(source, log@),
            r matches Step::Done(Ok(value)) ==> value.ctx() == self && value.as_js_value()
                == log@[0].value(),
    {
        if log.len() == 0 {
            return Step::Call(Call::Eval(source));
        }
        let value = log[0].value();
        if !value.is_exception() {
            return Step::Done(Ok(Value::from_js_value(self, value)));
        }
        match raise(log, 1) {
            Step::Call(next) => Step::Call(next),
            Step::Done(error) => Step::Done(Err(error)),
        }
    }

    /// [`Ctx::eval`] as an operation.
    pub open spec fn eval_op<'a>(self, source: &'a str) -> spec_fn(Seq<Reply>) -> Step<
        'a,
        Result<Value<'js>, Error>,
    > {
        |log: Seq<Reply>| self.eval_step(source, log)
    }
}

/// An evaluation is safe under the lock and never leaves an exception pending: where the
/// script threw, the exception has been taken out of the engine before the evaluation is
/// done, so that no later call finds it. What the host holds changes by exactly the
/// reference that the returned handle owns.
pub proof fn law_eval_leaves_nothing_pending<'a, 'js>(
    engine: Engine,
    ctx: Ctx<'js>,
    source: &'a str,
    replies: Seq<Reply>,
)
    requires
        engine.locked,
        !engine.pending,
        completes(ctx.eval_op(source), replies),
    ensures
        engine.permits(ctx.eval_op(source), replies),
        !engine.after(ctx.eval_op(source), replies).pending,
        engine.after(ctx.eval_op(source), replies) == (Engine {
            held: engine.held.add(
                match ctx.eval_step(source, replies) {
                    Step::Done(Ok(value)) => handle_refs(value),
                    _ => Multiset::empty(),
                },
            ),
            ..engine
        }),
{
    broadcast use Value::lemma_parts;

    let op = ctx.eval_op(source);
    reveal_with_fuel(Engine::state_at, 2);
    assert(replies.take(replies.len() as int) == replies);
    assert(op(replies.take(0)) is Call);
    if replies[0].value() != JSValue::Exception {
        assert(op(replies.take(1)) is Done);
        assert(engine.after(op, replies).held =~= engine.held.add(
            crate::model::value_refs(replies[0].value()),
        ));
    } else {
        assert(raises_from(op, replies, 1)) by {
            assert forall|log: Seq<Reply>|
                log.len() >= 1 && log.take(1) == replies.take(1) implies match raise_step(
                log.skip(1),
            ) {
                Step::Call(call) => #[trigger] op(log) == Step::<Result<Value, Error>>::Call(call),
                Step::Done(_) => op(log) is Done,
            } by {
                assert(log[0] == log.take(1)[0]);
            }
        }
        lemma_raises_from(engine, op, replies, 1);
        assert(engine.held.add(Multiset::empty()) =~= engine.held);
    }
}

} // verus!
