//! Handles to engine values.
use vstd::prelude::*;
use vstd::multiset::Multiset;
use crate::context::Ctx;
use crate::engine::{Call, JSValue, Reply, Step};
use crate::error::{discard, discard_step, Error};
use crate::model::{
    clones, completes, drops, finds_handles, value_refs, Engine, HandleOp, Resource,
};

verus! {

/// One engine value, owned: the handle holds one reference to what the value refers to.
///
/// A handle is valid in the context that made it and nowhere else. It is not `Clone`:
/// [`Value::clone`] asks the engine for the second reference, [`Value::drop`] gives the
/// handle's reference back.
#[derive(Debug, PartialEq, Eq)]
pub struct Value<'js> {
    value: JSValue,
    ctx: Ctx<'js>,
}

/// A value known to be an engine string.
#[derive(Debug, PartialEq, Eq)]
pub struct JsString<'js>(pub Value<'js>);

impl<'js> Value<'js> {
    pub closed spec fn spec_from_js_value(ctx: Ctx<'js>, value: JSValue) -> Value<'js> {
        Value { value, ctx }
    }

    pub closed spec fn spec_as_js_value(&self) -> JSValue {
        self.value
    }

    pub closed spec fn spec_ctx(&self) -> Ctx<'js> {
        self.ctx
    }

    /// A handle is its raw value and its context, no more.
    pub broadcast proof fn lemma_parts(ctx: Ctx<'js>, value: JSValue)
        ensures
            (#[trigger] Value::spec_from_js_value(ctx, value)).spec_as_js_value() == value,
            Value::spec_from_js_value(ctx, value).spec_ctx() == ctx,
    {
    }

    /// Wraps a raw value. The handle takes over one reference: the caller vouches that it
    /// owns one, got from the engine in this context, and gives it up to the handle.
    #[verifier::when_used_as_spec(spec_from_js_value)]
    pub fn from_js_value(ctx: Ctx<'js>, value: JSValue) -> (r: Value<'js>)
        ensures
            r == Value::spec_from_js_value(ctx, value),
            r.as_js_value() == value,
            r.ctx() == ctx,
    {
        Value { value, ctx }
    }

    /// The raw value. The handle keeps its reference.
    #[verifier::when_used_as_spec(spec_as_js_value)]
    pub fn as_js_value(&self) -> (r: JSValue)
        ensures
            r == self.spec_as_js_value(),
    {
        self.value
    }

    /// The context the handle belongs to.
    #[verifier::when_used_as_spec(spec_ctx)]
    pub fn ctx(&self) -> (r: Ctx<'js>)
        ensures
            r == self.spec_ctx(),
    {
        self.ctx
    }

    pub fn new_int(ctx: Ctx<'js>, value: i32) -> (r: Value<'js>)
        ensures
            r == Value::from_js_value(ctx, JSValue::Int(value)),
            r.as_js_value() == JSValue::Int(value),
            r.ctx() == ctx,
    {
        Value { value: JSValue::Int(value), ctx }
    }

    pub fn new_bool(ctx: Ctx<'js>, value: bool) -> (r: Value<'js>)
        ensures
            r == Value::from_js_value(ctx, JSValue::Bool(value)),
            r.as_js_value() == JSValue::Bool(value),
            r.ctx() == ctx,
    {
        Value { value: JSValue::Bool(value), ctx }
    }

    /// A number, given by the bits of its 64-bit floating-point form.
    pub fn new_float(ctx: Ctx<'js>, bits: u64) -> (r: Value<'js>)
        ensures
            r == Value::from_js_value(ctx, JSValue::Float64(bits)),
            r.as_js_value() == JSValue::Float64(bits),
            r.ctx() == ctx,
    {
        Value { value: JSValue::Float64(bits), ctx }
    }

    pub fn new_null(ctx: Ctx<'js>) -> (r: Value<'js>)
        ensures
            r == Value::from_js_value(ctx, JSValue::Null),
            r.as_js_value() == JSValue::Null,
            r.ctx() == ctx,
    {
        Value { value: JSValue::Null, ctx }
    }

    pub fn new_undefined(ctx: Ctx<'js>) -> (r: Value<'js>)
        ensures
            r == Value::from_js_value(ctx, JSValue::Undefined),
            r.as_js_value() == JSValue::Undefined,
            r.ctx() == ctx,
    {
        Value { value: JSValue::Undefined, ctx }
    }

    /// The integer, if the value is one.
    pub open spec fn spec_as_int(&self) -> Option<i32> {
        match self.as_js_value() {
            JSValue::Int(n) => Some(n),
            _ => None,
        }
    }

    /// The boolean, if the value is one.
    pub open spec fn spec_as_bool(&self) -> Option<bool> {
        match self.as_js_value() {
            JSValue::Bool(b) => Some(b),
            _ => None,
        }
    }

    /// The bits of the number, if the value is a floating-point number.
    pub open spec fn spec_as_float(&self) -> Option<u64> {
        match self.as_js_value() {
            JSValue::Float64(bits) => Some(bits),
            _ => None,
        }
    }

    pub open spec fn spec_is_null(&self) -> bool {
        self.as_js_value() == JSValue::Null
    }

    pub open spec fn spec_is_undefined(&self) -> bool {
        self.as_js_value() == JSValue::Undefined
    }

    /// The integer, if the value is one.
    #[verifier::when_used_as_spec(spec_as_int)]
    pub fn as_int(&self) -> (r: Option<i32>)
        ensures
            r == self.spec_as_int(),
    {
        match self.value {
            JSValue::Int(n) => Some(n),
            _ => None,
        }
    }

    /// The boolean, if the value is one.
    #[verifier::when_used_as_spec(spec_as_bool)]
    pub fn as_bool(&self) -> (r: Option<bool>)
        ensures
            r == self.spec_as_bool(),
    {
        match self.value {
            JSValue::Bool(b) => Some(b),
            _ => None,
        }
    }

    /// The bits of the number, if the value is a floating-point number.
    #[verifier::when_used_as_spec(spec_as_float)]
    pub fn as_float(&self) -> (r: Option<u64>)
        ensures
            r == self.spec_as_float(),
    {
        match self.value {
            JSValue::Float64(bits) => Some(bits),
            _ => None,
        }
    }

    #[verifier::when_used_as_spec(spec_is_null)]
    pub fn is_null(&self) -> (r: bool)
        ensures
            r == self.spec_is_null(),
    {
        matches!(self.value, JSValue::Null)
    }

    #[verifier::when_used_as_spec(spec_is_undefined)]
    pub fn is_undefined(&self) -> (r: bool)
        ensures
            r == self.spec_is_undefined(),
    {
        matches!(self.value, JSValue::Undefined)
    }

    /// What [`Value::clone`] answers to a log of replies: one call for a second reference,
    /// then a second handle to the same value.
    pub open spec fn clone_step<'a>(&self, log: Seq<Reply>) -> Step<'a, Value<'js>> {
        if log.len() == 0 {
            Step::Call(Call::DupValue(self.as_js_value()))
        } else {
            Step::Done(Value::from_js_value(self.ctx(), self.as_js_value()))
        }
    }

    /// The operation that [`Value::drop`] begins: one call that gives the handle's reference
    /// back.
    pub open spec fn drop_step<'a>(&self, log: Seq<Reply>) -> Step<'a, ()> {
        if log.len() == 0 {
            Step::Call(Call::FreeValue(self.as_js_value()))
        } else {
            Step::Done(())
        }
    }

    /// A second handle to the same value, with a reference of its own.
    pub fn clone<'a>(&self, log: &[Reply]) -> (r: Step<'a, Value<'js>>)
        ensures
            r == self.clone_step(log@),
            r matches Step::Done(copy) ==> copy.ctx() == self.ctx() && copy.as_js_value()
                == self.as_js_value(),
    {
        if log.len() == 0 {
            Step::Call(Call::DupValue(self.value))
        } else {
            Step::Done(Value { value: self.value, ctx: self.ctx })
        }
    }

    /// Ends the handle. Returns the one call of the operation, which gives the handle's
    /// reference back and is to be made at once; its reply says nothing.
    pub fn drop<'a>(self) -> (r: Call<'a>)
        ensures
            Step::<()>::Call(r) == self.drop_step(Seq::empty()),
            r == Call::FreeValue(self.as_js_value()),
    {
        Call::FreeValue(self.value)
    }
}

/// What [`read_text`] answers to a log of replies.
///
/// The text of `value` is borrowed from the engine, copied, and the buffer handed back. If
/// the engine has no buffer to lend, the exception that this left behind is discarded and
/// the answer is `Unknown`.
pub open spec fn text_step<'a>(value: JSValue, log: Seq<Reply>) -> Step<'a, Result<String, Error>> {
    if log.len() == 0 {
        Step::Call(Call::ToCStringLen(value))
    } else {
        match log[0].text() {
            Some(buf) => {
                if log.len() == 1 {
                    Step::Call(Call::FreeCString(buf.ptr))
                } else {
                    Step::Done(Ok(buf.text))
                }
            },
            None => {
                match discard_step(log.skip(1)) {
                    Step::Call(call) => Step::Call(call),
                    Step::Done(_) => Step::Done(Err(Error::Unknown)),
                }
            },
        }
    }
}

/// The number of replies after which [`text_step`] is done, given the first of them.
pub open spec fn text_len(log: Seq<Reply>) -> nat {
    if log[0].text() is Some {
        2
    } else {
        3
    }
}

/// Copies the text of the string `value` out of the engine, reading the replies from
/// position `at` on.
pub fn read_text<'a>(value: JSValue, log: &[Reply], at: usize) -> (r: Step<'a, Result<String, Error>>)
    requires
        at <= log@.len(),
    ensures
        r == text_step(value, log@.skip(at as int)),
{
    if log.len() - at == 0 {
        return Step::Call(Call::ToCStringLen(value));
    }
    match log[at].text() {
        Some(buf) => {
            if log.len() - at == 1 {
                Step::Call(Call::FreeCString(buf.ptr))
            } else {
                Step::Done(Ok(buf.text))
            }
        },
        None => {
            assert(log@.skip(at as int).skip(1) == log@.skip(at + 1));
            match discard(log, at + 1) {
                Step::Call(call) => Step::Call(call),
                Step::Done(_) => Step::Done(Err(Error::Unknown)),
            }
        },
    }
}

/// The references a handle to `value` stands for.
pub open spec fn handle_refs(value: Value) -> Multiset<Resource> {
    value_refs(value.as_js_value())
}

impl<'js> JsString<'js> {
    /// What [`JsString::from_str`] answers to a log of replies: the handle to the new
    /// string, or, on the failure sentinel, `Unknown` once the exception that the failure
    /// left behind has been discarded.
    pub open spec fn from_str_step<'a>(ctx: Ctx<'js>, text: &'a str, log: Seq<Reply>) -> Step<
        'a,
        Result<JsString<'js>, Error>,
    > {
        if log.len() == 0 {
            Step::Call(Call::NewStringLen(text))
        } else if log[0].value() != JSValue::Exception {
            Step::Done(Ok(JsString(Value::from_js_value(ctx, log[0].value()))))
        } else {
            match discard_step(log.skip(1)) {
                Step::Call(next) => Step::Call(next),
                Step::Done(_) => Step::Done(Err(Error::Unknown)),
            }
        }
    }

    /// Create an engine string from a host string.
    pub fn from_str<'a>(ctx: Ctx<'js>, text: &'a str, log: &[Reply]) -> (r: Step<
        'a,
        Result<JsString<'js>, Error>,
    >)
        ensures
            r == JsString::from_str_step(ctx, text, log@),
            r matches Step::Done(Ok(string)) ==> string.0.ctx() == ctx && string.0.as_js_value()
                == log@[0].value(),
    {
        if log.len() == 0 {
            return Step::Call(Call::NewStringLen(text));
        }
        let value = log[0].value();
        if !value.is_exception() {
            return Step::Done(Ok(JsString(Value { value, ctx })));
        }
        match discard(log, 1) {
            Step::Call(next) => Step::Call(next),
            Step::Done(_) => Step::Done(Err(Error::Unknown)),
        }
    }

    /// Convert the engine string to a host string. The handle keeps its reference.
    pub fn to_string<'a>(&self, log: &[Reply]) -> (r: Step<'a, Result<String, Error>>)
        ensures
            r == text_step(self.0.as_js_value(), log@),
    {
        assert(log@.skip(0) == log@);
        read_text(self.0.value, log, 0)
    }
}

/// Copying the text of the string `value` out of the engine, as an operation.
pub open spec fn text_op<'a>(value: JSValue) -> spec_fn(Seq<Reply>) -> Step<'a, Result<String, Error>> {
    |log: Seq<Reply>| text_step(value, log)
}

/// [`JsString::from_str`] as an operation.
pub open spec fn from_str_op<'a, 'js>(ctx: Ctx<'js>, text: &'a str) -> spec_fn(Seq<Reply>) -> Step<
    'a,
    Result<JsString<'js>, Error>,
> {
    |log: Seq<Reply>| JsString::from_str_step(ctx, text, log)
}

/// Copying the text of a string out of the engine is safe under the lock while the string
/// is held, leaves no exception pending, and leaves the host holding exactly what it held
/// before: the buffer is handed back on every path.
pub proof fn law_text_balanced(engine: Engine, value: JSValue, replies: Seq<Reply>)
    requires
        engine.locked,
        !engine.pending,
        engine.holds_value(value),
        completes(text_op(value), replies),
    ensures
        engine.permits(text_op(value), replies),
        engine.after(text_op(value), replies) == engine,
{
    let op = text_op(value);
    reveal_with_fuel(Engine::state_at, 4);
    assert(replies.take(replies.len() as int) == replies);
    assert forall|n: int| 0 <= n <= 3 && n < replies.len() implies #[trigger] op(
        replies.take(n),
    ) is Call by {}
    assert(replies.len() <= 3) by {
        if replies.len() > 3 {
            assert(op(replies.take(3)) is Call);
            assert(replies.take(3).skip(1).len() == 2);
        }
    }
    assert(engine.after(op, replies).held =~= engine.held);
}

/// Making an engine string from a host string is safe under the lock, leaves no exception
/// pending, and changes what the host holds by exactly the reference that the returned
/// handle owns.
pub proof fn law_from_str_owned<'a, 'js>(engine: Engine, ctx: Ctx<'js>, text: &'a str, replies: Seq<Reply>)
    requires
        engine.locked,
        !engine.pending,
        completes(from_str_op(ctx, text), replies),
    ensures
        engine.permits(from_str_op(ctx, text), replies),
        engine.after(from_str_op(ctx, text), replies) == (Engine {
            held: engine.held.add(
                match JsString::from_str_step(ctx, text, replies) {
                    Step::Done(Ok(string)) => handle_refs(string.0),
                    _ => Multiset::empty(),
                },
            ),
            ..engine
        }),
{
    let op = from_str_op(ctx, text);
    reveal_with_fuel(Engine::state_at, 4);
    assert(replies.take(replies.len() as int) == replies);
    assert forall|n: int| 0 <= n <= 3 && n < replies.len() implies #[trigger] op(
        replies.take(n),
    ) is Call by {}
    assert(replies.len() <= 3) by {
        if replies.len() > 3 {
            assert(op(replies.take(3)) is Call);
            assert(replies.take(3).skip(1).len() == 2);
        }
    }
    assert(engine.after(op, replies).held =~= engine.held.add(
        match JsString::from_str_step(ctx, text, replies) {
            Step::Done(Ok(string)) => handle_refs(string.0),
            _ => Multiset::empty(),
        },
    ));
}

/// A primitive made into a value comes back out of it unchanged, and as nothing else.
pub proof fn law_primitive_round_trip(ctx: Ctx, n: i32, b: bool, bits: u64)
    ensures
        Value::from_js_value(ctx, JSValue::Int(n)).as_int() == Some(n),
        Value::from_js_value(ctx, JSValue::Int(n)).as_bool() is None,
        Value::from_js_value(ctx, JSValue::Int(n)).as_float() is None,
        Value::from_js_value(ctx, JSValue::Bool(b)).as_bool() == Some(b),
        Value::from_js_value(ctx, JSValue::Bool(b)).as_int() is None,
        Value::from_js_value(ctx, JSValue::Bool(b)).as_float() is None,
        Value::from_js_value(ctx, JSValue::Float64(bits)).as_float() == Some(bits),
        Value::from_js_value(ctx, JSValue::Float64(bits)).as_int() is None,
        Value::from_js_value(ctx, JSValue::Float64(bits)).as_bool() is None,
        Value::from_js_value(ctx, JSValue::Null).is_null(),
        Value::from_js_value(ctx, JSValue::Undefined).is_undefined(),
{
}

impl<'js> Value<'js> {
    /// [`Value::clone`] as an operation.
    pub open spec fn clone_op<'a>(&self) -> spec_fn(Seq<Reply>) -> Step<'a, Value<'js>> {
        |log: Seq<Reply>| self.clone_step(log)
    }

    /// The operation that [`Value::drop`] begins.
    pub open spec fn drop_op<'a>(&self) -> spec_fn(Seq<Reply>) -> Step<'a, ()> {
        |log: Seq<Reply>| self.drop_step(log)
    }

    /// The state of the engine after `ops` were carried out on handles to this value, the
    /// engine answering each with the reply at the same place in `replies`.
    pub open spec fn after_ops(&self, engine: Engine, ops: Seq<HandleOp>, replies: Seq<Reply>) -> Engine
        decreases ops.len(),
    {
        if ops.len() == 0 {
            engine
        } else {
            let before = self.after_ops(engine, ops.drop_last(), replies.drop_last());
            match ops.last() {
                HandleOp::Clone => before.after(self.clone_op(), seq![replies.last()]),
                HandleOp::Drop => before.after(self.drop_op(), seq![replies.last()]),
            }
        }
    }

    /// Whether every call made while `ops` are carried out is allowed in the state it is
    /// made in.
    pub open spec fn ops_permitted(&self, engine: Engine, ops: Seq<HandleOp>, replies: Seq<Reply>) -> bool
        decreases ops.len(),
    {
        ops.len() > 0 ==> {
            let before = self.after_ops(engine, ops.drop_last(), replies.drop_last());
            &&& self.ops_permitted(engine, ops.drop_last(), replies.drop_last())
            &&& match ops.last() {
                HandleOp::Clone => before.permits(self.clone_op(), seq![replies.last()]),
                HandleOp::Drop => before.permits(self.drop_op(), seq![replies.last()]),
            }
        }
    }

    /// Whatever sequence of clones and drops is carried out on the handles to a value on
    /// the engine's heap, the number of references the host holds to it changes by the
    /// number of clones less the number of drops, nothing else the host holds changes, and
    /// every call made on the way is allowed: no reference is given up that is not held.
    pub proof fn law_clone_drop_net(self, engine: Engine, ops: Seq<HandleOp>, replies: Seq<Reply>)
        requires
            engine.locked,
            !engine.pending,
            ops.len() == replies.len(),
            self.as_js_value() is Ref,
            finds_handles(engine.held.count(Resource::Value(self.as_js_value()->ptr)), ops),
        ensures
            self.ops_permitted(engine, ops, replies),
            self.after_ops(engine, ops, replies).held.count(
                Resource::Value(self.as_js_value()->ptr),
            ) == engine.held.count(Resource::Value(self.as_js_value()->ptr)) + clones(ops) - drops(
                ops,
            ),
            forall|other: Resource|
                other != Resource::Value(self.as_js_value()->ptr) ==> self.after_ops(
                    engine,
                    ops,
                    replies,
                ).held.count(other) == engine.held.count(other),
            self.after_ops(engine, ops, replies).pending == engine.pending,
            self.after_ops(engine, ops, replies).locked == engine.locked,
        decreases ops.len(),
    {
        let key = Resource::Value(self.as_js_value()->ptr);
        let start = engine.held.count(key);
        if ops.len() > 0 {
            let init = ops.drop_last();
            assert forall|n: int| 0 <= n < init.len() implies start + clones(
                #[trigger] init.take(n),
            ) - drops(init.take(n)) > 0 by {
                assert(init.take(n) == ops.take(n));
            }
            self.law_clone_drop_net(engine, init, replies.drop_last());
            assert(ops.take(ops.len() - 1) == init);
            let one = seq![replies.last()];
            reveal_with_fuel(Engine::state_at, 2);
            assert(one.take(0).len() == 0);
            assert(one.take(1) == one);
        }
    }

    /// Clones and drops of a handle to a primitive change nothing: the engine counts no
    /// references to it.
    pub proof fn law_primitive_uncounted(self, engine: Engine, ops: Seq<HandleOp>, replies: Seq<Reply>)
        requires
            engine.locked,
            !engine.pending,
            ops.len() == replies.len(),
            !self.as_js_value().counted(),
        ensures
            self.ops_permitted(engine, ops, replies),
            self.after_ops(engine, ops, replies) == engine,
        decreases ops.len(),
    {
        if ops.len() > 0 {
            self.law_primitive_uncounted(engine, ops.drop_last(), replies.drop_last());
            let one = seq![replies.last()];
            reveal_with_fuel(Engine::state_at, 2);
            assert(one.take(0).len() == 0);
            assert(one.take(1) == one);
            assert(self.after_ops(engine, ops, replies).held =~= engine.held);
        }
    }
}

} // verus!
