//! Handles to interned property keys.
use vstd::prelude::*;
use crate::context::Ctx;
use crate::engine::{Call, JSAtom, JSValue, Reply, Step, JS_ATOM_NULL};
use crate::error::{
    discard, discard_step, lemma_raises_from, raise, raise_step, raises_from, Error,
};
use crate::model::{
    atom_refs, clones, completes, drops, finds_handles, value_refs, Engine, HandleOp, Resource,
};
use crate::value::{read_text, text_len, text_step, JsString, Value};
use vstd::multiset::Multiset;

verus! {

/// An atom is the name of a property: the key `1` in `object[1]`, the key `foo` in
/// `object.foo`. The engine keeps the keys that are array indices as plain numbers and
/// interns the others in a table that counts references.
///
/// The handle owns one reference to its atom. It is valid in the context that made it and
/// nowhere else. It is not `Clone`: [`Atom::clone`] asks the engine for the second
/// reference, [`Atom::drop`] gives the handle's reference back.
#[derive(Debug, PartialEq, Eq)]
pub struct Atom<'js> {
    pub(crate) atom: JSAtom,
    ctx: Ctx<'js>,
}

/// What a call that makes an atom leads to, for the constructors whose call runs no script
/// code: the handle, or, on the null atom, `Unknown` once the exception that the failure
/// left behind has been discarded.
pub open spec fn made_step<'a, 'js>(ctx: Ctx<'js>, call: Call<'a>, log: Seq<Reply>) -> Step<
    'a,
    Result<Atom<'js>, Error>,
> {
    if log.len() == 0 {
        Step::Call(call)
    } else if log[0].atom() != JS_ATOM_NULL {
        Step::Done(Ok(Atom::from_atom_val(ctx, log[0].atom())))
    } else {
        match discard_step(log.skip(1)) {
            Step::Call(next) => Step::Call(next),
            Step::Done(_) => Step::Done(Err(Error::Unknown)),
        }
    }
}

fn made<'a, 'js>(ctx: Ctx<'js>, call: Call<'a>, log: &[Reply]) -> (r: Step<
    'a,
    Result<Atom<'js>, Error>,
>)
    ensures
        r == made_step(ctx, call, log@),
        r matches Step::Done(Ok(atom)) ==> atom.ctx() == ctx && atom.as_atom_val()
            == log@[0].atom(),
{
    if log.len() == 0 {
        return Step::Call(call);
    }
    let atom = log[0].atom();
    if atom != JS_ATOM_NULL {
        return Step::Done(Ok(Atom { atom, ctx }));
    }
    match discard(log, 1) {
        Step::Call(next) => Step::Call(next),
        Step::Done(_) => Step::Done(Err(Error::Unknown)),
    }
}

impl<'js> Atom<'js> {
    pub closed spec fn spec_from_atom_val(ctx: Ctx<'js>, val: JSAtom) -> Atom<'js> {
        Atom { atom: val, ctx }
    }

    pub closed spec fn spec_as_atom_val(&self) -> JSAtom {
        self.atom
    }

    pub closed spec fn spec_ctx(&self) -> Ctx<'js> {
        self.ctx
    }

    /// A handle is its raw atom and its context, no more.
    pub broadcast proof fn lemma_parts(ctx: Ctx<'js>, val: JSAtom)
        ensures
            (#[trigger] Atom::spec_from_atom_val(ctx, val)).spec_as_atom_val() == val,
            Atom::spec_from_atom_val(ctx, val).spec_ctx() == ctx,
    {
    }

    /// What [`Atom::from_value`] answers to a log of replies.
    ///
    /// The coercion may run script code, so a null atom means a script may have thrown: the
    /// pending exception is read and becomes the error.
    pub open spec fn from_value_step<'a>(ctx: Ctx<'js>, val: JSValue, log: Seq<Reply>) -> Step<
        'a,
        Result<Atom<'js>, Error>,
    > {
        if log.len() == 0 {
            Step::Call(Call::ValueToAtom(val))
        } else if log[0].atom() != JS_ATOM_NULL {
            Step::Done(Ok(Atom::from_atom_val(ctx, log[0].atom())))
        } else {
            match raise_step(log.skip(1)) {
                Step::Call(next) => Step::Call(next),
                Step::Done(error) => Step::Done(Err(error)),
            }
        }
    }

    /// Create an atom from an engine value. The value must be a handle of the same context.
    pub fn from_value<'a>(ctx: Ctx<'js>, val: &Value<'js>, log: &[Reply]) -> (r: Step<
        'a,
        Result<Atom<'js>, Error>,
    >)
        requires
            val.ctx() == ctx,
        ensures
            r == Atom::from_value_step(ctx, val.as_js_value(), log@),
            r matches Step::Done(Ok(atom)) ==> atom.ctx() == ctx && atom.as_atom_val()
                == log@[0].atom(),
    {
        if log.len() == 0 {
            return Step::Call(Call::ValueToAtom(val.as_js_value()));
        }
        let atom = log[0].atom();
        if atom != JS_ATOM_NULL {
            return Step::Done(Ok(Atom { atom, ctx }));
        }
        match raise(log, 1) {
            Step::Call(next) => Step::Call(next),
            Step::Done(error) => Step::Done(Err(error)),
        }
    }

    /// Create an atom from a `u32`.
    pub fn from_u32<'a>(ctx: Ctx<'js>, val: u32, log: &[Reply]) -> (r: Step<
        'a,
        Result<Atom<'js>, Error>,
    >)
        ensures
            r == made_step(ctx, Call::NewAtomUInt32(val), log@),
            r matches Step::Done(Ok(atom)) ==> atom.ctx() == ctx && atom.as_atom_val()
                == log@[0].atom(),
    {
        made(ctx, Call::NewAtomUInt32(val), log)
    }

    /// Create an atom from an `i32`, by way of the engine's integer value.
    pub fn from_i32<'a>(ctx: Ctx<'js>, val: i32, log: &[Reply]) -> (r: Step<
        'a,
        Result<Atom<'js>, Error>,
    >)
        ensures
            r == made_step(ctx, Call::ValueToAtom(JSValue::Int(val)), log@),
            r matches Step::Done(Ok(atom)) ==> atom.ctx() == ctx && atom.as_atom_val()
                == log@[0].atom(),
    {
        made(ctx, Call::ValueToAtom(JSValue::Int(val)), log)
    }

    /// Create an atom from a `bool`, by way of the engine's boolean value.
    pub fn from_bool<'a>(ctx: Ctx<'js>, val: bool, log: &[Reply]) -> (r: Step<
        'a,
        Result<Atom<'js>, Error>,
    >)
        ensures
            r == made_step(ctx, Call::ValueToAtom(JSValue::Bool(val)), log@),
            r matches Step::Done(Ok(atom)) ==> atom.ctx() == ctx && atom.as_atom_val()
                == log@[0].atom(),
    {
        made(ctx, Call::ValueToAtom(JSValue::Bool(val)), log)
    }

    /// Create an atom from a number, given by the bits of its 64-bit floating-point form.
    pub fn from_f64<'a>(ctx: Ctx<'js>, bits: u64, log: &[Reply]) -> (r: Step<
        'a,
        Result<Atom<'js>, Error>,
    >)
        ensures
            r == made_step(ctx, Call::ValueToAtom(JSValue::Float64(bits)), log@),
            r matches Step::Done(Ok(atom)) ==> atom.ctx() == ctx && atom.as_atom_val()
                == log@[0].atom(),
    {
        made(ctx, Call::ValueToAtom(JSValue::Float64(bits)), log)
    }

    /// Create an atom from a string.
    pub fn from_str<'a>(ctx: Ctx<'js>, name: &'a str, log: &[Reply]) -> (r: Step<
        'a,
        Result<Atom<'js>, Error>,
    >)
        ensures
            r == made_step(ctx, Call::NewAtomLen(name), log@),
            r matches Step::Done(Ok(atom)) ==> atom.ctx() == ctx && atom.as_atom_val()
                == log@[0].atom(),
    {
        made(ctx, Call::NewAtomLen(name), log)
    }

    /// What reading the text of the raw atom `atom` answers to a log of replies.
    ///
    /// The engine is asked for the atom's string. If it answers with the failure sentinel,
    /// the pending exception is read and becomes the error. Otherwise the text is copied
    /// out as [`text_step`] says, and then, whether or not that went well, the reference to
    /// the string is given up.
    pub open spec fn text_of_step<'a>(atom: JSAtom, log: Seq<Reply>) -> Step<'a, Result<String, Error>> {
        if log.len() == 0 {
            Step::Call(Call::AtomToString(atom))
        } else if log[0].value() == JSValue::Exception {
            match raise_step(log.skip(1)) {
                Step::Call(next) => Step::Call(next),
                Step::Done(error) => Step::Done(Err(error)),
            }
        } else {
            match text_step(log[0].value(), log.skip(1)) {
                Step::Call(next) => Step::Call(next),
                Step::Done(text) => {
                    if log.len() == 1 + text_len(log.skip(1)) {
                        Step::Call(Call::FreeValue(log[0].value()))
                    } else {
                        Step::Done(text)
                    }
                },
            }
        }
    }

    fn text_of<'a>(atom: JSAtom, log: &[Reply]) -> (r: Step<'a, Result<String, Error>>)
        ensures
            r == Atom::text_of_step(atom, log@),
    {
        if log.len() == 0 {
            return Step::Call(Call::AtomToString(atom));
        }
        let string = log[0].value();
        if string.is_exception() {
            return match raise(log, 1) {
                Step::Call(next) => Step::Call(next),
                Step::Done(error) => Step::Done(Err(error)),
            };
        }
        match read_text(string, log, 1) {
            Step::Call(next) => Step::Call(next),
            Step::Done(text) => {
                let used: usize = if log[1].text().is_some() {
                    2
                } else {
                    3
                };
                assert(log@.skip(1)[0] == log@[1]);
                if log.len() == 1 + used {
                    Step::Call(Call::FreeValue(string))
                } else {
                    Step::Done(text)
                }
            },
        }
    }

    /// Convert the atom to a host string.
    pub fn to_string<'a>(&self, log: &[Reply]) -> (r: Step<'a, Result<String, Error>>)
        ensures
            r == Atom::text_of_step(self.as_atom_val(), log@),
    {
        Atom::text_of(self.atom, log)
    }

    /// What [`Atom::to_js_string`] answers to a log of replies.
    ///
    /// The engine is asked for the atom's string, which comes with a reference that the
    /// returned handle takes over. If the engine answers with the failure sentinel, the
    /// pending exception is read and becomes the error.
    pub open spec fn to_js_string_step<'a>(&self, log: Seq<Reply>) -> Step<
        'a,
        Result<JsString<'js>, Error>,
    > {
        if log.len() == 0 {
            Step::Call(Call::AtomToString(self.as_atom_val()))
        } else if log[0].value() == JSValue::Exception {
            match raise_step(log.skip(1)) {
                Step::Call(next) => Step::Call(next),
                Step::Done(error) => Step::Done(Err(error)),
            }
        } else {
            Step::Done(Ok(JsString(Value::from_js_value(self.ctx(), log[0].value()))))
        }
    }

    /// Convert the atom to an engine string.
    pub fn to_js_string<'a>(&self, log: &[Reply]) -> (r: Step<'a, Result<JsString<'js>, Error>>)
        ensures
            r == self.to_js_string_step(log@),
            r matches Step::Done(Ok(string)) ==> string.0.ctx() == self.ctx()
                && string.0.as_js_value() == log@[0].value(),
    {
        if log.len() == 0 {
            return Step::Call(Call::AtomToString(self.atom));
        }
        let string = log[0].value();
        if string.is_exception() {
            return match raise(log, 1) {
                Step::Call(next) => Step::Call(next),
                Step::Done(error) => Step::Done(Err(error)),
            };
        }
        Step::Done(Ok(JsString(Value::from_js_value(self.ctx, string))))
    }

    /// What [`Atom::to_value`] answers to a log of replies: what
    /// [`Atom::to_js_string`] answers, with the string as a plain value.
    pub open spec fn to_value_step<'a>(&self, log: Seq<Reply>) -> Step<'a, Result<Value<'js>, Error>> {
        match self.to_js_string_step(log) {
            Step::Call(next) => Step::Call(next),
            Step::Done(Ok(string)) => Step::Done(Ok(string.0)),
            Step::Done(Err(error)) => Step::Done(Err(error)),
        }
    }

    /// Convert the atom to an engine value.
    pub fn to_value<'a>(&self, log: &[Reply]) -> (r: Step<'a, Result<Value<'js>, Error>>)
        ensures
            r == self.to_value_step(log@),
            r matches Step::Done(Ok(value)) ==> value.ctx() == self.ctx() && value.as_js_value()
                == log@[0].value(),
    {
        match self.to_js_string(log) {
            Step::Call(next) => Step::Call(next),
            Step::Done(Ok(string)) => Step::Done(Ok(string.0)),
            Step::Done(Err(error)) => Step::Done(Err(error)),
        }
    }

    /// Create an atom from a raw atom value. The handle takes over one reference: the caller
    /// vouches that `val` is an atom of the engine, that it owns one reference to it, got in
    /// this context, and that it gives that reference up to the handle.
    #[verifier::when_used_as_spec(spec_from_atom_val)]
    pub fn from_atom_val(ctx: Ctx<'js>, val: JSAtom) -> (r: Atom<'js>)
        ensures
            r == Atom::spec_from_atom_val(ctx, val),
            r.as_atom_val() == val,
            r.ctx() == ctx,
    {
        Atom { atom: val, ctx }
    }

    /// Get the raw atom value. The handle keeps its reference.
    #[verifier::when_used_as_spec(spec_as_atom_val)]
    pub fn as_atom_val(&self) -> (r: JSAtom)
        ensures
            r == self.spec_as_atom_val(),
    {
        self.atom
    }

    /// The context the handle belongs to.
    #[verifier::when_used_as_spec(spec_ctx)]
    pub fn ctx(&self) -> (r: Ctx<'js>)
        ensures
            r == self.spec_ctx(),
    {
        self.ctx
    }

    /// Get the host string of a raw atom. The caller vouches that `atom` is an atom of the
    /// engine that stays alive for the length of the operation; no reference to it is taken
    /// or given up.
    #[allow(unused_variables)]
    pub fn resolve_raw<'a>(ctx: Ctx<'js>, atom: JSAtom, log: &[Reply]) -> (r: Step<
        'a,
        Result<String, Error>,
    >)
        ensures
            r == Atom::text_of_step(atom, log@),
    {
        Atom::text_of(atom, log)
    }

    /// What [`Atom::from_str_raw`] answers to a log of replies: the name is interned, the
    /// reference that came with the atom is given up again, and the bare number is the
    /// result. Where the engine could not make the atom, the exception that the failure
    /// left behind is discarded and the result is the null atom.
    pub open spec fn from_str_raw_step<'a>(name: &'a str, log: Seq<Reply>) -> Step<'a, JSAtom> {
        if log.len() == 0 {
            Step::Call(Call::NewAtomLen(name))
        } else if log[0].atom() == JS_ATOM_NULL {
            match discard_step(log.skip(1)) {
                Step::Call(next) => Step::Call(next),
                Step::Done(_) => Step::Done(JS_ATOM_NULL),
            }
        } else if log.len() == 1 {
            Step::Call(Call::FreeAtom(log[0].atom()))
        } else {
            Step::Done(log[0].atom())
        }
    }

    /// Get the raw atom value of a string, or the null atom if the engine cannot make the
    /// atom. No reference is kept: the number names the atom only for as long as something
    /// else keeps the atom alive.
    #[allow(unused_variables)]
    pub fn from_str_raw<'a>(ctx: Ctx<'js>, name: &'a str, log: &[Reply]) -> (r: Step<'a, JSAtom>)
        ensures
            r == Atom::from_str_raw_step(name, log@),
    {
        if log.len() == 0 {
            return Step::Call(Call::NewAtomLen(name));
        }
        let atom = log[0].atom();
        if atom == JS_ATOM_NULL {
            return match discard(log, 1) {
                Step::Call(next) => Step::Call(next),
                Step::Done(_) => Step::Done(JS_ATOM_NULL),
            };
        }
        if log.len() == 1 {
            Step::Call(Call::FreeAtom(atom))
        } else {
            Step::Done(atom)
        }
    }

    /// What [`Atom::clone`] answers to a log of replies: one call for a second reference,
    /// then a second handle to the same atom.
    pub open spec fn clone_step<'a>(&self, log: Seq<Reply>) -> Step<'a, Atom<'js>> {
        if log.len() == 0 {
            Step::Call(Call::DupAtom(self.as_atom_val()))
        } else {
            Step::Done(Atom::from_atom_val(self.ctx(), self.as_atom_val()))
        }
    }

    /// A second handle to the same atom, with a reference of its own.
    pub fn clone<'a>(&self, log: &[Reply]) -> (r: Step<'a, Atom<'js>>)
        ensures
            r == self.clone_step(log@),
            r matches Step::Done(copy) ==> copy.ctx() == self.ctx() && copy.as_atom_val()
                == self.as_atom_val(),
    {
        if log.len() == 0 {
            Step::Call(Call::DupAtom(self.atom))
        } else {
            Step::Done(Atom { atom: self.atom, ctx: self.ctx })
        }
    }

    /// The operation that [`Atom::drop`] begins: one call that gives the handle's reference
    /// back.
    pub open spec fn drop_step<'a>(&self, log: Seq<Reply>) -> Step<'a, ()> {
        if log.len() == 0 {
            Step::Call(Call::FreeAtom(self.as_atom_val()))
        } else {
            Step::Done(())
        }
    }

    /// Ends the handle. Returns the one call of the operation, which gives the handle's
    /// reference back and is to be made at once; its reply says nothing.
    pub fn drop<'a>(self) -> (r: Call<'a>)
        ensures
            Step::<()>::Call(r) == self.drop_step(Seq::empty()),
            r == Call::FreeAtom(self.as_atom_val()),
    {
        Call::FreeAtom(self.atom)
    }
}

/// A constructor of [`Atom`] whose call runs no script code, as an operation.
pub open spec fn made_op<'a, 'js>(ctx: Ctx<'js>, call: Call<'a>) -> spec_fn(Seq<Reply>) -> Step<
    'a,
    Result<Atom<'js>, Error>,
> {
    |log: Seq<Reply>| made_step(ctx, call, log)
}

/// The references that the result of an operation that makes an atom stands for.
pub open spec fn made_refs<'a, 'js>(step: Step<'a, Result<Atom<'js>, Error>>) -> Multiset<Resource> {
    match step {
        Step::Done(Ok(atom)) => atom_refs(atom.as_atom_val()),
        _ => Multiset::empty(),
    }
}

/// Making an atom from a host value is safe under the lock, leaves no exception pending,
/// and changes what the host holds by exactly the reference that the returned handle
/// owns: one on success, none on failure.
pub proof fn law_made_atom_owned<'a, 'js>(
    engine: Engine,
    ctx: Ctx<'js>,
    call: Call<'a>,
    replies: Seq<Reply>,
)
    requires
        engine.locked,
        !engine.pending,
        call is NewAtomUInt32 || call is NewAtomLen || (call matches Call::ValueToAtom(value)
            && !value.counted()),
        completes(made_op(ctx, call), replies),
    ensures
        engine.permits(made_op(ctx, call), replies),
        engine.after(made_op(ctx, call), replies) == (Engine {
            held: engine.held.add(made_refs(made_step(ctx, call, replies))),
            ..engine
        }),
{
    let op = made_op(ctx, call);
    reveal_with_fuel(Engine::state_at, 4);
    assert(replies.take(replies.len() as int) == replies);
    assert forall|n: int| 0 <= n <= 3 && n < replies.len() implies #[trigger] op(
        replies.take(n),
    ) is Call by {}
    assert(replies.len() <= 3) by {
        if replies.len() > 3 {
            assert(op(replies.take(3)) is Call);
            assert(replies.take(3).skip(1).len() == 2);
        }
    }
    assert(engine.after(op, replies).held =~= engine.held.add(made_refs(made_step(ctx, call, replies))));
}

/// [`Atom::from_value`] as an operation.
pub open spec fn from_value_op<'a, 'js>(ctx: Ctx<'js>, val: JSValue) -> spec_fn(Seq<Reply>) -> Step<
    'a,
    Result<Atom<'js>, Error>,
> {
    |log: Seq<Reply>| Atom::from_value_step(ctx, val, log)
}

/// Reading the text of a raw atom, as an operation.
pub open spec fn text_of_op<'a>(atom: JSAtom) -> spec_fn(Seq<Reply>) -> Step<'a, Result<String, Error>> {
    |log: Seq<Reply>| Atom::text_of_step(atom, log)
}

/// [`Atom::from_str_raw`] as an operation.
pub open spec fn from_str_raw_op<'a>(name: &'a str) -> spec_fn(Seq<Reply>) -> Step<'a, JSAtom> {
    |log: Seq<Reply>| Atom::from_str_raw_step(name, log)
}

impl<'js> Atom<'js> {
    /// [`Atom::to_js_string`] as an operation.
    pub open spec fn to_js_string_op<'a>(&self) -> spec_fn(Seq<Reply>) -> Step<
        'a,
        Result<JsString<'js>, Error>,
    > {
        |log: Seq<Reply>| self.to_js_string_step(log)
    }

    /// [`Atom::to_value`] as an operation.
    pub open spec fn to_value_op<'a>(&self) -> spec_fn(Seq<Reply>) -> Step<
        'a,
        Result<Value<'js>, Error>,
    > {
        |log: Seq<Reply>| self.to_value_step(log)
    }

    /// [`Atom::clone`] as an operation.
    pub open spec fn clone_op<'a>(&self) -> spec_fn(Seq<Reply>) -> Step<'a, Atom<'js>> {
        |log: Seq<Reply>| self.clone_step(log)
    }

    /// The operation that [`Atom::drop`] begins.
    pub open spec fn drop_op<'a>(&self) -> spec_fn(Seq<Reply>) -> Step<'a, ()> {
        |log: Seq<Reply>| self.drop_step(log)
    }
}

/// Making an atom from an engine value is safe under the lock while the value is held,
/// leaves no exception pending even where the coercion threw, and changes what the host
/// holds by exactly the reference that the returned handle owns.
pub proof fn law_from_value_owned<'a, 'js>(
    engine: Engine,
    ctx: Ctx<'js>,
    val: JSValue,
    replies: Seq<Reply>,
)
    requires
        engine.locked,
        !engine.pending,
        engine.holds_value(val),
        completes(from_value_op(ctx, val), replies),
    ensures
        engine.permits(from_value_op(ctx, val), replies),
        engine.after(from_value_op(ctx, val), replies) == (Engine {
            held: engine.held.add(made_refs(Atom::from_value_step(ctx, val, replies))),
            ..engine
        }),
{
    let op = from_value_op(ctx, val);
    reveal_with_fuel(Engine::state_at, 2);
    assert(replies.take(replies.len() as int) == replies);
    assert(op(replies.take(0)) is Call);
    if replies[0].atom() != JS_ATOM_NULL {
        assert(op(replies.take(1)) is Done);
        assert(engine.after(op, replies).held =~= engine.held.add(
            made_refs(Atom::from_value_step(ctx, val, replies)),
        ));
    } else {
        assert(raises_from(op, replies, 1)) by {
            assert forall|log: Seq<Reply>|
                log.len() >= 1 && log.take(1) == replies.take(1) implies match raise_step(
                log.skip(1),
            ) {
                Step::Call(call) => #[trigger] op(log) == Step::<Result<Atom, Error>>::Call(call),
                Step::Done(_) => op(log) is Done,
            } by {
                assert(log[0] == log.take(1)[0]);
            }
        }
        lemma_raises_from(engine, op, replies, 1);
        assert(engine.held.add(Multiset::empty()) =~= engine.held);
    }
}

proof fn lemma_text_of_raised(engine: Engine, atom: JSAtom, replies: Seq<Reply>)
    requires
        engine.locked,
        !engine.pending,
        engine.holds_atom(atom),
        completes(text_of_op(atom), replies),
        replies.len() > 0,
        replies[0].value() == JSValue::Exception,
    ensures
        engine.permits(text_of_op(atom), replies),
        engine.after(text_of_op(atom), replies) == engine,
{
    let op = text_of_op(atom);
    reveal_with_fuel(Engine::state_at, 2);
    assert(replies.take(replies.len() as int) == replies);
    assert(op(replies.take(0)) is Call);
    assert(raises_from(op, replies, 1)) by {
        assert forall|log: Seq<Reply>|
            log.len() >= 1 && log.take(1) == replies.take(1) implies match raise_step(
            log.skip(1),
        ) {
            Step::Call(call) => #[trigger] op(log) == Step::<Result<String, Error>>::Call(call),
            Step::Done(_) => op(log) is Done,
        } by {
            assert(log[0] == log.take(1)[0]);
        }
    }
    lemma_raises_from(engine, op, replies, 1);
}

proof fn lemma_text_of_read(engine: Engine, atom: JSAtom, replies: Seq<Reply>)
    requires
        engine.locked,
        !engine.pending,
        engine.holds_atom(atom),
        completes(text_of_op(atom), replies),
        replies.len() > 0,
        replies[0].value() != JSValue::Exception,
    ensures
        engine.permits(text_of_op(atom), replies),
        engine.after(text_of_op(atom), replies) == engine,
{
    let op = text_of_op(atom);
    reveal_with_fuel(Engine::state_at, 6);
    assert(replies.take(replies.len() as int) == replies);
    assert forall|n: int| 0 <= n <= 5 && n < replies.len() implies #[trigger] op(
        replies.take(n),
    ) is Call by {}
    assert(replies.len() <= 5) by {
        if replies.len() > 5 {
            assert(op(replies.take(5)) is Call);
            assert(replies.take(5).skip(1).len() == 4);
            assert(replies.take(5).skip(1).skip(1).len() == 3);
        }
    }
    assert(engine.after(op, replies).held =~= engine.held);
}

/// Reading the text of an atom is safe under the lock while the atom is held, leaves no
/// exception pending, and leaves the host holding exactly what it held before: the
/// reference to the atom's string and the buffer with its text are given back on every
/// path, whatever the engine answers.
pub proof fn law_text_of_balanced(engine: Engine, atom: JSAtom, replies: Seq<Reply>)
    requires
        engine.locked,
        !engine.pending,
        engine.holds_atom(atom),
        completes(text_of_op(atom), replies),
    ensures
        engine.permits(text_of_op(atom), replies),
        engine.after(text_of_op(atom), replies) == engine,
{
    assert(text_of_op(atom)(replies.take(0)) is Call);
    assert(replies.take(replies.len() as int) == replies);
    if replies[0].value() == JSValue::Exception {
        lemma_text_of_raised(engine, atom, replies);
    } else {
        lemma_text_of_read(engine, atom, replies);
    }
}

/// Turning an atom into an engine string is safe under the lock while the atom is held,
/// leaves no exception pending, and changes what the host holds by exactly the reference
/// that the returned handle owns.
pub proof fn law_to_js_string_owned(engine: Engine, atom: Atom, replies: Seq<Reply>)
    requires
        engine.locked,
        !engine.pending,
        engine.holds_atom(atom.as_atom_val()),
        completes(atom.to_js_string_op(), replies),
    ensures
        engine.permits(atom.to_js_string_op(), replies),
        engine.after(atom.to_js_string_op(), replies) == (Engine {
            held: engine.held.add(
                match atom.to_js_string_step(replies) {
                    Step::Done(Ok(string)) => value_refs(string.0.as_js_value()),
                    _ => Multiset::empty(),
                },
            ),
            ..engine
        }),
{
    broadcast use Value::lemma_parts;

    let op = atom.to_js_string_op();
    reveal_with_fuel(Engine::state_at, 2);
    assert(replies.take(replies.len() as int) == replies);
    assert(op(replies.take(0)) is Call);
    if replies[0].value() != JSValue::Exception {
        assert(op(replies.take(1)) is Done);
        assert(engine.after(op, replies).held =~= engine.held.add(
            value_refs(replies[0].value()),
        ));
    } else {
        assert(raises_from(op, replies, 1)) by {
            assert forall|log: Seq<Reply>|
                log.len() >= 1 && log.take(1) == replies.take(1) implies match raise_step(
                log.skip(1),
            ) {
                Step::Call(call) => #[trigger] op(log) == Step::<Result<JsString, Error>>::Call(call),
                Step::Done(_) => op(log) is Done,
            } by {
                assert(log[0] == log.take(1)[0]);
            }
        }
        lemma_raises_from(engine, op, replies, 1);
        assert(engine.held.add(Multiset::empty()) =~= engine.held);
    }
}

/// Turning an atom into an engine value is safe under the lock while the atom is held,
/// leaves no exception pending, and changes what the host holds by exactly the reference
/// that the returned handle owns.
pub proof fn law_to_value_owned(engine: Engine, atom: Atom, replies: Seq<Reply>)
    requires
        engine.locked,
        !engine.pending,
        engine.holds_atom(atom.as_atom_val()),
        completes(atom.to_value_op(), replies),
    ensures
        engine.permits(atom.to_value_op(), replies),
        engine.after(atom.to_value_op(), replies) == (Engine {
            held: engine.held.add(
                match atom.to_value_step(replies) {
                    Step::Done(Ok(value)) => value_refs(value.as_js_value()),
                    _ => Multiset::empty(),
                },
            ),
            ..engine
        }),
{
    broadcast use Value::lemma_parts;

    let op = atom.to_value_op();
    reveal_with_fuel(Engine::state_at, 2);
    assert(replies.take(replies.len() as int) == replies);
    assert(op(replies.take(0)) is Call);
    if replies[0].value() != JSValue::Exception {
        assert(op(replies.take(1)) is Done);
        assert(engine.after(op, replies).held =~= engine.held.add(
            value_refs(replies[0].value()),
        ));
    } else {
        assert(raises_from(op, replies, 1)) by {
            assert forall|log: Seq<Reply>|
                log.len() >= 1 && log.take(1) == replies.take(1) implies match raise_step(
                log.skip(1),
            ) {
                Step::Call(call) => #[trigger] op(log) == Step::<Result<Value, Error>>::Call(call),
                Step::Done(_) => op(log) is Done,
            } by {
                assert(log[0] == log.take(1)[0]);
            }
        }
        lemma_raises_from(engine, op, replies, 1);
        assert(engine.held.add(Multiset::empty()) =~= engine.held);
    }
}

/// Looking up the raw atom of a name is safe under the lock, leaves no exception pending,
/// and leaves the host holding exactly what it held before: the reference that came with
/// the atom is given up again.
pub proof fn law_from_str_raw_keeps_nothing<'a>(engine: Engine, name: &'a str, replies: Seq<Reply>)
    requires
        engine.locked,
        !engine.pending,
        completes(from_str_raw_op(name), replies),
    ensures
        engine.permits(from_str_raw_op(name), replies),
        engine.after(from_str_raw_op(name), replies) == engine,
{
    let op = from_str_raw_op(name);
    reveal_with_fuel(Engine::state_at, 4);
    assert(replies.take(replies.len() as int) == replies);
    assert forall|n: int| 0 <= n <= 3 && n < replies.len() implies #[trigger] op(
        replies.take(n),
    ) is Call by {}
    assert(replies.len() <= 3) by {
        if replies.len() > 3 {
            assert(op(replies.take(3)) is Call);
            assert(replies.take(3).skip(1).len() == 2);
        }
    }
    assert(engine.after(op, replies).held =~= engine.held);
}

impl<'js> Atom<'js> {
    /// The state of the engine after `ops` were carried out on handles to this atom, the
    /// engine answering each with the reply at the same place in `replies`.
    pub open spec fn after_ops(&self, engine: Engine, ops: Seq<HandleOp>, replies: Seq<Reply>) -> Engine
        decreases ops.len(),
    {
        if ops.len() == 0 {
            engine
        } else {
            let before = self.after_ops(engine, ops.drop_last(), replies.drop_last());
            match ops.last() {
                HandleOp::Clone => before.after(self.clone_op(), seq![replies.last()]),
                HandleOp::Drop => before.after(self.drop_op(), seq![replies.last()]),
            }
        }
    }

    /// Whether every call made while `ops` are carried out is allowed in the state it is
    /// made in.
    pub open spec fn ops_permitted(&self, engine: Engine, ops: Seq<HandleOp>, replies: Seq<Reply>) -> bool
        decreases ops.len(),
    {
        ops.len() > 0 ==> {
            let before = self.after_ops(engine, ops.drop_last(), replies.drop_last());
            &&& self.ops_permitted(engine, ops.drop_last(), replies.drop_last())
            &&& match ops.last() {
                HandleOp::Clone => before.permits(self.clone_op(), seq![replies.last()]),
                HandleOp::Drop => before.permits(self.drop_op(), seq![replies.last()]),
            }
        }
    }

    /// Whatever sequence of clones and drops is carried out on the handles to an atom, the
    /// number of references the host holds to it changes by the number of clones less the
    /// number of drops, nothing else the host holds changes, and every call made on the
    /// way is allowed: no reference is given up that is not held.
    pub proof fn law_clone_drop_net(self, engine: Engine, ops: Seq<HandleOp>, replies: Seq<Reply>)
        requires
            engine.locked,
            !engine.pending,
            ops.len() == replies.len(),
            finds_handles(engine.held.count(Resource::Atom(self.as_atom_val())), ops),
        ensures
            self.ops_permitted(engine, ops, replies),
            self.after_ops(engine, ops, replies).held.count(Resource::Atom(self.as_atom_val()))
                == engine.held.count(Resource::Atom(self.as_atom_val())) + clones(ops) - drops(ops),
            forall|other: Resource|
                other != Resource::Atom(self.as_atom_val()) ==> self.after_ops(
                    engine,
                    ops,
                    replies,
                ).held.count(other) == engine.held.count(other),
            self.after_ops(engine, ops, replies).pending == engine.pending,
            self.after_ops(engine, ops, replies).locked == engine.locked,
        decreases ops.len(),
    {
        let key = Resource::Atom(self.as_atom_val());
        let start = engine.held.count(key);
        if ops.len() > 0 {
            let init = ops.drop_last();
            assert forall|n: int| 0 <= n < init.len() implies start + clones(
                #[trigger] init.take(n),
            ) - drops(init.take(n)) > 0 by {
                assert(init.take(n) == ops.take(n));
            }
            self.law_clone_drop_net(engine, init, replies.drop_last());
            assert(ops.take(ops.len() - 1) == init);
            let one = seq![replies.last()];
            reveal_with_fuel(Engine::state_at, 2);
            assert(one.take(0).len() == 0);
            assert(one.take(1) == one);
        }
    }

    /// Make `n` clones of a handle that holds the only reference to its atom, then drop
    /// all `n + 1` handles: every call made on the way is allowed, the host holds a
    /// reference for as long as a handle is left, and none once the last handle is gone.
    pub proof fn law_all_dropped(self, engine: Engine, n: nat, replies: Seq<Reply>)
        requires
            engine.locked,
            !engine.pending,
            replies.len() == 2 * n + 1,
            engine.held.count(Resource::Atom(self.as_atom_val())) == 1,
        ensures
            ({
                let ops = Seq::new(
                    2 * n + 1,
                    |i: int|
                        if i < n {
                            HandleOp::Clone
                        } else {
                            HandleOp::Drop
                        },
                );
                &&& self.ops_permitted(engine, ops, replies)
                &&& !self.after_ops(engine, ops, replies).holds_atom(self.as_atom_val())
                &&& forall|m: int|
                    0 <= m < ops.len() ==> self.after_ops(
                        engine,
                        #[trigger] ops.take(m),
                        replies.take(m),
                    ).holds_atom(self.as_atom_val())
            }),
    {
        let ops = Seq::new(
            2 * n + 1,
            |i: int|
                if i < n {
                    HandleOp::Clone
                } else {
                    HandleOp::Drop
                },
        );
        assert forall|m: int| 0 <= m <= ops.len() implies clones(#[trigger] ops.take(m)) == (if m
            <= n {
            m
        } else {
            n as int
        }) && drops(ops.take(m)) == (if m <= n {
            0
        } else {
            m - n
        }) by {
            lemma_counts(ops, n, m);
        }
        assert(ops.take(ops.len() as int) == ops);
        self.law_clone_drop_net(engine, ops, replies);
        assert forall|m: int| 0 <= m < ops.len() implies self.after_ops(
            engine,
            #[trigger] ops.take(m),
            replies.take(m),
        ).holds_atom(self.as_atom_val()) by {
            let part = ops.take(m);
            assert forall|k: int| 0 <= k < part.len() implies 1 + clones(#[trigger] part.take(k))
                - drops(part.take(k)) > 0 by {
                assert(part.take(k) == ops.take(k));
            }
            self.law_clone_drop_net(engine, part, replies.take(m));
        }
    }
}

/// The numbers of clones and drops among the first `m` of `n` clones followed by drops.
proof fn lemma_counts(ops: Seq<HandleOp>, n: nat, m: int)
    requires
        0 <= m <= ops.len(),
        forall|i: int| 0 <= i < ops.len() ==> ops[i] == (if i < n {
            HandleOp::Clone
        } else {
            HandleOp::Drop
        }),
    ensures
        clones(ops.take(m)) == (if m <= n {
            m
        } else {
            n as int
        }),
        drops(ops.take(m)) == (if m <= n {
            0
        } else {
            m - n
        }),
    decreases m,
{
    if m > 0 {
        lemma_counts(ops, n, m - 1);
        assert(ops.take(m).drop_last() == ops.take(m - 1));
    }
}

/// Every handle belongs to the context that made it, and to no other: the handle that an
/// operation of one context gives cannot meet the demand of an operation of another
/// context, even of the same instance, that its handles be its own.
pub proof fn law_handles_keep_origin<'a, 'js>(
    here: Ctx<'js>,
    there: Ctx<'js>,
    call: Call<'a>,
    atom: Atom<'js>,
    val: JSValue,
    source: &'a str,
    log: Seq<Reply>,
)
    requires
        here.id() != there.id(),
    ensures
        here != there,
        made_step(here, call, log) matches Step::Done(Ok(made)) ==> made.ctx() == here
            && made.ctx() != there,
        Atom::from_value_step(here, val, log) matches Step::Done(Ok(made)) ==> made.ctx() == here
            && made.ctx() != there,
        atom.clone_step(log) matches Step::Done(made) ==> made.ctx() == atom.ctx(),
        atom.to_js_string_step(log) matches Step::Done(Ok(string)) ==> string.0.ctx() == atom.ctx(),
        atom.to_value_step(log) matches Step::Done(Ok(value)) ==> value.ctx() == atom.ctx(),
        here.eval_step(source, log) matches Step::Done(Ok(value)) ==> value.ctx() == here
            && value.ctx() != there,
        JsString::from_str_step(here, source, log) matches Step::Done(Ok(string))
            ==> string.0.ctx() == here && string.0.ctx() != there,
{
    broadcast use Value::lemma_parts;

}

} // verus!
