//! What the crate takes the engine to do.
//!
//! [`Engine`] is the state of an engine instance as far as the host answers for it: which
//! references the host holds and has to give back, whether an exception is pending, and
//! whether the instance lock is held. [`Engine::apply`] says how one call with its reply
//! changes that state, [`Engine::allows`] which calls the state permits. The laws of the
//! crate are stated over these.
use vstd::prelude::*;
use vstd::multiset::Multiset;
use crate::engine::{Call, JSAtom, JSValue, Reply, Step, JS_ATOM_NULL};

verus! {

/// Something the engine hands out by reference and wants back.
pub enum Resource {
    /// One reference to an atom.
    Atom(JSAtom),
    /// One reference to the heap value at this address.
    Value(u64),
    /// The lent text buffer at this address.
    Text(u64),
}

/// The state of an engine instance as the host sees it.
pub struct Engine {
    /// The references held by the host, each as often as it is held.
    pub held: Multiset<Resource>,
    /// Whether the exception slot is occupied.
    pub pending: bool,
    /// Whether the instance lock is held.
    pub locked: bool,
}

/// The references that holding `value` amounts to.
pub open spec fn value_refs(value: JSValue) -> Multiset<Resource> {
    match value {
        JSValue::Ref { tag, ptr } => Multiset::singleton(Resource::Value(ptr)),
        _ => Multiset::empty(),
    }
}

/// The references that holding `atom` amounts to.
pub open spec fn atom_refs(atom: JSAtom) -> Multiset<Resource> {
    Multiset::singleton(Resource::Atom(atom))
}

impl Engine {
    /// The state with `value` handed out once more.
    pub open spec fn gain_value(self, value: JSValue) -> Engine {
        Engine { held: self.held.add(value_refs(value)), ..self }
    }

    /// The state with one reference to `value` given back.
    pub open spec fn lose_value(self, value: JSValue) -> Engine {
        Engine { held: self.held.sub(value_refs(value)), ..self }
    }

    /// The state after a call that answers with an atom: a reference to it on success,
    /// a pending exception on the null atom.
    pub open spec fn made_atom(self, atom: JSAtom) -> Engine {
        if atom != JS_ATOM_NULL {
            Engine { held: self.held.add(atom_refs(atom)), ..self }
        } else {
            Engine { pending: true, ..self }
        }
    }

    /// The state after a call that answers with a value: a reference to it on success,
    /// a pending exception on the failure sentinel.
    pub open spec fn made_value(self, value: JSValue) -> Engine {
        if value == JSValue::Exception {
            Engine { pending: true, ..self }
        } else {
            self.gain_value(value)
        }
    }

    /// Whether the host holds what `value` refers to.
    pub open spec fn holds_value(self, value: JSValue) -> bool {
        value_refs(value).subset_of(self.held)
    }

    /// Whether the host holds a reference to `atom`.
    pub open spec fn holds_atom(self, atom: JSAtom) -> bool {
        self.held.count(Resource::Atom(atom)) > 0
    }

    /// The state after `call` was made and answered with `reply`.
    pub open spec fn apply(self, call: Call, reply: Reply) -> Engine {
        match call {
            Call::ValueToAtom(_) | Call::NewAtomUInt32(_) | Call::NewAtomLen(_) => {
                self.made_atom(reply.atom())
            },
            Call::DupAtom(atom) => Engine { held: self.held.add(atom_refs(atom)), ..self },
            Call::FreeAtom(atom) => Engine { held: self.held.sub(atom_refs(atom)), ..self },
            Call::AtomToString(_) | Call::NewStringLen(_) | Call::Eval(_) => {
                self.made_value(reply.value())
            },
            Call::DupValue(value) => self.gain_value(value),
            Call::FreeValue(value) => self.lose_value(value),
            Call::ToCStringLen(_) => {
                match reply.text() {
                    Some(buf) => Engine { held: self.held.insert(Resource::Text(buf.ptr)), ..self },
                    None => Engine { pending: true, ..self },
                }
            },
            Call::FreeCString(ptr) => Engine { held: self.held.remove(Resource::Text(ptr)), ..self },
            Call::GetException => Engine { pending: false, ..self }.gain_value(reply.value()),
            Call::ExecutePendingJob => Engine { pending: reply.number() < 0, ..self },
            Call::Lock => Engine { locked: true, ..self },
            Call::Unlock => Engine { locked: false, ..self },
            Call::TakeInterrupt
            | Call::SetInterruptHandler(_)
            | Call::DumpAtoms
            | Call::SetUpRefCountTracing(_)
            | Call::FindLineNum { .. }
            | Call::FindColumnNum { .. } => self,
        }
    }

    /// Whether `call` may be made in this state.
    ///
    /// The lock is not reentrant: it is taken only when free, and released only when held.
    /// Whatever touches the instance needs the lock. No call is made across a pending
    /// exception but the one that takes it out, and the ones that give references back.
    /// A reference is used or given back only while it is held.
    pub open spec fn allows(self, call: Call) -> bool {
        match call {
            Call::Lock => !self.locked,
            Call::Unlock => self.locked,
            Call::TakeInterrupt | Call::SetUpRefCountTracing(_) => true,
            Call::GetException => self.locked,
            Call::FreeAtom(atom) => self.locked && self.holds_atom(atom),
            Call::FreeValue(value) => self.locked && self.holds_value(value),
            Call::FreeCString(ptr) => self.locked && self.held.count(Resource::Text(ptr)) > 0,
            Call::DupAtom(atom) | Call::AtomToString(atom) => {
                self.locked && !self.pending && self.holds_atom(atom)
            },
            Call::DupValue(value) | Call::ValueToAtom(value) | Call::ToCStringLen(value) => {
                self.locked && !self.pending && self.holds_value(value)
            },
            Call::NewAtomUInt32(_)
            | Call::NewAtomLen(_)
            | Call::NewStringLen(_)
            | Call::Eval(_)
            | Call::ExecutePendingJob
            | Call::SetInterruptHandler(_)
            | Call::DumpAtoms
            | Call::FindLineNum { .. }
            | Call::FindColumnNum { .. } => self.locked && !self.pending,
        }
    }

    /// The state after the first `n` calls of the operation `op`, as `replies` answer them.
    pub open spec fn state_at<T>(
        self,
        op: spec_fn(Seq<Reply>) -> Step<T>,
        replies: Seq<Reply>,
        n: nat,
    ) -> Engine
        decreases n,
    {
        if n == 0 {
            self
        } else {
            let before = self.state_at(op, replies, (n - 1) as nat);
            match op(replies.take(n - 1)) {
                Step::Call(call) => before.apply(call, replies[n - 1]),
                Step::Done(_) => before,
            }
        }
    }

    /// The state after the operation `op` has been answered with `replies`, one reply for
    /// each call it made.
    pub open spec fn after<T>(self, op: spec_fn(Seq<Reply>) -> Step<T>, replies: Seq<Reply>) -> Engine {
        self.state_at(op, replies, replies.len())
    }

    /// Whether every call that `op` makes while it is answered with `replies`, and the one
    /// it makes next, is allowed in the state it is made in.
    pub open spec fn permits<T>(self, op: spec_fn(Seq<Reply>) -> Step<T>, replies: Seq<Reply>) -> bool {
        forall|n: nat|
            n <= replies.len() ==> (#[trigger] op(replies.take(n as int)) matches Step::Call(call)
                ==> self.state_at(op, replies, n).allows(call))
    }
}

/// Whether `replies` answer `op` from its first call to its completion: the operation asks
/// for a call after each proper prefix and is done after the whole.
pub open spec fn completes<T>(op: spec_fn(Seq<Reply>) -> Step<T>, replies: Seq<Reply>) -> bool {
    &&& op(replies) is Done
    &&& forall|n: int| 0 <= n < replies.len() ==> #[trigger] op(replies.take(n)) is Call
}

/// Whether `op`, answered with `replies`, makes from its call number `k` on the calls that
/// `part` makes when it is answered with the replies from `k` on, for as long as `part` has
/// calls to make.
pub open spec fn follows<T, U>(
    op: spec_fn(Seq<Reply>) -> Step<T>,
    part: spec_fn(Seq<Reply>) -> Step<U>,
    replies: Seq<Reply>,
    k: nat,
) -> bool {
    forall|j: nat|
        k + j <= replies.len() ==> (#[trigger] part(replies.skip(k as int).take(j as int)) matches Step::Call(
            call,
        ) ==> op(replies.take((k + j) as int)) == Step::<T>::Call(call))
}

/// The state after `n` calls depends on the first `n` replies only.
pub proof fn lemma_state_at_prefix<T>(
    engine: Engine,
    op: spec_fn(Seq<Reply>) -> Step<T>,
    replies: Seq<Reply>,
    n: nat,
    j: nat,
)
    requires
        j <= n <= replies.len(),
    ensures
        engine.state_at(op, replies.take(n as int), j) == engine.state_at(op, replies, j),
    decreases j,
{
    if j > 0 {
        lemma_state_at_prefix(engine, op, replies, n, (j - 1) as nat);
        assert(replies.take(n as int).take(j - 1) == replies.take(j - 1));
    }
}

/// While `op` follows `part`, the states it passes through are those that `part` passes
/// through, begun in the state that `op` had reached when it took `part` up.
pub proof fn lemma_follows<T, U>(
    engine: Engine,
    op: spec_fn(Seq<Reply>) -> Step<T>,
    part: spec_fn(Seq<Reply>) -> Step<U>,
    replies: Seq<Reply>,
    k: nat,
    n: nat,
)
    requires
        k + n <= replies.len(),
        follows(op, part, replies, k),
        forall|j: nat| j < n ==> #[trigger] part(replies.skip(k as int).take(j as int)) is Call,
    ensures
        engine.state_at(op, replies, k + n) == engine.state_at(op, replies, k).state_at(
            part,
            replies.skip(k as int),
            n,
        ),
    decreases n,
{
    if n > 0 {
        let j = (n - 1) as nat;
        lemma_follows(engine, op, part, replies, k, j);
        assert(part(replies.skip(k as int).take(j as int)) is Call);
        assert(replies.skip(k as int)[j as int] == replies[(k + j) as int]);
    }
}

/// While `op` follows `part`, the calls it makes are allowed where those of `part` are.
pub proof fn lemma_follows_permits<T, U>(
    engine: Engine,
    op: spec_fn(Seq<Reply>) -> Step<T>,
    part: spec_fn(Seq<Reply>) -> Step<U>,
    replies: Seq<Reply>,
    k: nat,
    n: nat,
)
    requires
        k + n <= replies.len(),
        follows(op, part, replies, k),
        forall|j: nat| j < n ==> #[trigger] part(replies.skip(k as int).take(j as int)) is Call,
        engine.state_at(op, replies, k).permits(part, replies.skip(k as int).take(n as int)),
    ensures
        forall|j: nat|
            j < n ==> (#[trigger] op(replies.take((k + j) as int)) matches Step::Call(call)
                && engine.state_at(op, replies, k + j).allows(call)),
{
    let rest = replies.skip(k as int);
    let read = rest.take(n as int);
    let begun = engine.state_at(op, replies, k);
    assert forall|j: nat| j < n implies (#[trigger] op(replies.take((k + j) as int)) matches Step::Call(
        call,
    ) && engine.state_at(op, replies, k + j).allows(call)) by {
        assert forall|i: nat| i < j implies #[trigger] part(rest.take(i as int)) is Call by {}
        lemma_follows(engine, op, part, replies, k, j);
        lemma_state_at_prefix(begun, part, rest, n, j);
        assert(read.take(j as int) == rest.take(j as int));
        assert(part(rest.take(j as int)) is Call);
        assert(part(read.take(j as int)) is Call);
    }
}

/// An operation that, after its first `k` calls, follows `part` to the end is safe where
/// its first `k` calls and `part` are, and ends in the state in which `part` ends.
pub proof fn lemma_ends_in_part<T, U>(
    engine: Engine,
    op: spec_fn(Seq<Reply>) -> Step<T>,
    part: spec_fn(Seq<Reply>) -> Step<U>,
    replies: Seq<Reply>,
    k: nat,
)
    requires
        k <= replies.len(),
        op(replies) is Done,
        follows(op, part, replies, k),
        completes(part, replies.skip(k as int)),
        engine.state_at(op, replies, k).permits(part, replies.skip(k as int)),
        forall|m: nat|
            m < k ==> (#[trigger] op(replies.take(m as int)) matches Step::Call(call)
                ==> engine.state_at(op, replies, m).allows(call)),
    ensures
        engine.permits(op, replies),
        engine.after(op, replies) == engine.state_at(op, replies, k).after(
            part,
            replies.skip(k as int),
        ),
{
    let rest = replies.skip(k as int);
    let n = rest.len();
    assert(rest.take(n as int) == rest);
    assert(replies.take(replies.len() as int) == replies);
    assert forall|j: nat| j < n implies #[trigger] part(rest.take(j as int)) is Call by {}
    lemma_follows(engine, op, part, replies, k, n);
    lemma_follows_permits(engine, op, part, replies, k, n);
    assert forall|m: nat| m <= replies.len() implies (#[trigger] op(
        replies.take(m as int),
    ) matches Step::Call(call) ==> engine.state_at(op, replies, m).allows(call)) by {
        if k <= m < k + n {
            let j = (m - k) as nat;
            assert(op(replies.take((k + j) as int)) is Call);
        }
    }
}

/// What can be done to a handle once it exists.
pub enum HandleOp {
    /// Make a second handle to the same thing.
    Clone,
    /// End a handle.
    Drop,
}

/// The number of clones among `ops`.
pub open spec fn clones(ops: Seq<HandleOp>) -> nat
    decreases ops.len(),
{
    if ops.len() == 0 {
        0
    } else if ops.last() is Clone {
        clones(ops.drop_last()) + 1
    } else {
        clones(ops.drop_last())
    }
}

/// The number of drops among `ops`.
pub open spec fn drops(ops: Seq<HandleOp>) -> nat
    decreases ops.len(),
{
    if ops.len() == 0 {
        0
    } else if ops.last() is Drop {
        drops(ops.drop_last()) + 1
    } else {
        drops(ops.drop_last())
    }
}

/// Whether `ops` can be carried out on handles when there are `start` of them at first:
/// each clone and each drop finds a handle to act on.
pub open spec fn finds_handles(start: nat, ops: Seq<HandleOp>) -> bool {
    forall|n: int|
        0 <= n < ops.len() ==> start + clones(#[trigger] ops.take(n)) - drops(ops.take(n)) > 0
}

} // verus!
