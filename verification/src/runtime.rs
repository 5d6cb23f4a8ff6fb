//! Engine instances: who keeps one alive, and who may only look whether it still is.
use vstd::prelude::*;
use crate::engine::{Call, Reply, Step};
use crate::model::{completes, Engine};

verus! {

/// The host's record of one engine instance.
///
/// The instance lives for as long as it has owners: each [`Runtime`] and each context made
/// from one is an owner. When the last owner is gone the engine is torn down, and the record
/// stays behind to tell every [`WeakRuntime`] that asks.
#[derive(Debug, PartialEq, Eq)]
pub struct Instance {
    id: u64,
    owners: u64,
}

/// What an [`Instance`] records.
pub struct InstanceView {
    /// The address of the engine instance.
    pub id: u64,
    /// How many own the instance.
    pub owners: nat,
}

/// An owning reference to an engine instance. Not `Clone`: [`Runtime::clone`] enters the new
/// owner in the record, [`Runtime::drop`] strikes one out.
#[derive(Debug, PartialEq, Eq, Structural)]
pub struct Runtime {
    id: u64,
}

/// A reference to an engine instance that does not keep it alive.
#[derive(Clone, Copy, Debug, PartialEq, Eq, Structural)]
pub struct WeakRuntime {
    id: u64,
}

impl InstanceView {
    /// Whether the engine instance is still there.
    pub open spec fn alive(self) -> bool {
        self.owners > 0
    }

    /// Whether a reference to the instance `id` can become one more owner of this one.
    pub open spec fn grants(self, id: u64) -> bool {
        self.id == id && self.alive() && self.owners < u64::MAX
    }

    /// The record after a reference to the instance `id` asked to become an owner.
    pub open spec fn retained(self, id: u64) -> InstanceView {
        if self.grants(id) {
            InstanceView { owners: self.owners + 1, ..self }
        } else {
            self
        }
    }

    /// The record after an owner of the instance `id` went away.
    pub open spec fn released(self, id: u64) -> InstanceView {
        if self.id == id && self.alive() {
            InstanceView { owners: (self.owners - 1) as nat, ..self }
        } else {
            self
        }
    }
}

impl View for Instance {
    type V = InstanceView;

    closed spec fn view(&self) -> InstanceView {
        InstanceView { id: self.id, owners: self.owners as nat }
    }
}

impl Instance {
    /// The record of a newly made engine instance at the address `id`, with its first owner.
    pub fn new(id: u64) -> (r: (Instance, Runtime))
        ensures
            r.0@ == (InstanceView { id, owners: 1 }),
            r.1.id() == id,
    {
        (Instance { id, owners: 1 }, Runtime { id })
    }

    /// Whether the engine instance is still there.
    pub fn is_alive(&self) -> (r: bool)
        ensures
            r == self@.alive(),
    {
        self.owners > 0
    }

    /// How many own the instance.
    pub fn owners(&self) -> (r: u64)
        ensures
            r == self@.owners,
    {
        self.owners
    }

    fn retain(&mut self, id: u64) -> (r: Option<Runtime>)
        ensures
            final(self)@ == old(self)@.retained(id),
            r is Some <==> old(self)@.grants(id),
            r matches Some(runtime) ==> runtime.id() == id,
    {
        if self.id == id && self.owners > 0 && self.owners < u64::MAX {
            self.owners = self.owners + 1;
            Some(Runtime { id })
        } else {
            None
        }
    }
}

impl Runtime {
    pub closed spec fn spec_id(&self) -> u64 {
        self.id
    }

    /// The address of the engine instance.
    #[verifier::when_used_as_spec(spec_id)]
    pub fn id(&self) -> (r: u64)
        ensures
            r == self.spec_id(),
    {
        self.id
    }

    /// A reference to the same instance that does not keep it alive.
    pub fn weak(&self) -> (r: WeakRuntime)
        ensures
            r.id() == self.id(),
    {
        WeakRuntime { id: self.id }
    }

    /// One more owner of the same instance, entered in its record. `None`, and the record
    /// unchanged, if `instance` is the record of another instance or cannot count a further
    /// owner.
    pub fn clone(&self, instance: &mut Instance) -> (r: Option<Runtime>)
        ensures
            final(instance)@ == old(instance)@.retained(self.id()),
            r is Some <==> old(instance)@.grants(self.id()),
            r matches Some(runtime) ==> runtime.id() == self.id(),
    {
        instance.retain(self.id)
    }

    /// Ends this owner. Returns whether it was the last: if so, the engine instance is to be
    /// torn down now. The record of another instance is left as it is.
    pub fn drop(self, instance: &mut Instance) -> (last: bool)
        ensures
            final(instance)@ == old(instance)@.released(self.id()),
            last == (old(instance)@.id == self.id() && old(instance)@.owners == 1),
    {
        if instance.id == self.id && instance.owners > 0 {
            instance.owners = instance.owners - 1;
            instance.owners == 0
        } else {
            false
        }
    }

    /// Dump all atoms to the standard output. Meant for debugging only.
    pub fn debug_dump_atoms<'a>(&self, log: &[Reply]) -> (r: Step<'a, ()>)
        ensures
            r == locked_step(Call::DumpAtoms, log@),
    {
        locked(Call::DumpAtoms, log)
    }

    /// Has the engine poll the host's interrupt handler from now on, or, with `false`, not
    /// any longer. The handler itself stays with the host, which passes each of its answers
    /// through [`Interrupt::poll`](crate::interrupt::Interrupt::poll).
    pub fn set_interrupt_handler<'a>(&self, installed: bool, log: &[Reply]) -> (r: Step<'a, ()>)
        ensures
            r == locked_step(Call::SetInterruptHandler(installed), log@),
    {
        locked(Call::SetInterruptHandler(installed), log)
    }
}

/// One call made under the instance lock: the lock is taken, the call made, the lock
/// released.
pub open spec fn locked_step<'a>(call: Call<'a>, log: Seq<Reply>) -> Step<'a, ()> {
    if log.len() == 0 {
        Step::Call(Call::Lock)
    } else if log.len() == 1 {
        Step::Call(call)
    } else if log.len() == 2 {
        Step::Call(Call::Unlock)
    } else {
        Step::Done(())
    }
}

/// One call made under the instance lock, as an operation.
pub open spec fn locked_op<'a>(call: Call<'a>) -> spec_fn(Seq<Reply>) -> Step<'a, ()> {
    |log: Seq<Reply>| locked_step(call, log)
}

fn locked<'a>(call: Call<'a>, log: &[Reply]) -> (r: Step<'a, ()>)
    ensures
        r == locked_step(call, log@),
{
    if log.len() == 0 {
        Step::Call(Call::Lock)
    } else if log.len() == 1 {
        Step::Call(call)
    } else if log.len() == 2 {
        Step::Call(Call::Unlock)
    } else {
        Step::Done(())
    }
}

impl WeakRuntime {
    pub closed spec fn spec_id(&self) -> u64 {
        self.id
    }

    /// The address the engine instance has or had.
    #[verifier::when_used_as_spec(spec_id)]
    pub fn id(&self) -> (r: u64)
        ensures
            r == self.spec_id(),
    {
        self.id
    }

    /// An owning reference to the instance, if it is still there. `None`, and the record
    /// unchanged, once the instance has been torn down.
    pub fn try_ref(&self, instance: &mut Instance) -> (r: Option<Runtime>)
        ensures
            final(instance)@ == old(instance)@.retained(self.id()),
            r is Some <==> old(instance)@.grants(self.id()),
            r matches Some(runtime) ==> runtime.id() == self.id(),
    {
        instance.retain(self.id)
    }
}

/// What [`setup_dump_rc`] answers to a log of replies.
pub open spec fn setup_dump_rc_step<'a>(out_file: &'a str, log: Seq<Reply>) -> Step<'a, ()> {
    if log.len() == 0 {
        Step::Call(Call::SetUpRefCountTracing(out_file))
    } else {
        Step::Done(())
    }
}

/// Has the engine trace its reference counting into the file `out_file`.
///
/// The name goes to the engine as a string that ends at its first NUL character, so it must
/// hold none.
pub fn setup_dump_rc<'a>(out_file: &'a str, log: &[Reply]) -> (r: Step<'a, ()>)
    requires
        !out_file@.contains('\0'),
    ensures
        r == setup_dump_rc_step(out_file, log@),
{
    if log.len() == 0 {
        Step::Call(Call::SetUpRefCountTracing(out_file))
    } else {
        Step::Done(())
    }
}

/// What one asks of an instance's record.
pub enum Claim {
    /// A reference to the instance at this address asks to become an owner: a clone of a
    /// [`Runtime`], or [`WeakRuntime::try_ref`].
    Retain(u64),
    /// An owner of the instance at this address goes away.
    Release(u64),
}

impl InstanceView {
    /// The record after `claims` were made on it one after the other.
    pub open spec fn after(self, claims: Seq<Claim>) -> InstanceView
        decreases claims.len(),
    {
        if claims.len() == 0 {
            self
        } else {
            let before = self.after(claims.drop_last());
            match claims.last() {
                Claim::Retain(id) => before.retained(id),
                Claim::Release(id) => before.released(id),
            }
        }
    }
}

/// Once the last owner of an instance is gone, the instance stays gone: whatever is asked
/// of its record afterwards, no reference to it becomes an owner again, a weak one
/// included, and the record does not change.
pub proof fn law_gone_stays_gone(record: InstanceView, claims: Seq<Claim>, id: u64)
    requires
        !record.alive(),
    ensures
        record.after(claims) == record,
        !record.after(claims).grants(id),
    decreases claims.len(),
{
    if claims.len() > 0 {
        law_gone_stays_gone(record, claims.drop_last(), id);
    }
}

/// The drop of the only owner ends the instance, however many weak references are left:
/// no reference to it is granted ownership afterwards.
pub proof fn law_last_owner_ends_instance(id: u64)
    ensures
        !(InstanceView { id, owners: 1 }).released(id).alive(),
        !(InstanceView { id, owners: 1 }).released(id).grants(id),
{
}

/// A call that the host makes on an instance from outside any context is made under the
/// lock: it is safe when the lock is free, and leaves the engine as it was, the lock
/// released again.
pub proof fn law_call_under_lock<'a>(engine: Engine, call: Call<'a>, replies: Seq<Reply>)
    requires
        !engine.locked,
        !engine.pending,
        call is DumpAtoms || call is SetInterruptHandler,
        completes(locked_op(call), replies),
    ensures
        engine.permits(locked_op(call), replies),
        engine.after(locked_op(call), replies) == engine,
{
    let op = locked_op(call);
    reveal_with_fuel(Engine::state_at, 4);
    assert(replies.take(replies.len() as int) == replies);
    assert forall|n: int| 0 <= n <= 3 && n < replies.len() implies #[trigger] op(
        replies.take(n),
    ) is Call by {}
    assert(replies.len() <= 3) by {
        if replies.len() > 3 {
            assert(op(replies.take(3)) is Call);
        }
    }
}

} // verus!
