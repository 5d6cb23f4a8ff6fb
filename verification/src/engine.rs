//! The boundary to the scripting engine.
//!
//! The engine is reached only through its foreign interface, which this crate never calls
//! itself. Every operation of the crate is instead a function of the replies the engine has
//! given so far: handed the log of replies, it answers either with the next [`Call`] to make
//! or with its result. The host makes the call, appends the engine's [`Reply`] to the log and
//! asks again:
//!
//! ```ignore
//! let mut log = Vec::new();
//! let text = loop {
//!     match atom.to_string(&log) {
//!         Step::Call(call) => log.push(perform(call)),
//!         Step::Done(result) => break result,
//!     }
//! };
//! ```
//!
//! The complete list of engine calls an operation makes is therefore part of its contract.
//! A reply that is not of the kind its call is answered by counts as the failure that the
//! call can report.
use vstd::prelude::*;

verus! {

/// An interned property key as the engine numbers it.
pub type JSAtom = u32;

/// The atom the engine returns when it could not make one.
pub const JS_ATOM_NULL: JSAtom = 0;

/// A tagged engine value.
///
/// Primitives carry their payload; `Float64` carries the bits of the number. `Ref` stands for
/// every value the engine keeps on its heap and counts references to (strings, objects,
/// functions, symbols): `tag` is the engine's tag for the kind of value, `ptr` its address.
/// `Exception` is the sentinel an engine call returns in place of a value when it failed.
#[derive(Clone, Copy, Debug, PartialEq, Eq, Structural)]
pub enum JSValue {
    Int(i32),
    Bool(bool),
    Null,
    Undefined,
    Uninitialized,
    Float64(u64),
    Exception,
    Ref { tag: i32, ptr: u64 },
}

/// A text buffer lent by the engine, with a host-owned copy of what it holds.
///
/// The buffer at `ptr` stays lent until it is handed back with [`Call::FreeCString`].
#[derive(Clone, Debug, PartialEq, Eq)]
pub struct TextBuf {
    pub ptr: u64,
    pub text: String,
}

/// One call into the engine, or one question to the host state kept beside it.
#[derive(Clone, Copy, Debug, PartialEq, Eq)]
pub enum Call<'a> {
    /// Coerce a value to a property key. May run script code. Answered by [`Reply::Atom`].
    ValueToAtom(JSValue),
    /// The key for an array index. Answered by [`Reply::Atom`].
    NewAtomUInt32(u32),
    /// Intern a name. Answered by [`Reply::Atom`].
    NewAtomLen(&'a str),
    /// The string an atom stands for, as a new reference. Answered by [`Reply::Value`].
    AtomToString(JSAtom),
    /// Take one more reference to an atom. Answered by [`Reply::Atom`] with the same atom.
    DupAtom(JSAtom),
    /// Give up one reference to an atom. Answered by [`Reply::Unit`].
    FreeAtom(JSAtom),
    /// A new engine string. Answered by [`Reply::Value`].
    NewStringLen(&'a str),
    /// Take one more reference to a value. Answered by [`Reply::Value`] with the same value.
    DupValue(JSValue),
    /// Give up one reference to a value. Answered by [`Reply::Unit`].
    FreeValue(JSValue),
    /// Borrow the text of a value, converting it to a string if need be. May run script
    /// code. Answered by [`Reply::Text`].
    ToCStringLen(JSValue),
    /// Hand a lent text buffer back. Answered by [`Reply::Unit`].
    FreeCString(u64),
    /// Take the pending exception out of the engine, which empties the slot. Answered by
    /// [`Reply::Value`]; the value is `Uninitialized` when nothing was pending.
    GetException,
    /// Ask the interrupt mechanism whether it has aborted execution since it was last
    /// asked, and reset it. Answered by [`Reply::Bool`].
    TakeInterrupt,
    /// Evaluate a script. Answered by [`Reply::Value`].
    Eval(&'a str),
    /// Run one job of the engine's queue. Answered by [`Reply::Int`]: zero when the queue
    /// was empty, positive when a job ran, negative when the job failed.
    ExecutePendingJob,
    /// Acquire the instance lock, waiting for it if need be. Answered by [`Reply::Unit`].
    Lock,
    /// Release the instance lock. Answered by [`Reply::Unit`].
    Unlock,
    /// Have the engine poll the host's interrupt handler while it runs scripts, or have it
    /// stop polling. Answered by [`Reply::Unit`].
    SetInterruptHandler(bool),
    /// Print the atom table. Answered by [`Reply::Unit`].
    DumpAtoms,
    /// Trace reference counts into the named file. Answered by [`Reply::Unit`].
    SetUpRefCountTracing(&'a str),
    /// The source line of a bytecode position. Answered by [`Reply::Int`].
    FindLineNum { bytecode: u64, pc: u32 },
    /// The source column of a bytecode position. Answered by [`Reply::Int`].
    FindColumnNum { bytecode: u64, pc: u32 },
}

/// What came back from a [`Call`].
#[derive(Clone, Debug, PartialEq, Eq)]
pub enum Reply {
    /// The call returns nothing.
    Unit,
    Atom(JSAtom),
    Value(JSValue),
    /// A lent buffer, or `None` where the engine returned a null pointer.
    Text(Option<TextBuf>),
    Int(i32),
    Bool(bool),
}

/// The answer of an operation to the log of replies it was handed.
#[derive(Clone, Debug, PartialEq, Eq)]
pub enum Step<'a, T> {
    /// Make this call, append its reply to the log, and ask again.
    Call(Call<'a>),
    /// The operation is complete.
    Done(T),
}

impl JSValue {
    /// Whether the engine counts references to this value.
    pub open spec fn counted(self) -> bool {
        self is Ref
    }

    /// Whether this is no value at all: the failure sentinel, or the filler of an empty
    /// slot.
    pub open spec fn absent(self) -> bool {
        self is Exception || self is Uninitialized
    }

    pub fn is_absent(&self) -> (r: bool)
        ensures
            r == self.absent(),
    {
        matches!(self, JSValue::Exception | JSValue::Uninitialized)
    }

    pub fn is_exception(&self) -> (r: bool)
        ensures
            r == (*self == JSValue::Exception),
    {
        matches!(self, JSValue::Exception)
    }

    pub fn has_ref_count(&self) -> (r: bool)
        ensures
            r == self.counted(),
    {
        matches!(self, JSValue::Ref { .. })
    }
}

impl Reply {
    /// The atom a reply carries. A reply of another kind counts as the null atom.
    pub open spec fn spec_atom(&self) -> JSAtom {
        match *self {
            Reply::Atom(a) => a,
            _ => JS_ATOM_NULL,
        }
    }

    /// The value a reply carries. A reply of another kind counts as the failure sentinel.
    pub open spec fn spec_value(&self) -> JSValue {
        match *self {
            Reply::Value(v) => v,
            _ => JSValue::Exception,
        }
    }

    /// The buffer a reply carries. A reply of another kind counts as a null pointer.
    pub open spec fn spec_text(&self) -> Option<TextBuf> {
        match *self {
            Reply::Text(t) => t,
            _ => None,
        }
    }

    /// The integer a reply carries. A reply of another kind counts as -1.
    pub open spec fn spec_number(&self) -> i32 {
        match *self {
            Reply::Int(n) => n,
            _ => -1i32,
        }
    }

    /// The flag a reply carries. A reply of another kind counts as `false`.
    pub open spec fn spec_flag(&self) -> bool {
        match *self {
            Reply::Bool(b) => b,
            _ => false,
        }
    }

    #[verifier::when_used_as_spec(spec_atom)]
    pub fn atom(&self) -> (r: JSAtom)
        ensures
            r == self.spec_atom(),
    {
        match self {
            Reply::Atom(a) => *a,
            _ => JS_ATOM_NULL,
        }
    }

    #[verifier::when_used_as_spec(spec_value)]
    pub fn value(&self) -> (r: JSValue)
        ensures
            r == self.spec_value(),
    {
        match self {
            Reply::Value(v) => *v,
            _ => JSValue::Exception,
        }
    }

    #[verifier::when_used_as_spec(spec_text)]
    pub fn text(&self) -> (r: Option<TextBuf>)
        ensures
            r == self.spec_text(),
    {
        match self {
            Reply::Text(Some(t)) => Some(TextBuf { ptr: t.ptr, text: t.text.clone() }),
            _ => None,
        }
    }

    #[verifier::when_used_as_spec(spec_number)]
    pub fn number(&self) -> (r: i32)
        ensures
            r == self.spec_number(),
    {
        match self {
            Reply::Int(n) => *n,
            _ => -1,
        }
    }

    #[verifier::when_used_as_spec(spec_flag)]
    pub fn flag(&self) -> (r: bool)
        ensures
            r == self.spec_flag(),
    {
        match self {
            Reply::Bool(b) => *b,
            _ => false,
        }
    }
}

} // verus!
