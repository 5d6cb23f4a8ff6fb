//! A safety layer between host code and an embedded, single-threaded, reference-counted
//! scripting engine.
//!
//! The engine enforces nothing by itself: references must be taken and given back in
//! matching pairs, a failed call must have its exception read before the next call, and an
//! instance must not be touched from two places at once. This crate holds the rules. It
//! never calls the engine; each operation says which calls are to be made, one at a time,
//! and what their replies amount to (see [`engine`]). That the calls of every operation keep
//! the rules is proved against the [`model`] of the engine.
//!
//! # Handles
//!
//! [`Value`] and [`Atom`] own one reference each to what they stand for. They are tied to
//! the [`Ctx`] that made them: to mix handles of two contexts is for the verifier to
//! refuse, and no handle outlives its [`Context`].
//!
//! # Instances
//!
//! A [`Runtime`] owns an engine instance, together with every other `Runtime` and every
//! `Context` of the same instance. A [`WeakRuntime`] only finds out whether the instance is
//! still there. Long-running scripts are cancelled through the [`interrupt`] mechanism.
//! Where the host runs lightweight tasks, the instance lock is a [`TaskLock`], the engine's
//! jobs are drained between the tasks' suspension points (see [`jobs`]), and the futures of
//! the host settle promises through a [`Bridge`].
pub mod atom;
pub mod bytecode;
pub mod context;
pub mod engine;
pub mod error;
pub mod interrupt;
pub mod jobs;
pub mod lock;
pub mod model;
pub mod promise;
pub mod runtime;
pub mod value;

pub use atom::Atom;
pub use bytecode::JSFunctionBytecode;
pub use context::{Context, Ctx};
pub use engine::{Call, JSAtom, JSValue, Reply, Step, TextBuf, JS_ATOM_NULL};
pub use error::Error;
pub use interrupt::{Countdown, Interrupt};
pub use lock::{Acquired, TaskLock};
pub use promise::Bridge;
pub use runtime::{setup_dump_rc, Instance, Runtime, WeakRuntime};
pub use value::{JsString, Value};
