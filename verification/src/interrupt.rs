//! Cooperative cancellation of running scripts.
//!
//! While it runs a script the engine polls a callback of the host from time to time;
//! when the callback answers `true`, the engine aborts the script. The callback runs inside
//! the engine call that is in progress, so with the instance lock held: it must not try to
//! take the lock, and gets nothing to take it with.
use vstd::prelude::*;

verus! {

/// The record of whether the interrupt mechanism has aborted execution.
///
/// Every answer that the host's handler gives the engine goes through [`Interrupt::poll`].
/// The bridge that reads a pending exception asks [`Interrupt::take`] to tell an aborted
/// script from one that threw.
#[derive(Debug, PartialEq, Eq)]
pub struct Interrupt {
    fired: bool,
}

/// A handler that lets a number of polls pass and aborts execution from then on.
#[derive(Debug, PartialEq, Eq)]
pub struct Countdown {
    left: u64,
}

impl View for Interrupt {
    /// Whether execution was aborted since the record was last taken.
    type V = bool;

    closed spec fn view(&self) -> bool {
        self.fired
    }
}

impl Interrupt {
    pub fn new() -> (r: Interrupt)
        ensures
            !r@,
    {
        Interrupt { fired: false }
    }

    /// Records the answer `abort` of the handler to one poll, and hands it on to the engine.
    pub fn poll(&mut self, abort: bool) -> (r: bool)
        ensures
            r == abort,
            final(self)@ == (old(self)@ || abort),
    {
        if abort {
            self.fired = true;
        }
        abort
    }

    /// Whether execution was aborted since this was last asked. Resets the record.
    pub fn take(&mut self) -> (r: bool)
        ensures
            r == old(self)@,
            !final(self)@,
    {
        let fired = self.fired;
        self.fired = false;
        fired
    }
}

impl View for Countdown {
    /// The number of polls that still pass.
    type V = nat;

    closed spec fn view(&self) -> nat {
        self.left as nat
    }
}

impl Countdown {
    /// A handler that answers `false` to the first `polls` polls and `true` to every poll
    /// after them.
    pub fn new(polls: u64) -> (r: Countdown)
        ensures
            r@ == polls,
    {
        Countdown { left: polls }
    }

    /// The answer to one poll: whether to abort execution now.
    pub fn call(&mut self) -> (abort: bool)
        ensures
            abort == (old(self)@ == 0),
            final(self)@ == left_after(old(self)@, 1),
    {
        reveal_with_fuel(left_after, 2);
        if self.left == 0 {
            true
        } else {
            self.left = self.left - 1;
            false
        }
    }
}

/// The number of polls that still pass after `calls` polls, when `left` passed before.
pub open spec fn left_after(left: nat, calls: nat) -> nat
    decreases calls,
{
    if calls == 0 {
        left
    } else if left_after(left, (calls - 1) as nat) == 0 {
        0
    } else {
        (left_after(left, (calls - 1) as nat) - 1) as nat
    }
}

/// A countdown over `polls` polls answers `false` to each of the first `polls` polls and
/// `true` to every one after them: poll number `calls + 1` aborts exactly if `calls` is at
/// least `polls`.
pub proof fn law_countdown_fires(polls: nat, calls: nat)
    ensures
        left_after(polls, calls) == (if calls <= polls {
            polls - calls
        } else {
            0
        }),
        (left_after(polls, calls) == 0) == (calls >= polls),
    decreases calls,
{
    if calls > 0 {
        law_countdown_fires(polls, (calls - 1) as nat);
    }
}

} // verus!
