//! The cooperative flavour of the instance lock.
//!
//! The engine is not safe to use from two places at once, so whatever touches an instance
//! holds its lock. Where the host runs lightweight tasks, a task that finds the lock taken
//! must not block its thread: it is queued and suspended, and woken when the lock is handed
//! to it. [`TaskLock`] keeps the book on who holds the lock and who waits; suspending and
//! waking are the host's business. The lock is handed on in the order of arrival.
use vstd::prelude::*;

verus! {

/// Who holds an instance lock and who waits for it.
pub struct TaskLock {
    holder: Option<u64>,
    waiting: Vec<u64>,
}

/// What a [`TaskLock`] records.
pub struct TaskLockView {
    /// The task that holds the lock.
    pub holder: Option<u64>,
    /// The tasks that wait for the lock, the one that came first in front.
    pub waiting: Seq<u64>,
}

/// The answer to a task that asks for the lock.
#[derive(Clone, Copy, Debug, PartialEq, Eq, Structural)]
pub enum Acquired {
    /// The lock was free and is now held by the task.
    Granted,
    /// The lock is taken. The task is queued and is to be suspended until the lock is handed
    /// to it.
    Queued,
    /// The task holds the lock already, or waits for it already. The lock is not reentrant:
    /// to wait here would be to wait for oneself.
    Refused,
}

impl TaskLockView {
    /// Nobody waits for a free lock, nobody waits twice, and the holder does not wait.
    pub open spec fn wf(self) -> bool {
        &&& self.holder is None ==> self.waiting.len() == 0
        &&& self.waiting.no_duplicates()
        &&& self.holder matches Some(task) ==> !self.waiting.contains(task)
    }

    /// Whether the task holds the lock or waits for it.
    pub open spec fn involved(self, task: u64) -> bool {
        self.holder == Some(task) || self.waiting.contains(task)
    }

    /// The answer to `task` asking for the lock.
    pub open spec fn answer(self, task: u64) -> Acquired {
        if self.involved(task) {
            Acquired::Refused
        } else if self.holder is None {
            Acquired::Granted
        } else {
            Acquired::Queued
        }
    }

    /// The record after `task` asked for the lock.
    pub open spec fn acquired(self, task: u64) -> TaskLockView {
        match self.answer(task) {
            Acquired::Refused => self,
            Acquired::Granted => TaskLockView { holder: Some(task), ..self },
            Acquired::Queued => TaskLockView { waiting: self.waiting.push(task), ..self },
        }
    }

    /// The record after `task` gave the lock up: if it held the lock, the task that waited
    /// longest holds it now.
    pub open spec fn released(self, task: u64) -> TaskLockView {
        if self.holder != Some(task) {
            self
        } else if self.waiting.len() == 0 {
            TaskLockView { holder: None, ..self }
        } else {
            TaskLockView { holder: Some(self.waiting[0]), waiting: self.waiting.remove(0) }
        }
    }

    /// The record after `task` gave up waiting.
    pub open spec fn cancelled(self, task: u64) -> TaskLockView {
        if self.waiting.contains(task) {
            TaskLockView { waiting: self.waiting.remove(self.waiting.index_of(task)), ..self }
        } else {
            self
        }
    }

    /// The record after the lock was given up `times` times, each time by the task that
    /// held it.
    pub open spec fn handed_on(self, times: nat) -> TaskLockView
        decreases times,
    {
        if times == 0 {
            self
        } else {
            let before = self.handed_on((times - 1) as nat);
            match before.holder {
                Some(task) => before.released(task),
                None => before,
            }
        }
    }
}

impl View for TaskLock {
    type V = TaskLockView;

    closed spec fn view(&self) -> TaskLockView {
        TaskLockView { holder: self.holder, waiting: self.waiting@ }
    }
}

impl TaskLock {
    /// A free lock.
    pub fn new() -> (r: TaskLock)
        ensures
            r@ == (TaskLockView { holder: None, waiting: Seq::empty() }),
            r@.wf(),
    {
        TaskLock { holder: None, waiting: Vec::new() }
    }

    /// The task that holds the lock.
    pub fn holder(&self) -> (r: Option<u64>)
        ensures
            r == self@.holder,
    {
        self.holder
    }

    /// The place of `task` among the tasks that wait.
    fn place(&self, task: u64) -> (r: Option<usize>)
        ensures
            r matches Some(i) ==> i < self@.waiting.len() && self@.waiting[i as int] == task,
            r is None ==> !self@.waiting.contains(task),
    {
        let mut i: usize = 0;
        while i < self.waiting.len()
            invariant
                i <= self.waiting@.len(),
                forall|j: int| 0 <= j < i ==> self.waiting@[j] != task,
            decreases self.waiting@.len() - i,
        {
            if self.waiting[i] == task {
                return Some(i);
            }
            i = i + 1;
        }
        None
    }

    /// `task` asks for the lock.
    pub fn acquire(&mut self, task: u64) -> (r: Acquired)
        requires
            old(self)@.wf(),
        ensures
            final(self)@.wf(),
            r == old(self)@.answer(task),
            final(self)@ == old(self)@.acquired(task),
    {
        match self.holder {
            None => {
                assert(!self@.waiting.contains(task));
                self.holder = Some(task);
                Acquired::Granted
            },
            Some(holder) => {
                if holder == task {
                    return Acquired::Refused;
                }
                if self.place(task).is_some() {
                    return Acquired::Refused;
                }
                let ghost before = self.waiting@;
                self.waiting.push(task);
                proof {
                    assert forall|i: int, j: int|
                        0 <= i < self.waiting@.len() && 0 <= j < self.waiting@.len() && i
                            != j implies self.waiting@[i] != self.waiting@[j] by {
                        if i < before.len() {
                            assert(before[i] == self.waiting@[i]);
                        }
                        if j < before.len() {
                            assert(before[j] == self.waiting@[j]);
                        }
                    }
                    assert(!self.waiting@.contains(holder)) by {
                        if self.waiting@.contains(holder) {
                            let k = choose|k: int|
                                0 <= k < self.waiting@.len() && self.waiting@[k] == holder;
                            assert(before[k] == holder);
                        }
                    }
                }
                Acquired::Queued
            },
        }
    }

    /// `task` gives the lock up. Returns the task that holds the lock now and is to be
    /// woken, if there is one. A task that does not hold the lock changes nothing.
    pub fn release(&mut self, task: u64) -> (r: Option<u64>)
        requires
            old(self)@.wf(),
        ensures
            final(self)@.wf(),
            final(self)@ == old(self)@.released(task),
            r == (if old(self)@.holder == Some(task) {
                final(self)@.holder
            } else {
                None
            }),
    {
        let held = match self.holder {
            Some(holder) => holder == task,
            None => false,
        };
        if !held {
            return None;
        }
        if self.waiting.len() == 0 {
            self.holder = None;
            None
        } else {
            let ghost before = self.waiting@;
            let next = self.waiting.remove(0);
            self.holder = Some(next);
            proof {
                lemma_remove_keeps_distinct(before, 0);
            }
            Some(next)
        }
    }

    /// `task` gives up waiting for the lock. Returns whether it was waiting. The one who
    /// holds the lock and the order of the others stay as they are.
    pub fn cancel(&mut self, task: u64) -> (r: bool)
        requires
            old(self)@.wf(),
        ensures
            final(self)@.wf(),
            final(self)@ == old(self)@.cancelled(task),
            r == old(self)@.waiting.contains(task),
    {
        match self.place(task) {
            Some(i) => {
                let ghost before = self.waiting@;
                proof {
                    let k = before.index_of(task);
                    assert(before.contains(task));
                    assert(k == i);
                    lemma_remove_keeps_distinct(before, i as int);
                }
                self.waiting.remove(i);
                true
            },
            None => false,
        }
    }
}

/// A sequence without duplicates has none after an element is taken out, and holds what it
/// held but that element.
proof fn lemma_remove_keeps_distinct(s: Seq<u64>, i: int)
    requires
        s.no_duplicates(),
        0 <= i < s.len(),
    ensures
        s.remove(i).no_duplicates(),
        !s.remove(i).contains(s[i]),
        forall|x: u64| s.remove(i).contains(x) ==> s.contains(x),
{
    let r = s.remove(i);
    assert forall|a: int| 0 <= a < r.len() implies #[trigger] r[a] == s[if a < i {
        a
    } else {
        a + 1
    }] by {}
    assert forall|a: int, b: int| 0 <= a < r.len() && 0 <= b < r.len() && a != b implies r[a]
        != r[b] by {
        let a2 = if a < i {
            a
        } else {
            a + 1
        };
        let b2 = if b < i {
            b
        } else {
            b + 1
        };
        assert(r[a] == s[a2]);
        assert(r[b] == s[b2]);
    }
    assert forall|x: u64| r.contains(x) implies s.contains(x) && x != s[i] by {
        let a = choose|a: int| 0 <= a < r.len() && r[a] == x;
        let a2 = if a < i {
            a
        } else {
            a + 1
        };
        assert(r[a] == s[a2]);
    }
}

/// Whatever is asked of a lock, its record stays well formed: at most one task holds it,
/// and that task does not wait.
pub proof fn law_lock_stays_well_formed(lock: TaskLockView, task: u64)
    requires
        lock.wf(),
    ensures
        lock.acquired(task).wf(),
        lock.released(task).wf(),
        lock.cancelled(task).wf(),
{
    if lock.answer(task) == Acquired::Queued {
        let w = lock.waiting.push(task);
        assert forall|i: int, j: int| 0 <= i < w.len() && 0 <= j < w.len() && i != j implies w[i]
            != w[j] by {
            if i < lock.waiting.len() {
                assert(lock.waiting[i] == w[i]);
            }
            if j < lock.waiting.len() {
                assert(lock.waiting[j] == w[j]);
            }
        }
        if w.contains(lock.holder->0) {
            let k = choose|k: int| 0 <= k < w.len() && w[k] == lock.holder->0;
            assert(lock.waiting[k] == lock.holder->0);
        }
    }
    if lock.holder == Some(task) && lock.waiting.len() > 0 {
        lemma_remove_keeps_distinct(lock.waiting, 0);
    }
    if lock.waiting.contains(task) {
        let i = lock.waiting.index_of(task);
        lemma_remove_keeps_distinct(lock.waiting, i);
        if lock.waiting.remove(i).contains(lock.holder->0) {
        }
    }
}

/// A task gets the lock at once exactly if the lock is free, so two tasks never hold it
/// together; a task that waits for itself is turned away instead of queued.
pub proof fn law_lock_excludes(lock: TaskLockView, task: u64)
    requires
        lock.wf(),
    ensures
        lock.answer(task) == Acquired::Granted <==> lock.holder is None,
        lock.holder matches Some(other) ==> lock.acquired(task).holder == Some(other),
        lock.involved(task) ==> lock.answer(task) == Acquired::Refused && lock.acquired(task)
            == lock,
{
}

/// The lock is handed on in the order of arrival: the task with `ahead` tasks waiting in
/// front of it holds the lock once the lock was given up `ahead + 1` times, and the tasks
/// behind it still wait in their order.
pub proof fn law_lock_first_come_first_served(lock: TaskLockView, ahead: nat)
    requires
        lock.wf(),
        ahead < lock.waiting.len(),
    ensures
        lock.handed_on(ahead + 1) == (TaskLockView {
            holder: Some(lock.waiting[ahead as int]),
            waiting: lock.waiting.skip((ahead + 1) as int),
        }),
    decreases ahead,
{
    reveal_with_fuel(TaskLockView::handed_on, 2);
    if ahead == 0 {
        assert(lock.waiting.remove(0) == lock.waiting.skip(1));
    } else {
        law_lock_first_come_first_served(lock, (ahead - 1) as nat);
        let before = lock.handed_on(ahead);
        assert(before.waiting[0] == lock.waiting[ahead as int]);
        assert(before.waiting.remove(0) == lock.waiting.skip((ahead + 1) as int));
    }
}

} // verus!
