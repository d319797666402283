//! The protocol of the blocking spinlock.
//!
//! The lock is a flag and one slot for a task that waits. A caller that
//! cannot wait takes the lock by trying again and again; each failed try
//! wakes the task in the slot, so that a waiting task is not forgotten behind
//! a caller that spins. A task takes the lock by polling: a poll that finds
//! the lock taken registers the task in the slot, tries once more, and only
//! then lets the task wait. Giving the lock back clears the flag and wakes
//! nobody.
//!
//! The type here holds the state of one lock and says what each step does to
//! it. Every step takes the state by exclusive reference: what is proved is
//! the protocol, one step after the other.

use crate::task::waker::WakerSlot;
use crate::task::{Poll, TaskId};
use vstd::prelude::*;

verus! {

/// What one try of a caller that spins came to.
#[derive(Clone, Copy, Debug, PartialEq, Eq)]
pub enum LockAttempt {
    /// The lock was free and is now held by the caller.
    Acquired,
    /// The lock is held by someone else. `woken` is the task that was
    /// registered in the slot, to be marked as ready; the caller tries again.
    Contended { woken: Option<TaskId> },
}

/// The state of a lock.
#[derive(Clone, Copy, Debug, PartialEq, Eq, Structural)]
pub struct RawSpinlock {
    locked: bool,
    waker: WakerSlot,
}

impl RawSpinlock {
    /// Whether the lock is held.
    pub closed spec fn locked(&self) -> bool {
        self.locked
    }

    /// The task that is registered to be woken, if one is.
    pub closed spec fn waiter(&self) -> Option<TaskId> {
        self.waker.waiter()
    }

    /// A lock that nobody holds and on which nobody waits.
    pub fn new() -> (lock: RawSpinlock)
        ensures
            !lock.locked(),
            lock.waiter() is None,
    {
        RawSpinlock { locked: false, waker: WakerSlot::new() }
    }

    /// Takes the lock if it is free. The slot is left alone.
    pub fn try_lock(&mut self) -> (acquired: bool)
        ensures
            acquired == !old(self).locked(),
            final(self).locked(),
            final(self).waiter() == old(self).waiter(),
    {
        if self.locked {
            false
        } else {
            self.locked = true;
            true
        }
    }

    /// One try of a caller that spins: takes the lock if it is free, and else
    /// wakes the task in the slot.
    pub fn lock(&mut self) -> (res: LockAttempt)
        ensures
            final(self).locked(),
            !old(self).locked() ==> res == LockAttempt::Acquired && final(self).waiter() == old(self).waiter(),
            old(self).locked() ==> res == (LockAttempt::Contended { woken: old(self).waiter() })
                && final(self).waiter() is None,
    {
        if self.try_lock() {
            LockAttempt::Acquired
        } else {
            let woken = self.waker.wake();
            LockAttempt::Contended { woken }
        }
    }

    /// Gives the lock back. Nobody is woken: the slot is left alone.
    pub fn unlock(&mut self)
        ensures
            !final(self).locked(),
            final(self).waiter() == old(self).waiter(),
    {
        self.locked = false;
    }

    /// Tells whether the lock is held.
    pub fn is_locked(&self) -> (b: bool)
        ensures
            b == self.locked(),
    {
        self.locked
    }

    /// One poll of `task`, which wants the lock. Where the lock is free the
    /// task takes it. Else the task is registered in the slot, in place of
    /// any task that was there; the lock is tried once more, so that a
    /// release in between is not missed; and the task waits.
    pub fn poll(&mut self, task: TaskId) -> (res: Poll<()>)
        ensures
            final(self).locked(),
            !old(self).locked() ==> res == Poll::Ready(()) && final(self).waiter() == old(self).waiter(),
            old(self).locked() ==> res == Poll::<()>::Pending && final(self).waiter() == Some(task),
    {
        if self.try_lock() {
            return Poll::Ready(());
        }
        self.waker.register(task);
        if self.try_lock() {
            let _ = self.waker.take();
            Poll::Ready(())
        } else {
            Poll::Pending
        }
    }
}

/// A value behind a lock.
pub struct Spinlock<T> {
    raw: RawSpinlock,
    data: T,
}

impl<T> Spinlock<T> {
    /// The state of the lock.
    pub closed spec fn raw(&self) -> RawSpinlock {
        self.raw
    }

    /// The value behind the lock.
    pub closed spec fn value(&self) -> T {
        self.data
    }

    /// A free lock around `data`.
    pub fn new(data: T) -> (lock: Spinlock<T>)
        ensures
            !lock.raw().locked(),
            lock.raw().waiter() is None,
            lock.value() == data,
    {
        Spinlock { raw: RawSpinlock::new(), data }
    }

    /// One try of a caller that spins, as [`RawSpinlock::lock`].
    pub fn lock_sync(&mut self) -> (res: LockAttempt)
        ensures
            final(self).value() == old(self).value(),
            final(self).raw().locked(),
            !old(self).raw().locked() ==> res == LockAttempt::Acquired && final(self).raw().waiter()
                == old(self).raw().waiter(),
            old(self).raw().locked() ==> res == (LockAttempt::Contended {
                woken: old(self).raw().waiter(),
            }) && final(self).raw().waiter() is None,
    {
        self.raw.lock()
    }

    /// One poll of a task that wants the lock, as [`RawSpinlock::poll`].
    pub fn lock(&mut self, task: TaskId) -> (res: Poll<()>)
        ensures
            final(self).value() == old(self).value(),
            final(self).raw().locked(),
            !old(self).raw().locked() ==> res == Poll::Ready(()) && final(self).raw().waiter()
                == old(self).raw().waiter(),
            old(self).raw().locked() ==> res == Poll::<()>::Pending && final(self).raw().waiter()
                == Some(task),
    {
        self.raw.poll(task)
    }

    /// Takes the lock if it is free.
    pub fn try_lock(&mut self) -> (acquired: bool)
        ensures
            final(self).value() == old(self).value(),
            acquired == !old(self).raw().locked(),
            final(self).raw().locked(),
            final(self).raw().waiter() == old(self).raw().waiter(),
    {
        self.raw.try_lock()
    }

    /// Tells whether the lock is held.
    pub fn is_locked(&self) -> (b: bool)
        ensures
            b == self.raw().locked(),
    {
        self.raw.is_locked()
    }

    /// The value behind the lock, for the one who holds the lock.
    pub fn get_mut(&mut self) -> (data: &mut T)
        requires
            old(self).raw().locked(),
        ensures
            *data == old(self).value(),
            final(self).value() == *final(data),
            final(self).raw() == old(self).raw(),
    {
        &mut self.data
    }

    /// Gives the lock back, whoever holds it. Nobody is woken.
    pub fn force_unlock(&mut self)
        ensures
            final(self).value() == old(self).value(),
            !final(self).raw().locked(),
            final(self).raw().waiter() == old(self).raw().waiter(),
    {
        self.raw.unlock()
    }
}

/// A step of the life of a lock, as the tasks around it see it.
pub enum LockOp {
    /// The task tries to take the lock, in any of the ways there are.
    Acquire(TaskId),
    /// The task gives the lock back, if it holds it.
    Release(TaskId),
}

/// The lock after a run of steps, as a flag and the list of tasks that took
/// the lock and have not given it back.
pub struct LockTrace {
    pub locked: bool,
    pub holders: Seq<TaskId>,
}

/// Position of `task` in the list of holders.
pub open spec fn holder_index(holders: Seq<TaskId>, task: TaskId) -> int {
    choose|i: int| 0 <= i < holders.len() && holders[i] == task
}

/// What one step makes of the lock: a try takes a free lock and fails on a
/// held one, as [`RawSpinlock::try_lock`] does; a task that holds the lock
/// frees it, as [`RawSpinlock::unlock`] does.
pub open spec fn lock_step(state: LockTrace, op: LockOp) -> LockTrace {
    match op {
        LockOp::Acquire(task) => if state.locked {
            state
        } else {
            LockTrace { locked: true, holders: state.holders.push(task) }
        },
        LockOp::Release(task) => if state.holders.contains(task) {
            LockTrace {
                locked: false,
                holders: state.holders.remove(holder_index(state.holders, task)),
            }
        } else {
            state
        },
    }
}

/// The lock after the steps `ops`, from a free lock on.
pub open spec fn lock_run(ops: Seq<LockOp>) -> LockTrace
    decreases ops.len(),
{
    if ops.len() == 0 {
        LockTrace { locked: false, holders: Seq::empty() }
    } else {
        lock_step(lock_run(ops.drop_last()), ops.last())
    }
}

/// Mutual exclusion: whatever the tasks do, at no time do two of them hold
/// the lock, and the lock is held exactly while one task holds it.
pub proof fn law_mutual_exclusion(ops: Seq<LockOp>)
    ensures
        lock_run(ops).holders.len() <= 1,
        lock_run(ops).locked <==> lock_run(ops).holders.len() == 1,
    decreases ops.len(),
{
    if ops.len() > 0 {
        let before = lock_run(ops.drop_last());
        law_mutual_exclusion(ops.drop_last());
        match ops.last() {
            LockOp::Acquire(task) => {},
            LockOp::Release(task) => {
                if before.holders.contains(task) {
                    let i = holder_index(before.holders, task);
                    assert(0 <= i < before.holders.len());
                }
            },
        }
    }
}

} // verus!
