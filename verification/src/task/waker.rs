//! The place where one waiting task leaves word that it wants to be woken.

use crate::task::TaskId;
use vstd::prelude::*;

verus! {

/// A slot for the wake-up of one task. A task that registers takes the place
/// of the one that registered before it: the last one wins.
#[derive(Clone, Copy, Debug, PartialEq, Eq, Structural)]
pub struct WakerSlot {
    pub waiter: Option<TaskId>,
}

impl WakerSlot {
    /// The task that is registered, if one is.
    pub open spec fn waiter(&self) -> Option<TaskId> {
        self.waiter
    }

    /// A slot in which no task is registered.
    pub fn new() -> (slot: WakerSlot)
        ensures
            slot.waiter() is None,
    {
        WakerSlot { waiter: None }
    }

    /// Registers `task` for the next wake-up, in place of any task that was
    /// registered before.
    pub fn register(&mut self, task: TaskId)
        ensures
            final(self).waiter() == Some(task),
    {
        self.waiter = Some(task);
    }

    /// Takes the registered task out of the slot without waking it.
    pub fn take(&mut self) -> (task: Option<TaskId>)
        ensures
            task == old(self).waiter(),
            final(self).waiter() is None,
    {
        let task = self.waiter;
        self.waiter = None;
        task
    }

    /// Takes the registered task out of the slot and hands it to the caller,
    /// who marks it as ready. A second wake-up finds the slot empty.
    pub fn wake(&mut self) -> (task: Option<TaskId>)
        ensures
            task == old(self).waiter(),
            final(self).waiter() is None,
    {
        self.take()
    }

    /// The task that is registered, if one is.
    pub fn registered(&self) -> (task: Option<TaskId>)
        ensures
            task == self.waiter(),
    {
        self.waiter
    }
}

} // verus!
