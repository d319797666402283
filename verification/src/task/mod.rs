//! Kernel tasks.
//!
//! A task is a piece of cooperative, asynchronous kernel work. The scheduler
//! knows a task by its id and, where it has one, its name; the computation
//! itself stays with the caller, which polls it when the scheduler says so.

pub mod executor;
pub mod keyboard;
pub mod mouse;
pub mod queue;
pub mod stream;
pub mod waker;

use vstd::prelude::*;

verus! {

/// The number by which the scheduler knows a task.
#[derive(Clone, Copy, Debug, PartialEq, Eq, Structural)]
pub struct TaskId(pub u64);

/// The source of task ids: a counter that hands out each number once.
#[derive(Debug)]
pub struct TaskIds {
    next: u64,
}

impl TaskIds {
    /// The id that is handed out next.
    pub closed spec fn upcoming(&self) -> u64 {
        self.next
    }

    /// A source that starts at zero.
    pub fn new() -> (ids: TaskIds)
        ensures
            ids.upcoming() == 0,
    {
        TaskIds { next: 0 }
    }
}

impl TaskId {
    /// Takes the next id from the source. The ids go up by one; after the
    /// largest 64-bit number the count starts again at zero.
    pub fn new(ids: &mut TaskIds) -> (id: TaskId)
        ensures
            id.0 == old(ids).upcoming(),
            final(ids).upcoming() == if old(ids).upcoming() == u64::MAX {
                0
            } else {
                (old(ids).upcoming() + 1) as u64
            },
    {
        let id = ids.next;
        ids.next = if id == u64::MAX {
            0
        } else {
            id + 1
        };
        TaskId(id)
    }
}

/// What a poll of a suspendable computation gives.
#[derive(Debug, PartialEq, Eq)]
pub enum Poll<T> {
    /// The computation is done, with this result.
    Ready(T),
    /// The computation waits for a wake-up.
    Pending,
}

/// A task as the scheduler sees it.
#[derive(Debug)]
pub struct Task {
    id: TaskId,
    name: Option<String>,
}

impl Task {
    /// The id of the task.
    pub closed spec fn spec_id(&self) -> TaskId {
        self.id
    }

    /// The name of the task, if it has one.
    pub closed spec fn spec_name(&self) -> Option<Seq<char>> {
        match self.name {
            Some(n) => Some(n@),
            None => None,
        }
    }

    /// A task without a name, with the next id of the source.
    pub fn new(ids: &mut TaskIds) -> (task: Task)
        ensures
            task.spec_id().0 == old(ids).upcoming(),
            task.spec_name() is None,
            final(ids).upcoming() == if old(ids).upcoming() == u64::MAX {
                0
            } else {
                (old(ids).upcoming() + 1) as u64
            },
    {
        Task { id: TaskId::new(ids), name: None }
    }

    /// A task with the given name, with the next id of the source.
    pub fn new_with_name(name: &str, ids: &mut TaskIds) -> (task: Task)
        ensures
            task.spec_id().0 == old(ids).upcoming(),
            task.spec_name() == Some(name@),
            final(ids).upcoming() == if old(ids).upcoming() == u64::MAX {
                0
            } else {
                (old(ids).upcoming() + 1) as u64
            },
    {
        Task { id: TaskId::new(ids), name: Some(name.to_string()) }
    }

    /// The id of the task.
    #[verifier::when_used_as_spec(spec_id)]
    pub fn id(&self) -> (id: TaskId)
        ensures
            id == self.spec_id(),
    {
        self.id
    }

    /// The name of the task, if it has one.
    pub fn name(&self) -> (name: Option<&str>)
        ensures
            name is Some <==> self.spec_name() is Some,
            name matches Some(n) ==> self.spec_name() == Some(n@),
    {
        match &self.name {
            Some(n) => Some(n.as_str()),
            None => None,
        }
    }
}

} // verus!
