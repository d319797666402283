//! Streams of bytes from interrupt handlers to tasks.
//!
//! A device has one stream. Its interrupt handler writes each byte that
//! arrives to the stream and goes on at once: where the stream is full, the
//! byte is dropped. One task reads the stream and waits where it is empty.

use crate::task::queue::{
    byte_capacity,
    byte_count,
    new_byte_queue,
    pop_byte,
    push_byte,
    queued_bytes,
};
use crate::task::waker::WakerSlot;
use crate::task::{Poll, TaskId};
use crossbeam_queue::ArrayQueue;
use vstd::prelude::*;

verus! {

/// Number of bytes that a stream holds at most.
pub const STREAM_CAPACITY: usize = 1024;

/// What became of a byte that was written to a stream.
#[derive(Clone, Copy, Debug, PartialEq, Eq)]
pub enum WriteOutcome {
    /// The byte is in the stream. `woken` is the task that waited for it and
    /// is to be marked as ready, where one waited.
    Queued { woken: Option<TaskId> },
    /// The stream was full: the byte is lost.
    Dropped,
}

/// A bounded stream of bytes with one reader.
pub struct TaskStream {
    queue: ArrayQueue<u8>,
    waker: WakerSlot,
}

impl TaskStream {
    /// The bytes in the stream, oldest first.
    pub closed spec fn bytes(&self) -> Seq<u8> {
        queued_bytes(self.queue)
    }

    /// Number of bytes that the stream holds at most.
    pub closed spec fn capacity(&self) -> nat {
        byte_capacity(self.queue)
    }

    /// The task that waits for the next byte, if one does.
    pub closed spec fn waiter(&self) -> Option<TaskId> {
        self.waker.waiter()
    }

    /// The stream is within its capacity.
    pub open spec fn wf(&self) -> bool {
        self.bytes().len() <= self.capacity()
    }

    /// An empty stream with room for [`STREAM_CAPACITY`] bytes, on which no
    /// task waits.
    pub fn new() -> (s: TaskStream)
        ensures
            s.wf(),
            s.bytes() == Seq::<u8>::empty(),
            s.capacity() == STREAM_CAPACITY,
            s.waiter() is None,
    {
        TaskStream { queue: new_byte_queue(STREAM_CAPACITY), waker: WakerSlot::new() }
    }

    /// Number of bytes in the stream.
    pub fn len(&self) -> (n: usize)
        ensures
            n == self.bytes().len(),
    {
        byte_count(&self.queue)
    }

    /// Puts a byte into the stream. Where the stream has room, the byte goes
    /// behind the others and the task that waits, if one does, is handed
    /// back to be woken. Where the stream is full, the byte is dropped and
    /// nothing changes.
    pub fn write(&mut self, byte: u8) -> (res: WriteOutcome)
        requires
            old(self).wf(),
        ensures
            final(self).wf(),
            final(self).capacity() == old(self).capacity(),
            old(self).bytes().len() < old(self).capacity() ==> res == (WriteOutcome::Queued {
                woken: old(self).waiter(),
            }) && final(self).bytes() == old(self).bytes().push(byte) && final(self).waiter()
                is None,
            old(self).bytes().len() >= old(self).capacity() ==> res == WriteOutcome::Dropped
                && final(self).bytes() == old(self).bytes() && final(self).waiter() == old(self).waiter(),
    {
        match push_byte(&mut self.queue, byte) {
            Ok(()) => {
                let woken = self.waker.wake();
                WriteOutcome::Queued { woken }
            },
            Err(_) => WriteOutcome::Dropped,
        }
    }

    /// One poll of the reader `task`. The oldest byte is handed out where
    /// there is one. On an empty stream the task is registered for the next
    /// byte first and the stream is looked at once more, so that a byte that
    /// arrives in between is not missed; only then the task waits.
    pub fn poll_next(&mut self, task: TaskId) -> (res: Poll<Option<u8>>)
        requires
            old(self).wf(),
        ensures
            final(self).wf(),
            final(self).capacity() == old(self).capacity(),
            old(self).bytes().len() > 0 ==> res == Poll::Ready(Some(old(self).bytes()[0]))
                && final(self).bytes() == old(self).bytes().skip(1) && final(self).waiter() == old(self).waiter(),
            old(self).bytes().len() == 0 ==> res == Poll::<Option<u8>>::Pending && final(self).bytes() == old(self).bytes() && final(self).waiter() == Some(task),
    {
        if let Some(byte) = pop_byte(&mut self.queue) {
            return Poll::Ready(Some(byte));
        }
        self.waker.register(task);
        match pop_byte(&mut self.queue) {
            Some(byte) => {
                let _ = self.waker.take();
                Poll::Ready(Some(byte))
            },
            None => Poll::Pending,
        }
    }
}

} // verus!
