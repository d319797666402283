//! The kernel's text buffer.
//!
//! What the kernel prints goes into this buffer line by line. Before there is
//! a heap the buffer is a ring of fixed size that keeps the newest lines.
//! Once there is a heap the buffer moves over to a queue without a bound,
//! from which one task reads the lines and waits where there is none.

use crate::task::waker::WakerSlot;
use crate::task::{Poll, TaskId};
use crossbeam_queue::SegQueue;
use heapless::HistoryBuffer;
use vstd::prelude::*;
use vstd::string::StringSliceAdditionalSpecFns;

verus! {

#[verifier::external_type_specification]
#[verifier::external_body]
#[verifier::reject_recursive_types(T)]
pub struct ExHistoryBuffer<T, const N: usize>(HistoryBuffer<T, N>);

#[verifier::external_type_specification]
#[verifier::external_body]
pub struct ExStaticString<const N: usize>(heapless::String<N>);

#[verifier::external_type_specification]
#[verifier::external_body]
#[verifier::reject_recursive_types(T)]
pub struct ExSegQueue<T>(SegQueue<T>);

/// Bytes that a line of the ring holds at most.
pub const LINE_LEN: usize = 96;

/// Lines that the ring holds at most.
pub const RING_LINES: usize = 64;

/// The lines in a ring, oldest first.
pub uninterp spec fn ring_lines(ring: HistoryBuffer<heapless::String<96>, 64>) -> Seq<Seq<char>>;

/// The lines in a queue of lines, oldest first.
pub uninterp spec fn queued_lines(queue: SegQueue<String>) -> Seq<Seq<char>>;

/// The lines of a ring after one more line: the new line is the newest, and
/// the oldest has gone if the ring was full.
pub open spec fn ring_after(lines: Seq<Seq<char>>, line: Seq<char>) -> Seq<Seq<char>> {
    if lines.len() < RING_LINES {
        lines.push(line)
    } else {
        lines.skip(1).push(line)
    }
}

/// Calls `HistoryBuffer::new`, which makes a ring without lines.
#[verifier::external_body]
pub(crate) fn new_ring() -> (ring: HistoryBuffer<heapless::String<96>, 64>)
    ensures
        ring_lines(ring) == Seq::<Seq<char>>::empty(),
{
    HistoryBuffer::new()
}

/// Calls `HistoryBuffer::write` on the line as a `heapless::String`, which
/// holds up to 96 bytes of UTF-8; a longer line makes the conversion panic. The write
/// puts the line behind the others and overwrites the oldest line of a full
/// ring.
#[verifier::external_body]
pub(crate) fn ring_write(ring: &mut HistoryBuffer<heapless::String<96>, 64>, line: &str)
    requires
        line.spec_bytes().len() <= LINE_LEN,
    ensures
        ring_lines(*final(ring)) == ring_after(ring_lines(*old(ring)), line@),
{
    ring.write(heapless::String::from(line))
}

/// Calls `HistoryBuffer::oldest_ordered`, which walks the lines from the
/// oldest to the newest, and copies each line.
#[verifier::external_body]
pub(crate) fn ring_to_vec(ring: &HistoryBuffer<heapless::String<96>, 64>) -> (lines: Vec<String>)
    ensures
        lines@.len() == ring_lines(*ring).len(),
        forall|i: int| 0 <= i < lines@.len() ==> (#[trigger] lines@[i])@ == ring_lines(*ring)[i],
{
    ring.oldest_ordered().map(|s| String::from(s.as_str())).collect()
}

/// Calls `SegQueue::new`, which makes an empty queue.
#[verifier::external_body]
pub(crate) fn new_line_queue() -> (queue: SegQueue<String>)
    ensures
        queued_lines(queue) == Seq::<Seq<char>>::empty(),
{
    SegQueue::new()
}

/// Calls `SegQueue::push`, which puts the line behind the others.
#[verifier::external_body]
pub(crate) fn push_line(queue: &mut SegQueue<String>, line: String)
    ensures
        queued_lines(*final(queue)) == queued_lines(*old(queue)).push(line@),
{
    queue.push(line)
}

/// Calls `SegQueue::pop`, which takes the oldest line out of the queue, and
/// gives nothing where the queue is empty.
#[verifier::external_body]
pub(crate) fn pop_line(queue: &mut SegQueue<String>) -> (res: Option<String>)
    ensures
        res is Some <==> queued_lines(*old(queue)).len() > 0,
        res matches Some(line) ==> line@ == queued_lines(*old(queue))[0] && queued_lines(
            *final(queue),
        ) == queued_lines(*old(queue)).skip(1),
        res is None ==> queued_lines(*final(queue)) == queued_lines(*old(queue)),
{
    queue.pop()
}

/// Tells whether a line fits into the ring: whether it is at most
/// [`LINE_LEN`] bytes of UTF-8 long.
pub fn fits_ring(s: &str) -> (b: bool)
    ensures
        b == (s.spec_bytes().len() <= LINE_LEN),
{
    s.as_bytes().len() <= LINE_LEN
}

/// The line that a poll hands out, if it hands one out.
pub open spec fn line_of(res: Poll<Option<String>>) -> Option<Seq<char>> {
    match res {
        Poll::Ready(Some(line)) => Some(line@),
        _ => None,
    }
}

/// The buffer for the time before there is a heap.
pub struct StaticKernelBuffer {
    buf: HistoryBuffer<heapless::String<96>, 64>,
}

impl StaticKernelBuffer {
    /// The lines in the ring, oldest first.
    pub closed spec fn lines(&self) -> Seq<Seq<char>> {
        ring_lines(self.buf)
    }

    /// A ring without lines.
    pub fn new() -> (b: StaticKernelBuffer)
        ensures
            b.lines() == Seq::<Seq<char>>::empty(),
    {
        StaticKernelBuffer { buf: new_ring() }
    }

    /// The lines in the ring, oldest first.
    pub fn iter(&self) -> (lines: Vec<String>)
        ensures
            lines@.len() == self.lines().len(),
            forall|i: int| 0 <= i < lines@.len() ==> (#[trigger] lines@[i])@ == self.lines()[i],
    {
        ring_to_vec(&self.buf)
    }

    /// Puts a line into the ring, in place of the oldest line where the ring
    /// is full. The line has to fit: at most [`LINE_LEN`] bytes of UTF-8.
    pub fn write_str(&mut self, s: &str)
        requires
            s.spec_bytes().len() <= LINE_LEN,
        ensures
            final(self).lines() == ring_after(old(self).lines(), s@),
    {
        ring_write(&mut self.buf, s);
    }
}

/// The buffer for the time after the heap has come up.
pub struct HeapKernelBuffer {
    queue: SegQueue<String>,
    waker: WakerSlot,
}

impl HeapKernelBuffer {
    /// The lines that wait for the reader, oldest first.
    pub closed spec fn queued(&self) -> Seq<Seq<char>> {
        queued_lines(self.queue)
    }

    /// The task that waits for the next line, if one does.
    pub closed spec fn waiter(&self) -> Option<TaskId> {
        self.waker.waiter()
    }

    /// A buffer without lines, on which no task waits.
    pub fn new() -> (b: HeapKernelBuffer)
        ensures
            b.queued() == Seq::<Seq<char>>::empty(),
            b.waiter() is None,
    {
        HeapKernelBuffer { queue: new_line_queue(), waker: WakerSlot::new() }
    }

    /// The lines that the buffer keeps for a second reading: none. A line on
    /// the heap is read once, by the task that polls the queue.
    pub fn iter(&self) -> (lines: Vec<String>)
        ensures
            lines@ == Seq::<String>::empty(),
    {
        Vec::new()
    }

    /// Puts a line into the queue and hands back the task that waits for
    /// one, to be marked as ready.
    pub fn write_str(&mut self, s: &str) -> (woken: Option<TaskId>)
        ensures
            final(self).queued() == old(self).queued().push(s@),
            woken == old(self).waiter(),
            final(self).waiter() is None,
    {
        push_line(&mut self.queue, s.to_string());
        self.waker.wake()
    }

    /// One poll of the reader `task`. The oldest line is handed out where
    /// there is one. On an empty queue the task is registered for the next
    /// line first and the queue is looked at once more; only then the task
    /// waits.
    pub fn poll_next(&mut self, task: TaskId) -> (res: Poll<Option<String>>)
        ensures
            old(self).queued().len() > 0 ==> line_of(res) == Some(old(self).queued()[0]) && final(self).queued() == old(self).queued().skip(1) && final(self).waiter() == old(self).waiter(),
            old(self).queued().len() == 0 ==> res is Pending && final(self).queued() == old(self).queued() && final(self).waiter() == Some(task),
    {
        if let Some(line) = pop_line(&mut self.queue) {
            return Poll::Ready(Some(line));
        }
        self.waker.register(task);
        match pop_line(&mut self.queue) {
            Some(line) => {
                let _ = self.waker.take();
                Poll::Ready(Some(line))
            },
            None => Poll::Pending,
        }
    }
}

/// The kernel's text buffer, in its ring or on the heap.
pub enum KernelBuffer {
    Static(StaticKernelBuffer),
    Heap(HeapKernelBuffer),
}

impl KernelBuffer {
    /// Whether the buffer lives on the heap.
    pub open spec fn on_heap(&self) -> bool {
        self is Heap
    }

    /// The lines of the ring; none once the buffer lives on the heap.
    pub open spec fn ring(&self) -> Seq<Seq<char>> {
        match self {
            KernelBuffer::Static(b) => b.lines(),
            KernelBuffer::Heap(_) => Seq::empty(),
        }
    }

    /// The lines that wait for the reader; none while the buffer is a ring.
    pub open spec fn queued(&self) -> Seq<Seq<char>> {
        match self {
            KernelBuffer::Static(_) => Seq::empty(),
            KernelBuffer::Heap(b) => b.queued(),
        }
    }

    /// The task that waits for the next line, if one does.
    pub open spec fn waiter(&self) -> Option<TaskId> {
        match self {
            KernelBuffer::Static(_) => None,
            KernelBuffer::Heap(b) => b.waiter(),
        }
    }

    /// A buffer in its ring, without lines.
    pub fn new() -> (b: KernelBuffer)
        ensures
            !b.on_heap(),
            b.ring() == Seq::<Seq<char>>::empty(),
    {
        KernelBuffer::Static(StaticKernelBuffer::new())
    }

    /// The lines that the buffer keeps for reading again: those of the ring,
    /// oldest first; none once the buffer lives on the heap.
    pub fn iter(&self) -> (lines: Vec<String>)
        ensures
            lines@.len() == self.ring().len(),
            forall|i: int| 0 <= i < lines@.len() ==> (#[trigger] lines@[i])@ == self.ring()[i],
    {
        match self {
            KernelBuffer::Static(b) => b.iter(),
            KernelBuffer::Heap(b) => b.iter(),
        }
    }

    /// Puts a line into the buffer. In the ring the line has to fit: at most
    /// [`LINE_LEN`] bytes of UTF-8. On the heap the task that waits for a
    /// line is handed back, to be marked as ready.
    pub fn write_str(&mut self, s: &str) -> (woken: Option<TaskId>)
        requires
            !old(self).on_heap() ==> s.spec_bytes().len() <= LINE_LEN,
        ensures
            final(self).on_heap() == old(self).on_heap(),
            !old(self).on_heap() ==> woken is None && final(self).ring() == ring_after(
                old(self).ring(),
                s@,
            ),
            old(self).on_heap() ==> woken == old(self).waiter() && final(self).queued() == old(self).queued().push(s@) && final(self).waiter() is None,
    {
        match self {
            KernelBuffer::Static(b) => {
                b.write_str(s);
                None
            },
            KernelBuffer::Heap(b) => b.write_str(s),
        }
    }

    /// Moves the buffer to the heap: the lines of the ring go into the queue
    /// for the reader, oldest first. A buffer that is on the heap already
    /// starts over without lines and without a waiting task.
    pub fn use_heap(&mut self)
        ensures
            final(self).on_heap(),
            final(self).waiter() is None,
            final(self).queued() == old(self).ring(),
    {
        let temp = self.iter();
        let ghost ring = self.ring();
        let mut heap = HeapKernelBuffer::new();
        let mut i: usize = 0;
        while i < temp.len()
            invariant
                0 <= i <= temp@.len(),
                temp@.len() == ring.len(),
                forall|j: int| 0 <= j < temp@.len() ==> (#[trigger] temp@[j])@ == ring[j],
                heap.waiter() is None,
                heap.queued().len() == i,
                forall|j: int| 0 <= j < i ==> (#[trigger] heap.queued()[j]) == temp@[j]@,
            decreases temp@.len() - i,
        {
            let _ = heap.write_str(temp[i].as_str());
            i += 1;
        }
        assert(heap.queued() =~= ring);
        *self = KernelBuffer::Heap(heap);
    }

    /// One poll of the reader `task`, on a buffer that lives on the heap.
    pub fn poll_next(&mut self, task: TaskId) -> (res: Poll<Option<String>>)
        requires
            old(self).on_heap(),
        ensures
            final(self).on_heap(),
            old(self).queued().len() > 0 ==> line_of(res) == Some(old(self).queued()[0]) && final(self).queued() == old(self).queued().skip(1) && final(self).waiter() == old(self).waiter(),
            old(self).queued().len() == 0 ==> res is Pending && final(self).queued() == old(self).queued() && final(self).waiter() == Some(task),
    {
        match self {
            KernelBuffer::Static(_) => Poll::Pending,
            KernelBuffer::Heap(b) => b.poll_next(task),
        }
    }
}

} // verus!
