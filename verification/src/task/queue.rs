//! The bounded queues of the scheduler and of the device streams.
//!
//! The queues are `crossbeam_queue::ArrayQueue`s. What is stated of them here
//! is how such a queue behaves for the one who holds it alone: first in,
//! first out, and never more items than it was made for.

use crossbeam_queue::ArrayQueue;
use vstd::prelude::*;

verus! {

#[verifier::external_type_specification]
#[verifier::external_body]
#[verifier::reject_recursive_types(T)]
pub struct ExArrayQueue<T>(ArrayQueue<T>);

/// Largest capacity that the queues of this crate are made with.
pub const MAX_QUEUE_CAPACITY: usize = 0x1_0000;

/// The task ids in a queue of task ids, oldest first.
pub uninterp spec fn queued_ids(queue: ArrayQueue<u64>) -> Seq<u64>;

/// The number of ids that a queue of task ids was made for.
pub uninterp spec fn id_capacity(queue: ArrayQueue<u64>) -> nat;

/// The bytes in a queue of bytes, oldest first.
pub uninterp spec fn queued_bytes(queue: ArrayQueue<u8>) -> Seq<u8>;

/// The number of bytes that a queue of bytes was made for.
pub uninterp spec fn byte_capacity(queue: ArrayQueue<u8>) -> nat;

/// Calls `ArrayQueue::new`, which makes an empty queue for `capacity` items
/// and panics on a capacity of zero or one too large to round up.
#[verifier::external_body]
pub(crate) fn new_id_queue(capacity: usize) -> (queue: ArrayQueue<u64>)
    requires
        0 < capacity <= MAX_QUEUE_CAPACITY,
    ensures
        queued_ids(queue) == Seq::<u64>::empty(),
        id_capacity(queue) == capacity,
{
    ArrayQueue::new(capacity)
}

/// Calls `ArrayQueue::push`, which puts `id` behind the items of a queue that
/// is not full, and hands `id` back from a full one.
#[verifier::external_body]
pub(crate) fn push_id(queue: &mut ArrayQueue<u64>, id: u64) -> (res: Result<(), u64>)
    ensures
        id_capacity(*final(queue)) == id_capacity(*old(queue)),
        res is Ok <==> queued_ids(*old(queue)).len() < id_capacity(*old(queue)),
        res is Ok ==> queued_ids(*final(queue)) == queued_ids(*old(queue)).push(id),
        res matches Err(back) ==> back == id && queued_ids(*final(queue)) == queued_ids(
            *old(queue),
        ),
{
    queue.push(id)
}

/// Calls `ArrayQueue::pop`, which takes the oldest item out of the queue, and
/// gives nothing where the queue is empty.
#[verifier::external_body]
pub(crate) fn pop_id(queue: &mut ArrayQueue<u64>) -> (res: Option<u64>)
    ensures
        id_capacity(*final(queue)) == id_capacity(*old(queue)),
        res is Some <==> queued_ids(*old(queue)).len() > 0,
        res matches Some(id) ==> id == queued_ids(*old(queue))[0] && queued_ids(*final(queue))
            == queued_ids(*old(queue)).skip(1),
        res is None ==> queued_ids(*final(queue)) == queued_ids(*old(queue)),
{
    queue.pop()
}

/// Calls `ArrayQueue::len`, the number of items in the queue, which is never
/// above the capacity.
#[verifier::external_body]
pub(crate) fn id_count(queue: &ArrayQueue<u64>) -> (n: usize)
    ensures
        n == queued_ids(*queue).len(),
        n <= id_capacity(*queue),
{
    queue.len()
}

/// Calls `ArrayQueue::capacity`, the number of items that the queue was made
/// for.
#[verifier::external_body]
pub(crate) fn id_room(queue: &ArrayQueue<u64>) -> (n: usize)
    ensures
        n == id_capacity(*queue),
{
    queue.capacity()
}

/// Calls `ArrayQueue::new`, which makes an empty queue for `capacity` items
/// and panics on a capacity of zero or one too large to round up.
#[verifier::external_body]
pub(crate) fn new_byte_queue(capacity: usize) -> (queue: ArrayQueue<u8>)
    requires
        0 < capacity <= MAX_QUEUE_CAPACITY,
    ensures
        queued_bytes(queue) == Seq::<u8>::empty(),
        byte_capacity(queue) == capacity,
{
    ArrayQueue::new(capacity)
}

/// Calls `ArrayQueue::push`, which puts `byte` behind the items of a queue
/// that is not full, and hands `byte` back from a full one.
#[verifier::external_body]
pub(crate) fn push_byte(queue: &mut ArrayQueue<u8>, byte: u8) -> (res: Result<(), u8>)
    ensures
        byte_capacity(*final(queue)) == byte_capacity(*old(queue)),
        res is Ok <==> queued_bytes(*old(queue)).len() < byte_capacity(*old(queue)),
        res is Ok ==> queued_bytes(*final(queue)) == queued_bytes(*old(queue)).push(byte),
        res matches Err(back) ==> back == byte && queued_bytes(*final(queue)) == queued_bytes(
            *old(queue),
        ),
{
    queue.push(byte)
}

/// Calls `ArrayQueue::pop`, which takes the oldest item out of the queue, and
/// gives nothing where the queue is empty.
#[verifier::external_body]
pub(crate) fn pop_byte(queue: &mut ArrayQueue<u8>) -> (res: Option<u8>)
    ensures
        byte_capacity(*final(queue)) == byte_capacity(*old(queue)),
        res is Some <==> queued_bytes(*old(queue)).len() > 0,
        res matches Some(byte) ==> byte == queued_bytes(*old(queue))[0] && queued_bytes(
            *final(queue),
        ) == queued_bytes(*old(queue)).skip(1),
        res is None ==> queued_bytes(*final(queue)) == queued_bytes(*old(queue)),
{
    queue.pop()
}

/// Calls `ArrayQueue::len`, the number of items in the queue, which is never
/// above the capacity.
#[verifier::external_body]
pub(crate) fn byte_count(queue: &ArrayQueue<u8>) -> (n: usize)
    ensures
        n == queued_bytes(*queue).len(),
        n <= byte_capacity(*queue),
{
    queue.len()
}

} // verus!
