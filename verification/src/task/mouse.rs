//! The stream of packets from the mouse.

use crate::task::stream::{TaskStream, WriteOutcome};
use vstd::prelude::*;

verus! {

/// The stream that carries the packets of the mouse.
pub type PacketStream = TaskStream;

/// Hands a packet from the mouse to the stream, from the interrupt handler.
/// A packet that finds the stream full is dropped.
pub fn add_packet(stream: &mut PacketStream, packet: u8) -> (res: WriteOutcome)
    requires
        old(stream).wf(),
    ensures
        final(stream).wf(),
        final(stream).capacity() == old(stream).capacity(),
        old(stream).bytes().len() < old(stream).capacity() ==> res == (WriteOutcome::Queued {
            woken: old(stream).waiter(),
        }) && final(stream).bytes() == old(stream).bytes().push(packet) && final(stream).waiter()
            is None,
        old(stream).bytes().len() >= old(stream).capacity() ==> res == WriteOutcome::Dropped
            && final(stream).bytes() == old(stream).bytes() && final(stream).waiter() == old(stream).waiter(),
{
    stream.write(packet)
}

} // verus!
