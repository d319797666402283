//! The stream of scancodes from the keyboard.

use crate::task::stream::{TaskStream, WriteOutcome};
use vstd::prelude::*;

verus! {

/// Hands a scancode from the keyboard to the stream, from the interrupt
/// handler. A scancode that finds the stream full is dropped.
pub fn write(stream: &mut TaskStream, scancode: u8) -> (res: WriteOutcome)
    requires
        old(stream).wf(),
    ensures
        final(stream).wf(),
        final(stream).capacity() == old(stream).capacity(),
        old(stream).bytes().len() < old(stream).capacity() ==> res == (WriteOutcome::Queued {
            woken: old(stream).waiter(),
        }) && final(stream).bytes() == old(stream).bytes().push(scancode) && final(stream).waiter() is None,
        old(stream).bytes().len() >= old(stream).capacity() ==> res == WriteOutcome::Dropped
            && final(stream).bytes() == old(stream).bytes() && final(stream).waiter() == old(stream).waiter(),
{
    stream.write(scancode)
}

} // verus!
