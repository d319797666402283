//! Starting additional processors.
//!
//! A new processor starts in real mode at a fixed address and finds what it
//! needs to get into the kernel in a small structure at another fixed
//! address, the trampoline. This module says what stands in the trampoline
//! and which numbers the start-up interrupts carry; copying the start-up code
//! and sending the interrupts is left to the caller.

use vstd::prelude::*;

verus! {

/// Physical address at which a new processor starts to run.
pub const AP_STARTUP_DEST: u32 = 0x10000;

/// Physical address of the trampoline: the page below the start-up code.
pub const TRAMPOLINE: u32 = 0xF000;

/// Bytes of stack that a new processor gets.
pub const STACK_SIZE: u64 = 0x8000;

/// What a new processor reads from the trampoline.
#[derive(Clone, Copy, Debug, PartialEq, Eq, Structural)]
pub struct ApTrampoline {
    /// The id of the processor.
    pub ap_id: u8,
    /// Physical address of the top-level page table of the processor.
    pub ap_page_table: u64,
    /// Lowest virtual address of the stack.
    pub ap_stack_start: u64,
    /// One past the highest virtual address of the stack.
    pub ap_stack_end: u64,
    /// Virtual address of the code that the processor enters the kernel at.
    pub ap_entry_code: u64,
}

impl ApTrampoline {
    /// The trampoline before any processor is started: all fields zero.
    pub fn new() -> (t: ApTrampoline)
        ensures
            t == (ApTrampoline {
                ap_id: 0,
                ap_page_table: 0,
                ap_stack_start: 0,
                ap_stack_end: 0,
                ap_entry_code: 0,
            }),
    {
        ApTrampoline {
            ap_id: 0,
            ap_page_table: 0,
            ap_stack_start: 0,
            ap_stack_end: 0,
            ap_entry_code: 0,
        }
    }
}

/// The trampoline for the processor `ap_id`, whose top-level page table
/// lies at `ap_page_table`, whose stack of `stack_size` bytes ends at
/// `ap_stack_top`, and which enters the kernel at `entry_code`.
pub fn setup_trampoline(
    ap_id: u8,
    ap_page_table: u64,
    ap_stack_top: u64,
    stack_size: u64,
    entry_code: u64,
) -> (t: ApTrampoline)
    requires
        stack_size <= ap_stack_top,
    ensures
        t == (ApTrampoline {
            ap_id,
            ap_page_table,
            ap_stack_start: (ap_stack_top - stack_size) as u64,
            ap_stack_end: ap_stack_top,
            ap_entry_code: entry_code,
        }),
{
    ApTrampoline {
        ap_id,
        ap_page_table,
        ap_stack_start: ap_stack_top - stack_size,
        ap_stack_end: ap_stack_top,
        ap_entry_code: entry_code,
    }
}

/// The vector of the start-up interrupt: the number of the page at which
/// the new processor starts to run.
pub fn sipi_vector() -> (v: u8)
    ensures
        v == 0x10,
{
    0x10
}

/// The destination field of an interrupt for the processor `processor_uid`:
/// the id in the highest byte.
pub fn ipi_destination(processor_uid: u8) -> (dest: u32)
    ensures
        dest == processor_uid * 0x100_0000,
{
    let wide: u32 = processor_uid as u32;
    wide * 0x100_0000
}

/// The start-up vector names the page of the start-up code, and the
/// trampoline lies in the page below it.
pub proof fn law_trampoline_below_start_up_code()
    ensures
        AP_STARTUP_DEST == 0x10 * 4096,
        TRAMPOLINE + 4096 == AP_STARTUP_DEST,
{
}

} // verus!
