//! The numbers of the interrupts that the kernel handles.

use vstd::prelude::*;

verus! {

/// First interrupt vector of those that the I/O APIC delivers.
pub const IOAPIC_INTERRUPT_INDEX_OFFSET: u8 = 40;

/// First interrupt vector of those that the local APIC raises itself.
pub const LAPIC_INTERRUPT_INDEX_OFFSET: u8 = 0x90;

/// The interrupt vectors.
#[derive(Clone, Copy, Debug, PartialEq, Eq, Structural)]
pub enum InterruptIndex {
    /// The first vector of the I/O APIC, kept free.
    IoApic,
    /// The keyboard.
    Keyboard,
    /// The mouse.
    Mouse,
    /// An error of the local APIC.
    ApicError,
    /// The timer of the local APIC.
    Timer,
}

impl InterruptIndex {
    /// The number of the vector.
    pub open spec fn spec_vector(self) -> u8 {
        match self {
            InterruptIndex::IoApic => 40,
            InterruptIndex::Keyboard => 41,
            InterruptIndex::Mouse => 52,
            InterruptIndex::ApicError => 0x90,
            InterruptIndex::Timer => 0x91,
        }
    }

    /// The number of the vector.
    #[verifier::when_used_as_spec(spec_vector)]
    pub fn vector(self) -> (v: u8)
        ensures
            v == self.spec_vector(),
    {
        match self {
            InterruptIndex::IoApic => IOAPIC_INTERRUPT_INDEX_OFFSET,
            InterruptIndex::Keyboard => IOAPIC_INTERRUPT_INDEX_OFFSET + 1,
            InterruptIndex::Mouse => IOAPIC_INTERRUPT_INDEX_OFFSET + 12,
            InterruptIndex::ApicError => LAPIC_INTERRUPT_INDEX_OFFSET,
            InterruptIndex::Timer => LAPIC_INTERRUPT_INDEX_OFFSET + 1,
        }
    }
}

impl From<InterruptIndex> for u8 {
    fn from(val: InterruptIndex) -> (v: u8) {
        val.vector()
    }
}

impl vstd::std_specs::convert::FromSpecImpl<InterruptIndex> for u8 {
    open spec fn obeys_from_spec() -> bool {
        true
    }

    open spec fn from_spec(val: InterruptIndex) -> u8 {
        val.spec_vector()
    }
}

impl From<InterruptIndex> for usize {
    fn from(val: InterruptIndex) -> (v: usize) {
        val.vector() as usize
    }
}

impl vstd::std_specs::convert::FromSpecImpl<InterruptIndex> for usize {
    open spec fn obeys_from_spec() -> bool {
        true
    }

    open spec fn from_spec(val: InterruptIndex) -> usize {
        val.spec_vector() as usize
    }
}

/// The inputs of the I/O APIC that the kernel routes.
#[derive(Clone, Copy, Debug, PartialEq, Eq, Structural)]
pub enum IoApicTableIndex {
    /// The keyboard.
    Keyboard,
    /// The mouse.
    Mouse,
}

impl IoApicTableIndex {
    /// The number of the input.
    pub open spec fn spec_input(self) -> u8 {
        match self {
            IoApicTableIndex::Keyboard => 1,
            IoApicTableIndex::Mouse => 12,
        }
    }

    /// The number of the input.
    #[verifier::when_used_as_spec(spec_input)]
    pub fn input(self) -> (v: u8)
        ensures
            v == self.spec_input(),
    {
        match self {
            IoApicTableIndex::Keyboard => 1,
            IoApicTableIndex::Mouse => 12,
        }
    }
}

impl From<IoApicTableIndex> for u8 {
    fn from(val: IoApicTableIndex) -> (v: u8) {
        val.input()
    }
}

impl vstd::std_specs::convert::FromSpecImpl<IoApicTableIndex> for u8 {
    open spec fn obeys_from_spec() -> bool {
        true
    }

    open spec fn from_spec(val: IoApicTableIndex) -> u8 {
        val.spec_input()
    }
}

impl From<IoApicTableIndex> for usize {
    fn from(val: IoApicTableIndex) -> (v: usize) {
        val.input() as usize
    }
}

impl vstd::std_specs::convert::FromSpecImpl<IoApicTableIndex> for usize {
    open spec fn obeys_from_spec() -> bool {
        true
    }

    open spec fn from_spec(val: IoApicTableIndex) -> usize {
        val.spec_input() as usize
    }
}

/// Every interrupt that comes through the I/O APIC has the vector of its
/// input, counted from the first vector of the I/O APIC.
pub proof fn law_vectors_follow_inputs()
    ensures
        InterruptIndex::Keyboard.spec_vector() == IOAPIC_INTERRUPT_INDEX_OFFSET
            + IoApicTableIndex::Keyboard.spec_input(),
        InterruptIndex::Mouse.spec_vector() == IOAPIC_INTERRUPT_INDEX_OFFSET
            + IoApicTableIndex::Mouse.spec_input(),
{
}

/// What the kernel tells the emulator when it leaves.
#[derive(Clone, Copy, Debug, PartialEq, Eq, Structural)]
pub enum QemuExitCode {
    Success,
    Failed,
}

impl QemuExitCode {
    /// The number that is written to the exit port.
    pub fn code(self) -> (c: u32)
        ensures
            c == match self {
                QemuExitCode::Success => 0x10u32,
                QemuExitCode::Failed => 0x11u32,
            },
    {
        match self {
            QemuExitCode::Success => 0x10,
            QemuExitCode::Failed => 0x11,
        }
    }
}

} // verus!
