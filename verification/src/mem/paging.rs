//! Pages, page-table flags and runs of consecutive pages.
//!
//! Nothing here touches a page table. The types say which page goes to which
//! frame with which flags; the caller hands that to the hardware.

use crate::mem::frame::{
    align_down,
    lemma_aligned_step,
    lemma_round_down,
    round_down,
    PageSize,
    PhysFrame,
};
use vstd::prelude::*;

verus! {

/// Flag bit: the entry maps something.
pub const PRESENT: u64 = 0x1;

/// Flag bit: the page may be written.
pub const WRITABLE: u64 = 0x2;

/// Flag bit: the mapping is the same in every address space.
pub const GLOBAL: u64 = 0x100;

/// Flag bit: no code runs from the page.
pub const NO_EXECUTE: u64 = 0x8000_0000_0000_0000;

/// First address of the upper half of the virtual address space.
pub const UPPER_HALF_START: u64 = 0xFFFF_8000_0000_0000;

/// One past the last address of the lower half of the virtual address space.
pub const LOWER_HALF_END: u64 = 0x0000_8000_0000_0000;

/// The flags of a page-table entry, as the processor lays them out.
#[derive(Clone, Copy, Debug, PartialEq, Eq, Structural)]
pub struct PageTableFlags {
    pub bits: u64,
}

impl PageTableFlags {
    /// Present and writable: the flags of a freshly mapped page.
    pub fn present_writable() -> (f: PageTableFlags)
        ensures
            f.bits == 0x3,
    {
        PageTableFlags { bits: 0x3 }
    }

    /// Present, writable and not executable: the flags of an identity mapping
    /// for which the caller names none.
    pub fn identity_default() -> (f: PageTableFlags)
        ensures
            f.bits == 0x8000_0000_0000_0003,
    {
        PageTableFlags { bits: 0x8000_0000_0000_0003 }
    }

    /// The flags that are set in either operand.
    pub fn union(self, other: PageTableFlags) -> (f: PageTableFlags)
        ensures
            f.bits == self.bits | other.bits,
    {
        PageTableFlags { bits: self.bits | other.bits }
    }

    /// Whether every flag of `other` is set.
    pub fn contains(self, other: PageTableFlags) -> (b: bool)
        ensures
            b == (self.bits & other.bits == other.bits),
    {
        self.bits & other.bits == other.bits
    }
}

/// Whether `addr` is a virtual address that the processor accepts: it lies in
/// the lower or in the upper half of the address space.
pub open spec fn is_canonical(addr: u64) -> bool {
    addr < LOWER_HALF_END || addr >= UPPER_HALF_START
}

/// Tells whether `addr` lies in the lower or in the upper half of the
/// virtual address space.
pub fn check_canonical(addr: u64) -> (b: bool)
    ensures
        b == is_canonical(addr),
{
    addr < LOWER_HALF_END || addr >= UPPER_HALF_START
}

/// A page of virtual memory: `size` bytes that start at a multiple of `size`.
#[derive(Clone, Copy, Debug, PartialEq, Eq, Structural)]
pub struct Page {
    start: u64,
    size: PageSize,
}

impl Page {
    /// The address of the first byte.
    pub closed spec fn spec_start(self) -> u64 {
        self.start
    }

    /// The size of the page.
    pub closed spec fn spec_size(self) -> PageSize {
        self.size
    }

    /// The page starts at a multiple of its size, at an address that the
    /// processor accepts.
    pub open spec fn wf(self) -> bool {
        &&& self.spec_start() as int % self.spec_size().bytes() as int == 0
        &&& is_canonical(self.spec_start())
    }

    /// The page of the given size in which `addr` lies.
    pub fn containing_address(addr: u64, size: PageSize) -> (p: Page)
        requires
            is_canonical(addr),
        ensures
            p.wf(),
            p.spec_size() == size,
            p.spec_start() == round_down(addr as int, size.bytes() as int),
            p.spec_start() <= addr < p.spec_start() + size.bytes(),
    {
        let start = align_down(addr, size.bytes());
        proof {
            lemma_round_down(addr as int, size.bytes() as int);
            if addr >= UPPER_HALF_START && start < UPPER_HALF_START {
                assert(0xFFFF_8000_0000_0000int % 0x1000int == 0);
                assert(0xFFFF_8000_0000_0000int % 0x20_0000int == 0);
                assert(0xFFFF_8000_0000_0000int % 0x4000_0000int == 0);
                lemma_aligned_step(start as int, UPPER_HALF_START as int, size.bytes() as int);
            }
        }
        Page { start, size }
    }

    /// The page of the given size that starts at `addr`, where `addr` is a
    /// multiple of that size and an address that the processor accepts.
    pub fn from_start_address(addr: u64, size: PageSize) -> (p: Option<Page>)
        ensures
            p is Some <==> addr as int % size.bytes() as int == 0 && is_canonical(addr),
            p matches Some(page) ==> page.wf() && page.spec_start() == addr && page.spec_size()
                == size,
    {
        if check_canonical(addr) && addr % size.bytes() == 0 {
            Some(Page { start: addr, size })
        } else {
            None
        }
    }

    /// The address of the first byte.
    #[verifier::when_used_as_spec(spec_start)]
    pub fn start_address(self) -> (a: u64)
        ensures
            a == self.spec_start(),
    {
        self.start
    }

    /// The size of the page.
    #[verifier::when_used_as_spec(spec_size)]
    pub fn size(self) -> (s: PageSize)
        ensures
            s == self.spec_size(),
    {
        self.size
    }
}

/// `count` times the number of bytes in a page of the given size.
pub fn span(count: u64, size: PageSize) -> (n: u64)
    requires
        count * size.bytes() <= u64::MAX,
    ensures
        n == count * size.bytes(),
{
    match size {
        PageSize::Size4KiB => count * 0x1000,
        PageSize::Size2MiB => count * 0x20_0000,
        PageSize::Size1GiB => count * 0x4000_0000,
    }
}

/// A run of `count` pages or frames of one size that lie one after the other,
/// the first at address `first`.
#[derive(Clone, Copy, Debug, PartialEq, Eq, Structural)]
pub struct PageRange {
    pub first: u64,
    pub count: u64,
    pub size: PageSize,
}

impl PageRange {
    /// The run starts at a multiple of the page size and ends within the
    /// 64-bit address space.
    pub open spec fn wf(self) -> bool {
        &&& self.first as int % self.size.bytes() as int == 0
        &&& self.first + self.count * self.size.bytes() <= u64::MAX + 1
    }

    /// Start address of the `i`-th page of the run.
    pub open spec fn spec_nth(self, i: int) -> int {
        self.first + i * self.size.bytes()
    }

    /// One past the last address of the run.
    pub open spec fn spec_end(self) -> int {
        self.first + self.count * self.size.bytes()
    }

    /// Start address of the `i`-th page of the run.
    pub fn nth(self, i: u64) -> (a: u64)
        requires
            self.wf(),
            i < self.count,
        ensures
            a == self.spec_nth(i as int),
            a as int % self.size.bytes() as int == 0,
            a + self.size.bytes() <= self.spec_end(),
    {
        proof {
            let b = self.size.bytes() as int;
            assert(i * b + b <= self.count * b) by (nonlinear_arith)
                requires
                    0 <= i < self.count,
                    0 < b,
            ;
            assert(0 <= i * b) by (nonlinear_arith)
                requires
                    0 <= i,
                    0 < b,
            ;
            vstd::arithmetic::div_mod::lemma_mod_multiples_vanish(i as int, self.first as int, b);
            assert(b * i + self.first == self.first + i * b) by (nonlinear_arith);
        }
        self.first + span(i, self.size)
    }

    /// The pages of the given size that hold the addresses from `start` to
    /// `last`, both included. There is none where `last` lies in a page below
    /// that of `start`.
    pub fn covering(start: u64, last: u64, size: PageSize) -> (r: PageRange)
        ensures
            r.wf(),
            r.size == size,
            r.first == round_down(start as int, size.bytes() as int),
            round_down(start as int, size.bytes() as int) <= round_down(
                last as int,
                size.bytes() as int,
            ) ==> r.count >= 1 && r.spec_nth(r.count - 1) == round_down(
                last as int,
                size.bytes() as int,
            ),
            round_down(start as int, size.bytes() as int) > round_down(
                last as int,
                size.bytes() as int,
            ) ==> r.count == 0,
    {
        let bytes = size.bytes();
        let first = align_down(start, bytes);
        let last_page = align_down(last, bytes);
        proof {
            lemma_round_down(start as int, bytes as int);
            lemma_round_down(last as int, bytes as int);
        }
        if first > last_page {
            return PageRange { first, count: 0, size };
        }
        let gap = last_page - first;
        let count = gap / bytes + 1;
        proof {
            let b = bytes as int;
            vstd::arithmetic::div_mod::lemma_fundamental_div_mod(gap as int, b);
            vstd::arithmetic::div_mod::lemma_fundamental_div_mod(first as int, b);
            vstd::arithmetic::div_mod::lemma_fundamental_div_mod(last_page as int, b);
            let q1 = first as int / b;
            let q2 = last_page as int / b;
            assert(gap == b * q2 - b * q1);
            assert(gap == b * (q2 - q1)) by (nonlinear_arith)
                requires
                    gap == b * q2 - b * q1,
            ;
            vstd::arithmetic::div_mod::lemma_mod_multiples_basic(q2 - q1, b);
            assert(b * (q2 - q1) == (q2 - q1) * b) by (nonlinear_arith);
            assert(gap as int % b == 0);
            assert(gap == b * (gap as int / b));
            assert((count - 1) * b == gap) by (nonlinear_arith)
                requires
                    gap == b * (gap as int / b),
                    count - 1 == gap as int / b,
            ;
            assert(count * b == (count - 1) * b + b) by (nonlinear_arith);
            assert(last_page + b <= u64::MAX + 1) by {
                assert(0x1_0000_0000_0000_0000int % 0x1000int == 0);
                assert(0x1_0000_0000_0000_0000int % 0x20_0000int == 0);
                assert(0x1_0000_0000_0000_0000int % 0x4000_0000int == 0);
                lemma_aligned_step(last_page as int, 0x1_0000_0000_0000_0000int, b);
            }
        }
        PageRange { first, count, size }
    }
}

/// One entry to write into a page table: `page` goes to `frame`, with `flags`.
/// Where `flush` is set, what the processor remembers of the page has to be
/// thrown away before the mapping is used; that is so for every mapping in a
/// page table that is in use.
#[derive(Clone, Copy, Debug, PartialEq, Eq, Structural)]
pub struct Mapping {
    pub page: Page,
    pub frame: PhysFrame,
    pub flags: PageTableFlags,
    pub flush: bool,
}

/// Why a page could not be mapped.
#[derive(Clone, Copy, Debug, PartialEq, Eq, Structural)]
pub enum MapToError {
    /// No frame was left for the page or for a table on the way to it.
    FrameAllocationFailed,
    /// A larger page already maps the range that the page lies in.
    ParentEntryHugePage,
    /// The page is mapped already, to the given frame.
    PageAlreadyMapped(PhysFrame),
}

/// Why a page could not be unmapped.
#[derive(Clone, Copy, Debug, PartialEq, Eq, Structural)]
pub enum UnmapError {
    /// A larger page maps the range that the page lies in.
    ParentEntryHugePage,
    /// The page is not mapped.
    PageNotMapped,
    /// The entry of the page holds the given address, which is no frame start.
    InvalidFrameAddress(u64),
}

} // verus!
