//! Page sizes and physical frames.

use vstd::prelude::*;

verus! {

/// One past the largest physical address: physical addresses have 52 bits.
pub const MAX_PHYS_ADDR: u64 = 0x10_0000_0000_0000;

/// The three sizes of page that the processor maps.
#[derive(Clone, Copy, Debug, PartialEq, Eq, Structural)]
pub enum PageSize {
    Size4KiB,
    Size2MiB,
    Size1GiB,
}

impl PageSize {
    /// The size in bytes, which is also the alignment of a page of this size.
    pub open spec fn spec_bytes(self) -> u64 {
        match self {
            PageSize::Size4KiB => 0x1000,
            PageSize::Size2MiB => 0x20_0000,
            PageSize::Size1GiB => 0x4000_0000,
        }
    }

    /// The size in bytes, which is also the alignment of a page of this size.
    #[verifier::when_used_as_spec(spec_bytes)]
    pub fn bytes(self) -> (n: u64)
        ensures
            n == self.spec_bytes(),
    {
        match self {
            PageSize::Size4KiB => 0x1000,
            PageSize::Size2MiB => 0x20_0000,
            PageSize::Size1GiB => 0x4000_0000,
        }
    }
}

/// Whether `align` is the size of a page.
pub open spec fn is_page_size(align: u64) -> bool {
    align == 0x1000 || align == 0x20_0000 || align == 0x4000_0000
}

/// The largest multiple of `align` that is not above `addr`.
pub open spec fn round_down(addr: int, align: int) -> int {
    addr - addr % align
}

/// The smallest multiple of `align` that is not below `addr`.
pub open spec fn round_up(addr: int, align: int) -> int {
    if addr % align == 0 {
        addr
    } else {
        addr - addr % align + align
    }
}

/// Calls `x86_64::align_down`. For a power of two `align`, of which the page
/// sizes are three, that function clears the bits of `addr` below `align`,
/// which takes `addr` down to the nearest multiple of `align`.
#[verifier::external_body]
pub(crate) fn align_down(addr: u64, align: u64) -> (r: u64)
    requires
        is_page_size(align),
    ensures
        r == round_down(addr as int, align as int),
{
    x86_64::align_down(addr, align)
}

/// Calls `x86_64::align_up`. For a power of two `align` that function returns
/// `addr` where it is a multiple of `align` already, and else the next
/// multiple above it; it panics where that multiple does not fit in 64 bits.
#[verifier::external_body]
pub(crate) fn align_up(addr: u64, align: u64) -> (r: u64)
    requires
        is_page_size(align),
        round_up(addr as int, align as int) <= u64::MAX,
    ensures
        r == round_up(addr as int, align as int),
{
    x86_64::align_up(addr, align)
}

/// A frame of physical memory: `size` bytes that start at a multiple of
/// `size`.
#[derive(Clone, Copy, Debug, PartialEq, Eq, Structural)]
pub struct PhysFrame {
    start: u64,
    size: PageSize,
}

impl PhysFrame {
    /// The address of the first byte.
    pub closed spec fn spec_start(self) -> u64 {
        self.start
    }

    /// The size of the frame.
    pub closed spec fn spec_size(self) -> PageSize {
        self.size
    }

    /// One past the address of the last byte.
    pub open spec fn spec_end(self) -> int {
        self.spec_start() + self.spec_size().bytes()
    }

    /// The frame starts at a multiple of its size and ends within the
    /// physical address space.
    pub open spec fn wf(self) -> bool {
        &&& self.spec_start() as int % self.spec_size().bytes() as int == 0
        &&& self.spec_end() <= MAX_PHYS_ADDR
    }

    /// The frame of the given size in which `addr` lies.
    pub fn containing_address(addr: u64, size: PageSize) -> (f: PhysFrame)
        requires
            addr < MAX_PHYS_ADDR,
        ensures
            f.wf(),
            f.spec_size() == size,
            f.spec_start() == round_down(addr as int, size.bytes() as int),
            f.spec_start() <= addr < f.spec_end(),
    {
        let start = align_down(addr, size.bytes());
        proof {
            lemma_round_down(addr as int, size.bytes() as int);
            lemma_max_phys_aligned(size);
            lemma_aligned_step(start as int, MAX_PHYS_ADDR as int, size.bytes() as int);
        }
        PhysFrame { start, size }
    }

    /// The frame of the given size that starts at `addr`, where `addr` is a
    /// multiple of that size and a physical address.
    pub fn from_start_address(addr: u64, size: PageSize) -> (f: Option<PhysFrame>)
        ensures
            f is Some <==> addr as int % size.bytes() as int == 0 && addr < MAX_PHYS_ADDR,
            f matches Some(frame) ==> frame.wf() && frame.spec_start() == addr
                && frame.spec_size() == size,
    {
        if addr < MAX_PHYS_ADDR && addr % size.bytes() == 0 {
            proof {
                lemma_max_phys_aligned(size);
                lemma_aligned_step(addr as int, MAX_PHYS_ADDR as int, size.bytes() as int);
            }
            Some(PhysFrame { start: addr, size })
        } else {
            None
        }
    }

    /// The address of the first byte.
    #[verifier::when_used_as_spec(spec_start)]
    pub fn start_address(self) -> (a: u64)
        ensures
            a == self.spec_start(),
    {
        self.start
    }

    /// The size of the frame.
    #[verifier::when_used_as_spec(spec_size)]
    pub fn size(self) -> (s: PageSize)
        ensures
            s == self.spec_size(),
    {
        self.size
    }

    /// One past the address of the last byte.
    pub fn end_address(self) -> (a: u64)
        requires
            self.wf(),
        ensures
            a == self.spec_end(),
    {
        self.start + self.size.bytes()
    }
}

/// Rounding down stays within one `align` below the address and gives a
/// multiple of `align`.
pub proof fn lemma_round_down(addr: int, align: int)
    requires
        0 <= addr,
        0 < align,
    ensures
        0 <= round_down(addr, align) <= addr < round_down(addr, align) + align,
        round_down(addr, align) % align == 0,
{
    vstd::arithmetic::div_mod::lemma_fundamental_div_mod(addr, align);
    vstd::arithmetic::div_mod::lemma_mod_bound(addr, align);
    vstd::arithmetic::div_mod::lemma_mod_multiples_basic(addr / align, align);
    assert(addr - addr % align == align * (addr / align));
    assert(align * (addr / align) == (addr / align) * align) by (nonlinear_arith);
}

/// Rounding up stays within one `align` above the address and gives a
/// multiple of `align`.
pub proof fn lemma_round_up(addr: int, align: int)
    requires
        0 <= addr,
        0 < align,
    ensures
        addr <= round_up(addr, align) < addr + align,
        round_up(addr, align) % align == 0,
{
    lemma_round_down(addr, align);
    vstd::arithmetic::div_mod::lemma_mod_bound(addr, align);
    if addr % align != 0 {
        vstd::arithmetic::div_mod::lemma_mod_add_multiples_vanish(addr - addr % align, align);
    }
}

/// Two multiples of `align`, the first below the second, lie at least `align`
/// apart.
pub proof fn lemma_aligned_step(low: int, high: int, align: int)
    requires
        0 < align,
        0 <= low < high,
        low % align == 0,
        high % align == 0,
    ensures
        low + align <= high,
{
    vstd::arithmetic::div_mod::lemma_fundamental_div_mod(low, align);
    vstd::arithmetic::div_mod::lemma_fundamental_div_mod(high, align);
    let a = low / align;
    let b = high / align;
    assert(low == align * a);
    assert(high == align * b);
    assert(a < b) by (nonlinear_arith)
        requires
            align * a < align * b,
            0 < align,
    ;
    assert(align * a + align <= align * b) by (nonlinear_arith)
        requires
            a + 1 <= b,
            0 < align,
    ;
}

/// The end of the physical address space is a multiple of every page size.
pub proof fn lemma_max_phys_aligned(size: PageSize)
    ensures
        MAX_PHYS_ADDR as int % size.bytes() as int == 0,
        0 < size.bytes(),
{
    assert(0x10_0000_0000_0000int % 0x1000int == 0);
    assert(0x10_0000_0000_0000int % 0x20_0000int == 0);
    assert(0x10_0000_0000_0000int % 0x4000_0000int == 0);
}

} // verus!
