//! The frames that the firmware's memory map marks as usable.
//!
//! Each usable entry of the map gives the 4 KiB frames that hold the addresses
//! `start`, `start + 4096`, ... below `end`; the entries are taken in the
//! order of the map. An entry that is empty, inverted or reaches beyond the
//! physical address space gives none.

use crate::boot::memory::{MemoryRegionDescriptor, MemoryRegionKind};
use crate::mem::frame::{
    lemma_aligned_step,
    lemma_max_phys_aligned,
    lemma_round_down,
    round_down,
    PageSize,
    PhysFrame,
    MAX_PHYS_ADDR,
};
use vstd::prelude::*;

verus! {

/// Bytes in a frame of the smallest size.
pub const FRAME_SIZE: u64 = 4096;

/// Whether the entry gives any frame.
pub open spec fn yields_frames(d: MemoryRegionDescriptor) -> bool {
    d.is_usable() && d.start < d.end && d.end <= MAX_PHYS_ADDR
}

/// Number of frames that the entry gives.
pub open spec fn frames_in(d: MemoryRegionDescriptor) -> int {
    if yields_frames(d) {
        (d.end - d.start + 4095) / 4096
    } else {
        0
    }
}

/// Start address of the `k`-th frame of the entry.
pub open spec fn frame_start(d: MemoryRegionDescriptor, k: int) -> int {
    round_down(d.start as int, 4096) + 4096 * k
}

/// Start addresses of the frames of one entry, in ascending order.
pub open spec fn region_frames(d: MemoryRegionDescriptor) -> Seq<int> {
    Seq::new(frames_in(d) as nat, |k: int| frame_start(d, k))
}

/// Start addresses of the usable frames of a memory map, entry by entry.
pub open spec fn usable_frames(map: Seq<MemoryRegionDescriptor>) -> Seq<int>
    decreases map.len(),
{
    if map.len() == 0 {
        Seq::empty()
    } else {
        usable_frames(map.drop_last()) + region_frames(map.last())
    }
}

/// Whether `addr` lies in one of the frames from index `from` on.
pub open spec fn frames_hold(frames: Seq<int>, from: int, addr: int) -> bool {
    exists|k: int|
        0 <= k && from <= k < frames.len() && (#[trigger] frames[k]) <= addr < frames[k] + 4096
}

/// An entry gives no more frames than physical memory has, and as many as
/// it takes to hold its addresses from the first on in steps of a frame.
pub proof fn lemma_frames_in_bounds(d: MemoryRegionDescriptor)
    ensures
        0 <= frames_in(d) <= MAX_PHYS_ADDR / 4096,
        yields_frames(d) ==> 1 <= frames_in(d) && 4096 * (frames_in(d) - 1) < d.end - d.start
            <= 4096 * frames_in(d),
{
    if yields_frames(d) {
        let len = d.end - d.start;
        vstd::arithmetic::div_mod::lemma_fundamental_div_mod(len + 4095, 4096);
        vstd::arithmetic::div_mod::lemma_mod_bound(len + 4095, 4096);
    }
}

/// Every frame of an entry is a frame of physical memory, and the frames lie
/// one after the other.
pub proof fn lemma_frame_start(d: MemoryRegionDescriptor, k: int)
    requires
        0 <= k < frames_in(d),
    ensures
        0 <= frame_start(d, k),
        frame_start(d, k) + 4096 <= MAX_PHYS_ADDR,
        frame_start(d, k) % 4096 == 0,
        frame_start(d, k) == round_down(d.start + 4096 * k, 4096),
{
    lemma_frames_in_bounds(d);
    lemma_round_down(d.start as int, 4096);
    lemma_round_down(d.start + 4096 * k, 4096);
    vstd::arithmetic::div_mod::lemma_mod_multiples_vanish(k, d.start as int, 4096);
    assert((4096 * k + d.start) % 4096 == d.start as int % 4096);
    assert(frame_start(d, k) == round_down(d.start + 4096 * k, 4096));
    lemma_max_phys_aligned(PageSize::Size4KiB);
    lemma_aligned_step(frame_start(d, k), MAX_PHYS_ADDR as int, 4096);
}

/// The frames of the first `i + 1` entries are those of the first `i`
/// entries and then those of entry `i`.
pub proof fn lemma_usable_frames_push(map: Seq<MemoryRegionDescriptor>, i: int)
    requires
        0 <= i < map.len(),
    ensures
        usable_frames(map.take(i + 1)) == usable_frames(map.take(i)) + region_frames(map[i]),
        usable_frames(map.take(i + 1)).len() == usable_frames(map.take(i)).len() + frames_in(
            map[i],
        ),
{
    lemma_frames_in_bounds(map[i]);
    assert(map.take(i + 1).drop_last() =~= map.take(i));
}

/// The frames `from..count` of one entry hold the addresses from the start of
/// the first of them to the end of the last.
pub proof fn lemma_frames_contiguous(d: MemoryRegionDescriptor, from: int, addr: int)
    requires
        0 <= from < frames_in(d),
    ensures
        (exists|k: int|
            from <= k < frames_in(d) && #[trigger] frame_start(d, k) <= addr < frame_start(d, k)
                + 4096) <==> frame_start(d, from) <= addr < frame_start(d, frames_in(d)),
{
    let base = round_down(d.start as int, 4096);
    if frame_start(d, from) <= addr < frame_start(d, frames_in(d)) {
        let off = addr - base;
        let k = off / 4096;
        vstd::arithmetic::div_mod::lemma_fundamental_div_mod(off, 4096);
        vstd::arithmetic::div_mod::lemma_mod_bound(off, 4096);
        assert(frame_start(d, k) <= addr < frame_start(d, k) + 4096);
        assert(from <= k < frames_in(d));
    }
}

/// The source of frames for the time before the kernel has a heap: it walks
/// the usable frames of the memory map and hands each out once.
#[derive(Debug)]
pub struct BootInfoFrameAllocator {
    memory_regions: Vec<MemoryRegionDescriptor>,
    next: usize,
}

impl BootInfoFrameAllocator {
    /// The memory map.
    pub closed spec fn map(&self) -> Seq<MemoryRegionDescriptor> {
        self.memory_regions@
    }

    /// Number of frames handed out so far.
    pub closed spec fn used(&self) -> int {
        self.next as int
    }

    /// Start addresses of all usable frames of the map.
    pub open spec fn frames(&self) -> Seq<int> {
        usable_frames(self.map())
    }

    /// A source over the given memory map, with no frame handed out yet.
    pub fn init(memory_regions: Vec<MemoryRegionDescriptor>) -> (s: BootInfoFrameAllocator)
        ensures
            s.map() == memory_regions@,
            s.used() == 0,
    {
        BootInfoFrameAllocator { memory_regions, next: 0 }
    }

    /// The memory map that the source walks.
    pub fn memory_regions(&self) -> (v: &Vec<MemoryRegionDescriptor>)
        ensures
            v@ == self.map(),
    {
        &self.memory_regions
    }

    /// Number of frames handed out so far.
    pub fn used_frame_count(&self) -> (n: usize)
        ensures
            n == self.used(),
    {
        self.next
    }

    /// The `n`-th usable frame of the map, counted from zero.
    pub fn usable_frame(&self, n: usize) -> (f: Option<PhysFrame>)
        ensures
            f is Some <==> n < self.frames().len(),
            f matches Some(frame) ==> frame.wf() && frame.start_address() == self.frames()[n as int]
                && frame.size() == PageSize::Size4KiB,
    {
        let mut rest: u64 = n as u64;
        let mut i: usize = 0;
        let ghost map = self.map();
        assert(map.take(0) =~= Seq::<MemoryRegionDescriptor>::empty());
        while i < self.memory_regions.len()
            invariant
                0 <= i <= map.len(),
                map == self.map(),
                rest + usable_frames(map.take(i as int)).len() == n,
            decreases map.len() - i,
        {
            let d = self.memory_regions[i];
            let count = frames_of(&d);
            proof {
                lemma_usable_frames_push(map, i as int);
            }
            if rest < count {
                proof {
                    lemma_frame_start(d, rest as int);
                    lemma_usable_frames_prefix(map, i as int + 1);
                    let prefix = usable_frames(map.take(i as int));
                    assert((prefix + region_frames(d))[n as int] == region_frames(d)[rest as int]);
                }
                let frame = PhysFrame::containing_address(
                    d.start + rest * FRAME_SIZE,
                    PageSize::Size4KiB,
                );
                return Some(frame);
            }
            rest = rest - count;
            i += 1;
        }
        assert(map.take(map.len() as int) =~= map);
        None
    }

    /// All usable frames of the map, in the order of the map.
    pub fn usable_frames(&self) -> (v: Vec<PhysFrame>)
        ensures
            v@.len() == self.frames().len(),
            forall|k: int|
                0 <= k < v@.len() ==> (#[trigger] v@[k]).wf() && v@[k].start_address()
                    == self.frames()[k] && v@[k].size() == PageSize::Size4KiB,
    {
        let mut v: Vec<PhysFrame> = Vec::new();
        let mut i: usize = 0;
        let ghost map = self.map();
        assert(map.take(0) =~= Seq::<MemoryRegionDescriptor>::empty());
        while i < self.memory_regions.len()
            invariant
                0 <= i <= map.len(),
                map == self.map(),
                v@.len() == usable_frames(map.take(i as int)).len(),
                forall|k: int|
                    0 <= k < v@.len() ==> (#[trigger] v@[k]).wf() && v@[k].start_address()
                        == usable_frames(map.take(i as int))[k] && v@[k].size()
                        == PageSize::Size4KiB,
            decreases map.len() - i,
        {
            let d = self.memory_regions[i];
            let count = frames_of(&d);
            let ghost prefix = usable_frames(map.take(i as int));
            proof {
                lemma_usable_frames_push(map, i as int);
            }
            let mut k: u64 = 0;
            while k < count
                invariant
                    0 <= k <= count,
                    count == frames_in(d),
                    prefix == usable_frames(map.take(i as int)),
                    v@.len() == prefix.len() + k,
                    forall|j: int|
                        0 <= j < v@.len() ==> (#[trigger] v@[j]).wf() && v@[j].start_address() == (
                        prefix + region_frames(d))[j] && v@[j].size() == PageSize::Size4KiB,
                decreases count - k,
            {
                proof {
                    lemma_frame_start(d, k as int);
                }
                let frame = PhysFrame::containing_address(
                    d.start + k * FRAME_SIZE,
                    PageSize::Size4KiB,
                );
                v.push(frame);
                k += 1;
            }
            i += 1;
        }
        assert(map.take(map.len() as int) =~= map);
        v
    }

    /// Hands out the next usable frame, or nothing once the map is used up.
    /// The count of frames handed out goes up either way.
    pub fn allocate_frame(&mut self) -> (f: Option<PhysFrame>)
        ensures
            final(self).map() == old(self).map(),
            final(self).used() == if old(self).used() < usize::MAX {
                old(self).used() + 1
            } else {
                old(self).used()
            },
            f is Some <==> old(self).used() < old(self).frames().len(),
            f matches Some(frame) ==> frame.wf() && frame.start_address() == old(self).frames()[old(self).used()] && frame.size() == PageSize::Size4KiB,
    {
        let frame = self.usable_frame(self.next);
        if self.next < usize::MAX {
            self.next += 1;
        }
        frame
    }
}

/// Number of frames that the entry gives.
pub fn frames_of(d: &MemoryRegionDescriptor) -> (n: u64)
    ensures
        n == frames_in(*d),
{
    let usable = match d.kind {
        MemoryRegionKind::Usable => true,
        _ => false,
    };
    if usable && d.start < d.end && d.end <= MAX_PHYS_ADDR {
        (d.end - d.start + 4095) / 4096
    } else {
        0
    }
}

/// The frames of a part of the map are the first frames of the whole map.
pub proof fn lemma_usable_frames_prefix(map: Seq<MemoryRegionDescriptor>, i: int)
    requires
        0 <= i <= map.len(),
    ensures
        usable_frames(map.take(i)).len() <= usable_frames(map).len(),
        forall|k: int|
            0 <= k < usable_frames(map.take(i)).len() ==> usable_frames(map.take(i))[k]
                == #[trigger] usable_frames(map)[k],
    decreases map.len() - i,
{
    if i == map.len() {
        assert(map.take(i) =~= map);
    } else {
        lemma_usable_frames_push(map, i);
        lemma_usable_frames_prefix(map, i + 1);
    }
}

} // verus!
