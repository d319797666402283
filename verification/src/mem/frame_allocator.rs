//! The kernel's allocator of physical frames.
//!
//! The allocator keeps four sets of addresses. Two never change after
//! start-up: the ranges that the memory map calls usable, and the ranges it
//! calls anything else. The other two are the free parts of each. Frames are
//! carved from the free usable set, first fit in ascending address order, and
//! go back to the free set of the kind of memory they lie in.

use crate::boot::memory::{MemoryRegionDescriptor, MemoryRegionKind};
use crate::mem::boot_frames::{
    frame_start,
    frames_hold,
    frames_in,
    frames_of,
    lemma_frame_start,
    lemma_frames_contiguous,
    lemma_frames_in_bounds,
    lemma_usable_frames_push,
    region_frames,
    usable_frames,
    BootInfoFrameAllocator,
    FRAME_SIZE,
};
use crate::mem::frame::{
    align_down,
    align_up,
    lemma_round_down,
    lemma_round_up,
    round_up,
    PageSize,
    PhysFrame,
    MAX_PHYS_ADDR,
};
use crate::mem::region::{
    coalesced,
    covered,
    first_fit,
    law_cut_then_add_restores,
    lemma_first_fit,
    lemma_interval_in_one_region,
    lemma_total_bounds_each,
    seq_encloses,
    seq_holds,
    total_size,
    MemoryRegion,
    MemoryRegions,
};
use vstd::prelude::*;

verus! {

/// Whether an entry of the given kind (usable, or anything else) holds `addr`.
pub open spec fn described(map: Seq<MemoryRegionDescriptor>, usable: bool, addr: int) -> bool {
    exists|i: int|
        0 <= i < map.len() && (#[trigger] map[i]).is_usable() == usable && map[i].holds(addr)
}

/// The range of addresses of a frame.
pub open spec fn frame_region(frame: PhysFrame) -> MemoryRegion {
    MemoryRegion { start: frame.start_address(), end: frame.spec_end() as u64 }
}

/// The frame that first fit finds in the free ranges `free`: the first range
/// of at least the size of the frame is taken, and the frame starts at the
/// first multiple of its size in that range. There is none where no range is
/// long enough, or where the frame would reach beyond the range that was
/// taken or beyond the physical address space.
pub open spec fn fit_start(free: Seq<MemoryRegion>, size: PageSize) -> Option<int> {
    let k = first_fit(free, size.bytes() as int);
    if k < free.len() {
        let start = round_up(free[k].start as int, size.bytes() as int);
        if start + size.bytes() <= free[k].end && start + size.bytes() <= MAX_PHYS_ADDR {
            Some(start)
        } else {
            None
        }
    } else {
        None
    }
}

/// The range that leaves the free set with a frame: from the start of the
/// range that was taken to the end of the frame.
pub open spec fn fit_carved(free: Seq<MemoryRegion>, size: PageSize) -> MemoryRegion {
    let k = first_fit(free, size.bytes() as int);
    MemoryRegion {
        start: free[k].start,
        end: (round_up(free[k].start as int, size.bytes() as int) + size.bytes()) as u64,
    }
}

/// Whether every address that `inner` holds is held by `outer` too.
pub open spec fn within(inner: Seq<MemoryRegion>, outer: Seq<MemoryRegion>) -> bool {
    forall|addr: int| #[trigger] seq_holds(inner, addr) ==> seq_holds(outer, addr)
}

/// Whether the usable entries of the memory map start and end at multiples
/// of 4 KiB, so that their frames lie wholly in them.
pub open spec fn page_aligned(map: Seq<MemoryRegionDescriptor>) -> bool {
    forall|i: int|
        0 <= i < map.len() && (#[trigger] map[i]).is_usable() ==> map[i].start as int % 4096 == 0
            && map[i].end as int % 4096 == 0
}

/// Why a frame cannot be given back.
#[derive(Clone, Copy, Debug, PartialEq, Eq, Structural)]
pub enum DeallocError {
    /// The frame lies in no range that the memory map describes.
    UnknownFrame,
}

/// The allocator of physical frames.
#[derive(Debug)]
pub struct KernelFrameAllocator {
    free_usable_regions: MemoryRegions,
    free_reserved_regions: MemoryRegions,
    usable_regions: MemoryRegions,
    reserved_regions: MemoryRegions,
}

impl KernelFrameAllocator {
    /// The free ranges of usable memory.
    pub closed spec fn free_usable(&self) -> Seq<MemoryRegion> {
        self.free_usable_regions@
    }

    /// The free ranges of reserved memory.
    pub closed spec fn free_reserved(&self) -> Seq<MemoryRegion> {
        self.free_reserved_regions@
    }

    /// All ranges of usable memory.
    pub closed spec fn usable(&self) -> Seq<MemoryRegion> {
        self.usable_regions@
    }

    /// All ranges of reserved memory.
    pub closed spec fn reserved(&self) -> Seq<MemoryRegion> {
        self.reserved_regions@
    }

    /// Each of the four sets is coalesced.
    pub open spec fn wf(&self) -> bool {
        &&& coalesced(self.free_usable())
        &&& coalesced(self.free_reserved())
        &&& coalesced(self.usable())
        &&& coalesced(self.reserved())
    }

    /// Whether a range of usable memory spans the frame.
    pub open spec fn in_usable(&self, frame: PhysFrame) -> bool {
        seq_encloses(self.usable(), frame_region(frame))
    }

    /// Whether all free usable memory lies in the usable ranges of the memory
    /// map. That is so from the start where the map is page-aligned, and it
    /// stays so.
    pub open spec fn free_within_usable(&self) -> bool {
        within(self.free_usable(), self.usable())
    }

    /// Whether a range of reserved memory spans the frame.
    pub open spec fn in_reserved(&self, frame: PhysFrame) -> bool {
        seq_encloses(self.reserved(), frame_region(frame))
    }

    /// Builds the allocator from the memory map and from the number of frames
    /// that were handed out before. The usable and the reserved set hold the
    /// ranges of the map as they stand; the free usable set holds the usable
    /// frames that were not handed out; no reserved memory is free.
    pub fn init(boot_frame_allocator: &BootInfoFrameAllocator) -> (a: KernelFrameAllocator)
        ensures
            a.wf(),
            forall|addr: int|
                covered(a.usable()).contains(addr) <==> described(
                    boot_frame_allocator.map(),
                    true,
                    addr,
                ),
            forall|addr: int|
                covered(a.reserved()).contains(addr) <==> described(
                    boot_frame_allocator.map(),
                    false,
                    addr,
                ),
            forall|addr: int|
                covered(a.free_usable()).contains(addr) <==> frames_hold(
                    boot_frame_allocator.frames(),
                    boot_frame_allocator.used(),
                    addr,
                ),
            a.free_reserved() == Seq::<MemoryRegion>::empty(),
            page_aligned(boot_frame_allocator.map()) ==> a.free_within_usable(),
    {
        let map = boot_frame_allocator.memory_regions();
        let (usable_regions, reserved_regions) = described_regions(map);
        let free_usable_regions = free_frames(map, boot_frame_allocator.used_frame_count());
        proof {
            if page_aligned(map@) {
                assert forall|addr: int| #[trigger]
                    seq_holds(free_usable_regions@, addr) implies seq_holds(
                    usable_regions@,
                    addr,
                ) by {
                    assert(covered(free_usable_regions@).contains(addr));
                    lemma_frames_lie_in_their_entries(map@, boot_frame_allocator.used(), addr);
                    assert(covered(usable_regions@).contains(addr));
                }
            }
        }
        KernelFrameAllocator {
            free_usable_regions,
            free_reserved_regions: MemoryRegions::new(),
            usable_regions,
            reserved_regions,
        }
    }

    /// The free ranges of usable memory, in ascending address order.
    pub fn free_usable_regions(&self) -> (s: &MemoryRegions)
        ensures
            s@ == self.free_usable(),
    {
        &self.free_usable_regions
    }

    /// The free ranges of reserved memory, in ascending address order.
    pub fn free_reserved_regions(&self) -> (s: &MemoryRegions)
        ensures
            s@ == self.free_reserved(),
    {
        &self.free_reserved_regions
    }

    /// All ranges of usable memory, in ascending address order.
    pub fn usable_regions(&self) -> (s: &MemoryRegions)
        ensures
            s@ == self.usable(),
    {
        &self.usable_regions
    }

    /// All ranges of reserved memory, in ascending address order.
    pub fn reserved_regions(&self) -> (s: &MemoryRegions)
        ensures
            s@ == self.reserved(),
    {
        &self.reserved_regions
    }

    /// Takes a frame of the given size from the free usable memory, first
    /// fit. The frame leaves the free set together with what lies below it in
    /// the range that was taken; the rest of that range stays free. Without a
    /// frame nothing changes.
    pub fn allocate_frame(&mut self, size: PageSize) -> (res: Option<PhysFrame>)
        requires
            old(self).wf(),
        ensures
            final(self).wf(),
            final(self).usable() == old(self).usable(),
            final(self).reserved() == old(self).reserved(),
            final(self).free_reserved() == old(self).free_reserved(),
            res is Some <==> fit_start(old(self).free_usable(), size) is Some,
            res matches Some(frame) ==> frame.wf() && frame.size() == size && frame.start_address()
                == fit_start(old(self).free_usable(), size).unwrap() && covered(
                final(self).free_usable(),
            ) == covered(old(self).free_usable()).difference(
                fit_carved(old(self).free_usable(), size).addrs(),
            ) && total_size(final(self).free_usable()) <= total_size(old(self).free_usable())
                - size.bytes(),
            res is None ==> final(self).free_usable() == old(self).free_usable(),
            total_size(old(self).free_usable()) < size.bytes() ==> res is None,
            final(self).free_usable().len() <= old(self).free_usable().len(),
            old(self).free_within_usable() ==> final(self).free_within_usable(),
            old(self).free_within_usable() && res is Some ==> final(self).in_usable(res.unwrap()),
    {
        let ghost free = self.free_usable();
        let bytes = size.bytes();
        proof {
            lemma_first_fit(free, bytes as int);
            let k = first_fit(free, bytes as int);
            if k < free.len() {
                lemma_total_bounds_each(free, k);
            }
        }
        let region = match self.free_usable_regions.find_with_page_size(bytes) {
            Some(region) => region,
            None => { return None; },
        };
        if region.start >= MAX_PHYS_ADDR {
            proof {
                lemma_round_up(region.start as int, bytes as int);
            }
            return None;
        }
        proof {
            lemma_round_up(region.start as int, bytes as int);
        }
        let start = align_up(region.start, bytes);
        let frame_end = start + bytes;
        if frame_end > region.end || frame_end > MAX_PHYS_ADDR {
            return None;
        }
        let frame = match PhysFrame::from_start_address(start, size) {
            Some(frame) => frame,
            None => { return None; },
        };
        let allocated_region = MemoryRegion { start: region.start, end: frame_end };
        assert(free[first_fit(free, bytes as int)].encloses(allocated_region));
        match self.free_usable_regions.cut(allocated_region) {
            Ok(()) => {
                proof {
                    let k = first_fit(free, bytes as int);
                    if within(free, self.usable()) {
                        assert forall|addr: int| #[trigger]
                            seq_holds(self.free_usable(), addr) implies seq_holds(
                            self.usable(),
                            addr,
                        ) by {
                            assert(covered(self.free_usable()).contains(addr));
                            assert(covered(free).contains(addr));
                            assert(seq_holds(free, addr));
                        }
                        let region = frame_region(frame);
                        assert forall|addr: int| #[trigger] region.holds(addr) implies seq_holds(
                            self.usable(),
                            addr,
                        ) by {
                            assert(free[k].holds(addr));
                            assert(seq_holds(free, addr));
                        }
                        lemma_interval_in_one_region(self.usable(), region);
                    }
                }
                Some(frame)
            },
            Err(()) => None,
        }
    }

    /// Tells which kind of memory the frame lies in: `Some(true)` for usable
    /// memory, `Some(false)` for reserved memory, `None` where no range of the
    /// memory map spans the frame. Usable memory is looked at first.
    pub fn owner_of(&self, frame: PhysFrame) -> (kind: Option<bool>)
        requires
            frame.wf(),
        ensures
            kind == if self.in_usable(frame) {
                Some(true)
            } else if self.in_reserved(frame) {
                Some(false)
            } else {
                None
            },
    {
        let region = MemoryRegion { start: frame.start_address(), end: frame.end_address() };
        assert(region == frame_region(frame));
        if self.usable_regions.contains(region) {
            Some(true)
        } else if self.reserved_regions.contains(region) {
            Some(false)
        } else {
            None
        }
    }

    /// Gives a frame back. It joins the free set of the kind of memory it lies
    /// in and is merged with the free ranges next to it. The frame has to lie
    /// in a range that the memory map describes.
    pub fn deallocate_frame(&mut self, frame: PhysFrame)
        requires
            old(self).wf(),
            frame.wf(),
            old(self).in_usable(frame) || old(self).in_reserved(frame),
        ensures
            final(self).wf(),
            final(self).usable() == old(self).usable(),
            final(self).reserved() == old(self).reserved(),
            final(self).free_usable().len() <= old(self).free_usable().len() + 1,
            final(self).free_reserved().len() <= old(self).free_reserved().len() + 1,
            old(self).free_within_usable() ==> final(self).free_within_usable(),
            old(self).in_usable(frame) ==> covered(final(self).free_usable()) == covered(
                old(self).free_usable(),
            ).union(frame_region(frame).addrs()) && final(self).free_reserved() == old(self).free_reserved(),
            !old(self).in_usable(frame) ==> covered(final(self).free_reserved()) == covered(
                old(self).free_reserved(),
            ).union(frame_region(frame).addrs()) && final(self).free_usable() == old(self).free_usable(),
    {
        let region = MemoryRegion { start: frame.start_address(), end: frame.end_address() };
        let ghost free = self.free_usable();
        if self.usable_regions.contains(region) {
            self.free_usable_regions.add(region);
            proof {
                if within(free, self.usable()) {
                    let i = choose|i: int|
                        0 <= i < self.usable().len() && (#[trigger] self.usable()[i]).encloses(
                            region,
                        );
                    assert forall|addr: int| #[trigger]
                        seq_holds(self.free_usable(), addr) implies seq_holds(
                        self.usable(),
                        addr,
                    ) by {
                        assert(covered(self.free_usable()).contains(addr));
                        assert(covered(free).contains(addr) || region.addrs().contains(addr));
                        if region.holds(addr) {
                            assert(self.usable()[i].holds(addr));
                        } else {
                            assert(seq_holds(free, addr));
                        }
                    }
                }
            }
        } else {
            self.free_reserved_regions.add(region);
        }
    }

    /// Gives a frame back if it lies in a range that the memory map describes,
    /// as [`KernelFrameAllocator::deallocate_frame`] does; else reports the
    /// frame as unknown and changes nothing.
    pub fn try_deallocate_frame(&mut self, frame: PhysFrame) -> (res: Result<(), DeallocError>)
        requires
            old(self).wf(),
            frame.wf(),
        ensures
            final(self).wf(),
            final(self).usable() == old(self).usable(),
            final(self).reserved() == old(self).reserved(),
            res is Ok <==> old(self).in_usable(frame) || old(self).in_reserved(frame),
            old(self).free_within_usable() ==> final(self).free_within_usable(),
            res is Err ==> res == Err::<(), DeallocError>(DeallocError::UnknownFrame) && final(self).free_usable() == old(self).free_usable() && final(self).free_reserved() == old(self).free_reserved(),
            res is Ok && old(self).in_usable(frame) ==> covered(final(self).free_usable())
                == covered(old(self).free_usable()).union(frame_region(frame).addrs()) && final(self).free_reserved() == old(self).free_reserved(),
            res is Ok && !old(self).in_usable(frame) ==> covered(final(self).free_reserved())
                == covered(old(self).free_reserved()).union(frame_region(frame).addrs()) && final(self).free_usable() == old(self).free_usable(),
    {
        match self.owner_of(frame) {
            Some(_) => {
                self.deallocate_frame(frame);
                Ok(())
            },
            None => Err(DeallocError::UnknownFrame),
        }
    }
}

/// What the first pass of start-up keeps true of address `addr`.
spec fn described_upto(
    set: Seq<MemoryRegion>,
    seen: Seq<MemoryRegionDescriptor>,
    usable: bool,
    addr: int,
) -> bool {
    seq_holds(set, addr) <==> described(seen, usable, addr)
}

/// What the second pass of start-up keeps true of address `addr`.
spec fn free_upto(
    set: Seq<MemoryRegion>,
    seen: Seq<MemoryRegionDescriptor>,
    used: int,
    addr: int,
) -> bool {
    seq_holds(set, addr) <==> frames_hold(usable_frames(seen), used, addr)
}

/// An address is described by the first `i + 1` entries if the first `i`
/// entries describe it or entry `i` does.
proof fn lemma_described_take(
    map: Seq<MemoryRegionDescriptor>,
    i: int,
    usable: bool,
    addr: int,
)
    requires
        0 <= i < map.len(),
    ensures
        described(map.take(i + 1), usable, addr) <==> (described(map.take(i), usable, addr) || (
        map[i].is_usable() == usable && map[i].holds(addr))),
{
    let s = map.take(i);
    let t = map.take(i + 1);
    if described(s, usable, addr) {
        let j = choose|j: int|
            0 <= j < s.len() && (#[trigger] s[j]).is_usable() == usable && s[j].holds(addr);
        assert(t[j].is_usable() == usable && t[j].holds(addr));
    }
    if map[i].is_usable() == usable && map[i].holds(addr) {
        assert(t[i].is_usable() == usable && t[i].holds(addr));
    }
    if described(t, usable, addr) {
        let j = choose|j: int|
            0 <= j < t.len() && (#[trigger] t[j]).is_usable() == usable && t[j].holds(addr);
        if j < i {
            assert(s[j].is_usable() == usable && s[j].holds(addr));
        }
    }
}

/// The ranges of the memory map, in two sets: the usable ones and the others.
pub fn described_regions(map: &Vec<MemoryRegionDescriptor>) -> (sets: (
    MemoryRegions,
    MemoryRegions,
))
    ensures
        sets.0.wf(),
        sets.1.wf(),
        forall|addr: int| covered(sets.0@).contains(addr) <==> described(map@, true, addr),
        forall|addr: int| covered(sets.1@).contains(addr) <==> described(map@, false, addr),
{
    let mut usable_regions = MemoryRegions::new();
    let mut reserved_regions = MemoryRegions::new();
    let mut i: usize = 0;
    assert forall|addr: int| #[trigger]
        described_upto(usable_regions@, map@.take(0), true, addr) && #[trigger] described_upto(
            reserved_regions@,
            map@.take(0),
            false,
            addr,
        ) by {}
    while i < map.len()
        invariant
            0 <= i <= map@.len(),
            usable_regions.wf(),
            reserved_regions.wf(),
            forall|addr: int| #[trigger]
                described_upto(usable_regions@, map@.take(i as int), true, addr),
            forall|addr: int| #[trigger]
                described_upto(reserved_regions@, map@.take(i as int), false, addr),
        decreases map@.len() - i,
    {
        let d = map[i];
        let region = MemoryRegion { start: d.start, end: d.end };
        let ghost usable0 = usable_regions@;
        let ghost reserved0 = reserved_regions@;
        match d.kind {
            MemoryRegionKind::Usable => {
                usable_regions.add(region);
            },
            _ => {
                reserved_regions.add(region);
            },
        }
        assert forall|addr: int| #[trigger]
            described_upto(usable_regions@, map@.take(i + 1), true, addr) by {
            assert(described_upto(usable0, map@.take(i as int), true, addr));
            lemma_described_take(map@, i as int, true, addr);
            assert(covered(usable_regions@).contains(addr) == seq_holds(usable_regions@, addr));
            assert(covered(usable0).contains(addr) == seq_holds(usable0, addr));
            assert(region.addrs().contains(addr) == region.holds(addr));
        }
        assert forall|addr: int| #[trigger]
            described_upto(reserved_regions@, map@.take(i + 1), false, addr) by {
            assert(described_upto(reserved0, map@.take(i as int), false, addr));
            lemma_described_take(map@, i as int, false, addr);
            assert(covered(reserved_regions@).contains(addr) == seq_holds(
                reserved_regions@,
                addr,
            ));
            assert(covered(reserved0).contains(addr) == seq_holds(reserved0, addr));
            assert(region.addrs().contains(addr) == region.holds(addr));
        }
        i += 1;
    }
    assert(map@.take(map@.len() as int) =~= map@);
    assert forall|addr: int|
        covered(usable_regions@).contains(addr) <==> described(map@, true, addr) by {
        assert(described_upto(usable_regions@, map@, true, addr));
    }
    assert forall|addr: int|
        covered(reserved_regions@).contains(addr) <==> described(map@, false, addr) by {
        assert(described_upto(reserved_regions@, map@, false, addr));
    }
    (usable_regions, reserved_regions)
}

/// The frames from `used` on among those of the first `i + 1` entries are
/// those among the frames of the first `i` entries and those of entry `i`.
proof fn lemma_frames_hold_step(
    map: Seq<MemoryRegionDescriptor>,
    i: int,
    used: int,
    addr: int,
)
    requires
        0 <= i < map.len(),
        0 <= used,
    ensures
        frames_hold(usable_frames(map.take(i + 1)), used, addr) <==> (frames_hold(
            usable_frames(map.take(i)),
            used,
            addr,
        ) || exists|k: int|
            0 <= k < frames_in(map[i]) && used <= usable_frames(map.take(i)).len() + k
                && #[trigger] frame_start(map[i], k) <= addr < frame_start(map[i], k) + 4096),
{
    let d = map[i];
    let prefix = usable_frames(map.take(i));
    let all = usable_frames(map.take(i + 1));
    let base = prefix.len() as int;
    lemma_usable_frames_push(map, i);
    lemma_frames_in_bounds(d);
    if frames_hold(prefix, used, addr) {
        let k = choose|k: int|
            0 <= k && used <= k < prefix.len() && (#[trigger] prefix[k]) <= addr < prefix[k] + 4096;
        assert(all[k] == prefix[k]);
    }
    if exists|k: int|
        0 <= k < frames_in(d) && used <= base + k && #[trigger] frame_start(d, k) <= addr
            < frame_start(d, k) + 4096 {
        let k = choose|k: int|
            0 <= k < frames_in(d) && used <= base + k && #[trigger] frame_start(d, k) <= addr
                < frame_start(d, k) + 4096;
        assert(all[base + k] == region_frames(d)[k]);
        assert(all[base + k] <= addr < all[base + k] + 4096);
    }
    if frames_hold(all, used, addr) {
        let k = choose|k: int|
            0 <= k && used <= k < all.len() && (#[trigger] all[k]) <= addr < all[k] + 4096;
        if k < base {
            assert(prefix[k] == all[k]);
        } else {
            assert(all[k] == region_frames(d)[k - base]);
            assert(frame_start(d, k - base) <= addr < frame_start(d, k - base) + 4096);
        }
    }
}

/// The usable frames of the memory map but for the first `used` of them, as
/// a set of addresses.
pub fn free_frames(map: &Vec<MemoryRegionDescriptor>, used: usize) -> (free: MemoryRegions)
    ensures
        free.wf(),
        forall|addr: int|
            covered(free@).contains(addr) <==> frames_hold(usable_frames(map@), used as int, addr),
{
    let mut free = MemoryRegions::new();
    let mut skip: u64 = used as u64;
    let mut i: usize = 0;
    assert(map@.take(0) =~= Seq::<MemoryRegionDescriptor>::empty());
    assert forall|addr: int| #[trigger] free_upto(free@, map@.take(0), used as int, addr) by {}
    while i < map.len()
        invariant
            0 <= i <= map@.len(),
            free.wf(),
            skip as int == if used > usable_frames(map@.take(i as int)).len() {
                used - usable_frames(map@.take(i as int)).len()
            } else {
                0
            },
            forall|addr: int| #[trigger] free_upto(free@, map@.take(i as int), used as int, addr),
        decreases map@.len() - i,
    {
        let d = map[i];
        let count = frames_of(&d);
        let ghost free0 = free@;
        let ghost base = usable_frames(map@.take(i as int)).len() as int;
        proof {
            lemma_usable_frames_push(map@, i as int);
            lemma_frames_in_bounds(d);
        }
        if skip >= count {
            skip = skip - count;
            assert forall|addr: int| #[trigger]
                free_upto(free@, map@.take(i + 1), used as int, addr) by {
                assert(free_upto(free0, map@.take(i as int), used as int, addr));
                lemma_frames_hold_step(map@, i as int, used as int, addr);
            }
        } else {
            proof {
                lemma_frame_start(d, skip as int);
                lemma_frame_start(d, count - 1);
                lemma_round_down(d.start as int, 4096);
            }
            let first = align_down(d.start, FRAME_SIZE);
            let region = MemoryRegion {
                start: first + skip * FRAME_SIZE,
                end: first + count * FRAME_SIZE,
            };
            free.add(region);
            assert forall|addr: int| #[trigger]
                free_upto(free@, map@.take(i + 1), used as int, addr) by {
                assert(free_upto(free0, map@.take(i as int), used as int, addr));
                lemma_frames_hold_step(map@, i as int, used as int, addr);
                lemma_frames_contiguous(d, skip as int, addr);
                assert(covered(free@).contains(addr) == seq_holds(free@, addr));
                assert(covered(free0).contains(addr) == seq_holds(free0, addr));
                assert(region.addrs().contains(addr) == region.holds(addr));
                assert(region.start == frame_start(d, skip as int));
                assert(region.end == frame_start(d, count as int));
                if exists|k: int|
                    0 <= k < frames_in(d) && used <= base + k && #[trigger] frame_start(d, k)
                        <= addr < frame_start(d, k) + 4096 {
                    let k = choose|k: int|
                        0 <= k < frames_in(d) && used <= base + k && #[trigger] frame_start(d, k)
                            <= addr < frame_start(d, k) + 4096;
                    assert(skip <= k < frames_in(d) && frame_start(d, k) <= addr < frame_start(
                        d,
                        k,
                    ) + 4096);
                }
                if region.holds(addr) {
                    let k = choose|k: int|
                        skip <= k < frames_in(d) && #[trigger] frame_start(d, k) <= addr
                            < frame_start(d, k) + 4096;
                    assert(0 <= k < frames_in(d) && used <= base + k && frame_start(d, k) <= addr
                        < frame_start(d, k) + 4096);
                }
            }
            skip = 0;
        }
        i += 1;
    }
    assert(map@.take(map@.len() as int) =~= map@);
    assert forall|addr: int|
        covered(free@).contains(addr) <==> frames_hold(
            usable_frames(map@),
            used as int,
            addr,
        ) by {
        assert(free_upto(free@, map@, used as int, addr));
    }
    free
}

/// A frame that starts where the free range it was taken from starts, and
/// that goes back before anything else happens, leaves the free ranges as
/// they were before it was taken.
pub proof fn law_allocate_then_deallocate(
    before: Seq<MemoryRegion>,
    size: PageSize,
    between: Seq<MemoryRegion>,
    after: Seq<MemoryRegion>,
)
    requires
        coalesced(before),
        coalesced(after),
        fit_start(before, size) is Some,
        fit_start(before, size).unwrap() == before[first_fit(before, size.bytes() as int)].start,
        covered(between) == covered(before).difference(fit_carved(before, size).addrs()),
        covered(after) == covered(between).union(
            (MemoryRegion {
                start: fit_start(before, size).unwrap() as u64,
                end: (fit_start(before, size).unwrap() + size.bytes()) as u64,
            }).addrs(),
        ),
    ensures
        after == before,
{
    lemma_first_fit(before, size.bytes() as int);
    let k = first_fit(before, size.bytes() as int);
    let carved = fit_carved(before, size);
    assert(before[k].encloses(carved));
    law_cut_then_add_restores(before, carved, between, after);
}

/// No frame comes out of free ranges that together are smaller than the
/// frame.
pub proof fn law_no_frame_beyond_capacity(free: Seq<MemoryRegion>, size: PageSize)
    requires
        coalesced(free),
        total_size(free) < size.bytes(),
    ensures
        fit_start(free, size) is None,
{
    lemma_first_fit(free, size.bytes() as int);
    let k = first_fit(free, size.bytes() as int);
    if k < free.len() {
        lemma_total_bounds_each(free, k);
    }
}

/// A frame that is handed out was free, every byte of it, and is free no
/// longer.
pub proof fn law_allocated_frame_was_free(
    before: Seq<MemoryRegion>,
    size: PageSize,
    after: Seq<MemoryRegion>,
    addr: int,
)
    requires
        coalesced(before),
        fit_start(before, size) is Some,
        covered(after) == covered(before).difference(fit_carved(before, size).addrs()),
        fit_start(before, size).unwrap() <= addr < fit_start(before, size).unwrap() + size.bytes(),
    ensures
        covered(before).contains(addr),
        !covered(after).contains(addr),
{
    lemma_first_fit(before, size.bytes() as int);
    let k = first_fit(before, size.bytes() as int);
    lemma_round_up(before[k].start as int, size.bytes() as int);
    assert(before[k].holds(addr));
    assert(fit_carved(before, size).holds(addr));
}

/// Two frames that are handed out one after the other share no byte.
pub proof fn law_allocations_do_not_overlap(
    before: Seq<MemoryRegion>,
    first: PageSize,
    between: Seq<MemoryRegion>,
    second: PageSize,
    addr: int,
)
    requires
        coalesced(before),
        coalesced(between),
        fit_start(before, first) is Some,
        fit_start(between, second) is Some,
        covered(between) == covered(before).difference(fit_carved(before, first).addrs()),
    ensures
        !(fit_start(before, first).unwrap() <= addr < fit_start(before, first).unwrap()
            + first.bytes() && fit_start(between, second).unwrap() <= addr < fit_start(
            between,
            second,
        ).unwrap() + second.bytes()),
{
    if fit_start(before, first).unwrap() <= addr < fit_start(before, first).unwrap()
        + first.bytes() && fit_start(between, second).unwrap() <= addr < fit_start(
        between,
        second,
    ).unwrap() + second.bytes() {
        law_allocated_frame_was_free(before, first, between, addr);
        lemma_first_fit(between, second.bytes() as int);
        let k = first_fit(between, second.bytes() as int);
        lemma_round_up(between[k].start as int, second.bytes() as int);
        assert(between[k].holds(addr));
        assert(seq_holds(between, addr));
        assert(covered(between).contains(addr));
    }
}

/// A frame that lies wholly outside every range of the memory map is known to
/// neither set of ranges, so it is refused when it is given back:
/// [`KernelFrameAllocator::deallocate_frame`] does not admit it, and
/// [`KernelFrameAllocator::try_deallocate_frame`] reports it as unknown and
/// changes nothing.
pub proof fn law_frame_outside_the_map_is_unknown(
    usable: Seq<MemoryRegion>,
    reserved: Seq<MemoryRegion>,
    frame: PhysFrame,
)
    requires
        frame.wf(),
        forall|addr: int|
            frame.start_address() <= addr < frame.spec_end() ==> !covered(usable).contains(addr)
                && !covered(reserved).contains(addr),
    ensures
        !seq_encloses(usable, frame_region(frame)),
        !seq_encloses(reserved, frame_region(frame)),
{
    let first = frame.start_address() as int;
    assert(frame.start_address() <= first < frame.spec_end());
    if seq_encloses(usable, frame_region(frame)) {
        let i = choose|i: int|
            0 <= i < usable.len() && (#[trigger] usable[i]).encloses(frame_region(frame));
        assert(usable[i].holds(first));
        assert(seq_holds(usable, first));
        assert(covered(usable).contains(first));
    }
    if seq_encloses(reserved, frame_region(frame)) {
        let i = choose|i: int|
            0 <= i < reserved.len() && (#[trigger] reserved[i]).encloses(frame_region(frame));
        assert(reserved[i].holds(first));
        assert(seq_holds(reserved, first));
        assert(covered(reserved).contains(first));
    }
}

/// In a page-aligned memory map every usable frame lies in the entry that
/// gives it, so what the frames hold is usable memory.
pub proof fn lemma_frames_lie_in_their_entries(
    map: Seq<MemoryRegionDescriptor>,
    used: int,
    addr: int,
)
    requires
        page_aligned(map),
        0 <= used,
        frames_hold(usable_frames(map), used, addr),
    ensures
        described(map, true, addr),
    decreases map.len(),
{
    if map.len() == 0 {
    } else {
        let last = map.len() - 1;
        let d = map[last];
        let front = map.drop_last();
        assert(map.take(last) =~= front);
        assert(map.take(last + 1) =~= map);
        lemma_frames_hold_step(map, last, used, addr);
        if frames_hold(usable_frames(front), used, addr) {
            assert forall|i: int| 0 <= i < front.len() && (#[trigger] front[i]).is_usable() implies front[i].start as int
                % 4096 == 0 && front[i].end as int % 4096 == 0 by {
                assert(front[i] == map[i]);
            }
            lemma_frames_lie_in_their_entries(front, used, addr);
            let i = choose|i: int|
                0 <= i < front.len() && (#[trigger] front[i]).is_usable() == true && front[i].holds(
                    addr,
                );
            assert(map[i].is_usable() == true && map[i].holds(addr));
        } else {
            let k = choose|k: int|
                0 <= k < frames_in(d) && used <= usable_frames(front).len() + k
                    && #[trigger] frame_start(d, k) <= addr < frame_start(d, k) + 4096;
            lemma_frames_in_bounds(d);
            assert(d.is_usable());
            let len = d.end - d.start;
            vstd::arithmetic::div_mod::lemma_fundamental_div_mod(d.start as int, 4096);
            vstd::arithmetic::div_mod::lemma_fundamental_div_mod(d.end as int, 4096);
            assert(len == 4096 * (d.end as int / 4096 - d.start as int / 4096));
            assert(len == 4096 * frames_in(d));
            assert(frame_start(d, k) == d.start + 4096 * k);
            assert(map[last].is_usable() == true && map[last].holds(addr));
        }
    }
}

} // verus!
