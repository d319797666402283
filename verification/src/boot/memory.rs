//! The memory map that the firmware delivers.

use crate::mem::frame::{
    lemma_aligned_step,
    lemma_max_phys_aligned,
    lemma_round_down,
    round_down,
    PageSize,
    PhysFrame,
    MAX_PHYS_ADDR,
};
use vstd::prelude::*;

verus! {

/// What a range of physical memory is used for when the kernel starts.
#[derive(Clone, Copy, Debug, PartialEq, Eq, Structural)]
pub enum MemoryRegionKind {
    /// Free for the kernel to use.
    Usable,
    /// Taken by the boot stage.
    Bootloader,
    /// Reserved by UEFI firmware, with the firmware's own type tag.
    UnknownUefi(u32),
    /// Reserved by other firmware, with the firmware's own type tag.
    UnknownFirmware(u32),
}

/// One entry of the memory map: the range `[start, end)` and its use.
#[derive(Clone, Copy, Debug, PartialEq, Eq, Structural)]
pub struct MemoryRegionDescriptor {
    pub start: u64,
    pub end: u64,
    pub kind: MemoryRegionKind,
}

impl MemoryRegionDescriptor {
    /// The entry that stands for nothing: no addresses, owned by the boot
    /// stage.
    pub fn empty() -> (d: MemoryRegionDescriptor)
        ensures
            d == (MemoryRegionDescriptor { start: 0, end: 0, kind: MemoryRegionKind::Bootloader }),
    {
        MemoryRegionDescriptor { start: 0, end: 0, kind: MemoryRegionKind::Bootloader }
    }

    /// Whether the entry is marked as free for the kernel.
    pub open spec fn is_usable(self) -> bool {
        self.kind == MemoryRegionKind::Usable
    }

    /// Whether `addr` lies in the range of the entry.
    pub open spec fn holds(self, addr: int) -> bool {
        self.start <= addr < self.end
    }
}

/// An entry of a firmware's own memory map, as the boot stage reads it.
pub trait MemoryRegion: Copy {
    /// The entry lies in the physical address space.
    spec fn wf(&self) -> bool;

    /// Address of the first byte.
    spec fn spec_start(&self) -> u64;

    /// Number of bytes.
    spec fn spec_len(&self) -> u64;

    /// What the range is used for.
    spec fn spec_kind(&self) -> MemoryRegionKind;

    /// The entry as it stands once the boot stage has left.
    spec fn exited(&self) -> Self;

    /// A well-formed entry ends within the physical address space.
    proof fn lemma_wf(&self)
        requires
            self.wf(),
        ensures
            self.spec_start() + self.spec_len() <= MAX_PHYS_ADDR,
            self.exited().wf(),
            self.exited().spec_start() == self.spec_start(),
            self.exited().spec_len() == self.spec_len(),
    ;

    /// Address of the first byte.
    fn start(&self) -> (a: u64)
        requires
            self.wf(),
        ensures
            a == self.spec_start(),
    ;

    /// Number of bytes.
    fn len(&self) -> (n: u64)
        requires
            self.wf(),
        ensures
            n == self.spec_len(),
    ;

    /// What the range is used for.
    fn kind(&self) -> (k: MemoryRegionKind)
        requires
            self.wf(),
        ensures
            k == self.spec_kind(),
    ;

    /// Marks memory that only the boot stage needed as free for the kernel.
    fn on_bootloader_exit(&mut self)
        requires
            old(self).wf(),
        ensures
            *final(self) == old(self).exited(),
    ;
}

/// The entries that one entry of the firmware's map gives in the map for
/// the kernel, where the boot stage has used up all frames below `next_free`.
/// Usable memory below `next_free` belongs to the boot stage; a usable range
/// that `next_free` cuts gives two entries; everything else is passed on
/// with its kind.
pub open spec fn entries_for<D: MemoryRegion>(d: D, next_free: u64) -> Seq<
    MemoryRegionDescriptor,
> {
    let start = d.spec_start();
    let end = (d.spec_start() + d.spec_len()) as u64;
    let kind = d.exited().spec_kind();
    if kind == MemoryRegionKind::Usable {
        if end <= next_free {
            seq![MemoryRegionDescriptor { start, end, kind: MemoryRegionKind::Bootloader }]
        } else if start >= next_free {
            seq![MemoryRegionDescriptor { start, end, kind: MemoryRegionKind::Usable }]
        } else {
            seq![
                MemoryRegionDescriptor { start, end: next_free, kind: MemoryRegionKind::Bootloader },
                MemoryRegionDescriptor { start: next_free, end, kind: MemoryRegionKind::Usable },
            ]
        }
    } else {
        seq![MemoryRegionDescriptor { start, end, kind }]
    }
}

/// The map for the kernel that the entries `map` give.
pub open spec fn memory_map_for<D: MemoryRegion>(map: Seq<D>, next_free: u64) -> Seq<
    MemoryRegionDescriptor,
>
    decreases map.len(),
{
    if map.len() == 0 {
        Seq::empty()
    } else {
        memory_map_for(map.drop_last(), next_free) + entries_for(map.last(), next_free)
    }
}

/// The frame that an entry gives next, where `next_frame` is the start of
/// the lowest frame that was not handed out: the frame at `next_frame`, or
/// at the start of the entry where that lies higher, as long as it lies
/// below the last frame of the entry.
pub open spec fn frame_from<D: MemoryRegion>(d: D, next_frame: u64) -> Option<int> {
    let first = round_down(d.spec_start() as int, 4096);
    let last = round_down(d.spec_start() + d.spec_len() - 1, 4096);
    let candidate = if next_frame < first {
        first
    } else {
        next_frame as int
    };
    if candidate < last {
        Some(candidate)
    } else {
        None
    }
}

/// Where an allocator stands after it has looked for a frame: the frame it
/// found, if any, and its new position in the map, entry and lowest frame not
/// handed out.
pub struct Found<D> {
    pub frame: Option<int>,
    pub position: int,
    pub current: Option<D>,
    pub next_frame: u64,
}

/// The lowest frame not handed out after an entry was looked at and gave
/// `frame`, or nothing: behind the frame that was given; else at the start of
/// the entry, where that lies above `next_frame`.
pub open spec fn next_after<D: MemoryRegion>(d: D, next_frame: u64, frame: Option<int>) -> u64 {
    match frame {
        Some(f) => (f + 4096) as u64,
        None => if next_frame < round_down(d.spec_start() as int, 4096) {
            round_down(d.spec_start() as int, 4096) as u64
        } else {
            next_frame
        },
    }
}

/// The search for a frame through the entries from `position` on: entries
/// that are not usable are passed over; the first usable entry that has a
/// frame left gives it and becomes the entry that the allocator is in.
pub open spec fn scan_from<D: MemoryRegion>(map: Seq<D>, position: int, next_frame: u64) -> Found<
    D,
>
    decreases map.len() - position,
{
    if position < 0 || position >= map.len() {
        Found { frame: None, position, current: None, next_frame }
    } else if map[position].spec_kind() != MemoryRegionKind::Usable {
        scan_from(map, position + 1, next_frame)
    } else {
        match frame_from(map[position], next_frame) {
            Some(f) => Found {
                frame: Some(f),
                position: position + 1,
                current: Some(map[position]),
                next_frame: (f + 4096) as u64,
            },
            None => scan_from(map, position + 1, next_after(map[position], next_frame, None)),
        }
    }
}

/// The search for a frame, first in the entry that the allocator is in and
/// then through the entries that follow.
pub open spec fn next_frame_of<D: MemoryRegion>(
    map: Seq<D>,
    position: int,
    current: Option<D>,
    next_frame: u64,
) -> Found<D> {
    match current {
        Some(d) => match frame_from(d, next_frame) {
            Some(f) => Found { frame: Some(f), position, current, next_frame: (f + 4096) as u64 },
            None => scan_from(map, position, next_after(d, next_frame, None)),
        },
        None => scan_from(map, position, next_frame),
    }
}

/// The allocator of the boot stage: it hands out the frames of the usable
/// entries of the firmware's map, lowest first within an entry, entry by
/// entry.
pub struct FrameAllocator<D: MemoryRegion> {
    memory_map: Vec<D>,
    position: usize,
    current_descriptor: Option<D>,
    next_frame: PhysFrame,
}

impl<D: MemoryRegion> FrameAllocator<D> {
    /// The firmware's memory map.
    pub closed spec fn map(&self) -> Seq<D> {
        self.memory_map@
    }

    /// Number of entries that the allocator has gone past.
    pub closed spec fn position(&self) -> int {
        self.position as int
    }

    /// The entry that the allocator takes frames from, if it is in one.
    pub closed spec fn current(&self) -> Option<D> {
        self.current_descriptor
    }

    /// The lowest frame that was not handed out.
    pub closed spec fn cursor(&self) -> PhysFrame {
        self.next_frame
    }

    /// Start of the lowest frame that was not handed out.
    pub open spec fn next_frame(&self) -> u64 {
        self.cursor().start_address()
    }

    /// The entries are well formed and not empty, and the next frame is a
    /// 4 KiB frame.
    pub open spec fn wf(&self) -> bool {
        &&& forall|i: int|
            0 <= i < self.map().len() ==> (#[trigger] self.map()[i]).wf() && self.map()[i].spec_len()
                > 0
        &&& 0 <= self.position() <= self.map().len()
        &&& self.current() matches Some(d) ==> d.wf() && d.spec_len() > 0 && d.spec_kind()
            == MemoryRegionKind::Usable
        &&& self.cursor().wf()
        &&& self.cursor().size() == PageSize::Size4KiB
    }

    /// An allocator over `memory_map` that leaves the first frame of memory
    /// alone and starts at address `0x1000`.
    pub fn new(memory_map: Vec<D>) -> (a: FrameAllocator<D>)
        requires
            forall|i: int|
                0 <= i < memory_map@.len() ==> (#[trigger] memory_map@[i]).wf()
                    && memory_map@[i].spec_len() > 0,
        ensures
            a.wf(),
            a.map() == memory_map@,
            a.position() == 0,
            a.current() is None,
            a.next_frame() == 0x1000,
    {
        let start_frame = PhysFrame::containing_address(0x1000, PageSize::Size4KiB);
        assert(0x1000int % 4096 == 0);
        Self::new_starting_at(start_frame, memory_map)
    }

    /// An allocator over `memory_map` that hands out no frame below `frame`.
    pub fn new_starting_at(frame: PhysFrame, memory_map: Vec<D>) -> (a: FrameAllocator<D>)
        requires
            frame.wf(),
            frame.size() == PageSize::Size4KiB,
            forall|i: int|
                0 <= i < memory_map@.len() ==> (#[trigger] memory_map@[i]).wf()
                    && memory_map@[i].spec_len() > 0,
        ensures
            a.wf(),
            a.map() == memory_map@,
            a.position() == 0,
            a.current() is None,
            a.next_frame() == frame.start_address(),
    {
        FrameAllocator {
            memory_map,
            position: 0,
            current_descriptor: None,
            next_frame: frame,
        }
    }

    /// Number of entries in the firmware's map.
    pub fn len(&self) -> (n: usize)
        ensures
            n == self.map().len(),
    {
        self.memory_map.len()
    }

    /// Takes the next frame from the entry `descriptor`, if it has one left.
    pub fn allocate_frame_from_descriptor(&mut self, descriptor: D) -> (res: Option<PhysFrame>)
        requires
            old(self).wf(),
            descriptor.wf(),
            descriptor.spec_len() > 0,
        ensures
            final(self).wf(),
            final(self).map() == old(self).map(),
            final(self).position() == old(self).position(),
            final(self).current() == old(self).current(),
            res is Some <==> frame_from(descriptor, old(self).next_frame()) is Some,
            res matches Some(frame) ==> frame.wf() && frame.size() == PageSize::Size4KiB
                && frame.start_address() == frame_from(descriptor, old(self).next_frame()).unwrap()
                && final(self).next_frame() == frame.start_address() + 4096,
            final(self).next_frame() == next_after(
                descriptor,
                old(self).next_frame(),
                frame_from(descriptor, old(self).next_frame()),
            ),
    {
        proof {
            descriptor.lemma_wf();
            lemma_round_down(descriptor.spec_start() as int, 4096);
            lemma_round_down(descriptor.spec_start() + descriptor.spec_len() - 1, 4096);
            lemma_max_phys_aligned(PageSize::Size4KiB);
        }
        let start_addr = descriptor.start();
        let start_frame = PhysFrame::containing_address(start_addr, PageSize::Size4KiB);
        let end_addr = start_addr + descriptor.len();
        let end_frame = PhysFrame::containing_address(end_addr - 1, PageSize::Size4KiB);
        if self.next_frame.start_address() < start_frame.start_address() {
            self.next_frame = start_frame;
        }
        if self.next_frame.start_address() < end_frame.start_address() {
            let result = self.next_frame;
            proof {
                lemma_aligned_step(
                    result.start_address() as int,
                    end_frame.start_address() as int,
                    4096,
                );
            }
            let next = PhysFrame::containing_address(
                result.start_address() + 4096,
                PageSize::Size4KiB,
            );
            proof {
                vstd::arithmetic::div_mod::lemma_mod_add_multiples_vanish(
                    result.start_address() as int,
                    4096,
                );
                assert((result.start_address() + 4096) % 4096 == 0);
                assert(next.start_address() == result.start_address() + 4096);
            }
            self.next_frame = next;
            Some(result)
        } else {
            None
        }
    }

    /// Hands out the next frame of usable memory: from the entry that the
    /// allocator is in, as long as it has one, and else from the first usable
    /// entry further on in the map that has one.
    pub fn allocate_frame(&mut self) -> (res: Option<PhysFrame>)
        requires
            old(self).wf(),
        ensures
            final(self).wf(),
            final(self).map() == old(self).map(),
            ({
                let found = next_frame_of(
                    old(self).map(),
                    old(self).position(),
                    old(self).current(),
                    old(self).next_frame(),
                );
                &&& res is Some <==> found.frame is Some
                &&& res matches Some(frame) ==> frame.wf() && frame.size() == PageSize::Size4KiB
                    && frame.start_address() == found.frame.unwrap()
                &&& final(self).position() == found.position
                &&& final(self).current() == found.current
                &&& final(self).next_frame() == found.next_frame
            }),
    {
        let ghost goal = next_frame_of(
            self.map(),
            self.position(),
            self.current(),
            self.next_frame(),
        );
        if let Some(current_descriptor) = self.current_descriptor {
            proof {
                lemma_round_down(current_descriptor.spec_start() as int, 4096);
            }
            match self.allocate_frame_from_descriptor(current_descriptor) {
                Some(frame) => {
                    return Some(frame);
                },
                None => {
                    self.current_descriptor = None;
                },
            }
        }
        while self.position < self.memory_map.len()
            invariant
                self.wf(),
                self.map() == old(self).map(),
                self.current() is None,
                goal == next_frame_of(
                    old(self).map(),
                    old(self).position(),
                    old(self).current(),
                    old(self).next_frame(),
                ),
                goal == scan_from(self.map(), self.position(), self.next_frame()),
            decreases self.map().len() - self.position(),
        {
            let descriptor = self.memory_map[self.position];
            self.position = self.position + 1;
            if !is_usable(&descriptor) {
                continue ;
            }
            proof {
                lemma_round_down(descriptor.spec_start() as int, 4096);
            }
            if let Some(frame) = self.allocate_frame_from_descriptor(descriptor) {
                self.current_descriptor = Some(descriptor);
                return Some(frame);
            }
        }
        None
    }

    /// The memory map for the kernel: the firmware's entries as they stand
    /// once the boot stage has left, with the memory that the boot stage
    /// used marked as its own.
    pub fn create_memory_map(self) -> (regions: Vec<MemoryRegionDescriptor>)
        requires
            self.wf(),
        ensures
            regions@ == memory_map_for(self.map(), self.next_frame()),
    {
        let mut regions: Vec<MemoryRegionDescriptor> = Vec::new();
        let next_free = self.next_frame.start_address();
        let n = self.memory_map.len();
        let mut i: usize = 0;
        assert(self.map().take(0) =~= Seq::<D>::empty());
        while i < n
            invariant
                0 <= i <= n,
                n == self.map().len(),
                self.wf(),
                next_free == self.next_frame(),
                regions@ == memory_map_for(self.map().take(i as int), next_free),
            decreases n - i,
        {
            let mut descriptor = self.memory_map[i];
            proof {
                descriptor.lemma_wf();
                assert(self.map().take(i + 1).drop_last() =~= self.map().take(i as int));
            }
            let ghost d0 = descriptor;
            let mut start = descriptor.start();
            let end = start + descriptor.len();
            descriptor.on_bootloader_exit();
            let kind = match descriptor.kind() {
                MemoryRegionKind::Usable => {
                    if end <= next_free {
                        MemoryRegionKind::Bootloader
                    } else if start >= next_free {
                        MemoryRegionKind::Usable
                    } else {
                        let used_region = MemoryRegionDescriptor {
                            start,
                            end: next_free,
                            kind: MemoryRegionKind::Bootloader,
                        };
                        regions.push(used_region);
                        start = next_free;
                        MemoryRegionKind::Usable
                    }
                },
                other => other,
            };
            let region = MemoryRegionDescriptor { start, end, kind };
            regions.push(region);
            assert(regions@ =~= memory_map_for(self.map().take(i as int), next_free) + entries_for(
                d0,
                next_free,
            ));
            i += 1;
        }
        assert(self.map().take(n as int) =~= self.map());
        regions
    }
}

/// Tells whether the entry is marked as free for the kernel.
pub fn is_usable<D: MemoryRegion>(d: &D) -> (b: bool)
    requires
        d.wf(),
    ensures
        b == (d.spec_kind() == MemoryRegionKind::Usable),
{
    match d.kind() {
        MemoryRegionKind::Usable => true,
        _ => false,
    }
}

} // verus!
