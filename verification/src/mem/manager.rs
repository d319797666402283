//! The memory manager: which pages to map, to which frames, in what order.
//!
//! The manager owns the frame allocator and the record of the page tables of
//! the additional processors. It does not own a page table: every operation
//! that changes one is handed out as a [`Mapping`], or as a [`MappingJob`]
//! that hands out one mapping after the other, and the caller reports back
//! what the page table made of it.

use crate::mem::frame::{PageSize, PhysFrame};
use crate::mem::frame_allocator::{
    fit_carved,
    fit_start,
    frame_region,
    DeallocError,
    KernelFrameAllocator,
};
use crate::mem::paging::{
    MapToError,
    Mapping,
    Page,
    PageRange,
    PageTableFlags,
    LOWER_HALF_END,
    UPPER_HALF_START,
};
use crate::mem::region::covered;
use std::collections::BTreeMap;
use vstd::prelude::*;

verus! {

broadcast use vstd::std_specs::btree::group_btree_axioms;

/// Where the stacks of the additional processors start.
pub const AP_STACK_START: u64 = 0xFFFF_FFFF_2000_0000;

/// Where the heap ends at first and from where it is extended. The address is
/// a multiple of 1 GiB.
pub const EXTENDED_HEAP_START: u64 = 0x4446_0000_0000;

/// Largest stack, in bytes, that fits between [`AP_STACK_START`] and the end
/// of the address space.
pub const MAX_STACK_SIZE: u64 = 0xDFFF_FFFF;

/// Where the frames of a job come from.
#[derive(Clone, Copy, Debug, PartialEq, Eq, Structural)]
pub enum FrameSource {
    /// Each page goes to the frame at its own address.
    Identity,
    /// Each page goes to a frame that the frame allocator hands out.
    Fresh,
}

/// What a job asks for next.
#[derive(Clone, Copy, Debug, PartialEq, Eq)]
pub enum MappingStep {
    /// Write this mapping into the page table and report the outcome.
    Apply(Mapping),
    /// Nothing is left to do: all pages are mapped, or the job has failed.
    Finished(Result<(), MapToError>),
}

/// The mapping of a run of pages, one page at a time, in ascending order.
/// The first failure ends the job; pages that were mapped before stay mapped.
#[derive(Clone, Copy, Debug)]
pub struct MappingJob {
    pages: PageRange,
    next: u64,
    source: FrameSource,
    flags: PageTableFlags,
    flush: bool,
    tolerant: bool,
    failure: Option<MapToError>,
}

impl MappingJob {
    /// The pages of the job.
    pub closed spec fn pages(&self) -> PageRange {
        self.pages
    }

    /// Index of the page that is handed out next.
    pub closed spec fn position(&self) -> int {
        self.next as int
    }

    /// Where the frames come from.
    pub closed spec fn source(&self) -> FrameSource {
        self.source
    }

    /// The flags of every mapping of the job.
    pub closed spec fn flags(&self) -> PageTableFlags {
        self.flags
    }

    /// Whether the mappings of the job go into a page table that is in use.
    pub closed spec fn flush(&self) -> bool {
        self.flush
    }

    /// Whether a page that is mapped already counts as done.
    pub closed spec fn tolerant(&self) -> bool {
        self.tolerant
    }

    /// The failure that ended the job, if one did.
    pub closed spec fn failure(&self) -> Option<MapToError> {
        self.failure
    }

    /// The run of pages is well formed and lies in one half of the virtual
    /// address space; where the job maps each page to the frame at its own
    /// address, it lies in the lower half, where the addresses of pages and
    /// of frames are the same numbers.
    pub open spec fn wf(&self) -> bool {
        &&& self.pages().wf()
        &&& 0 <= self.position() <= self.pages().count
        &&& self.pages().spec_end() <= LOWER_HALF_END || self.pages().first >= UPPER_HALF_START
        &&& self.source() == FrameSource::Identity ==> self.pages().spec_end() <= LOWER_HALF_END
    }

    /// Whether an outcome ends the job: any failure does, but for a page that
    /// was mapped already where the job tolerates that.
    pub open spec fn fatal(&self, outcome: Result<(), MapToError>) -> bool {
        match outcome {
            Ok(()) => false,
            Err(MapToError::PageAlreadyMapped(_)) => !self.tolerant(),
            Err(_) => true,
        }
    }

    /// A job over `pages` that has handed out nothing yet.
    pub fn new(
        pages: PageRange,
        source: FrameSource,
        flags: PageTableFlags,
        flush: bool,
        tolerant: bool,
    ) -> (job: MappingJob)
        requires
            pages.wf(),
            pages.spec_end() <= LOWER_HALF_END || pages.first >= UPPER_HALF_START,
            source == FrameSource::Identity ==> pages.spec_end() <= LOWER_HALF_END,
        ensures
            job.wf(),
            job.pages() == pages,
            job.position() == 0,
            job.source() == source,
            job.flags() == flags,
            job.flush() == flush,
            job.tolerant() == tolerant,
            job.failure() is None,
    {
        MappingJob { pages, next: 0, source, flags, flush, tolerant, failure: None }
    }

    /// Number of pages that were handed out so far.
    pub fn handed_out(&self) -> (n: u64)
        ensures
            n == self.position(),
    {
        self.next
    }

    /// Number of pages of the job.
    pub fn page_count(&self) -> (n: u64)
        ensures
            n == self.pages().count,
    {
        self.pages.count
    }

    /// The page that is due next, unless the job has failed or has handed out
    /// all its pages.
    pub fn next_page(&self) -> (page: Option<Page>)
        requires
            self.wf(),
        ensures
            page is Some <==> self.failure() is None && self.position() < self.pages().count,
            page matches Some(p) ==> p.wf() && p.size() == self.pages().size && p.start_address()
                == self.pages().spec_nth(self.position()) && p.start_address()
                + self.pages().size.bytes() <= self.pages().spec_end(),
    {
        if self.failure.is_some() || self.next >= self.pages.count {
            return None;
        }
        let addr = self.pages.nth(self.next);
        proof {
            let b = self.pages.size.bytes() as int;
            assert(0 <= self.next * b) by (nonlinear_arith)
                requires
                    0 <= self.next,
                    0 < b,
            ;
        }
        Page::from_start_address(addr, self.pages.size)
    }

    /// Hands out the next mapping, to a frame that the caller brings. A job
    /// that has failed, or that has handed out all its pages, says so and
    /// stays as it is. Else the next page of the run goes to `frame`; where
    /// the caller has none, the job fails with
    /// [`MapToError::FrameAllocationFailed`].
    pub fn step_with(&mut self, frame: Option<PhysFrame>) -> (res: MappingStep)
        requires
            old(self).wf(),
            frame matches Some(f) ==> f.wf() && f.size() == old(self).pages().size,
        ensures
            final(self).wf(),
            final(self).pages() == old(self).pages(),
            final(self).source() == old(self).source(),
            final(self).flags() == old(self).flags(),
            final(self).flush() == old(self).flush(),
            final(self).tolerant() == old(self).tolerant(),
            old(self).failure() matches Some(e) ==> res == MappingStep::Finished(Err(e))
                && *final(self) == *old(self),
            old(self).failure() is None && old(self).position() == old(self).pages().count ==> res
                == MappingStep::Finished(Ok(())) && *final(self) == *old(self),
            old(self).failure() is None && old(self).position() < old(self).pages().count
                && frame is Some ==> {
                &&& res matches MappingStep::Apply(m)
                &&& m.page.start_address() == old(self).pages().spec_nth(old(self).position())
                &&& m.page.size() == old(self).pages().size
                &&& m.page.wf()
                &&& m.frame == frame.unwrap()
                &&& m.flags == old(self).flags()
                &&& m.flush == old(self).flush()
                &&& final(self).position() == old(self).position() + 1
                &&& final(self).failure() is None
            },
            old(self).failure() is None && old(self).position() < old(self).pages().count
                && frame is None ==> {
                &&& res == MappingStep::Finished(Err(MapToError::FrameAllocationFailed))
                &&& final(self).position() == old(self).position()
                &&& final(self).failure() == Some(MapToError::FrameAllocationFailed)
            },
    {
        if let Some(e) = self.failure {
            return MappingStep::Finished(Err(e));
        }
        let page = match self.next_page() {
            Some(page) => page,
            None => { return MappingStep::Finished(Ok(())); },
        };
        match frame {
            Some(frame) => {
                self.next = self.next + 1;
                MappingStep::Apply(Mapping { page, frame, flags: self.flags, flush: self.flush })
            },
            None => {
                self.failure = Some(MapToError::FrameAllocationFailed);
                MappingStep::Finished(Err(MapToError::FrameAllocationFailed))
            },
        }
    }

    /// Hands out the next mapping. A job that has failed, or that has handed
    /// out all its pages, says so and stays as it is. Else the next page of
    /// the run is due: it goes to the frame at its own address, or to a frame
    /// that `allocator` hands out; where the allocator has none, the job
    /// fails with [`MapToError::FrameAllocationFailed`].
    pub fn step(&mut self, allocator: &mut KernelFrameAllocator) -> (res: MappingStep)
        requires
            old(self).wf(),
            old(allocator).wf(),
        ensures
            final(self).wf(),
            final(allocator).wf(),
            final(self).pages() == old(self).pages(),
            final(self).source() == old(self).source(),
            final(self).flags() == old(self).flags(),
            final(self).flush() == old(self).flush(),
            final(self).tolerant() == old(self).tolerant(),
            final(allocator).usable() == old(allocator).usable(),
            final(allocator).reserved() == old(allocator).reserved(),
            final(allocator).free_reserved() == old(allocator).free_reserved(),
            old(self).failure() matches Some(e) ==> res == MappingStep::Finished(Err(e))
                && *final(self) == *old(self) && final(allocator).free_usable() == old(allocator).free_usable(),
            old(self).failure() is None && old(self).position() == old(self).pages().count ==> res
                == MappingStep::Finished(Ok(())) && *final(self) == *old(self) && final(allocator).free_usable() == old(allocator).free_usable(),
            old(self).failure() is None && old(self).position() < old(self).pages().count
                && old(self).source() == FrameSource::Identity ==> {
                &&& res matches MappingStep::Apply(m)
                &&& m.page.start_address() == old(self).pages().spec_nth(old(self).position())
                &&& m.frame.start_address() == m.page.start_address()
                &&& m.page.size() == old(self).pages().size
                &&& m.frame.size() == old(self).pages().size
                &&& m.flags == old(self).flags()
                &&& m.flush == old(self).flush()
                &&& m.page.wf() && m.frame.wf()
                &&& final(self).position() == old(self).position() + 1
                &&& final(self).failure() is None
                &&& final(allocator).free_usable() == old(allocator).free_usable()
            },
            old(self).failure() is None && old(self).position() < old(self).pages().count
                && old(self).source() == FrameSource::Fresh && fit_start(
                old(allocator).free_usable(),
                old(self).pages().size,
            ) is Some ==> {
                &&& res matches MappingStep::Apply(m)
                &&& m.page.start_address() == old(self).pages().spec_nth(old(self).position())
                &&& m.frame.start_address() == fit_start(
                    old(allocator).free_usable(),
                    old(self).pages().size,
                ).unwrap()
                &&& m.page.size() == old(self).pages().size
                &&& m.frame.size() == old(self).pages().size
                &&& m.flags == old(self).flags()
                &&& m.flush == old(self).flush()
                &&& m.page.wf() && m.frame.wf()
                &&& final(self).position() == old(self).position() + 1
                &&& final(self).failure() is None
                &&& covered(final(allocator).free_usable()) == covered(
                    old(allocator).free_usable(),
                ).difference(
                    fit_carved(old(allocator).free_usable(), old(self).pages().size).addrs(),
                )
            },
            old(self).failure() is None && old(self).position() < old(self).pages().count
                && old(self).source() == FrameSource::Fresh && fit_start(
                old(allocator).free_usable(),
                old(self).pages().size,
            ) is None ==> {
                &&& res == MappingStep::Finished(Err(MapToError::FrameAllocationFailed))
                &&& final(self).position() == old(self).position()
                &&& final(self).failure() == Some(MapToError::FrameAllocationFailed)
                &&& final(allocator).free_usable() == old(allocator).free_usable()
            },
    {
        let page = match self.next_page() {
            Some(page) => page,
            None => { return self.step_with(None); },
        };
        let frame = match self.source {
            FrameSource::Identity => {
                proof {
                    crate::mem::frame::lemma_max_phys_aligned(self.pages.size);
                }
                PhysFrame::from_start_address(page.start_address(), self.pages.size)
            },
            FrameSource::Fresh => allocator.allocate_frame(self.pages.size),
        };
        self.step_with(frame)
    }

    /// Takes the outcome of the mapping that was handed out last. A failure
    /// ends the job, unless it is a page that was mapped already and the job
    /// tolerates that. A job that has failed before keeps its first failure.
    pub fn record(&mut self, outcome: Result<(), MapToError>)
        requires
            old(self).wf(),
        ensures
            final(self).wf(),
            final(self).pages() == old(self).pages(),
            final(self).position() == old(self).position(),
            final(self).source() == old(self).source(),
            final(self).flags() == old(self).flags(),
            final(self).flush() == old(self).flush(),
            final(self).tolerant() == old(self).tolerant(),
            final(self).failure() == if old(self).failure() is None && old(self).fatal(outcome) {
                Some(outcome->Err_0)
            } else {
                old(self).failure()
            },
    {
        if self.failure.is_some() {
            return ;
        }
        match outcome {
            Ok(()) => {},
            Err(MapToError::PageAlreadyMapped(frame)) => {
                if !self.tolerant {
                    self.failure = Some(MapToError::PageAlreadyMapped(frame));
                }
            },
            Err(e) => {
                self.failure = Some(e);
            },
        }
    }
}

/// The kernel's memory manager.
pub struct MemoryManager {
    frame_allocator: KernelFrameAllocator,
    ap_page_tables: BTreeMap<u8, u64>,
}

/// What a new processor gets: the physical address of its top-level page
/// table, the virtual addresses of the bottom and of the top of its stack,
/// and the job that maps the stack.
#[derive(Clone, Copy, Debug)]
pub struct ApMemory {
    /// The id of the processor.
    pub cpu_id: u8,
    /// Physical address of the top-level page table of the processor.
    pub level_4_table: u64,
    /// Lowest virtual address of the stack.
    pub stack_start: u64,
    /// One past the highest virtual address of the stack.
    pub stack_top: u64,
    /// The job that maps the stack.
    pub stack: MappingJob,
}

impl MemoryManager {
    /// The frame allocator of the manager.
    pub closed spec fn allocator(&self) -> KernelFrameAllocator {
        self.frame_allocator
    }

    /// The top-level page tables of the additional processors, by processor
    /// id: the physical address of each.
    pub closed spec fn ap_tables(&self) -> Map<u8, u64> {
        self.ap_page_tables@
    }

    /// The frame allocator is well formed.
    pub open spec fn wf(&self) -> bool {
        self.allocator().wf()
    }

    /// A manager over the given frame allocator, with no additional
    /// processor known.
    pub fn new(frame_allocator: KernelFrameAllocator) -> (mm: MemoryManager)
        requires
            frame_allocator.wf(),
        ensures
            mm.wf(),
            mm.allocator() == frame_allocator,
            mm.ap_tables() == Map::<u8, u64>::empty(),
    {
        MemoryManager { frame_allocator, ap_page_tables: BTreeMap::new() }
    }

    /// The frame allocator, for the page table to take frames from while it
    /// writes a mapping.
    pub fn frame_allocator(&mut self) -> (a: &mut KernelFrameAllocator)
        ensures
            *a == old(self).allocator(),
            final(self).allocator() == *final(a),
            final(self).ap_tables() == old(self).ap_tables(),
    {
        &mut self.frame_allocator
    }

    /// The mapping of `frame` to the page at its own address. Where the
    /// caller names no flags, the page is present, writable and not
    /// executable.
    pub fn identity_map(&self, frame: PhysFrame, flags: Option<PageTableFlags>) -> (m: Mapping)
        requires
            frame.wf(),
            frame.spec_end() <= LOWER_HALF_END,
        ensures
            m.frame == frame,
            m.page.wf(),
            m.page.start_address() == frame.start_address(),
            m.page.size() == frame.size(),
            m.flush,
            m.flags == match flags {
                Some(f) => f,
                None => (PageTableFlags { bits: 0x8000_0000_0000_0003 }),
            },
    {
        let flags = match flags {
            Some(f) => f,
            None => PageTableFlags::identity_default(),
        };
        let page = Page::containing_address(frame.start_address(), frame.size());
        Mapping { page, frame, flags, flush: true }
    }

    /// The identity mapping of the 4 KiB frame in which `physical_address`
    /// lies.
    pub fn identity_map_address(&self, physical_address: u64, flags: Option<PageTableFlags>) -> (m:
        Mapping)
        requires
            physical_address < LOWER_HALF_END,
        ensures
            m.frame.wf(),
            m.page.wf(),
            m.frame.size() == PageSize::Size4KiB,
            m.frame.start_address() <= physical_address < m.frame.start_address() + 4096,
            m.page.start_address() == m.frame.start_address(),
            m.page.size() == PageSize::Size4KiB,
            m.flush,
            m.flags == match flags {
                Some(f) => f,
                None => (PageTableFlags { bits: 0x8000_0000_0000_0003 }),
            },
    {
        let frame = PhysFrame::containing_address(physical_address, PageSize::Size4KiB);
        proof {
            assert(0x8000_0000_0000int % 4096 == 0);
            crate::mem::frame::lemma_aligned_step(
                frame.start_address() as int,
                LOWER_HALF_END as int,
                4096,
            );
        }
        self.identity_map(frame, flags)
    }

    /// The job that identity-maps every 4 KiB frame that holds an address of
    /// `start..end`, in ascending order.
    pub fn identity_map_range(&self, start: u64, end: u64, flags: Option<PageTableFlags>) -> (job:
        MappingJob)
        requires
            0 < end <= LOWER_HALF_END,
            start < LOWER_HALF_END,
        ensures
            job.wf(),
            job.pages() == covering_frames(start, (end - 1) as u64),
            job.position() == 0,
            job.source() == FrameSource::Identity,
            job.flush(),
            job.flags() == match flags {
                Some(f) => f,
                None => (PageTableFlags { bits: 0x8000_0000_0000_0003 }),
            },
            !job.tolerant(),
            job.failure() is None,
    {
        let flags = match flags {
            Some(f) => f,
            None => PageTableFlags::identity_default(),
        };
        let pages = frames_covering(start, end - 1);
        MappingJob::new(pages, FrameSource::Identity, flags, true, false)
    }

    /// The job that identity-maps every 4 KiB frame that holds an address
    /// from `physical_address` to `physical_address + size`, the last
    /// included. Frames that are mapped already are left as they are.
    pub fn map_physical_region(&self, physical_address: u64, size: u64) -> (job: MappingJob)
        requires
            physical_address + size < LOWER_HALF_END,
        ensures
            job.wf(),
            job.pages() == covering_frames(physical_address, (physical_address + size) as u64),
            job.position() == 0,
            job.source() == FrameSource::Identity,
            job.flush(),
            job.flags() == (PageTableFlags { bits: 0x8000_0000_0000_0003 }),
            job.tolerant(),
            job.failure() is None,
    {
        let pages = frames_covering(physical_address, physical_address + size);
        MappingJob::new(
            pages,
            FrameSource::Identity,
            PageTableFlags::identity_default(),
            true,
            true,
        )
    }

    /// The frames to unmap when a region that
    /// [`MemoryManager::map_physical_region`] mapped is let go: all of the
    /// frames that were mapped for it.
    pub fn unmap_physical_region(&self, physical_address: u64, size: u64) -> (frames: PageRange)
        requires
            physical_address + size < LOWER_HALF_END,
        ensures
            frames == covering_frames(physical_address, (physical_address + size) as u64),
            frames.wf(),
            frames.spec_end() <= LOWER_HALF_END,
    {
        frames_covering(physical_address, physical_address + size)
    }

    /// The mapping of `page` to a frame of its size that the frame allocator
    /// hands out for it, present and writable. Without a frame there is no
    /// mapping and nothing changes.
    pub fn map(&mut self, page: Page) -> (res: Option<Mapping>)
        requires
            old(self).wf(),
            page.wf(),
        ensures
            final(self).wf(),
            final(self).ap_tables() == old(self).ap_tables(),
            final(self).allocator().usable() == old(self).allocator().usable(),
            final(self).allocator().reserved() == old(self).allocator().reserved(),
            final(self).allocator().free_reserved() == old(self).allocator().free_reserved(),
            res is Some <==> fit_start(old(self).allocator().free_usable(), page.size()) is Some,
            res matches Some(m) ==> m.page == page && m.frame.wf() && m.frame.size() == page.size()
                && m.frame.start_address() == fit_start(
                old(self).allocator().free_usable(),
                page.size(),
            ).unwrap() && m.flags.bits == 0x3 && m.flush && covered(
                final(self).allocator().free_usable(),
            )
                == covered(old(self).allocator().free_usable()).difference(
                fit_carved(old(self).allocator().free_usable(), page.size()).addrs(),
            ),
            res is None ==> final(self).allocator().free_usable() == old(self).allocator().free_usable(),
    {
        match self.frame_allocator.allocate_frame(page.size()) {
            Some(frame) => Some(
                Mapping { page, frame, flags: PageTableFlags::present_writable(), flush: true },
            ),
            None => None,
        }
    }

    /// Takes back the frame of a page that was unmapped. The frame has to lie
    /// in a range that the memory map describes; else it is reported as
    /// unknown and nothing changes.
    pub fn unmap(&mut self, frame: PhysFrame) -> (res: Result<(), DeallocError>)
        requires
            old(self).wf(),
            frame.wf(),
        ensures
            final(self).wf(),
            final(self).ap_tables() == old(self).ap_tables(),
            final(self).allocator().usable() == old(self).allocator().usable(),
            final(self).allocator().reserved() == old(self).allocator().reserved(),
            res is Ok <==> old(self).allocator().in_usable(frame) || old(self).allocator().in_reserved(frame),
            res is Err ==> final(self).allocator().free_usable() == old(self).allocator().free_usable() && final(self).allocator().free_reserved() == old(self).allocator().free_reserved(),
            res is Ok && old(self).allocator().in_usable(frame) ==> covered(
                final(self).allocator().free_usable(),
            ) == covered(old(self).allocator().free_usable()).union(frame_region(frame).addrs())
                && final(self).allocator().free_reserved() == old(self).allocator().free_reserved(),
            res is Ok && !old(self).allocator().in_usable(frame) ==> covered(
                final(self).allocator().free_reserved(),
            ) == covered(old(self).allocator().free_reserved()).union(frame_region(frame).addrs())
                && final(self).allocator().free_usable() == old(self).allocator().free_usable(),
    {
        self.frame_allocator.try_deallocate_frame(frame)
    }

    /// The page that has to stay unmapped below the stacks of the additional
    /// processors.
    pub fn stack_guard_page(&self) -> (p: Page)
        ensures
            p.wf(),
            p.size() == PageSize::Size4KiB,
            p.start_address() == AP_STACK_START - 4096,
    {
        let p = Page::containing_address(AP_STACK_START - 1, PageSize::Size4KiB);
        assert(0xFFFF_FFFF_1FFF_FFFFint % 4096 == 4095);
        p
    }

    /// The job that maps a stack of `size` bytes at [`AP_STACK_START`]: the
    /// 4 KiB pages from the one at the start up to, but without, the one in
    /// which `AP_STACK_START + size` lies, each to a fresh frame, present and
    /// writable. The mappings go into the page table of a processor that does
    /// not run yet, so nothing is flushed.
    ///
    /// The page below the stack is its guard and has to be unmapped:
    /// `guard_translation` is what the page table in use translates the
    /// start of [`MemoryManager::stack_guard_page`] to, and that is nothing.
    pub fn map_stack(&self, size: u64, guard_translation: Option<u64>) -> (job: MappingJob)
        requires
            size <= MAX_STACK_SIZE,
            guard_translation is None,
        ensures
            job.wf(),
            job.pages() == (PageRange {
                first: AP_STACK_START,
                count: (size / 4096) as u64,
                size: PageSize::Size4KiB,
            }),
            size as int % 4096 == 0 ==> job.pages().spec_end() == AP_STACK_START + size,
            job.position() == 0,
            job.source() == FrameSource::Fresh,
            !job.flush(),
            job.flags().bits == 0x3,
            !job.tolerant(),
            job.failure() is None,
    {
        let pages = PageRange {
            first: AP_STACK_START,
            count: size / 4096,
            size: PageSize::Size4KiB,
        };
        assert(0xFFFF_FFFF_2000_0000int % 4096 == 0);
        MappingJob::new(pages, FrameSource::Fresh, PageTableFlags::present_writable(), false, false)
    }

    /// Plans the memory of the additional processor `cpu_id`, whose
    /// top-level page table lies at the physical address `level_4_table`:
    /// the stack of `stack_size` bytes, from [`AP_STACK_START`] up to the
    /// top that is handed back, and the job that maps it. For a stack of
    /// whole pages the job maps all of it, from the bottom to the top. The
    /// guard page below the stack has to be unmapped, as for
    /// [`MemoryManager::map_stack`]. The table is taken note of once the
    /// stack is mapped, by [`MemoryManager::finish_init_ap`].
    pub fn init_ap(
        &self,
        cpu_id: u8,
        level_4_table: u64,
        stack_size: u64,
        guard_translation: Option<u64>,
    ) -> (ap: ApMemory)
        requires
            stack_size <= MAX_STACK_SIZE,
            guard_translation is None,
        ensures
            ap.cpu_id == cpu_id,
            ap.level_4_table == level_4_table,
            ap.stack_start == AP_STACK_START,
            ap.stack_top == AP_STACK_START + stack_size,
            ap.stack.wf(),
            ap.stack.pages() == (PageRange {
                first: AP_STACK_START,
                count: (stack_size / 4096) as u64,
                size: PageSize::Size4KiB,
            }),
            stack_size as int % 4096 == 0 ==> ap.stack.pages().spec_end() == ap.stack_top,
            ap.stack.position() == 0,
            ap.stack.source() == FrameSource::Fresh,
            !ap.stack.flush(),
            ap.stack.flags().bits == 0x3,
            !ap.stack.tolerant(),
            ap.stack.failure() is None,
    {
        let stack = self.map_stack(stack_size, guard_translation);
        ApMemory {
            cpu_id,
            level_4_table,
            stack_start: AP_STACK_START,
            stack_top: AP_STACK_START + stack_size,
            stack,
        }
    }

    /// Ends the set-up of an additional processor with what the job of its
    /// stack came to. Where the stack is mapped, the page table of the
    /// processor is taken note of, in place of one noted before for the same
    /// processor, and the physical address of the table and the virtual
    /// address of the top of the stack are handed back. Where the job
    /// failed, the failure is handed on and nothing is noted.
    pub fn finish_init_ap(&mut self, ap: &ApMemory, stack: Result<(), MapToError>) -> (res: Result<
        (u64, u64),
        MapToError,
    >)
        requires
            old(self).wf(),
        ensures
            final(self).wf(),
            final(self).allocator() == old(self).allocator(),
            stack is Ok ==> res == Ok::<(u64, u64), MapToError>((ap.level_4_table, ap.stack_top))
                && final(self).ap_tables() == old(self).ap_tables().insert(
                ap.cpu_id,
                ap.level_4_table,
            ),
            stack matches Err(e) ==> res == Err::<(u64, u64), MapToError>(e) && final(self).ap_tables() == old(self).ap_tables(),
    {
        match stack {
            Ok(()) => {
                let _ = self.ap_page_tables.insert(ap.cpu_id, ap.level_4_table);
                Ok((ap.level_4_table, ap.stack_top))
            },
            Err(e) => Err(e),
        }
    }

    /// The physical address of the top-level page table of the processor
    /// `cpu_id`, where one was noted.
    pub fn ap_page_table(&self, cpu_id: u8) -> (table: Option<u64>)
        ensures
            table == if self.ap_tables().contains_key(cpu_id) {
                Some(self.ap_tables()[cpu_id])
            } else {
                None
            },
    {
        match self.ap_page_tables.get(&cpu_id) {
            Some(t) => Some(*t),
            None => None,
        }
    }
}

/// The run of 4 KiB frames that hold the addresses from `start` to `last`,
/// both included.
pub open spec fn covering_frames(start: u64, last: u64) -> PageRange {
    let first = crate::mem::frame::round_down(start as int, 4096);
    let last_frame = crate::mem::frame::round_down(last as int, 4096);
    PageRange {
        first: first as u64,
        count: if first <= last_frame {
            ((last_frame - first) / 4096 + 1) as u64
        } else {
            0
        },
        size: PageSize::Size4KiB,
    }
}

/// The run of 4 KiB frames that hold the addresses from `start` to `last`,
/// both included.
pub fn frames_covering(start: u64, last: u64) -> (r: PageRange)
    requires
        start < LOWER_HALF_END,
        last < LOWER_HALF_END,
    ensures
        r == covering_frames(start, last),
        r.wf(),
        r.spec_end() <= LOWER_HALF_END,
{
    let r = PageRange::covering(start, last, PageSize::Size4KiB);
    proof {
        crate::mem::frame::lemma_round_down(start as int, 4096);
        crate::mem::frame::lemma_round_down(last as int, 4096);
        let first = crate::mem::frame::round_down(start as int, 4096);
        let last_frame = crate::mem::frame::round_down(last as int, 4096);
        if first <= last_frame {
            assert(r.first + (r.count - 1) * 4096 == last_frame);
            assert(0x8000_0000_0000int % 4096 == 0);
            crate::mem::frame::lemma_aligned_step(last_frame, LOWER_HALF_END as int, 4096);
        }
    }
    r
}

/// The job that maps the first `initial_size` bytes of heap, which end at
/// [`EXTENDED_HEAP_START`]: the 4 KiB pages from the one in which the heap
/// starts up to the end, each to a fresh frame, present and writable.
pub fn init_heap(initial_size: u64) -> (job: MappingJob)
    requires
        initial_size <= EXTENDED_HEAP_START,
    ensures
        job.wf(),
        job.pages() == covering_pages(
            (EXTENDED_HEAP_START - initial_size) as u64,
            (EXTENDED_HEAP_START - 1) as u64,
            PageSize::Size4KiB,
        ),
        job.position() == 0,
        job.source() == FrameSource::Fresh,
        job.flush(),
        job.flags().bits == 0x3,
        !job.tolerant(),
        job.failure() is None,
{
    let heap_start = EXTENDED_HEAP_START - initial_size;
    let pages = pages_covering(heap_start, EXTENDED_HEAP_START - 1, PageSize::Size4KiB);
    MappingJob::new(pages, FrameSource::Fresh, PageTableFlags::present_writable(), true, false)
}

/// The job that extends the heap, which ends at `heap_top` so far, by
/// `extension_size` bytes: every 2 MiB page that holds one of the new bytes,
/// each to a fresh frame, present and writable.
pub fn extend(heap_top: u64, extension_size: u64) -> (job: MappingJob)
    requires
        0 < extension_size,
        heap_top + extension_size <= LOWER_HALF_END,
    ensures
        job.wf(),
        job.pages() == covering_pages(
            heap_top,
            (heap_top + extension_size - 1) as u64,
            PageSize::Size2MiB,
        ),
        job.position() == 0,
        job.source() == FrameSource::Fresh,
        job.flush(),
        job.flags().bits == 0x3,
        !job.tolerant(),
        job.failure() is None,
{
    let pages = pages_covering(heap_top, heap_top + extension_size - 1, PageSize::Size2MiB);
    MappingJob::new(pages, FrameSource::Fresh, PageTableFlags::present_writable(), true, false)
}

/// The run of pages of the given size that hold the addresses from `start`
/// to `last`, both included.
pub open spec fn covering_pages(start: u64, last: u64, size: PageSize) -> PageRange {
    let first = crate::mem::frame::round_down(start as int, size.bytes() as int);
    let last_page = crate::mem::frame::round_down(last as int, size.bytes() as int);
    PageRange {
        first: first as u64,
        count: if first <= last_page {
            ((last_page - first) / (size.bytes() as int) + 1) as u64
        } else {
            0
        },
        size,
    }
}

/// The run of pages of the given size that hold the addresses from `start`
/// to `last`, both included, in the lower half of the address space.
pub fn pages_covering(start: u64, last: u64, size: PageSize) -> (r: PageRange)
    requires
        start < LOWER_HALF_END,
        last < LOWER_HALF_END,
    ensures
        r == covering_pages(start, last, size),
        r.wf(),
        r.spec_end() <= LOWER_HALF_END,
{
    let r = PageRange::covering(start, last, size);
    proof {
        let b = size.bytes() as int;
        crate::mem::frame::lemma_round_down(start as int, b);
        crate::mem::frame::lemma_round_down(last as int, b);
        let first = crate::mem::frame::round_down(start as int, b);
        let last_page = crate::mem::frame::round_down(last as int, b);
        if first <= last_page {
            assert(r.first + (r.count - 1) * b == last_page);
            assert((r.count - 1) * b + b == r.count * b) by (nonlinear_arith);
            assert(0x8000_0000_0000int % 0x1000int == 0);
            assert(0x8000_0000_0000int % 0x20_0000int == 0);
            assert(0x8000_0000_0000int % 0x4000_0000int == 0);
            crate::mem::frame::lemma_aligned_step(last_page, LOWER_HALF_END as int, b);
            lemma_count_of_run(first, last_page, b, r.count as int);
        } else {
            assert(r.count * b == 0) by (nonlinear_arith)
                requires
                    r.count == 0,
            ;
        }
    }
    r
}

/// A run that starts at `first` and whose last page starts at `last` has
/// `(last - first) / size + 1` pages.
pub proof fn lemma_count_of_run(first: int, last: int, size: int, count: int)
    requires
        0 < size,
        first <= last,
        count >= 1,
        first + (count - 1) * size == last,
    ensures
        count == (last - first) / size + 1,
{
    vstd::arithmetic::div_mod::lemma_div_multiples_vanish(count - 1, size);
    assert((count - 1) * size == size * (count - 1)) by (nonlinear_arith);
}

} // verus!
