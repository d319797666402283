use ak_os_kernel::boot::memory::{MemoryRegionDescriptor, MemoryRegionKind};
use ak_os_kernel::mem::boot_frames::BootInfoFrameAllocator;
use ak_os_kernel::mem::frame::{PageSize, PhysFrame};
use ak_os_kernel::mem::frame_allocator::{DeallocError, KernelFrameAllocator};
use ak_os_kernel::mem::manager::{
    extend, frames_covering, init_heap, pages_covering, FrameSource, MappingJob, MappingStep,
    MemoryManager, AP_STACK_START, EXTENDED_HEAP_START,
};
use ak_os_kernel::mem::paging::{
    check_canonical, span, MapToError, Mapping, Page, PageRange, PageTableFlags, GLOBAL,
    NO_EXECUTE, PRESENT, WRITABLE,
};
use ak_os_kernel::mem::region::MemoryRegion;

fn manager() -> MemoryManager {
    let boot = BootInfoFrameAllocator::init(vec![
        MemoryRegionDescriptor { start: 0x1000, end: 0x5000, kind: MemoryRegionKind::Usable },
        MemoryRegionDescriptor { start: 0x5000, end: 0x8000, kind: MemoryRegionKind::Bootloader },
    ]);
    MemoryManager::new(KernelFrameAllocator::init(&boot))
}

fn applied(step: MappingStep) -> Mapping {
    match step {
        MappingStep::Apply(m) => m,
        other => panic!("expected a mapping, got {:?}", other),
    }
}

#[test]
fn flag_bits() {
    assert_eq!(PageTableFlags::present_writable().bits, PRESENT | WRITABLE);
    assert_eq!(PageTableFlags::identity_default().bits, PRESENT | WRITABLE | NO_EXECUTE);
    let f = PageTableFlags::present_writable().union(PageTableFlags { bits: GLOBAL });
    assert_eq!(f.bits, 0x103);
    assert!(f.contains(PageTableFlags { bits: GLOBAL }));
    assert!(!f.contains(PageTableFlags { bits: NO_EXECUTE }));
}

#[test]
fn canonical_addresses() {
    assert!(check_canonical(0));
    assert!(check_canonical(0x7fff_ffff_ffff));
    assert!(!check_canonical(0x8000_0000_0000));
    assert!(!check_canonical(0xffff_7fff_ffff_ffff));
    assert!(check_canonical(0xffff_8000_0000_0000));
    assert!(Page::from_start_address(0x8000_0000_0000, PageSize::Size4KiB).is_none());
    assert!(Page::from_start_address(0x1001, PageSize::Size4KiB).is_none());
    let p = Page::containing_address(0xffff_8000_0000_1234, PageSize::Size4KiB);
    assert_eq!(p.start_address(), 0xffff_8000_0000_1000);
    assert_eq!(p.size(), PageSize::Size4KiB);
}

#[test]
fn page_range_covering() {
    let r = PageRange::covering(0x1800, 0x3800, PageSize::Size4KiB);
    assert_eq!(r, PageRange { first: 0x1000, count: 3, size: PageSize::Size4KiB });
    assert_eq!(r.nth(0), 0x1000);
    assert_eq!(r.nth(2), 0x3000);
    let r = PageRange::covering(0x5000, 0x4fff, PageSize::Size4KiB);
    assert_eq!(r.count, 0);
    let r = PageRange::covering(0x20_0001, 0x60_0000, PageSize::Size2MiB);
    assert_eq!(r, PageRange { first: 0x20_0000, count: 3, size: PageSize::Size2MiB });
    assert_eq!(span(3, PageSize::Size2MiB), 0x60_0000);
    assert_eq!(frames_covering(0x1800, 0x3800), PageRange::covering(0x1800, 0x3800, PageSize::Size4KiB));
    assert_eq!(
        pages_covering(0x20_0001, 0x60_0000, PageSize::Size2MiB),
        PageRange { first: 0x20_0000, count: 3, size: PageSize::Size2MiB }
    );
}

#[test]
fn identity_map_uses_default_flags_unless_told() {
    let mm = manager();
    let frame = PhysFrame::containing_address(0xfee0_0123, PageSize::Size4KiB);
    let m = mm.identity_map(frame, None);
    assert_eq!(m.frame, frame);
    assert_eq!(m.page.start_address(), 0xfee0_0000);
    assert_eq!(m.page.size(), PageSize::Size4KiB);
    assert_eq!(m.flags.bits, 0x8000_0000_0000_0003);
    let m = mm.identity_map(frame, Some(PageTableFlags { bits: 0x103 }));
    assert_eq!(m.flags.bits, 0x103);
    let m = mm.identity_map_address(0xf123, None);
    assert_eq!(m.frame.start_address(), 0xf000);
    assert_eq!(m.page.start_address(), 0xf000);
}

#[test]
fn identity_map_range_visits_each_frame_in_order() {
    let mut mm = manager();
    let mut job = mm.identity_map_range(0x10000, 0x12001, None);
    assert_eq!(job.page_count(), 3);
    let mut seen = Vec::new();
    loop {
        match job.step(mm.frame_allocator()) {
            MappingStep::Apply(m) => {
                assert_eq!(m.page.start_address(), m.frame.start_address());
                assert_eq!(m.flags.bits, 0x8000_0000_0000_0003);
                assert!(m.flush);
                seen.push(m.frame.start_address());
                job.record(Ok(()));
            }
            MappingStep::Finished(res) => {
                assert_eq!(res, Ok(()));
                break;
            }
        }
    }
    assert_eq!(seen, vec![0x10000, 0x11000, 0x12000]);
    assert_eq!(job.handed_out(), 3);
}

#[test]
fn first_failure_ends_the_job() {
    let mut mm = manager();
    let mut job = mm.identity_map_range(0x10000, 0x13000, None);
    let first = applied(job.step(mm.frame_allocator()));
    assert_eq!(first.frame.start_address(), 0x10000);
    job.record(Ok(()));
    let second = applied(job.step(mm.frame_allocator()));
    job.record(Err(MapToError::PageAlreadyMapped(second.frame)));
    assert_eq!(
        job.step(mm.frame_allocator()),
        MappingStep::Finished(Err(MapToError::PageAlreadyMapped(second.frame)))
    );
    job.record(Ok(()));
    assert_eq!(
        job.step(mm.frame_allocator()),
        MappingStep::Finished(Err(MapToError::PageAlreadyMapped(second.frame)))
    );
    assert_eq!(job.handed_out(), 2);
}

#[test]
fn physical_region_tolerates_mapped_frames() {
    let mut mm = manager();
    let mut job = mm.map_physical_region(0x2010, 0x1000);
    assert_eq!(job.page_count(), 2);
    let first = applied(job.step(mm.frame_allocator()));
    assert_eq!(first.frame.start_address(), 0x2000);
    job.record(Err(MapToError::PageAlreadyMapped(first.frame)));
    let second = applied(job.step(mm.frame_allocator()));
    assert_eq!(second.frame.start_address(), 0x3000);
    job.record(Err(MapToError::ParentEntryHugePage));
    assert_eq!(
        job.step(mm.frame_allocator()),
        MappingStep::Finished(Err(MapToError::ParentEntryHugePage))
    );
}

#[test]
fn physical_region_includes_the_frame_of_its_end() {
    let mm = manager();
    let job = mm.map_physical_region(0x2000, 0x1000);
    assert_eq!(job.page_count(), 2);
    let job = mm.map_physical_region(0x2000, 0);
    assert_eq!(job.page_count(), 1);
    assert_eq!(
        mm.unmap_physical_region(0x2010, 0x1000),
        PageRange { first: 0x2000, count: 2, size: PageSize::Size4KiB }
    );
}

#[test]
fn map_takes_a_fresh_frame_and_unmap_gives_it_back() {
    let mut mm = manager();
    let page = Page::containing_address(0x4000_0000, PageSize::Size4KiB);
    let m = mm.map(page).unwrap();
    assert_eq!(m.page, page);
    assert_eq!(m.frame.start_address(), 0x1000);
    assert_eq!(m.flags.bits, 0x3);
    assert_eq!(
        mm.frame_allocator().free_usable_regions().regions(),
        &vec![MemoryRegion { start: 0x2000, end: 0x5000 }]
    );
    assert_eq!(mm.unmap(m.frame), Ok(()));
    assert_eq!(
        mm.frame_allocator().free_usable_regions().regions(),
        &vec![MemoryRegion { start: 0x1000, end: 0x5000 }]
    );
    let stranger = PhysFrame::containing_address(0x9000_0000, PageSize::Size4KiB);
    assert_eq!(mm.unmap(stranger), Err(DeallocError::UnknownFrame));
}

#[test]
fn map_without_a_frame_gives_nothing() {
    let mut mm = manager();
    let page = Page::containing_address(0x4000_0000, PageSize::Size2MiB);
    assert_eq!(mm.map(page), None);
}

#[test]
fn stack_job_maps_whole_pages_above_the_guard_page() {
    let mut mm = manager();
    assert_eq!(mm.stack_guard_page().start_address(), AP_STACK_START - 0x1000);
    let mut job = mm.map_stack(0x3800, None);
    assert_eq!(job.page_count(), 3);
    let mut pages = Vec::new();
    let mut frames = Vec::new();
    while let MappingStep::Apply(m) = job.step(mm.frame_allocator()) {
        assert_eq!(m.flags.bits, 0x3);
        assert!(!m.flush);
        pages.push(m.page.start_address());
        frames.push(m.frame.start_address());
        job.record(Ok(()));
    }
    assert_eq!(pages, vec![AP_STACK_START, AP_STACK_START + 0x1000, AP_STACK_START + 0x2000]);
    assert_eq!(frames, vec![0x1000, 0x2000, 0x3000]);
    assert_eq!(job.step(mm.frame_allocator()), MappingStep::Finished(Ok(())));
}

#[test]
fn stack_job_fails_when_frames_run_out() {
    let mut mm = manager();
    let mut job = mm.map_stack(0x8000, None);
    assert_eq!(job.page_count(), 8);
    let mut mapped = 0;
    let end = loop {
        match job.step(mm.frame_allocator()) {
            MappingStep::Apply(_) => {
                mapped += 1;
                job.record(Ok(()));
            }
            MappingStep::Finished(res) => break res,
        }
    };
    assert_eq!(mapped, 4);
    assert_eq!(end, Err(MapToError::FrameAllocationFailed));
}

#[test]
fn init_ap_plans_the_stack_and_gives_its_top() {
    let mut mm = manager();
    let mut ap = mm.init_ap(3, 0x7000, 0x2000, None);
    assert_eq!(ap.cpu_id, 3);
    assert_eq!(ap.level_4_table, 0x7000);
    assert_eq!(ap.stack_start, AP_STACK_START);
    assert_eq!(ap.stack_top, AP_STACK_START + 0x2000);
    assert_eq!(ap.stack.page_count(), 2);
    assert_eq!(mm.ap_page_table(3), None);
    let mut pages = Vec::new();
    let end = loop {
        match ap.stack.step(mm.frame_allocator()) {
            MappingStep::Apply(m) => {
                pages.push(m.page.start_address());
                ap.stack.record(Ok(()));
            }
            MappingStep::Finished(res) => break res,
        }
    };
    assert_eq!(pages, vec![ap.stack_top - 0x2000, ap.stack_top - 0x1000]);
    assert_eq!(mm.finish_init_ap(&ap, end), Ok((0x7000, AP_STACK_START + 0x2000)));
    assert_eq!(mm.ap_page_table(3), Some(0x7000));
    assert_eq!(mm.ap_page_table(4), None);
    let again = mm.init_ap(3, 0x9000, 0x1000, None);
    assert_eq!(mm.finish_init_ap(&again, Ok(())), Ok((0x9000, AP_STACK_START + 0x1000)));
    assert_eq!(mm.ap_page_table(3), Some(0x9000));
}

#[test]
fn a_processor_whose_stack_is_not_mapped_is_not_recorded() {
    let mut mm = manager();
    let ap = mm.init_ap(5, 0x7000, 0x2000, None);
    assert_eq!(
        mm.finish_init_ap(&ap, Err(MapToError::ParentEntryHugePage)),
        Err(MapToError::ParentEntryHugePage)
    );
    assert_eq!(mm.ap_page_table(5), None);
}

#[test]
fn heap_jobs_cover_the_heap() {
    let job = init_heap(4 * 4096);
    assert_eq!(job.page_count(), 4);
    let job = init_heap(0);
    assert_eq!(job.page_count(), 0);
    let mut mm = manager();
    let mut job = init_heap(0x1800);
    let m = applied(job.step(mm.frame_allocator()));
    assert_eq!(m.page.start_address(), EXTENDED_HEAP_START - 0x2000);
    assert_eq!(m.page.size(), PageSize::Size4KiB);
    let job = extend(EXTENDED_HEAP_START, 4 * 0x20_0000);
    assert_eq!(job.page_count(), 4);
    let mut job = extend(EXTENDED_HEAP_START + 0x10_0000, 0x20_0000);
    assert_eq!(job.page_count(), 2);
    assert_eq!(
        job.step(mm.frame_allocator()),
        MappingStep::Finished(Err(MapToError::FrameAllocationFailed))
    );
}

#[test]
fn a_job_can_be_made_by_hand() {
    let mut mm = manager();
    let pages = PageRange { first: 0x40_0000, count: 2, size: PageSize::Size4KiB };
    let mut job = MappingJob::new(pages, FrameSource::Fresh, PageTableFlags { bits: 0x7 }, false, true);
    let m = applied(job.step(mm.frame_allocator()));
    assert_eq!(m.page.start_address(), 0x40_0000);
    assert_eq!(m.frame.start_address(), 0x1000);
    assert_eq!(m.flags.bits, 0x7);
    assert!(!m.flush);
}

#[test]
fn a_job_takes_frames_that_the_caller_brings() {
    let mut job = init_heap(0x2000);
    assert_eq!(job.next_page().map(|p| p.start_address()), Some(EXTENDED_HEAP_START - 0x2000));
    let frame = PhysFrame::containing_address(0x7000, PageSize::Size4KiB);
    let m = applied(job.step_with(Some(frame)));
    assert_eq!(m.frame, frame);
    assert_eq!(m.page.start_address(), EXTENDED_HEAP_START - 0x2000);
    job.record(Ok(()));
    assert_eq!(job.next_page().map(|p| p.start_address()), Some(EXTENDED_HEAP_START - 0x1000));
    assert_eq!(
        job.step_with(None),
        MappingStep::Finished(Err(MapToError::FrameAllocationFailed))
    );
    assert_eq!(job.next_page(), None);
    let mut done = init_heap(0);
    assert_eq!(done.next_page(), None);
    assert_eq!(done.step_with(None), MappingStep::Finished(Ok(())));
}
