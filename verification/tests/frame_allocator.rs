use ak_os_kernel::boot::memory::{MemoryRegionDescriptor, MemoryRegionKind};
use ak_os_kernel::mem::boot_frames::{frames_of, BootInfoFrameAllocator};
use ak_os_kernel::mem::frame::{PageSize, PhysFrame};
use ak_os_kernel::mem::frame_allocator::{DeallocError, KernelFrameAllocator};
use ak_os_kernel::mem::region::MemoryRegion;

fn entry(start: u64, end: u64, kind: MemoryRegionKind) -> MemoryRegionDescriptor {
    MemoryRegionDescriptor { start, end, kind }
}

fn region(start: u64, end: u64) -> MemoryRegion {
    MemoryRegion { start, end }
}

fn small_map() -> Vec<MemoryRegionDescriptor> {
    vec![
        entry(0x1000, 0x5000, MemoryRegionKind::Usable),
        entry(0x5000, 0x8000, MemoryRegionKind::Bootloader),
        entry(0x10000, 0x12000, MemoryRegionKind::Usable),
    ]
}

fn frame(addr: u64) -> PhysFrame {
    PhysFrame::from_start_address(addr, PageSize::Size4KiB).unwrap()
}

fn starts(frames: &[PhysFrame]) -> Vec<u64> {
    frames.iter().map(|f| f.start_address()).collect()
}

#[test]
fn page_sizes_in_bytes() {
    assert_eq!(PageSize::Size4KiB.bytes(), 4096);
    assert_eq!(PageSize::Size2MiB.bytes(), 2 * 1024 * 1024);
    assert_eq!(PageSize::Size1GiB.bytes(), 1024 * 1024 * 1024);
}

#[test]
fn containing_address_rounds_down() {
    let f = PhysFrame::containing_address(0x1234, PageSize::Size4KiB);
    assert_eq!(f.start_address(), 0x1000);
    assert_eq!(f.end_address(), 0x2000);
    assert_eq!(f.size(), PageSize::Size4KiB);
    let f = PhysFrame::containing_address(0x3f_ffff, PageSize::Size2MiB);
    assert_eq!(f.start_address(), 0x20_0000);
}

#[test]
fn frame_start_must_be_aligned_and_physical() {
    assert!(PhysFrame::from_start_address(0x2000, PageSize::Size4KiB).is_some());
    assert!(PhysFrame::from_start_address(0x2001, PageSize::Size4KiB).is_none());
    assert!(PhysFrame::from_start_address(0x2000, PageSize::Size2MiB).is_none());
    assert!(PhysFrame::from_start_address(1 << 52, PageSize::Size4KiB).is_none());
}

#[test]
fn usable_frames_follow_the_map() {
    let boot = BootInfoFrameAllocator::init(small_map());
    assert_eq!(
        starts(&boot.usable_frames()),
        vec![0x1000, 0x2000, 0x3000, 0x4000, 0x10000, 0x11000]
    );
    assert_eq!(boot.usable_frame(4).map(|f| f.start_address()), Some(0x10000));
    assert_eq!(boot.usable_frame(6), None);
}

#[test]
fn empty_or_malformed_maps_give_no_frames() {
    let boot = BootInfoFrameAllocator::init(Vec::new());
    assert!(boot.usable_frames().is_empty());
    let boot = BootInfoFrameAllocator::init(vec![
        entry(0x5000, 0x5000, MemoryRegionKind::Usable),
        entry(0x9000, 0x2000, MemoryRegionKind::Usable),
        entry(0x1000, (1 << 52) + 0x1000, MemoryRegionKind::Usable),
        entry(0x1000, 0x3000, MemoryRegionKind::UnknownUefi(3)),
    ]);
    assert!(boot.usable_frames().is_empty());
    assert_eq!(boot.usable_frame(0), None);
}

#[test]
fn unaligned_entry_gives_the_frames_of_its_steps() {
    let d = entry(0x1800, 0x3900, MemoryRegionKind::Usable);
    assert_eq!(frames_of(&d), 3);
    let boot = BootInfoFrameAllocator::init(vec![d]);
    assert_eq!(starts(&boot.usable_frames()), vec![0x1000, 0x2000, 0x3000]);
}

#[test]
fn boot_allocator_hands_out_each_frame_once() {
    let mut boot = BootInfoFrameAllocator::init(small_map());
    assert_eq!(boot.used_frame_count(), 0);
    assert_eq!(boot.allocate_frame().map(|f| f.start_address()), Some(0x1000));
    assert_eq!(boot.allocate_frame().map(|f| f.start_address()), Some(0x2000));
    assert_eq!(boot.used_frame_count(), 2);
    for _ in 0..4 {
        assert!(boot.allocate_frame().is_some());
    }
    assert_eq!(boot.allocate_frame(), None);
    assert_eq!(boot.used_frame_count(), 7);
}

fn allocator_after_two_frames() -> KernelFrameAllocator {
    let mut boot = BootInfoFrameAllocator::init(small_map());
    boot.allocate_frame();
    boot.allocate_frame();
    KernelFrameAllocator::init(&boot)
}

#[test]
fn init_builds_the_four_sets() {
    let alloc = allocator_after_two_frames();
    assert_eq!(
        alloc.usable_regions().regions(),
        &vec![region(0x1000, 0x5000), region(0x10000, 0x12000)]
    );
    assert_eq!(alloc.reserved_regions().regions(), &vec![region(0x5000, 0x8000)]);
    assert_eq!(
        alloc.free_usable_regions().regions(),
        &vec![region(0x3000, 0x5000), region(0x10000, 0x12000)]
    );
    assert!(alloc.free_reserved_regions().is_empty());
}

#[test]
fn init_merges_adjacent_entries_of_the_map() {
    let boot = BootInfoFrameAllocator::init(vec![
        entry(0x1000, 0x3000, MemoryRegionKind::Usable),
        entry(0x3000, 0x6000, MemoryRegionKind::Usable),
        entry(0x6000, 0x7000, MemoryRegionKind::UnknownFirmware(1)),
        entry(0x7000, 0x9000, MemoryRegionKind::Bootloader),
    ]);
    let alloc = KernelFrameAllocator::init(&boot);
    assert_eq!(alloc.usable_regions().regions(), &vec![region(0x1000, 0x6000)]);
    assert_eq!(alloc.reserved_regions().regions(), &vec![region(0x6000, 0x9000)]);
    assert_eq!(alloc.free_usable_regions().regions(), &vec![region(0x1000, 0x6000)]);
}

#[test]
fn init_skips_all_frames_when_all_are_used() {
    let mut boot = BootInfoFrameAllocator::init(small_map());
    for _ in 0..6 {
        boot.allocate_frame();
    }
    let alloc = KernelFrameAllocator::init(&boot);
    assert!(alloc.free_usable_regions().is_empty());
}

#[test]
fn allocate_is_first_fit_from_the_low_end() {
    let mut alloc = allocator_after_two_frames();
    let f = alloc.allocate_frame(PageSize::Size4KiB).unwrap();
    assert_eq!(f.start_address(), 0x3000);
    assert_eq!(f.size(), PageSize::Size4KiB);
    assert_eq!(
        alloc.free_usable_regions().regions(),
        &vec![region(0x4000, 0x5000), region(0x10000, 0x12000)]
    );
}

#[test]
fn allocate_then_deallocate_restores_the_free_set() {
    let mut alloc = allocator_after_two_frames();
    let before = alloc.free_usable_regions().regions().clone();
    let f = alloc.allocate_frame(PageSize::Size4KiB).unwrap();
    alloc.deallocate_frame(f);
    assert_eq!(alloc.free_usable_regions().regions(), &before);
}

#[test]
fn free_ranges_stay_coalesced_over_a_sequence() {
    let mut alloc = allocator_after_two_frames();
    let a = alloc.allocate_frame(PageSize::Size4KiB).unwrap();
    let b = alloc.allocate_frame(PageSize::Size4KiB).unwrap();
    let c = alloc.allocate_frame(PageSize::Size4KiB).unwrap();
    assert_eq!(starts(&[a, b, c]), vec![0x3000, 0x4000, 0x10000]);
    alloc.deallocate_frame(b);
    alloc.deallocate_frame(c);
    assert_eq!(
        alloc.free_usable_regions().regions(),
        &vec![region(0x4000, 0x5000), region(0x10000, 0x12000)]
    );
    alloc.deallocate_frame(a);
    let free = alloc.free_usable_regions().regions();
    assert_eq!(free, &vec![region(0x3000, 0x5000), region(0x10000, 0x12000)]);
    for pair in free.windows(2) {
        assert!(pair[0].end < pair[1].start);
    }
}

#[test]
fn allocation_fails_beyond_capacity() {
    let mut alloc = allocator_after_two_frames();
    let mut got = Vec::new();
    while let Some(f) = alloc.allocate_frame(PageSize::Size4KiB) {
        got.push(f.start_address());
        assert!(got.len() <= 4);
    }
    assert_eq!(got, vec![0x3000, 0x4000, 0x10000, 0x11000]);
    assert_eq!(alloc.allocate_frame(PageSize::Size4KiB), None);
    assert!(alloc.free_usable_regions().is_empty());
}

#[test]
fn large_frame_needs_a_large_range() {
    let mut alloc = allocator_after_two_frames();
    assert_eq!(alloc.allocate_frame(PageSize::Size2MiB), None);
    assert_eq!(alloc.allocate_frame(PageSize::Size1GiB), None);
    assert_eq!(
        alloc.free_usable_regions().regions(),
        &vec![region(0x3000, 0x5000), region(0x10000, 0x12000)]
    );
}

#[test]
fn large_frame_starts_at_a_multiple_of_its_size() {
    let boot = BootInfoFrameAllocator::init(vec![entry(
        0x1000,
        0x60_0000,
        MemoryRegionKind::Usable,
    )]);
    let mut alloc = KernelFrameAllocator::init(&boot);
    let f = alloc.allocate_frame(PageSize::Size2MiB).unwrap();
    assert_eq!(f.start_address(), 0x20_0000);
    assert_eq!(f.size(), PageSize::Size2MiB);
    assert_eq!(alloc.free_usable_regions().regions(), &vec![region(0x40_0000, 0x60_0000)]);
}

#[test]
fn large_frame_that_does_not_fit_after_alignment_fails() {
    let boot = BootInfoFrameAllocator::init(vec![entry(
        0x1000,
        0x30_0000,
        MemoryRegionKind::Usable,
    )]);
    let mut alloc = KernelFrameAllocator::init(&boot);
    assert_eq!(alloc.allocate_frame(PageSize::Size2MiB), None);
    assert_eq!(alloc.free_usable_regions().regions(), &vec![region(0x1000, 0x30_0000)]);
}

#[test]
fn deallocating_an_unknown_frame_is_an_error() {
    let mut alloc = allocator_after_two_frames();
    assert_eq!(alloc.owner_of(frame(0x100000)), None);
    assert_eq!(
        alloc.try_deallocate_frame(frame(0x100000)),
        Err(DeallocError::UnknownFrame)
    );
    assert_eq!(
        alloc.free_usable_regions().regions(),
        &vec![region(0x3000, 0x5000), region(0x10000, 0x12000)]
    );
    assert!(alloc.free_reserved_regions().is_empty());
}

#[test]
fn reserved_frames_go_to_the_reserved_free_set() {
    let mut alloc = allocator_after_two_frames();
    assert_eq!(alloc.owner_of(frame(0x5000)), Some(false));
    assert_eq!(alloc.owner_of(frame(0x1000)), Some(true));
    assert_eq!(alloc.try_deallocate_frame(frame(0x5000)), Ok(()));
    assert_eq!(alloc.try_deallocate_frame(frame(0x6000)), Ok(()));
    assert_eq!(alloc.free_reserved_regions().regions(), &vec![region(0x5000, 0x7000)]);
    assert_eq!(
        alloc.free_usable_regions().regions(),
        &vec![region(0x3000, 0x5000), region(0x10000, 0x12000)]
    );
}

#[test]
fn frames_handed_out_before_start_up_can_come_back() {
    let mut alloc = allocator_after_two_frames();
    assert_eq!(alloc.try_deallocate_frame(frame(0x2000)), Ok(()));
    assert_eq!(
        alloc.free_usable_regions().regions(),
        &vec![region(0x2000, 0x5000), region(0x10000, 0x12000)]
    );
}

#[test]
fn what_lies_below_an_aligned_frame_does_not_come_back_with_it() {
    let boot = BootInfoFrameAllocator::init(vec![entry(
        0x1000,
        0x60_0000,
        MemoryRegionKind::Usable,
    )]);
    let mut alloc = KernelFrameAllocator::init(&boot);
    let f = alloc.allocate_frame(PageSize::Size2MiB).unwrap();
    alloc.deallocate_frame(f);
    assert_eq!(alloc.free_usable_regions().regions(), &vec![region(0x20_0000, 0x60_0000)]);
}

#[test]
fn frames_that_are_handed_out_do_not_overlap() {
    let boot = BootInfoFrameAllocator::init(vec![
        entry(0x1000, 0x40_0000, MemoryRegionKind::Usable),
        entry(0x80_0000, 0xc0_0000, MemoryRegionKind::Usable),
    ]);
    let mut alloc = KernelFrameAllocator::init(&boot);
    let mut taken: Vec<(u64, u64)> = Vec::new();
    for size in [PageSize::Size4KiB, PageSize::Size2MiB, PageSize::Size4KiB, PageSize::Size2MiB] {
        let f = alloc.allocate_frame(size).unwrap();
        for (start, end) in &taken {
            assert!(f.end_address() <= *start || *end <= f.start_address());
        }
        taken.push((f.start_address(), f.end_address()));
    }
    assert_eq!(
        taken,
        vec![
            (0x1000, 0x2000),
            (0x20_0000, 0x40_0000),
            (0x80_0000, 0x80_1000),
            (0xa0_0000, 0xc0_0000)
        ]
    );
    assert!(alloc.free_usable_regions().is_empty());
}

#[test]
fn a_frame_from_an_aligned_map_lies_in_usable_memory() {
    let mut alloc = allocator_after_two_frames();
    while let Some(f) = alloc.allocate_frame(PageSize::Size4KiB) {
        assert_eq!(alloc.owner_of(f), Some(true));
    }
    let boot = BootInfoFrameAllocator::init(vec![entry(
        0x1000,
        0x60_0000,
        MemoryRegionKind::Usable,
    )]);
    let mut alloc = KernelFrameAllocator::init(&boot);
    let f = alloc.allocate_frame(PageSize::Size2MiB).unwrap();
    assert_eq!(alloc.owner_of(f), Some(true));
}
