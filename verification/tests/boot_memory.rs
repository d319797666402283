use ak_os_kernel::boot::memory::{
    is_usable, FrameAllocator, MemoryRegion, MemoryRegionDescriptor, MemoryRegionKind,
};
use ak_os_kernel::boot::uefi::{
    UefiMemoryDescriptor, BOOT_SERVICES_DATA, CONVENTIONAL, LOADER_CODE, RUNTIME_SERVICES_DATA,
};
use ak_os_kernel::interrupts::{InterruptIndex, IoApicTableIndex, QemuExitCode};
use ak_os_kernel::mem::frame::{PageSize, PhysFrame};

fn uefi(ty: u32, phys_start: u64, page_count: u64) -> UefiMemoryDescriptor {
    UefiMemoryDescriptor { ty, phys_start, page_count }
}

fn entry(start: u64, end: u64, kind: MemoryRegionKind) -> MemoryRegionDescriptor {
    MemoryRegionDescriptor { start, end, kind }
}

#[test]
fn the_empty_descriptor() {
    assert_eq!(MemoryRegionDescriptor::empty(), entry(0, 0, MemoryRegionKind::Bootloader));
}

#[test]
fn uefi_descriptors_read_as_regions() {
    let d = uefi(CONVENTIONAL, 0x10_0000, 16);
    assert_eq!(d.start(), 0x10_0000);
    assert_eq!(d.len(), 0x1_0000);
    assert_eq!(d.kind(), MemoryRegionKind::Usable);
    assert!(is_usable(&d));
    let d = uefi(LOADER_CODE, 0x2000, 1);
    assert_eq!(d.kind(), MemoryRegionKind::UnknownUefi(1));
    assert!(!is_usable(&d));
}

#[test]
fn boot_memory_becomes_usable_on_exit() {
    for ty in 1..=6 {
        let mut d = uefi(ty, 0x2000, 1);
        d.on_bootloader_exit();
        assert_eq!(d.ty, CONVENTIONAL);
        assert_eq!(d.kind(), MemoryRegionKind::Usable);
    }
    for ty in [0, 7, 8, 11] {
        let mut d = uefi(ty, 0x2000, 1);
        d.on_bootloader_exit();
        assert_eq!(d.ty, ty);
    }
}

fn firmware_map() -> Vec<UefiMemoryDescriptor> {
    vec![
        uefi(BOOT_SERVICES_DATA, 0x0, 1),
        uefi(CONVENTIONAL, 0x1000, 4),
        uefi(11, 0x5000, 2),
        uefi(CONVENTIONAL, 0x8000, 3),
        uefi(RUNTIME_SERVICES_DATA, 0x10000, 1),
    ]
}

#[test]
fn the_boot_allocator_walks_the_usable_entries() {
    let mut alloc = FrameAllocator::new(firmware_map());
    assert_eq!(alloc.len(), 5);
    let mut got = Vec::new();
    while let Some(f) = alloc.allocate_frame() {
        got.push(f.start_address());
        assert!(got.len() < 10);
    }
    assert_eq!(got, vec![0x1000, 0x2000, 0x3000, 0x8000, 0x9000]);
    assert_eq!(alloc.allocate_frame(), None);
}

#[test]
fn the_boot_allocator_can_start_higher() {
    let start = PhysFrame::containing_address(0x3000, PageSize::Size4KiB);
    let mut alloc = FrameAllocator::new_starting_at(start, firmware_map());
    assert_eq!(alloc.allocate_frame().map(|f| f.start_address()), Some(0x3000));
    assert_eq!(alloc.allocate_frame().map(|f| f.start_address()), Some(0x8000));
    let d = uefi(CONVENTIONAL, 0x20000, 4);
    assert_eq!(
        alloc.allocate_frame_from_descriptor(d).map(|f| f.start_address()),
        Some(0x20000)
    );
    let low = uefi(CONVENTIONAL, 0x1000, 4);
    assert_eq!(alloc.allocate_frame_from_descriptor(low), None);
}

#[test]
fn the_memory_map_marks_what_the_boot_stage_used() {
    let mut alloc = FrameAllocator::new(firmware_map());
    alloc.allocate_frame();
    alloc.allocate_frame();
    let map = alloc.create_memory_map();
    assert_eq!(
        map,
        vec![
            entry(0x0, 0x1000, MemoryRegionKind::Bootloader),
            entry(0x1000, 0x3000, MemoryRegionKind::Bootloader),
            entry(0x3000, 0x5000, MemoryRegionKind::Usable),
            entry(0x5000, 0x7000, MemoryRegionKind::UnknownUefi(11)),
            entry(0x8000, 0xb000, MemoryRegionKind::Usable),
            entry(0x10000, 0x11000, MemoryRegionKind::Usable),
        ]
    );
}

#[test]
fn an_untouched_map_keeps_low_memory_for_the_boot_stage() {
    let alloc = FrameAllocator::new(vec![uefi(CONVENTIONAL, 0x0, 8), uefi(0, 0x8000, 1)]);
    assert_eq!(
        alloc.create_memory_map(),
        vec![
            entry(0x0, 0x1000, MemoryRegionKind::Bootloader),
            entry(0x1000, 0x8000, MemoryRegionKind::Usable),
            entry(0x8000, 0x9000, MemoryRegionKind::UnknownUefi(0)),
        ]
    );
}

#[test]
fn interrupt_numbers() {
    assert_eq!(u8::from(InterruptIndex::IoApic), 40);
    assert_eq!(u8::from(InterruptIndex::Keyboard), 41);
    assert_eq!(u8::from(InterruptIndex::Mouse), 52);
    assert_eq!(u8::from(InterruptIndex::ApicError), 0x90);
    assert_eq!(usize::from(InterruptIndex::Timer), 0x91);
    assert_eq!(InterruptIndex::Timer.vector(), 0x91);
    assert_eq!(u8::from(IoApicTableIndex::Keyboard), 1);
    assert_eq!(usize::from(IoApicTableIndex::Mouse), 12);
    assert_eq!(IoApicTableIndex::Mouse.input(), 12);
    assert_eq!(QemuExitCode::Success.code(), 0x10);
    assert_eq!(QemuExitCode::Failed.code(), 0x11);
}
