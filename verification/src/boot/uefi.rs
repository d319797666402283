//! Entries of the memory map of UEFI firmware.

use crate::boot::memory::{MemoryRegion, MemoryRegionKind};
use crate::mem::frame::MAX_PHYS_ADDR;
use vstd::prelude::*;

verus! {

/// Bytes in a page of the firmware's map.
pub const PAGE_SIZE: u64 = 4096;

/// Type tag of memory that holds the code of a loaded UEFI application.
pub const LOADER_CODE: u32 = 1;

/// Type tag of memory that holds the data of a loaded UEFI application.
pub const LOADER_DATA: u32 = 2;

/// Type tag of memory that holds the code of boot services.
pub const BOOT_SERVICES_CODE: u32 = 3;

/// Type tag of memory that holds the data of boot services.
pub const BOOT_SERVICES_DATA: u32 = 4;

/// Type tag of memory that holds the code of runtime services.
pub const RUNTIME_SERVICES_CODE: u32 = 5;

/// Type tag of memory that holds the data of runtime services.
pub const RUNTIME_SERVICES_DATA: u32 = 6;

/// Type tag of free memory.
pub const CONVENTIONAL: u32 = 7;

/// One entry of the firmware's map: `page_count` pages from `phys_start` on,
/// of the type `ty`.
#[derive(Clone, Copy, Debug, PartialEq, Eq, Structural)]
pub struct UefiMemoryDescriptor {
    pub ty: u32,
    pub phys_start: u64,
    pub page_count: u64,
}

/// Whether memory of this type is free once the boot stage has left: the
/// memory of the loader, of boot services and of runtime services.
pub open spec fn freed_on_exit(ty: u32) -> bool {
    1 <= ty <= 6
}

impl MemoryRegion for UefiMemoryDescriptor {
    open spec fn wf(&self) -> bool {
        self.phys_start + self.page_count * 4096 <= MAX_PHYS_ADDR
    }

    open spec fn spec_start(&self) -> u64 {
        self.phys_start
    }

    open spec fn spec_len(&self) -> u64 {
        (self.page_count * 4096) as u64
    }

    open spec fn spec_kind(&self) -> MemoryRegionKind {
        if self.ty == CONVENTIONAL {
            MemoryRegionKind::Usable
        } else {
            MemoryRegionKind::UnknownUefi(self.ty)
        }
    }

    open spec fn exited(&self) -> UefiMemoryDescriptor {
        UefiMemoryDescriptor {
            ty: if freed_on_exit(self.ty) {
                CONVENTIONAL
            } else {
                self.ty
            },
            phys_start: self.phys_start,
            page_count: self.page_count,
        }
    }

    proof fn lemma_wf(&self) {
    }

    fn start(&self) -> (a: u64) {
        self.phys_start
    }

    fn len(&self) -> (n: u64) {
        self.page_count * PAGE_SIZE
    }

    fn kind(&self) -> (k: MemoryRegionKind) {
        if self.ty == CONVENTIONAL {
            MemoryRegionKind::Usable
        } else {
            MemoryRegionKind::UnknownUefi(self.ty)
        }
    }

    fn on_bootloader_exit(&mut self) {
        if self.ty == LOADER_CODE || self.ty == LOADER_DATA || self.ty == BOOT_SERVICES_CODE
            || self.ty == BOOT_SERVICES_DATA || self.ty == RUNTIME_SERVICES_CODE || self.ty
            == RUNTIME_SERVICES_DATA {
            self.ty = CONVENTIONAL;
        }
    }
}

} // verus!
