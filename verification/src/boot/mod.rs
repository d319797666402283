//! What the boot stage hands to the kernel.

pub mod memory;
pub mod uefi;
