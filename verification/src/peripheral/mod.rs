//! Devices that feed the kernel.

pub mod mouse;
