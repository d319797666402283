//! Physical memory bookkeeping.

pub mod boot_frames;
pub mod frame;
pub mod frame_allocator;
pub mod manager;
pub mod paging;
pub mod region;
