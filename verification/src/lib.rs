//! Memory-management and task-scheduling core of a small multiprocessor kernel.
//!
//! The crate holds the decision logic of the kernel: physical frame
//! allocation over coalesced region sets, the planning of page-table
//! mappings, a cooperative task scheduler with its lock and queue protocols,
//! and the timer bookkeeping. Hardware access stays with the caller.

pub mod boot;
pub mod interrupts;
pub mod kbuf;
pub mod mem;
pub mod peripheral;
pub mod pit;
pub mod smp;
pub mod task;
pub mod time;
pub mod util;
