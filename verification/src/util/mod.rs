//! Structures that the rest of the kernel builds on.

pub mod spinlock;
pub mod static_list;
