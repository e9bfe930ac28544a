//! Physical frame allocation and four-level page-table management for a
//! freestanding x86_64 kernel.
use vstd::prelude::*;

pub mod frame;
pub mod area_frame_allocator;
pub mod boot;
pub mod entry;
pub mod page;
pub mod paging;
pub mod vga_buffer;

verus! {

/// A physical memory address.
pub type PhysicalAddress = u64;

/// A virtual memory address.
pub type VirtualAddress = u64;

} // verus!
