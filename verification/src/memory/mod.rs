//! Kernel memory management: the page-granular buddy allocator, the
//! slab allocator for small objects that sits on top of it, and the pages
//! that mapping a region takes.
use vstd::prelude::*;

pub mod binary_allocator;
pub mod buddy_allocator;
pub mod frame_allocator;
pub mod memory_mapper;
pub mod slab_allocator;

verus! {

/// Start of the kernel heap.
pub const HEAP_START: u64 = 0x2000_0000_0000;

/// Size of the kernel heap (1 MiB).
pub const HEAP_SIZE: u64 = 1024 * 1024;

/// Size of a page frame.
pub const PAGE_SIZE: u64 = 4096;

/// A canonical x86_64 virtual address: bits 48 to 63 copy bit 47.
pub open spec fn is_canonical(addr: u64) -> bool {
    addr < 0x0000_8000_0000_0000 || addr >= 0xffff_8000_0000_0000
}

/// Whether `addr` is a canonical address.
pub fn canonical(addr: u64) -> (b: bool)
    ensures
        b == is_canonical(addr),
{
    addr < 0x0000_8000_0000_0000 || addr >= 0xffff_8000_0000_0000
}

} // verus!
