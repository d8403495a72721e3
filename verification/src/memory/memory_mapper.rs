//! Which pages mapping a memory region takes.
use vstd::prelude::*;

use crate::memory::{canonical, is_canonical, PAGE_SIZE};

verus! {

/// The address of the page that holds `addr`.
pub open spec fn page_of(addr: int) -> int {
    addr - addr % (PAGE_SIZE as int)
}

/// The first and the last page that the `size` bytes from `start` touch:
/// from the page holding `start` to the page holding `start + size - 1`.
pub fn pages_to_map(start: u64, size: u64) -> (r: (u64, u64))
    requires
        1 <= start + size <= u64::MAX,
        is_canonical(start),
        is_canonical((start + size) as u64),
        is_canonical((start + size - 1) as u64),
    ensures
        r.0 == page_of(start as int),
        r.1 == page_of(start + size - 1),
        r.0 % PAGE_SIZE == 0,
        r.1 % PAGE_SIZE == 0,
{
    let end = start + size - 1;
    (start - start % PAGE_SIZE, end - end % PAGE_SIZE)
}

/// Whether `pages_to_map` is defined for the `size` bytes from `start`: at
/// least one byte, within 64-bit addresses, with its start, its last byte
/// and the address after it canonical.
pub fn pages_to_map_defined(start: u64, size: u64) -> (b: bool)
    ensures
        b == (1 <= start + size <= u64::MAX && is_canonical(start) && is_canonical(
            (start + size) as u64,
        ) && is_canonical((start + size - 1) as u64)),
{
    if size > u64::MAX - start || (start == 0 && size == 0) {
        return false;
    }
    canonical(start) && canonical(start + size) && canonical(start + size - 1)
}

} // verus!
