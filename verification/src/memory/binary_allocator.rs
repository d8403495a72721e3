use vstd::prelude::*;

use crate::bits::{ceil_log2, highest_one, ilog2, next_pow2, next_power_of_two};

verus! {

/// The depth of the tree level that serves a request of `block_size` bytes.
///
/// Blocks at the deepest level, `max_depth - 1`, are `2^ceil_log2(min_block)`
/// bytes; each level up doubles the block size. A request is served at the
/// deepest level whose blocks are at least `2^ceil_log2(block_size)` bytes, and
/// cannot be served when even the root is too small.
pub open spec fn depth_for(block_size: nat, min_block: nat, max_depth: nat) -> Option<nat> {
    let levels_up = ceil_log2(block_size) - ceil_log2(min_block);
    if levels_up <= 0 {
        Some((max_depth - 1) as nat)
    } else if levels_up > max_depth - 1 {
        None
    } else {
        Some((max_depth - 1 - levels_up) as nat)
    }
}

/// The block size that serves a request of `size` bytes aligned to `align`.
pub open spec fn size_for(size: nat, align: nat, min_block: nat) -> nat {
    let wanted = if size >= align {
        size
    } else {
        align
    };
    next_pow2(
        if wanted >= min_block {
            wanted
        } else {
            min_block
        },
    )
}

/// An allocator that can only allocate memory sizes that are a power of 2
pub trait BinaryAllocator: Sized {
    /// The allocator's bookkeeping is consistent.
    spec fn wf(&self) -> bool;

    /// The value `minimum_block_size` gives back.
    spec fn spec_minimum_block_size(&self) -> u64;

    /// The value `max_depth` gives back.
    spec fn spec_max_depth(&self) -> u64;

    /// No block that the allocator hands out reaches past this address.
    spec fn spec_upper_bound(&self) -> nat;

    /// `allocate(size)` may be called in this state.
    spec fn alloc_requires(&self, size: u64) -> bool;

    /// `dealloc(ptr, size)` may be called in this state.
    spec fn dealloc_requires(&self, ptr: usize, size: u64) -> bool;

    /// The block that `allocate(size)` hands out in this state, or `None`
    /// when the request cannot be served.
    spec fn allocation(&self, size: u64) -> Option<usize>;

    /// What `allocate(size)` does to the allocator, from state `s0` to state
    /// `s1`, handing out `r`.
    spec fn allocated(s0: Self, s1: Self, size: u64, r: Option<usize>) -> bool;

    /// What `dealloc(ptr, size)` does to the allocator, from state `s0` to
    /// state `s1`.
    spec fn freed(s0: Self, s1: Self, ptr: usize, size: u64) -> bool;

    fn allocate(&mut self, size: u64) -> (r: Option<usize>)
        requires
            old(self).wf(),
            old(self).alloc_requires(size),
        ensures
            final(self).wf(),
            final(self).spec_minimum_block_size() == old(self).spec_minimum_block_size(),
            final(self).spec_max_depth() == old(self).spec_max_depth(),
            final(self).spec_upper_bound() == old(self).spec_upper_bound(),
            r == old(self).allocation(size),
            Self::allocated(*old(self), *final(self), size, r),
            r matches Some(p) ==> p + size <= old(self).spec_upper_bound(),
    ;

    fn dealloc(&mut self, ptr: usize, size: u64)
        requires
            old(self).wf(),
            old(self).dealloc_requires(ptr, size),
        ensures
            final(self).wf(),
            Self::freed(*old(self), *final(self), ptr, size),
            final(self).spec_minimum_block_size() == old(self).spec_minimum_block_size(),
            final(self).spec_max_depth() == old(self).spec_max_depth(),
            final(self).spec_upper_bound() == old(self).spec_upper_bound(),
    ;

    fn minimum_block_size(&self) -> (r: u64)
        ensures
            r == self.spec_minimum_block_size(),
    ;

    fn max_depth(&self) -> (r: u64)
        ensures
            r == self.spec_max_depth(),
    ;

    /// The depth of the level that serves blocks of `block_size` bytes, or
    /// `None` when the request is larger than the whole managed region.
    fn compute_depth(&self, block_size: u64) -> (r: Option<u64>)
        requires
            block_size >= 1,
            self.spec_max_depth() >= 1,
            self.spec_minimum_block_size() >= 2,
            self.spec_max_depth() - 1 + ilog2((self.spec_minimum_block_size() - 1) as nat)
                <= u64::MAX,
        ensures
            r matches Some(d) ==> depth_for(
                block_size as nat,
                self.spec_minimum_block_size() as nat,
                self.spec_max_depth() as nat,
            ) == Some(d as nat),
            r is None ==> depth_for(
                block_size as nat,
                self.spec_minimum_block_size() as nat,
                self.spec_max_depth() as nat,
            ) is None,
    {
        let highest_bit = highest_one(block_size - 1);
        let max_depth_inclusive = self.max_depth() - 1;
        let min_block = self.minimum_block_size();
        match highest_bit {
            Some(highest) => {
                let minimum_highest_one = match highest_one(min_block - 1) {
                    Some(m) => m,
                    None => vstd::pervasive::unreached(),
                };
                assert(((block_size as nat) - 1) as nat == (block_size - 1) as nat);
                assert(highest == ilog2((block_size - 1) as nat));
                assert(block_size > 1);
                assert(ceil_log2(block_size as nat) == highest + 1);
                assert(ceil_log2(min_block as nat) == minimum_highest_one + 1);
                if highest <= minimum_highest_one {
                    // block_size is too small give the minimum size
                    return Some(max_depth_inclusive);
                };
                if max_depth_inclusive + minimum_highest_one < highest {
                    // block_size is too big => allocation failed
                    None
                } else {
                    Some(max_depth_inclusive + minimum_highest_one - highest)
                }
            },
            None => {
                assert(ceil_log2(block_size as nat) == 0);
                Some(max_depth_inclusive)
            },
        }
    }

    /// The power-of-two block size that serves a request of `size` bytes
    /// aligned to `align`: the larger of the two, raised to the minimum block
    /// size and rounded up to a power of two.
    fn compute_size(&self, size: u64, align: u64) -> (r: u64)
        requires
            size_for(size as nat, align as nat, self.spec_minimum_block_size() as nat)
                <= u64::MAX,
        ensures
            r == size_for(size as nat, align as nat, self.spec_minimum_block_size() as nat),
    {
        let wanted = if size >= align {
            size
        } else {
            align
        };
        let min_block = self.minimum_block_size();
        next_power_of_two(
            if wanted >= min_block {
                wanted
            } else {
                min_block
            },
        )
    }
}

} // verus!
