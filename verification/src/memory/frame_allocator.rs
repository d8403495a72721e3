//! The frames that the bootloader leaves usable, in order.
use vstd::prelude::*;

use crate::memory::PAGE_SIZE;

verus! {

/// A region of physical memory `[start, end)`, and whether the bootloader
/// left it usable.
#[derive(Debug, Clone, Copy, PartialEq, Eq, Structural)]
pub struct PhysRegion {
    pub start: u64,
    pub end: u64,
    pub usable: bool,
}

/// How many page steps from `start` stay below `end`.
pub open spec fn step_count(start: u64, end: u64) -> nat {
    if end > start {
        ((end - start + PAGE_SIZE - 1) / (PAGE_SIZE as int)) as nat
    } else {
        0
    }
}

/// The addresses from `start` in steps of a page, below `end`.
pub open spec fn region_steps(r: PhysRegion) -> Seq<int> {
    Seq::new(step_count(r.start, r.end), |i: int| r.start + i * PAGE_SIZE)
}

/// The addresses of the usable regions, each stepped through a page at a
/// time, region after region.
pub open spec fn usable_addresses(regions: Seq<PhysRegion>) -> Seq<int>
    decreases regions.len(),
{
    if regions.len() == 0 {
        Seq::empty()
    } else {
        usable_addresses(regions.drop_last()) + if regions.last().usable {
            region_steps(regions.last())
        } else {
            Seq::empty()
        }
    }
}

/// The frame that holds address `addr`.
pub open spec fn frame_of(addr: int) -> int {
    addr - addr % (PAGE_SIZE as int)
}

/// Frame `n` of the usable frames: the frame that holds the `n`-th address
/// of `usable_addresses`, or `None` when there are no more.
pub fn usable_frame(regions: &[PhysRegion], n: u64) -> (r: Option<u64>)
    ensures
        r == (if n < usable_addresses(regions@).len() {
            Some(frame_of(usable_addresses(regions@)[n as int]) as u64)
        } else {
            None
        }),
{
    let mut rest: u64 = n;
    let mut k: usize = 0;
    while k < regions.len()
        invariant
            k <= regions@.len(),
            usable_addresses(regions@.take(k as int)).len() <= n,
            rest == n - usable_addresses(regions@.take(k as int)).len(),
        decreases regions@.len() - k,
    {
        let region = regions[k];
        let ghost before = usable_addresses(regions@.take(k as int));
        proof {
            assert(regions@.take(k + 1).drop_last() =~= regions@.take(k as int));
            assert(regions@.take(k + 1).last() == region);
        }
        if region.usable && region.end > region.start {
            let span = region.end - region.start;
            let count = span / PAGE_SIZE + if span % PAGE_SIZE != 0 {
                1
            } else {
                0
            };
            proof {
                assert(count == step_count(region.start, region.end)) by (nonlinear_arith)
                    requires
                        span == region.end - region.start,
                        count == span / PAGE_SIZE + if span % PAGE_SIZE != 0 {
                            1int
                        } else {
                            0int
                        },
                        region.end > region.start,
                ;
            }
            if rest < count {
                proof {
                    assert(rest * PAGE_SIZE < span) by (nonlinear_arith)
                        requires
                            rest < count,
                            count == span / PAGE_SIZE + if span % PAGE_SIZE != 0 {
                                1int
                            } else {
                                0int
                            },
                    ;
                    let all = usable_addresses(regions@.take(k + 1));
                    assert(all == before + region_steps(region));
                    assert(all[n as int] == region_steps(region)[rest as int]);
                    if k + 1 < regions@.len() {
                        lemma_usable_prefix(regions@, k + 1);
                    } else {
                        assert(regions@.take(k + 1) =~= regions@);
                    }
                }
                let addr = region.start + rest * PAGE_SIZE;
                return Some(addr - addr % PAGE_SIZE);
            }
            rest = rest - count;
        }
        k = k + 1;
    }
    proof {
        assert(regions@.take(k as int) =~= regions@);
    }
    None
}

/// The usable addresses of the first `k` regions begin those of all.
proof fn lemma_usable_prefix(regions: Seq<PhysRegion>, k: int)
    requires
        0 <= k <= regions.len(),
    ensures
        usable_addresses(regions.take(k)).len() <= usable_addresses(regions).len(),
        forall|i: int|
            0 <= i < usable_addresses(regions.take(k)).len() ==> usable_addresses(regions)[i]
                == #[trigger] usable_addresses(regions.take(k))[i],
    decreases regions.len() - k,
{
    if k < regions.len() {
        lemma_usable_prefix(regions, k + 1);
        let next = regions.take(k + 1);
        assert(next.drop_last() =~= regions.take(k));
        let shorter = usable_addresses(regions.take(k));
        let longer = usable_addresses(next);
        assert(longer == shorter + if next.last().usable {
            region_steps(next.last())
        } else {
            Seq::empty()
        });
        assert forall|i: int| 0 <= i < shorter.len() implies usable_addresses(regions)[i]
            == #[trigger] shorter[i] by {
            assert(longer[i] == shorter[i]);
        }
    } else {
        assert(regions.take(k) =~= regions);
    }
}

} // verus!
