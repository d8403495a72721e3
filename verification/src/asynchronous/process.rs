use vstd::prelude::*;

use crate::memory::{canonical, is_canonical, PAGE_SIZE};
use crate::utils::interval::{lemma_sort_sorted, sort_by_start, sort_pairs_by_start, sorted_by_start};

verus! {

/// A range of pages `[start, end)`, given by the addresses of its first page
/// and of the page after its last.
#[derive(Debug, Clone, Copy, PartialEq, Eq, Structural)]
pub struct PageRange {
    pub start: u64,
    pub end: u64,
}

/// Adding `len` bytes to a page address `c` stays a canonical address.
pub open spec fn step_ok(c: int, len: int) -> bool {
    c + len <= u64::MAX && is_canonical((c + len) as u64)
}

/// First fit among regions sorted by start: the first candidate, starting
/// at `candidate` and moving past every region that it reaches, that leaves
/// `len` bytes before the next region's start.
pub open spec fn first_fit(sorted: Seq<(u64, u64)>, candidate: int, len: int) -> int
    decreases sorted.len(),
{
    if sorted.len() == 0 {
        candidate
    } else if candidate + len <= sorted[0].0 {
        candidate
    } else {
        first_fit(
            sorted.drop_first(),
            if candidate < sorted[0].1 {
                sorted[0].1 as int
            } else {
                candidate
            },
            len,
        )
    }
}

/// Every candidate that the first-fit search reaches leaves room for `len`
/// bytes within the canonical addresses.
pub open spec fn first_fit_defined(sorted: Seq<(u64, u64)>, candidate: int, len: int) -> bool
    decreases sorted.len(),
{
    &&& step_ok(candidate, len)
    &&& (sorted.len() > 0 && candidate + len > sorted[0].0) ==> first_fit_defined(
        sorted.drop_first(),
        if candidate < sorted[0].1 {
            sorted[0].1 as int
        } else {
            candidate
        },
        len,
    )
}

/// The start and end of each range.
pub open spec fn range_pairs(v: Seq<PageRange>) -> Seq<(u64, u64)> {
    v.map_values(|r: PageRange| (r.start, r.end))
}

/// The first range of `n_pages` pages at or after `heap_start` that overlaps
/// none of `memory_regions`, found by first fit over the regions sorted by
/// start.
pub fn find_free_mem_region(memory_regions: &Vec<PageRange>, heap_start: u64, n_pages: u64) -> (r:
    PageRange)
    requires
        n_pages * PAGE_SIZE <= u64::MAX,
        heap_start % PAGE_SIZE == 0,
        is_canonical(heap_start),
        first_fit_defined(
            sort_by_start(range_pairs(memory_regions@)),
            heap_start as int,
            n_pages * PAGE_SIZE,
        ),
    ensures
        r.start == first_fit(
            sort_by_start(range_pairs(memory_regions@)),
            heap_start as int,
            n_pages * PAGE_SIZE,
        ),
        r.end == r.start + n_pages * PAGE_SIZE,
{
    let len = n_pages * PAGE_SIZE;
    let mut pairs: Vec<(u64, u64)> = Vec::new();
    let mut k: usize = 0;
    while k < memory_regions.len()
        invariant
            k <= memory_regions@.len(),
            pairs@ == range_pairs(memory_regions@).take(k as int),
        decreases memory_regions@.len() - k,
    {
        pairs.push((memory_regions[k].start, memory_regions[k].end));
        proof {
            assert(pairs@ =~= range_pairs(memory_regions@).take(k as int + 1));
        }
        k = k + 1;
    }
    proof {
        assert(pairs@ =~= range_pairs(memory_regions@));
    }
    let intervals = sort_pairs_by_start(&pairs);
    let ghost all = intervals@;
    let mut candidate = heap_start;
    let mut i: usize = 0;
    proof {
        assert(all.skip(0) =~= all);
    }
    while i < intervals.len()
        invariant
            all == intervals@,
            all == sort_by_start(range_pairs(memory_regions@)),
            i <= all.len(),
            len == n_pages * PAGE_SIZE,
            first_fit(all.skip(i as int), candidate as int, len as int) == first_fit(
                all,
                heap_start as int,
                len as int,
            ),
            first_fit_defined(all.skip(i as int), candidate as int, len as int),
        decreases all.len() - i,
    {
        let interval = intervals[i];
        proof {
            assert(all.skip(i as int)[0] == interval);
            assert(all.skip(i as int).drop_first() =~= all.skip(i as int + 1));
        }
        if candidate + len <= interval.0 {
            assert(first_fit(all.skip(i as int), candidate as int, len as int) == candidate);
            return PageRange { start: candidate, end: candidate + len };
        }
        if candidate < interval.1 {
            // Move after the overlapping interval
            candidate = interval.1;
        }
        i = i + 1;
    }
    assert(all.skip(i as int).len() == 0);
    assert(first_fit(all.skip(i as int), candidate as int, len as int) == candidate);
    PageRange { start: candidate, end: candidate + len }
}

/// Whether `find_free_mem_region` is defined on these inputs: the range is
/// at most the address space, `heap_start` is a canonical page address, and
/// every candidate that the first-fit search reaches leaves room within the
/// canonical addresses.
pub fn free_mem_region_defined(memory_regions: &Vec<PageRange>, heap_start: u64, n_pages: u64) -> (b:
    bool)
    ensures
        b == (n_pages * PAGE_SIZE <= u64::MAX && heap_start % PAGE_SIZE == 0 && is_canonical(
            heap_start,
        ) && first_fit_defined(
            sort_by_start(range_pairs(memory_regions@)),
            heap_start as int,
            n_pages * PAGE_SIZE,
        )),
{
    if n_pages > u64::MAX / PAGE_SIZE {
        assert(n_pages * PAGE_SIZE > u64::MAX) by (nonlinear_arith)
            requires
                n_pages > u64::MAX / PAGE_SIZE,
        ;
        return false;
    }
    assert(n_pages * PAGE_SIZE <= u64::MAX) by (nonlinear_arith)
        requires
            n_pages <= u64::MAX / PAGE_SIZE,
    ;
    let len = n_pages * PAGE_SIZE;
    if heap_start % PAGE_SIZE != 0 || !canonical(heap_start) {
        return false;
    }
    let mut pairs: Vec<(u64, u64)> = Vec::new();
    let mut k: usize = 0;
    while k < memory_regions.len()
        invariant
            k <= memory_regions@.len(),
            pairs@ == range_pairs(memory_regions@).take(k as int),
        decreases memory_regions@.len() - k,
    {
        pairs.push((memory_regions[k].start, memory_regions[k].end));
        proof {
            assert(pairs@ =~= range_pairs(memory_regions@).take(k as int + 1));
        }
        k = k + 1;
    }
    proof {
        assert(pairs@ =~= range_pairs(memory_regions@));
    }
    let intervals = sort_pairs_by_start(&pairs);
    let ghost all = intervals@;
    let mut candidate = heap_start;
    let mut i: usize = 0;
    proof {
        assert(all.skip(0) =~= all);
    }
    while i < intervals.len()
        invariant
            all == intervals@,
            all == sort_by_start(range_pairs(memory_regions@)),
            i <= all.len(),
            len == n_pages * PAGE_SIZE,
            heap_start % PAGE_SIZE == 0,
            is_canonical(heap_start),
            first_fit_defined(all.skip(i as int), candidate as int, len as int) == first_fit_defined(
                all,
                heap_start as int,
                len as int,
            ),
        decreases all.len() - i,
    {
        let interval = intervals[i];
        proof {
            assert(all.skip(i as int)[0] == interval);
            assert(all.skip(i as int).drop_first() =~= all.skip(i as int + 1));
        }
        if candidate > u64::MAX - len || !canonical(candidate + len) {
            return false;
        }
        if candidate + len <= interval.0 {
            assert(step_ok(candidate as int, len as int));
            assert(first_fit_defined(all.skip(i as int), candidate as int, len as int));
            return true;
        }
        if candidate < interval.1 {
            candidate = interval.1;
        }
        i = i + 1;
    }
    assert(all.skip(i as int).len() == 0);
    candidate <= u64::MAX - len && canonical(candidate + len)
}

/// First fit over regions sorted by start lands at or after its first
/// candidate, and `len` bytes from there lie entirely before or entirely after
/// each region.
pub proof fn lemma_first_fit_apart(sorted: Seq<(u64, u64)>, candidate: int, len: int)
    requires
        sorted_by_start(sorted),
        len >= 0,
    ensures
        first_fit(sorted, candidate, len) >= candidate,
        forall|k: int|
            0 <= k < sorted.len() ==> first_fit(sorted, candidate, len) + len <= #[trigger] sorted[k].0
                || sorted[k].1 <= first_fit(sorted, candidate, len),
    decreases sorted.len(),
{
    if sorted.len() > 0 && candidate + len > sorted[0].0 {
        let rest = sorted.drop_first();
        let next = if candidate < sorted[0].1 {
            sorted[0].1 as int
        } else {
            candidate
        };
        assert(sorted_by_start(rest));
        lemma_first_fit_apart(rest, next, len);
        assert forall|k: int|
            0 <= k < sorted.len() implies first_fit(sorted, candidate, len) + len
            <= #[trigger] sorted[k].0 || sorted[k].1 <= first_fit(sorted, candidate, len) by {
            if k > 0 {
                assert(sorted[k] == rest[k - 1]);
            }
        }
    }
}

/// Every start from `candidate` up to the first fit would overlap a region:
/// the first fit is the lowest start, from `candidate` on, that leaves `len`
/// bytes free.
pub proof fn lemma_first_fit_lowest(sorted: Seq<(u64, u64)>, candidate: int, len: int, c: int)
    requires
        candidate <= c < first_fit(sorted, candidate, len),
    ensures
        exists|k: int| 0 <= k < sorted.len() && c < (#[trigger] sorted[k]).1 && sorted[k].0 < c + len,
    decreases sorted.len(),
{
    if sorted.len() > 0 && candidate + len > sorted[0].0 {
        let rest = sorted.drop_first();
        let next = if candidate < sorted[0].1 {
            sorted[0].1 as int
        } else {
            candidate
        };
        if c < next {
            assert(c < sorted[0].1 && sorted[0].0 < c + len);
        } else {
            lemma_first_fit_lowest(rest, next, len, c);
            let k = choose|k: int| 0 <= k < rest.len() && c < (#[trigger] rest[k]).1 && rest[k].0 < c + len;
            assert(sorted[k + 1] == rest[k]);
        }
    }
}

/// No start from `heap_start` up to the range that `find_free_mem_region`
/// gives back leaves room: each would overlap one of the memory regions. With
/// `lemma_free_region_apart`, the range is the lowest free fit.
pub proof fn lemma_free_region_lowest(memory_regions: Seq<PageRange>, heap_start: u64, n_pages: u64, c: int)
    requires
        heap_start <= c < first_fit(
            sort_by_start(range_pairs(memory_regions)),
            heap_start as int,
            n_pages * PAGE_SIZE,
        ),
    ensures
        exists|k: int|
            0 <= k < memory_regions.len() && c < (#[trigger] memory_regions[k]).end
                && memory_regions[k].start < c + n_pages * PAGE_SIZE,
{
    broadcast use vstd::seq_lib::group_to_multiset_ensures;

    let pairs = range_pairs(memory_regions);
    let sorted = sort_by_start(pairs);
    let len = n_pages * PAGE_SIZE;
    lemma_sort_sorted(pairs);
    lemma_first_fit_lowest(sorted, heap_start as int, len, c);
    let j = choose|j: int| 0 <= j < sorted.len() && c < (#[trigger] sorted[j]).1 && sorted[j].0 < c + len;
    assert(sorted.to_multiset().count(sorted[j]) > 0);
    assert(pairs.contains(sorted[j]));
    let k = choose|k: int| 0 <= k < pairs.len() && pairs[k] == sorted[j];
    assert(pairs[k] == (memory_regions[k].start, memory_regions[k].end));
    assert(c < memory_regions[k].end && memory_regions[k].start < c + len);
}

/// The range that `find_free_mem_region` gives back starts at or after
/// `heap_start` and overlaps none of the memory regions.
pub proof fn lemma_free_region_apart(memory_regions: Seq<PageRange>, heap_start: u64, n_pages: u64)
    ensures
        ({
            let start = first_fit(
                sort_by_start(range_pairs(memory_regions)),
                heap_start as int,
                n_pages * PAGE_SIZE,
            );
            &&& start >= heap_start
            &&& forall|k: int|
                0 <= k < memory_regions.len() ==> start + n_pages * PAGE_SIZE
                    <= #[trigger] memory_regions[k].start || memory_regions[k].end <= start
        }),
{
    broadcast use vstd::seq_lib::group_to_multiset_ensures;

    let pairs = range_pairs(memory_regions);
    let sorted = sort_by_start(pairs);
    let len = n_pages * PAGE_SIZE;
    lemma_sort_sorted(pairs);
    lemma_first_fit_apart(sorted, heap_start as int, len);
    let start = first_fit(sorted, heap_start as int, len);
    assert forall|k: int|
        0 <= k < memory_regions.len() implies start + len <= #[trigger] memory_regions[k].start
        || memory_regions[k].end <= start by {
        assert(pairs[k] == (memory_regions[k].start, memory_regions[k].end));
        assert(pairs.to_multiset().count(pairs[k]) > 0);
        assert(sorted.contains(pairs[k]));
        let j = choose|j: int| 0 <= j < sorted.len() && sorted[j] == pairs[k];
        assert(start + len <= sorted[j].0 || sorted[j].1 <= start);
    }
}

} // verus!
