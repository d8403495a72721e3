use vstd::prelude::*;

use crate::asynchronous::process::PageRange;
use crate::fs::elf::header::ElfHeader;
use crate::fs::elf::program_header::{ElfProgramHeader, ElfProgramType};
use crate::memory::{canonical, is_canonical, PAGE_SIZE};
use crate::utils::interval::{
    ends_on, ends_with, lemma_merge_intervals_ends, merge_intervals, merge_sorted, sort_by_start, views,
    well_ordered, Interval,
};

verus! {

/// Loads executables.
pub struct ProgramExecutor {}

/// Pages needed for `size` bytes.
pub open spec fn pages_for(size: u64) -> nat {
    ((size as int + PAGE_SIZE - 1) / (PAGE_SIZE as int)) as nat
}

/// The memory interval of a segment: from its address over whole pages.
pub open spec fn segment_interval(h: ElfProgramHeader) -> (u64, u64) {
    (h.spec_vaddr(), (h.spec_vaddr() + pages_for(h.spec_mem_size()) * PAGE_SIZE) as u64)
}

/// The intervals of the loadable segments, in file order.
pub open spec fn load_intervals(hs: Seq<ElfProgramHeader>) -> Seq<(u64, u64)>
    decreases hs.len(),
{
    if hs.len() == 0 {
        Seq::empty()
    } else if hs.last().spec_type() == ElfProgramType::Load {
        load_intervals(hs.drop_last()).push(segment_interval(hs.last()))
    } else {
        load_intervals(hs.drop_last())
    }
}

/// Every loadable segment is aligned to at most a page and its pages end
/// within 64-bit addresses.
pub open spec fn segments_loadable(hs: Seq<ElfProgramHeader>) -> bool {
    forall|i: int|
        0 <= i < hs.len() && (#[trigger] hs[i]).spec_type() == ElfProgramType::Load ==> {
            &&& hs[i].spec_align() <= PAGE_SIZE
            &&& hs[i].spec_vaddr() + pages_for(hs[i].spec_mem_size()) * PAGE_SIZE <= u64::MAX
        }
}

/// The pages that a merged interval maps: from its start, as many whole pages
/// as its size holds.
pub open spec fn interval_pages(m: (u64, u64)) -> PageRange {
    PageRange {
        start: m.0,
        end: (m.0 + ((m.1 - m.0) as nat / PAGE_SIZE as nat) * PAGE_SIZE) as u64,
    }
}

/// Each merged interval starts on a canonical page address and its pages end
/// on one.
pub open spec fn intervals_mappable(ms: Seq<(u64, u64)>) -> bool {
    forall|i: int|
        0 <= i < ms.len() ==> {
            &&& (#[trigger] ms[i]).0 % PAGE_SIZE == 0
            &&& is_canonical(ms[i].0)
            &&& ms[i].0 <= ms[i].1
            &&& is_canonical(interval_pages(ms[i]).end)
        }
}

/// The pages planned for a segment start at its address and hold all of its
/// bytes in whole pages, with less than a page to spare.
pub proof fn lemma_segment_pages(h: ElfProgramHeader)
    requires
        h.spec_vaddr() + pages_for(h.spec_mem_size()) * PAGE_SIZE <= u64::MAX,
    ensures
        segment_interval(h).0 == h.spec_vaddr(),
        (segment_interval(h).1 - h.spec_vaddr()) % (PAGE_SIZE as int) == 0,
        h.spec_vaddr() + h.spec_mem_size() <= segment_interval(h).1,
        segment_interval(h).1 < h.spec_vaddr() + h.spec_mem_size() + PAGE_SIZE,
{
    let m = h.spec_mem_size() as int;
    let n = pages_for(h.spec_mem_size()) as int;
    assert(m <= n * 4096 < m + 4096 && (n * 4096) % 4096 == 0) by (nonlinear_arith)
        requires
            n == (m + 4095) / 4096,
            m >= 0,
    ;
}

/// Every interval that loading plans is the page interval of one of the
/// loadable segments.
proof fn lemma_load_intervals_of_segments(hs: Seq<ElfProgramHeader>)
    requires
        segments_loadable(hs),
    ensures
        well_ordered(load_intervals(hs)),
        forall|j: int|
            0 <= j < load_intervals(hs).len() ==> exists|i: int|
                0 <= i < hs.len() && hs[i].spec_type() == ElfProgramType::Load
                    && #[trigger] load_intervals(hs)[j] == segment_interval(hs[i]),
    decreases hs.len(),
{
    if hs.len() > 0 {
        let h0 = hs.drop_last();
        assert forall|i: int|
            0 <= i < h0.len() && (#[trigger] h0[i]).spec_type() == ElfProgramType::Load implies {
            &&& h0[i].spec_align() <= PAGE_SIZE
            &&& h0[i].spec_vaddr() + pages_for(h0[i].spec_mem_size()) * PAGE_SIZE <= u64::MAX
        } by {
            assert(h0[i] == hs[i]);
        }
        lemma_load_intervals_of_segments(h0);
        let l0 = load_intervals(h0);
        let l = load_intervals(hs);
        let last = hs.len() - 1;
        assert(hs.last() == hs[last]);
        if hs.last().spec_type() == ElfProgramType::Load {
            lemma_segment_pages(hs[last]);
            assert(l == l0.push(segment_interval(hs[last])));
        } else {
            assert(l == l0);
        }
        assert forall|j: int| 0 <= j < l.len() implies exists|i: int|
            0 <= i < hs.len() && hs[i].spec_type() == ElfProgramType::Load && #[trigger] l[j]
                == segment_interval(hs[i]) by {
            if j < l0.len() {
                assert(l[j] == l0[j]);
                let i = choose|i: int|
                    0 <= i < h0.len() && h0[i].spec_type() == ElfProgramType::Load
                        && #[trigger] l0[j] == segment_interval(h0[i]);
                assert(h0[i] == hs[i]);
            } else {
                assert(l[j] == segment_interval(hs[last]));
            }
        }
        assert forall|j: int| 0 <= j < l.len() implies l[j].0 <= #[trigger] l[j].1 by {
            if j < l0.len() {
                assert(l[j] == l0[j]);
            }
        }
    }
}

/// Each page range that loading maps ends exactly where the whole pages of
/// one loadable segment end: the range starts at or before that segment and
/// holds all of its bytes, with less than a page to spare past them. So no
/// range cuts a segment's last bytes short. Stated for executables whose
/// loadable segments start on page boundaries.
pub proof fn lemma_load_ranges_hold_segments(hs: Seq<ElfProgramHeader>)
    requires
        segments_loadable(hs),
        intervals_mappable(merge_sorted(sort_by_start(load_intervals(hs)))),
        forall|i: int|
            0 <= i < hs.len() && (#[trigger] hs[i]).spec_type() == ElfProgramType::Load
                ==> hs[i].spec_vaddr() % PAGE_SIZE == 0,
    ensures
        ({
            let ranges = merge_sorted(sort_by_start(load_intervals(hs))).map_values(
                |m: (u64, u64)| interval_pages(m),
            );
            forall|k: int|
                #![trigger ranges[k]]
                0 <= k < ranges.len() ==> exists|i: int|
                    0 <= i < hs.len() && (#[trigger] hs[i]).spec_type() == ElfProgramType::Load
                        && ranges[k].start <= hs[i].spec_vaddr() && hs[i].spec_vaddr()
                        + hs[i].spec_mem_size() <= ranges[k].end && ranges[k].end < hs[i].spec_vaddr()
                        + hs[i].spec_mem_size() + PAGE_SIZE
        }),
{
    let l = load_intervals(hs);
    let ms = merge_sorted(sort_by_start(l));
    let ranges = ms.map_values(|m: (u64, u64)| interval_pages(m));
    lemma_load_intervals_of_segments(hs);
    lemma_merge_intervals_ends(l);
    assert forall|k: int| #![trigger ranges[k]] 0 <= k < ranges.len() implies exists|i: int|
        0 <= i < hs.len() && (#[trigger] hs[i]).spec_type() == ElfProgramType::Load
            && ranges[k].start <= hs[i].spec_vaddr() && hs[i].spec_vaddr() + hs[i].spec_mem_size()
            <= ranges[k].end && ranges[k].end < hs[i].spec_vaddr() + hs[i].spec_mem_size()
            + PAGE_SIZE by {
        assert(ends_on(ms, k, l));
        let j = choose|j: int| #[trigger] ends_with(ms, k, l, j);
        let i = choose|i: int|
            0 <= i < hs.len() && hs[i].spec_type() == ElfProgramType::Load && #[trigger] l[j]
                == segment_interval(hs[i]);
        let h = hs[i];
        lemma_segment_pages(h);
        let s = ms[k].0 as int;
        let e = ms[k].1 as int;
        let v = h.spec_vaddr() as int;
        assert(e == segment_interval(h).1);
        assert(s <= v);
        assert(s % 4096 == 0);
        assert(v % 4096 == 0);
        assert((e - v) % 4096 == 0);
        assert(((e - s) / 4096) * 4096 == e - s) by (nonlinear_arith)
            requires
                s % 4096 == 0,
                v % 4096 == 0,
                (e - v) % 4096 == 0,
                s <= v <= e,
        ;
        assert(ranges[k] == interval_pages(ms[k]));
        assert(ranges[k].end == e);
    }
}

/// A loadable segment's copy into memory: its `file_size` bytes at `offset`
/// in the file go to `virt_addr`, and the `zero_size` bytes after them, the
/// rest of its `mem_size` bytes, are zeroed.
#[derive(Debug, Clone, Copy, PartialEq, Eq, Structural)]
pub struct SegmentCopy {
    pub virt_addr: u64,
    pub offset: u64,
    pub file_size: u64,
    pub mem_size: u64,
    pub zero_size: u64,
}

/// The copy of segment `h`.
pub open spec fn segment_copy(h: ElfProgramHeader) -> SegmentCopy {
    SegmentCopy {
        virt_addr: h.spec_vaddr(),
        offset: h.spec_offset(),
        file_size: h.spec_file_size(),
        mem_size: h.spec_mem_size(),
        zero_size: (h.spec_mem_size() - h.spec_file_size()) as u64,
    }
}

/// The copies of the loadable segments, in file order.
pub open spec fn load_copies(hs: Seq<ElfProgramHeader>) -> Seq<SegmentCopy>
    decreases hs.len(),
{
    if hs.len() == 0 {
        Seq::empty()
    } else if hs.last().spec_type() == ElfProgramType::Load {
        load_copies(hs.drop_last()).push(segment_copy(hs.last()))
    } else {
        load_copies(hs.drop_last())
    }
}

/// Every loadable segment takes at least as much memory as it has bytes in
/// the file.
pub open spec fn segments_fit_memory(hs: Seq<ElfProgramHeader>) -> bool {
    forall|i: int|
        0 <= i < hs.len() && (#[trigger] hs[i]).spec_type() == ElfProgramType::Load
            ==> hs[i].spec_file_size() <= hs[i].spec_mem_size()
}

impl ProgramExecutor {
    /// The copies that loading an executable makes, one per loadable segment
    /// in file order.
    pub fn segment_copies(elf_header: &ElfHeader) -> (r: Vec<SegmentCopy>)
        requires
            segments_fit_memory(elf_header.spec_program_headers()),
        ensures
            r@ == load_copies(elf_header.spec_program_headers()),
    {
        let headers = elf_header.program_headers();
        let ghost hs = headers@;
        let mut copies: Vec<SegmentCopy> = Vec::new();
        let mut i: usize = 0;
        while i < headers.len()
            invariant
                hs == headers@,
                hs == elf_header.spec_program_headers(),
                segments_fit_memory(hs),
                i <= hs.len(),
                copies@ == load_copies(hs.take(i as int)),
            decreases hs.len() - i,
        {
            let program_header = &headers[i];
            proof {
                assert(hs.take(i as int + 1).drop_last() =~= hs.take(i as int));
                assert(hs.take(i as int + 1).last() == hs[i as int]);
            }
            if program_header.should_load() {
                let mem_size = program_header.mem_size();
                let file_size = program_header.file_size();
                proof {
                    assert(hs[i as int].spec_type() == ElfProgramType::Load);
                }
                copies.push(
                    SegmentCopy {
                        virt_addr: program_header.virt_addr(),
                        offset: program_header.offset(),
                        file_size,
                        mem_size,
                        zero_size: mem_size - file_size,
                    },
                );
            }
            i = i + 1;
        }
        proof {
            assert(hs.take(hs.len() as int) =~= hs);
        }
        copies
    }

    /// Whether `load_ranges` is defined for this executable: its loadable
    /// segments are aligned to at most a page and end within 64-bit
    /// addresses, and the merged intervals are mappable.
    pub fn load_ranges_defined(elf_header: &ElfHeader) -> (b: bool)
        ensures
            b == (segments_loadable(elf_header.spec_program_headers()) && intervals_mappable(
                merge_sorted(sort_by_start(load_intervals(elf_header.spec_program_headers()))),
            )),
    {
        let headers = elf_header.program_headers();
        let ghost hs = headers@;
        let mut intervals: Vec<Interval> = Vec::new();
        let mut i: usize = 0;
        while i < headers.len()
            invariant
                hs == headers@,
                hs == elf_header.spec_program_headers(),
                segments_loadable(hs.take(i as int)),
                i <= hs.len(),
                views(intervals@) == load_intervals(hs.take(i as int)),
            decreases hs.len() - i,
        {
            let program_header = &headers[i];
            proof {
                assert(hs.take(i as int + 1).drop_last() =~= hs.take(i as int));
                assert(hs.take(i as int + 1).last() == hs[i as int]);
                assert(hs.take(i as int + 1)[i as int] == hs[i as int]);
            }
            if program_header.should_load() {
                let virt_addr = program_header.virt_addr();
                let mem_size = program_header.mem_size();
                let number_pages = mem_size / PAGE_SIZE + if mem_size % PAGE_SIZE != 0 {
                    1
                } else {
                    0
                };
                proof {
                    assert(number_pages == pages_for(mem_size));
                    assert(hs[i as int].spec_type() == ElfProgramType::Load);
                }
                if program_header.align() > PAGE_SIZE || (virt_addr as u128) + (number_pages as u128)
                    * (PAGE_SIZE as u128) > u64::MAX as u128 {
                    proof {
                        assert(hs[i as int].spec_type() == ElfProgramType::Load);
                    }
                    return false;
                }
                intervals.push(Interval::with_size(virt_addr, number_pages * PAGE_SIZE));
                proof {
                    assert(views(intervals@) =~= load_intervals(hs.take(i as int)).push(
                        segment_interval(hs[i as int]),
                    ));
                }
            }
            proof {
                assert forall|j: int|
                    0 <= j < i + 1 && (#[trigger] hs.take(i as int + 1)[j]).spec_type()
                        == ElfProgramType::Load implies {
                    &&& hs.take(i as int + 1)[j].spec_align() <= PAGE_SIZE
                    &&& hs.take(i as int + 1)[j].spec_vaddr() + pages_for(
                        hs.take(i as int + 1)[j].spec_mem_size(),
                    ) * PAGE_SIZE <= u64::MAX
                } by {
                    if j < i {
                        assert(hs.take(i as int + 1)[j] == hs.take(i as int)[j]);
                    }
                }
            }
            i = i + 1;
        }
        proof {
            assert(hs.take(hs.len() as int) =~= hs);
        }
        let merged = merge_intervals(intervals);
        let ghost ms = views(merged@);
        let mut k: usize = 0;
        while k < merged.len()
            invariant
                ms == views(merged@),
                ms == merge_sorted(sort_by_start(load_intervals(hs))),
                hs == elf_header.spec_program_headers(),
                segments_loadable(hs),
                k <= ms.len(),
                intervals_mappable(ms.take(k as int)),
            decreases ms.len() - k,
        {
            let interval = &merged[k];
            let start = interval.start();
            let size = interval.size();
            proof {
                assert(ms[k as int] == interval@);
                assert(ms.take(k as int + 1)[k as int] == ms[k as int]);
            }
            let end = start as u128 + (size / PAGE_SIZE * PAGE_SIZE) as u128;
            if start % PAGE_SIZE != 0 || !canonical(start) || end > u64::MAX as u128 || !canonical(
                end as u64,
            ) {
                proof {
                    assert(interval_pages(ms[k as int]).end == end as u64);
                }
                return false;
            }
            proof {
                assert(interval_pages(ms[k as int]).end == end as u64);
                assert forall|j: int| 0 <= j < k + 1 implies {
                    &&& (#[trigger] ms.take(k as int + 1)[j]).0 % PAGE_SIZE == 0
                    &&& is_canonical(ms.take(k as int + 1)[j].0)
                    &&& ms.take(k as int + 1)[j].0 <= ms.take(k as int + 1)[j].1
                    &&& is_canonical(interval_pages(ms.take(k as int + 1)[j]).end)
                } by {
                    if j < k {
                        assert(ms.take(k as int + 1)[j] == ms.take(k as int)[j]);
                    }
                }
            }
            k = k + 1;
        }
        proof {
            assert(ms.take(ms.len() as int) =~= ms);
        }
        true
    }

    /// The page ranges that loading an executable maps: the intervals of its
    /// loadable segments, rounded up to whole pages, sorted and merged.
    pub fn load_ranges(elf_header: &ElfHeader) -> (r: Vec<PageRange>)
        requires
            segments_loadable(elf_header.spec_program_headers()),
            intervals_mappable(
                merge_sorted(sort_by_start(load_intervals(elf_header.spec_program_headers()))),
            ),
        ensures
            r@ == merge_sorted(
                sort_by_start(load_intervals(elf_header.spec_program_headers())),
            ).map_values(|m: (u64, u64)| interval_pages(m)),
    {
        let headers = elf_header.program_headers();
        let ghost hs = headers@;
        let mut intervals: Vec<Interval> = Vec::new();
        let mut i: usize = 0;
        while i < headers.len()
            invariant
                hs == headers@,
                hs == elf_header.spec_program_headers(),
                segments_loadable(hs),
                i <= hs.len(),
                views(intervals@) == load_intervals(hs.take(i as int)),
            decreases hs.len() - i,
        {
            let program_header = &headers[i];
            proof {
                assert(hs.take(i as int + 1).drop_last() =~= hs.take(i as int));
                assert(hs.take(i as int + 1).last() == hs[i as int]);
            }
            if program_header.should_load() {
                let virt_addr = program_header.virt_addr();
                let mem_size = program_header.mem_size();
                let number_pages = mem_size / PAGE_SIZE + if mem_size % PAGE_SIZE != 0 {
                    1
                } else {
                    0
                };
                proof {
                    assert(number_pages == pages_for(mem_size));
                    assert(hs[i as int].spec_type() == ElfProgramType::Load);
                }
                intervals.push(Interval::with_size(virt_addr, number_pages * PAGE_SIZE));
                proof {
                    assert(views(intervals@) =~= load_intervals(hs.take(i as int)).push(
                        segment_interval(hs[i as int]),
                    ));
                }
            }
            i = i + 1;
        }
        proof {
            assert(hs.take(hs.len() as int) =~= hs);
        }
        let merged = merge_intervals(intervals);
        let ghost ms = views(merged@);
        let mut ranges: Vec<PageRange> = Vec::new();
        let mut k: usize = 0;
        while k < merged.len()
            invariant
                ms == views(merged@),
                intervals_mappable(ms),
                k <= ms.len(),
                ranges@ == ms.take(k as int).map_values(|m: (u64, u64)| interval_pages(m)),
            decreases ms.len() - k,
        {
            let interval = &merged[k];
            let start = interval.start();
            let size = interval.size();
            proof {
                assert(ms[k as int] == interval@);
            }
            ranges.push(PageRange { start, end: start + size / PAGE_SIZE * PAGE_SIZE });
            proof {
                assert(ranges@ =~= ms.take(k as int + 1).map_values(
                    |m: (u64, u64)| interval_pages(m),
                ));
            }
            k = k + 1;
        }
        proof {
            assert(ms.take(ms.len() as int) =~= ms);
        }
        ranges
    }
}

} // verus!
