use vstd::prelude::*;

use crate::utils::debug::DebugHex;

verus! {

/// A closed interval `[start, end]` of addresses.
#[derive(Debug)]
pub struct Interval {
    start: DebugHex<u64>,
    end: DebugHex<u64>,
}

/// Two closed intervals overlap (or touch).
pub open spec fn overlaps(a: (u64, u64), b: (u64, u64)) -> bool {
    a.0 <= b.1 && a.1 >= b.0
}

/// Inserts `x` into `s`, which is sorted by start, after every element that
/// starts no later than `x`.
pub open spec fn insert_by_start(s: Seq<(u64, u64)>, x: (u64, u64)) -> Seq<(u64, u64)>
    decreases s.len(),
{
    if s.len() == 0 {
        seq![x]
    } else if s.last().0 <= x.0 {
        s.push(x)
    } else {
        insert_by_start(s.drop_last(), x).push(s.last())
    }
}

/// `s` sorted by start; elements with equal starts keep their order.
pub open spec fn sort_by_start(s: Seq<(u64, u64)>) -> Seq<(u64, u64)>
    decreases s.len(),
{
    if s.len() == 0 {
        s
    } else {
        insert_by_start(sort_by_start(s.drop_last()), s.last())
    }
}

/// One step of merging: an interval that overlaps the last merged one
/// replaces its end; any other is appended.
pub open spec fn merge_step(acc: Seq<(u64, u64)>, x: (u64, u64)) -> Seq<(u64, u64)> {
    if acc.len() > 0 && overlaps(acc.last(), x) {
        acc.update(acc.len() - 1, (acc.last().0, x.1))
    } else {
        acc.push(x)
    }
}

/// Merges a sequence of intervals from first to last.
pub open spec fn merge_sorted(s: Seq<(u64, u64)>) -> Seq<(u64, u64)>
    decreases s.len(),
{
    if s.len() == 0 {
        s
    } else {
        merge_step(merge_sorted(s.drop_last()), s.last())
    }
}

/// The sequence is sorted by start.
pub open spec fn sorted_by_start(s: Seq<(u64, u64)>) -> bool {
    forall|i: int, j: int| 0 <= i <= j < s.len() ==> s[i].0 <= s[j].0
}

/// Every interval of the sequence starts no later than it ends.
pub open spec fn well_ordered(s: Seq<(u64, u64)>) -> bool {
    forall|i: int| 0 <= i < s.len() ==> s[i].0 <= #[trigger] s[i].1
}

impl View for Interval {
    type V = (u64, u64);

    closed spec fn view(&self) -> (u64, u64) {
        (self.start.0, self.end.0)
    }
}

/// The start and end of each interval.
pub open spec fn views(v: Seq<Interval>) -> Seq<(u64, u64)> {
    v.map_values(|i: Interval| i@)
}

impl Interval {
    #[verifier::type_invariant]
    spec fn start_before_end(&self) -> bool {
        self.start.0 <= self.end.0
    }

    /// The interval `[start, start + size]`.
    pub fn with_size(start: u64, size: u64) -> (r: Self)
        requires
            start + size <= u64::MAX,
        ensures
            r@ == (start, (start + size) as u64),
    {
        Interval { start: DebugHex(start), end: DebugHex(start + size) }
    }

    /// The intervals share at least one address.
    pub fn overlap(&self, other: &Interval) -> (r: bool)
        ensures
            r == overlaps(self@, other@),
    {
        self.start.0 <= other.end.0 && self.end.0 >= other.start.0
    }

    pub fn size(&self) -> (r: u64)
        ensures
            r == self@.1 - self@.0,
    {
        proof {
            use_type_invariant(self);
        }
        self.end.0 - self.start.0
    }

    pub fn start(&self) -> (r: u64)
        ensures
            r == self@.0,
    {
        self.start.0
    }

}

/// `insert_by_start` places `x` at the position where a scan from the end,
/// past every element that starts later than `x`, stops.
proof fn lemma_insert_at(s: Seq<(u64, u64)>, x: (u64, u64), p: int)
    requires
        0 <= p <= s.len(),
        forall|j: int| p <= j < s.len() ==> s[j].0 > x.0,
        p > 0 ==> s[p - 1].0 <= x.0,
    ensures
        insert_by_start(s, x) =~= s.subrange(0, p).push(x) + s.subrange(p, s.len() as int),
    decreases s.len(),
{
    if s.len() == 0 {
    } else if s.last().0 <= x.0 {
        assert(p == s.len());
    } else {
        lemma_insert_at(s.drop_last(), x, p);
    }
}

/// Sorts `(start, end)` pairs by start; pairs with equal starts keep their
/// order.
pub fn sort_pairs_by_start(pairs: &Vec<(u64, u64)>) -> (r: Vec<(u64, u64)>)
    ensures
        r@ == sort_by_start(pairs@),
{
    let mut sorted: Vec<(u64, u64)> = Vec::new();
    let mut k: usize = 0;
    let n = pairs.len();
    while k < n
        invariant
            n == pairs@.len(),
            k <= n,
            sorted@ == sort_by_start(pairs@.take(k as int)),
        decreases n - k,
    {
        let x = pairs[k];
        let ghost s = sorted@;
        let mut p = sorted.len();
        while p > 0 && sorted[p - 1].0 > x.0
            invariant
                p <= sorted@.len(),
                s == sorted@,
                forall|j: int| p <= j < s.len() ==> s[j].0 > x.0,
            decreases p,
        {
            p = p - 1;
        }
        proof {
            lemma_insert_at(s, x, p as int);
            let t = pairs@.take(k as int + 1);
            assert(t.drop_last() =~= pairs@.take(k as int));
            assert(t.last() == x);
        }
        sorted.insert(p, x);
        k = k + 1;
    }
    proof {
        assert(pairs@.take(n as int) =~= pairs@);
    }
    sorted
}

/// Sorts the intervals by start and merges each one that overlaps (or
/// touches) the last merged interval into it: the merged interval then ends
/// where the newcomer ends.
pub fn merge_intervals(intervals: Vec<Interval>) -> (r: Vec<Interval>)
    ensures
        views(r@) == merge_sorted(sort_by_start(views(intervals@))),
{
    let mut pairs: Vec<(u64, u64)> = Vec::new();
    let mut k: usize = 0;
    while k < intervals.len()
        invariant
            k <= intervals@.len(),
            pairs@ == views(intervals@).take(k as int),
            well_ordered(pairs@),
        decreases intervals@.len() - k,
    {
        let iv = &intervals[k];
        proof {
            use_type_invariant(iv);
        }
        pairs.push((iv.start.0, iv.end.0));
        proof {
            assert(pairs@ =~= views(intervals@).take(k as int + 1));
        }
        k = k + 1;
    }
    proof {
        assert(pairs@ =~= views(intervals@));
    }
    let sorted = sort_pairs_by_start(&pairs);
    let ghost s = sorted@;
    proof {
        lemma_sort_sorted(pairs@);
        lemma_sort_well_ordered(pairs@);
    }
    let mut merged: Vec<Interval> = Vec::new();
    let n = sorted.len();
    let mut i: usize = 0;
    while i < n
        invariant
            n == sorted@.len(),
            s == sorted@,
            sorted_by_start(s),
            well_ordered(s),
            i <= n,
            views(merged@) == merge_sorted(s.take(i as int)),
            i > 0 ==> merged@.len() > 0 && merged@.last()@.0 <= s[i - 1].0,
        decreases n - i,
    {
        let x = sorted[i];
        proof {
            let t = s.take(i as int + 1);
            assert(t.drop_last() =~= s.take(i as int));
            assert(t.last() == x);
            assert(x.0 <= x.1);
        }
        let m = merged.len();
        let ghost before = views(merged@);
        if m > 0 && merged[m - 1].start.0 <= x.1 && merged[m - 1].end.0 >= x.0 {
            let start = merged[m - 1].start.0;
            let updated = Interval { start: DebugHex(start), end: DebugHex(x.1) };
            merged.set(m - 1, updated);
            proof {
                assert(views(merged@) =~= before.update(m - 1, (start, x.1)));
            }
        } else {
            merged.push(Interval { start: DebugHex(x.0), end: DebugHex(x.1) });
            proof {
                assert(views(merged@) =~= before.push(x));
            }
        }
        i = i + 1;
    }
    proof {
        assert(s.take(n as int) =~= s);
    }
    merged
}

/// Sorting keeps every interval well ordered.
pub proof fn lemma_sort_well_ordered(s: Seq<(u64, u64)>)
    requires
        well_ordered(s),
    ensures
        well_ordered(sort_by_start(s)),
{
    broadcast use vstd::seq_lib::group_to_multiset_ensures;

    let t = sort_by_start(s);
    lemma_sort_sorted(s);
    assert forall|i: int| 0 <= i < t.len() implies t[i].0 <= #[trigger] t[i].1 by {
        assert(t.to_multiset().count(t[i]) > 0);
        assert(s.contains(t[i]));
    }
}

/// Sorting by start gives a sequence sorted by start that holds the same
/// intervals.
pub proof fn lemma_sort_sorted(s: Seq<(u64, u64)>)
    ensures
        sorted_by_start(sort_by_start(s)),
        sort_by_start(s).to_multiset() == s.to_multiset(),
        sort_by_start(s).len() == s.len(),
    decreases s.len(),
{
    if s.len() > 0 {
        lemma_sort_sorted(s.drop_last());
        lemma_insert_sorted(sort_by_start(s.drop_last()), s.last());
        vstd::seq_lib::to_multiset_build(s.drop_last(), s.last());
        assert(s.drop_last().push(s.last()) =~= s);
    }
}

/// Inserting into a sorted sequence keeps it sorted and adds the element.
proof fn lemma_insert_sorted(s: Seq<(u64, u64)>, x: (u64, u64))
    requires
        sorted_by_start(s),
    ensures
        sorted_by_start(insert_by_start(s, x)),
        insert_by_start(s, x).to_multiset() == s.to_multiset().insert(x),
        insert_by_start(s, x).len() == s.len() + 1,
    decreases s.len(),
{
    broadcast use vstd::seq_lib::group_to_multiset_ensures;

    if s.len() == 0 {
        assert(seq![x] =~= Seq::<(u64, u64)>::empty().push(x));
    } else if s.last().0 <= x.0 {
    } else {
        let t = s.drop_last();
        assert(sorted_by_start(t));
        lemma_insert_sorted(t, x);
        let r = insert_by_start(t, x);
        // every element of r starts no later than s.last()
        assert forall|k: int| 0 <= k < r.len() implies r[k].0 <= s.last().0 by {
            lemma_insert_members(t, x, k);
        }
        assert(s =~= t.push(s.last()));
    }
}

/// An element of `insert_by_start(s, x)` is `x` or an element of `s`.
proof fn lemma_insert_members(s: Seq<(u64, u64)>, x: (u64, u64), k: int)
    requires
        0 <= k < insert_by_start(s, x).len(),
    ensures
        insert_by_start(s, x)[k] == x || exists|j: int|
            0 <= j < s.len() && s[j] == #[trigger] insert_by_start(s, x)[k],
    decreases s.len(),
{
    if s.len() == 0 {
    } else if s.last().0 <= x.0 {
        if k < s.len() {
            assert(s[k] == insert_by_start(s, x)[k]);
        }
    } else {
        let t = s.drop_last();
        if k < insert_by_start(t, x).len() {
            lemma_insert_members(t, x, k);
            if insert_by_start(s, x)[k] != x {
                let j = choose|j: int| 0 <= j < t.len() && t[j] == insert_by_start(t, x)[k];
                assert(s[j] == t[j]);
            }
        } else {
            assert(s[s.len() - 1] == insert_by_start(s, x)[k]);
        }
    }
}

/// Consecutive intervals are apart: each ends before the next one starts.
pub open spec fn separated(s: Seq<(u64, u64)>) -> bool {
    forall|k: int| 0 <= k < s.len() - 1 ==> #[trigger] s[k].1 < s[k + 1].0
}

/// Interval `k` of `o` holds address `a`.
pub open spec fn holds(o: Seq<(u64, u64)>, k: int, a: u64) -> bool {
    0 <= k < o.len() && o[k].0 <= a <= o[k].1
}

/// Some interval of `o` holds address `a`.
pub open spec fn held(o: Seq<(u64, u64)>, a: u64) -> bool {
    exists|k: int| #[trigger] holds(o, k, a)
}

/// Every interval of `t` starts inside some interval of `o`.
pub open spec fn starts_covered(o: Seq<(u64, u64)>, t: Seq<(u64, u64)>) -> bool {
    forall|i: int| 0 <= i < t.len() ==> #[trigger] held(o, t[i].0)
}

/// Merging a sorted sequence of intervals gives intervals that are each
/// well ordered, that lie apart from one another in increasing order, and
/// that hold the start of every input interval.
pub proof fn lemma_merge_sorted(t: Seq<(u64, u64)>)
    requires
        sorted_by_start(t),
        well_ordered(t),
    ensures
        well_ordered(merge_sorted(t)),
        separated(merge_sorted(t)),
        starts_covered(merge_sorted(t), t),
        t.len() > 0 ==> merge_sorted(t).len() > 0 && merge_sorted(t).last().0 <= t.last().0,
        t.len() == 0 ==> merge_sorted(t).len() == 0,
    decreases t.len(),
{
    if t.len() > 0 {
        let t0 = t.drop_last();
        let x = t.last();
        let o0 = merge_sorted(t0);
        assert(sorted_by_start(t0));
        assert(well_ordered(t0));
        lemma_merge_sorted(t0);
        let o = merge_sorted(t);
        assert(x.0 <= x.1);
        if o0.len() > 0 && overlaps(o0.last(), x) {
            let n = o0.len() as int;
            assert(o == o0.update(n - 1, (o0.last().0, x.1)));
            assert(o0.last().0 <= t0.last().0);
            assert(t0.last().0 <= x.0);
            assert forall|i: int| 0 <= i < t.len() implies #[trigger] held(o, t[i].0) by {
                if i == t.len() - 1 {
                    assert(holds(o, n - 1, t[i].0));
                } else {
                    assert(t[i] == t0[i]);
                    assert(held(o0, t0[i].0));
                    let k = choose|k: int| #[trigger] holds(o0, k, t0[i].0);
                    assert(t[i].0 <= x.0);
                    assert(holds(o, k, t[i].0));
                }
            }
            assert forall|k: int| 0 <= k < o.len() - 1 implies #[trigger] o[k].1 < o[k + 1].0 by {
                assert(o0[k].1 < o0[k + 1].0);
            }
            assert(starts_covered(o, t));
        } else {
            let n = o0.len() as int;
            assert(o == o0.push(x));
            if n > 0 {
                assert(o0.last().0 <= t0.last().0);
                assert(t0.last().0 <= x.0);
                assert(o0.last().1 < x.0);
            }
            assert forall|i: int| 0 <= i < t.len() implies #[trigger] held(o, t[i].0) by {
                if i == t.len() - 1 {
                    assert(holds(o, n, t[i].0));
                } else {
                    assert(t[i] == t0[i]);
                    assert(held(o0, t0[i].0));
                    let k = choose|k: int| #[trigger] holds(o0, k, t0[i].0);
                    assert(holds(o, k, t[i].0));
                }
            }
            assert forall|k: int| 0 <= k < o.len() - 1 implies #[trigger] o[k].1 < o[k + 1].0 by {
                if k < n - 1 {
                    assert(o0[k].1 < o0[k + 1].0);
                }
            }
            assert(starts_covered(o, t));
        }
    }
}

/// Interval `k` of `o` ends where interval `j` of `t` ends, and starts no
/// later than it.
pub open spec fn ends_with(o: Seq<(u64, u64)>, k: int, t: Seq<(u64, u64)>, j: int) -> bool {
    0 <= j < t.len() && o[k].1 == t[j].1 && o[k].0 <= t[j].0
}

/// Interval `k` of `o` ends where some interval of `t` ends, and starts no
/// later than it.
pub open spec fn ends_on(o: Seq<(u64, u64)>, k: int, t: Seq<(u64, u64)>) -> bool {
    exists|j: int| #[trigger] ends_with(o, k, t, j)
}

/// Each interval that merging a sorted sequence gives ends where one of the
/// intervals merged into it ends, one that starts no earlier.
pub proof fn lemma_merge_sorted_ends(t: Seq<(u64, u64)>)
    requires
        sorted_by_start(t),
        well_ordered(t),
    ensures
        forall|k: int| 0 <= k < merge_sorted(t).len() ==> #[trigger] ends_on(merge_sorted(t), k, t),
    decreases t.len(),
{
    if t.len() > 0 {
        let t0 = t.drop_last();
        let x = t.last();
        let o0 = merge_sorted(t0);
        assert(sorted_by_start(t0));
        assert(well_ordered(t0));
        lemma_merge_sorted(t0);
        lemma_merge_sorted_ends(t0);
        let o = merge_sorted(t);
        let n = o0.len() as int;
        let last = t.len() - 1;
        if o0.len() > 0 && overlaps(o0.last(), x) {
            assert(o == o0.update(n - 1, (o0.last().0, x.1)));
            assert(o0.last().0 <= t0.last().0);
            assert(t0.last().0 <= x.0);
            assert forall|k: int| 0 <= k < o.len() implies #[trigger] ends_on(o, k, t) by {
                if k == n - 1 {
                    assert(ends_with(o, k, t, last));
                } else {
                    assert(ends_on(o0, k, t0));
                    let j = choose|j: int| #[trigger] ends_with(o0, k, t0, j);
                    assert(t[j] == t0[j]);
                    assert(ends_with(o, k, t, j));
                }
            }
        } else {
            assert(o == o0.push(x));
            assert forall|k: int| 0 <= k < o.len() implies #[trigger] ends_on(o, k, t) by {
                if k == n {
                    assert(ends_with(o, k, t, last));
                } else {
                    assert(ends_on(o0, k, t0));
                    let j = choose|j: int| #[trigger] ends_with(o0, k, t0, j);
                    assert(t[j] == t0[j]);
                    assert(ends_with(o, k, t, j));
                }
            }
        }
    }
}

/// Each interval that `merge_intervals` gives back ends where one of the
/// intervals it was given ends, one that starts no earlier.
pub proof fn lemma_merge_intervals_ends(input: Seq<(u64, u64)>)
    requires
        well_ordered(input),
    ensures
        forall|k: int|
            0 <= k < merge_sorted(sort_by_start(input)).len() ==> #[trigger] ends_on(
                merge_sorted(sort_by_start(input)),
                k,
                input,
            ),
{
    broadcast use vstd::seq_lib::group_to_multiset_ensures;

    let t = sort_by_start(input);
    lemma_sort_sorted(input);
    assert forall|i: int| 0 <= i < t.len() implies t[i].0 <= #[trigger] t[i].1 by {
        assert(t.to_multiset().count(t[i]) > 0);
        assert(input.contains(t[i]));
    }
    lemma_merge_sorted_ends(t);
    let o = merge_sorted(t);
    assert forall|k: int| 0 <= k < o.len() implies #[trigger] ends_on(o, k, input) by {
        assert(ends_on(o, k, t));
        let j = choose|j: int| #[trigger] ends_with(o, k, t, j);
        assert(t.to_multiset().count(t[j]) > 0);
        assert(input.contains(t[j]));
        let i = choose|i: int| 0 <= i < input.len() && input[i] == t[j];
        assert(ends_with(o, k, input, i));
    }
}

/// The intervals that `merge_intervals` gives back are well ordered, lie
/// apart from one another in increasing order, and hold the start of every
/// interval it was given.
pub proof fn lemma_merge_intervals(input: Seq<(u64, u64)>)
    requires
        well_ordered(input),
    ensures
        well_ordered(merge_sorted(sort_by_start(input))),
        separated(merge_sorted(sort_by_start(input))),
        starts_covered(merge_sorted(sort_by_start(input)), input),
{
    broadcast use vstd::seq_lib::group_to_multiset_ensures;

    let t = sort_by_start(input);
    lemma_sort_sorted(input);
    // the sorted sequence holds the same intervals
    assert forall|i: int| 0 <= i < t.len() implies t[i].0 <= #[trigger] t[i].1 by {
        assert(t.to_multiset().count(t[i]) > 0);
        assert(input.contains(t[i]));
    }
    lemma_merge_sorted(t);
    let o = merge_sorted(t);
    assert forall|i: int| 0 <= i < input.len() implies #[trigger] held(o, input[i].0) by {
        assert(input.to_multiset().count(input[i]) > 0);
        assert(t.contains(input[i]));
        let j = choose|j: int| 0 <= j < t.len() && t[j] == input[i];
        assert(held(o, t[j].0));
        let k = choose|k: int| #[trigger] holds(o, k, t[j].0);
        assert(holds(o, k, input[i].0));
    }
}

} // verus!
