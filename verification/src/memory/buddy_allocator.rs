use vstd::prelude::*;

use crate::bits::{
    ceil_log2, lemma_next_pow2, lemma_next_pow2_is_exp2_ceil_log2, next_pow2, exp2, ilog2, is_power_of_two, lemma_exp2_64, lemma_exp2_adds, lemma_exp2_matches_pow2,
    lemma_exp2_monotonic, lemma_exp2_pos, lemma_ilog2_exp2, lemma_ilog2_monotonic,
    lemma_power_of_two_is_exp2, lemma_trailing_zeros_divides, lowest_one, trailing_zeros,
};
use crate::memory::binary_allocator::{depth_for, BinaryAllocator};

verus! {

/// Size of a block at `depth` in a tree whose root block is `2^depth_offset` bytes.
pub open spec fn block_len(depth_offset: nat, depth: int) -> nat {
    exp2((depth_offset - depth) as nat)
}

/// Entry `i` of free list `d` covers byte `x`.
pub open spec fn covers(lists: Seq<Seq<usize>>, depth_offset: nat, d: int, i: int, x: int) -> bool {
    &&& 0 <= d < lists.len()
    &&& 0 <= i < lists[d].len()
    &&& lists[d][i] <= x < lists[d][i] + block_len(depth_offset, d)
}

/// The bytes covered by the blocks of some free lists.
pub open spec fn free_set(lists: Seq<Seq<usize>>, depth_offset: nat) -> Set<int> {
    Set::new(|x: int| exists|d: int, i: int| #[trigger] covers(lists, depth_offset, d, i, x))
}

/// The bytes of a block.
pub open spec fn block_set(addr: int, len: int) -> Set<int> {
    Set::new(|x: int| addr <= x < addr + len)
}

/// No two entries of the free lists share a byte.
pub open spec fn lists_disjoint(lists: Seq<Seq<usize>>, depth_offset: nat) -> bool {
    forall|d1: int, i1: int, d2: int, i2: int|
        #![trigger lists[d1][i1], lists[d2][i2]]
        0 <= d1 < lists.len() && 0 <= i1 < lists[d1].len() && 0 <= d2 < lists.len() && 0 <= i2
            < lists[d2].len() && (d1 != d2 || i1 != i2) ==> lists[d1][i1] + block_len(
            depth_offset,
            d1,
        ) <= lists[d2][i2] || lists[d2][i2] + block_len(depth_offset, d2) <= lists[d1][i1]
}

/// Taking a block of depth `d` from the free lists `lists` (blocks of depth
/// `d` are `2^(depth_offset - d)` bytes): the head (last entry) of list `d`;
/// or, when that list is empty, the right half of a block taken from depth
/// `d - 1`, whose left half joins list `d`. Gives the block and the lists
/// after; `None` when no list from depth 0 to `d` has a block.
pub open spec fn take_from(lists: Seq<Seq<usize>>, depth_offset: nat, d: int) -> Option<
    (usize, Seq<Seq<usize>>),
>
    decreases d,
{
    if d < 0 || d >= lists.len() {
        None
    } else if lists[d].len() > 0 {
        Some((lists[d].last(), lists.update(d, lists[d].drop_last())))
    } else if d == 0 {
        None
    } else {
        match take_from(lists, depth_offset, d - 1) {
            None => None,
            Some((b, l)) => Some(
                ((b + block_len(depth_offset, d)) as usize, l.update(d, l[d].push(b))),
            ),
        }
    }
}

/// The position of the last entry equal to `x` in `list` at or below
/// position `i`.
pub open spec fn find_at_or_below(list: Seq<usize>, x: usize, i: int) -> Option<int>
    decreases i + 1,
{
    if i < 0 {
        None
    } else if list[i] == x {
        Some(i)
    } else {
        find_at_or_below(list, x, i - 1)
    }
}

/// `find_at_or_below` finds the highest matching position.
pub proof fn lemma_find_at_or_below(list: Seq<usize>, x: usize, i: int)
    requires
        i < list.len(),
    ensures
        find_at_or_below(list, x, i) matches Some(k) ==> 0 <= k <= i && list[k] == x && forall|
            j: int,
        |
            k < j <= i ==> list[j] != x,
        find_at_or_below(list, x, i) is None ==> forall|j: int| 0 <= j <= i ==> list[j] != x,
    decreases i + 1,
{
    if i >= 0 && list[i] != x {
        lemma_find_at_or_below(list, x, i - 1);
    }
}

/// Freeing the block of depth `d` at `ptr` in the free lists `lists` of a
/// region starting at `mem_start`: at depth 0 the block becomes the only
/// entry of list 0; at a deeper depth, when its buddy is in list `d` below
/// the head, the buddy leaves the list and the two join into the block of
/// depth `d - 1` that holds both; otherwise the block becomes the head of
/// list `d`.
pub open spec fn merge_into(
    lists: Seq<Seq<usize>>,
    depth_offset: nat,
    mem_start: nat,
    d: int,
    ptr: int,
) -> Seq<Seq<usize>>
    decreases d,
{
    if d <= 0 {
        lists.update(0, seq![ptr as usize])
    } else {
        let bs = block_len(depth_offset, d) as int;
        let is_left = ((ptr - mem_start) / bs) % 2 == 0;
        let buddy = if is_left {
            ptr + bs
        } else {
            ptr - bs
        };
        let list = lists[d];
        match find_at_or_below(list, buddy as usize, list.len() - 2) {
            Some(i) => merge_into(
                lists.update(d, list.remove(i)),
                depth_offset,
                mem_start,
                d - 1,
                if is_left {
                    ptr
                } else {
                    buddy
                },
            ),
            None => lists.update(d, list.push(ptr as usize)),
        }
    }
}

/// Removing entry `i` of list `d` removes exactly its bytes from the free set.
pub proof fn lemma_free_set_remove(lists: Seq<Seq<usize>>, off: nat, d: int, i: int)
    requires
        lists_disjoint(lists, off),
        0 <= d < lists.len(),
        0 <= i < lists[d].len(),
    ensures
        free_set(lists.update(d, lists[d].remove(i)), off) =~= free_set(lists, off).difference(
            block_set(lists[d][i] as int, block_len(off, d) as int),
        ),
        lists_disjoint(lists.update(d, lists[d].remove(i)), off),
{
    let new_lists = lists.update(d, lists[d].remove(i));
    let a = lists[d][i] as int;
    let len = block_len(off, d) as int;
    // index of an entry of `new_lists` in `lists`
    assert forall|x: int| free_set(new_lists, off).contains(x) implies free_set(
        lists,
        off,
    ).contains(x) && !block_set(a, len).contains(x) by {
        let (d2, i2) = choose|d2: int, i2: int| #[trigger] covers(new_lists, off, d2, i2, x);
        let j2 = if d2 == d && i2 >= i {
            i2 + 1
        } else {
            i2
        };
        assert(new_lists[d2][i2] == lists[d2][j2]);
        assert(covers(lists, off, d2, j2, x));
    }
    assert forall|x: int|
        free_set(lists, off).contains(x) && !block_set(a, len).contains(x) implies free_set(
        new_lists,
        off,
    ).contains(x) by {
        let (d2, j2) = choose|d2: int, j2: int| #[trigger] covers(lists, off, d2, j2, x);
        assert(d2 != d || j2 != i);
        let i2 = if d2 == d && j2 > i {
            j2 - 1
        } else {
            j2
        };
        assert(new_lists[d2][i2] == lists[d2][j2]);
        assert(covers(new_lists, off, d2, i2, x));
    }
    assert forall|d1: int, i1: int, d2: int, i2: int|
        #![trigger new_lists[d1][i1], new_lists[d2][i2]]
        0 <= d1 < new_lists.len() && 0 <= i1 < new_lists[d1].len() && 0 <= d2 < new_lists.len()
            && 0 <= i2 < new_lists[d2].len() && (d1 != d2 || i1 != i2) implies new_lists[d1][i1]
        + block_len(off, d1) <= new_lists[d2][i2] || new_lists[d2][i2] + block_len(off, d2)
        <= new_lists[d1][i1] by {
        let j1 = if d1 == d && i1 >= i {
            i1 + 1
        } else {
            i1
        };
        let j2 = if d2 == d && i2 >= i {
            i2 + 1
        } else {
            i2
        };
        assert(new_lists[d1][i1] == lists[d1][j1]);
        assert(new_lists[d2][i2] == lists[d2][j2]);
    }
}

/// Pushing a block that shares no byte with the free set adds exactly its bytes.
pub proof fn lemma_free_set_push(lists: Seq<Seq<usize>>, off: nat, d: int, a: usize)
    requires
        lists_disjoint(lists, off),
        0 <= d < lists.len(),
        block_len(off, d) >= 1,
        free_set(lists, off).disjoint(block_set(a as int, block_len(off, d) as int)),
    ensures
        free_set(lists.update(d, lists[d].push(a)), off) =~= free_set(lists, off).union(
            block_set(a as int, block_len(off, d) as int),
        ),
        lists_disjoint(lists.update(d, lists[d].push(a)), off),
{
    let new_lists = lists.update(d, lists[d].push(a));
    let len = block_len(off, d) as int;
    let n = lists[d].len() as int;
    assert(new_lists[d][n] == a);
    assert forall|x: int| free_set(new_lists, off).contains(x) implies free_set(lists, off).contains(
        x,
    ) || block_set(a as int, len).contains(x) by {
        let (d2, i2) = choose|d2: int, i2: int| #[trigger] covers(new_lists, off, d2, i2, x);
        if d2 == d && i2 == n {
        } else {
            assert(new_lists[d2][i2] == lists[d2][i2]);
            assert(covers(lists, off, d2, i2, x));
        }
    }
    assert forall|x: int|
        free_set(lists, off).contains(x) || block_set(a as int, len).contains(x) implies free_set(
        new_lists,
        off,
    ).contains(x) by {
        if free_set(lists, off).contains(x) {
            let (d2, i2) = choose|d2: int, i2: int| #[trigger] covers(lists, off, d2, i2, x);
            assert(new_lists[d2][i2] == lists[d2][i2]);
            assert(covers(new_lists, off, d2, i2, x));
        } else {
            assert(covers(new_lists, off, d, n, x));
        }
    }
    assert forall|d1: int, i1: int, d2: int, i2: int|
        #![trigger new_lists[d1][i1], new_lists[d2][i2]]
        0 <= d1 < new_lists.len() && 0 <= i1 < new_lists[d1].len() && 0 <= d2 < new_lists.len()
            && 0 <= i2 < new_lists[d2].len() && (d1 != d2 || i1 != i2) implies new_lists[d1][i1]
        + block_len(off, d1) <= new_lists[d2][i2] || new_lists[d2][i2] + block_len(off, d2)
        <= new_lists[d1][i1] by {
        if d1 == d && i1 == n {
            lemma_new_block_apart(lists, off, d2, i2, a as int, len);
        } else if d2 == d && i2 == n {
            lemma_new_block_apart(lists, off, d1, i1, a as int, len);
        } else {
            assert(new_lists[d1][i1] == lists[d1][i1]);
            assert(new_lists[d2][i2] == lists[d2][i2]);
        }
    }
}

/// An entry of the free lists lies apart from a block that shares no byte with the free set.
proof fn lemma_new_block_apart(lists: Seq<Seq<usize>>, off: nat, d: int, i: int, a: int, len: int)
    requires
        0 <= d < lists.len(),
        0 <= i < lists[d].len(),
        len >= 1,
        free_set(lists, off).disjoint(block_set(a, len)),
    ensures
        lists[d][i] + block_len(off, d) <= a || a + len <= lists[d][i],
{
    let b = lists[d][i] as int;
    lemma_exp2_pos((off - d) as nat);
    if !(b + block_len(off, d) <= a || a + len <= b) {
        let x = if a <= b {
            b
        } else {
            a
        };
        assert(covers(lists, off, d, i, x));
        assert(free_set(lists, off).contains(x));
        assert(block_set(a, len).contains(x));
    }
}


/// `o` is a multiple of `m` below `total`, itself a multiple of `m`: a block of
/// `m` bytes at `o` ends within `total`.
proof fn lemma_aligned_fits(o: int, m: int, total: int)
    requires
        m > 0,
        o >= 0,
        o % m == 0,
        total % m == 0,
        o < total,
    ensures
        o + m <= total,
{
    vstd::arithmetic::div_mod::lemma_fundamental_div_mod(o, m);
    vstd::arithmetic::div_mod::lemma_fundamental_div_mod(total, m);
    let q = o / m;
    let r = total / m;
    assert(o == m * q);
    assert(total == m * r);
    assert(q < r) by (nonlinear_arith)
        requires
            o == m * q,
            total == m * r,
            o < total,
            m > 0,
    ;
    assert(o + m <= total) by (nonlinear_arith)
        requires
            o == m * q,
            total == m * r,
            q + 1 <= r,
            m > 0,
    ;
}

/// A block aligned to `b` is either the left or the right half of a block aligned to `2b`.
proof fn lemma_halves(o: int, b: int)
    requires
        b > 0,
        o >= 0,
        o % b == 0,
    ensures
        (o / b) % 2 == 0 ==> o % (2 * b) == 0,
        (o / b) % 2 != 0 ==> o >= b && (o - b) % (2 * b) == 0,
        o % (2 * b) == 0 ==> (o / b) % 2 == 0,
{
    vstd::arithmetic::div_mod::lemma_fundamental_div_mod(o, b);
    let q = o / b;
    assert(o == b * q);
    assert(q >= 0) by (nonlinear_arith)
        requires
            o == b * q,
            b > 0,
            o >= 0,
    ;
    let k = q / 2;
    if q % 2 == 0 {
        assert(q == 2 * k);
        assert(o == (2 * b) * k) by (nonlinear_arith)
            requires
                o == b * q,
                q == 2 * k,
        ;
        vstd::arithmetic::div_mod::lemma_mod_multiples_basic(k, 2 * b);
    } else {
        assert(q == 2 * k + 1);
        assert(o - b == (2 * b) * k) by (nonlinear_arith)
            requires
                o == b * q,
                q == 2 * k + 1,
        ;
        assert(k >= 0);
        assert(o >= b) by (nonlinear_arith)
            requires
                o - b == (2 * b) * k,
                k >= 0,
                b > 0,
        ;
        vstd::arithmetic::div_mod::lemma_mod_multiples_basic(k, 2 * b);
        // o is not a multiple of 2b
        if o % (2 * b) == 0 {
            vstd::arithmetic::div_mod::lemma_fundamental_div_mod(o, 2 * b);
            let j = o / (2 * b);
            assert(o == (2 * b) * j);
            assert(b * q == b * (2 * j)) by (nonlinear_arith)
                requires
                    o == (2 * b) * j,
                    o == b * q,
            ;
            vstd::arithmetic::mul::lemma_mul_equality_converse(b, q, 2 * j);
            assert(false);
        }
    }
}

/// Testing bit `k` is testing the parity of `o / 2^k`.
proof fn lemma_bit_is_parity(o: usize, k: usize)
    requires
        k < usize::BITS,
    ensures
        ((o & (1usize << k)) == 0) == ((o as nat / exp2(k as nat)) % 2 == 0),
        (1usize << k) == exp2(k as nat),
{
    assert(((o & (1usize << k)) == 0) == (((o >> k) & 1usize) == 0)) by (bit_vector)
        requires
            k < usize::BITS,
    ;
    vstd::bits::lemma_usize_shr_is_div(o, k);
    lemma_exp2_matches_pow2(k as nat);
    let y = o >> k;
    assert(((y & 1usize) == 0) == (y % 2 == 0)) by (bit_vector);
    lemma_shl_exp2(k);
}

/// `1 << k` is `2^k`.
proof fn lemma_shl_exp2(k: usize)
    requires
        k < usize::BITS,
    ensures
        (1usize << k) == exp2(k as nat),
        exp2(k as nat) <= usize::MAX,
{
    vstd::bits::lemma_usize_pow2_no_overflow(k as nat);
    vstd::bits::lemma_usize_shl_is_mul(1, k);
    lemma_exp2_matches_pow2(k as nat);
}

/// The trailing zeros of `2^e` are `e`.
proof fn lemma_exp2_is_power_of_two_tz(e: nat)
    ensures
        trailing_zeros(exp2(e)) == e,
    decreases e,
{
    if e > 0 {
        lemma_exp2_is_power_of_two_tz((e - 1) as nat);
        lemma_exp2_pos((e - 1) as nat);
        assert(exp2(e) / 2 == exp2((e - 1) as nat));
    }
}

/// A buddy allocator over a region of `2^depth_offset` bytes.
///
/// Free blocks of depth `d` are `2^(depth_offset - d)` bytes; depth 0 is the
/// whole region. Each depth has a free list; the last element of a list is its
/// head.
pub struct BuddyAllocator<const MAX_DEPTH: usize> {
    nodes: Vec<Vec<usize>>,
    minimum_block_size: usize,
    depth_offset: usize,
    mem_start: usize,
}

/// The depth count that `BuddyAllocator::new` expects for a region of `size`
/// bytes with blocks of at least `minimum_block_size` bytes.
pub open spec fn max_depth_for(size: nat, minimum_block_size: nat) -> nat {
    trailing_zeros(size / minimum_block_size) + 1
}

/// `(size / minimum_block_size).lowest_one() + 1`: the number of depths of a
/// buddy tree over `size` bytes.
pub fn compute_max_depth(size: usize, minimum_block_size: usize) -> (r: usize)
    requires
        minimum_block_size >= 1,
        size >= minimum_block_size,
    ensures
        r == max_depth_for(size as nat, minimum_block_size as nat),
{
    let q = size / minimum_block_size;
    assert(q >= 1) by (nonlinear_arith)
        requires
            q == size / minimum_block_size,
            size >= minimum_block_size,
            minimum_block_size >= 1,
    ;
    match lowest_one(q as u64) {
        Some(t) => t as usize + 1,
        None => vstd::pervasive::unreached(),
    }
}

impl<const MAX_DEPTH: usize> BuddyAllocator<MAX_DEPTH> {
    /// The free lists, one per depth, each with its head last.
    pub closed spec fn free_lists(&self) -> Seq<Seq<usize>> {
        self.nodes@.map_values(|l: Vec<usize>| l@)
    }

    pub closed spec fn spec_mem_start(&self) -> nat {
        self.mem_start as nat
    }

    pub closed spec fn spec_depth_offset(&self) -> nat {
        self.depth_offset as nat
    }

    pub closed spec fn spec_min_block(&self) -> nat {
        self.minimum_block_size as nat
    }

    /// Size of the managed region.
    pub open spec fn region_size(&self) -> nat {
        exp2(self.spec_depth_offset())
    }

    /// Size of a block at `depth`.
    pub open spec fn block_size(&self, depth: int) -> nat {
        block_len(self.spec_depth_offset(), depth)
    }

    /// `addr` starts a block of `depth`: it lies in the region and is aligned
    /// (relative to the region start) to the block size.
    pub open spec fn is_block(&self, depth: int, addr: int) -> bool {
        &&& 0 <= depth < MAX_DEPTH
        &&& self.spec_mem_start() <= addr
        &&& (addr - self.spec_mem_start()) % (self.block_size(depth) as int) == 0
        &&& addr - self.spec_mem_start() + self.block_size(depth) <= self.region_size()
    }

    /// Every byte of every free block.
    pub open spec fn free_bytes(&self) -> Set<int> {
        free_set(self.free_lists(), self.spec_depth_offset())
    }

    /// The free lists fit the allocator's shape, every entry is a block of its
    /// depth, and no two free blocks share a byte.
    pub closed spec fn well_formed(&self) -> bool {
        let lists = self.free_lists();
        let off = self.depth_offset as nat;
        &&& self.nodes@.len() == MAX_DEPTH
        &&& 1 <= MAX_DEPTH
        &&& MAX_DEPTH - 1 <= self.depth_offset
        &&& self.depth_offset < usize::BITS
        &&& self.mem_start + exp2(off) <= usize::MAX
        &&& 1 <= self.minimum_block_size <= exp2(off)
        &&& MAX_DEPTH == max_depth_for(exp2(off), self.minimum_block_size as nat)
        &&& forall|d: int, i: int|
            #![trigger lists[d][i]]
            0 <= d < lists.len() && 0 <= i < lists[d].len() ==> self.is_block(d, lists[d][i] as int)
        &&& lists_disjoint(lists, off)
    }

    /// Facts that follow from well-formedness.
    pub proof fn lemma_well_formed(&self)
        requires
            self.well_formed(),
        ensures
            self.free_lists().len() == MAX_DEPTH,
            1 <= MAX_DEPTH <= 64,
            MAX_DEPTH - 1 <= self.spec_depth_offset(),
            self.spec_mem_start() + self.region_size() <= usize::MAX,
            forall|d: int| 0 <= d < MAX_DEPTH ==> #[trigger] self.block_size(d) >= 1,
    {
        assert forall|d: int| 0 <= d < MAX_DEPTH implies #[trigger] self.block_size(d) >= 1 by {
            lemma_exp2_pos((self.depth_offset - d) as nat);
        }
    }

    proof fn lemma_lists_after_swap(old_self: Self, new_self: Self, d: int, l: Seq<usize>)
        requires
            0 <= d < old_self.nodes@.len(),
            new_self.nodes@.len() == old_self.nodes@.len(),
            new_self.nodes@[d]@ == l,
            forall|j: int|
                0 <= j < old_self.nodes@.len() && j != d ==> new_self.nodes@[j]@
                    == old_self.nodes@[j]@,
        ensures
            new_self.free_lists() =~= old_self.free_lists().update(d, l),
    {
    }

    /// A buddy allocator over `size` bytes starting at `mem_start`, whose
    /// smallest blocks are `minimum_block_size` bytes. Every free list starts
    /// empty; `init` hands the whole region over.
    pub fn new(size: usize, minimum_block_size: usize, mem_start: usize) -> (r: Self)
        requires
            is_power_of_two(size as nat),
            minimum_block_size >= 1,
            size >= minimum_block_size,
            MAX_DEPTH == max_depth_for(size as nat, minimum_block_size as nat),
            mem_start + size <= usize::MAX,
        ensures
            r.well_formed(),
            r.spec_mem_start() == mem_start,
            r.region_size() == size,
            r.spec_min_block() == minimum_block_size,
            r.free_lists() == Seq::new(MAX_DEPTH as nat, |d: int| Seq::<usize>::empty()),
            r.free_bytes() == Set::<int>::empty(),
            is_power_of_two(minimum_block_size as nat) ==> MAX_DEPTH - 1 + ilog2(
                minimum_block_size as nat,
            ) == r.spec_depth_offset(),
    {
        let mut nodes: Vec<Vec<usize>> = Vec::new();
        let mut d: usize = 0;
        while d < MAX_DEPTH
            invariant
                d <= MAX_DEPTH,
                nodes@.len() == d,
                forall|j: int| 0 <= j < d ==> (#[trigger] nodes@[j])@ == Seq::<usize>::empty(),
            decreases MAX_DEPTH - d,
        {
            nodes.push(Vec::new());
            d = d + 1;
        }
        let depth_offset = match lowest_one(size as u64) {
            Some(t) => t as usize,
            None => vstd::pervasive::unreached(),
        };
        let r = BuddyAllocator { nodes, minimum_block_size, depth_offset, mem_start };
        proof {
            let q = (size / minimum_block_size) as nat;
            lemma_power_of_two_is_exp2(size as nat);
            lemma_ilog2_exp2(trailing_zeros(size as nat));
            assert(depth_offset == trailing_zeros(size as nat));
            assert(exp2(depth_offset as nat) == size);
            assert(q >= 1) by (nonlinear_arith)
                requires
                    q == size / minimum_block_size,
                    size >= minimum_block_size,
                    minimum_block_size >= 1,
            ;
            assert(q <= size) by (nonlinear_arith)
                requires
                    q == size / minimum_block_size,
                    minimum_block_size >= 1,
            ;
            lemma_trailing_zeros_divides(q);
            lemma_ilog2_monotonic(q, size as nat);
            assert(ilog2(size as nat) == depth_offset);
            assert(MAX_DEPTH - 1 <= depth_offset);
            lemma_exp2_64();
            if depth_offset >= usize::BITS {
                lemma_exp2_monotonic(usize::BITS as nat, depth_offset as nat);
            }
            assert(r.free_lists() =~= Seq::new(MAX_DEPTH as nat, |d: int| Seq::<usize>::empty()));
            assert(r.free_bytes() =~= Set::<int>::empty());
            if is_power_of_two(minimum_block_size as nat) {
                let m = ilog2(minimum_block_size as nat);
                lemma_power_of_two_is_exp2(minimum_block_size as nat);
                lemma_ilog2_monotonic(minimum_block_size as nat, size as nat);
                lemma_exp2_adds(m, (depth_offset - m) as nat);
                assert(size == exp2(m) * exp2((depth_offset - m) as nat));
                assert(q == exp2((depth_offset - m) as nat)) by {
                    lemma_exp2_pos(m);
                    vstd::arithmetic::div_mod::lemma_div_multiples_vanish(
                        exp2((depth_offset - m) as nat) as int,
                        exp2(m) as int,
                    );
                }
                lemma_exp2_is_power_of_two_tz((depth_offset - m) as nat);
            }
        }
        r
    }

    /// Hands the whole region to the allocator as one free block of depth 0.
    pub fn init(&mut self)
        requires
            old(self).well_formed(),
            forall|d: int|
                0 <= d < old(self).free_lists().len() ==> (#[trigger] old(self).free_lists()[d]).len()
                    == 0,
        ensures
            final(self).well_formed(),
            final(self).spec_mem_start() == old(self).spec_mem_start(),
            final(self).spec_depth_offset() == old(self).spec_depth_offset(),
            final(self).spec_min_block() == old(self).spec_min_block(),
            final(self).free_lists() == old(self).free_lists().update(
                0,
                seq![old(self).spec_mem_start() as usize],
            ),
            final(self).free_bytes() == block_set(
                old(self).spec_mem_start() as int,
                old(self).region_size() as int,
            ),
    {
        let ghost old_self = *self;
        let mut list: Vec<usize> = Vec::new();
        list.push(self.mem_start);
        std::mem::swap(&mut list, &mut self.nodes[0]);
        proof {
            Self::lemma_lists_after_swap(old_self, *self, 0, seq![old_self.mem_start]);
            let lists = old_self.free_lists();
            let off = old_self.depth_offset as nat;
            assert(free_set(lists, off) =~= Set::<int>::empty()) by {
                assert forall|x: int| !free_set(lists, off).contains(x) by {
                    if free_set(lists, off).contains(x) {
                        let (d, i) = choose|d: int, i: int| #[trigger] covers(lists, off, d, i, x);
                        assert(lists[d].len() == 0);
                    }
                }
            }
            assert(lists[0].push(old_self.mem_start) =~= seq![old_self.mem_start]);
            lemma_exp2_pos(off);
            lemma_free_set_push(lists, off, 0, old_self.mem_start);
            let new_lists = self.free_lists();
            assert(new_lists[0][0] == self.mem_start);
            assert forall|d: int, i: int|
                0 <= d < new_lists.len() && 0 <= i < new_lists[d].len() implies self.is_block(
                d,
                new_lists[d][i] as int,
            ) by {
                assert(d == 0);
                assert(i == 0);
                assert(new_lists[d][i] == self.mem_start);
                assert(self.block_size(0) == exp2(off));
                assert(0int % (exp2(off) as int) == 0);
            }
        }
    }

    /// The address of the right half's buddy: the block of `depth` that follows `ptr`.
    fn compute_right_buddy_ptr(&self, depth: usize, ptr: usize) -> (r: Option<usize>)
        requires
            self.well_formed(),
            depth < MAX_DEPTH,
            ptr + self.block_size(depth as int) <= usize::MAX,
        ensures
            depth == 0 ==> r is None,
            depth > 0 ==> r == Some((ptr + self.block_size(depth as int)) as usize),
    {
        if depth == 0 {
            return None;
        }
        proof {
            lemma_shl_exp2((self.depth_offset - depth) as usize);
        }
        Some(ptr + (1usize << (self.depth_offset - depth)))
    }

    /// The address of the block of `depth` that precedes `ptr`.
    fn compute_left_buddy_ptr(&self, depth: usize, ptr: usize) -> (r: Option<usize>)
        requires
            self.well_formed(),
            depth < MAX_DEPTH,
            ptr >= self.block_size(depth as int),
        ensures
            depth == 0 ==> r is None,
            depth > 0 ==> r == Some((ptr - self.block_size(depth as int)) as usize),
    {
        if depth == 0 {
            return None;
        }
        proof {
            lemma_shl_exp2((self.depth_offset - depth) as usize);
        }
        Some(ptr - (1usize << (self.depth_offset - depth)))
    }

    /// The buddy of the block of `depth` at `ptr`: the next block when `ptr`
    /// is a left half, the previous one otherwise.
    fn compute_buddy_ptr(&self, depth: usize, ptr: usize, is_left: bool) -> (r: Option<usize>)
        requires
            self.well_formed(),
            depth < MAX_DEPTH,
            is_left ==> ptr + self.block_size(depth as int) <= usize::MAX,
            !is_left ==> ptr >= self.block_size(depth as int),
        ensures
            depth == 0 ==> r is None,
            depth > 0 && is_left ==> r == Some((ptr + self.block_size(depth as int)) as usize),
            depth > 0 && !is_left ==> r == Some((ptr - self.block_size(depth as int)) as usize),
    {
        if depth == 0 {
            return None;
        }
        if is_left {
            self.compute_right_buddy_ptr(depth, ptr)
        } else {
            self.compute_left_buddy_ptr(depth, ptr)
        }
    }

    /// Whether the block of `depth` at `ptr` is the left half of its parent.
    fn is_left(&self, depth: usize, ptr: usize) -> (r: bool)
        requires
            self.well_formed(),
            depth < MAX_DEPTH,
            ptr >= self.spec_mem_start(),
        ensures
            r == (((ptr - self.spec_mem_start()) / (self.block_size(depth as int) as int)) % 2 == 0),
    {
        proof {
            lemma_bit_is_parity((ptr - self.mem_start) as usize, (self.depth_offset - depth) as usize);
        }
        (ptr - self.mem_start) & (1usize << (self.depth_offset - depth)) == 0
    }

    /// A block of `depth - 1` splits into two blocks of `depth`.
    proof fn lemma_split_block(&self, depth: int, b: int)
        requires
            self.well_formed(),
            1 <= depth < MAX_DEPTH,
            self.is_block(depth - 1, b),
        ensures
            self.block_size(depth - 1) == 2 * self.block_size(depth),
            self.block_size(depth) >= 1,
            self.is_block(depth, b),
            self.is_block(depth, b + self.block_size(depth)),
            block_set(b, self.block_size(depth - 1) as int) =~= block_set(
                b,
                self.block_size(depth) as int,
            ).union(block_set(b + self.block_size(depth), self.block_size(depth) as int)),
            block_set(b, self.block_size(depth) as int).disjoint(
                block_set(b + self.block_size(depth), self.block_size(depth) as int),
            ),
            b + self.block_size(depth - 1) <= usize::MAX,
    {
        let off = self.depth_offset as nat;
        let bs = self.block_size(depth) as int;
        lemma_exp2_pos((off - depth) as nat);
        assert(((off - (depth - 1)) as nat) == ((off - depth) as nat) + 1);
        assert(self.block_size(depth - 1) == 2 * self.block_size(depth));
        let o = b - self.mem_start;
        vstd::arithmetic::div_mod::lemma_fundamental_div_mod(o, 2 * bs);
        let k = o / (2 * bs);
        assert(o == (2 * bs) * k);
        assert(o == bs * (2 * k)) by (nonlinear_arith)
            requires
                o == (2 * bs) * k,
        ;
        assert(o + bs == bs * (2 * k + 1)) by (nonlinear_arith)
            requires
                o == bs * (2 * k),
        ;
        vstd::arithmetic::div_mod::lemma_mod_multiples_basic(2 * k, bs);
        vstd::arithmetic::div_mod::lemma_mod_multiples_basic(2 * k + 1, bs);
        assert(((b + bs) - self.mem_start) % bs == 0);
        assert(o % bs == 0);
    }

    /// Takes a free block of `depth`, splitting a larger free block when the
    /// list of `depth` is empty. Splitting keeps the left half free and hands
    /// out the right half.
    fn take_or_divide(&mut self, depth: usize) -> (r: Option<usize>)
        requires
            old(self).well_formed(),
            depth < MAX_DEPTH,
        ensures
            final(self).well_formed(),
            final(self).spec_mem_start() == old(self).spec_mem_start(),
            final(self).spec_depth_offset() == old(self).spec_depth_offset(),
            final(self).spec_min_block() == old(self).spec_min_block(),
            r is None <==> (forall|d: int|
                0 <= d <= depth ==> (#[trigger] old(self).free_lists()[d]).len() == 0),
            r is None ==> final(self).free_lists() == old(self).free_lists(),
            match take_from(old(self).free_lists(), old(self).spec_depth_offset(), depth as int) {
                None => r is None,
                Some((a, l)) => r == Some(a) && final(self).free_lists() == l,
            },
            r matches Some(a) ==> {
                &&& old(self).is_block(depth as int, a as int)
                &&& block_set(a as int, old(self).block_size(depth as int) as int).subset_of(
                    old(self).free_bytes(),
                )
                &&& final(self).free_bytes() == old(self).free_bytes().difference(
                    block_set(a as int, old(self).block_size(depth as int) as int),
                )
            },
        decreases depth,
    {
        let ghost old_self = *self;
        let ghost lists = old_self.free_lists();
        let ghost off = old_self.depth_offset as nat;
        if self.nodes[depth].len() > 0 {
            let mut list: Vec<usize> = Vec::new();
            std::mem::swap(&mut list, &mut self.nodes[depth]);
            let node = match list.pop() {
                Some(node) => node,
                None => vstd::pervasive::unreached(),
            };
            std::mem::swap(&mut list, &mut self.nodes[depth]);
            proof {
                let n = lists[depth as int].len() as int;
                assert(self.nodes@[depth as int]@ == lists[depth as int].subrange(0, n - 1));
                assert(lists[depth as int].subrange(0, n - 1) =~= lists[depth as int].remove(n - 1));
                Self::lemma_lists_after_swap(old_self, *self, depth as int, lists[depth as int].remove(n - 1));
                lemma_free_set_remove(lists, off, depth as int, n - 1);
                assert(node == lists[depth as int][n - 1]);
                assert(old_self.is_block(depth as int, lists[depth as int][n - 1] as int));
                let new_lists = self.free_lists();
                assert forall|d: int, i: int|
                    #![trigger new_lists[d][i]]
                    0 <= d < new_lists.len() && 0 <= i < new_lists[d].len() implies self.is_block(
                    d,
                    new_lists[d][i] as int,
                ) by {
                    if d == depth {
                        assert(new_lists[d][i] == lists[d][i]);
                    } else {
                        assert(new_lists[d][i] == lists[d][i]);
                    }
                }
                assert forall|x: int|
                    block_set(node as int, old_self.block_size(depth as int) as int).contains(
                        x,
                    ) implies old_self.free_bytes().contains(x) by {
                    assert(covers(lists, off, depth as int, n - 1, x));
                }
                assert(lists[depth as int].drop_last() =~= lists[depth as int].remove(n - 1));
            }
            return Some(node);
        }
        if depth == 0 {
            return None;
        }
        match self.take_or_divide(depth - 1) {
            None => None,
            Some(node) => {
                let ghost mid = *self;
                proof {
                    self.lemma_split_block(depth as int, node as int);
                }
                let buddy_ptr = match self.compute_right_buddy_ptr(depth, node) {
                    Some(p) => p,
                    None => vstd::pervasive::unreached(),
                };
                let mut list: Vec<usize> = Vec::new();
                std::mem::swap(&mut list, &mut self.nodes[depth]);
                list.push(node);
                std::mem::swap(&mut list, &mut self.nodes[depth]);
                proof {
                    let mid_lists = mid.free_lists();
                    let bs = old_self.block_size(depth as int) as int;
                    let parent = block_set(node as int, 2 * bs);
                    let left = block_set(node as int, bs);
                    let right = block_set(node + bs, bs);
                    assert(mid.free_bytes() == old_self.free_bytes().difference(parent));
                    assert(mid.free_bytes().disjoint(left));
                    Self::lemma_lists_after_swap(
                        mid,
                        *self,
                        depth as int,
                        mid_lists[depth as int].push(node),
                    );
                    lemma_free_set_push(mid_lists, off, depth as int, node);
                    let new_lists = self.free_lists();
                    let n = mid_lists[depth as int].len() as int;
                    assert forall|d: int, i: int|
                        #![trigger new_lists[d][i]]
                        0 <= d < new_lists.len() && 0 <= i < new_lists[d].len() implies self.is_block(
                        d,
                        new_lists[d][i] as int,
                    ) by {
                        if d == depth && i == n {
                            assert(new_lists[d][i] == node);
                        } else {
                            assert(new_lists[d][i] == mid_lists[d][i]);
                        }
                    }
                    assert(self.free_bytes() =~= old_self.free_bytes().difference(right));
                    assert(right.subset_of(old_self.free_bytes()));
                }
                Some(buddy_ptr)
            },
        }
    }

    /// Unlinks `ptr` from the free list of `depth`. The search starts after
    /// the head, so the head itself is never unlinked.
    fn remove_ptr_from_list(&mut self, depth: usize, ptr: usize) -> (r: Option<usize>)
        requires
            old(self).well_formed(),
            depth < MAX_DEPTH,
        ensures
            final(self).well_formed(),
            final(self).spec_mem_start() == old(self).spec_mem_start(),
            final(self).spec_depth_offset() == old(self).spec_depth_offset(),
            final(self).spec_min_block() == old(self).spec_min_block(),
            ({
                let list = old(self).free_lists()[depth as int];
                match r {
                    Some(a) => {
                        &&& a == ptr
                        &&& exists|i: int|
                            {
                                &&& 0 <= i < list.len() - 1
                                &&& #[trigger] list[i] == ptr
                                &&& forall|j: int| i < j < list.len() - 1 ==> list[j] != ptr
                                &&& final(self).free_lists() == old(self).free_lists().update(
                                    depth as int,
                                    list.remove(i),
                                )
                            }
                        &&& final(self).free_bytes() == old(self).free_bytes().difference(
                            block_set(ptr as int, old(self).block_size(depth as int) as int),
                        )
                        &&& block_set(ptr as int, old(self).block_size(depth as int) as int).subset_of(
                            old(self).free_bytes(),
                        )
                    },
                    None => {
                        &&& final(self).free_lists() == old(self).free_lists()
                        &&& forall|i: int| 0 <= i < list.len() - 1 ==> list[i] != ptr
                    },
                }
            }),
    {
        let ghost old_self = *self;
        let ghost lists = old_self.free_lists();
        let ghost off = old_self.depth_offset as nat;
        let n = self.nodes[depth].len();
        if n == 0 {
            return None;
        }
        let mut found: Option<usize> = None;
        let mut i = n - 1;
        {
            let list = &self.nodes[depth];
            while i > 0
                invariant_except_break
                    found is None,
                    forall|j: int| i <= j < n - 1 ==> list@[j] != ptr,
                invariant
                    depth < lists.len(),
                    list@ == lists[depth as int],
                    n == list@.len(),
                    0 <= i <= n - 1,
                ensures
                    found matches Some(k) ==> k == i && k < n - 1 && lists[depth as int][k as int] == ptr
                        && forall|j: int| k < j < n - 1 ==> lists[depth as int][j] != ptr,
                    found is None ==> forall|j: int|
                        0 <= j < n - 1 ==> lists[depth as int][j] != ptr,
                decreases i,
            {
                i = i - 1;
                if list[i] == ptr {
                    found = Some(i);
                    break;
                }
            }
        }
        match found {
            None => {
                assert(*self == old_self);
                let ghost list = lists[depth as int];
                assert(n == list.len());
                assert forall|j: int| 0 <= j < list.len() - 1 implies list[j] != ptr by {}
                None
            },
            Some(k) => {
                let mut list: Vec<usize> = Vec::new();
                std::mem::swap(&mut list, &mut self.nodes[depth]);
                list.remove(k);
                std::mem::swap(&mut list, &mut self.nodes[depth]);
                proof {
                    Self::lemma_lists_after_swap(
                        old_self,
                        *self,
                        depth as int,
                        lists[depth as int].remove(k as int),
                    );
                    lemma_free_set_remove(lists, off, depth as int, k as int);
                    let new_lists = self.free_lists();
                    assert forall|d: int, j: int|
                        #![trigger new_lists[d][j]]
                        0 <= d < new_lists.len() && 0 <= j < new_lists[d].len() implies self.is_block(
                        d,
                        new_lists[d][j] as int,
                    ) by {
                        if d == depth && j >= k {
                            assert(new_lists[d][j] == lists[d][j + 1]);
                        } else {
                            assert(new_lists[d][j] == lists[d][j]);
                        }
                    }
                    assert forall|x: int|
                        block_set(ptr as int, old_self.block_size(depth as int) as int).contains(
                            x,
                        ) implies old_self.free_bytes().contains(x) by {
                        assert(covers(lists, off, depth as int, k as int, x));
                    }
                    assert(lists[depth as int][k as int] == ptr);
                    let list = lists[depth as int];
                    assert(0 <= k < list.len() - 1);
                    assert(forall|j: int| k < j < list.len() - 1 ==> list[j] != ptr);
                    assert(self.free_lists() == lists.update(depth as int, list.remove(k as int)));
                }
                Some(ptr)
            },
        }
    }

    /// Frees the block of `depth` at `ptr`, joining it with its buddy, and the
    /// joined block with its own buddy, for as long as the buddy is found free
    /// (past the head of its list).
    fn merge(&mut self, depth: usize, ptr: usize)
        requires
            old(self).well_formed(),
            old(self).is_block(depth as int, ptr as int),
            old(self).free_bytes().disjoint(
                block_set(ptr as int, old(self).block_size(depth as int) as int),
            ),
        ensures
            final(self).well_formed(),
            final(self).spec_mem_start() == old(self).spec_mem_start(),
            final(self).spec_depth_offset() == old(self).spec_depth_offset(),
            final(self).spec_min_block() == old(self).spec_min_block(),
            final(self).free_bytes() == old(self).free_bytes().union(
                block_set(ptr as int, old(self).block_size(depth as int) as int),
            ),
            final(self).free_lists() == merge_into(
                old(self).free_lists(),
                old(self).spec_depth_offset(),
                old(self).spec_mem_start(),
                depth as int,
                ptr as int,
            ),
        decreases depth,
    {
        let ghost old_self = *self;
        let ghost lists = old_self.free_lists();
        let ghost off = old_self.depth_offset as nat;
        proof {
            old_self.lemma_well_formed();
        }
        if depth == 0 {
            let mut list: Vec<usize> = Vec::new();
            list.push(ptr);
            std::mem::swap(&mut list, &mut self.nodes[0]);
            proof {
                let region = block_set(ptr as int, old_self.block_size(0) as int);
                assert(ptr == old_self.mem_start) by {
                    let o = ptr - old_self.mem_start;
                    lemma_exp2_pos(off);
                    if o > 0 {
                        vstd::arithmetic::div_mod::lemma_fundamental_div_mod(o, exp2(off) as int);
                        assert(o >= exp2(off)) by (nonlinear_arith)
                            requires
                                o == exp2(off) * (o / exp2(off) as int),
                                o > 0,
                                exp2(off) > 0,
                        ;
                    }
                }
                assert forall|d: int| 0 <= d < lists.len() implies #[trigger] lists[d].len() == 0 by {
                    if lists[d].len() > 0 {
                        let a = lists[d][0] as int;
                        assert(old_self.is_block(d, a));
                        assert(old_self.block_size(d) >= 1);
                        assert(covers(lists, off, d, 0, a));
                        assert(old_self.free_bytes().contains(a));
                        assert(region.contains(a));
                    }
                }
                assert(lists[0].push(ptr) =~= seq![ptr]);
                lemma_free_set_push(lists, off, 0, ptr);
                Self::lemma_lists_after_swap(old_self, *self, 0, seq![ptr]);
                let new_lists = self.free_lists();
                assert forall|d: int, j: int|
                    #![trigger new_lists[d][j]]
                    0 <= d < new_lists.len() && 0 <= j < new_lists[d].len() implies self.is_block(
                    d,
                    new_lists[d][j] as int,
                ) by {
                    assert(d == 0 && j == 0);
                    assert(new_lists[d][j] == ptr);
                }
            }
            return;
        }
        let is_left = self.is_left(depth, ptr);
        let ghost bs = old_self.block_size(depth as int) as int;
        let ghost o = ptr - old_self.mem_start;
        proof {
            lemma_halves(o, bs);
            lemma_exp2_pos((off - depth) as nat);
            assert(((off - (depth - 1)) as nat) == ((off - depth) as nat) + 1);
            assert(old_self.block_size(depth - 1) == 2 * bs);
        }
        let buddy_ptr = match self.compute_buddy_ptr(depth, ptr, is_left) {
            Some(p) => p,
            None => vstd::pervasive::unreached(),
        };
        let ghost parent: int = if is_left {
            ptr as int
        } else {
            buddy_ptr as int
        };
        proof {
            // the parent block lies in the region
            let two_bs = 2 * bs;
            let po = parent - old_self.mem_start;
            lemma_exp2_adds((off - (depth - 1)) as nat, (depth - 1) as nat);
            assert((off - (depth - 1)) as nat + (depth - 1) as nat == off);
            assert(exp2(off) == two_bs * exp2((depth - 1) as nat));
            vstd::arithmetic::div_mod::lemma_mod_multiples_basic(
                exp2((depth - 1) as nat) as int,
                two_bs,
            );
            assert((exp2((depth - 1) as nat) * two_bs) == exp2(off)) by (nonlinear_arith)
                requires
                    exp2(off) == two_bs * exp2((depth - 1) as nat),
            ;
            assert(exp2(off) as int % two_bs == 0);
            lemma_aligned_fits(po, two_bs, exp2(off) as int);
            assert(old_self.is_block(depth - 1, parent));
            old_self.lemma_split_block(depth as int, parent);
        }
        let buddy = self.remove_ptr_from_list(depth, buddy_ptr);
        proof {
            let list = lists[depth as int];
            lemma_find_at_or_below(list, buddy_ptr, list.len() - 2);
        }
        match buddy {
            Some(_) => {
                let ghost mid = *self;
                proof {
                    let pb = block_set(parent, 2 * bs);
                    let mine = block_set(ptr as int, bs);
                    let theirs = block_set(buddy_ptr as int, bs);
                    assert(pb =~= mine.union(theirs));
                    assert(mid.free_bytes().disjoint(pb));
                }
                self.merge(depth - 1, if is_left {
                    ptr
                } else {
                    buddy_ptr
                });
                proof {
                    let mine = block_set(ptr as int, bs);
                    let theirs = block_set(buddy_ptr as int, bs);
                    assert(self.free_bytes() =~= old_self.free_bytes().union(mine));
                }
            },
            None => {
                let ghost mid = *self;
                let mut list: Vec<usize> = Vec::new();
                std::mem::swap(&mut list, &mut self.nodes[depth]);
                list.push(ptr);
                std::mem::swap(&mut list, &mut self.nodes[depth]);
                proof {
                    lemma_free_set_push(lists, off, depth as int, ptr);
                    assert(mid.free_lists() == lists);
                    assert forall|j: int| 0 <= j < mid.nodes@.len() implies #[trigger] mid.nodes@[j]@
                        == old_self.nodes@[j]@ by {
                        assert(mid.free_lists()[j] == lists[j]);
                    }
                    Self::lemma_lists_after_swap(
                        mid,
                        *self,
                        depth as int,
                        lists[depth as int].push(ptr),
                    );
                    let new_lists = self.free_lists();
                    let n = lists[depth as int].len() as int;
                    assert forall|d: int, j: int|
                        #![trigger new_lists[d][j]]
                        0 <= d < new_lists.len() && 0 <= j < new_lists[d].len() implies self.is_block(
                        d,
                        new_lists[d][j] as int,
                    ) by {
                        if d == depth && j == n {
                            assert(new_lists[d][j] == ptr);
                        } else {
                            assert(new_lists[d][j] == lists[d][j]);
                        }
                    }
                }
            },
        }
    }
}

impl<const MAX_DEPTH: usize> BuddyAllocator<MAX_DEPTH> {
    /// Two states of an allocator over the same region with the same minimum block size.
    pub open spec fn same_region(self, other: Self) -> bool {
        &&& self.spec_mem_start() == other.spec_mem_start()
        &&& self.spec_depth_offset() == other.spec_depth_offset()
        &&& self.spec_min_block() == other.spec_min_block()
    }

    /// The depth that serves a request of `size` bytes, if any.
    pub open spec fn request_depth(self, size: u64) -> Option<nat> {
        depth_for(size as nat, self.spec_min_block(), MAX_DEPTH as nat)
    }

    /// What `allocate(size)` does, from state `s0` to state `s1`, giving back `r`.
    ///
    /// With no depth for the request, or no free block at that depth or above,
    /// it fails and changes nothing. Otherwise it hands out the block that
    /// `take_from` takes, a block of that depth all of whose bytes were free
    /// and no longer are.
    pub open spec fn allocate_outcome(s0: Self, s1: Self, size: u64, r: Option<usize>) -> bool {
        &&& s1.same_region(s0)
        &&& match s0.request_depth(size) {
            None => r is None && s1.free_lists() == s0.free_lists(),
            Some(d) => {
                &&& match take_from(s0.free_lists(), s0.spec_depth_offset(), d as int) {
                    None => r is None,
                    Some((a, l)) => r == Some(a) && s1.free_lists() == l,
                }
                &&& (r is None <==> (forall|e: int|
                    0 <= e <= d ==> (#[trigger] s0.free_lists()[e]).len() == 0))
                &&& (r is None ==> s1.free_lists() == s0.free_lists())
                &&& (r matches Some(a) ==> {
                    &&& s0.is_block(d as int, a as int)
                    &&& block_set(a as int, s0.block_size(d as int) as int).subset_of(
                        s0.free_bytes(),
                    )
                    &&& s1.free_bytes() == s0.free_bytes().difference(
                        block_set(a as int, s0.block_size(d as int) as int),
                    )
                })
            },
        }
    }

    /// What `dealloc(ptr, size)` does: the block of the request's depth at
    /// `ptr` becomes free again, merged into the free lists as `merge_into`
    /// does.
    pub open spec fn dealloc_outcome(s0: Self, s1: Self, ptr: usize, size: u64) -> bool {
        &&& s1.same_region(s0)
        &&& s0.request_depth(size) matches Some(d)
        &&& s1.free_bytes() == s0.free_bytes().union(
            block_set(ptr as int, s0.block_size(d as int) as int),
        )
        &&& s1.free_lists() == merge_into(
            s0.free_lists(),
            s0.spec_depth_offset(),
            s0.spec_mem_start(),
            d as int,
            ptr as int,
        )
    }
}

impl<const MAX_DEPTH: usize> BinaryAllocator for BuddyAllocator<MAX_DEPTH> {
    open spec fn wf(&self) -> bool {
        self.well_formed()
    }

    open spec fn spec_minimum_block_size(&self) -> u64 {
        self.spec_min_block() as u64
    }

    open spec fn spec_max_depth(&self) -> u64 {
        MAX_DEPTH as u64
    }

    open spec fn spec_upper_bound(&self) -> nat {
        self.spec_mem_start() + self.region_size()
    }

    open spec fn alloc_requires(&self, size: u64) -> bool {
        &&& size >= 1
        &&& self.spec_min_block() >= 2
    }

    /// The block was handed out for a request of `size` bytes: it is a block
    /// of the request's depth none of whose bytes is free.
    open spec fn dealloc_requires(&self, ptr: usize, size: u64) -> bool {
        &&& size >= 1
        &&& self.spec_min_block() >= 2
        &&& self.request_depth(size) matches Some(d)
        &&& self.is_block(d as int, ptr as int)
        &&& self.free_bytes().disjoint(block_set(ptr as int, self.block_size(d as int) as int))
    }

    open spec fn allocated(s0: Self, s1: Self, size: u64, r: Option<usize>) -> bool {
        Self::allocate_outcome(s0, s1, size, r)
    }

    open spec fn freed(s0: Self, s1: Self, ptr: usize, size: u64) -> bool {
        Self::dealloc_outcome(s0, s1, ptr, size)
    }

    /// The block that `take_from` takes at the request's depth, if any.
    open spec fn allocation(&self, size: u64) -> Option<usize> {
        match self.request_depth(size) {
            None => None,
            Some(d) => match take_from(self.free_lists(), self.spec_depth_offset(), d as int) {
                None => None,
                Some((a, l)) => Some(a),
            },
        }
    }

    /// Hands out a free block of the depth that serves `size` bytes.
    fn allocate(&mut self, size: u64) -> (r: Option<usize>)
        ensures
            Self::allocate_outcome(*old(self), *final(self), size, r),
    {
        proof {
            self.lemma_well_formed();
            crate::bits::lemma_ilog2_below_64((self.minimum_block_size - 1) as u64);
        }
        match self.compute_depth(size) {
            None => None,
            Some(depth) => {
                proof {
                    self.lemma_request_block_fits(size);
                }
                self.take_or_divide(depth as usize)
            },
        }
    }

    /// Gives the block of the depth that serves `size` bytes at `ptr` back.
    fn dealloc(&mut self, ptr: usize, size: u64)
        ensures
            Self::dealloc_outcome(*old(self), *final(self), ptr, size),
    {
        proof {
            self.lemma_well_formed();
            crate::bits::lemma_ilog2_below_64((self.minimum_block_size - 1) as u64);
        }
        let depth = match self.compute_depth(size) {
            Some(depth) => depth,
            None => vstd::pervasive::unreached(),
        };
        self.merge(depth as usize, ptr);
    }

    fn minimum_block_size(&self) -> (r: u64) {
        self.minimum_block_size as u64
    }

    fn max_depth(&self) -> (r: u64) {
        MAX_DEPTH as u64
    }
}

impl<const MAX_DEPTH: usize> BuddyAllocator<MAX_DEPTH> {
    /// The block that serves a request is at least as large as the request.
    pub proof fn lemma_request_block_fits(&self, size: u64)
        requires
            self.well_formed(),
            size >= 1,
            self.request_depth(size) is Some,
        ensures
            self.block_size(self.request_depth(size)->0 as int) >= size,
    {
        let off = self.spec_depth_offset();
        let min = self.spec_min_block();
        let total = exp2(off);
        let q = total / min;
        let t = trailing_zeros(q);
        assert(q >= 1) by (nonlinear_arith)
            requires
                q == total / min,
                1 <= min <= total,
        ;
        lemma_trailing_zeros_divides(q);
        lemma_exp2_pos(t);
        // 2^t * min <= total, so min <= 2^(off - t)
        assert(exp2(t) * min <= total) by (nonlinear_arith)
            requires
                exp2(t) <= q,
                q == total / min,
                min >= 1,
        ;
        lemma_ilog2_exp2(off);
        assert(q <= total) by (nonlinear_arith)
            requires
                q == total / min,
                min >= 1,
        ;
        lemma_ilog2_monotonic(q, total);
        assert(t <= off);
        lemma_exp2_adds(t, (off - t) as nat);
        assert(exp2(t) * exp2((off - t) as nat) == total);
        assert(min <= exp2((off - t) as nat)) by (nonlinear_arith)
            requires
                exp2(t) * min <= total,
                exp2(t) * exp2((off - t) as nat) == total,
                exp2(t) >= 1,
        ;
        lemma_exp2_at_least(min, (off - t) as nat);
        // the deepest level's blocks are at least 2^ceil_log2(min) bytes
        let c = ceil_log2(size as nat);
        let cm = ceil_log2(min);
        let d = self.request_depth(size)->0;
        assert(MAX_DEPTH - 1 == t);
        assert((off - d) as nat >= c) by {
            assert((off - t) as nat >= cm);
        }
        lemma_exp2_monotonic(c, (off - d) as nat);
        lemma_next_pow2_is_exp2_ceil_log2(size as nat);
        lemma_next_pow2(size as nat);
    }

    /// A block that `allocate` just handed out may be given back with `dealloc`
    /// for the same request size.
    pub proof fn lemma_allocated_block_may_be_freed(s0: Self, s1: Self, size: u64, a: usize)
        requires
            s0.well_formed(),
            s1.well_formed(),
            s0.alloc_requires(size),
            Self::allocate_outcome(s0, s1, size, Some(a)),
        ensures
            s1.dealloc_requires(a, size),
    {
        let d = s0.request_depth(size)->0;
        let blk = block_set(a as int, s0.block_size(d as int) as int);
        assert(s1.free_bytes().disjoint(blk));
    }

    /// Giving back the block that `allocate` handed out restores the free
    /// memory as it was before the allocation.
    pub proof fn lemma_allocate_then_dealloc_restores(
        s0: Self,
        s1: Self,
        s2: Self,
        size: u64,
        a: usize,
    )
        requires
            s0.well_formed(),
            Self::allocate_outcome(s0, s1, size, Some(a)),
            Self::dealloc_outcome(s1, s2, a, size),
        ensures
            s2.free_bytes() == s0.free_bytes(),
            s2.same_region(s0),
    {
        let d = s0.request_depth(size)->0;
        let blk = block_set(a as int, s0.block_size(d as int) as int);
        assert(s2.free_bytes() =~= s0.free_bytes());
    }

    /// Two successive allocations hand out blocks that share no byte.
    pub proof fn lemma_successive_allocations_disjoint(
        s0: Self,
        s1: Self,
        s2: Self,
        size1: u64,
        size2: u64,
        a1: usize,
        a2: usize,
    )
        requires
            Self::allocate_outcome(s0, s1, size1, Some(a1)),
            Self::allocate_outcome(s1, s2, size2, Some(a2)),
        ensures
            ({
                let d1 = s0.request_depth(size1)->0;
                let d2 = s1.request_depth(size2)->0;
                block_set(a1 as int, s0.block_size(d1 as int) as int).disjoint(
                    block_set(a2 as int, s1.block_size(d2 as int) as int),
                )
            }),
    {
    }

    /// An allocator whose smallest block size is a power of two and whose
    /// depth count matches it (as `new` sets up) serves a request of `size`
    /// bytes with a block of `next_pow2(max(size, minimum block size))` bytes.
    pub proof fn lemma_block_fits_request(s: Self, size: u64)
        requires
            s.well_formed(),
            size >= 1,
            is_power_of_two(s.spec_min_block()),
            MAX_DEPTH - 1 + ilog2(s.spec_min_block()) == s.spec_depth_offset(),
            s.request_depth(size) is Some,
        ensures
            s.block_size(s.request_depth(size)->0 as int) == next_pow2(
                if size >= s.spec_min_block() {
                    size as nat
                } else {
                    s.spec_min_block()
                },
            ),
            s.block_size(s.request_depth(size)->0 as int) >= size,
    {
        let min = s.spec_min_block();
        let k = ilog2(min);
        lemma_power_of_two_is_exp2(min);
        lemma_ceil_log2_exp2(k);
        assert(ceil_log2(min) == k);
        let c = ceil_log2(size as nat);
        let m = if size >= min {
            size as nat
        } else {
            min
        };
        lemma_ceil_log2_monotonic(size as nat, m);
        lemma_ceil_log2_monotonic(min, m);
        lemma_next_pow2_is_exp2_ceil_log2(m);
        if size >= min {
            assert(ceil_log2(m) == c);
        } else {
            // ceil_log2(size) <= ceil_log2(min) <= ceil_log2(m) == ceil_log2(min)
            assert(ceil_log2(m) == k);
        }
        lemma_next_pow2(m);
    }
}

/// `ceil_log2(2^k)` is `k`.
proof fn lemma_ceil_log2_exp2(k: nat)
    ensures
        ceil_log2(exp2(k)) == k,
{
    lemma_exp2_pos(k);
    if k > 0 {
        // 2^(k-1) <= 2^k - 1 < 2^k
        crate::bits::lemma_exp2_monotonic(0, (k - 1) as nat);
        crate::bits::lemma_ilog2_unique((exp2(k) - 1) as nat, (k - 1) as nat);
    }
}

/// A power of two that is at least `x` is at least `2^ceil_log2(x)`.
proof fn lemma_exp2_at_least(x: nat, k: nat)
    requires
        x >= 1,
        exp2(k) >= x,
    ensures
        k >= ceil_log2(x),
{
    if x > 1 && k < ceil_log2(x) {
        let j = ilog2((x - 1) as nat);
        crate::bits::lemma_ilog2_bounds((x - 1) as nat);
        lemma_exp2_monotonic(k, j);
    }
}

/// `ceil_log2` is monotonic.
proof fn lemma_ceil_log2_monotonic(x: nat, y: nat)
    requires
        x <= y,
    ensures
        ceil_log2(x) <= ceil_log2(y),
{
    if x > 1 {
        lemma_ilog2_monotonic((x - 1) as nat, (y - 1) as nat);
    }
}

} // verus!
