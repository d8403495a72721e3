use vstd::prelude::*;

use crate::bits::{ceil_log2, ilog2};
use crate::memory::binary_allocator::{depth_for, BinaryAllocator};
use crate::memory::PAGE_SIZE;

verus! {

/// Size of the smallest block: one free-list link.
pub const MINIMUM_BLOCK_SIZE: u64 = 8;

/// Each slab is one page.
pub const SLAB_SIZE: u64 = PAGE_SIZE;

/// Number of size classes: `(SLAB_SIZE / MINIMUM_BLOCK_SIZE).lowest_one() + 1`.
pub const MAX_DEPTH: u64 = 10;

/// The free chunks of a slab of `count` chunks of `size` bytes starting at
/// `start`, the head (the highest chunk) last.
pub open spec fn slab_chunks(start: int, size: int, count: nat) -> Seq<usize> {
    Seq::new(count, |i: int| (start + i * size) as usize)
}

/// The size class (depth) that serves requests of `size` bytes.
pub open spec fn slab_depth(size: u64) -> nat {
    depth_for(size as nat, MINIMUM_BLOCK_SIZE as nat, MAX_DEPTH as nat)->0
}

/// Requests below a page always have a size class.
pub proof fn lemma_slab_depth(size: u64)
    requires
        1 <= size < PAGE_SIZE,
    ensures
        depth_for(size as nat, MINIMUM_BLOCK_SIZE as nat, MAX_DEPTH as nat) is Some,
        slab_depth(size) < MAX_DEPTH,
{
    crate::bits::lemma_exp2_64();
    assert(ilog2(1) == 0);
    assert(ilog2(3) == 1);
    assert(ilog2(7) == 2);
    assert(ceil_log2(8) == 3);
    if size > 1 {
        crate::bits::lemma_ilog2_bounds((size - 1) as nat);
        if ilog2((size - 1) as nat) >= 12 {
            crate::bits::lemma_exp2_monotonic(12, ilog2((size - 1) as nat));
        }
    }
}

/// A slab allocator for blocks below a page. Each size class keeps a free
/// list (head last) of chunks carved out of pages that the backing allocator
/// hands out; requests of a page or more go to the backing allocator.
pub struct SlabAllocator<NewSlabAllocator: BinaryAllocator> {
    nodes: Vec<Vec<usize>>,
    new_slab_allocator: Option<NewSlabAllocator>,
}

impl<NewSlabAllocator: BinaryAllocator> SlabAllocator<NewSlabAllocator> {
    /// The free lists, one per size class, each with its head last.
    pub closed spec fn free_lists(&self) -> Seq<Seq<usize>> {
        self.nodes@.map_values(|l: Vec<usize>| l@)
    }

    /// The allocator that slabs come from, once `init` gave one.
    pub closed spec fn backing(&self) -> Option<NewSlabAllocator> {
        self.new_slab_allocator
    }

    /// One free list per size class; every free chunk lies at least a page
    /// below the top of the address space; the backing allocator is consistent
    /// and hands out nothing within a page of the top.
    pub closed spec fn well_formed(&self) -> bool {
        let lists = self.free_lists();
        &&& lists.len() == MAX_DEPTH
        &&& forall|d: int, i: int|
            #![trigger lists[d][i]]
            0 <= d < lists.len() && 0 <= i < lists[d].len() ==> lists[d][i] + PAGE_SIZE
                <= usize::MAX
        &&& self.new_slab_allocator matches Some(b) ==> {
            &&& b.wf()
            &&& b.spec_upper_bound() + PAGE_SIZE <= usize::MAX
        }
    }

    proof fn lemma_lists_after_swap(old_self: Self, new_self: Self, d: int, l: Seq<usize>)
        requires
            0 <= d < old_self.nodes@.len(),
            new_self.nodes@.len() == old_self.nodes@.len(),
            new_self.nodes@[d]@ == l,
            forall|j: int|
                0 <= j < old_self.nodes@.len() && j != d ==> new_self.nodes@[j]@
                    == old_self.nodes@[j]@,
        ensures
            new_self.free_lists() =~= old_self.free_lists().update(d, l),
    {
    }

    /// An allocator with empty free lists and no backing allocator yet.
    pub fn new() -> (r: SlabAllocator<NewSlabAllocator>)
        ensures
            r.well_formed(),
            r.free_lists() == Seq::new(MAX_DEPTH as nat, |d: int| Seq::<usize>::empty()),
            r.backing() is None,
    {
        let mut nodes: Vec<Vec<usize>> = Vec::new();
        let mut d: u64 = 0;
        while d < MAX_DEPTH
            invariant
                d <= MAX_DEPTH,
                nodes@.len() == d,
                forall|j: int| 0 <= j < d ==> (#[trigger] nodes@[j])@ == Seq::<usize>::empty(),
            decreases MAX_DEPTH - d,
        {
            nodes.push(Vec::new());
            d = d + 1;
        }
        let r = SlabAllocator { nodes, new_slab_allocator: None };
        assert(r.free_lists() =~= Seq::new(MAX_DEPTH as nat, |d: int| Seq::<usize>::empty()));
        r
    }

    /// Gives the allocator the allocator that its slabs come from.
    pub fn init(&mut self, new_slab_allocator: NewSlabAllocator)
        requires
            old(self).well_formed(),
            new_slab_allocator.wf(),
            new_slab_allocator.spec_upper_bound() + PAGE_SIZE <= usize::MAX,
        ensures
            final(self).well_formed(),
            final(self).free_lists() == old(self).free_lists(),
            final(self).backing() == Some(new_slab_allocator),
    {
        self.new_slab_allocator = Some(new_slab_allocator);
    }

    /// Carves a fresh page from the backing allocator into chunks of `size`
    /// bytes, the head of the chain (the highest chunk) last.
    fn allocate_new_slab(&mut self, size: u64) -> (r: Option<Vec<usize>>)
        requires
            old(self).well_formed(),
            1 <= size < SLAB_SIZE,
            old(self).backing() matches Some(b) && b.alloc_requires(SLAB_SIZE),
        ensures
            final(self).well_formed(),
            final(self).free_lists() == old(self).free_lists(),
            final(self).backing() is Some,
            final(self).backing()->0.spec_upper_bound() == old(self).backing()->0.spec_upper_bound(),
            NewSlabAllocator::allocated(
                old(self).backing()->0,
                final(self).backing()->0,
                SLAB_SIZE,
                old(self).backing()->0.allocation(SLAB_SIZE),
            ),
            r is None <==> old(self).backing()->0.allocation(SLAB_SIZE) is None,
            r matches Some(chain) ==> {
                let p = old(self).backing()->0.allocation(SLAB_SIZE)->0;
                &&& p + SLAB_SIZE <= old(self).backing()->0.spec_upper_bound()
                &&& chain@ == slab_chunks(p as int, size as int, (SLAB_SIZE / size) as nat)
            },
    {
        let ptr = match &mut self.new_slab_allocator {
            Some(b) => b.allocate(SLAB_SIZE),
            None => None,
        };
        match ptr {
            None => None,
            Some(p) => {
                let n = SLAB_SIZE / size;
                let step = size as usize;
                let mut chain: Vec<usize> = Vec::new();
                let mut addr = p;
                let mut i: u64 = 0;
                while i < n
                    invariant
                        n == SLAB_SIZE / size,
                        1 <= size < SLAB_SIZE,
                        step == size,
                        i <= n,
                        addr == p + i * size,
                        p + SLAB_SIZE <= usize::MAX,
                        chain@ == slab_chunks(p as int, size as int, i as nat),
                    decreases n - i,
                {
                    proof {
                        assert(n * size <= SLAB_SIZE) by (nonlinear_arith)
                            requires
                                n == SLAB_SIZE / size,
                                size >= 1,
                        ;
                        assert((i + 1) * size <= n * size) by (nonlinear_arith)
                            requires
                                i < n,
                                size >= 1,
                        ;
                        assert(addr + size == p + (i + 1) * size) by (nonlinear_arith)
                            requires
                                addr == p + i * size,
                        ;
                    }
                    chain.push(addr);
                    addr = addr + step;
                    i = i + 1;
                    proof {
                        assert(chain@ =~= slab_chunks(p as int, size as int, i as nat));
                    }
                }
                Some(chain)
            },
        }
    }
}

impl<NewSlabAllocator: BinaryAllocator> SlabAllocator<NewSlabAllocator> {
    /// What `allocate(size)` does to the free lists, from state `s0` to `s1`,
    /// for a request below a page: it takes the head of the request's size
    /// class or, when that list is empty, carves a fresh page into chunks of
    /// `size` bytes, hands out the highest and keeps the rest.
    pub open spec fn allocate_outcome(s0: Self, s1: Self, size: u64, r: Option<usize>) -> bool {
        let d = slab_depth(size) as int;
        let list = s0.free_lists()[d];
        let n = (SLAB_SIZE / size) as nat;
        if list.len() > 0 {
            &&& r == Some(list.last())
            &&& s1.free_lists() == s0.free_lists().update(d, list.drop_last())
            &&& s1.backing() == s0.backing()
        } else {
            &&& s1.backing() is Some
            &&& NewSlabAllocator::allocated(
                s0.backing()->0,
                s1.backing()->0,
                SLAB_SIZE,
                s0.backing()->0.allocation(SLAB_SIZE),
            )
            &&& r is None ==> s1.free_lists() == s0.free_lists()
            &&& r matches Some(a) ==> exists|p: int|
                {
                    &&& p + SLAB_SIZE <= s0.backing()->0.spec_upper_bound()
                    &&& a == p + (n - 1) * size
                    &&& s1.free_lists() == s0.free_lists().update(
                        d,
                        #[trigger] slab_chunks(p, size as int, (n - 1) as nat),
                    )
                }
        }
    }

    /// What `dealloc(ptr, size)` does to the free lists for a block below a
    /// page: `ptr` becomes the head of its size class.
    pub open spec fn dealloc_outcome(s0: Self, s1: Self, ptr: usize, size: u64) -> bool {
        let d = slab_depth(size) as int;
        &&& s1.free_lists() == s0.free_lists().update(d, s0.free_lists()[d].push(ptr))
        &&& s1.backing() == s0.backing()
    }
}

impl<NewSlabAllocator: BinaryAllocator> BinaryAllocator for SlabAllocator<NewSlabAllocator> {
    open spec fn wf(&self) -> bool {
        self.well_formed()
    }

    open spec fn spec_minimum_block_size(&self) -> u64 {
        MINIMUM_BLOCK_SIZE
    }

    open spec fn spec_max_depth(&self) -> u64 {
        MAX_DEPTH
    }

    open spec fn spec_upper_bound(&self) -> nat {
        usize::MAX as nat
    }

    /// A page or more needs the backing allocator; so does a smaller request
    /// whose size class has no free chunk left.
    open spec fn alloc_requires(&self, size: u64) -> bool {
        &&& size >= 1
        &&& size >= PAGE_SIZE ==> (self.backing() matches Some(b) && b.alloc_requires(size))
        &&& size < PAGE_SIZE && self.free_lists()[slab_depth(size) as int].len() == 0 ==> (
        self.backing() matches Some(b) && b.alloc_requires(SLAB_SIZE))
    }

    /// A page or more is served by the backing allocator, the free lists
    /// untouched; a smaller request as `allocate_outcome` says.
    open spec fn allocated(s0: Self, s1: Self, size: u64, r: Option<usize>) -> bool {
        if size >= PAGE_SIZE {
            &&& s1.free_lists() == s0.free_lists()
            &&& match s0.backing() {
                Some(b0) => s1.backing() matches Some(b1) && NewSlabAllocator::allocated(
                    b0,
                    b1,
                    size,
                    r,
                ),
                None => s1.backing() is None && r is None,
            }
        } else {
            Self::allocate_outcome(s0, s1, size, r)
        }
    }

    /// A page or more goes back to the backing allocator, the free lists
    /// untouched; a smaller block as `dealloc_outcome` says.
    open spec fn freed(s0: Self, s1: Self, ptr: usize, size: u64) -> bool {
        if size >= PAGE_SIZE {
            &&& s1.free_lists() == s0.free_lists()
            &&& match s0.backing() {
                Some(b0) => s1.backing() matches Some(b1) && NewSlabAllocator::freed(
                    b0,
                    b1,
                    ptr,
                    size,
                ),
                None => s1.backing() is None,
            }
        } else {
            Self::dealloc_outcome(s0, s1, ptr, size)
        }
    }

    /// A page or more comes from the backing allocator. A smaller request gets
    /// the head of its size class or, when that is empty, the highest chunk of
    /// the page that the backing allocator hands out.
    open spec fn allocation(&self, size: u64) -> Option<usize> {
        if size >= PAGE_SIZE {
            match self.backing() {
                Some(b) => b.allocation(size),
                None => None,
            }
        } else {
            let list = self.free_lists()[slab_depth(size) as int];
            if list.len() > 0 {
                Some(list.last())
            } else {
                match self.backing() {
                    Some(b) => match b.allocation(SLAB_SIZE) {
                        Some(p) => Some((p + ((SLAB_SIZE / size) - 1) * size) as usize),
                        None => None,
                    },
                    None => None,
                }
            }
        }
    }

    /// A page or more goes back to the backing allocator; a smaller block must
    /// lie at least a page below the top of the address space.
    open spec fn dealloc_requires(&self, ptr: usize, size: u64) -> bool {
        &&& size >= 1
        &&& size >= PAGE_SIZE ==> (self.backing() matches Some(b) && b.dealloc_requires(ptr, size))
        &&& size < PAGE_SIZE ==> ptr + PAGE_SIZE <= usize::MAX
    }

    /// Serves a request below a page from its size class and passes larger
    /// requests to the backing allocator.
    fn allocate(&mut self, size: u64) -> (r: Option<usize>)
        ensures
            size >= PAGE_SIZE ==> final(self).free_lists() == old(self).free_lists(),
            size < PAGE_SIZE ==> Self::allocate_outcome(*old(self), *final(self), size, r),
            size < PAGE_SIZE ==> (r matches Some(a) ==> a + PAGE_SIZE <= usize::MAX),
    {
        if size >= PAGE_SIZE {
            return match &mut self.new_slab_allocator {
                Some(b) => b.allocate(size),
                None => None,
            };
        }
        proof {
            lemma_slab_depth(size);
            assert(ilog2(7) == 2) by {
                assert(ilog2(1) == 0);
                assert(ilog2(3) == 1);
            }
        }
        let depth = match self.compute_depth(size) {
            Some(d) => d as usize,
            None => {
                return None;
            },
        };
        let ghost old_self = *self;
        let ghost lists = old_self.free_lists();
        if self.nodes[depth].len() > 0 {
            let mut list: Vec<usize> = Vec::new();
            std::mem::swap(&mut list, &mut self.nodes[depth]);
            let node = match list.pop() {
                Some(node) => node,
                None => vstd::pervasive::unreached(),
            };
            std::mem::swap(&mut list, &mut self.nodes[depth]);
            proof {
                let l = lists[depth as int];
                assert(l.drop_last() =~= l.subrange(0, l.len() - 1));
                Self::lemma_lists_after_swap(old_self, *self, depth as int, l.drop_last());
                let new_lists = self.free_lists();
                assert forall|d: int, i: int|
                    #![trigger new_lists[d][i]]
                    0 <= d < new_lists.len() && 0 <= i < new_lists[d].len() implies new_lists[d][i]
                    + PAGE_SIZE <= usize::MAX by {
                    assert(new_lists[d][i] == lists[d][i]);
                }
                assert(lists[depth as int][l.len() - 1] == node);
            }
            return Some(node);
        }
        match self.allocate_new_slab(size) {
            None => None,
            Some(chain) => {
                let ghost mid = *self;
                let ghost chain0 = chain@;
                let mut chain = chain;
                proof {
                    let n = (SLAB_SIZE / size) as nat;
                    assert(n >= 1) by (nonlinear_arith)
                        requires
                            n == SLAB_SIZE / size,
                            1 <= size < SLAB_SIZE,
                    ;
                    let p = old_self.backing()->0.allocation(SLAB_SIZE)->0 as int;
                    assert(chain0.len() == n);
                }
                let node = match chain.pop() {
                    Some(node) => node,
                    None => vstd::pervasive::unreached(),
                };
                std::mem::swap(&mut chain, &mut self.nodes[depth]);
                proof {
                    let n = (SLAB_SIZE / size) as nat;
                    let ub = old_self.backing()->0.spec_upper_bound();
                    let p = old_self.backing()->0.allocation(SLAB_SIZE)->0 as int;
                    assert(n >= 1) by (nonlinear_arith)
                        requires
                            n == SLAB_SIZE / size,
                            1 <= size < SLAB_SIZE,
                    ;
                    assert(n * size <= SLAB_SIZE) by (nonlinear_arith)
                        requires
                            n == SLAB_SIZE / size,
                            size >= 1,
                    ;
                    let rest = slab_chunks(p, size as int, (n - 1) as nat);
                    assert(chain0.drop_last() =~= rest);
                    assert((n - 1) * size <= n * size) by (nonlinear_arith)
                        requires
                            n >= 1,
                            size >= 1,
                    ;
                    assert(chain0[n - 1] == (p + (n - 1) * size) as usize);
                    assert(node == p + (n - 1) * size);
                    assert(mid.free_lists() == lists);
                    assert(self.nodes@[depth as int]@ == rest);
                    Self::lemma_lists_after_swap(mid, *self, depth as int, rest);
                    let new_lists = self.free_lists();
                    assert forall|d: int, i: int|
                        #![trigger new_lists[d][i]]
                        0 <= d < new_lists.len() && 0 <= i < new_lists[d].len() implies new_lists[d][i]
                        + PAGE_SIZE <= usize::MAX by {
                        if d == depth {
                            assert(i * size <= n * size) by (nonlinear_arith)
                                requires
                                    0 <= i < n,
                                    size >= 1,
                            ;
                            assert(new_lists[d][i] == rest[i]);
                            assert(new_lists[d][i] == p + i * size);
                        } else {
                            assert(new_lists[d][i] == lists[d][i]);
                        }
                    }
                    assert((n - 1) * size <= n * size) by (nonlinear_arith)
                        requires
                            n >= 1,
                            size >= 1,
                    ;
                    assert(lists[depth as int] =~= Seq::<usize>::empty());
                    assert(self.free_lists() == lists.update(depth as int, rest));
                }
                Some(node)
            },
        }
    }

    /// Gives a block below a page back to its size class; larger blocks go
    /// back to the backing allocator.
    fn dealloc(&mut self, ptr: usize, size: u64)
        ensures
            size >= PAGE_SIZE ==> final(self).free_lists() == old(self).free_lists(),
            size < PAGE_SIZE ==> Self::dealloc_outcome(*old(self), *final(self), ptr, size),
    {
        if size >= PAGE_SIZE {
            match &mut self.new_slab_allocator {
                Some(b) => b.dealloc(ptr, size),
                None => {},
            }
            return ;
        }
        proof {
            lemma_slab_depth(size);
            assert(ilog2(7) == 2) by {
                assert(ilog2(1) == 0);
                assert(ilog2(3) == 1);
            }
        }
        let depth = match self.compute_depth(size) {
            Some(d) => d as usize,
            None => vstd::pervasive::unreached(),
        };
        let ghost old_self = *self;
        let ghost lists = old_self.free_lists();
        let mut list: Vec<usize> = Vec::new();
        std::mem::swap(&mut list, &mut self.nodes[depth]);
        list.push(ptr);
        std::mem::swap(&mut list, &mut self.nodes[depth]);
        proof {
            Self::lemma_lists_after_swap(
                old_self,
                *self,
                depth as int,
                lists[depth as int].push(ptr),
            );
            let new_lists = self.free_lists();
            let n = lists[depth as int].len() as int;
            assert forall|d: int, i: int|
                #![trigger new_lists[d][i]]
                0 <= d < new_lists.len() && 0 <= i < new_lists[d].len() implies new_lists[d][i]
                + PAGE_SIZE <= usize::MAX by {
                if d == depth && i == n {
                    assert(new_lists[d][i] == ptr);
                } else {
                    assert(new_lists[d][i] == lists[d][i]);
                }
            }
        }
    }

    fn minimum_block_size(&self) -> (r: u64) {
        MINIMUM_BLOCK_SIZE
    }

    fn max_depth(&self) -> (r: u64) {
        MAX_DEPTH
    }
}

impl<NewSlabAllocator: BinaryAllocator> SlabAllocator<NewSlabAllocator> {
    /// A block below a page that was just given back is the next one handed
    /// out for the same size, and handing it out restores the free lists.
    pub proof fn lemma_dealloc_then_allocate_returns_it(
        s0: Self,
        s1: Self,
        s2: Self,
        ptr: usize,
        size: u64,
        r: Option<usize>,
    )
        requires
            1 <= size < PAGE_SIZE,
            s0.well_formed(),
            Self::dealloc_outcome(s0, s1, ptr, size),
            Self::allocate_outcome(s1, s2, size, r),
        ensures
            r == Some(ptr),
            s2.free_lists() == s0.free_lists(),
            s2.backing() == s0.backing(),
    {
        lemma_slab_depth(size);
        let d = slab_depth(size) as int;
        let l = s0.free_lists()[d];
        assert(s1.free_lists()[d] == l.push(ptr));
        assert(l.push(ptr).drop_last() =~= l);
        assert(s2.free_lists() =~= s0.free_lists());
    }

    /// Once the backing allocator is given, a request of a page or more is
    /// the backing allocator's own: it hands out what the backing allocator
    /// would, the backing allocator's state changes as its own `allocate`
    /// does, and the free lists stay as they were.
    pub proof fn lemma_large_requests_go_to_backing(
        s0: Self,
        s1: Self,
        backing: NewSlabAllocator,
        size: u64,
        r: Option<usize>,
    )
        requires
            s0.backing() == Some(backing),
            size >= PAGE_SIZE,
            Self::allocated(s0, s1, size, r),
        ensures
            s0.allocation(size) == backing.allocation(size),
            s1.free_lists() == s0.free_lists(),
            s1.backing() is Some,
            NewSlabAllocator::allocated(backing, s1.backing()->0, size, r),
    {
    }

    /// Once the backing allocator is given, a block of a page or more that
    /// is given back goes to it: its state changes as its own `dealloc` does,
    /// and the free lists stay as they were.
    pub proof fn lemma_large_blocks_go_to_backing(
        s0: Self,
        s1: Self,
        backing: NewSlabAllocator,
        ptr: usize,
        size: u64,
    )
        requires
            s0.backing() == Some(backing),
            size >= PAGE_SIZE,
            Self::freed(s0, s1, ptr, size),
        ensures
            s1.free_lists() == s0.free_lists(),
            s1.backing() is Some,
            NewSlabAllocator::freed(backing, s1.backing()->0, ptr, size),
    {
    }

    /// Giving back a block below a page that was taken from a non-empty size
    /// class restores the free lists.
    pub proof fn lemma_allocate_then_dealloc_restores(
        s0: Self,
        s1: Self,
        s2: Self,
        size: u64,
        a: usize,
    )
        requires
            1 <= size < PAGE_SIZE,
            s0.well_formed(),
            s0.free_lists()[slab_depth(size) as int].len() > 0,
            Self::allocate_outcome(s0, s1, size, Some(a)),
            Self::dealloc_outcome(s1, s2, a, size),
        ensures
            s2.free_lists() == s0.free_lists(),
            s2.backing() == s0.backing(),
    {
        lemma_slab_depth(size);
        let d = slab_depth(size) as int;
        let l = s0.free_lists()[d];
        assert(l.drop_last().push(l.last()) =~= l);
        assert(s2.free_lists() =~= s0.free_lists());
    }
}

/// The chunks of a slab lie in the slab's page, in increasing order, and no
/// two of them share a byte.
pub proof fn lemma_slab_chunks_apart(p: int, size: int, i: int, j: int)
    requires
        0 <= p,
        1 <= size < SLAB_SIZE,
        0 <= i < j < (SLAB_SIZE as int) / size,
    ensures
        p + i * size + size <= p + j * size,
        p + j * size + size <= p + SLAB_SIZE,
{
    let n = (SLAB_SIZE as int) / size;
    assert(i * size + size <= j * size) by (nonlinear_arith)
        requires
            i < j,
            size >= 1,
    ;
    assert(j * size + size <= n * size) by (nonlinear_arith)
        requires
            j < n,
            size >= 1,
    ;
    assert(n * size <= SLAB_SIZE) by (nonlinear_arith)
        requires
            n == (SLAB_SIZE as int) / size,
            size >= 1,
    ;
}

} // verus!
