//! The table of threads the scheduler runs: 128 slots, with a mask of the
//! filled slots, one of the slots whose thread may be picked to run, and one
//! of the slots whose thread should die.
use vstd::prelude::*;

use crate::asynchronous::thread::ThreadId;

verus! {

/// The number of slots.
pub const MAX_THREADS: usize = 128;

/// Whether bit `i` of `mask` is set.
pub open spec fn has_bit(mask: u128, i: int) -> bool {
    (mask >> (i as u128)) & 1u128 == 1u128
}

/// `mask` with bit `i` set to `value`.
pub open spec fn with_bit(mask: u128, i: int, value: bool) -> u128 {
    if value {
        mask | (1u128 << (i as u128))
    } else {
        mask & !(1u128 << (i as u128))
    }
}

/// Setting bit `i` changes bit `i` alone.
pub proof fn lemma_with_bit(mask: u128, i: int, value: bool)
    requires
        0 <= i < 128,
    ensures
        forall|j: int|
            0 <= j < 128 ==> #[trigger] has_bit(with_bit(mask, i, value), j) == if j == i {
                value
            } else {
                has_bit(mask, j)
            },
{
    assert forall|j: int| 0 <= j < 128 implies #[trigger] has_bit(with_bit(mask, i, value), j)
        == if j == i {
        value
    } else {
        has_bit(mask, j)
    } by {
        let a = i as u128;
        let b = j as u128;
        assert(((mask | (1u128 << a)) >> b) & 1u128 == if b == a {
            1u128
        } else {
            (mask >> b) & 1u128
        }) by (bit_vector)
            requires
                a < 128,
                b < 128,
        ;
        assert(((mask & !(1u128 << a)) >> b) & 1u128 == if b == a {
            0u128
        } else {
            (mask >> b) & 1u128
        }) by (bit_vector)
            requires
                a < 128,
                b < 128,
        ;
        assert((mask >> b) & 1u128 == 1u128 || (mask >> b) & 1u128 == 0u128) by (bit_vector);
    }
}

/// Bit `index` of `mask`.
fn get_bit(mask: u128, index: usize) -> (r: bool)
    requires
        index < 128,
    ensures
        r == has_bit(mask, index as int),
{
    (mask >> (index as u128)) & 1 == 1
}

/// `mask` with bit `index` set to `value`.
fn set_bit(mask: u128, index: usize, value: bool) -> (r: u128)
    requires
        index < 128,
    ensures
        r == with_bit(mask, index as int, value),
{
    if value {
        mask | (1u128 << (index as u128))
    } else {
        mask & !(1u128 << (index as u128))
    }
}

/// The offset from `start` (cyclically over the 128 slots) of the first set
/// bit of `mask`, looking from offset `k` on; 128 when there is none.
pub open spec fn first_set_from(mask: u128, start: int, k: int) -> int
    decreases 128 - k,
{
    if k >= 128 {
        128
    } else if has_bit(mask, (start + k) % 128) {
        k
    } else {
        first_set_from(mask, start, k + 1)
    }
}

/// The first set bit from offset `k` on is at offset `k` or later, and when
/// it is below 128 its bit is set.
pub proof fn lemma_first_set_from(mask: u128, start: int, k: int)
    requires
        0 <= k <= 128,
    ensures
        k <= first_set_from(mask, start, k) <= 128,
        first_set_from(mask, start, k) < 128 ==> has_bit(
            mask,
            (start + first_set_from(mask, start, k)) % 128,
        ),
    decreases 128 - k,
{
    if k < 128 && !has_bit(mask, (start + k) % 128) {
        lemma_first_set_from(mask, start, k + 1);
    }
}

/// The table of threads.
pub struct ThreadsArray<T> {
    threads: Vec<Option<(ThreadId, T)>>,
    fill_mask: u128,
    available_mask: u128,
    should_die_mask: u128,
}

impl<T> ThreadsArray<T> {
    /// The table has its 128 slots, and a slot holds a thread exactly when its
    /// bit of the fill mask is set.
    pub closed spec fn wf(&self) -> bool {
        &&& self.threads@.len() == MAX_THREADS
        &&& forall|i: int|
            0 <= i < MAX_THREADS ==> (#[trigger] self.threads@[i] is Some <==> has_bit(
                self.fill_mask,
                i,
            ))
    }

    /// The thread in slot `i`, with its id.
    pub closed spec fn slot(&self, i: int) -> Option<(ThreadId, T)> {
        self.threads@[i]
    }

    pub closed spec fn spec_fill_mask(&self) -> u128 {
        self.fill_mask
    }

    pub closed spec fn spec_available_mask(&self) -> u128 {
        self.available_mask
    }

    pub closed spec fn spec_should_die_mask(&self) -> u128 {
        self.should_die_mask
    }

    /// An empty table.
    pub fn new() -> (r: Self)
        ensures
            r.wf(),
            r.spec_fill_mask() == 0,
            r.spec_available_mask() == 0,
            r.spec_should_die_mask() == 0,
            forall|i: int| 0 <= i < MAX_THREADS ==> #[trigger] r.slot(i) is None,
    {
        let mut threads: Vec<Option<(ThreadId, T)>> = Vec::new();
        let mut i: usize = 0;
        while i < MAX_THREADS
            invariant
                i <= MAX_THREADS,
                threads@.len() == i,
                forall|k: int| 0 <= k < i ==> #[trigger] threads@[k] is None,
            decreases MAX_THREADS - i,
        {
            threads.push(None);
            i = i + 1;
        }
        let r = ThreadsArray { threads, fill_mask: 0, available_mask: 0, should_die_mask: 0 };
        assert forall|k: int| 0 <= k < MAX_THREADS implies !has_bit(0u128, k) by {
            let b = k as u128;
            assert((0u128 >> b) & 1u128 == 0u128) by (bit_vector);
        }
        r
    }

    /// Puts `thread`, of id `id`, in the first empty slot and makes it
    /// available; `None`, with the table unchanged, when every slot is taken.
    pub fn add(&mut self, id: ThreadId, thread: T) -> (r: Option<()>)
        requires
            old(self).wf(),
        ensures
            final(self).wf(),
            final(self).spec_should_die_mask() == old(self).spec_should_die_mask(),
            first_set_from(!old(self).spec_fill_mask(), 0, 0) == 128 ==> r is None && *final(self)
                == *old(self),
            ({
                let index = first_set_from(!old(self).spec_fill_mask(), 0, 0);
                index < 128 ==> {
                    &&& r is Some
                    &&& final(self).slot(index) == Some((id, thread))
                    &&& forall|i: int|
                        0 <= i < MAX_THREADS && i != index ==> #[trigger] final(self).slot(i) == old(
                            self,
                        ).slot(i)
                    &&& final(self).spec_fill_mask() == with_bit(old(self).spec_fill_mask(), index, true)
                    &&& final(self).spec_available_mask() == with_bit(
                        old(self).spec_available_mask(),
                        index,
                        true,
                    )
                }
            }),
    {
        let mut index: usize = 0;
        while index < MAX_THREADS && get_bit(self.fill_mask, index)
            invariant
                index <= MAX_THREADS,
                first_set_from(!self.fill_mask, 0, 0) == first_set_from(!self.fill_mask, 0, index as int),
            decreases MAX_THREADS - index,
        {
            proof {
                let m = self.fill_mask;
                let b = index as u128;
                assert(((!m) >> b) & 1u128 == 1u128 <==> !((m >> b) & 1u128 == 1u128)) by (bit_vector)
                    requires
                        b < 128,
                ;
                assert((index as int + 0) % 128 == index as int);
            }
            index = index + 1;
        }
        if index == MAX_THREADS {
            return None;
        }
        proof {
            let m = self.fill_mask;
            let b = index as u128;
            assert(((!m) >> b) & 1u128 == 1u128 <==> !((m >> b) & 1u128 == 1u128)) by (bit_vector)
                requires
                    b < 128,
            ;
            assert((index as int + 0) % 128 == index as int);
            lemma_with_bit(self.fill_mask, index as int, true);
        }
        self.threads.set(index, Some((id, thread)));
        self.fill_mask = set_bit(self.fill_mask, index, true);
        self.available_mask = set_bit(self.available_mask, index, true);
        Some(())
    }

    /// Picks the next available thread, looking cyclically from slot
    /// `*last_index` on, makes it unavailable and moves `*last_index` past it.
    pub fn pick(&mut self, last_index: &mut u32) -> (r: usize)
        requires
            old(self).wf(),
            *old(last_index) < MAX_THREADS,
            first_set_from(old(self).spec_available_mask(), *old(last_index) as int, 0) < 128,
        ensures
            final(self).wf(),
            ({
                let k = first_set_from(old(self).spec_available_mask(), *old(last_index) as int, 0);
                r == (*old(last_index) + k) % 128
            }),
            *final(last_index) == (r + 1) % 128,
            final(self).spec_available_mask() == with_bit(old(self).spec_available_mask(), r as int, false),
            final(self).spec_fill_mask() == old(self).spec_fill_mask(),
            final(self).spec_should_die_mask() == old(self).spec_should_die_mask(),
            forall|i: int| #[trigger] final(self).slot(i) == old(self).slot(i),
    {
        let ghost start = *last_index as int;
        let ghost mut k: int = 0;
        let index: usize;
        loop
            invariant_except_break
                *last_index == (start + k) % 128,
            invariant
                0 <= start < 128,
                0 <= k < 128,
                first_set_from(self.available_mask, start, 0) == first_set_from(
                    self.available_mask,
                    start,
                    k,
                ),
                first_set_from(self.available_mask, start, 0) < 128,
            ensures
                index == (start + first_set_from(self.available_mask, start, 0)) % 128,
                *last_index == (index + 1) % 128,
            decreases 128 - k,
        {
            let current = *last_index;
            *last_index = (current + 1) % 128;
            if get_bit(self.available_mask, current as usize) {
                index = current as usize;
                break;
            }
            proof {
                lemma_first_set_from(self.available_mask, start, k + 1);
                assert((start + k + 1) % 128 == (current + 1) % 128);
                k = k + 1;
            }
        }
        proof {
            lemma_with_bit(self.available_mask, index as int, false);
        }
        self.available_mask = set_bit(self.available_mask, index, false);
        index
    }

    /// Marks to die every thread whose id `filter` accepts: a thread's bit of
    /// the should-die mask is set when the filter answers `true` for its id,
    /// and stays as it was when it answers `false`.
    pub fn kill<F: Fn(ThreadId) -> bool>(&mut self, filter: F)
        requires
            old(self).wf(),
            forall|id: ThreadId| #[trigger] filter.requires((id,)),
        ensures
            final(self).wf(),
            final(self).spec_fill_mask() == old(self).spec_fill_mask(),
            final(self).spec_available_mask() == old(self).spec_available_mask(),
            forall|i: int| #[trigger] final(self).slot(i) == old(self).slot(i),
            forall|i: int|
                0 <= i < MAX_THREADS ==> {
                    let before = has_bit(old(self).spec_should_die_mask(), i);
                    let after = #[trigger] has_bit(final(self).spec_should_die_mask(), i);
                    &&& before ==> after
                    &&& old(self).slot(i) is None ==> after == before
                    &&& !before ==> (old(self).slot(i) matches Some(p) ==> filter.ensures((p.0,), after))
                },
    {
        let mut mask: u128 = 0;
        let mut index: usize = 0;
        assert forall|i: int| 0 <= i < MAX_THREADS implies !has_bit(0u128, i) by {
            let b = i as u128;
            assert((0u128 >> b) & 1u128 == 0u128) by (bit_vector);
        }
        while index < MAX_THREADS
            invariant
                self.wf(),
                self.threads@ == old(self).threads@,
                self.should_die_mask == old(self).should_die_mask,
                index <= MAX_THREADS,
                forall|id: ThreadId| #[trigger] filter.requires((id,)),
                forall|i: int|
                    0 <= i < MAX_THREADS ==> #[trigger] has_bit(mask, i) ==> i < index
                        && self.threads@[i] is Some,
                forall|i: int|
                    0 <= i < index ==> (#[trigger] self.threads@[i] matches Some(p) ==> filter.ensures(
                        (p.0,),
                        has_bit(mask, i),
                    )),
            decreases MAX_THREADS - index,
        {
            let selected = match &self.threads[index] {
                Some(p) => filter(p.0),
                None => false,
            };
            proof {
                lemma_with_bit(mask, index as int, true);
            }
            if selected {
                mask = set_bit(mask, index, true);
            }
            index = index + 1;
        }
        let ghost old_mask = self.should_die_mask;
        self.should_die_mask = self.should_die_mask | mask;
        proof {
            assert forall|i: int| 0 <= i < MAX_THREADS implies #[trigger] has_bit(
                self.should_die_mask,
                i,
            ) == (has_bit(old_mask, i) || has_bit(mask, i)) by {
                let b = i as u128;
                assert(((old_mask | mask) >> b) & 1u128 == 1u128 <==> ((old_mask >> b) & 1u128
                    == 1u128 || (mask >> b) & 1u128 == 1u128)) by (bit_vector);
            }
        }
    }

    /// Makes the thread of slot `index` available again.
    pub fn make_available(&mut self, index: usize)
        requires
            old(self).wf(),
            index < MAX_THREADS,
            has_bit(old(self).spec_fill_mask(), index as int),
            !has_bit(old(self).spec_available_mask(), index as int),
        ensures
            final(self).wf(),
            final(self).spec_available_mask() == with_bit(old(self).spec_available_mask(), index as int, true),
            final(self).spec_fill_mask() == old(self).spec_fill_mask(),
            final(self).spec_should_die_mask() == old(self).spec_should_die_mask(),
            forall|i: int| #[trigger] final(self).slot(i) == old(self).slot(i),
    {
        self.available_mask = set_bit(self.available_mask, index, true);
    }

    /// Takes the thread out of slot `index`.
    pub fn remove(&mut self, index: usize) -> (r: T)
        requires
            old(self).wf(),
            index < MAX_THREADS,
            has_bit(old(self).spec_fill_mask(), index as int),
        ensures
            final(self).wf(),
            old(self).slot(index as int) matches Some(p) && r == p.1,
            final(self).slot(index as int) is None,
            forall|i: int|
                0 <= i < MAX_THREADS && i != index ==> #[trigger] final(self).slot(i) == old(
                    self,
                ).slot(i),
            final(self).spec_fill_mask() == with_bit(old(self).spec_fill_mask(), index as int, false),
            final(self).spec_available_mask() == old(self).spec_available_mask(),
            final(self).spec_should_die_mask() == old(self).spec_should_die_mask(),
    {
        proof {
            lemma_with_bit(self.fill_mask, index as int, false);
        }
        self.fill_mask = set_bit(self.fill_mask, index, false);
        let mut slot: Option<(ThreadId, T)> = None;
        std::mem::swap(&mut slot, &mut self.threads[index]);
        match slot {
            Some(p) => p.1,
            None => vstd::pervasive::unreached(),
        }
    }

    /// Whether slot `index` holds a thread.
    pub fn is_filled(&self, index: usize) -> (r: bool)
        requires
            index < MAX_THREADS,
        ensures
            r == has_bit(self.spec_fill_mask(), index as int),
    {
        get_bit(self.fill_mask, index)
    }

    /// Whether the thread of slot `index` may be picked.
    pub fn is_available(&self, index: usize) -> (r: bool)
        requires
            index < MAX_THREADS,
        ensures
            r == has_bit(self.spec_available_mask(), index as int),
    {
        get_bit(self.available_mask, index)
    }

    /// Whether `pick` from slot `last_index` finds a thread: whether any
    /// thread is available.
    pub fn can_pick(&self, last_index: u32) -> (r: bool)
        requires
            last_index < MAX_THREADS,
        ensures
            r == (first_set_from(self.spec_available_mask(), last_index as int, 0) < 128),
    {
        let mut k: u32 = 0;
        while k < 128
            invariant
                last_index < 128,
                k <= 128,
                first_set_from(self.available_mask, last_index as int, 0) == first_set_from(
                    self.available_mask,
                    last_index as int,
                    k as int,
                ),
            decreases 128 - k,
        {
            if get_bit(self.available_mask, ((last_index + k) % 128) as usize) {
                return true;
            }
            k = k + 1;
        }
        false
    }

    /// Whether the thread of slot `index` should die.
    pub fn should_die(&self, index: usize) -> (r: bool)
        requires
            index < MAX_THREADS,
        ensures
            r == has_bit(self.spec_should_die_mask(), index as int),
    {
        get_bit(self.should_die_mask, index)
    }

    /// The thread of slot `index`, if any.
    pub fn get(&self, index: usize) -> (r: Option<&T>)
        requires
            self.wf(),
            index < MAX_THREADS,
        ensures
            match self.slot(index as int) {
                Some(p) => r == Some(&p.1),
                None => r is None,
            },
    {
        match &self.threads[index] {
            Some(p) => Some(&p.1),
            None => None,
        }
    }
}

/// Making a picked thread available again gives back the availability mask
/// from before the pick.
pub proof fn lemma_pick_then_make_available(mask: u128, index: int)
    requires
        0 <= index < 128,
        has_bit(mask, index),
    ensures
        with_bit(with_bit(mask, index, false), index, true) == mask,
{
    let b = index as u128;
    assert((mask >> b) & 1u128 == 1u128 ==> (mask & !(1u128 << b)) | (1u128 << b) == mask)
        by (bit_vector)
        requires
            b < 128,
    ;
}

} // verus!
