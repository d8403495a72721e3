//! A bitmap block: 64 little-endian words, bit `j` of word `i` standing for
//! entry `64 * i + j`; a set bit marks an entry in use.
use vstd::prelude::*;

use crate::bytes::read_le;
use crate::io::disk::inode::word;
use crate::io::disk::BLOCK_SIZE;
use vstd::std_specs::bits::{axiom_u64_trailing_ones, u64_trailing_ones};

verus! {

/// Whether bit `p` of the bitmap `words` is set.
pub open spec fn bit_set(words: Seq<u64>, p: int) -> bool {
    (words[p / 64] >> (p % 64) as u64) & 1u64 == 1u64
}

/// The first clear bit from word `i` on: the lowest clear bit of the first
/// word that is not all ones.
pub open spec fn first_clear_from(words: Seq<u64>, i: int) -> Option<int>
    decreases words.len() - i,
{
    if i < 0 || i >= words.len() {
        None
    } else if words[i] != 0xffff_ffff_ffff_ffffu64 {
        Some(64 * i + u64_trailing_ones(words[i]))
    } else {
        first_clear_from(words, i + 1)
    }
}

/// The first clear bit of the bitmap, if any.
pub open spec fn first_clear(words: Seq<u64>) -> Option<int> {
    first_clear_from(words, 0)
}

/// The first clear bit is the least clear bit: every bit before it is set,
/// and when there is none, every bit is set.
pub proof fn lemma_first_clear_is_least(words: Seq<u64>)
    ensures
        first_clear(words) matches Some(p) ==> {
            &&& 0 <= p < 64 * words.len()
            &&& !bit_set(words, p)
            &&& forall|q: int| 0 <= q < p ==> #[trigger] bit_set(words, q)
        },
        first_clear(words) is None ==> forall|q: int|
            0 <= q < 64 * words.len() ==> #[trigger] bit_set(words, q),
{
    lemma_first_clear_from(words, 0);
}

proof fn lemma_full_word(w: u64, j: u64)
    requires
        w == 0xffff_ffff_ffff_ffffu64,
        j < 64,
    ensures
        (w >> j) & 1u64 == 1u64,
{
    assert((0xffff_ffff_ffff_ffffu64 >> j) & 1u64 == 1u64) by (bit_vector)
        requires
            j < 64,
    ;
}

proof fn lemma_first_clear_from(words: Seq<u64>, i: int)
    requires
        0 <= i <= words.len(),
        forall|q: int| 0 <= q < 64 * i ==> #[trigger] bit_set(words, q),
    ensures
        first_clear_from(words, i) matches Some(p) ==> {
            &&& 64 * i <= p < 64 * words.len()
            &&& !bit_set(words, p)
            &&& forall|q: int| 0 <= q < p ==> #[trigger] bit_set(words, q)
        },
        first_clear_from(words, i) is None ==> forall|q: int|
            0 <= q < 64 * words.len() ==> #[trigger] bit_set(words, q),
    decreases words.len() - i,
{
    if i < words.len() {
        let w = words[i];
        axiom_u64_trailing_ones(w);
        let t = u64_trailing_ones(w);
        if w != 0xffff_ffff_ffff_ffffu64 {
            let p = 64 * i + t;
            assert(p / 64 == i && p % 64 == t) by (nonlinear_arith)
                requires
                    p == 64 * i + t,
                    0 <= t < 64,
            ;
            assert forall|q: int| 0 <= q < p implies #[trigger] bit_set(words, q) by {
                if q >= 64 * i {
                    let j = q - 64 * i;
                    assert(q / 64 == i && q % 64 == j) by (nonlinear_arith)
                        requires
                            q == 64 * i + j,
                            0 <= j < 64,
                    ;
                    assert((w >> (j as u64)) & 1u64 == 1u64);
                }
            }
        } else {
            assert forall|q: int| 0 <= q < 64 * (i + 1) implies #[trigger] bit_set(words, q) by {
                if q >= 64 * i {
                    let j = q - 64 * i;
                    assert(q / 64 == i && q % 64 == j) by (nonlinear_arith)
                        requires
                            q == 64 * i + j,
                            0 <= j < 64,
                    ;
                    lemma_full_word(w, j as u64);
                }
            }
            lemma_first_clear_from(words, i + 1);
        }
    }
}

/// A bitmap block, read as its 64 words.
pub struct VirtDiskBitmap {
    bitmap: Vec<u64>,
}

impl View for VirtDiskBitmap {
    type V = Seq<u64>;

    closed spec fn view(&self) -> Seq<u64> {
        self.bitmap@
    }
}

impl VirtDiskBitmap {
    /// Reads the words of a bitmap block.
    pub fn from_buffer(buffer: &[u8; BLOCK_SIZE]) -> (r: Self)
        ensures
            r@.len() == BLOCK_SIZE / 8,
            forall|i: int| 0 <= i < BLOCK_SIZE / 8 ==> r@[i] == word(buffer@, i),
    {
        let mut bitmap: Vec<u64> = Vec::new();
        let mut i: usize = 0;
        while i < BLOCK_SIZE / 8
            invariant
                i <= BLOCK_SIZE / 8,
                buffer@.len() == BLOCK_SIZE,
                bitmap@.len() == i,
                forall|k: int| 0 <= k < i ==> bitmap@[k] == word(buffer@, k),
            decreases BLOCK_SIZE / 8 - i,
        {
            bitmap.push(read_le(buffer, 8 * i, 8));
            i = i + 1;
        }
        VirtDiskBitmap { bitmap }
    }

    /// The first clear bit, if any.
    pub fn find_zero(&self) -> (r: Option<usize>)
        requires
            64 * self@.len() <= usize::MAX,
        ensures
            r matches Some(p) ==> first_clear(self@) == Some(p as int),
            r is None ==> first_clear(self@) is None,
    {
        let mut index: usize = 0;
        while index < self.bitmap.len()
            invariant
                64 * self@.len() <= usize::MAX,
                index <= self@.len(),
                first_clear(self@) == first_clear_from(self@, index as int),
            decreases self@.len() - index,
        {
            let bit_index = self.bitmap[index].trailing_ones() as usize;
            proof {
                axiom_u64_trailing_ones(self@[index as int]);
            }
            if bit_index != 64 {
                return Some(index * 64 + bit_index);
            }
            index = index + 1;
        }
        None
    }
}

} // verus!
