//! Little-endian integers stored in byte buffers.
use vstd::prelude::*;

use crate::bits::{exp2, lemma_exp2_64, lemma_exp2_adds, lemma_exp2_monotonic, lemma_exp2_pos};
use vstd::string::StringSliceAdditionalSpecFns;
use vstd::utf8::valid_utf8;

verus! {

/// The little-endian value of a byte sequence.
pub open spec fn le(s: Seq<u8>) -> nat
    decreases s.len(),
{
    if s.len() == 0 {
        0
    } else {
        (s[0] as nat) + 256 * le(s.drop_first())
    }
}

/// The little-endian value of the `n` bytes of `s` at `at`.
pub open spec fn le_at(s: Seq<u8>, at: int, n: int) -> nat {
    le(s.subrange(at, at + n))
}

/// A value of `n` bytes is below `2^(8n)`.
pub proof fn lemma_le_bound(s: Seq<u8>)
    ensures
        le(s) < exp2(8 * s.len()),
    decreases s.len(),
{
    if s.len() > 0 {
        lemma_le_bound(s.drop_first());
        let m = 8 * (s.len() - 1);
        lemma_exp2_adds(8, m as nat);
        assert(exp2(8) == 256) by {
            reveal_with_fuel(exp2, 9);
        }
        assert(8 * s.len() == 8 + m);
        assert(le(s) <= 255 + 256 * (exp2(m as nat) - 1)) by (nonlinear_arith)
            requires
                le(s) == (s[0] as nat) + 256 * le(s.drop_first()),
                s[0] <= 255,
                le(s.drop_first()) <= exp2(m as nat) - 1,
        ;
    }
}

/// Splitting off the first byte of a window.
pub proof fn lemma_le_at_step(s: Seq<u8>, at: int, n: int)
    requires
        0 <= at,
        1 <= n,
        at + n <= s.len(),
    ensures
        le_at(s, at, n) == s[at] + 256 * le_at(s, at + 1, n - 1),
{
    assert(s.subrange(at, at + n).drop_first() =~= s.subrange(at + 1, at + n));
}

/// Reads the little-endian value of the `n` bytes at `at`.
pub fn read_le(bytes: &[u8], at: usize, n: usize) -> (r: u64)
    requires
        n <= 8,
        at + n <= bytes@.len(),
    ensures
        r == le_at(bytes@, at as int, n as int),
{
    let len = bytes.len();
    let mut v: u64 = 0;
    let mut k: usize = n;
    proof {
        assert(bytes@.subrange(at + n, at + n) =~= Seq::<u8>::empty());
    }
    while k > 0
        invariant
            n <= 8,
            at + n <= bytes@.len(),
            bytes@.len() == len,
            k <= n,
            v == le_at(bytes@, (at + k) as int, (n - k) as int),
        decreases k,
    {
        k = k - 1;
        proof {
            lemma_le_at_step(bytes@, (at + k) as int, (n - k) as int);
            lemma_le_bound(bytes@.subrange((at + k) as int, (at + n) as int));
            lemma_exp2_64();
            lemma_exp2_monotonic((8 * (n - k)) as nat, 64);
            assert(bytes@.subrange((at + k) as int, (at + n) as int).len() == n - k);
        }
        v = v * 256 + bytes[at + k] as u64;
    }
    v
}

/// `256^n`.
pub open spec fn pow256(n: nat) -> nat
    decreases n,
{
    if n == 0 {
        1
    } else {
        256 * pow256((n - 1) as nat)
    }
}

/// The `n` little-endian bytes of `v` (modulo `256^n`).
pub open spec fn le_bytes(v: nat, n: nat) -> Seq<u8> {
    Seq::new(n, |j: int| ((v / pow256(j as nat)) % 256) as u8)
}

pub proof fn lemma_pow256_pos(n: nat)
    ensures
        pow256(n) >= 1,
    decreases n,
{
    if n > 0 {
        lemma_pow256_pos((n - 1) as nat);
    }
}

/// `256^8` is `2^64`.
pub proof fn lemma_pow256_8()
    ensures
        pow256(8) == 0x1_0000_0000_0000_0000,
{
    reveal_with_fuel(pow256, 9);
}

/// The little-endian bytes of `v` give back `v` modulo `256^n`.
pub proof fn lemma_le_of_le_bytes(v: nat, n: nat)
    ensures
        le(le_bytes(v, n)) == v % pow256(n),
    decreases n,
{
    if n > 0 {
        let s = le_bytes(v, n);
        let t = le_bytes(v / 256, (n - 1) as nat);
        lemma_pow256_pos((n - 1) as nat);
        assert forall|j: int| 0 <= j < n - 1 implies #[trigger] s.drop_first()[j] == t[j] by {
            lemma_pow256_pos(j as nat);
            vstd::arithmetic::div_mod::lemma_div_denominator(v as int, 256, pow256(j as nat) as int);
            assert(pow256((j + 1) as nat) == 256 * pow256(j as nat));
        }
        assert(s.drop_first() =~= t);
        lemma_le_of_le_bytes(v / 256, (n - 1) as nat);
        assert(s[0] == v % 256) by {
            assert(pow256(0) == 1);
            assert(v / 1 == v);
        }
        vstd::arithmetic::div_mod::lemma_mod_breakdown(v as int, 256, pow256((n - 1) as nat) as int);
    } else {
        assert(pow256(0) == 1);
    }
}

/// Writes the 8 little-endian bytes of `v` at `at`.
pub fn write_le(buf: &mut [u8; 512], at: usize, v: u64)
    requires
        at + 8 <= 512,
    ensures
        final(buf)@ == old(buf)@.subrange(0, at as int) + le_bytes(v as nat, 8) + old(buf)@.subrange(
            at + 8,
            512,
        ),
        le_at(final(buf)@, at as int, 8) == v,
{
    let mut rem: u64 = v;
    let mut k: usize = 0;
    assert(pow256(0) == 1);
    assert(v as nat / 1 == v);
    while k < 8
        invariant
            at + 8 <= 512,
            k <= 8,
            buf@.len() == 512,
            rem == v as nat / pow256(k as nat),
            forall|j: int| 0 <= j < at || at + 8 <= j < 512 ==> buf@[j] == old(buf)@[j],
            forall|j: int| 0 <= j < k ==> buf@[at + j] == le_bytes(v as nat, 8)[j],
        decreases 8 - k,
    {
        buf[at + k] = (rem % 256) as u8;
        proof {
            lemma_pow256_pos(k as nat);
            vstd::arithmetic::div_mod::lemma_div_denominator(v as int, pow256(k as nat) as int, 256);
            assert(pow256((k + 1) as nat) == 256 * pow256(k as nat));
            assert(pow256(k as nat) * 256 == 256 * pow256(k as nat));
        }
        rem = rem / 256;
        k = k + 1;
    }
    proof {
        assert(buf@ =~= old(buf)@.subrange(0, at as int) + le_bytes(v as nat, 8) + old(buf)@.subrange(
            at + 8,
            512,
        ));
        assert(buf@.subrange(at as int, at + 8) =~= le_bytes(v as nat, 8));
        lemma_le_of_le_bytes(v as nat, 8);
        lemma_pow256_8();
    }
}

/// `core::str::from_utf8`: the bytes as a string slice when they are valid
/// UTF-8. The standard library documents that it succeeds exactly on valid
/// UTF-8 and that the slice it gives back consists of the same bytes.
#[verifier::external_body]
pub(crate) fn str_from_utf8(bytes: &[u8]) -> (r: Option<&str>)
    ensures
        r is Some <==> valid_utf8(bytes@),
        r matches Some(s) ==> s.spec_bytes() == bytes@,
{
    core::str::from_utf8(bytes).ok()
}

/// Whether two byte slices hold the same bytes.
pub fn bytes_equal(a: &[u8], b: &[u8]) -> (r: bool)
    ensures
        r == (a@ == b@),
{
    if a.len() != b.len() {
        return false;
    }
    let mut i: usize = 0;
    while i < a.len()
        invariant
            a@.len() == b@.len(),
            i <= a@.len(),
            forall|j: int| 0 <= j < i ==> a@[j] == b@[j],
        decreases a@.len() - i,
    {
        if a[i] != b[i] {
            return false;
        }
        i = i + 1;
    }
    assert(a@ =~= b@);
    true
}

} // verus!
