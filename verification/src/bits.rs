//! Integer facts shared by the allocators, the disk format and the parsers:
//! powers of two, integer logarithms and the position of set bits.
use vstd::prelude::*;

verus! {

/// `2^e`.
pub open spec fn exp2(e: nat) -> nat
    decreases e,
{
    if e == 0 {
        1
    } else {
        2 * exp2((e - 1) as nat)
    }
}

/// `floor(log2(x))` for `x >= 1` (and 0 for `x == 0`).
pub open spec fn ilog2(x: nat) -> nat
    decreases x,
{
    if x <= 1 {
        0
    } else {
        1 + ilog2(x / 2)
    }
}

/// Number of trailing zero bits of a positive number (0 for 0).
pub open spec fn trailing_zeros(x: nat) -> nat
    decreases x,
{
    if x == 0 || x % 2 == 1 {
        0
    } else {
        1 + trailing_zeros(x / 2)
    }
}

/// Whether `x` is a power of two.
pub open spec fn is_power_of_two(x: nat) -> bool
    decreases x,
{
    if x == 0 {
        false
    } else if x == 1 {
        true
    } else {
        x % 2 == 0 && is_power_of_two(x / 2)
    }
}

/// The smallest power of two that is at least `x`.
pub open spec fn next_pow2(x: nat) -> nat
    decreases x,
{
    if x <= 1 {
        1
    } else {
        2 * next_pow2(((x + 1) / 2) as nat)
    }
}

pub proof fn lemma_exp2_pos(e: nat)
    ensures
        exp2(e) >= 1,
    decreases e,
{
    if e > 0 {
        lemma_exp2_pos((e - 1) as nat);
    }
}

pub proof fn lemma_exp2_adds(a: nat, b: nat)
    ensures
        exp2(a + b) == exp2(a) * exp2(b),
    decreases a,
{
    if a > 0 {
        let a1 = (a - 1) as nat;
        lemma_exp2_adds(a1, b);
        assert((a + b - 1) as nat == a1 + b);
        assert(exp2(a + b) == 2 * exp2(a1 + b));
        assert(exp2(a) == 2 * exp2(a1));
        assert(2 * (exp2(a1) * exp2(b)) == (2 * exp2(a1)) * exp2(b)) by (nonlinear_arith);
    } else {
        assert(exp2(0) == 1);
        assert(a + b == b);
    }
}

pub proof fn lemma_exp2_monotonic(a: nat, b: nat)
    requires
        a <= b,
    ensures
        exp2(a) <= exp2(b),
    decreases b,
{
    if a < b {
        lemma_exp2_monotonic(a, (b - 1) as nat);
        lemma_exp2_pos((b - 1) as nat);
    }
}

pub proof fn lemma_exp2_is_power_of_two(e: nat)
    ensures
        is_power_of_two(exp2(e)),
    decreases e,
{
    if e > 0 {
        lemma_exp2_is_power_of_two((e - 1) as nat);
        lemma_exp2_pos((e - 1) as nat);
        assert(exp2(e) / 2 == exp2((e - 1) as nat));
    }
}

/// A power of two is `2` raised to its logarithm.
pub proof fn lemma_power_of_two_is_exp2(x: nat)
    requires
        is_power_of_two(x),
    ensures
        x == exp2(ilog2(x)),
        x == exp2(trailing_zeros(x)),
    decreases x,
{
    if x > 1 {
        lemma_power_of_two_is_exp2(x / 2);
    }
}

/// `ilog2(x)` is the unique `k` with `2^k <= x < 2^(k+1)`.
pub proof fn lemma_ilog2_bounds(x: nat)
    requires
        x >= 1,
    ensures
        exp2(ilog2(x)) <= x < exp2(ilog2(x) + 1),
    decreases x,
{
    if x > 1 {
        lemma_ilog2_bounds(x / 2);
    }
}

pub proof fn lemma_ilog2_unique(x: nat, k: nat)
    requires
        exp2(k) <= x < exp2(k + 1),
    ensures
        ilog2(x) == k,
    decreases k,
{
    lemma_exp2_pos(k);
    if k == 0 {
    } else {
        lemma_ilog2_unique(x / 2, (k - 1) as nat);
    }
}

pub proof fn lemma_ilog2_exp2(k: nat)
    ensures
        ilog2(exp2(k)) == k,
{
    lemma_exp2_pos(k);
    lemma_ilog2_unique(exp2(k), k);
}

pub proof fn lemma_ilog2_monotonic(x: nat, y: nat)
    requires
        1 <= x <= y,
    ensures
        ilog2(x) <= ilog2(y),
{
    lemma_ilog2_bounds(x);
    lemma_ilog2_bounds(y);
    if ilog2(y) < ilog2(x) {
        lemma_exp2_monotonic(ilog2(y) + 1, ilog2(x));
    }
}

/// `2^trailing_zeros(x)` divides `x`, so it is at most `x`.
pub proof fn lemma_trailing_zeros_divides(x: nat)
    requires
        x >= 1,
    ensures
        x % exp2(trailing_zeros(x)) == 0,
        exp2(trailing_zeros(x)) <= x,
        trailing_zeros(x) <= ilog2(x),
    decreases x,
{
    if x % 2 == 0 {
        lemma_trailing_zeros_divides(x / 2);
        let t = trailing_zeros(x / 2);
        lemma_exp2_pos(t);
        assert((x / 2) % exp2(t) == 0);
        assert(x == 2 * (x / 2));
        assert(x % (2 * exp2(t)) == 0) by {
            let q = (x / 2) / exp2(t);
            vstd::arithmetic::div_mod::lemma_fundamental_div_mod((x / 2) as int, exp2(t) as int);
            assert(x / 2 == exp2(t) * q);
            assert(x / 2 == q * exp2(t)) by (nonlinear_arith)
                requires
                    x / 2 == exp2(t) * q,
            ;
            assert(x == q * (2 * exp2(t))) by (nonlinear_arith)
                requires
                    x / 2 == q * exp2(t),
                    x == 2 * (x / 2),
            ;
            vstd::arithmetic::div_mod::lemma_mod_multiples_basic(q as int, (2 * exp2(t)) as int);
        }
    }
}

pub proof fn lemma_next_pow2(x: nat)
    ensures
        next_pow2(x) >= x,
        next_pow2(x) >= 1,
        is_power_of_two(next_pow2(x)),
        x >= 1 ==> next_pow2(x) < 2 * x,
    decreases x,
{
    if x > 1 {
        lemma_next_pow2(((x + 1) / 2) as nat);
    }
}

/// The power of two that `next_pow2` gives back is unchanged for a power of two.
pub proof fn lemma_next_pow2_of_power(x: nat)
    requires
        is_power_of_two(x),
    ensures
        next_pow2(x) == x,
    decreases x,
{
    if x > 1 {
        lemma_next_pow2_of_power(x / 2);
    }
}

/// `ceil(log2(x))` for `x >= 1`.
pub open spec fn ceil_log2(x: nat) -> nat {
    if x <= 1 {
        0
    } else {
        ilog2((x - 1) as nat) + 1
    }
}

/// The smallest power of two that is at least `x`.
pub fn next_power_of_two(x: u64) -> (r: u64)
    requires
        next_pow2(x as nat) <= u64::MAX,
    ensures
        r == next_pow2(x as nat),
    decreases x,
{
    if x <= 1 {
        1
    } else {
        let half = x / 2 + x % 2;
        assert(half == (x + 1) / 2);
        2 * next_power_of_two(half)
    }
}

/// `next_pow2(x)` is `2^ceil_log2(x)`.
pub proof fn lemma_next_pow2_is_exp2_ceil_log2(x: nat)
    ensures
        next_pow2(x) == exp2(ceil_log2(x)),
    decreases x,
{
    if x > 1 {
        let h = ((x + 1) / 2) as nat;
        lemma_next_pow2_is_exp2_ceil_log2(h);
        // ceil_log2(x) == ceil_log2(h) + 1 for x >= 2
        if h <= 1 {
            assert(x == 2);
            assert(ilog2(1) == 0);
        } else {
            assert(((x - 1) as nat) / 2 == (h - 1) as nat);
            assert(ilog2((x - 1) as nat) == 1 + ilog2(((x - 1) as nat) / 2));
        }
    }
}

/// `floor(log2(x))` of a 64-bit value, `None` for zero.
pub fn highest_one(x: u64) -> (r: Option<u64>)
    ensures
        r == (if x == 0 {
            None::<u64>
        } else {
            Some(ilog2(x as nat) as u64)
        }),
        x != 0 ==> ilog2(x as nat) < 64,
{
    if x == 0 {
        return None;
    }
    proof {
        lemma_ilog2_below_64(x);
    }
    let mut v: u64 = x;
    let mut k: u64 = 0;
    while v > 1
        invariant
            v >= 1,
            k + ilog2(v as nat) == ilog2(x as nat),
            ilog2(x as nat) < 64,
        decreases v,
    {
        v = v / 2;
        k = k + 1;
    }
    Some(k)
}

/// The index of the lowest set bit of a 64-bit value, `None` for zero.
pub fn lowest_one(x: u64) -> (r: Option<u64>)
    ensures
        r == (if x == 0 {
            None::<u64>
        } else {
            Some(trailing_zeros(x as nat) as u64)
        }),
        x != 0 ==> trailing_zeros(x as nat) < 64,
{
    if x == 0 {
        return None;
    }
    let mut v: u64 = x;
    let mut k: u64 = 0;
    proof {
        lemma_ilog2_below_64(x);
        lemma_trailing_zeros_divides(x as nat);
    }
    while v % 2 == 0
        invariant
            v >= 1,
            k + trailing_zeros(v as nat) == trailing_zeros(x as nat),
            trailing_zeros(x as nat) < 64,
        decreases v,
    {
        v = v / 2;
        k = k + 1;
    }
    Some(k)
}

/// Every 64-bit value has its highest bit below position 64.
pub proof fn lemma_ilog2_below_64(x: u64)
    requires
        x >= 1,
    ensures
        ilog2(x as nat) < 64,
{
    lemma_exp2_64();
    lemma_ilog2_bounds(x as nat);
    if ilog2(x as nat) >= 64 {
        lemma_exp2_monotonic(64, ilog2(x as nat));
    }
}

pub proof fn lemma_exp2_64()
    ensures
        exp2(64) == 0x1_0000_0000_0000_0000,
        exp2(32) == 0x1_0000_0000,
        exp2(16) == 0x1_0000,
        exp2(12) == 0x1000,
        exp2(8) == 0x100,
        exp2(3) == 8,
{
    lemma_exp2_matches_pow2(64);
    lemma_exp2_matches_pow2(32);
    lemma_exp2_matches_pow2(16);
    lemma_exp2_matches_pow2(12);
    lemma_exp2_matches_pow2(8);
    lemma_exp2_matches_pow2(3);
    vstd::arithmetic::power2::lemma2_to64();
    vstd::arithmetic::power2::lemma2_to64_rest();
}

/// `exp2` agrees with vstd's `pow2`.
pub proof fn lemma_exp2_matches_pow2(e: nat)
    ensures
        exp2(e) == vstd::arithmetic::power2::pow2(e),
    decreases e,
{
    if e == 0 {
        vstd::arithmetic::power2::lemma2_to64();
    } else {
        lemma_exp2_matches_pow2((e - 1) as nat);
        vstd::arithmetic::power2::lemma_pow2_unfold(e);
    }
}

} // verus!
