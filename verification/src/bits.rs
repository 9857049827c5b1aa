//! Small facts about powers of two and byte lanes, shared by the parameter
//! validation and the colour encoder.

use vstd::prelude::*;
use vstd::arithmetic::power2::{
    is_pow2, is_pow2_exists, is_pow2_equiv, pow2, lemma_pow2, lemma_pow2_pos,
    lemma_pow2_strictly_increases, lemma2_to64,
};
use vstd::arithmetic::power::pow;
use vstd::bits::{low_bits_mask, lemma_u32_low_bits_mask_is_mod, lemma_u32_shl_is_mul};

verus! {

/// A positive power of two fits a `u32` exactly when its exponent is below 32.
proof fn lemma_pow2_u32_exponent(m: u32) -> (e: nat)
    requires
        is_pow2(m as int),
    ensures
        e < 32,
        m == pow2(e),
{
    is_pow2_equiv(m as int);
    assert(is_pow2_exists(m as int));
    let i = choose|i: nat| pow(2, i) == m as int;
    lemma_pow2(i);
    lemma2_to64();
    if i > 32 {
        lemma_pow2_strictly_increases(32, i);
    }
    i
}

/// For a power of two `m`, masking with `m - 1` is reduction modulo `m`.
pub proof fn lemma_mask_is_mod(x: u32, m: u32)
    requires
        is_pow2(m as int),
    ensures
        m >= 1,
        x & (m - 1) as u32 == x % m,
{
    let e = lemma_pow2_u32_exponent(m);
    lemma_pow2_pos(e);
    lemma_u32_low_bits_mask_is_mod(x, e);
    assert(low_bits_mask(e) == pow2(e) - 1);
}

/// The bit test `m != 0 && m & (m - 1) == 0` decides whether `m` is a power
/// of two.
pub fn power_of_two_check(m: u32) -> (r: bool)
    ensures
        r == is_pow2(m as int),
{
    let r = m != 0 && m & (m - 1) == 0;
    proof {
        if r {
            lemma_bit_trick_implies_pow2(m);
        }
        if is_pow2(m as int) {
            let e = lemma_pow2_u32_exponent(m);
            lemma_pow2_pos(e);
            lemma_u32_shl_is_mul(1u32, e as u32);
            let eu = e as u32;
            assert((1u32 << eu) & (((1u32 << eu) - 1) as u32) == 0
                && (1u32 << eu) != 0) by (bit_vector)
                requires
                    eu < 32,
            ;
        }
    }
    r
}

/// Half of the decision above: a nonzero `m` with `m & (m - 1) == 0` is a
/// power of two.
proof fn lemma_bit_trick_implies_pow2(m: u32)
    requires
        m != 0,
        m & (m - 1) as u32 == 0,
    ensures
        is_pow2(m as int),
    decreases m,
{
    reveal(is_pow2);
    if m == 1 {
    } else {
        assert(m % 2 == 0 && m / 2 != 0 && (m / 2) & ((m / 2) - 1) as u32 == 0)
            by (bit_vector)
            requires
                m != 0,
                m != 1,
                m & (m - 1) as u32 == 0,
        ;
        lemma_bit_trick_implies_pow2(m / 2);
        assert(m as int / 2 == (m / 2) as int);
    }
}

} // verus!
