//! Decimal normalization of reserves and the Q64.64 price of two reserves.
use vstd::prelude::*;
use crate::errors::ArithmeticError;
use crate::fixed_point::{div_uu, div_uu_spec, lemma_mul_lt, lemma_pow2_words, U128_0X10000000000000000};
use crate::primitives::{two128, two256, U256};
use crate::u256_ops::checked_mul;

verus! {

/// `10^k`.
pub open spec fn pow10(k: nat) -> nat
    decreases k,
{
    if k == 0 {
        1
    } else {
        10 * pow10((k - 1) as nat)
    }
}

proof fn lemma_pow10_mono(a: nat, b: nat)
    requires
        a <= b,
    ensures
        1 <= pow10(a) <= pow10(b),
    decreases b,
{
    if a < b {
        lemma_pow10_mono(a, (b - 1) as nat);
    } else if a > 0 {
        lemma_pow10_mono((a - 1) as nat, (a - 1) as nat);
    }
}

/// `10^k` for the exponents whose power fits in a `u128`.
pub fn pow10_u128(k: u32) -> (r: u128)
    requires
        k <= 38,
    ensures
        r == pow10(k as nat),
{
    let mut r: u128 = 1;
    let mut i: u32 = 0;
    proof {
        reveal_with_fuel(pow10, 39);
    }
    while i < k
        invariant
            i <= k <= 38,
            r == pow10(i as nat),
            pow10(38) == 100_000_000_000_000_000_000_000_000_000_000_000_000,
        decreases k - i,
    {
        proof {
            lemma_pow10_mono((i + 1) as nat, 38);
        }
        r = r * 10;
        i = i + 1;
    }
    r
}

/// How far apart two decimal counts are.
pub open spec fn decimals_gap(d0: u8, d1: u8) -> nat {
    if d0 < d1 {
        (d1 - d0) as nat
    } else {
        (d0 - d1) as nat
    }
}

/// Two reserves brought to a common number of decimals: the reserve of the
/// token with fewer decimals is multiplied by `10^gap`.
pub open spec fn normalized(r0: nat, r1: nat, d0: u8, d1: u8) -> (nat, nat) {
    if d0 < d1 {
        (r0 * pow10(decimals_gap(d0, d1)), r1)
    } else {
        (r0, r1 * pow10(decimals_gap(d0, d1)))
    }
}

/// The power of ten fits in 128 bits and the scaled reserve in 256 bits.
pub open spec fn normalization_fits(r0: nat, r1: nat, d0: u8, d1: u8) -> bool {
    &&& decimals_gap(d0, d1) <= 38
    &&& normalized(r0, r1, d0, d1).0 < two256()
    &&& normalized(r0, r1, d0, d1).1 < two256()
}

/// Whether the reserves can be brought to common decimals here.
pub fn fits_normalization(r0: U256, r1: U256, d0: u8, d1: u8) -> (r: bool)
    ensures
        r == normalization_fits(r0@, r1@, d0, d1),
{
    proof {
        crate::primitives::lemma_u256_view_bound(r0);
        crate::primitives::lemma_u256_view_bound(r1);
    }
    if d0 < d1 {
        if d1 - d0 > 38 {
            return false;
        }
        let p = U256::from_u128(pow10_u128((d1 - d0) as u32));
        checked_mul(r0, p).is_some()
    } else {
        if d0 - d1 > 38 {
            return false;
        }
        let p = U256::from_u128(pow10_u128((d0 - d1) as u32));
        checked_mul(r1, p).is_some()
    }
}

/// Reserves below 2^128 always fit once scaled by at most `10^38`.
pub proof fn lemma_normalization_fits_u128(r0: nat, r1: nat, d0: u8, d1: u8)
    requires
        r0 < two128(),
        r1 < two128(),
        decimals_gap(d0, d1) <= 38,
    ensures
        normalization_fits(r0, r1, d0, d1),
{
    lemma_pow10_mono(decimals_gap(d0, d1), 38);
    reveal_with_fuel(pow10, 39);
    let p = pow10(decimals_gap(d0, d1));
    assert(p < two128());
    lemma_mul_lt(r0, p, two128(), two128());
    lemma_mul_lt(r1, p, two128(), two128());
    lemma_pow2_words();
}

/// Brings two reserves to a common number of decimals.
pub fn normalize_reserves(r0: U256, r1: U256, d0: u8, d1: u8) -> (r: (U256, U256))
    requires
        normalization_fits(r0@, r1@, d0, d1),
    ensures
        r.0@ == normalized(r0@, r1@, d0, d1).0,
        r.1@ == normalized(r0@, r1@, d0, d1).1,
{
    if d0 < d1 {
        let p = U256::from_u128(pow10_u128((d1 - d0) as u32));
        (checked_mul(r0, p).unwrap(), r1)
    } else {
        let p = U256::from_u128(pow10_u128((d0 - d1) as u32));
        (r0, checked_mul(r1, p).unwrap())
    }
}

/// The Q64.64 price `num / den`, where an empty denominator reads as 1.0.
pub open spec fn q64_price(num: nat, den: nat) -> Result<u128, ArithmeticError> {
    if den == 0 {
        Ok(U128_0X10000000000000000)
    } else {
        div_uu_spec(num, den)
    }
}

/// The Q64.64 price `num / den`, where an empty denominator reads as 1.0.
pub fn price_q64(num: U256, den: U256) -> (r: Result<u128, ArithmeticError>)
    ensures
        r == q64_price(num@, den@),
{
    if den.is_zero() {
        Ok(U128_0X10000000000000000)
    } else {
        div_uu(num, den)
    }
}


} // verus!
