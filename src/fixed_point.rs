//! Exact Q64.64 fixed-point division.
use vstd::prelude::*;
use vstd::arithmetic::power2::{pow2, lemma2_to64, lemma_pow2_adds, lemma_pow2_pos, lemma_pow2_unfold};
use vstd::arithmetic::div_mod::{
    lemma_div_denominator, lemma_div_of0, lemma_fundamental_div_mod,
    lemma_fundamental_div_mod_converse, lemma_hoist_over_denominator, lemma_small_mod,
};
use vstd::arithmetic::mul::{
    lemma_mul_inequality, lemma_mul_is_associative, lemma_mul_is_commutative,
    lemma_mul_is_distributive_add, lemma_mul_strict_inequality,
};
use crate::errors::ArithmeticError;
use crate::primitives::{lemma_u256_view_bound, lemma_u256_view_injective, two128, two192, two256, two64, U256};
use crate::u256_ops::{checked_add, checked_mul, div, shl, shr, wrapping_sub};

verus! {

/// The Q64.64 encoding of 1.0.
pub const U128_0X10000000000000000: u128 = 18446744073709551616;

/// The largest `u128`.
pub open spec fn u128_max() -> nat {
    0xffff_ffff_ffff_ffff_ffff_ffff_ffff_ffffnat
}

/// `floor(log2(x))`, and 0 below 2.
pub open spec fn log2(x: nat) -> nat
    decreases x,
{
    if x < 2 {
        0
    } else {
        1 + log2(x / 2)
    }
}

/// The exact quotient `floor(x * 2^64 / y)`.
pub open spec fn q64_quotient(x: nat, y: nat) -> nat {
    (x * two64()) / y
}

/// A quotient that does not fit in 128 bits reads as 0.
pub open spec fn q64_saturate(q: nat) -> nat {
    if q <= u128_max() {
        q
    } else {
        0
    }
}

/// For a numerator of 2^192 or more: the first estimate of the quotient, from
/// the numerator normalized to 256 bits and the divisor rounded up to match.
pub open spec fn q64_estimate(x: nat, y: nat) -> nat {
    (x * pow2((255 - log2(x)) as nat)) / ((((y - 1) as nat) / pow2((log2(x) - 191) as nat))
        + 1)
}

/// What `div_uu` returns: the saturated quotient, or an error when the divisor
/// is zero or when the estimate's remainder does not fit in 256 bits.
pub open spec fn div_uu_spec(x: nat, y: nat) -> Result<u128, ArithmeticError> {
    if y == 0 {
        Err(ArithmeticError::DivisorZero)
    } else if x < two192() {
        Ok(q64_saturate(q64_quotient(x, y)) as u128)
    } else if q64_estimate(x, y) > u128_max() {
        Ok(0)
    } else if x * two64() - q64_estimate(x, y) * y >= two256() {
        Err(ArithmeticError::RoundingError)
    } else {
        Ok(q64_saturate(q64_quotient(x, y)) as u128)
    }
}

pub proof fn lemma_pow2_words()
    ensures
        pow2(64) == two64(),
        pow2(128) == two128(),
        pow2(192) == two192(),
        pow2(256) == two256(),
{
    lemma2_to64();
    lemma_pow2_adds(64, 64);
    lemma_pow2_adds(128, 64);
    lemma_pow2_adds(128, 128);
    assert(two128() * two128() == two256()) by (nonlinear_arith);
    assert(two128() * two64() == two192()) by (nonlinear_arith);
    assert(two64() * two64() == two128()) by (nonlinear_arith);
}

pub proof fn lemma_mul_lt(a: nat, b: nat, ba: nat, bb: nat)
    requires
        a < ba,
        b < bb,
    ensures
        a * b < ba * bb,
{
    assert(a * b < ba * bb) by (nonlinear_arith)
        requires
            a < ba,
            b < bb,
            a >= 0,
            b >= 0,
    ;
}

proof fn lemma_log2_bounds(x: nat)
    requires
        x >= 1,
    ensures
        pow2(log2(x)) <= x < pow2(log2(x) + 1),
    decreases x,
{
    lemma2_to64();
    if x >= 2 {
        lemma_log2_bounds(x / 2);
        lemma_pow2_unfold(log2(x));
        lemma_pow2_unfold(log2(x) + 1);
    }
}

proof fn lemma_log2_shift(x: nat, k: nat)
    requires
        x >= pow2(k),
    ensures
        log2(x) == k + log2(x / pow2(k)),
    decreases k,
{
    lemma2_to64();
    if k == 0 {
        lemma_fundamental_div_mod_converse(x as int, 1, x as int, 0);
    } else {
        lemma_pow2_unfold(k);
        lemma_pow2_pos((k - 1) as nat);
        assert(x / 2 >= pow2((k - 1) as nat));
        lemma_log2_shift(x / 2, (k - 1) as nat);
        lemma_div_denominator(x as int, 2, pow2((k - 1) as nat) as int);
    }
}

/// `floor(log2(v))` of a nonzero 64-bit value, by successive halving
/// comparisons.
#[verifier::spinoff_prover]
#[verifier::rlimit(50)]
fn log2_u64(v: u64) -> (r: usize)
    requires
        v >= 1,
    ensures
        r == log2(v as nat),
        r <= 63,
{
    proof {
        lemma2_to64();
    }
    let mut xc: u64 = v;
    let mut bits: usize = 0;
    if xc >= 0x1_0000_0000 {
        proof {
            lemma_log2_shift(xc as nat, 32);
        }
        xc = xc / 0x1_0000_0000;
        bits = bits + 32;
    }
    assert(bits + log2(xc as nat) == log2(v as nat) && 1 <= xc < 0x1_0000_0000 && bits <= 32);
    if xc >= 0x10000 {
        proof {
            lemma_log2_shift(xc as nat, 16);
        }
        xc = xc / 0x10000;
        bits = bits + 16;
    }
    assert(bits + log2(xc as nat) == log2(v as nat) && 1 <= xc < 0x10000 && bits <= 48);
    if xc >= 0x100 {
        proof {
            lemma_log2_shift(xc as nat, 8);
        }
        xc = xc / 0x100;
        bits = bits + 8;
    }
    assert(bits + log2(xc as nat) == log2(v as nat) && 1 <= xc < 0x100 && bits <= 56);
    if xc >= 16 {
        proof {
            lemma_log2_shift(xc as nat, 4);
        }
        xc = xc / 16;
        bits = bits + 4;
    }
    assert(bits + log2(xc as nat) == log2(v as nat) && 1 <= xc < 16 && bits <= 60);
    if xc >= 4 {
        proof {
            lemma_log2_shift(xc as nat, 2);
        }
        xc = xc / 4;
        bits = bits + 2;
    }
    assert(bits + log2(xc as nat) == log2(v as nat) && 1 <= xc < 4 && bits <= 62);
    proof {
        reveal_with_fuel(log2, 3);
    }
    if xc >= 2 {
        bits = bits + 1;
    }
    bits
}

/// Index of the most significant set bit of `x`, for `x >= 2^192`: 192 plus
/// that of `x >> 192`.
fn most_significant_bit(x: U256) -> (msb: usize)
    requires
        x@ >= two192(),
    ensures
        msb == log2(x@),
        192 <= msb <= 255,
{
    proof {
        lemma_pow2_words();
        lemma_u256_view_bound(x);
    }
    let top = shr(x, 192);
    proof {
        lemma_u256_view_bound(top);
        vstd::arithmetic::div_mod::lemma_div_is_ordered(x@ as int, (two256() - 1) as int, two192() as int);
        assert((two256() - 1) as int / two192() as int == two64() - 1) by {
            lemma_fundamental_div_mod_converse((two256() - 1) as int, two192() as int, two64() - 1, two192() - 1);
        }
        vstd::arithmetic::div_mod::lemma_div_is_ordered(two192() as int, x@ as int, two192() as int);
        vstd::arithmetic::div_mod::lemma_div_by_self(two192() as int);
        lemma_log2_shift(x@, 192);
    }
    192 + log2_u64(top.l0)
}

proof fn lemma_mod_wrap(v: int)
    requires
        -(two256() as int) <= v < two256(),
    ensures
        v % (two256() as int) == if v < 0 {
            v + two256()
        } else {
            v
        },
{
    if v < 0 {
        lemma_fundamental_div_mod_converse(v, two256() as int, -1, v + two256());
    } else {
        lemma_fundamental_div_mod_converse(v, two256() as int, 0, v);
    }
}

proof fn lemma_split_product(answer: nat, y: nat, y_hi: nat, y_lo: nat)
    requires
        y == y_hi * two128() + y_lo,
    ensures
        answer * y == (answer * y_hi) * two128() + answer * y_lo,
{
    assert(answer * y == (answer * y_hi) * two128() + answer * y_lo) by (nonlinear_arith)
        requires
            y == y_hi * two128() + y_lo,
    ;
}

/// `v * 2^k`, for `v` below 2^256 and `k` a multiple of 64, split into the
/// word above 2^256 and the word below it.
proof fn lemma_split_shifted(v: nat, k: nat, top: nat, low: nat)
    requires
        v < two256(),
        k == 64 || k == 128,
        top == v / pow2((256 - k) as nat),
        low == (v * pow2(k)) % two256(),
    ensures
        v * pow2(k) == top * two256() + low,
        low < two256(),
{
    lemma_pow2_words();
    let d = pow2((256 - k) as nat);
    lemma_pow2_adds((256 - k) as nat, k);
    lemma_pow2_pos(k);
    lemma_pow2_pos((256 - k) as nat);
    lemma_fundamental_div_mod(v as int, d as int);
    let rem = v % d;
    assert(rem * pow2(k) < two256()) by {
        lemma_mul_strict_inequality(rem as int, d as int, pow2(k) as int);
    }
    assert(v * pow2(k) == top * two256() + rem * pow2(k)) by (nonlinear_arith)
        requires
            v == d * top + rem,
            d * pow2(k) == two256(),
    ;
    lemma_fundamental_div_mod_converse((v * pow2(k)) as int, two256() as int, top as int, (rem * pow2(k)) as int);
}

/// The two borrows of the low word, taken from the high word, leave the
/// high word equal to the top of `a` exactly when `x - a` fits in one word.
proof fn lemma_borrow_chain(
    big_x: int,
    big_a: int,
    xh0: int,
    xl0: int,
    h_top: int,
    lo2: int,
    lo: int,
    b1: int,
    b2: int,
    xl1: int,
    xl2: int,
)
    requires
        big_x == xh0 * two256() + xl0,
        big_a == h_top * two256() + lo2 + lo,
        0 <= xl0 < two256(),
        0 <= lo < two256(),
        0 <= lo2 < two256(),
        0 <= xh0,
        0 <= h_top,
        b1 == (if xl0 < lo { 1int } else { 0int }),
        xl1 == xl0 - lo + b1 * two256(),
        b2 == (if xl1 < lo2 { 1int } else { 0int }),
        xl2 == xl1 - lo2 + b2 * two256(),
        big_a <= big_x,
    ensures
        xh0 - b1 - b2 >= h_top,
        xh0 - b1 - b2 == h_top <==> big_x - big_a < two256(),
        xh0 - b1 - b2 == h_top ==> big_x - big_a == xl2,
{
    let c = xh0 - b1 - b2 - h_top;
    assert(big_x - big_a == c * two256() + xl2);
    if c < 0 {
        assert(c * two256() <= -two256());
    }
    if c >= 1 {
        assert(c * two256() >= two256());
    }
}

/// Adds the quotient of the remainder `x * 2^64 - a * y` to the estimate `a`.
fn finish_quotient(x: U256, y: U256, answer: U256, rem: U256) -> (r: Result<u128, ArithmeticError>)
    requires
        y@ >= 1,
        rem@ == x@ * two64() - answer@ * y@,
    ensures
        r == Ok::<u128, ArithmeticError>(q64_saturate(q64_quotient(x@, y@)) as u128),
{
    proof {
        lemma_u256_view_bound(answer);
        lemma_u256_view_bound(rem);
    }
    let rest = div(rem, y);
    proof {
        lemma_hoist_over_denominator(rem@ as int, answer@ as int, y@);
        lemma_mul_is_commutative(answer@ as int, y@ as int);
        assert(answer@ + rest@ == q64_quotient(x@, y@));
    }
    match checked_add(answer, rest) {
        None => Ok(0),
        Some(total) => {
            if total.fits_u128() {
                Ok(total.as_u128())
            } else {
                Ok(0)
            }
        },
    }
}

/// `answer * y` as `hi * 2^128 + lo`, for `answer` below 2^128.
fn split_product(answer: U256, y: U256) -> (r: (U256, U256))
    requires
        answer@ < two128(),
    ensures
        answer@ * y@ == r.0@ * two128() + r.1@,
{
    proof {
        lemma_u256_view_bound(y);
    }
    let y_hi = y.high_half();
    let y_lo = y.low_half();
    proof {
        lemma_fundamental_div_mod(y@ as int, two128() as int);
        lemma_mul_lt(answer@, y_hi@, two128(), two128());
        lemma_mul_lt(answer@, y_lo@, two128(), two128());
        lemma_pow2_words();
    }
    let hi = checked_mul(answer, y_hi).unwrap();
    let lo = checked_mul(answer, y_lo).unwrap();
    proof {
        lemma_split_product(answer@, y@, y_hi@, y_lo@);
    }
    (hi, lo)
}

/// Subtracts `sub` from the two-word number `high * 2^256 + low`, both words
/// wrapping: the low word borrows one from the high word when it is smaller.
fn borrow_sub(high: U256, low: U256, sub: U256) -> (r: (U256, U256))
    ensures
        r.1@ == low@ - sub@ + (if low@ < sub@ { two256() as int } else { 0 }),
        r.0@ == (if low@ < sub@ { (high@ - 1) % (two256() as int) } else { high@ as int }),
{
    proof {
        lemma_u256_view_bound(low);
        lemma_u256_view_bound(sub);
        lemma_mod_wrap(low@ - sub@);
    }
    let new_high = if low.lt(&sub) {
        wrapping_sub(high, U256::from_u64(1))
    } else {
        high
    };
    (new_high, wrapping_sub(low, sub))
}

/// The remainder `x * 2^64 - (hi * 2^128 + lo)`, computed across 512 bits
/// with two borrows from the high word; `None` when it does not fit in 256
/// bits.
fn wide_remainder(x: U256, hi: U256, lo: U256) -> (r: Option<U256>)
    requires
        hi@ * two128() + lo@ <= x@ * two64(),
    ensures
        r is Some <==> x@ * two64() - (hi@ * two128() + lo@) < two256(),
        r is Some ==> r->Some_0@ == x@ * two64() - (hi@ * two128() + lo@),
{
    proof {
        lemma_pow2_words();
        lemma_u256_view_bound(x);
        lemma_u256_view_bound(hi);
        lemma_u256_view_bound(lo);
    }
    let xh0 = shr(x, 192);
    let xl0 = shl(x, 64);
    proof {
        lemma_split_shifted(x@, 64, xh0@, xl0@);
    }
    let (xh1, xl1) = borrow_sub(xh0, xl0, lo);
    let lo2 = shl(hi, 128);
    let h_top = hi.high_half();
    proof {
        lemma_split_shifted(hi@, 128, h_top@, lo2@);
    }
    let (xh2, xl2) = borrow_sub(xh1, xl1, lo2);
    proof {
        let b1: int = if xl0@ < lo@ { 1 } else { 0 };
        let b2: int = if xl1@ < lo2@ { 1 } else { 0 };
        lemma_borrow_chain(
            (x@ * two64()) as int,
            (hi@ * two128() + lo@) as int,
            xh0@ as int,
            xl0@ as int,
            h_top@ as int,
            lo2@ as int,
            lo@ as int,
            b1,
            b2,
            xl1@ as int,
            xl2@ as int,
        );
        if b1 == 1 {
            lemma_mod_wrap(xh0@ - 1);
        }
        if b2 == 1 {
            lemma_mod_wrap(xh1@ - 1);
        }
        assert(xh2@ == xh0@ - b1 - b2);
    }
    if xh2 != h_top {
        return None;
    }
    proof {
        lemma_u256_view_injective(xh2, h_top);
    }
    Some(xl2)
}

/// A lower bound `answer` of the quotient: `a * y <= x * 2^64`, with `a` below
/// 2^128. Recomputes the remainder `x * 2^64 - a * y` across 512 bits. When
/// the remainder fits in 256 bits, the quotient is `a + remainder / y`;
/// otherwise the estimate cannot be corrected here.
fn correct_estimate(x: U256, y: U256, answer: U256) -> (r: Result<u128, ArithmeticError>)
    requires
        y@ >= 1,
        answer@ < two128(),
        answer@ * y@ <= x@ * two64(),
    ensures
        r == (if x@ * two64() - answer@ * y@ < two256() {
            Ok::<u128, ArithmeticError>(q64_saturate(q64_quotient(x@, y@)) as u128)
        } else {
            Err(ArithmeticError::RoundingError)
        }),
{
    let (hi, lo) = split_product(answer, y);
    match wide_remainder(x, hi, lo) {
        None => Err(ArithmeticError::RoundingError),
        Some(rem) => finish_quotient(x, y, answer, rem),
    }
}

proof fn lemma_quotient_lower_bound(a: nat, y: nat, n: nat)
    requires
        y >= 1,
        a * y <= n,
    ensures
        a <= n / y,
{
    lemma_fundamental_div_mod(n as int, y as int);
    let q = n / y;
    let m = n % y;
    if a > q {
        assert(a * y >= (q + 1) * y) by (nonlinear_arith)
            requires
                a > q,
                y >= 1,
        ;
        assert((q + 1) * y == y * q + y) by (nonlinear_arith);
        assert(false);
    }
}

/// Divides `x` by `y` and returns the quotient as a Q64.64 number,
/// `floor(x * 2^64 / y)`, or 0 when that does not fit in 128 bits.
pub fn div_uu(x: U256, y: U256) -> (r: Result<u128, ArithmeticError>)
    ensures
        r == div_uu_spec(x@, y@),
        r is Ok ==> r->Ok_0 == q64_saturate(q64_quotient(x@, y@)),
        y@ == 0 <==> r == Err::<u128, ArithmeticError>(ArithmeticError::DivisorZero),
        x@ == 0 && y@ != 0 ==> r == Ok::<u128, ArithmeticError>(0),
        x@ < two192() && y@ != 0 ==> r is Ok,
{
    proof {
        lemma_pow2_words();
        lemma_u256_view_bound(x);
        lemma_u256_view_bound(y);
    }
    if y.is_zero() {
        return Err(ArithmeticError::DivisorZero);
    }
    let max128 = U256::from_halves(0, 0xffff_ffff_ffff_ffff_ffff_ffff_ffff_ffff);
    let below192 = U256::from_halves(0x1_0000_0000_0000_0000, 0);
    let answer;
    if x.lt(&below192) {
        proof {
            lemma_small_mod((x@ * two64()) as nat, two256());
            assert(x@ * two64() < two256()) by {
                lemma_mul_strict_inequality(x@ as int, two192() as int, two64() as int);
            }
        }
        answer = div(shl(x, 64), y);
        proof {
            lemma_fundamental_div_mod((x@ * two64()) as int, y@ as int);
            lemma_mul_is_commutative(y@ as int, answer@ as int);
            assert(answer@ * y@ <= x@ * two64());
            assert(x@ * two64() - answer@ * y@ < y@);
            if x@ == 0 {
                lemma_div_of0(y@ as int);
            }
        }
    } else {
        let msb = most_significant_bit(x);
        let up: usize = 255 - msb;
        let down: usize = msb - 191;
        proof {
            lemma_log2_bounds(x@);
            lemma_pow2_adds((msb + 1) as nat, up as nat);
            lemma_pow2_pos(up as nat);
            lemma_pow2_pos(down as nat);
            lemma_mul_strict_inequality(x@ as int, pow2((msb + 1) as nat) as int, pow2(up as nat) as int);
            lemma_small_mod((x@ * pow2(up as nat)) as nat, two256());
        }
        let num = shl(x, up);
        let ym1 = wrapping_sub(y, U256::from_u64(1));
        proof {
            lemma_small_mod((y@ - 1) as nat, two256());
            lemma2_to64();
            assert(pow2(down as nat) >= 2) by {
                if down > 1 {
                    vstd::arithmetic::power2::lemma_pow2_strictly_increases(1, down as nat);
                }
            }
        }
        let den0 = shr(ym1, down);
        proof {
            vstd::arithmetic::div_mod::lemma_div_is_ordered_by_denominator(ym1@ as int, 2, pow2(down as nat) as int);
        }
        let den = checked_add(den0, U256::from_u64(1)).unwrap();
        answer = div(num, den);
        proof {
            let p = pow2(down as nat) as int;
            lemma_pow2_adds(up as nat, down as nat);
            assert(up + down == 64);
            // den * 2^down >= y
            lemma_fundamental_div_mod(ym1@ as int, p);
            assert(den@ * p >= y@) by {
                lemma_mul_is_commutative(p, den0@ as int);
                lemma_mul_is_distributive_add(p, den0@ as int, 1);
                lemma_mul_is_commutative(p, den@ as int);
            }
            // answer * den <= num
            lemma_fundamental_div_mod(num@ as int, den@ as int);
            lemma_mul_is_commutative(den@ as int, answer@ as int);
            // answer * y <= answer * den * 2^down <= num * 2^down == x * 2^64
            lemma_mul_inequality(y@ as int, den@ * p, answer@ as int);
            lemma_mul_is_commutative(y@ as int, answer@ as int);
            lemma_mul_is_commutative(den@ * p, answer@ as int);
            lemma_mul_is_associative(answer@ as int, den@ as int, p);
            lemma_mul_inequality((answer@ * den@) as int, num@ as int, p);
            lemma_mul_is_associative(x@ as int, pow2(up as nat) as int, p);
            assert(answer@ * y@ <= x@ * two64());
            assert(answer@ == q64_estimate(x@, y@));
        }
    }
    proof {
        lemma_quotient_lower_bound(answer@, y@, (x@ * two64()) as nat);
    }
    if max128.lt(&answer) {
        return Ok(0);
    }
    correct_estimate(x, y, answer)
}


} // verus!
