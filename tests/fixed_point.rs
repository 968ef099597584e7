use amm_sync::decimals::{normalize_reserves, pow10_u128, price_q64};
use amm_sync::errors::ArithmeticError;
use amm_sync::fixed_point::{div_uu, U128_0X10000000000000000};
use amm_sync::primitives::U256;

const ONE_Q64: u128 = 1u128 << 64;

fn u(x: u128) -> U256 {
    U256::from_u128(x)
}

#[test]
fn divide_by_zero_fails() {
    assert_eq!(div_uu(u(12345), U256::zero()), Err(ArithmeticError::DivisorZero));
    assert_eq!(div_uu(U256::zero(), U256::zero()), Err(ArithmeticError::DivisorZero));
}

#[test]
fn zero_numerator_gives_zero() {
    assert_eq!(div_uu(U256::zero(), u(7)), Ok(0));
    assert_eq!(div_uu(U256::zero(), U256::from_halves(u128::MAX, u128::MAX)), Ok(0));
}

#[test]
fn quotient_is_q64() {
    assert_eq!(div_uu(u(2000), u(1000)), Ok(2 * ONE_Q64));
    assert_eq!(div_uu(u(1), u(3)), Ok(ONE_Q64 / 3));
    assert_eq!(div_uu(u(1000), u(1000)), Ok(ONE_Q64));
}

#[test]
fn quotient_past_128_bits_saturates_to_zero() {
    // 2^70 / 1 is 2^134 in Q64.64
    assert_eq!(div_uu(u(1u128 << 70), u(1)), Ok(0));
    // 2^255 / 3, through the normalized path
    assert_eq!(div_uu(U256::from_halves(1u128 << 127, 0), u(3)), Ok(0));
}

#[test]
fn large_numerator_takes_normalized_path() {
    // 2^200 / 2^150 = 2^50, i.e. 2^114 in Q64.64
    let x = U256::from_halves(1u128 << 72, 0);
    let y = U256::from_halves(1u128 << 22, 0);
    assert_eq!(div_uu(x, y), Ok(1u128 << 114));
    // (2^255 + 12345) / (2^250 + 7)
    let x = U256::from_halves(1u128 << 127, 12345);
    let y = U256::from_halves(1u128 << 122, 7);
    assert_eq!(div_uu(x, y), Ok(590295810358705651712));
}

#[test]
fn unreconciled_estimate_is_rounding_error() {
    let x = U256 { l0: u64::MAX, l1: u64::MAX, l2: u64::MAX, l3: u64::MAX };
    let y = U256 { l0: 1, l1: u64::MAX, l2: u64::MAX, l3: u64::MAX };
    assert_eq!(div_uu(x, y), Err(ArithmeticError::RoundingError));
}

#[test]
fn powers_of_ten() {
    assert_eq!(pow10_u128(0), 1);
    assert_eq!(pow10_u128(6), 1_000_000);
    assert_eq!(pow10_u128(38), 100_000_000_000_000_000_000_000_000_000_000_000_000);
}

#[test]
fn empty_denominator_prices_at_one() {
    assert_eq!(price_q64(u(5), U256::zero()), Ok(U128_0X10000000000000000));
    assert_eq!(price_q64(u(3), u(6)), Ok(ONE_Q64 / 2));
}

#[test]
fn normalization_scales_the_fewer_decimals_side() {
    let (a, b) = normalize_reserves(u(5), u(7), 6, 18);
    assert_eq!(a, u(5_000_000_000_000));
    assert_eq!(b, u(7));
    let (a, b) = normalize_reserves(u(5), u(7), 18, 16);
    assert_eq!(a, u(5));
    assert_eq!(b, u(700));
    let (a, b) = normalize_reserves(u(5), u(7), 9, 9);
    assert_eq!((a, b), (u(5), u(7)));
}
