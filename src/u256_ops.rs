//! The 256-bit arithmetic that the price and swap math needs, computed by
//! `ruint`. Each function converts the limbs to `ruint::Uint<256, 4>`, makes
//! one call and converts the result back.
use vstd::prelude::*;
use vstd::arithmetic::power2::pow2;
use crate::primitives::{two256, U256};

verus! {

/// Relies on `ruint::Uint::checked_add`: the sum, or `None` when it does not
/// fit in 256 bits.
#[verifier::external_body]
pub(crate) fn checked_add(a: U256, b: U256) -> (r: Option<U256>)
    ensures
        r is Some <==> a@ + b@ < two256(),
        r is Some ==> r->Some_0@ == a@ + b@,
{
    let x = ruint::Uint::<256, 4>::from_limbs([a.l0, a.l1, a.l2, a.l3]);
    let y = ruint::Uint::<256, 4>::from_limbs([b.l0, b.l1, b.l2, b.l3]);
    x.checked_add(y).map(|v| {
        let l = v.into_limbs();
        U256 { l0: l[0], l1: l[1], l2: l[2], l3: l[3] }
    })
}

/// Relies on `ruint::Uint::checked_mul`: the product, or `None` when it does
/// not fit in 256 bits.
#[verifier::external_body]
pub(crate) fn checked_mul(a: U256, b: U256) -> (r: Option<U256>)
    ensures
        r is Some <==> a@ * b@ < two256(),
        r is Some ==> r->Some_0@ == a@ * b@,
{
    let x = ruint::Uint::<256, 4>::from_limbs([a.l0, a.l1, a.l2, a.l3]);
    let y = ruint::Uint::<256, 4>::from_limbs([b.l0, b.l1, b.l2, b.l3]);
    x.checked_mul(y).map(|v| {
        let l = v.into_limbs();
        U256 { l0: l[0], l1: l[1], l2: l[2], l3: l[3] }
    })
}

/// Relies on `ruint::Uint::wrapping_sub`: the difference modulo 2^256.
#[verifier::external_body]
pub(crate) fn wrapping_sub(a: U256, b: U256) -> (r: U256)
    ensures
        r@ == (a@ - b@) % (two256() as int),
{
    let x = ruint::Uint::<256, 4>::from_limbs([a.l0, a.l1, a.l2, a.l3]);
    let y = ruint::Uint::<256, 4>::from_limbs([b.l0, b.l1, b.l2, b.l3]);
    let l = x.wrapping_sub(y).into_limbs();
    U256 { l0: l[0], l1: l[1], l2: l[2], l3: l[3] }
}

/// Relies on `ruint::Uint::wrapping_div`: the quotient rounded down; it
/// panics on a zero divisor, which `requires` rules out.
#[verifier::external_body]
pub(crate) fn div(a: U256, b: U256) -> (r: U256)
    requires
        b@ != 0,
    ensures
        r@ == a@ / b@,
{
    let x = ruint::Uint::<256, 4>::from_limbs([a.l0, a.l1, a.l2, a.l3]);
    let y = ruint::Uint::<256, 4>::from_limbs([b.l0, b.l1, b.l2, b.l3]);
    let l = x.wrapping_div(y).into_limbs();
    U256 { l0: l[0], l1: l[1], l2: l[2], l3: l[3] }
}

/// Relies on `ruint::Uint::wrapping_shl`: `a * 2^n` modulo 2^256.
#[verifier::external_body]
pub(crate) fn shl(a: U256, n: usize) -> (r: U256)
    requires
        n < 256,
    ensures
        r@ == (a@ * pow2(n as nat)) % two256(),
{
    let x = ruint::Uint::<256, 4>::from_limbs([a.l0, a.l1, a.l2, a.l3]);
    let l = x.wrapping_shl(n).into_limbs();
    U256 { l0: l[0], l1: l[1], l2: l[2], l3: l[3] }
}

/// Relies on `ruint::Uint::wrapping_shr`: `a / 2^n` rounded down.
#[verifier::external_body]
pub(crate) fn shr(a: U256, n: usize) -> (r: U256)
    requires
        n < 256,
    ensures
        r@ == a@ / pow2(n as nat),
{
    let x = ruint::Uint::<256, 4>::from_limbs([a.l0, a.l1, a.l2, a.l3]);
    let l = x.wrapping_shr(n).into_limbs();
    U256 { l0: l[0], l1: l[1], l2: l[2], l3: l[3] }
}

} // verus!
