//! Trusted view of `num_bigint` arbitrary-precision integers.
//!
//! A `BigUint` or `BigInt` is opaque to the verifier; the spec functions
//! `biguint_value` and `bigint_value` name the mathematical integer such a
//! value holds, and each wrapper states what one `num_bigint` operation does
//! to that integer.

use vstd::prelude::*;

verus! {

#[verifier::external_type_specification]
#[verifier::external_body]
pub struct ExBigUint(num_bigint::BigUint);

#[verifier::external_type_specification]
#[verifier::external_body]
pub struct ExBigInt(num_bigint::BigInt);

/// The non-negative integer a `BigUint` holds.
pub uninterp spec fn biguint_value(b: num_bigint::BigUint) -> int;

/// The integer a `BigInt` holds.
pub uninterp spec fn bigint_value(b: num_bigint::BigInt) -> int;

/// The integer denoted by a little-endian sequence of base-2^64 words.
pub open spec fn words_value(s: Seq<u64>) -> int
    decreases s.len(),
{
    if s.len() == 0 {
        0
    } else {
        s[0] + 0x10000000000000000 * words_value(s.drop_first())
    }
}

/// Truncated (round-toward-zero) quotient, the division `num_bigint` uses.
pub open spec fn trunc_div(a: int, b: int) -> int {
    if a >= 0 {
        a / b
    } else {
        -((-a) / b)
    }
}

/// Truncated remainder: the sign follows the dividend, as in `num_bigint`.
pub open spec fn trunc_rem(a: int, b: int) -> int {
    if a >= 0 {
        a % b
    } else {
        -((-a) % b)
    }
}

/// Relies on `BigUint::from::<u64>`: the value read from a machine word.
#[verifier::external_body]
pub fn bu_from_u64(x: u64) -> (r: num_bigint::BigUint)
    ensures
        biguint_value(r) == x as int,
{
    num_bigint::BigUint::from(x)
}

/// Relies on `BigUint::from::<u128>`: the value read from a 128-bit word.
#[verifier::external_body]
pub fn bu_from_u128(x: u128) -> (r: num_bigint::BigUint)
    ensures
        biguint_value(r) == x as int,
{
    num_bigint::BigUint::from(x)
}

/// Relies on `u128::try_from::<&BigUint>`: exact when the value fits.
#[verifier::external_body]
pub fn bu_to_u128(a: &num_bigint::BigUint) -> (r: u128)
    requires
        biguint_value(*a) < 0x100000000000000000000000000000000,
    ensures
        r as int == biguint_value(*a),
{
    u128::try_from(a).unwrap()
}

/// Relies on `Clone` for `BigUint`: an equal value.
#[verifier::external_body]
pub fn bu_clone(a: &num_bigint::BigUint) -> (r: num_bigint::BigUint)
    ensures
        biguint_value(r) >= 0,
        biguint_value(r) == biguint_value(*a),
{
    a.clone()
}

/// Relies on `Add` for `&BigUint`: the sum of the two values.
#[verifier::external_body]
pub fn bu_add(a: &num_bigint::BigUint, b: &num_bigint::BigUint) -> (r: num_bigint::BigUint)
    ensures
        biguint_value(r) >= 0,
        biguint_value(r) == biguint_value(*a) + biguint_value(*b),
{
    a + b
}

/// Relies on `Sub` for `&BigUint`: the difference; it panics on underflow,
/// so the minuend must not be smaller.
#[verifier::external_body]
pub fn bu_sub(a: &num_bigint::BigUint, b: &num_bigint::BigUint) -> (r: num_bigint::BigUint)
    requires
        biguint_value(*a) >= biguint_value(*b),
    ensures
        biguint_value(r) >= 0,
        biguint_value(r) == biguint_value(*a) - biguint_value(*b),
{
    a - b
}

/// Relies on `Mul` for `&BigUint`: the product of the two values.
#[verifier::external_body]
pub fn bu_mul(a: &num_bigint::BigUint, b: &num_bigint::BigUint) -> (r: num_bigint::BigUint)
    ensures
        biguint_value(r) >= 0,
        biguint_value(r) == biguint_value(*a) * biguint_value(*b),
{
    a * b
}

/// Relies on `Div` for `&BigUint`: the floor quotient; division by zero
/// panics, so the divisor must be positive.
#[verifier::external_body]
pub fn bu_div(a: &num_bigint::BigUint, b: &num_bigint::BigUint) -> (r: num_bigint::BigUint)
    requires
        biguint_value(*b) > 0,
    ensures
        biguint_value(r) >= 0,
        biguint_value(r) == biguint_value(*a) / biguint_value(*b),
{
    a / b
}

/// Relies on `Rem` for `&BigUint`: the remainder of floor division.
#[verifier::external_body]
pub fn bu_rem(a: &num_bigint::BigUint, b: &num_bigint::BigUint) -> (r: num_bigint::BigUint)
    requires
        biguint_value(*b) > 0,
    ensures
        biguint_value(r) >= 0,
        biguint_value(r) == biguint_value(*a) % biguint_value(*b),
{
    a % b
}

/// Relies on `BigUint::pow`: the value raised to the given power.
#[verifier::external_body]
pub fn bu_pow(a: &num_bigint::BigUint, e: u32) -> (r: num_bigint::BigUint)
    ensures
        biguint_value(r) >= 0,
        biguint_value(r) == vstd::arithmetic::power::pow(biguint_value(*a), e as nat),
{
    a.pow(e)
}

/// Relies on `PartialEq` for `BigUint`: equality of the values.
#[verifier::external_body]
pub fn bu_eq(a: &num_bigint::BigUint, b: &num_bigint::BigUint) -> (r: bool)
    ensures
        r == (biguint_value(*a) == biguint_value(*b)),
{
    a == b
}

/// Relies on `PartialOrd` for `BigUint`: order of the values.
#[verifier::external_body]
pub fn bu_lt(a: &num_bigint::BigUint, b: &num_bigint::BigUint) -> (r: bool)
    ensures
        r == (biguint_value(*a) < biguint_value(*b)),
{
    a < b
}

/// Relies on `BigUint::to_u64_digits`: the little-endian base-2^64 words of
/// the value.
#[verifier::external_body]
pub fn bu_to_u64_digits(a: &num_bigint::BigUint) -> (r: Vec<u64>)
    ensures
        words_value(r@) == biguint_value(*a),
{
    a.to_u64_digits()
}

/// Relies on `BigInt::from::<BigUint>`: the same integer, now signed.
#[verifier::external_body]
pub fn bi_from_biguint(a: &num_bigint::BigUint) -> (r: num_bigint::BigInt)
    ensures
        bigint_value(r) == biguint_value(*a),
        bigint_value(r) >= 0,
{
    num_bigint::BigInt::from(a.clone())
}

/// Relies on `BigInt::to_biguint`: defined exactly on non-negative values.
#[verifier::external_body]
pub fn bi_to_biguint(a: &num_bigint::BigInt) -> (r: Option<num_bigint::BigUint>)
    ensures
        r matches Option::Some(b) ==> bigint_value(*a) >= 0 && biguint_value(b)
            == bigint_value(*a),
        r matches Option::None ==> bigint_value(*a) < 0,
{
    a.to_biguint()
}

/// Relies on `BigInt::from::<i64>`: the value read from a machine word.
#[verifier::external_body]
pub fn bi_from_i64(x: i64) -> (r: num_bigint::BigInt)
    ensures
        bigint_value(r) == x as int,
{
    num_bigint::BigInt::from(x)
}

/// Relies on `Clone` for `BigInt`: an equal value.
#[verifier::external_body]
pub fn bi_clone(a: &num_bigint::BigInt) -> (r: num_bigint::BigInt)
    ensures
        bigint_value(r) == bigint_value(*a),
{
    a.clone()
}

/// Relies on `Add` for `&BigInt`: the sum of the two values.
#[verifier::external_body]
pub fn bi_add(a: &num_bigint::BigInt, b: &num_bigint::BigInt) -> (r: num_bigint::BigInt)
    ensures
        bigint_value(r) == bigint_value(*a) + bigint_value(*b),
{
    a + b
}

/// Relies on `Sub` for `&BigInt`: the difference of the two values.
#[verifier::external_body]
pub fn bi_sub(a: &num_bigint::BigInt, b: &num_bigint::BigInt) -> (r: num_bigint::BigInt)
    ensures
        bigint_value(r) == bigint_value(*a) - bigint_value(*b),
{
    a - b
}

/// Relies on `Mul` for `&BigInt`: the product of the two values.
#[verifier::external_body]
pub fn bi_mul(a: &num_bigint::BigInt, b: &num_bigint::BigInt) -> (r: num_bigint::BigInt)
    ensures
        bigint_value(r) == bigint_value(*a) * bigint_value(*b),
{
    a * b
}

/// Relies on `Div` for `&BigInt`: `num_bigint` truncates toward zero;
/// division by zero panics, so the divisor must be positive.
#[verifier::external_body]
pub fn bi_div(a: &num_bigint::BigInt, b: &num_bigint::BigInt) -> (r: num_bigint::BigInt)
    requires
        bigint_value(*b) > 0,
    ensures
        bigint_value(r) == trunc_div(bigint_value(*a), bigint_value(*b)),
{
    a / b
}

/// Relies on `Rem` for `&BigInt`: the remainder of truncated division, with
/// the sign of the dividend.
#[verifier::external_body]
pub fn bi_rem(a: &num_bigint::BigInt, b: &num_bigint::BigInt) -> (r: num_bigint::BigInt)
    requires
        bigint_value(*b) > 0,
    ensures
        bigint_value(r) == trunc_rem(bigint_value(*a), bigint_value(*b)),
{
    a % b
}

/// Relies on `PartialEq` for `BigInt`: equality of the values.
#[verifier::external_body]
pub fn bi_eq(a: &num_bigint::BigInt, b: &num_bigint::BigInt) -> (r: bool)
    ensures
        r == (bigint_value(*a) == bigint_value(*b)),
{
    a == b
}

/// Relies on `PartialOrd` for `BigInt`: order of the values.
#[verifier::external_body]
pub fn bi_lt(a: &num_bigint::BigInt, b: &num_bigint::BigInt) -> (r: bool)
    ensures
        r == (bigint_value(*a) < bigint_value(*b)),
{
    a < b
}

} // verus!
