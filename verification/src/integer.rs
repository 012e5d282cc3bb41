//! The boundary to `num-bigint`: the type `BigInt`, the integer that a value
//! of it stands for, and one wrapper for each of its operations that the
//! field arithmetic calls. Nothing in this file is proved: each contract
//! restates what `num-bigint` documents of the operation, and the proofs
//! of the other modules rest on it.

use num_bigint::BigInt;
use num_traits::{One, Zero};
use vstd::arithmetic::power::pow;
use vstd::prelude::*;

verus! {

/// `num_bigint::BigInt`, an arbitrary-precision signed integer. Its digits
/// stay hidden: proofs know a value only through [`int_value`].
#[verifier::external_type_specification]
#[verifier::external_body]
pub struct ExBigInt(num_bigint::BigInt);

/// The mathematical integer that a `BigInt` holds.
pub uninterp spec fn int_value(n: BigInt) -> int;

/// The text that `BigInt`'s `to_string` gives for the integer `v`: its
/// decimal digits, which depend on the integer alone.
pub uninterp spec fn decimal_text(v: int) -> Seq<char>;

/// `Zero::zero` for `BigInt`: the integer 0.
#[verifier::external_body]
pub(crate) fn zero() -> (r: BigInt)
    ensures
        int_value(r) == 0,
{
    Zero::zero()
}

/// `One::one` for `BigInt`: the integer 1.
#[verifier::external_body]
pub(crate) fn one() -> (r: BigInt)
    ensures
        int_value(r) == 1,
{
    One::one()
}

/// `BigInt::from` on an `i32`: the same integer, widened.
#[verifier::external_body]
pub(crate) fn from_i32(v: i32) -> (r: BigInt)
    ensures
        int_value(r) == v,
{
    BigInt::from(v)
}

/// `Clone::clone` for `BigInt`: a copy that holds the same integer.
#[verifier::external_body]
pub(crate) fn duplicate(n: &BigInt) -> (r: BigInt)
    ensures
        int_value(r) == int_value(*n),
{
    n.clone()
}

/// `Zero::is_zero` for `BigInt`: whether the integer is 0.
#[verifier::external_body]
pub(crate) fn is_zero(n: &BigInt) -> (r: bool)
    ensures
        r == (int_value(*n) == 0),
{
    n.is_zero()
}

/// `==` on `BigInt`: whether both hold the same integer.
#[verifier::external_body]
pub(crate) fn same(a: &BigInt, b: &BigInt) -> (r: bool)
    ensures
        r == (int_value(*a) == int_value(*b)),
{
    a == b
}

/// `<` on `BigInt`: the order of the integers.
#[verifier::external_body]
pub(crate) fn less(a: &BigInt, b: &BigInt) -> (r: bool)
    ensures
        r == (int_value(*a) < int_value(*b)),
{
    a < b
}

/// `+` on two `&BigInt`: the exact sum.
#[verifier::external_body]
pub(crate) fn plus(a: &BigInt, b: &BigInt) -> (r: BigInt)
    ensures
        int_value(r) == int_value(*a) + int_value(*b),
{
    a + b
}

/// `-` on two `&BigInt`: the exact difference, which may be negative.
#[verifier::external_body]
pub(crate) fn minus(a: &BigInt, b: &BigInt) -> (r: BigInt)
    ensures
        int_value(r) == int_value(*a) - int_value(*b),
{
    a - b
}

/// `*` on two `&BigInt`: the exact product.
#[verifier::external_body]
pub(crate) fn times(a: &BigInt, b: &BigInt) -> (r: BigInt)
    ensures
        int_value(r) == int_value(*a) * int_value(*b),
{
    a * b
}

/// `BigInt::modpow`: `base` raised to `exponent`, reduced modulo `modulus`.
///
/// The outside function panics on a negative exponent and on a zero modulus.
/// For a positive modulus it rounds like a floored modulo, so the result lies
/// in `[0, modulus)` whatever the sign of `base`; that is what `%` means on
/// `int`. Negative moduli are left out: the field arithmetic has none.
#[verifier::external_body]
pub(crate) fn modpow(base: &BigInt, exponent: &BigInt, modulus: &BigInt) -> (r: BigInt)
    requires
        int_value(*exponent) >= 0,
        int_value(*modulus) > 0,
    ensures
        int_value(r) == pow(int_value(*base), int_value(*exponent) as nat) % int_value(*modulus),
{
    base.modpow(exponent, modulus)
}

/// `ToString::to_string` for `BigInt`, which goes through its `Display`:
/// the decimal text of the integer.
#[verifier::external_body]
pub(crate) fn to_decimal(n: &BigInt) -> (s: String)
    ensures
        s@ == decimal_text(int_value(*n)),
{
    n.to_string()
}

} // verus!
