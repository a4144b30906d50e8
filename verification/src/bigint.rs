//! Arbitrary-precision integers.
//!
//! `num_bigint::BigInt` is opaque to the verifier. Everything the engine
//! knows about such a value is the mathematical integer it stands for,
//! [`big_value`], and the functions below are the only places where the
//! arithmetic of `num_bigint` is called. Their contracts are taken on trust.

use vstd::prelude::*;
use num_bigint::BigInt;
use num_traits::{Euclid, Signed, Zero};

verus! {

#[verifier::external_type_specification]
#[verifier::external_body]
pub struct ExBigInt(num_bigint::BigInt);

/// The mathematical integer that a `BigInt` stands for.
pub uninterp spec fn big_value(b: BigInt) -> int;

/// The integers that a sequence of `BigInt`s stands for.
pub open spec fn big_values(s: Seq<BigInt>) -> Seq<int> {
    s.map_values(|b: BigInt| big_value(b))
}

/// `<BigInt as Zero>::zero`: the integer zero.
#[verifier::external_body]
pub(crate) fn big_zero() -> (r: BigInt)
    ensures
        big_value(r) == 0,
{
    BigInt::zero()
}

/// `<BigInt as From<u64>>::from`: the result stands for the number given.
#[verifier::external_body]
pub(crate) fn big_from_u64(n: u64) -> (r: BigInt)
    ensures
        big_value(r) == n,
{
    BigInt::from(n)
}

/// `<BigInt as Clone>::clone`: the copy stands for the same integer.
#[verifier::external_body]
pub(crate) fn big_clone(a: &BigInt) -> (r: BigInt)
    ensures
        big_value(r) == big_value(*a),
{
    a.clone()
}

/// `&BigInt + &BigInt`: exact addition, no wrapping.
#[verifier::external_body]
pub(crate) fn big_add(a: &BigInt, b: &BigInt) -> (r: BigInt)
    ensures
        big_value(r) == big_value(*a) + big_value(*b),
{
    a + b
}

/// `&BigInt - &BigInt`: exact subtraction; the result may be negative.
#[verifier::external_body]
pub(crate) fn big_sub(a: &BigInt, b: &BigInt) -> (r: BigInt)
    ensures
        big_value(r) == big_value(*a) - big_value(*b),
{
    a - b
}

/// `&BigInt * &BigInt`: exact multiplication.
#[verifier::external_body]
pub(crate) fn big_mul(a: &BigInt, b: &BigInt) -> (r: BigInt)
    ensures
        big_value(r) == big_value(*a) * big_value(*b),
{
    a * b
}

/// `<BigInt as Euclid>::rem_euclid`: the least non-negative remainder of `a`
/// by `m`. The call divides, so a zero `m` is left out.
#[verifier::external_body]
pub(crate) fn big_rem_euclid(a: &BigInt, m: &BigInt) -> (r: BigInt)
    requires
        big_value(*m) != 0,
    ensures
        big_value(r) == big_value(*a) % big_value(*m),
{
    a.rem_euclid(m)
}

/// `<BigInt as PartialEq>::eq`: two values are equal exactly when they stand
/// for the same integer.
#[verifier::external_body]
pub(crate) fn big_eq(a: &BigInt, b: &BigInt) -> (r: bool)
    ensures
        r == (big_value(*a) == big_value(*b)),
{
    a == b
}

/// `<BigInt as Signed>::is_positive`: whether the value is greater than zero.
#[verifier::external_body]
pub(crate) fn big_is_positive(a: &BigInt) -> (r: bool)
    ensures
        r == (big_value(*a) > 0),
{
    a.is_positive()
}

} // verus!
