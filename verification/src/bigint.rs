use vstd::prelude::*;

use std::rc::Rc;

verus! {

/// Arbitrary-precision signed integers come from an outside library; a value
/// of that type is opaque here and is modelled by the integer it holds.
#[verifier::external_type_specification]
#[verifier::external_body]
pub struct ExBigInt(num_bigint::BigInt);

/// The integer that an arbitrary-precision value holds.
pub uninterp spec fn int_of(n: num_bigint::BigInt) -> int;

/// Relies on num_bigint::BigInt::from: the value holds exactly the given integer.
#[verifier::external_body]
pub(crate) fn big_from_i64(n: i64) -> (r: num_bigint::BigInt)
    ensures
        int_of(r) == n,
{
    num_bigint::BigInt::from(n)
}

/// Relies on num_bigint::BigInt::from: the value holds exactly the given
/// unsigned integer.
#[verifier::external_body]
pub(crate) fn big_from_usize(n: usize) -> (r: num_bigint::BigInt)
    ensures
        int_of(r) == n,
{
    num_bigint::BigInt::from(n as u64)
}

/// Relies on Clone::clone for num_bigint::BigInt: the copy holds the same integer.
pub assume_specification[ <num_bigint::BigInt as Clone>::clone ](a: &num_bigint::BigInt) -> (r:
    num_bigint::BigInt)
    ensures
        int_of(r) == int_of(*a),
;

/// Relies on addition of num_bigint::BigInt references: the result holds the sum.
#[verifier::external_body]
pub(crate) fn big_add(a: &num_bigint::BigInt, b: &num_bigint::BigInt) -> (r: num_bigint::BigInt)
    ensures
        int_of(r) == int_of(*a) + int_of(*b),
{
    a + b
}

/// Relies on subtraction of num_bigint::BigInt references: the result holds the
/// difference.
#[verifier::external_body]
pub(crate) fn big_sub(a: &num_bigint::BigInt, b: &num_bigint::BigInt) -> (r: num_bigint::BigInt)
    ensures
        int_of(r) == int_of(*a) - int_of(*b),
{
    a - b
}

/// Relies on multiplication of num_bigint::BigInt references: the result holds
/// the product.
#[verifier::external_body]
pub(crate) fn big_mul(a: &num_bigint::BigInt, b: &num_bigint::BigInt) -> (r: num_bigint::BigInt)
    ensures
        int_of(r) == int_of(*a) * int_of(*b),
{
    a * b
}

/// Relies on negation of a num_bigint::BigInt reference: the result holds the
/// additive inverse.
#[verifier::external_body]
pub(crate) fn big_neg(a: &num_bigint::BigInt) -> (r: num_bigint::BigInt)
    ensures
        int_of(r) == -int_of(*a),
{
    -a
}

/// Relies on num_bigint::BigInt's addition with an unsigned machine integer.
#[verifier::external_body]
pub(crate) fn big_add_usize(a: &num_bigint::BigInt, u: usize) -> (r: num_bigint::BigInt)
    ensures
        int_of(r) == int_of(*a) + u,
{
    a.clone() + (u as u64)
}

/// Relies on num_bigint::BigInt's subtraction of an unsigned machine integer.
#[verifier::external_body]
pub(crate) fn big_sub_usize(a: &num_bigint::BigInt, u: usize) -> (r: num_bigint::BigInt)
    ensures
        int_of(r) == int_of(*a) - u,
{
    a.clone() - (u as u64)
}

/// Relies on num_bigint::BigInt's multiplication by an unsigned machine integer.
#[verifier::external_body]
pub(crate) fn big_mul_usize(a: &num_bigint::BigInt, u: usize) -> (r: num_bigint::BigInt)
    ensures
        int_of(r) == int_of(*a) * u,
{
    a.clone() * (u as u64)
}

/// Relies on PartialEq for num_bigint::BigInt: equality of the held integers.
#[verifier::external_body]
pub(crate) fn big_eq(a: &num_bigint::BigInt, b: &num_bigint::BigInt) -> (r: bool)
    ensures
        r == (int_of(*a) == int_of(*b)),
{
    a == b
}

/// Relies on num_bigint::BigInt::sign: the sign is Plus exactly for positive
/// values.
#[verifier::external_body]
pub(crate) fn big_is_positive(a: &num_bigint::BigInt) -> (r: bool)
    ensures
        r == (int_of(*a) > 0),
{
    matches!(a.sign(), num_bigint::Sign::Plus)
}

/// Relies on num_integer::Integer::mod_floor for num_bigint::BigInt: for a
/// positive modulus the result is the least non-negative residue.
#[verifier::external_body]
pub(crate) fn big_mod_floor(a: &num_bigint::BigInt, m: &num_bigint::BigInt) -> (r:
    num_bigint::BigInt)
    requires
        int_of(*m) > 0,
    ensures
        int_of(r) == int_of(*a) % int_of(*m),
{
    num_integer::Integer::mod_floor(a, m)
}

/// Relies on std's Rc::clone: the new handle refers to the same value.
#[verifier::external_body]
pub(crate) fn rc_dup(rc: &Rc<num_bigint::BigInt>) -> (r: Rc<num_bigint::BigInt>)
    ensures
        r == *rc,
{
    Rc::clone(rc)
}

} // verus!
