use vstd::prelude::*;

verus! {

use vstd::arithmetic::power2::pow2;
use num_bigint::BigUint;

#[verifier::external_type_specification]
#[verifier::external_body]
pub struct ExBigUint(BigUint);

/// The natural number that a `BigUint` holds.
pub uninterp spec fn big_value(n: BigUint) -> nat;

/// Relies on `impl From<u64> for BigUint`: the big integer with that value.
#[verifier::external_body]
pub(crate) fn big_from_u64(x: u64) -> (r: BigUint)
    ensures
        big_value(r) == x as nat,
{
    BigUint::from(x)
}

/// Relies on `impl Mul for &BigUint`: exact unbounded multiplication.
#[verifier::external_body]
pub(crate) fn big_mul(a: &BigUint, b: &BigUint) -> (r: BigUint)
    ensures
        big_value(r) == big_value(*a) * big_value(*b),
{
    a * b
}

/// Relies on `impl Add for &BigUint`: exact unbounded addition.
#[verifier::external_body]
pub(crate) fn big_add(a: &BigUint, b: &BigUint) -> (r: BigUint)
    ensures
        big_value(r) == big_value(*a) + big_value(*b),
{
    a + b
}

/// Relies on `impl Sub<u32> for &BigUint`: exact subtraction of a small
/// constant; it panics when the subtrahend is larger, so that case is
/// excluded here.
#[verifier::external_body]
pub(crate) fn big_sub_u32(a: &BigUint, k: u32) -> (r: BigUint)
    requires
        big_value(*a) >= k,
    ensures
        big_value(r) == big_value(*a) - k,
{
    a - k
}

/// Relies on `impl Shl<u64> for &BigUint`: a left shift multiplies by 2^p.
#[verifier::external_body]
pub(crate) fn big_shl(a: &BigUint, p: u64) -> (r: BigUint)
    ensures
        big_value(r) == big_value(*a) * pow2(p as nat),
{
    a << p
}

/// Relies on `impl Shr<u64> for &BigUint`: a right shift divides by 2^p,
/// rounding down.
#[verifier::external_body]
pub(crate) fn big_shr(a: &BigUint, p: u64) -> (r: BigUint)
    ensures
        big_value(r) == big_value(*a) / pow2(p as nat),
{
    a >> p
}

/// Relies on `impl BitAnd for &BigUint` (digit-wise and): with an all-ones
/// mask 2^q - 1 the result is the low q bits, that is the value modulo 2^q.
#[verifier::external_body]
pub(crate) fn big_and(a: &BigUint, mask: &BigUint) -> (r: BigUint)
    ensures
        forall|q: nat|
            #[trigger] pow2(q) == big_value(*mask) + 1 ==> big_value(r) == big_value(*a) % pow2(q),
{
    a & mask
}

/// Relies on `BigUint::bits`: the fewest bits needed to express the value,
/// so the value lies in [2^(r-1), 2^r) when it is not zero.
#[verifier::external_body]
pub(crate) fn big_bits(n: &BigUint) -> (r: u64)
    ensures
        big_value(*n) < pow2(r as nat),
        r > 0 ==> pow2((r - 1) as nat) <= big_value(*n),
        (r == 0) == (big_value(*n) == 0),
{
    n.bits()
}

/// Relies on `impl PartialEq for BigUint`: the representation is kept
/// normalized, so structural equality coincides with numeric equality.
#[verifier::external_body]
pub(crate) fn big_eq(a: &BigUint, b: &BigUint) -> (r: bool)
    ensures
        r == (big_value(*a) == big_value(*b)),
{
    a == b
}

/// Relies on `impl num_traits::Zero for BigUint`: the zero test.
#[verifier::external_body]
pub(crate) fn big_is_zero(n: &BigUint) -> (r: bool)
    ensures
        r == (big_value(*n) == 0),
{
    num_traits::Zero::is_zero(n)
}

} // verus!
