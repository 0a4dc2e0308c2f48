//! 320-bit unsigned arithmetic, done by `ruint`.
//!
//! The product of two 128-bit amounts does not fit in 128 bits, and the
//! pricing formulas multiply three factors: two amounts and a number of up to
//! a thousand. They therefore compute in `ruint`'s `Uint<320, 5>`, which
//! holds every such product. Verus does not look inside such a value: this
//! module names the limbs that it holds, defines the number that they stand
//! for, and states for each operation the crate uses what `ruint` documents
//! of it. Nothing in this module is proved; everything built on it is.

use vstd::prelude::*;

verus! {

/// `ruint::Uint`, an unsigned integer of `BITS` bits held in `LIMBS` 64-bit
/// limbs. Opaque to the verifier.
#[verifier::external_type_specification]
#[verifier::external_body]
#[verifier::reject_recursive_types(BITS)]
#[verifier::reject_recursive_types(LIMBS)]
pub struct ExUint<const BITS: usize, const LIMBS: usize>(ruint::Uint<BITS, LIMBS>);

/// `ruint::FromUintError`, which `ruint` returns when a `Uint` is too large
/// for the primitive type asked for. Opaque to the verifier.
#[verifier::external_type_specification]
#[verifier::external_body]
#[verifier::reject_recursive_types(T)]
pub struct ExFromUintError<T>(ruint::FromUintError<T>);

/// The 320-bit unsigned integer that all wide arithmetic here is done in.
pub type U320 = ruint::Uint<320, 5>;

/// The five limbs that a 320-bit integer holds, least significant first.
pub uninterp spec fn wide_limbs(x: ruint::Uint<320, 5>) -> Seq<u64>;

/// Two to the power 64, the weight of one limb.
pub open spec fn limb_base() -> nat {
    0x1_0000_0000_0000_0000
}

/// Two to the power 320: wide arithmetic wraps at this number.
pub open spec fn wide_modulus() -> nat {
    0x1_0000_0000_0000_0000_0000_0000_0000_0000_0000_0000_0000_0000_0000_0000_0000_0000_0000_0000_0000_0000nat
}

/// The number that a 320-bit integer stands for.
pub open spec fn value(x: U320) -> nat {
    let l = wide_limbs(x);
    (l[0] as nat) + limb_base() * ((l[1] as nat) + limb_base() * ((l[2] as nat) + limb_base() * ((
    l[3] as nat) + limb_base() * (l[4] as nat))))
}

/// `Uint::<320, 5>::from` on a `u128`. `ruint` documents that it panics only
/// when the argument does not fit, which a `u128` in 320 bits always does, and
/// that the result holds the same number.
#[verifier::external_body]
pub(crate) fn wide_from(x: u128) -> (r: U320)
    ensures
        wide_limbs(r).len() == 5,
        value(r) == x,
{
    U320::from(x)
}

/// `*` on two `Uint`s, which `ruint` implements by `wrapping_mul`: the
/// product, wrapping around at two to the power 320.
#[verifier::external_body]
pub(crate) fn wide_mul(a: U320, b: U320) -> (r: U320)
    ensures
        wide_limbs(r).len() == 5,
        value(r) == (value(a) * value(b)) % wide_modulus(),
{
    a * b
}

/// `+` on two `Uint`s, which `ruint` implements by `wrapping_add`: the sum,
/// wrapping around at two to the power 320.
#[verifier::external_body]
pub(crate) fn wide_add(a: U320, b: U320) -> (r: U320)
    ensures
        wide_limbs(r).len() == 5,
        value(r) == (value(a) + value(b)) % wide_modulus(),
{
    a + b
}

/// `/` on two `Uint`s: the quotient, rounded down. `ruint` panics on a zero
/// divisor, which the precondition rules out.
#[verifier::external_body]
pub(crate) fn wide_div(a: U320, b: U320) -> (r: U320)
    requires
        value(b) != 0,
    ensures
        wide_limbs(r).len() == 5,
        value(r) == value(a) / value(b),
{
    a / b
}

/// `<` on two `Uint`s: the order of the numbers they stand for.
#[verifier::external_body]
pub(crate) fn wide_lt(a: U320, b: U320) -> (r: bool)
    ensures
        r == (value(a) < value(b)),
{
    a < b
}

/// `u128::try_from` on a `Uint`: the same number where it fits in 128 bits,
/// and `ruint`'s overflow error where it does not.
#[verifier::external_body]
pub(crate) fn wide_to_u128(x: U320) -> (r: Result<u128, ruint::FromUintError<u128>>)
    ensures
        r is Ok <==> value(x) <= u128::MAX,
        r is Ok ==> r->Ok_0 == value(x),
{
    u128::try_from(x)
}

} // verus!
