//! A 256-bit number in the form in which it is stored: thirty-two
//! little-endian bytes.
//!
//! The number is one of `ruint`, which Verus does not look inside: this
//! module names the limbs that it holds and states what `ruint` documents of
//! the conversions used.

use vstd::prelude::*;
use crate::wide::limb_base;

verus! {

/// The 256-bit unsigned integer that is stored.
pub type U256 = ruint::Uint<256, 4>;

/// The four limbs that a 256-bit integer holds, least significant first.
pub uninterp spec fn limbs(x: ruint::Uint<256, 4>) -> Seq<u64>;

/// Two to the power 256: every stored number is below it.
pub open spec fn stored_modulus() -> nat {
    0x1_0000_0000_0000_0000_0000_0000_0000_0000_0000_0000_0000_0000_0000_0000_0000_0000nat
}

/// The number that a 256-bit integer stands for.
pub open spec fn value(x: U256) -> nat {
    let l = limbs(x);
    (l[0] as nat) + limb_base() * ((l[1] as nat) + limb_base() * ((l[2] as nat) + limb_base()
        * (l[3] as nat)))
}

/// Four limbs of 64 bits make 256 bits.
pub proof fn lemma_modulus_is_four_limbs()
    ensures
        stored_modulus() == limb_base() * limb_base() * limb_base() * limb_base(),
{
    let b = limb_base();
    assert(b * b == 0x1_0000_0000_0000_0000_0000_0000_0000_0000) by (nonlinear_arith)
        requires
            b == 0x1_0000_0000_0000_0000,
    ;
    assert(b * b * b == 0x1_0000_0000_0000_0000_0000_0000_0000_0000_0000_0000_0000_0000)
        by (nonlinear_arith)
        requires
            b == 0x1_0000_0000_0000_0000,
            b * b == 0x1_0000_0000_0000_0000_0000_0000_0000_0000,
    ;
    assert(b * b * b * b == stored_modulus()) by (nonlinear_arith)
        requires
            b == 0x1_0000_0000_0000_0000,
            b * b * b == 0x1_0000_0000_0000_0000_0000_0000_0000_0000_0000_0000_0000_0000,
            stored_modulus()
                == 0x1_0000_0000_0000_0000_0000_0000_0000_0000_0000_0000_0000_0000_0000_0000_0000_0000nat,
    ;
}

/// The number that little-endian bytes stand for.
pub open spec fn le_value(bytes: Seq<u8>) -> nat
    decreases bytes.len(),
{
    if bytes.len() == 0 {
        0
    } else {
        bytes[0] as nat + 256 * le_value(bytes.skip(1))
    }
}

/// `Uint::from_le_bytes` on 32 bytes: the number that the bytes stand for,
/// which always fits in 256 bits.
#[verifier::external_body]
fn wide_from_le_bytes(bytes: &Vec<u8>) -> (r: U256)
    requires
        bytes@.len() == 32,
    ensures
        limbs(r).len() == 4,
        value(r) == le_value(bytes@),
{
    let mut array = [0u8; 32];
    array.copy_from_slice(bytes);
    U256::from_le_bytes(array)
}

/// `Uint::to_le_bytes` into 32 bytes: the little-endian bytes of the number.
#[verifier::external_body]
fn wide_to_le_bytes(x: &U256) -> (r: Vec<u8>)
    ensures
        r@.len() == 32,
        le_value(r@) == value(*x),
{
    x.to_le_bytes::<32>().to_vec()
}

/// `Uint::MAX`: every bit set, so that every limb is the largest.
#[verifier::external_body]
fn wide_max() -> (r: U256)
    ensures
        limbs(r) == seq![u64::MAX, u64::MAX, u64::MAX, u64::MAX],
{
    U256::MAX
}

/// `Uint::ZERO`: every limb zero.
#[verifier::external_body]
fn wide_zero() -> (r: U256)
    ensures
        limbs(r) == seq![0u64, 0u64, 0u64, 0u64],
{
    U256::ZERO
}

/// A 256-bit number that can be stored.
#[derive(Clone, Copy)]
pub struct StorableU256(pub U256);

impl StorableU256 {
    /// The number that is wrapped.
    pub open spec fn number(&self) -> nat {
        value(self.0)
    }

    /// Wraps a number.
    pub fn new(number: U256) -> (r: Self)
        ensures
            r.0 == number,
    {
        StorableU256(number)
    }

    /// The number that is wrapped.
    pub fn into_inner(self) -> (r: U256)
        ensures
            r == self.0,
    {
        self.0
    }

    /// The number that 32 stored bytes stand for.
    pub fn from_bytes(v: Vec<u8>) -> (r: Self)
        requires
            v@.len() == 32,
        ensures
            r.number() == le_value(v@),
    {
        StorableU256(wide_from_le_bytes(&v))
    }

    /// The 32 bytes under which the number is stored.
    pub fn to_bytes(&self) -> (r: Vec<u8>)
        ensures
            r@.len() == 32,
            le_value(r@) == self.number(),
    {
        wide_to_le_bytes(&self.0)
    }

    /// The largest number: two to the power 256, less one.
    pub fn maximum() -> (r: Self)
        ensures
            r.number() == stored_modulus() - 1,
    {
        let r = StorableU256(wide_max());
        proof {
            lemma_modulus_is_four_limbs();
            let b: int = limb_base() as int;
            let m: int = u64::MAX as int;
            assert(m + b * (m + b * (m + b * m)) == b * b * b * b - 1) by (nonlinear_arith)
                requires
                    m == b - 1,
            ;
        }
        r
    }

    /// Zero.
    pub fn zero() -> (r: Self)
        ensures
            r.number() == 0,
    {
        StorableU256(wide_zero())
    }
}

} // verus!
