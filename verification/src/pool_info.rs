//! The summary that a pool gives of itself, and its byte form.

use vstd::prelude::*;
use vstd::bytes::{
    lemma_auto_spec_u128_to_from_le_bytes, lemma_auto_spec_u32_to_from_le_bytes,
    spec_u128_from_le_bytes, spec_u128_to_le_bytes, spec_u32_from_le_bytes, spec_u32_to_le_bytes,
    u128_from_le_bytes, u128_to_le_bytes, u32_from_le_bytes, u32_to_le_bytes,
};
use vstd::slice::{slice_subrange, slice_to_vec};
use vstd::utf8::{decode_utf8, encode_utf8, valid_utf8};
use crate::error::AmmError;
use crate::id::{id_at, id_bytes, lemma_id_round_trip, AlkaneId};

verus! {

/// The pair, the reserves, the supply and the name of a pool.
#[derive(Debug)]
pub struct PoolInfo {
    pub token_a: AlkaneId,
    pub token_b: AlkaneId,
    pub reserve_a: u128,
    pub reserve_b: u128,
    pub total_supply: u128,
    pub pool_name: String,
}

/// The number of bytes before the name in the byte form of a summary.
pub const POOL_INFO_HEADER: usize = 116;

/// The length of a name as the byte form records it: in 32 bits.
pub open spec fn recorded_length(len: nat) -> u32 {
    (len % 0x1_0000_0000) as u32
}

/// The bytes before the name in the byte form of a summary: the two assets,
/// the two reserves and the supply, each number as sixteen little-endian
/// bytes, and the length of the name as four.
pub open spec fn header_bytes(info: PoolInfo) -> Seq<u8> {
    id_bytes(info.token_a) + id_bytes(info.token_b) + spec_u128_to_le_bytes(info.reserve_a)
        + spec_u128_to_le_bytes(info.reserve_b) + spec_u128_to_le_bytes(info.total_supply)
        + spec_u32_to_le_bytes(recorded_length(encode_utf8(info.pool_name@).len()))
}

/// The byte form of a summary: the header, then the name in UTF-8.
pub open spec fn info_bytes(info: PoolInfo) -> Seq<u8> {
    header_bytes(info) + encode_utf8(info.pool_name@)
}

/// The length of the name that a byte form announces.
pub open spec fn announced_length(bytes: Seq<u8>) -> nat {
    spec_u32_from_le_bytes(bytes.subrange(112, 116)) as nat
}

/// The bytes of the name in a byte form.
pub open spec fn name_bytes(bytes: Seq<u8>) -> Seq<u8> {
    bytes.subrange(POOL_INFO_HEADER as int, POOL_INFO_HEADER + announced_length(bytes))
}

/// Whether `bytes` begin with the byte form of a summary: a header, and as
/// many bytes of valid UTF-8 as the header announces.
pub open spec fn well_formed(bytes: Seq<u8>) -> bool {
    &&& bytes.len() >= POOL_INFO_HEADER
    &&& bytes.len() >= POOL_INFO_HEADER + announced_length(bytes)
    &&& valid_utf8(name_bytes(bytes))
}

/// Whether `info` is the summary that `bytes` begin with.
pub open spec fn decodes_to(bytes: Seq<u8>, info: PoolInfo) -> bool {
    &&& info.token_a == id_at(bytes, 0)
    &&& info.token_b == id_at(bytes, 32)
    &&& info.reserve_a == spec_u128_from_le_bytes(bytes.subrange(64, 80))
    &&& info.reserve_b == spec_u128_from_le_bytes(bytes.subrange(80, 96))
    &&& info.total_supply == spec_u128_from_le_bytes(bytes.subrange(96, 112))
    &&& info.pool_name@ == decode_utf8(name_bytes(bytes))
}

/// `String::from_utf8` of std: the string that the bytes encode, where they
/// are valid UTF-8, and nothing where they are not.
#[verifier::external_body]
fn string_from_utf8(bytes: Vec<u8>) -> (r: Option<String>)
    ensures
        r is Some <==> valid_utf8(bytes@),
        r is Some ==> r->0@ == decode_utf8(bytes@),
{
    String::from_utf8(bytes).ok()
}

impl PoolInfo {
    /// The byte form of the summary.
    pub fn try_to_vec(&self) -> (r: Vec<u8>)
        ensures
            r@ == info_bytes(*self),
    {
        let mut bytes = self.token_a.to_bytes();
        let token_b = self.token_b.to_bytes();
        bytes.extend_from_slice(token_b.as_slice());
        let reserve_a = u128_to_le_bytes(self.reserve_a);
        bytes.extend_from_slice(reserve_a.as_slice());
        let reserve_b = u128_to_le_bytes(self.reserve_b);
        bytes.extend_from_slice(reserve_b.as_slice());
        let total_supply = u128_to_le_bytes(self.total_supply);
        bytes.extend_from_slice(total_supply.as_slice());
        let name = self.pool_name.as_str().as_bytes();
        let length = u32_to_le_bytes(record_length(name.len()));
        bytes.extend_from_slice(length.as_slice());
        assert(bytes@ =~= header_bytes(*self));
        bytes.extend_from_slice(name);
        assert(bytes@ =~= info_bytes(*self));
        bytes
    }

    /// Reads a summary from the front of `bytes`; what follows the name is
    /// not looked at. `Malformed` unless the bytes are [`well_formed`].
    pub fn from_vec(bytes: &[u8]) -> (r: Result<PoolInfo, AmmError>)
        ensures
            r is Ok <==> well_formed(bytes@),
            r is Ok ==> decodes_to(bytes@, r->Ok_0),
            r is Err ==> r->Err_0 == AmmError::Malformed,
    {
        if bytes.len() < POOL_INFO_HEADER {
            return Err(AmmError::Malformed);
        }
        let token_a = match AlkaneId::read(bytes, 0) {
            Some(id) => id,
            None => {
                return Err(AmmError::Malformed);
            },
        };
        let token_b = match AlkaneId::read(bytes, 32) {
            Some(id) => id,
            None => {
                return Err(AmmError::Malformed);
            },
        };
        let reserve_a = u128_from_le_bytes(slice_subrange(bytes, 64, 80));
        let reserve_b = u128_from_le_bytes(slice_subrange(bytes, 80, 96));
        let total_supply = u128_from_le_bytes(slice_subrange(bytes, 96, 112));
        let name_length = u32_from_le_bytes(slice_subrange(bytes, 112, 116));
        if bytes.len() - POOL_INFO_HEADER < name_length as usize {
            return Err(AmmError::Malformed);
        }
        let name = slice_subrange(bytes, POOL_INFO_HEADER, POOL_INFO_HEADER + name_length as usize);
        match string_from_utf8(slice_to_vec(name)) {
            None => Err(AmmError::Malformed),
            Some(pool_name) => Ok(
                PoolInfo { token_a, token_b, reserve_a, reserve_b, total_supply, pool_name },
            ),
        }
    }
}

/// The length of a name as the byte form records it.
fn record_length(len: usize) -> (r: u32)
    ensures
        r == recorded_length(len as nat),
{
    let wide: u64 = len as u64;
    (wide % 0x1_0000_0000) as u32
}

/// Reading back the byte form of a summary gives the summary, whatever
/// follows the byte form, as long as the name is shorter than 2^32 bytes.
pub proof fn law_info_round_trip(info: PoolInfo, after: Seq<u8>)
    requires
        encode_utf8(info.pool_name@).len() < 0x1_0000_0000,
    ensures
        well_formed(info_bytes(info) + after),
        decodes_to(info_bytes(info) + after, info),
{
    lemma_auto_spec_u128_to_from_le_bytes();
    lemma_auto_spec_u32_to_from_le_bytes();
    let name = encode_utf8(info.pool_name@);
    let bytes = info_bytes(info) + after;
    let rest = spec_u128_to_le_bytes(info.reserve_a) + spec_u128_to_le_bytes(info.reserve_b)
        + spec_u128_to_le_bytes(info.total_supply) + spec_u32_to_le_bytes(
        recorded_length(name.len()),
    ) + name + after;
    lemma_id_round_trip(Seq::<u8>::empty(), info.token_a, id_bytes(info.token_b) + rest);
    assert(Seq::<u8>::empty() + id_bytes(info.token_a) + (id_bytes(info.token_b) + rest) =~= bytes);
    lemma_id_round_trip(id_bytes(info.token_a), info.token_b, rest);
    assert(id_bytes(info.token_a) + id_bytes(info.token_b) + rest =~= bytes);
    assert(bytes.subrange(64, 80) =~= spec_u128_to_le_bytes(info.reserve_a));
    assert(bytes.subrange(80, 96) =~= spec_u128_to_le_bytes(info.reserve_b));
    assert(bytes.subrange(96, 112) =~= spec_u128_to_le_bytes(info.total_supply));
    assert(bytes.subrange(112, 116) =~= spec_u32_to_le_bytes(recorded_length(name.len())));
    assert(announced_length(bytes) == name.len());
    assert(name_bytes(bytes) =~= name);
    vstd::utf8::encode_utf8_valid_utf8(info.pool_name@);
    vstd::utf8::encode_utf8_decode_utf8(info.pool_name@);
}

} // verus!
