//! Asset identifiers, their order and their byte form.

use vstd::prelude::*;
use vstd::bytes::{
    lemma_auto_spec_u128_to_from_le_bytes, spec_u128_from_le_bytes, spec_u128_to_le_bytes,
    u128_from_le_bytes, u128_to_le_bytes,
};
use vstd::slice::slice_subrange;

verus! {

/// The identifier of an asset, and of the contract that issues it.
/// Identifiers are ordered by `block`, then by `tx`.
#[derive(Clone, Copy, Debug, PartialEq, Eq, Structural, Hash)]
pub struct AlkaneId {
    pub block: u128,
    pub tx: u128,
}

/// The number of bytes that an identifier takes.
pub const ID_BYTES: usize = 32;

/// The byte form of an identifier: `block`, then `tx`, each as sixteen
/// little-endian bytes.
pub open spec fn id_bytes(id: AlkaneId) -> Seq<u8> {
    spec_u128_to_le_bytes(id.block) + spec_u128_to_le_bytes(id.tx)
}

/// The identifier whose byte form starts at `offset` in `bytes`.
pub open spec fn id_at(bytes: Seq<u8>, offset: int) -> AlkaneId {
    AlkaneId {
        block: spec_u128_from_le_bytes(bytes.subrange(offset, offset + 16)),
        tx: spec_u128_from_le_bytes(bytes.subrange(offset + 16, offset + 32)),
    }
}

/// The pair in canonical order: the smaller identifier first.
pub open spec fn sorted_pair(a: AlkaneId, b: AlkaneId) -> (AlkaneId, AlkaneId) {
    if a.precedes(b) {
        (a, b)
    } else {
        (b, a)
    }
}

impl AlkaneId {
    /// The identifier with the given parts.
    pub fn new(block: u128, tx: u128) -> (r: Self)
        ensures
            r == (AlkaneId { block, tx }),
    {
        AlkaneId { block, tx }
    }

    /// The strict order of identifiers: by `block`, then by `tx`.
    pub open spec fn precedes(self, other: AlkaneId) -> bool {
        self.block < other.block || (self.block == other.block && self.tx < other.tx)
    }

    /// Whether `self` comes strictly before `other`.
    pub fn lt(&self, other: &AlkaneId) -> (r: bool)
        ensures
            r == self.precedes(*other),
    {
        self.block < other.block || (self.block == other.block && self.tx < other.tx)
    }

    /// The byte form of the identifier.
    pub fn to_bytes(&self) -> (r: Vec<u8>)
        ensures
            r@ == id_bytes(*self),
            r@.len() == ID_BYTES,
    {
        let mut bytes = u128_to_le_bytes(self.block);
        let tx = u128_to_le_bytes(self.tx);
        bytes.extend_from_slice(tx.as_slice());
        assert(bytes@ =~= id_bytes(*self));
        bytes
    }

    /// Reads an identifier from `bytes` at `offset`. `None` where fewer than
    /// 32 bytes follow the offset.
    pub fn read(bytes: &[u8], offset: usize) -> (r: Option<AlkaneId>)
        ensures
            r is Some <==> offset + ID_BYTES <= bytes@.len(),
            r is Some ==> r->0 == id_at(bytes@, offset as int),
    {
        if bytes.len() < ID_BYTES || offset > bytes.len() - ID_BYTES {
            return None;
        }
        let block = u128_from_le_bytes(slice_subrange(bytes, offset, offset + 16));
        let tx = u128_from_le_bytes(slice_subrange(bytes, offset + 16, offset + 32));
        Some(AlkaneId { block, tx })
    }
}

/// Reading back the byte form of an identifier gives the identifier, also
/// where other bytes stand before and after it.
pub proof fn lemma_id_round_trip(before: Seq<u8>, id: AlkaneId, after: Seq<u8>)
    ensures
        id_bytes(id).len() == ID_BYTES,
        id_at(before + id_bytes(id) + after, before.len() as int) == id,
{
    lemma_auto_spec_u128_to_from_le_bytes();
    let all = before + id_bytes(id) + after;
    let n = before.len() as int;
    assert(all.subrange(n, n + 16) =~= spec_u128_to_le_bytes(id.block));
    assert(all.subrange(n + 16, n + 32) =~= spec_u128_to_le_bytes(id.tx));
}

/// Any 32 bytes are the byte form of the identifier read from them.
pub proof fn law_read_bytes_are_byte_form(bytes: Seq<u8>, offset: int)
    requires
        0 <= offset,
        offset + ID_BYTES <= bytes.len(),
    ensures
        id_bytes(id_at(bytes, offset)) == bytes.subrange(offset, offset + ID_BYTES),
{
    lemma_auto_spec_u128_to_from_le_bytes();
    assert(id_bytes(id_at(bytes, offset)) =~= bytes.subrange(offset, offset + 16)
        + bytes.subrange(offset + 16, offset + 32));
    assert(bytes.subrange(offset, offset + 16) + bytes.subrange(offset + 16, offset + 32)
        =~= bytes.subrange(offset, offset + ID_BYTES));
}

/// Puts a pair of identifiers in canonical order: the smaller one first.
pub fn sort_alkanes(pair: (AlkaneId, AlkaneId)) -> (r: (AlkaneId, AlkaneId))
    ensures
        r == sorted_pair(pair.0, pair.1),
{
    let (a, b) = pair;
    if a.lt(&b) {
        (a, b)
    } else {
        (b, a)
    }
}

/// The canonical order of a pair does not depend on the order in which the
/// two identifiers are given, and it holds the same two identifiers.
pub proof fn lemma_sorted_pair_canonical(a: AlkaneId, b: AlkaneId)
    ensures
        sorted_pair(a, b) == sorted_pair(b, a),
        sorted_pair(a, b) == (a, b) || sorted_pair(a, b) == (b, a),
        a != b ==> sorted_pair(a, b).0.precedes(sorted_pair(a, b).1),
{
}

/// The byte forms of two identifiers, one after the other.
pub fn join_ids(a: AlkaneId, b: AlkaneId) -> (r: Vec<u8>)
    ensures
        r@ == id_bytes(a) + id_bytes(b),
{
    let mut result = a.to_bytes();
    let value = b.to_bytes();
    result.extend_from_slice(value.as_slice());
    assert(result@ =~= id_bytes(a) + id_bytes(b));
    result
}

/// The byte forms of the two identifiers of a pair, one after the other.
pub fn join_ids_from_tuple(v: (AlkaneId, AlkaneId)) -> (r: Vec<u8>)
    ensures
        r@ == id_bytes(v.0) + id_bytes(v.1),
{
    join_ids(v.0, v.1)
}

} // verus!
