//! Transfers of assets, the parcels that carry them, and what a call receives
//! and answers.

use vstd::prelude::*;
use crate::id::AlkaneId;

verus! {

/// An amount of one asset.
#[derive(Clone, Copy, Debug, PartialEq, Eq, Structural)]
pub struct AlkaneTransfer {
    pub id: AlkaneId,
    pub value: u128,
}

/// What a call answers: the assets it hands back, and data.
#[derive(Clone, Debug)]
pub struct CallResponse {
    pub alkanes: Vec<AlkaneTransfer>,
    pub data: Vec<u8>,
}

/// A call to another contract: its target and the numbers it is given. The
/// first number selects the operation.
#[derive(Clone, Debug)]
pub struct Cellpack {
    pub target: AlkaneId,
    pub inputs: Vec<u128>,
}

/// A call that a contract asks its host to make, with the assets to attach.
#[derive(Clone, Debug)]
pub struct OutgoingCall {
    pub cellpack: Cellpack,
    pub alkanes: Vec<AlkaneTransfer>,
}

/// What a contract knows of the call it is serving. The assets in
/// `incoming_alkanes` have already been credited to the contract.
#[derive(Clone, Debug)]
pub struct Context {
    pub myself: AlkaneId,
    pub caller: AlkaneId,
    pub incoming_alkanes: Vec<AlkaneTransfer>,
    pub height: u64,
}

/// The total amount of asset `id` in a parcel.
pub open spec fn amount_of(parcel: Seq<AlkaneTransfer>, id: AlkaneId) -> nat
    decreases parcel.len(),
{
    if parcel.len() == 0 {
        0
    } else {
        amount_of(parcel.drop_last(), id) + if parcel.last().id == id {
            parcel.last().value as nat
        } else {
            0
        }
    }
}

/// Whether the total of every asset in the parcel fits in 128 bits, so that
/// the parcel can be held as a balance sheet.
pub open spec fn sheet_fits(parcel: Seq<AlkaneTransfer>) -> bool {
    forall|i: int| 0 <= i < parcel.len() ==> amount_of(parcel, #[trigger] parcel[i].id) <= u128::MAX
}

/// The total of an asset grows with the parcel.
pub proof fn lemma_amount_of_prefix(parcel: Seq<AlkaneTransfer>, n: int, id: AlkaneId)
    requires
        0 <= n <= parcel.len(),
    ensures
        amount_of(parcel.take(n), id) <= amount_of(parcel, id),
    decreases parcel.len() - n,
{
    if n < parcel.len() {
        lemma_amount_of_prefix(parcel, n + 1, id);
        assert(parcel.take(n + 1).drop_last() =~= parcel.take(n));
    } else {
        assert(parcel.take(n) =~= parcel);
    }
}

/// A parcel holds nothing of an asset that none of its entries names.
pub proof fn lemma_amount_of_absent(parcel: Seq<AlkaneTransfer>, id: AlkaneId)
    requires
        forall|i: int| 0 <= i < parcel.len() ==> parcel[i].id != id,
    ensures
        amount_of(parcel, id) == 0,
    decreases parcel.len(),
{
    if parcel.len() > 0 {
        lemma_amount_of_absent(parcel.drop_last(), id);
    }
}

/// The total amount of asset `id` in the parcel, or `None` where it does not
/// fit in 128 bits.
pub fn total_of(parcel: &Vec<AlkaneTransfer>, id: &AlkaneId) -> (r: Option<u128>)
    ensures
        r is Some <==> amount_of(parcel@, *id) <= u128::MAX,
        r is Some ==> r->0 == amount_of(parcel@, *id),
{
    let mut sum: u128 = 0;
    let mut i: usize = 0;
    while i < parcel.len()
        invariant
            0 <= i <= parcel.len(),
            sum == amount_of(parcel@.take(i as int), *id),
        decreases parcel.len() - i,
    {
        proof {
            assert(parcel@.take(i + 1).drop_last() =~= parcel@.take(i as int));
            lemma_amount_of_prefix(parcel@, i + 1, *id);
        }
        if parcel[i].id == *id {
            match sum.checked_add(parcel[i].value) {
                Some(s) => {
                    sum = s;
                },
                None => {
                    return None;
                },
            }
        }
        i += 1;
    }
    proof {
        assert(parcel@.take(i as int) =~= parcel@);
    }
    Some(sum)
}

/// Whether the parcel can be held as a balance sheet: whether the total of
/// each of its assets fits in 128 bits.
pub fn fits_sheet(parcel: &Vec<AlkaneTransfer>) -> (r: bool)
    ensures
        r == sheet_fits(parcel@),
{
    let mut i: usize = 0;
    while i < parcel.len()
        invariant
            0 <= i <= parcel.len(),
            forall|j: int| 0 <= j < i ==> amount_of(parcel@, #[trigger] parcel@[j].id) <= u128::MAX,
        decreases parcel.len() - i,
    {
        if total_of(parcel, &parcel[i].id).is_none() {
            return false;
        }
        i += 1;
    }
    true
}

impl CallResponse {
    /// The response that hands back nothing.
    pub fn new() -> (r: Self)
        ensures
            r.alkanes@ == Seq::<AlkaneTransfer>::empty(),
            r.data@ == Seq::<u8>::empty(),
    {
        CallResponse { alkanes: Vec::new(), data: Vec::new() }
    }

    /// The response that hands back the assets it was given, and no data.
    pub fn forward(incoming: &Vec<AlkaneTransfer>) -> (r: Self)
        ensures
            r.alkanes@ == incoming@,
            r.data@ == Seq::<u8>::empty(),
    {
        CallResponse { alkanes: copy_parcel(incoming), data: Vec::new() }
    }
}

/// A copy of a parcel.
pub fn copy_parcel(parcel: &Vec<AlkaneTransfer>) -> (r: Vec<AlkaneTransfer>)
    ensures
        r@ == parcel@,
{
    let mut out: Vec<AlkaneTransfer> = Vec::new();
    let mut i: usize = 0;
    while i < parcel.len()
        invariant
            0 <= i <= parcel.len(),
            out@ == parcel@.take(i as int),
        decreases parcel.len() - i,
    {
        out.push(parcel[i]);
        assert(out@ =~= parcel@.take(i + 1));
        i += 1;
    }
    assert(parcel@.take(i as int) =~= parcel@);
    out
}

} // verus!
