//! The factory: the registry of pools, one for each pair of assets, and the
//! entry points that find the pool of a pair and hand an operation on to it.
//!
//! The factory does not run a pool itself. Where an operation needs a pool,
//! the factory answers with the call that its host is to make.

use vstd::prelude::*;
use vstd::bytes::{spec_u128_from_le_bytes, spec_u128_to_le_bytes, u128_from_le_bytes, u128_to_le_bytes};
use vstd::slice::slice_subrange;
use crate::error::AmmError;
use crate::id::{id_bytes, sort_alkanes, sorted_pair, AlkaneId};
use crate::math::{lemma_product_fits, DEFAULT_FEE_AMOUNT_PER_1000, MAX_FEE_AMOUNT_PER_1000};
use crate::parcel::{AlkaneTransfer, CallResponse, Cellpack, Context, OutgoingCall};
use crate::wide::{wide_div, wide_from, wide_modulus, wide_mul, wide_to_u128};

verus! {

/// One pool of the registry: its pair in canonical order, its identifier,
/// and its trading fee where that is not the default.
#[derive(Clone, Copy, Debug, PartialEq, Eq)]
pub struct PoolEntry {
    pub token_a: AlkaneId,
    pub token_b: AlkaneId,
    pub pool: AlkaneId,
    pub fee_per_1000: Option<u128>,
}

/// The state of a factory.
pub struct AMMFactory {
    /// Whether the factory has been initialized.
    pub initialized: bool,
    /// The number under which the code of a pool is deployed.
    pub pool_factory_id: u128,
    /// The token whose holder may administer the factory.
    pub auth_token: AlkaneId,
    /// The trading fee of the pools for which no other has been set, in
    /// parts per thousand.
    pub default_fee_per_1000: u128,
    /// The registry: the pools by their pairs.
    pub pools: Vec<PoolEntry>,
    /// The enumeration: the pools in the order in which they were created,
    /// one position for each. A position whose pool cannot be read any more
    /// holds nothing.
    pub listing: Vec<Option<AlkaneId>>,
}

/// The operation numbers of a pool that the factory calls.
pub const POOL_OP_INIT: u128 = 0;

pub const POOL_OP_ADD_LIQUIDITY: u128 = 1;

pub const POOL_OP_BURN: u128 = 2;

pub const POOL_OP_SWAP: u128 = 3;

pub const POOL_OP_COLLECT_FEES: u128 = 10;

pub const POOL_OP_GET_RESERVES: u128 = 97;

pub const POOL_OP_DETAILS: u128 = 999;

/// The operation of a factory that answers with the trading fee of a pool.
pub const FACTORY_OP_POOL_FEE: u128 = 23;

/// The block under which deployed code is addressed.
pub const TEMPLATE_BLOCK: u128 = 6;

/// The block under which created contracts are addressed.
pub const INSTANCE_BLOCK: u128 = 2;

/// The registry as a map from pairs in canonical order to entries. A later
/// entry for a pair would replace an earlier one; a well-formed registry has
/// one entry for a pair at most.
pub open spec fn registry_map(entries: Seq<PoolEntry>) -> Map<(AlkaneId, AlkaneId), PoolEntry>
    decreases entries.len(),
{
    if entries.len() == 0 {
        Map::empty()
    } else {
        registry_map(entries.drop_last()).insert(
            (entries.last().token_a, entries.last().token_b),
            entries.last(),
        )
    }
}

/// A pair is in the registry's map exactly where an entry holds it, and the
/// map gives the last such entry.
pub proof fn lemma_registry_map(entries: Seq<PoolEntry>, key: (AlkaneId, AlkaneId))
    ensures
        registry_map(entries).dom().contains(key) <==> exists|i: int|
            0 <= i < entries.len() && (#[trigger] entries[i]).token_a == key.0 && entries[i].token_b
                == key.1,
        forall|i: int|
            0 <= i < entries.len() && (#[trigger] entries[i]).token_a == key.0 && entries[i].token_b
                == key.1 && (forall|j: int|
                i < j < entries.len() ==> !((#[trigger] entries[j]).token_a == key.0
                    && entries[j].token_b == key.1)) ==> registry_map(entries)[key]
                == entries[i],
    decreases entries.len(),
{
    if entries.len() > 0 {
        let front = entries.drop_last();
        lemma_registry_map(front, key);
        let last = entries.last();
        if last.token_a == key.0 && last.token_b == key.1 {
            assert(entries[entries.len() - 1] == last);
        } else {
            if registry_map(entries).dom().contains(key) {
                let i = choose|i: int|
                    0 <= i < front.len() && (#[trigger] front[i]).token_a == key.0
                        && front[i].token_b == key.1;
                assert(entries[i] == front[i]);
            }
            if exists|i: int|
                0 <= i < entries.len() && (#[trigger] entries[i]).token_a == key.0
                    && entries[i].token_b == key.1 {
                let i = choose|i: int|
                    0 <= i < entries.len() && (#[trigger] entries[i]).token_a == key.0
                        && entries[i].token_b == key.1;
                assert(front[i] == entries[i]);
            }
        }
        assert forall|i: int|
            0 <= i < entries.len() && (#[trigger] entries[i]).token_a == key.0 && entries[i].token_b
                == key.1 && (forall|j: int|
                i < j < entries.len() ==> !((#[trigger] entries[j]).token_a == key.0
                    && entries[j].token_b == key.1)) implies registry_map(entries)[key]
            == entries[i] by {
            if i < entries.len() - 1 {
                assert(front[i] == entries[i]);
                assert(!(entries[entries.len() - 1].token_a == key.0 && entries[entries.len()
                    - 1].token_b == key.1));
                assert forall|j: int| i < j < front.len() implies !((#[trigger] front[j]).token_a
                    == key.0 && front[j].token_b == key.1) by {
                    assert(front[j] == entries[j]);
                }
            }
        }
    }
}

impl AMMFactory {
    /// Whether every pool of the registry has a position in the enumeration.
    pub open spec fn well_listed(&self) -> bool {
        forall|i: int|
            0 <= i < self.pools@.len() ==> self.listing@.contains(
                Some((#[trigger] self.pools@[i]).pool),
            )
    }

    /// The invariant of the registry: every entry holds a pair of two
    /// different assets in canonical order, and no two entries hold the same
    /// pair.
    pub open spec fn wf(&self) -> bool {
        &&& forall|i: int|
            0 <= i < self.pools@.len() ==> (#[trigger] self.pools@[i]).token_a.precedes(
                self.pools@[i].token_b,
            )
        &&& forall|i: int, j: int|
            0 <= i < j < self.pools@.len() ==> !((#[trigger] self.pools@[i]).token_a == (
            #[trigger] self.pools@[j]).token_a && self.pools@[i].token_b == self.pools@[j].token_b)
    }

    /// The registry as a map from pairs in canonical order to entries.
    pub open spec fn pool_map(&self) -> Map<(AlkaneId, AlkaneId), PoolEntry> {
        registry_map(self.pools@)
    }

    /// The entry of a pair, whichever way round the pair is given.
    pub open spec fn entry_of(&self, a: AlkaneId, b: AlkaneId) -> Option<PoolEntry> {
        if self.pool_map().dom().contains(sorted_pair(a, b)) {
            Some(self.pool_map()[sorted_pair(a, b)])
        } else {
            None
        }
    }

    /// The pool of a pair, whichever way round the pair is given.
    pub open spec fn pool_of(&self, a: AlkaneId, b: AlkaneId) -> Option<AlkaneId> {
        match self.entry_of(a, b) {
            Some(entry) => Some(entry.pool),
            None => None,
        }
    }

    /// The trading fee of a pool: the one set for it, or the default.
    pub open spec fn fee_of(&self, entry: PoolEntry) -> u128 {
        match entry.fee_per_1000 {
            Some(fee) => fee,
            None => self.default_fee_per_1000,
        }
    }

    /// Whether the factory is as it is made: not initialized, with an empty
    /// registry, the default trading fee, and every identifier and other
    /// number zero.
    pub open spec fn is_fresh(&self) -> bool {
        &&& !self.initialized
        &&& self.pool_factory_id == 0
        &&& self.auth_token == (AlkaneId { block: 0, tx: 0 })
        &&& self.default_fee_per_1000 == DEFAULT_FEE_AMOUNT_PER_1000
        &&& self.pools@ == Seq::<PoolEntry>::empty()
        &&& self.listing@ == Seq::<Option<AlkaneId>>::empty()
    }

    /// A factory that has not been initialized, with an empty registry.
    pub fn new() -> (r: Self)
        ensures
            r.is_fresh(),
            r.wf(),
            r.well_listed(),
    {
        AMMFactory {
            initialized: false,
            pool_factory_id: 0,
            auth_token: AlkaneId { block: 0, tx: 0 },
            default_fee_per_1000: DEFAULT_FEE_AMOUNT_PER_1000,
            pools: Vec::new(),
            listing: Vec::new(),
        }
    }

    /// The number under which the code of a pool is deployed.
    pub fn pool_id(&self) -> (r: Result<u128, AmmError>)
        ensures
            r == (if self.initialized {
                Ok::<u128, AmmError>(self.pool_factory_id)
            } else {
                Err::<u128, AmmError>(AmmError::Uninitialized)
            }),
    {
        if !self.initialized {
            return Err(AmmError::Uninitialized);
        }
        Ok(self.pool_factory_id)
    }

    /// Sets the number under which the code of a pool is deployed.
    pub fn set_pool_id(&mut self, pool_factory_id: u128)
        ensures
            *final(self) == (AMMFactory { pool_factory_id, ..*old(self) }),
    {
        self.pool_factory_id = pool_factory_id;
    }

    /// Looks the entry of a pair up in the registry.
    pub fn lookup_entry(&self, a: &AlkaneId, b: &AlkaneId) -> (r: Option<PoolEntry>)
        ensures
            r == self.entry_of(*a, *b),
    {
        let (first, second) = sort_alkanes((*a, *b));
        let mut i: usize = self.pools.len();
        while i > 0
            invariant
                0 <= i <= self.pools@.len(),
                (first, second) == sorted_pair(*a, *b),
                forall|j: int|
                    i <= j < self.pools@.len() ==> !((#[trigger] self.pools@[j]).token_a == first
                        && self.pools@[j].token_b == second),
            decreases i,
        {
            i -= 1;
            let entry = self.pools[i];
            if entry.token_a == first && entry.token_b == second {
                proof {
                    lemma_registry_map(self.pools@, (first, second));
                }
                return Some(entry);
            }
        }
        proof {
            lemma_registry_map(self.pools@, (first, second));
        }
        None
    }

    /// Looks a pair up in the registry.
    pub fn lookup(&self, a: &AlkaneId, b: &AlkaneId) -> (r: Option<AlkaneId>)
        ensures
            r == self.pool_of(*a, *b),
    {
        match self.lookup_entry(a, b) {
            Some(entry) => Some(entry.pool),
            None => None,
        }
    }

    /// The trading fee of the pool of a pair, or `PoolNotFound`.
    pub fn pool_fee(&self, a: &AlkaneId, b: &AlkaneId) -> (r: Result<u128, AmmError>)
        ensures
            match self.entry_of(*a, *b) {
                Some(entry) => r == Ok::<u128, AmmError>(self.fee_of(entry)),
                None => r == Err::<u128, AmmError>(AmmError::PoolNotFound),
            },
    {
        match self.lookup_entry(a, b) {
            Some(entry) => match entry.fee_per_1000 {
                Some(fee) => Ok(fee),
                None => Ok(self.default_fee_per_1000),
            },
            None => Err(AmmError::PoolNotFound),
        }
    }

    /// The pool of a pair, whichever way round the pair is given, or
    /// `PoolNotFound`.
    pub fn _find_existing_pool_id(&self, alkane_a: AlkaneId, alkane_b: AlkaneId) -> (r: Result<
        AlkaneId,
        AmmError,
    >)
        ensures
            match self.pool_of(alkane_a, alkane_b) {
                Some(pool) => r == Ok::<AlkaneId, AmmError>(pool),
                None => r == Err::<AlkaneId, AmmError>(AmmError::PoolNotFound),
            },
    {
        match self.lookup(&alkane_a, &alkane_b) {
            Some(pool) => Ok(pool),
            None => Err(AmmError::PoolNotFound),
        }
    }

    /// Hands back the assets that came with the call, with the byte form of
    /// the pool's identifier as data, or fails with `PoolNotFound`.
    pub fn find_existing_pool_id(&self, context: &Context, alkane_a: AlkaneId, alkane_b: AlkaneId)
        -> (r: Result<CallResponse, AmmError>)
        ensures
            match self.pool_of(alkane_a, alkane_b) {
                Some(pool) => r is Ok && r->Ok_0.alkanes@ == context.incoming_alkanes@
                    && r->Ok_0.data@ == id_bytes(pool),
                None => r == Err::<CallResponse, AmmError>(AmmError::PoolNotFound),
            },
    {
        let pool = self._find_existing_pool_id(alkane_a, alkane_b)?;
        let mut response = CallResponse::forward(&context.incoming_alkanes);
        response.data = pool.to_bytes();
        Ok(response)
    }

    /// The number of positions of the enumeration: the number of pools that
    /// were created.
    pub fn all_pools_length(&self) -> (r: u128)
        ensures
            r == self.listing@.len(),
    {
        self.listing.len() as u128
    }

    /// The pool at a position of the enumeration, or `PoolNotFound` where the
    /// enumeration is shorter or the position holds nothing.
    pub fn all_pools(&self, index: u128) -> (r: Result<AlkaneId, AmmError>)
        ensures
            index < self.listing@.len() && self.listing@[index as int] is Some ==> r == Ok::<
                AlkaneId,
                AmmError,
            >(self.listing@[index as int]->0),
            index >= self.listing@.len() || self.listing@[index as int] is None ==> r == Err::<
                AlkaneId,
                AmmError,
            >(AmmError::PoolNotFound),
    {
        if index >= self.listing.len() as u128 {
            return Err(AmmError::PoolNotFound);
        }
        match self.listing[index as usize] {
            Some(pool) => Ok(pool),
            None => Err(AmmError::PoolNotFound),
        }
    }

    /// The bytes that enumerate the pools: the number of positions as
    /// sixteen little-endian bytes, then the byte form of each pool's
    /// identifier, in the order of creation. A position that holds nothing
    /// is counted and skipped.
    pub open spec fn enumeration(&self) -> Seq<u8> {
        spec_u128_to_le_bytes(self.listing@.len() as u128) + listed(self.listing@)
    }

    /// Hands back the assets that came with the call, with the enumeration
    /// of the pools as data.
    pub fn get_all_pools(&self, context: &Context) -> (r: CallResponse)
        ensures
            r.alkanes@ == context.incoming_alkanes@,
            r.data@ == self.enumeration(),
    {
        let mut response = CallResponse::forward(&context.incoming_alkanes);
        let length = self.all_pools_length();
        let mut data = u128_to_le_bytes(length);
        let mut i: usize = 0;
        while i < self.listing.len()
            invariant
                0 <= i <= self.listing@.len(),
                length == self.listing@.len(),
                data@ == spec_u128_to_le_bytes(length) + listed(self.listing@.take(i as int)),
            decreases self.listing@.len() - i,
        {
            proof {
                assert(self.listing@.take(i + 1).drop_last() =~= self.listing@.take(i as int));
            }
            match self.listing[i] {
                Some(pool) => {
                    let id = pool.to_bytes();
                    data.extend_from_slice(id.as_slice());
                },
                None => {},
            }
            proof {
                assert(data@ =~= spec_u128_to_le_bytes(length) + listed(
                    self.listing@.take(i + 1),
                ));
            }
            i += 1;
        }
        proof {
            assert(self.listing@.take(i as int) =~= self.listing@);
        }
        response.data = data;
        response
    }

    /// Hands back the assets that came with the call, with the number of
    /// positions of the enumeration as sixteen little-endian bytes of data.
    pub fn get_num_pools(&self, context: &Context) -> (r: CallResponse)
        ensures
            r.alkanes@ == context.incoming_alkanes@,
            r.data@ == spec_u128_to_le_bytes(self.listing@.len() as u128),
    {
        let mut response = CallResponse::forward(&context.incoming_alkanes);
        response.data = u128_to_le_bytes(self.all_pools_length());
        response
    }

    /// Whether the parcel spends at least one unit of the auth token.
    pub open spec fn authorizes(&self, parcel: Seq<AlkaneTransfer>) -> bool {
        exists|i: int|
            0 <= i < parcel.len() && (#[trigger] parcel[i]).id == self.auth_token && parcel[i].value
                >= 1
    }

    /// Fails with `NotOwner` unless the call spends at least one unit of the
    /// factory's auth token.
    pub fn only_owner(&self, context: &Context) -> (r: Result<(), AmmError>)
        ensures
            r == (if self.authorizes(context.incoming_alkanes@) {
                Ok::<(), AmmError>(())
            } else {
                Err::<(), AmmError>(AmmError::NotOwner)
            }),
    {
        let parcel = &context.incoming_alkanes;
        let mut i: usize = 0;
        while i < parcel.len()
            invariant
                0 <= i <= parcel@.len(),
                parcel@ == context.incoming_alkanes@,
                forall|j: int|
                    0 <= j < i ==> !((#[trigger] parcel@[j]).id == self.auth_token
                        && parcel@[j].value >= 1),
            decreases parcel@.len() - i,
        {
            if parcel[i].id == self.auth_token && parcel[i].value >= 1 {
                assert(parcel@[i as int].id == self.auth_token && parcel@[i as int].value >= 1);
                return Ok(());
            }
            i += 1;
        }
        Err(AmmError::NotOwner)
    }

    /// Fails with `NotOwner` unless the transfer is there and holds at least
    /// one unit.
    pub fn _only_owner(&self, v: Option<AlkaneTransfer>) -> (r: Result<(), AmmError>)
        ensures
            r is Ok <==> v is Some && v->0.value >= 1,
            r is Err ==> r->Err_0 == AmmError::NotOwner,
    {
        match v {
            Some(auth) => if auth.value < 1 {
                Err(AmmError::NotOwner)
            } else {
                Ok(())
            },
            None => Err(AmmError::NotOwner),
        }
    }

    /// Takes the first transfer of the factory's own token out of the
    /// assets that came with the call.
    pub fn _pull_incoming(&self, context: &mut Context) -> (r: Option<AlkaneTransfer>)
        ensures
            final(context).myself == old(context).myself,
            final(context).caller == old(context).caller,
            final(context).height == old(context).height,
            match first_of(old(context).incoming_alkanes@, old(context).myself) {
                Some(i) => r == Some(old(context).incoming_alkanes@[i])
                    && final(context).incoming_alkanes@ == old(context).incoming_alkanes@.remove(i),
                None => r is None && final(context).incoming_alkanes@ == old(
                    context,
                ).incoming_alkanes@,
            },
    {
        let mut i: usize = 0;
        while i < context.incoming_alkanes.len()
            invariant
                0 <= i <= context.incoming_alkanes@.len(),
                *context == *old(context),
                forall|j: int| 0 <= j < i ==> (#[trigger] context.incoming_alkanes@[j]).id != context.myself,
            decreases context.incoming_alkanes@.len() - i,
        {
            if context.incoming_alkanes[i].id == context.myself {
                proof {
                    lemma_first_of(context.incoming_alkanes@, context.myself, i as int);
                }
                return Some(context.incoming_alkanes.remove(i));
            }
            i += 1;
        }
        proof {
            lemma_first_of_none(context.incoming_alkanes@, context.myself);
        }
        None
    }

    /// What `init_factory` does: the factory after the call, or
    /// `AlreadyInitialized`.
    pub open spec fn initialized_with(&self, pool_factory_id: u128, auth_token: AlkaneId) -> Result<
        AMMFactory,
        AmmError,
    > {
        if self.initialized {
            Err(AmmError::AlreadyInitialized)
        } else {
            Ok(AMMFactory { initialized: true, pool_factory_id, auth_token, ..*self })
        }
    }

    /// Initializes the factory, once: records under which number the code of
    /// a pool is deployed, and the auth token that was deployed for the
    /// factory. The response hands back the assets that came with the call
    /// and the auth token. A rejected call changes nothing.
    pub fn init_factory(&mut self, context: &Context, pool_factory_id: u128, auth_token: AlkaneTransfer)
        -> (r: Result<CallResponse, AmmError>)
        ensures
            match old(self).initialized_with(pool_factory_id, auth_token.id) {
                Ok(factory) => r is Ok && *final(self) == factory && r->Ok_0.alkanes@
                    == context.incoming_alkanes@.push(auth_token) && r->Ok_0.data@ == Seq::<
                    u8,
                >::empty(),
                Err(e) => r == Err::<CallResponse, AmmError>(e) && *final(self) == *old(self),
            },
            old(self).wf() ==> final(self).wf(),
    {
        if self.initialized {
            return Err(AmmError::AlreadyInitialized);
        }
        self.initialized = true;
        self.pool_factory_id = pool_factory_id;
        self.auth_token = auth_token.id;
        let mut response = CallResponse::forward(&context.incoming_alkanes);
        response.alkanes.push(auth_token);
        Ok(response)
    }

    /// Sets the number under which the code of a pool is deployed. Only for
    /// the owner. The response hands back the assets that came with the
    /// call. A rejected call changes nothing.
    pub fn set_pool_factory_id(&mut self, context: &Context, pool_factory_id: u128) -> (r: Result<
        CallResponse,
        AmmError,
    >)
        ensures
            old(self).authorizes(context.incoming_alkanes@) ==> r is Ok && *final(self)
                == (AMMFactory { pool_factory_id, ..*old(self) }) && r->Ok_0.alkanes@
                == context.incoming_alkanes@ && r->Ok_0.data@ == Seq::<u8>::empty(),
            !old(self).authorizes(context.incoming_alkanes@) ==> r == Err::<
                CallResponse,
                AmmError,
            >(AmmError::NotOwner) && *final(self) == *old(self),
    {
        self.only_owner(context)?;
        self.set_pool_id(pool_factory_id);
        Ok(CallResponse::forward(&context.incoming_alkanes))
    }

    /// The call that collects the protocol fees of a pool: the pool's
    /// `collect_fees`, with the assets that came with this call. Only for the
    /// owner.
    pub fn collect_fees(&self, context: &Context, pool_id: AlkaneId) -> (r: Result<
        OutgoingCall,
        AmmError,
    >)
        ensures
            self.authorizes(context.incoming_alkanes@) ==> r is Ok && r->Ok_0.cellpack.target
                == pool_id && r->Ok_0.cellpack.inputs@ == seq![POOL_OP_COLLECT_FEES]
                && r->Ok_0.alkanes@ == context.incoming_alkanes@,
            !self.authorizes(context.incoming_alkanes@) ==> r == Err::<OutgoingCall, AmmError>(
                AmmError::NotOwner,
            ),
    {
        self.only_owner(context)?;
        let mut inputs: Vec<u128> = Vec::new();
        inputs.push(POOL_OP_COLLECT_FEES);
        assert(inputs@ =~= seq![POOL_OP_COLLECT_FEES]);
        Ok(
            OutgoingCall {
                cellpack: Cellpack { target: pool_id, inputs },
                alkanes: crate::parcel::copy_parcel(&context.incoming_alkanes),
            },
        )
    }

    /// Sets the trading fee of the pools for which no other has been set.
    /// Only for the owner; `InvalidFee` for a fee of more than the whole
    /// input. The response hands back the assets that came with the call. A
    /// rejected call changes nothing.
    pub fn set_default_fee(&mut self, context: &Context, fee_per_1000: u128) -> (r: Result<
        CallResponse,
        AmmError,
    >)
        ensures
            !old(self).authorizes(context.incoming_alkanes@) ==> r == Err::<
                CallResponse,
                AmmError,
            >(AmmError::NotOwner) && *final(self) == *old(self),
            old(self).authorizes(context.incoming_alkanes@) && fee_per_1000
                > MAX_FEE_AMOUNT_PER_1000 ==> r == Err::<CallResponse, AmmError>(
                AmmError::InvalidFee,
            ) && *final(self) == *old(self),
            old(self).authorizes(context.incoming_alkanes@) && fee_per_1000
                <= MAX_FEE_AMOUNT_PER_1000 ==> r is Ok && *final(self) == (AMMFactory {
                default_fee_per_1000: fee_per_1000,
                ..*old(self)
            }) && r->Ok_0.alkanes@ == context.incoming_alkanes@ && r->Ok_0.data@ == Seq::<
                u8,
            >::empty(),
    {
        self.only_owner(context)?;
        if fee_per_1000 > MAX_FEE_AMOUNT_PER_1000 {
            return Err(AmmError::InvalidFee);
        }
        self.default_fee_per_1000 = fee_per_1000;
        Ok(CallResponse::forward(&context.incoming_alkanes))
    }

    /// The first position of the enumeration that holds the pool.
    pub open spec fn position_of(&self, pool: AlkaneId) -> Option<int> {
        if exists|i: int| 0 <= i < self.pools@.len() && (#[trigger] self.pools@[i]).pool == pool {
            Some(
                choose|i: int|
                    0 <= i < self.pools@.len() && (#[trigger] self.pools@[i]).pool == pool
                        && forall|j: int| 0 <= j < i ==> (#[trigger] self.pools@[j]).pool != pool,
            )
        } else {
            None
        }
    }

    /// What `set_pool_fee` does: the position of the entry that gets the
    /// fee, or the reason for which the call is rejected.
    pub open spec fn pool_fee_set(
        &self,
        parcel: Seq<AlkaneTransfer>,
        pool: AlkaneId,
        fee_per_1000: u128,
    ) -> Result<int, AmmError> {
        if !self.authorizes(parcel) {
            Err(AmmError::NotOwner)
        } else if fee_per_1000 > MAX_FEE_AMOUNT_PER_1000 {
            Err(AmmError::InvalidFee)
        } else {
            match self.position_of(pool) {
                None => Err(AmmError::PoolNotFound),
                Some(i) => Ok(i),
            }
        }
    }

    /// Sets the trading fee of one pool, in place of the default. Only for
    /// the owner; `InvalidFee` for a fee of more than the whole input,
    /// `PoolNotFound` for a pool that is not in the registry. The response
    /// hands back the assets that came with the call. A rejected call
    /// changes nothing.
    pub fn set_pool_fee(&mut self, context: &Context, pool: AlkaneId, fee_per_1000: u128) -> (r:
        Result<CallResponse, AmmError>)
        ensures
            match old(self).pool_fee_set(context.incoming_alkanes@, pool, fee_per_1000) {
                Err(e) => r == Err::<CallResponse, AmmError>(e) && *final(self) == *old(self),
                Ok(i) => {
                    &&& r is Ok
                    &&& r->Ok_0.alkanes@ == context.incoming_alkanes@
                    &&& r->Ok_0.data@ == Seq::<u8>::empty()
                    &&& final(self).initialized == old(self).initialized
                    &&& final(self).pool_factory_id == old(self).pool_factory_id
                    &&& final(self).auth_token == old(self).auth_token
                    &&& final(self).default_fee_per_1000 == old(self).default_fee_per_1000
                    &&& final(self).listing == old(self).listing
                    &&& final(self).pools@ == old(self).pools@.update(
                        i,
                        PoolEntry { fee_per_1000: Some(fee_per_1000), ..old(self).pools@[i] },
                    )
                },
            },
            old(self).wf() ==> final(self).wf(),
    {
        self.only_owner(context)?;
        if fee_per_1000 > MAX_FEE_AMOUNT_PER_1000 {
            return Err(AmmError::InvalidFee);
        }
        let mut i: usize = 0;
        while i < self.pools.len() && self.pools[i].pool != pool
            invariant
                0 <= i <= self.pools@.len(),
                *self == *old(self),
                forall|j: int| 0 <= j < i ==> (#[trigger] self.pools@[j]).pool != pool,
            decreases self.pools@.len() - i,
        {
            i += 1;
        }
        if i >= self.pools.len() {
            return Err(AmmError::PoolNotFound);
        }
        proof {
            let k = old(self).position_of(pool)->0;
            assert(old(self).pools@[i as int].pool == pool);
            if k < i {
                assert(old(self).pools@[k].pool != pool);
            } else if i < k {
                assert(old(self).pools@[i as int].pool != pool);
            }
        }
        let entry = self.pools[i];
        self.pools.set(i, PoolEntry { fee_per_1000: Some(fee_per_1000), ..entry });
        proof {
            if old(self).wf() {
                assert forall|a: int, b: int| 0 <= a < b < self.pools@.len() implies !((
                #[trigger] self.pools@[a]).token_a == (#[trigger] self.pools@[b]).token_a
                    && self.pools@[a].token_b == self.pools@[b].token_b) by {
                    assert(old(self).pools@[a].token_a == self.pools@[a].token_a);
                    assert(old(self).pools@[b].token_a == self.pools@[b].token_a);
                }
                assert forall|a: int| 0 <= a < self.pools@.len() implies (
                #[trigger] self.pools@[a]).token_a.precedes(self.pools@[a].token_b) by {
                    assert(old(self).pools@[a].token_a == self.pools@[a].token_a);
                }
            }
        }
        Ok(CallResponse::forward(&context.incoming_alkanes))
    }

    /// The trading fee of a pool by its identifier: the fee set for it, and
    /// the default where none has been set or the registry does not hold
    /// the pool.
    pub open spec fn fee_for(&self, pool: AlkaneId) -> u128 {
        match self.position_of(pool) {
            Some(i) => self.fee_of(self.pools@[i]),
            None => self.default_fee_per_1000,
        }
    }

    /// The trading fee of a pool by its identifier.
    pub fn pool_fee_by_id(&self, pool: &AlkaneId) -> (r: u128)
        ensures
            r == self.fee_for(*pool),
    {
        let mut i: usize = 0;
        while i < self.pools.len()
            invariant
                0 <= i <= self.pools@.len(),
                forall|j: int| 0 <= j < i ==> (#[trigger] self.pools@[j]).pool != *pool,
            decreases self.pools@.len() - i,
        {
            if self.pools[i].pool == *pool {
                proof {
                    let k = self.position_of(*pool)->0;
                    assert(self.pools@[i as int].pool == *pool);
                    if k < i {
                        assert(self.pools@[k].pool != *pool);
                    } else if i < k {
                        assert(self.pools@[i as int].pool != *pool);
                    }
                }
                return match self.pools[i].fee_per_1000 {
                    Some(fee) => fee,
                    None => self.default_fee_per_1000,
                };
            }
            i += 1;
        }
        self.default_fee_per_1000
    }

    /// Hands back the assets that came with the call, with the trading fee
    /// of the pool as sixteen little-endian bytes of data.
    pub fn get_pool_fee(&self, context: &Context, pool: AlkaneId) -> (r: CallResponse)
        ensures
            r.alkanes@ == context.incoming_alkanes@,
            r.data@ == spec_u128_to_le_bytes(self.fee_for(pool)),
    {
        let mut response = CallResponse::forward(&context.incoming_alkanes);
        response.data = u128_to_le_bytes(self.pool_fee_by_id(&pool));
        response
    }

    /// Fails with `Expired` where the deadline lies before the current
    /// height.
    pub fn _check_deadline(&self, height: u64, deadline: u128) -> (r: Result<(), AmmError>)
        ensures
            r == deadline_checked(height, deadline),
    {
        if height as u128 > deadline {
            Err(AmmError::Expired)
        } else {
            Ok(())
        }
    }

    /// Whether `after` is this factory with `entry` added to the registry
    /// and its pool at the end of the enumeration.
    pub open spec fn registers(&self, after: AMMFactory, entry: PoolEntry) -> bool {
        &&& after.initialized == self.initialized
        &&& after.pool_factory_id == self.pool_factory_id
        &&& after.auth_token == self.auth_token
        &&& after.default_fee_per_1000 == self.default_fee_per_1000
        &&& after.pools@ == self.pools@.push(entry)
        &&& after.listing@ == self.listing@.push(Some(entry.pool))
        &&& after.pool_map() == self.pool_map().insert((entry.token_a, entry.token_b), entry)
    }

    /// What `create_new_pool` does: the entry that it adds to the registry,
    /// or the reason for which the call is rejected. The new pool gets the
    /// identifier that the host hands out next, `sequence` in the block of
    /// created contracts.
    pub open spec fn pool_created(
        &self,
        token_a: AlkaneId,
        token_b: AlkaneId,
        amount_a: u128,
        amount_b: u128,
        sequence: u128,
    ) -> Result<PoolEntry, AmmError> {
        if token_a == token_b {
            Err(AmmError::IdenticalTokens)
        } else if amount_a == 0 || amount_b == 0 {
            Err(AmmError::ZeroAmount)
        } else if self.pool_of(token_a, token_b) is Some {
            Err(AmmError::PoolAlreadyExists)
        } else if !self.initialized {
            Err(AmmError::Uninitialized)
        } else {
            Ok(
                PoolEntry {
                    token_a: sorted_pair(token_a, token_b).0,
                    token_b: sorted_pair(token_a, token_b).1,
                    pool: AlkaneId { block: INSTANCE_BLOCK, tx: sequence },
                    fee_per_1000: None,
                },
            )
        }
    }

    /// Registers a pool for a pair that has none, and answers with the call
    /// that initializes it: the pair in canonical order and the factory's
    /// own identifier as numbers, the two seed deposits as assets. A
    /// rejected call changes nothing.
    pub fn create_new_pool(
        &mut self,
        context: &Context,
        token_a: AlkaneId,
        token_b: AlkaneId,
        amount_a: u128,
        amount_b: u128,
        sequence: u128,
    ) -> (r: Result<OutgoingCall, AmmError>)
        ensures
            match old(self).pool_created(token_a, token_b, amount_a, amount_b, sequence) {
                Ok(entry) => {
                    &&& r is Ok
                    &&& old(self).registers(*final(self), entry)
                    &&& r->Ok_0.cellpack.target == (AlkaneId {
                        block: TEMPLATE_BLOCK,
                        tx: old(self).pool_factory_id,
                    })
                    &&& r->Ok_0.cellpack.inputs@ == seq![
                        POOL_OP_INIT,
                        entry.token_a.block,
                        entry.token_a.tx,
                        entry.token_b.block,
                        entry.token_b.tx,
                        context.myself.block,
                        context.myself.tx,
                    ]
                    &&& r->Ok_0.alkanes@ == seq![
                        AlkaneTransfer { id: token_a, value: amount_a },
                        AlkaneTransfer { id: token_b, value: amount_b },
                    ]
                },
                Err(e) => r == Err::<OutgoingCall, AmmError>(e) && *final(self) == *old(self),
            },
            old(self).wf() ==> final(self).wf(),
            old(self).well_listed() ==> final(self).well_listed(),
    {
        if token_a == token_b {
            return Err(AmmError::IdenticalTokens);
        }
        if amount_a == 0 || amount_b == 0 {
            return Err(AmmError::ZeroAmount);
        }
        let (a, b) = sort_alkanes((token_a, token_b));
        let pool_id = AlkaneId::new(INSTANCE_BLOCK, sequence);
        if self.lookup(&token_a, &token_b).is_some() {
            return Err(AmmError::PoolAlreadyExists);
        }
        let template = self.pool_id()?;
        proof {
            lemma_registry_map(self.pools@, (a, b));
        }
        let entry = PoolEntry { token_a: a, token_b: b, pool: pool_id, fee_per_1000: None };
        self.pools.push(entry);
        self.listing.push(Some(pool_id));
        proof {
            if old(self).well_listed() {
                assert forall|i: int| 0 <= i < self.pools@.len() implies self.listing@.contains(
                    Some((#[trigger] self.pools@[i]).pool),
                ) by {
                    if i < self.pools@.len() - 1 {
                        assert(old(self).pools@[i] == self.pools@[i]);
                        let k = choose|k: int|
                            0 <= k < old(self).listing@.len() && old(self).listing@[k] == Some(
                                old(self).pools@[i].pool,
                            );
                        assert(self.listing@[k] == Some(self.pools@[i].pool));
                    } else {
                        assert(self.listing@[self.listing@.len() - 1] == Some(pool_id));
                    }
                }
            }
            assert(self.pools@.drop_last() =~= old(self).pools@);
            if old(self).wf() {
                assert forall|i: int, j: int| 0 <= i < j < self.pools@.len() implies !((
                #[trigger] self.pools@[i]).token_a == (#[trigger] self.pools@[j]).token_a
                    && self.pools@[i].token_b == self.pools@[j].token_b) by {
                    if j == self.pools@.len() - 1 {
                        assert(old(self).pools@[i] == self.pools@[i]);
                    } else {
                        assert(old(self).pools@[i] == self.pools@[i]);
                        assert(old(self).pools@[j] == self.pools@[j]);
                    }
                }
                assert forall|i: int| 0 <= i < self.pools@.len() implies (
                #[trigger] self.pools@[i]).token_a.precedes(self.pools@[i].token_b) by {
                    if i < self.pools@.len() - 1 {
                        assert(old(self).pools@[i] == self.pools@[i]);
                    }
                }
            }
        }
        let mut inputs: Vec<u128> = Vec::new();
        inputs.push(POOL_OP_INIT);
        inputs.push(a.block);
        inputs.push(a.tx);
        inputs.push(b.block);
        inputs.push(b.tx);
        inputs.push(context.myself.block);
        inputs.push(context.myself.tx);
        let mut alkanes: Vec<AlkaneTransfer> = Vec::new();
        alkanes.push(AlkaneTransfer { id: token_a, value: amount_a });
        alkanes.push(AlkaneTransfer { id: token_b, value: amount_b });
        proof {
            assert(inputs@ =~= seq![
                POOL_OP_INIT,
                a.block,
                a.tx,
                b.block,
                b.tx,
                context.myself.block,
                context.myself.tx,
            ]);
            assert(alkanes@ =~= seq![
                AlkaneTransfer { id: token_a, value: amount_a },
                AlkaneTransfer { id: token_b, value: amount_b },
            ]);
        }
        Ok(
            OutgoingCall {
                cellpack: Cellpack {
                    target: AlkaneId { block: TEMPLATE_BLOCK, tx: template },
                    inputs,
                },
                alkanes,
            },
        )
    }

    /// What the factory's `add_liquidity` decides: the pool and the two
    /// amounts to deposit, or the reason for which the call is rejected. The
    /// pair must be given in canonical order; `previous_a` and `previous_b`
    /// are the reserves of the pool.
    pub open spec fn liquidity_planned(
        &self,
        height: u64,
        token_a: AlkaneId,
        token_b: AlkaneId,
        amount_a_desired: u128,
        amount_b_desired: u128,
        amount_a_min: u128,
        amount_b_min: u128,
        deadline: u128,
        previous_a: u128,
        previous_b: u128,
    ) -> Result<(AlkaneId, u128, u128), AmmError> {
        if deadline_checked(height, deadline) is Err {
            Err(AmmError::Expired)
        } else if !token_a.precedes(token_b) {
            Err(AmmError::UnsortedPair)
        } else if self.pool_of(token_a, token_b) is None {
            Err(AmmError::PoolNotFound)
        } else {
            match optimal_amounts(
                amount_a_desired,
                amount_b_desired,
                amount_a_min,
                amount_b_min,
                previous_a,
                previous_b,
            ) {
                Err(e) => Err(e),
                Ok((amount_a, amount_b)) => Ok(
                    (self.pool_of(token_a, token_b)->0, amount_a, amount_b),
                ),
            }
        }
    }

    /// Finds the pool of a pair and works out how much of the two desired
    /// amounts to deposit so that the deposit has the ratio of the reserves.
    /// Answers with the call that deposits them: the pool's
    /// `add_liquidity`, with the two amounts as assets. Changes nothing.
    pub fn add_liquidity(
        &self,
        context: &Context,
        token_a: AlkaneId,
        token_b: AlkaneId,
        amount_a_desired: u128,
        amount_b_desired: u128,
        amount_a_min: u128,
        amount_b_min: u128,
        deadline: u128,
        previous_a: u128,
        previous_b: u128,
    ) -> (r: Result<OutgoingCall, AmmError>)
        ensures
            match self.liquidity_planned(
                context.height,
                token_a,
                token_b,
                amount_a_desired,
                amount_b_desired,
                amount_a_min,
                amount_b_min,
                deadline,
                previous_a,
                previous_b,
            ) {
                Ok((pool, amount_a, amount_b)) => r is Ok && r->Ok_0.cellpack.target == pool
                    && r->Ok_0.cellpack.inputs@ == seq![POOL_OP_ADD_LIQUIDITY]
                    && r->Ok_0.alkanes@ == seq![
                    AlkaneTransfer { id: token_a, value: amount_a },
                    AlkaneTransfer { id: token_b, value: amount_b },
                ],
                Err(e) => r == Err::<OutgoingCall, AmmError>(e),
            },
    {
        self._check_deadline(context.height, deadline)?;
        if !token_a.lt(&token_b) {
            return Err(AmmError::UnsortedPair);
        }
        let pool = self._find_existing_pool_id(token_a, token_b)?;
        let (amount_a, amount_b) = compute_optimal_amounts(
            amount_a_desired,
            amount_b_desired,
            amount_a_min,
            amount_b_min,
            previous_a,
            previous_b,
        )?;
        let mut inputs: Vec<u128> = Vec::new();
        inputs.push(POOL_OP_ADD_LIQUIDITY);
        let mut alkanes: Vec<AlkaneTransfer> = Vec::new();
        alkanes.push(AlkaneTransfer { id: token_a, value: amount_a });
        alkanes.push(AlkaneTransfer { id: token_b, value: amount_b });
        proof {
            assert(inputs@ =~= seq![POOL_OP_ADD_LIQUIDITY]);
            assert(alkanes@ =~= seq![
                AlkaneTransfer { id: token_a, value: amount_a },
                AlkaneTransfer { id: token_b, value: amount_b },
            ]);
        }
        Ok(OutgoingCall { cellpack: Cellpack { target: pool, inputs }, alkanes })
    }

    /// Finds the pool of a pair and answers with the call that burns
    /// `liquidity` of its tokens: the pool's `burn`, with the liquidity
    /// tokens as assets. Fails with `Expired` after the deadline and with
    /// `PoolNotFound` where the pair has no pool. Changes nothing.
    pub fn burn(
        &self,
        context: &Context,
        token_a: AlkaneId,
        token_b: AlkaneId,
        liquidity: u128,
        deadline: u128,
    ) -> (r: Result<OutgoingCall, AmmError>)
        ensures
            deadline_checked(context.height, deadline) is Err ==> r == Err::<
                OutgoingCall,
                AmmError,
            >(AmmError::Expired),
            deadline_checked(context.height, deadline) is Ok && self.pool_of(token_a, token_b)
                is None ==> r == Err::<OutgoingCall, AmmError>(AmmError::PoolNotFound),
            deadline_checked(context.height, deadline) is Ok && self.pool_of(token_a, token_b)
                is Some ==> {
                let pool = self.pool_of(token_a, token_b)->0;
                r is Ok && r->Ok_0.cellpack.target == pool && r->Ok_0.cellpack.inputs@
                    == seq![POOL_OP_BURN] && r->Ok_0.alkanes@ == seq![
                    AlkaneTransfer { id: pool, value: liquidity },
                ]
            },
    {
        self._check_deadline(context.height, deadline)?;
        let pool = self._find_existing_pool_id(token_a, token_b)?;
        let mut inputs: Vec<u128> = Vec::new();
        inputs.push(POOL_OP_BURN);
        let mut alkanes: Vec<AlkaneTransfer> = Vec::new();
        alkanes.push(AlkaneTransfer { id: pool, value: liquidity });
        proof {
            assert(inputs@ =~= seq![POOL_OP_BURN]);
            assert(alkanes@ =~= seq![AlkaneTransfer { id: pool, value: liquidity }]);
        }
        Ok(OutgoingCall { cellpack: Cellpack { target: pool, inputs }, alkanes })
    }
}

/// The amounts of the two assets to deposit, out of the two desired
/// amounts, so that they have the ratio of the reserves. Into empty reserves
/// the desired amounts go as they are. Otherwise the whole of `a` goes with
/// `amount_a_desired * previous_b / previous_a` of `b` where that is at most
/// the desired amount of `b`, and else the whole of `b` goes with
/// `amount_b_desired * previous_a / previous_b` of `a`; an amount below its
/// minimum is rejected.
pub open spec fn optimal_amounts(
    amount_a_desired: u128,
    amount_b_desired: u128,
    amount_a_min: u128,
    amount_b_min: u128,
    previous_a: u128,
    previous_b: u128,
) -> Result<(u128, u128), AmmError> {
    let amount_b_optimal = amount_a_desired * previous_b / (previous_a as int);
    let amount_a_optimal = amount_b_desired * previous_a / (previous_b as int);
    if previous_a == 0 && previous_b == 0 {
        Ok((amount_a_desired, amount_b_desired))
    } else if previous_a == 0 {
        Err(AmmError::InsufficientLiquidity)
    } else if amount_b_optimal > u128::MAX {
        Err(AmmError::Overflow)
    } else if amount_b_optimal <= amount_b_desired {
        if amount_b_optimal < amount_b_min {
            Err(AmmError::InsufficientBAmount)
        } else {
            Ok((amount_a_desired, amount_b_optimal as u128))
        }
    } else if amount_a_optimal > amount_a_desired || amount_a_optimal < amount_a_min {
        Err(AmmError::InsufficientAAmount)
    } else {
        Ok((amount_a_optimal as u128, amount_b_desired))
    }
}

/// `a * b / c`, the product taken in 320 bits. `None` where the quotient
/// does not fit in 128 bits.
pub(crate) fn mul_div(a: u128, b: u128, c: u128) -> (r: Option<u128>)
    requires
        c != 0,
    ensures
        r is Some <==> a * b / (c as int) <= u128::MAX,
        r is Some ==> r->0 == a * b / (c as int),
{
    let product = wide_mul(wide_from(a), wide_from(b));
    proof {
        lemma_product_fits(a, b);
        vstd::arithmetic::div_mod::lemma_small_mod((a * b) as nat, wide_modulus());
    }
    match wide_to_u128(wide_div(product, wide_from(c))) {
        Ok(v) => Some(v),
        Err(_) => None,
    }
}

/// Computes [`optimal_amounts`].
pub fn compute_optimal_amounts(
    amount_a_desired: u128,
    amount_b_desired: u128,
    amount_a_min: u128,
    amount_b_min: u128,
    previous_a: u128,
    previous_b: u128,
) -> (r: Result<(u128, u128), AmmError>)
    ensures
        r == optimal_amounts(
            amount_a_desired,
            amount_b_desired,
            amount_a_min,
            amount_b_min,
            previous_a,
            previous_b,
        ),
{
    if previous_a == 0 && previous_b == 0 {
        return Ok((amount_a_desired, amount_b_desired));
    }
    if previous_a == 0 {
        return Err(AmmError::InsufficientLiquidity);
    }
    let amount_b_optimal = match mul_div(amount_a_desired, previous_b, previous_a) {
        Some(v) => v,
        None => {
            return Err(AmmError::Overflow);
        },
    };
    if amount_b_optimal <= amount_b_desired {
        if amount_b_optimal < amount_b_min {
            return Err(AmmError::InsufficientBAmount);
        }
        Ok((amount_a_desired, amount_b_optimal))
    } else {
        proof {
            if previous_b == 0 {
                assert(amount_a_desired * previous_b == 0) by (nonlinear_arith)
                    requires
                        previous_b == 0,
                ;
            }
            lemma_other_side_smaller(
                amount_a_desired as int,
                amount_b_desired as int,
                previous_a as int,
                previous_b as int,
            );
        }
        let amount_a_optimal = match mul_div(amount_b_desired, previous_a, previous_b) {
            Some(v) => v,
            None => {
                return Err(AmmError::Overflow);
            },
        };
        if amount_a_optimal > amount_a_desired || amount_a_optimal < amount_a_min {
            return Err(AmmError::InsufficientAAmount);
        }
        Ok((amount_a_optimal, amount_b_desired))
    }
}

/// Where the whole of `a` would need more of `b` than desired, the whole of
/// `b` needs at most the desired amount of `a`.
pub proof fn lemma_other_side_smaller(a_desired: int, b_desired: int, previous_a: int, previous_b: int)
    requires
        0 <= a_desired,
        0 <= b_desired,
        0 < previous_a,
        0 < previous_b,
        a_desired * previous_b / previous_a > b_desired,
    ensures
        0 <= b_desired * previous_a / previous_b <= a_desired,
{
    let q = a_desired * previous_b / previous_a;
    vstd::arithmetic::div_mod::lemma_fundamental_div_mod(a_desired * previous_b, previous_a);
    assert(previous_a * q <= a_desired * previous_b) by {
        vstd::arithmetic::div_mod::lemma_mod_bound(a_desired * previous_b, previous_a);
    }
    assert(b_desired * previous_a <= a_desired * previous_b) by (nonlinear_arith)
        requires
            previous_a * q <= a_desired * previous_b,
            q > b_desired,
            0 < previous_a,
            0 <= b_desired,
    ;
    assert(0 <= b_desired * previous_a) by (nonlinear_arith)
        requires
            0 <= b_desired,
            0 < previous_a,
    ;
    vstd::arithmetic::div_mod::lemma_div_is_ordered(
        b_desired * previous_a,
        a_desired * previous_b,
        previous_b,
    );
    vstd::arithmetic::div_mod::lemma_div_multiples_vanish(a_desired, previous_b);
    assert(a_desired * previous_b == previous_b * a_desired) by (nonlinear_arith);
    vstd::arithmetic::div_mod::lemma_div_pos_is_pos(b_desired * previous_a, previous_b);
}

/// `Expired` where the deadline lies before the current height.
pub open spec fn deadline_checked(height: u64, deadline: u128) -> Result<(), AmmError> {
    if height > deadline {
        Err(AmmError::Expired)
    } else {
        Ok(())
    }
}

/// The byte forms of the identifiers that the positions hold, one after
/// the other; a position that holds nothing adds nothing.
pub open spec fn listed(positions: Seq<Option<AlkaneId>>) -> Seq<u8>
    decreases positions.len(),
{
    if positions.len() == 0 {
        Seq::<u8>::empty()
    } else {
        listed(positions.drop_last()) + match positions.last() {
            Some(pool) => id_bytes(pool),
            None => Seq::<u8>::empty(),
        }
    }
}

/// The position of the first transfer of asset `id` in a parcel.
pub open spec fn first_of(parcel: Seq<AlkaneTransfer>, id: AlkaneId) -> Option<int> {
    if exists|i: int| 0 <= i < parcel.len() && (#[trigger] parcel[i]).id == id {
        Some(
            choose|i: int|
                0 <= i < parcel.len() && (#[trigger] parcel[i]).id == id && forall|j: int|
                    0 <= j < i ==> (#[trigger] parcel[j]).id != id,
        )
    } else {
        None
    }
}

/// A position that holds asset `id`, with none before it that does, is the
/// first position of `id`.
pub proof fn lemma_first_of(parcel: Seq<AlkaneTransfer>, id: AlkaneId, i: int)
    requires
        0 <= i < parcel.len(),
        parcel[i].id == id,
        forall|j: int| 0 <= j < i ==> (#[trigger] parcel[j]).id != id,
    ensures
        first_of(parcel, id) == Some(i),
{
    let k = choose|k: int|
        0 <= k < parcel.len() && (#[trigger] parcel[k]).id == id && forall|j: int|
            0 <= j < k ==> (#[trigger] parcel[j]).id != id;
    if k < i {
        assert(parcel[k].id != id);
    } else if i < k {
        assert(parcel[i].id != id);
    }
}

/// A parcel without asset `id` has no first position of it.
pub proof fn lemma_first_of_none(parcel: Seq<AlkaneTransfer>, id: AlkaneId)
    requires
        forall|j: int| 0 <= j < parcel.len() ==> (#[trigger] parcel[j]).id != id,
    ensures
        first_of(parcel, id) is None,
{
}

/// Whether what a pool paid for burned liquidity meets the caller's
/// minimums. The payout holds the two assets of the pair in the pool's
/// order, which may or may not be the caller's.
pub open spec fn burn_checked(
    token_a: AlkaneId,
    paid: Seq<AlkaneTransfer>,
    amount_a_min: u128,
    amount_b_min: u128,
) -> Result<(), AmmError> {
    if paid.len() < 2 {
        Err(AmmError::Malformed)
    } else if paid[0].id == token_a {
        if paid[0].value < amount_a_min {
            Err(AmmError::InsufficientAAmount)
        } else if paid[1].value < amount_b_min {
            Err(AmmError::InsufficientBAmount)
        } else {
            Ok(())
        }
    } else {
        if paid[0].value < amount_b_min {
            Err(AmmError::InsufficientBAmount)
        } else if paid[1].value < amount_a_min {
            Err(AmmError::InsufficientAAmount)
        } else {
            Ok(())
        }
    }
}

/// Checks what a pool paid for burned liquidity against the caller's
/// minimums.
pub fn check_burn_result(
    token_a: AlkaneId,
    paid: &Vec<AlkaneTransfer>,
    amount_a_min: u128,
    amount_b_min: u128,
) -> (r: Result<(), AmmError>)
    ensures
        r == burn_checked(token_a, paid@, amount_a_min, amount_b_min),
{
    if paid.len() < 2 {
        return Err(AmmError::Malformed);
    }
    if paid[0].id == token_a {
        if paid[0].value < amount_a_min {
            return Err(AmmError::InsufficientAAmount);
        }
        if paid[1].value < amount_b_min {
            return Err(AmmError::InsufficientBAmount);
        }
    } else {
        if paid[0].value < amount_b_min {
            return Err(AmmError::InsufficientBAmount);
        }
        if paid[1].value < amount_a_min {
            return Err(AmmError::InsufficientAAmount);
        }
    }
    Ok(())
}

/// The two reserves that a pool reports: sixteen little-endian bytes each,
/// the smaller asset first. `Malformed` where the data is shorter.
pub fn parse_reserves(data: &[u8]) -> (r: Result<(u128, u128), AmmError>)
    ensures
        data@.len() < 32 ==> r == Err::<(u128, u128), AmmError>(AmmError::Malformed),
        data@.len() >= 32 ==> r == Ok::<(u128, u128), AmmError>(
            (
                spec_u128_from_le_bytes(data@.subrange(0, 16)),
                spec_u128_from_le_bytes(data@.subrange(16, 32)),
            ),
        ),
{
    if data.len() < 32 {
        return Err(AmmError::Malformed);
    }
    let reserve_a = u128_from_le_bytes(slice_subrange(data, 0, 16));
    let reserve_b = u128_from_le_bytes(slice_subrange(data, 16, 32));
    Ok((reserve_a, reserve_b))
}

/// The trading fee that a factory reports: sixteen little-endian bytes.
/// `Malformed` where the data is shorter.
pub fn parse_fee(data: &[u8]) -> (r: Result<u128, AmmError>)
    ensures
        data@.len() < 16 ==> r == Err::<u128, AmmError>(AmmError::Malformed),
        data@.len() >= 16 ==> r == Ok::<u128, AmmError>(
            spec_u128_from_le_bytes(data@.subrange(0, 16)),
        ),
{
    if data.len() < 16 {
        return Err(AmmError::Malformed);
    }
    Ok(u128_from_le_bytes(slice_subrange(data, 0, 16)))
}

/// The call that asks a factory for the trading fee of a pool: the pool as
/// numbers, no assets.
pub fn _get_pool_fee(factory: AlkaneId, pool: AlkaneId) -> (r: OutgoingCall)
    ensures
        r.cellpack.target == factory,
        r.cellpack.inputs@ == seq![FACTORY_OP_POOL_FEE, pool.block, pool.tx],
        r.alkanes@ == Seq::<AlkaneTransfer>::empty(),
{
    let mut inputs: Vec<u128> = Vec::new();
    inputs.push(FACTORY_OP_POOL_FEE);
    inputs.push(pool.block);
    inputs.push(pool.tx);
    assert(inputs@ =~= seq![FACTORY_OP_POOL_FEE, pool.block, pool.tx]);
    OutgoingCall { cellpack: Cellpack { target: factory, inputs }, alkanes: Vec::new() }
}

/// The reserves of a pool in the order of the pair as given: the reserve of
/// `token_a` first.
pub fn _get_reserves_ordered(token_a: AlkaneId, token_b: AlkaneId, reserve_0: u128, reserve_1: u128)
    -> (r: (u128, u128))
    ensures
        r == ordered_reserves(token_a, token_b, reserve_0, reserve_1),
{
    let (token_0, _) = sort_alkanes((token_a, token_b));
    if token_a == token_0 {
        (reserve_0, reserve_1)
    } else {
        (reserve_1, reserve_0)
    }
}

/// The reserves of a pool, given smaller asset first, in the order of the
/// pair as given.
pub open spec fn ordered_reserves(
    token_a: AlkaneId,
    token_b: AlkaneId,
    reserve_0: u128,
    reserve_1: u128,
) -> (u128, u128) {
    if token_a == sorted_pair(token_a, token_b).0 {
        (reserve_0, reserve_1)
    } else {
        (reserve_1, reserve_0)
    }
}

/// The call that asks a contract for something without sending assets: one
/// operation number, no assets.
pub fn query(target: AlkaneId, operation: u128) -> (r: OutgoingCall)
    ensures
        r.cellpack.target == target,
        r.cellpack.inputs@ == seq![operation],
        r.alkanes@ == Seq::<AlkaneTransfer>::empty(),
{
    let mut inputs: Vec<u128> = Vec::new();
    inputs.push(operation);
    assert(inputs@ =~= seq![operation]);
    OutgoingCall { cellpack: Cellpack { target, inputs }, alkanes: Vec::new() }
}

/// The call that asks a pool for its reserves.
pub fn _get_reserves(pool: AlkaneId) -> (r: OutgoingCall)
    ensures
        r.cellpack.target == pool,
        r.cellpack.inputs@ == seq![POOL_OP_GET_RESERVES],
        r.alkanes@ == Seq::<AlkaneTransfer>::empty(),
{
    query(pool, POOL_OP_GET_RESERVES)
}

/// The call that asks a pool for its summary.
pub fn _get_pool_info(pool: AlkaneId) -> (r: OutgoingCall)
    ensures
        r.cellpack.target == pool,
        r.cellpack.inputs@ == seq![POOL_OP_DETAILS],
        r.alkanes@ == Seq::<AlkaneTransfer>::empty(),
{
    query(pool, POOL_OP_DETAILS)
}

/// Whether the identifiers stand in strictly ascending order, so that none
/// occurs twice.
pub open spec fn ascending(ids: Seq<AlkaneId>) -> bool {
    forall|i: int, j: int| 0 <= i < j < ids.len() ==> (#[trigger] ids[i]).precedes(#[trigger] ids[j])
}

/// Whether a parcel names the asset.
pub open spec fn names(parcel: Seq<AlkaneTransfer>, id: AlkaneId) -> bool {
    exists|i: int| 0 <= i < parcel.len() && (#[trigger] parcel[i]).id == id
}

/// Puts an identifier into an ascending list, unless it is there already.
pub fn insert_id(ids: &mut Vec<AlkaneId>, id: AlkaneId)
    requires
        ascending(old(ids)@),
    ensures
        ascending(final(ids)@),
        forall|other: AlkaneId|
            final(ids)@.contains(other) <==> old(ids)@.contains(other) || other == id,
{
    let mut i: usize = 0;
    while i < ids.len() && ids[i].lt(&id)
        invariant
            0 <= i <= ids@.len(),
            ids@ == old(ids)@,
            forall|j: int| 0 <= j < i ==> (#[trigger] ids@[j]).precedes(id),
        decreases ids@.len() - i,
    {
        i += 1;
    }
    if i < ids.len() && ids[i] == id {
        assert(ids@.contains(id)) by {
            assert(ids@[i as int] == id);
        }
        return ;
    }
    ids.insert(i, id);
    proof {
        let before = old(ids)@;
        let after = ids@;
        assert forall|a: int, b: int| 0 <= a < b < after.len() implies (#[trigger] after[a]).precedes(
            #[trigger] after[b],
        ) by {
            if b < i {
                assert(after[a] == before[a] && after[b] == before[b]);
            } else if b == i {
                assert(after[a] == before[a]);
            } else if a < i {
                assert(after[a] == before[a] && after[b] == before[b - 1]);
            } else if a == i {
                assert(after[b] == before[b - 1]);
                if b - 1 > i {
                    assert(before[i as int].precedes(before[b - 1]));
                }
            } else {
                assert(after[a] == before[a - 1] && after[b] == before[b - 1]);
            }
        }
        assert forall|other: AlkaneId|
            after.contains(other) <==> before.contains(other) || other == id by {
            if after.contains(other) {
                let k = choose|k: int| 0 <= k < after.len() && after[k] == other;
                if k < i {
                    assert(before[k] == other);
                } else if k > i {
                    assert(before[k - 1] == other);
                }
            }
            if before.contains(other) {
                let k = choose|k: int| 0 <= k < before.len() && before[k] == other;
                if k < i {
                    assert(after[k] == other);
                } else {
                    assert(after[k + 1] == other);
                }
            }
            if other == id {
                assert(after[i as int] == id);
            }
        }
    }
}

/// The assets that a call may have left in the factory's hands: those that
/// came with the call and those that the pool handed back, each once, in
/// ascending order.
pub fn leftover_ids(input_alkanes: &Vec<AlkaneTransfer>, result_alkanes: &Vec<AlkaneTransfer>) -> (r:
    Vec<AlkaneId>)
    ensures
        ascending(r@),
        forall|id: AlkaneId|
            r@.contains(id) <==> names(input_alkanes@, id) || names(result_alkanes@, id),
{
    let mut ids: Vec<AlkaneId> = Vec::new();
    let mut i: usize = 0;
    while i < input_alkanes.len()
        invariant
            0 <= i <= input_alkanes@.len(),
            ascending(ids@),
            forall|id: AlkaneId| ids@.contains(id) <==> names(input_alkanes@.take(i as int), id),
        decreases input_alkanes@.len() - i,
    {
        let ghost before = ids@;
        insert_id(&mut ids, input_alkanes[i].id);
        proof {
            let taken = input_alkanes@.take(i as int);
            let next = input_alkanes@.take(i + 1);
            assert forall|id: AlkaneId| ids@.contains(id) <==> names(next, id) by {
                if names(next, id) {
                    let k = choose|k: int| 0 <= k < next.len() && (#[trigger] next[k]).id == id;
                    if k < i {
                        assert(taken[k].id == id);
                    }
                }
                if names(taken, id) {
                    let k = choose|k: int| 0 <= k < taken.len() && (#[trigger] taken[k]).id == id;
                    assert(next[k].id == id);
                }
                if id == input_alkanes@[i as int].id {
                    assert(next[i as int].id == id);
                }
            }
        }
        i += 1;
    }
    proof {
        assert(input_alkanes@.take(i as int) =~= input_alkanes@);
    }
    let mut j: usize = 0;
    while j < result_alkanes.len()
        invariant
            0 <= j <= result_alkanes@.len(),
            ascending(ids@),
            forall|id: AlkaneId|
                ids@.contains(id) <==> names(input_alkanes@, id) || names(
                    result_alkanes@.take(j as int),
                    id,
                ),
        decreases result_alkanes@.len() - j,
    {
        insert_id(&mut ids, result_alkanes[j].id);
        proof {
            let taken = result_alkanes@.take(j as int);
            let next = result_alkanes@.take(j + 1);
            assert forall|id: AlkaneId|
                ids@.contains(id) <==> names(input_alkanes@, id) || names(next, id) by {
                if names(next, id) {
                    let k = choose|k: int| 0 <= k < next.len() && (#[trigger] next[k]).id == id;
                    if k < j {
                        assert(taken[k].id == id);
                    }
                }
                if names(taken, id) {
                    let k = choose|k: int| 0 <= k < taken.len() && (#[trigger] taken[k]).id == id;
                    assert(next[k].id == id);
                }
                if id == result_alkanes@[j as int].id {
                    assert(next[j as int].id == id);
                }
            }
        }
        j += 1;
    }
    proof {
        assert(result_alkanes@.take(j as int) =~= result_alkanes@);
    }
    ids
}

/// The response that hands everything that a call has left in the factory's
/// hands back to the caller: for each of [`leftover_ids`], in that order, the
/// factory's balance of it, which `balances` gives in the same order.
/// `Malformed` where `balances` does not have one entry for each asset.
pub fn _return_leftovers(
    result: &CallResponse,
    input_alkanes: &Vec<AlkaneTransfer>,
    balances: &Vec<u128>,
) -> (r: Result<CallResponse, AmmError>)
    ensures
        r is Ok ==> {
            let paid = r->Ok_0.alkanes@;
            &&& paid.len() == balances@.len()
            &&& r->Ok_0.data@ == Seq::<u8>::empty()
            &&& ascending(paid.map_values(|t: AlkaneTransfer| t.id))
            &&& forall|id: AlkaneId|
                names(paid, id) <==> names(input_alkanes@, id) || names(result.alkanes@, id)
            &&& forall|i: int| 0 <= i < paid.len() ==> (#[trigger] paid[i]).value == balances@[i]
        },
        r is Err ==> r->Err_0 == AmmError::Malformed,
        r is Ok <==> exists|ids: Seq<AlkaneId>|
            #![trigger ascending(ids)]
            ascending(ids) && ids.len() == balances@.len() && forall|id: AlkaneId|
                ids.contains(id) <==> names(input_alkanes@, id) || names(result.alkanes@, id),
{
    let ids = leftover_ids(input_alkanes, &result.alkanes);
    if balances.len() != ids.len() {
        proof {
            assert forall|other: Seq<AlkaneId>|
                ascending(other) && (forall|id: AlkaneId|
                    other.contains(id) <==> names(input_alkanes@, id) || names(
                        result.alkanes@,
                        id,
                    )) implies other.len() == ids@.len() by {
                lemma_ascending_unique(other, ids@);
            }
        }
        return Err(AmmError::Malformed);
    }
    let mut response = CallResponse::new();
    let mut i: usize = 0;
    while i < ids.len()
        invariant
            0 <= i <= ids@.len(),
            ids@.len() == balances@.len(),
            response.data@ == Seq::<u8>::empty(),
            response.alkanes@.len() == i,
            forall|j: int|
                0 <= j < i ==> (#[trigger] response.alkanes@[j]) == (AlkaneTransfer {
                    id: ids@[j],
                    value: balances@[j],
                }),
        decreases ids@.len() - i,
    {
        response.alkanes.push(AlkaneTransfer { id: ids[i], value: balances[i] });
        i += 1;
    }
    proof {
        let paid = response.alkanes@;
        assert(paid.map_values(|t: AlkaneTransfer| t.id) =~= ids@);
        assert forall|id: AlkaneId| names(paid, id) <==> ids@.contains(id) by {
            if names(paid, id) {
                let k = choose|k: int| 0 <= k < paid.len() && (#[trigger] paid[k]).id == id;
                assert(ids@[k] == id);
            }
            if ids@.contains(id) {
                let k = choose|k: int| 0 <= k < ids@.len() && ids@[k] == id;
                assert(paid[k].id == id);
            }
        }
        assert(ascending(ids@));
    }
    Ok(response)
}

/// Two ascending lists that hold the same identifiers are the same list.
pub proof fn lemma_ascending_unique(a: Seq<AlkaneId>, b: Seq<AlkaneId>)
    requires
        ascending(a),
        ascending(b),
        forall|id: AlkaneId| a.contains(id) <==> b.contains(id),
    ensures
        a == b,
    decreases a.len(),
{
    if a.len() == 0 {
        if b.len() > 0 {
            assert(b.contains(b[0]));
        }
        assert(a =~= b);
    } else {
        let last = a.last();
        assert(a.contains(last));
        assert(b.contains(last));
        if b.len() == 0 {
            assert(false);
        }
        let k = choose|k: int| 0 <= k < b.len() && b[k] == last;
        // the last of b is in a, so it cannot come after `last`
        assert(b.contains(b.last()));
        assert(a.contains(b.last()));
        let m = choose|m: int| 0 <= m < a.len() && a[m] == b.last();
        if k < b.len() - 1 {
            assert(b[k].precedes(b[b.len() - 1]));
            if m < a.len() - 1 {
                assert(a[m].precedes(a[a.len() - 1]));
            }
            assert(false);
        }
        let a1 = a.drop_last();
        let b1 = b.drop_last();
        assert forall|id: AlkaneId| a1.contains(id) <==> b1.contains(id) by {
            if a1.contains(id) {
                let i = choose|i: int| 0 <= i < a1.len() && a1[i] == id;
                assert(a[i] == id);
                assert(a[i].precedes(a[a.len() - 1]));
                assert(a.contains(id));
                assert(b.contains(id));
                let j = choose|j: int| 0 <= j < b.len() && b[j] == id;
                assert(j < b.len() - 1);
                assert(b1[j] == id);
            }
            if b1.contains(id) {
                let j = choose|j: int| 0 <= j < b1.len() && b1[j] == id;
                assert(b[j] == id);
                assert(b[j].precedes(b[b.len() - 1]));
                assert(b.contains(id));
                assert(a.contains(id));
                let i = choose|i: int| 0 <= i < a.len() && a[i] == id;
                assert(i < a.len() - 1);
                assert(a1[i] == id);
            }
        }
        assert(ascending(a1)) by {
            assert forall|i: int, j: int| 0 <= i < j < a1.len() implies (#[trigger] a1[i]).precedes(
                #[trigger] a1[j],
            ) by {
                assert(a[i].precedes(a[j]));
            }
        }
        assert(ascending(b1)) by {
            assert forall|i: int, j: int| 0 <= i < j < b1.len() implies (#[trigger] b1[i]).precedes(
                #[trigger] b1[j],
            ) by {
                assert(b[i].precedes(b[j]));
            }
        }
        lemma_ascending_unique(a1, b1);
        assert(a =~= a1.push(last));
        assert(b =~= b1.push(last));
    }
}

impl Default for AMMFactory {
    /// The same as [`AMMFactory::new`].
    fn default() -> (r: Self)
        ensures
            r.is_fresh(),
            r.wf(),
    {
        AMMFactory::new()
    }
}

} // verus!
