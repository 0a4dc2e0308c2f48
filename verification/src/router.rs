//! The router: a contract without pools of its own that finds the pool of
//! each hop through a factory and hands the assets on from hop to hop.
//!
//! Every step of the router is a call that its host makes. The router says
//! which call comes next and reads what comes back.

use vstd::prelude::*;
use crate::error::AmmError;
use crate::factory::{query, POOL_OP_ADD_LIQUIDITY, POOL_OP_BURN, POOL_OP_SWAP};
use crate::id::{id_at, AlkaneId};
use crate::parcel::{copy_parcel, AlkaneTransfer, CallResponse, Cellpack, Context, OutgoingCall};

verus! {

/// The operation of a factory that finds the pool of a pair.
pub const FACTORY_OP_FIND_POOL: u128 = 2;

/// The operation of a factory that enumerates its pools.
pub const FACTORY_OP_ALL_POOLS: u128 = 3;

/// The state of a router.
#[derive(Clone, Copy, Debug, PartialEq, Eq, Structural)]
pub struct AMMRouter {
    /// Whether the router has been given its factory.
    pub initialized: bool,
    /// The factory through which the router finds pools.
    pub factory: AlkaneId,
}

/// The amount that hop `i` of a path of `n` assets asks its pool for at
/// least: the caller's minimum at the last hop, nothing before.
pub open spec fn hop_minimum(n: int, i: int, amount: u128) -> u128 {
    if i == n - 1 {
        amount
    } else {
        0
    }
}

impl AMMRouter {
    /// A router that has not been initialized.
    pub fn new() -> (r: Self)
        ensures
            r == (AMMRouter { initialized: false, factory: AlkaneId { block: 0, tx: 0 } }),
    {
        AMMRouter { initialized: false, factory: AlkaneId { block: 0, tx: 0 } }
    }

    /// The factory of the router, or `Uninitialized`.
    pub fn factory(&self) -> (r: Result<AlkaneId, AmmError>)
        ensures
            r == (if self.initialized {
                Ok::<AlkaneId, AmmError>(self.factory)
            } else {
                Err::<AlkaneId, AmmError>(AmmError::Uninitialized)
            }),
    {
        if !self.initialized {
            return Err(AmmError::Uninitialized);
        }
        Ok(self.factory)
    }

    /// Gives the router its factory, once, and hands back the assets that
    /// came with the call. A rejected call changes nothing.
    pub fn initialize(&mut self, context: &Context, factory_id: AlkaneId) -> (r: Result<
        CallResponse,
        AmmError,
    >)
        ensures
            old(self).initialized ==> r == Err::<CallResponse, AmmError>(
                AmmError::AlreadyInitialized,
            ) && *final(self) == *old(self),
            !old(self).initialized ==> r is Ok && *final(self) == (AMMRouter {
                initialized: true,
                factory: factory_id,
            }) && r->Ok_0.alkanes@ == context.incoming_alkanes@ && r->Ok_0.data@ == Seq::<
                u8,
            >::empty(),
    {
        if self.initialized {
            return Err(AmmError::AlreadyInitialized);
        }
        self.factory = factory_id;
        self.initialized = true;
        Ok(CallResponse::forward(&context.incoming_alkanes))
    }

    /// The call that asks the factory for the pool of a pair: the pair as
    /// numbers, no assets.
    pub fn get_pool_for(&self, alkane1: &AlkaneId, alkane2: &AlkaneId) -> (r: Result<
        OutgoingCall,
        AmmError,
    >)
        ensures
            !self.initialized ==> r == Err::<OutgoingCall, AmmError>(AmmError::Uninitialized),
            self.initialized ==> r is Ok && r->Ok_0.cellpack.target == self.factory
                && r->Ok_0.cellpack.inputs@ == seq![
                FACTORY_OP_FIND_POOL,
                alkane1.block,
                alkane1.tx,
                alkane2.block,
                alkane2.tx,
            ] && r->Ok_0.alkanes@ == Seq::<AlkaneTransfer>::empty(),
    {
        let factory = self.factory()?;
        let mut inputs: Vec<u128> = Vec::new();
        inputs.push(FACTORY_OP_FIND_POOL);
        inputs.push(alkane1.block);
        inputs.push(alkane1.tx);
        inputs.push(alkane2.block);
        inputs.push(alkane2.tx);
        assert(inputs@ =~= seq![
            FACTORY_OP_FIND_POOL,
            alkane1.block,
            alkane1.tx,
            alkane2.block,
            alkane2.tx,
        ]);
        Ok(OutgoingCall { cellpack: Cellpack { target: factory, inputs }, alkanes: Vec::new() })
    }

    /// The pool that the factory answered with: the identifier at the front
    /// of the data. `Malformed` where the data is shorter than an
    /// identifier.
    pub fn read_pool(data: &[u8]) -> (r: Result<AlkaneId, AmmError>)
        ensures
            data@.len() < 32 ==> r == Err::<AlkaneId, AmmError>(AmmError::Malformed),
            data@.len() >= 32 ==> r == Ok::<AlkaneId, AmmError>(id_at(data@, 0)),
    {
        match AlkaneId::read(data, 0) {
            Some(pool) => Ok(pool),
            None => Err(AmmError::Malformed),
        }
    }

    /// The call that asks the factory to enumerate its pools.
    pub fn get_all_pools(&self) -> (r: Result<OutgoingCall, AmmError>)
        ensures
            !self.initialized ==> r == Err::<OutgoingCall, AmmError>(AmmError::Uninitialized),
            self.initialized ==> r is Ok && r->Ok_0.cellpack.target == self.factory
                && r->Ok_0.cellpack.inputs@ == seq![FACTORY_OP_ALL_POOLS] && r->Ok_0.alkanes@
                == Seq::<AlkaneTransfer>::empty(),
    {
        let factory = self.factory()?;
        Ok(query(factory, FACTORY_OP_ALL_POOLS))
    }

    /// The call that hands the assets that came with this call on to a pool,
    /// for the operation given.
    pub fn add_or_remove_liquidity(&self, context: &Context, opcode: u128, pool: AlkaneId) -> (r:
        OutgoingCall)
        ensures
            r.cellpack.target == pool,
            r.cellpack.inputs@ == seq![opcode],
            r.alkanes@ == context.incoming_alkanes@,
    {
        let mut inputs: Vec<u128> = Vec::new();
        inputs.push(opcode);
        assert(inputs@ =~= seq![opcode]);
        OutgoingCall {
            cellpack: Cellpack { target: pool, inputs },
            alkanes: copy_parcel(&context.incoming_alkanes),
        }
    }

    /// The call that deposits the assets that came with this call into a
    /// pool.
    pub fn add_liquidity(&self, context: &Context, pool: AlkaneId) -> (r: OutgoingCall)
        ensures
            r.cellpack.target == pool,
            r.cellpack.inputs@ == seq![POOL_OP_ADD_LIQUIDITY],
            r.alkanes@ == context.incoming_alkanes@,
    {
        self.add_or_remove_liquidity(context, POOL_OP_ADD_LIQUIDITY, pool)
    }

    /// The call that burns the liquidity tokens that came with this call.
    pub fn remove_liquidity(&self, context: &Context, pool: AlkaneId) -> (r: OutgoingCall)
        ensures
            r.cellpack.target == pool,
            r.cellpack.inputs@ == seq![POOL_OP_BURN],
            r.alkanes@ == context.incoming_alkanes@,
    {
        self.add_or_remove_liquidity(context, POOL_OP_BURN, pool)
    }

    /// The swap of hop `i` of a path, counted from 1: the call of the hop's
    /// pool with the assets that the hop before handed back, or at the first
    /// hop those that came with the call. Only the last hop asks for the
    /// caller's minimum. `PathTooShort` for a path of fewer than two assets,
    /// `Malformed` where the path has no hop `i`.
    pub fn swap(
        &self,
        path: &Vec<AlkaneId>,
        amount: u128,
        i: usize,
        pool: AlkaneId,
        carried: Vec<AlkaneTransfer>,
    ) -> (r: Result<OutgoingCall, AmmError>)
        ensures
            path@.len() < 2 ==> r == Err::<OutgoingCall, AmmError>(AmmError::PathTooShort),
            path@.len() >= 2 && !(1 <= i < path@.len()) ==> r == Err::<OutgoingCall, AmmError>(
                AmmError::Malformed,
            ),
            path@.len() >= 2 && 1 <= i < path@.len() ==> r is Ok && r->Ok_0.cellpack.target
                == pool && r->Ok_0.cellpack.inputs@ == seq![
                POOL_OP_SWAP,
                hop_minimum(path@.len() as int, i as int, amount),
            ] && r->Ok_0.alkanes@ == carried@,
    {
        if path.len() < 2 {
            return Err(AmmError::PathTooShort);
        }
        if i < 1 || i >= path.len() {
            return Err(AmmError::Malformed);
        }
        let this_amount = if i == path.len() - 1 {
            amount
        } else {
            0
        };
        let mut inputs: Vec<u128> = Vec::new();
        inputs.push(POOL_OP_SWAP);
        inputs.push(this_amount);
        assert(inputs@ =~= seq![POOL_OP_SWAP, this_amount]);
        Ok(OutgoingCall { cellpack: Cellpack { target: pool, inputs }, alkanes: carried })
    }

    /// Hands back the assets that came with the call.
    pub fn forward_incoming(&self, context: &Context) -> (r: CallResponse)
        ensures
            r.alkanes@ == context.incoming_alkanes@,
            r.data@ == Seq::<u8>::empty(),
    {
        CallResponse::forward(&context.incoming_alkanes)
    }
}

impl Default for AMMRouter {
    /// The same as [`AMMRouter::new`].
    fn default() -> (r: Self)
        ensures
            r == (AMMRouter { initialized: false, factory: AlkaneId { block: 0, tx: 0 } }),
    {
        AMMRouter::new()
    }
}

} // verus!
