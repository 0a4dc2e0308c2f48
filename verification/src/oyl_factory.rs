//! The factory of the fee-burning kind: a factory that also knows the
//! protocol's token and where to ask for a route to it.

use vstd::prelude::*;
use crate::error::AmmError;
use crate::factory::{AMMFactory, POOL_OP_INIT, TEMPLATE_BLOCK};
use crate::id::{id_bytes, AlkaneId};
use crate::parcel::{AlkaneTransfer, CallResponse, Cellpack, Context, OutgoingCall};
use crate::path_provider::{decode_path, path_in};

verus! {

/// The operation of a path provider that gives the route kept for a pair.
pub const PATH_PROVIDER_OP_GET_PATH: u128 = 1;

/// The state of a factory of the fee-burning kind.
pub struct OylAMMFactory {
    /// The registry and what every factory has.
    pub factory: AMMFactory,
    /// The contract that keeps routes.
    pub path_provider_id: AlkaneId,
    /// The protocol's token.
    pub oyl_token_id: AlkaneId,
}

impl OylAMMFactory {
    /// A factory that has not been initialized, with an empty registry.
    pub fn new() -> (r: Self)
        ensures
            r.factory.is_fresh(),
            r.factory.wf(),
            r.path_provider_id == (AlkaneId { block: 0, tx: 0 }),
            r.oyl_token_id == (AlkaneId { block: 0, tx: 0 }),
    {
        OylAMMFactory {
            factory: AMMFactory::new(),
            path_provider_id: AlkaneId { block: 0, tx: 0 },
            oyl_token_id: AlkaneId { block: 0, tx: 0 },
        }
    }

    /// The contract that keeps routes, or `Uninitialized`.
    pub fn path_provider(&self) -> (r: Result<AlkaneId, AmmError>)
        ensures
            r == (if self.factory.initialized {
                Ok::<AlkaneId, AmmError>(self.path_provider_id)
            } else {
                Err::<AlkaneId, AmmError>(AmmError::Uninitialized)
            }),
    {
        if !self.factory.initialized {
            return Err(AmmError::Uninitialized);
        }
        Ok(self.path_provider_id)
    }

    /// The protocol's token, or `Uninitialized`.
    pub fn oyl_token(&self) -> (r: Result<AlkaneId, AmmError>)
        ensures
            r == (if self.factory.initialized {
                Ok::<AlkaneId, AmmError>(self.oyl_token_id)
            } else {
                Err::<AlkaneId, AmmError>(AmmError::Uninitialized)
            }),
    {
        if !self.factory.initialized {
            return Err(AmmError::Uninitialized);
        }
        Ok(self.oyl_token_id)
    }

    /// Initializes the factory, once, as [`AMMFactory::init_factory`] does,
    /// and records the path provider and the protocol's token. A rejected
    /// call changes nothing.
    pub fn init_factory(
        &mut self,
        context: &Context,
        pool_factory_id: u128,
        auth_token: AlkaneTransfer,
        path_provider_id: AlkaneId,
        oyl_token_id: AlkaneId,
    ) -> (r: Result<CallResponse, AmmError>)
        ensures
            match old(self).factory.initialized_with(pool_factory_id, auth_token.id) {
                Ok(factory) => {
                    &&& r is Ok
                    &&& final(self).factory == factory
                    &&& final(self).path_provider_id == path_provider_id
                    &&& final(self).oyl_token_id == oyl_token_id
                    &&& r->Ok_0.alkanes@ == context.incoming_alkanes@.push(auth_token)
                    &&& r->Ok_0.data@ == Seq::<u8>::empty()
                },
                Err(e) => r == Err::<CallResponse, AmmError>(e) && *final(self) == *old(self),
            },
    {
        let response = self.factory.init_factory(context, pool_factory_id, auth_token)?;
        self.path_provider_id = path_provider_id;
        self.oyl_token_id = oyl_token_id;
        Ok(response)
    }

    /// Sets the contract that keeps routes. Only for the owner. The response
    /// hands back the assets that came with the call. A rejected call
    /// changes nothing.
    pub fn set_path_provider_id(&mut self, context: &Context, path_provider_id: AlkaneId) -> (r:
        Result<CallResponse, AmmError>)
        ensures
            old(self).factory.authorizes(context.incoming_alkanes@) ==> {
                &&& r is Ok
                &&& final(self).path_provider_id == path_provider_id
                &&& final(self).factory == old(self).factory
                &&& final(self).oyl_token_id == old(self).oyl_token_id
                &&& r->Ok_0.alkanes@ == context.incoming_alkanes@
                &&& r->Ok_0.data@ == Seq::<u8>::empty()
            },
            !old(self).factory.authorizes(context.incoming_alkanes@) ==> r == Err::<
                CallResponse,
                AmmError,
            >(AmmError::NotOwner) && *final(self) == *old(self),
    {
        self.factory.only_owner(context)?;
        self.path_provider_id = path_provider_id;
        Ok(CallResponse::forward(&context.incoming_alkanes))
    }

    /// Sets the protocol's token. Only for the owner. The response hands
    /// back the assets that came with the call. A rejected call changes
    /// nothing.
    pub fn set_oyl_token_id(&mut self, context: &Context, oyl_token_id: AlkaneId) -> (r: Result<
        CallResponse,
        AmmError,
    >)
        ensures
            old(self).factory.authorizes(context.incoming_alkanes@) ==> {
                &&& r is Ok
                &&& final(self).oyl_token_id == oyl_token_id
                &&& final(self).factory == old(self).factory
                &&& final(self).path_provider_id == old(self).path_provider_id
                &&& r->Ok_0.alkanes@ == context.incoming_alkanes@
                &&& r->Ok_0.data@ == Seq::<u8>::empty()
            },
            !old(self).factory.authorizes(context.incoming_alkanes@) ==> r == Err::<
                CallResponse,
                AmmError,
            >(AmmError::NotOwner) && *final(self) == *old(self),
    {
        self.factory.only_owner(context)?;
        self.oyl_token_id = oyl_token_id;
        Ok(CallResponse::forward(&context.incoming_alkanes))
    }

    /// Registers a pool for a pair that has none and answers with the call
    /// that initializes it, as [`AMMFactory::create_new_pool`] does.
    pub fn create_new_pool(
        &mut self,
        context: &Context,
        token_a: AlkaneId,
        token_b: AlkaneId,
        amount_a: u128,
        amount_b: u128,
        sequence: u128,
    ) -> (r: Result<OutgoingCall, AmmError>)
        ensures
            final(self).path_provider_id == old(self).path_provider_id,
            final(self).oyl_token_id == old(self).oyl_token_id,
            match old(self).factory.pool_created(token_a, token_b, amount_a, amount_b, sequence) {
                Ok(entry) => {
                    &&& r is Ok
                    &&& old(self).factory.registers(final(self).factory, entry)
                    &&& r->Ok_0.cellpack.target == (AlkaneId {
                        block: TEMPLATE_BLOCK,
                        tx: old(self).factory.pool_factory_id,
                    })
                    &&& r->Ok_0.cellpack.inputs@ == seq![
                        POOL_OP_INIT,
                        entry.token_a.block,
                        entry.token_a.tx,
                        entry.token_b.block,
                        entry.token_b.tx,
                        context.myself.block,
                        context.myself.tx,
                    ]
                    &&& r->Ok_0.alkanes@ == seq![
                        AlkaneTransfer { id: token_a, value: amount_a },
                        AlkaneTransfer { id: token_b, value: amount_b },
                    ]
                },
                Err(e) => r == Err::<OutgoingCall, AmmError>(e) && final(self).factory == old(
                    self,
                ).factory,
            },
            old(self).factory.wf() ==> final(self).factory.wf(),
    {
        self.factory.create_new_pool(context, token_a, token_b, amount_a, amount_b, sequence)
    }

    /// Hands back the assets that came with the call, with the byte form of
    /// the path provider's identifier as data.
    pub fn get_path_provider(&self, context: &Context) -> (r: CallResponse)
        ensures
            r.alkanes@ == context.incoming_alkanes@,
            r.data@ == id_bytes(self.path_provider_id),
    {
        let mut response = CallResponse::forward(&context.incoming_alkanes);
        response.data = self.path_provider_id.to_bytes();
        response
    }

    /// The call that asks the path provider for the route between two
    /// assets: the two assets as numbers, no assets attached.
    pub fn _get_path_between(&self, alkane1: &AlkaneId, alkane2: &AlkaneId) -> (r: Result<
        OutgoingCall,
        AmmError,
    >)
        ensures
            !self.factory.initialized ==> r == Err::<OutgoingCall, AmmError>(
                AmmError::Uninitialized,
            ),
            self.factory.initialized ==> r is Ok && r->Ok_0.cellpack.target
                == self.path_provider_id && r->Ok_0.cellpack.inputs@ == seq![
                PATH_PROVIDER_OP_GET_PATH,
                alkane1.block,
                alkane1.tx,
                alkane2.block,
                alkane2.tx,
            ] && r->Ok_0.alkanes@ == Seq::<AlkaneTransfer>::empty(),
    {
        let path_provider = self.path_provider()?;
        let mut inputs: Vec<u128> = Vec::new();
        inputs.push(PATH_PROVIDER_OP_GET_PATH);
        inputs.push(alkane1.block);
        inputs.push(alkane1.tx);
        inputs.push(alkane2.block);
        inputs.push(alkane2.tx);
        assert(inputs@ =~= seq![
            PATH_PROVIDER_OP_GET_PATH,
            alkane1.block,
            alkane1.tx,
            alkane2.block,
            alkane2.tx,
        ]);
        Ok(
            OutgoingCall {
                cellpack: Cellpack { target: path_provider, inputs },
                alkanes: Vec::new(),
            },
        )
    }

    /// The route that the path provider answered with, or `None` where it
    /// keeps none.
    pub fn read_path(data: &[u8]) -> (r: Option<Vec<AlkaneId>>)
        ensures
            path_in(data@).len() == 0 ==> r is None,
            path_in(data@).len() != 0 ==> r is Some && r->0@ == path_in(data@),
    {
        let path = decode_path(data);
        if path.len() != 0 {
            Some(path)
        } else {
            None
        }
    }

    /// What to do with an asset that was sent to be swapped for the
    /// protocol's token and burned: nothing where it is that token already,
    /// and otherwise to ask for the route from it to the token. The call
    /// takes exactly one transfer; `WrongAssetCount` otherwise.
    pub fn swap_to_and_burn_oyl(&self, context: &Context) -> (r: Result<
        Option<OutgoingCall>,
        AmmError,
    >)
        ensures
            context.incoming_alkanes@.len() != 1 ==> r == Err::<Option<OutgoingCall>, AmmError>(
                AmmError::WrongAssetCount,
            ),
            context.incoming_alkanes@.len() == 1 && !self.factory.initialized ==> r == Err::<
                Option<OutgoingCall>,
                AmmError,
            >(AmmError::Uninitialized),
            context.incoming_alkanes@.len() == 1 && self.factory.initialized ==> r is Ok && (
            context.incoming_alkanes@[0].id == self.oyl_token_id ==> r->Ok_0 is None) && (
            context.incoming_alkanes@[0].id != self.oyl_token_id ==> {
                &&& r->Ok_0 is Some
                &&& r->Ok_0->0.cellpack.target == self.path_provider_id
                &&& r->Ok_0->0.cellpack.inputs@ == seq![
                    PATH_PROVIDER_OP_GET_PATH,
                    context.incoming_alkanes@[0].id.block,
                    context.incoming_alkanes@[0].id.tx,
                    self.oyl_token_id.block,
                    self.oyl_token_id.tx,
                ]
                &&& r->Ok_0->0.alkanes@ == Seq::<AlkaneTransfer>::empty()
            }),
    {
        if context.incoming_alkanes.len() != 1 {
            return Err(AmmError::WrongAssetCount);
        }
        let oyl_token = self.oyl_token()?;
        let alkane_transfer = context.incoming_alkanes[0];
        if alkane_transfer.id != oyl_token {
            let call = self._get_path_between(&alkane_transfer.id, &oyl_token)?;
            Ok(Some(call))
        } else {
            Ok(None)
        }
    }
}

impl Default for OylAMMFactory {
    /// The same as [`OylAMMFactory::new`].
    fn default() -> (r: Self)
        ensures
            r.factory.is_fresh(),
            r.factory.wf(),
            r.path_provider_id == (AlkaneId { block: 0, tx: 0 }),
            r.oyl_token_id == (AlkaneId { block: 0, tx: 0 }),
    {
        OylAMMFactory::new()
    }
}

} // verus!
