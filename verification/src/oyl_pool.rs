//! The fee-burning kind of pool: a pool that, after a swap, sends half of
//! what the trading fee kept back to its factory, to be swapped for the
//! protocol's token and burned.

use vstd::prelude::*;
use crate::error::AmmError;
use crate::id::AlkaneId;
use crate::naming::{label_text, pool_name, pool_name_text, token_label};
use crate::parcel::{AlkaneTransfer, CallResponse, Cellpack, Context, OutgoingCall};
use crate::pool::{view_of, AMMPool};

verus! {

/// The tenths of the fee of a swap that are sent to be burned.
pub const FEE_TO_SWAP_TO_OYL_PER_10: u128 = 5;

/// The operation of the factory that swaps what it is sent for the
/// protocol's token and burns it.
pub const FACTORY_OP_SWAP_AND_BURN: u128 = 6;

/// A pool of the fee-burning kind.
pub struct OylAMMPool {
    pub pool: AMMPool,
}

/// The amount sent to be burned after a swap: `FEE_TO_SWAP_TO_OYL_PER_10`
/// tenths of the difference between the output without the trading fee and
/// the output with it, rounded down. `Overflow` where the output with the
/// fee is the larger, or five times the difference does not fit in 128
/// bits.
pub open spec fn amount_to_burn(without_fees: u128, with_fees: u128) -> Result<u128, AmmError> {
    if without_fees < with_fees || (without_fees - with_fees) * FEE_TO_SWAP_TO_OYL_PER_10
        > u128::MAX {
        Err(AmmError::Overflow)
    } else {
        Ok(((without_fees - with_fees) * FEE_TO_SWAP_TO_OYL_PER_10 / 10) as u128)
    }
}

impl OylAMMPool {
    /// A pool that has not been initialized.
    pub fn new() -> (r: Self)
        ensures
            r.pool.is_fresh(),
            r.pool.wf(),
    {
        OylAMMPool { pool: AMMPool::new() }
    }

    /// Names the liquidity token after the two assets of the pool, as a pool
    /// of this kind: see [`pool_name_text`].
    pub fn set_pool_name_and_symbol(
        &mut self,
        answer_a: Option<&Vec<u8>>,
        answer_b: Option<&Vec<u8>>,
    ) -> (r: Result<(), AmmError>)
        ensures
            !old(self).pool.initialized ==> r == Err::<(), AmmError>(AmmError::Uninitialized)
                && *final(self) == *old(self),
            old(self).pool.initialized ==> r is Ok && final(self).pool.name@ == pool_name_text(
                label_text(old(self).pool.alkane_a, view_of(answer_a)),
                label_text(old(self).pool.alkane_b, view_of(answer_b)),
                true,
            ) && final(self).pool == (AMMPool { name: final(self).pool.name, ..old(self).pool }),
    {
        if !self.pool.initialized {
            return Err(AmmError::Uninitialized);
        }
        let name_a = token_label(self.pool.alkane_a, answer_a);
        let name_b = token_label(self.pool.alkane_b, answer_b);
        self.pool.name = pool_name(&name_a, &name_b, true);
        Ok(())
    }

    /// Gives the pool its pair and its factory and makes the first deposit,
    /// as [`AMMPool::init_pool`] does.
    pub fn init_pool(
        &mut self,
        context: &Context,
        alkane_a: AlkaneId,
        alkane_b: AlkaneId,
        factory: AlkaneId,
        balance_a: u128,
        balance_b: u128,
    ) -> (r: Result<CallResponse, AmmError>)
        ensures
            match old(self).pool.initialized_with(
                context.myself,
                context.incoming_alkanes@,
                alkane_a,
                alkane_b,
                factory,
                balance_a,
                balance_b,
            ) {
                Ok((pool, liquidity)) => r is Ok && final(self).pool == pool && r->Ok_0.alkanes@
                    == seq![AlkaneTransfer { id: context.myself, value: liquidity }]
                    && r->Ok_0.data@ == Seq::<u8>::empty(),
                Err(e) => r == Err::<CallResponse, AmmError>(e) && *final(self) == *old(self),
            },
    {
        self.pool.init_pool(context, alkane_a, alkane_b, factory, balance_a, balance_b)
    }

    /// Deposits into the pool, as [`AMMPool::add_liquidity`] does.
    pub fn add_liquidity(&mut self, context: &Context, balance_a: u128, balance_b: u128) -> (r:
        Result<CallResponse, AmmError>)
        ensures
            match old(self).pool.liquidity_added(
                context.myself,
                context.incoming_alkanes@,
                balance_a,
                balance_b,
            ) {
                Ok((pool, liquidity)) => r is Ok && final(self).pool == pool && r->Ok_0.alkanes@
                    == seq![AlkaneTransfer { id: context.myself, value: liquidity }]
                    && r->Ok_0.data@ == Seq::<u8>::empty(),
                Err(e) => r == Err::<CallResponse, AmmError>(e) && *final(self) == *old(self),
            },
    {
        self.pool.add_liquidity(context, balance_a, balance_b)
    }

    /// Burns liquidity tokens, as [`AMMPool::burn`] does.
    pub fn burn(&mut self, context: &Context, balance_a: u128, balance_b: u128) -> (r: Result<
        CallResponse,
        AmmError,
    >)
        ensures
            match old(self).pool.burned(
                context.myself,
                context.incoming_alkanes@,
                balance_a,
                balance_b,
            ) {
                Ok((pool, amount_a, amount_b)) => r is Ok && final(self).pool == pool
                    && r->Ok_0.alkanes@ == seq![
                    AlkaneTransfer { id: pool.alkane_a, value: amount_a },
                    AlkaneTransfer { id: pool.alkane_b, value: amount_b },
                ] && r->Ok_0.data@ == Seq::<u8>::empty(),
                Err(e) => r == Err::<CallResponse, AmmError>(e) && *final(self) == *old(self),
            },
    {
        self.pool.burn(context, balance_a, balance_b)
    }

    /// What follows a swap that paid `with_fees`: the amount to send to the
    /// factory to be burned, of the asset that the swap paid, or the reason
    /// for which the swap is rejected after all.
    pub open spec fn burn_after_swap(
        &self,
        parcel: Seq<AlkaneTransfer>,
        with_fees: AlkaneTransfer,
        balance_a: u128,
        balance_b: u128,
    ) -> Result<u128, AmmError> {
        match self.pool.transfer_out(parcel, 0, balance_a, balance_b) {
            Err(e) => Err(e),
            Ok(without_fees) => amount_to_burn(without_fees.value, with_fees.value),
        }
    }

    /// The call that sends the factory its part of the fee of a swap that
    /// paid `alkane_out_with_fees`, to be swapped for the protocol's token
    /// and burned; `None` where that part is nothing.
    pub fn _handle_oyl_swap_and_burn(
        &self,
        context: &Context,
        alkane_out_with_fees: AlkaneTransfer,
        balance_a: u128,
        balance_b: u128,
    ) -> (r: Result<Option<OutgoingCall>, AmmError>)
        ensures
            match self.burn_after_swap(
                context.incoming_alkanes@,
                alkane_out_with_fees,
                balance_a,
                balance_b,
            ) {
                Err(e) => r == Err::<Option<OutgoingCall>, AmmError>(e),
                Ok(amount) => r is Ok && (amount == 0 ==> r->Ok_0 is None) && (amount != 0 ==> {
                    &&& r->Ok_0 is Some
                    &&& r->Ok_0->0.cellpack.target == self.pool.factory
                    &&& r->Ok_0->0.cellpack.inputs@ == seq![FACTORY_OP_SWAP_AND_BURN]
                    &&& r->Ok_0->0.alkanes@ == seq![
                        AlkaneTransfer { id: alkane_out_with_fees.id, value: amount },
                    ]
                }),
            },
    {
        let alkane_out_no_fees = self.pool.get_transfer_out_from_swap(
            &context.incoming_alkanes,
            0,
            balance_a,
            balance_b,
        )?;
        if alkane_out_no_fees.value < alkane_out_with_fees.value {
            return Err(AmmError::Overflow);
        }
        let kept = alkane_out_no_fees.value - alkane_out_with_fees.value;
        let amount_to_burn = match kept.checked_mul(FEE_TO_SWAP_TO_OYL_PER_10) {
            Some(v) => v / 10,
            None => {
                return Err(AmmError::Overflow);
            },
        };
        if amount_to_burn != 0 {
            let mut inputs: Vec<u128> = Vec::new();
            inputs.push(FACTORY_OP_SWAP_AND_BURN);
            let mut alkanes: Vec<AlkaneTransfer> = Vec::new();
            alkanes.push(AlkaneTransfer { id: alkane_out_with_fees.id, value: amount_to_burn });
            proof {
                assert(inputs@ =~= seq![FACTORY_OP_SWAP_AND_BURN]);
                assert(alkanes@ =~= seq![
                    AlkaneTransfer { id: alkane_out_with_fees.id, value: amount_to_burn },
                ]);
            }
            Ok(
                Some(
                    OutgoingCall {
                        cellpack: Cellpack { target: self.pool.factory, inputs },
                        alkanes,
                    },
                ),
            )
        } else {
            Ok(None)
        }
    }

    /// What `swap` does: the transfer that it pays and the amount that it
    /// sends to be burned, or the reason for which the call is rejected.
    pub open spec fn swapped(
        &self,
        parcel: Seq<AlkaneTransfer>,
        balance_a: u128,
        balance_b: u128,
        amount_out_predicate: u128,
        fee_per_1000: u128,
    ) -> Result<(AlkaneTransfer, u128), AmmError> {
        match self.pool.swapped(parcel, balance_a, balance_b, amount_out_predicate, fee_per_1000) {
            Err(e) => Err(e),
            Ok(output) => match self.burn_after_swap(parcel, output, balance_a, balance_b) {
                Err(e) => Err(e),
                Ok(amount) => Ok((output, amount)),
            },
        }
    }

    /// Swaps as [`AMMPool::swap`] does, and answers with the response and,
    /// where there is something to burn, the call that sends it to the
    /// factory. A rejected call changes nothing.
    pub fn swap(
        &mut self,
        context: &Context,
        balance_a: u128,
        balance_b: u128,
        amount_out_predicate: u128,
        fee_per_1000: u128,
    ) -> (r: Result<(CallResponse, Option<OutgoingCall>), AmmError>)
        ensures
            match old(self).swapped(
                context.incoming_alkanes@,
                balance_a,
                balance_b,
                amount_out_predicate,
                fee_per_1000,
            ) {
                Err(e) => r == Err::<(CallResponse, Option<OutgoingCall>), AmmError>(e)
                    && *final(self) == *old(self),
                Ok((output, amount)) => {
                    let (response, call) = r->Ok_0;
                    &&& r is Ok
                    &&& final(self).pool == (AMMPool {
                        lock: crate::lock::Lock { state: 0 },
                        ..old(self).pool
                    })
                    &&& response.alkanes@ == seq![output]
                    &&& response.data@ == Seq::<u8>::empty()
                    &&& (amount == 0 ==> call is None)
                    &&& (amount != 0 ==> call is Some && call->0.cellpack.target
                        == old(self).pool.factory && call->0.cellpack.inputs@
                        == seq![FACTORY_OP_SWAP_AND_BURN] && call->0.alkanes@ == seq![
                        AlkaneTransfer { id: output.id, value: amount },
                    ])
                },
            },
    {
        let saved = self.pool.lock;
        let response = self.pool.swap(
            context,
            balance_a,
            balance_b,
            amount_out_predicate,
            fee_per_1000,
        )?;
        let output = response.alkanes[0];
        match self._handle_oyl_swap_and_burn(context, output, balance_a, balance_b) {
            Ok(call) => Ok((response, call)),
            Err(e) => {
                self.pool.lock = saved;
                Err(e)
            },
        }
    }

    /// Hands back the assets that came with the call.
    pub fn forward_incoming(&self, context: &Context) -> (r: CallResponse)
        ensures
            r.alkanes@ == context.incoming_alkanes@,
            r.data@ == Seq::<u8>::empty(),
    {
        self.pool.forward_incoming(context)
    }

    /// Hands back the assets that came with the call, with the name of the
    /// liquidity token in UTF-8 as data.
    pub fn get_name(&self, context: &Context) -> (r: CallResponse)
        ensures
            r.alkanes@ == context.incoming_alkanes@,
            r.data@ == vstd::utf8::encode_utf8(self.pool.name@),
    {
        self.pool.get_name(context)
    }

    /// Hands back the assets that came with the call, with the byte form of
    /// the pool's summary as data, as [`AMMPool::pool_details`] does.
    pub fn pool_details(&self, context: &Context, balance_a: u128, balance_b: u128) -> (r: Result<
        CallResponse,
        AmmError,
    >)
        ensures
            match self.pool.reserves_before(balance_a, balance_b, context.incoming_alkanes@) {
                Ok(previous) => r is Ok && r->Ok_0.alkanes@ == context.incoming_alkanes@
                    && r->Ok_0.data@ == crate::pool_info::info_bytes(self.pool.details(previous)),
                Err(e) => r == Err::<CallResponse, AmmError>(e),
            },
    {
        self.pool.pool_details(context, balance_a, balance_b)
    }
}

impl Default for OylAMMPool {
    /// The same as [`OylAMMPool::new`].
    fn default() -> (r: Self)
        ensures
            r.pool.is_fresh(),
            r.pool.wf(),
    {
        OylAMMPool::new()
    }
}

} // verus!
