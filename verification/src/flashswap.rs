//! A recipient of low-level swaps, as an example of the callback: it keeps
//! what it was paid, pays it back, or calls on with it, as the data of the
//! swap says.

use vstd::prelude::*;
use crate::error::AmmError;
use crate::factory::POOL_OP_BURN;
use crate::id::AlkaneId;
use crate::parcel::{copy_parcel, AlkaneTransfer, CallResponse, Cellpack, Context, OutgoingCall};

verus! {

/// The state of the recipient.
#[derive(Clone, Copy, Debug, PartialEq, Eq, Structural)]
pub struct FlashSwap {
    /// Whether the recipient has been initialized.
    pub initialized: bool,
}

/// What the recipient does when it is called back.
pub enum FlashAction {
    /// It answers at once.
    Respond(CallResponse),
    /// It makes a call and answers with what the call answers.
    Call(OutgoingCall),
}

impl FlashSwap {
    /// A recipient that has not been initialized.
    pub fn new() -> (r: Self)
        ensures
            !r.initialized,
    {
        FlashSwap { initialized: false }
    }

    /// Initializes the recipient, once, and hands back the assets that came
    /// with the call.
    pub fn initialize(&mut self, context: &Context) -> (r: Result<CallResponse, AmmError>)
        ensures
            old(self).initialized ==> r == Err::<CallResponse, AmmError>(
                AmmError::AlreadyInitialized,
            ) && *final(self) == *old(self),
            !old(self).initialized ==> r is Ok && final(self).initialized && r->Ok_0.alkanes@
                == context.incoming_alkanes@ && r->Ok_0.data@ == Seq::<u8>::empty(),
    {
        if self.initialized {
            return Err(AmmError::AlreadyInitialized);
        }
        self.initialized = true;
        Ok(CallResponse::forward(&context.incoming_alkanes))
    }

    /// Keeps what came with the call.
    pub fn no_refund(&self) -> (r: CallResponse)
        ensures
            r.alkanes@ == Seq::<AlkaneTransfer>::empty(),
            r.data@ == Seq::<u8>::empty(),
    {
        CallResponse::new()
    }

    /// Hands back what came with the call.
    pub fn refund(&self, context: &Context) -> (r: CallResponse)
        ensures
            r.alkanes@ == context.incoming_alkanes@,
            r.data@ == Seq::<u8>::empty(),
    {
        CallResponse::forward(&context.incoming_alkanes)
    }

    /// The call that the data describes: the first two numbers name the
    /// target, the rest are given to it, and what came with this call goes
    /// with it. `Malformed` where the data holds fewer than two numbers.
    pub fn arb_call(&self, context: &Context, data: &Vec<u128>) -> (r: Result<
        OutgoingCall,
        AmmError,
    >)
        ensures
            data@.len() < 2 ==> r == Err::<OutgoingCall, AmmError>(AmmError::Malformed),
            data@.len() >= 2 ==> r is Ok && r->Ok_0.cellpack.target == (AlkaneId {
                block: data@[0],
                tx: data@[1],
            }) && r->Ok_0.cellpack.inputs@ == data@.skip(2) && r->Ok_0.alkanes@
                == context.incoming_alkanes@,
    {
        if data.len() < 2 {
            return Err(AmmError::Malformed);
        }
        let mut inputs: Vec<u128> = Vec::new();
        let mut i: usize = 2;
        while i < data.len()
            invariant
                2 <= i <= data@.len(),
                inputs@ == data@.subrange(2, i as int),
            decreases data@.len() - i,
        {
            inputs.push(data[i]);
            assert(inputs@ =~= data@.subrange(2, i + 1));
            i += 1;
        }
        assert(data@.subrange(2, i as int) =~= data@.skip(2));
        Ok(
            OutgoingCall {
                cellpack: Cellpack { target: AlkaneId { block: data[0], tx: data[1] }, inputs },
                alkanes: copy_parcel(&context.incoming_alkanes),
            },
        )
    }

    /// What the recipient does when a low-level swap calls it back: with 0
    /// as the first number of the data it keeps what it was paid, with 1 it
    /// pays it back, and with anything else it makes the call that the data
    /// describes. `Malformed` where the data is empty.
    pub fn callback(
        &self,
        context: &Context,
        caller: AlkaneId,
        amount_0_out: u128,
        amount_1_out: u128,
        data: &Vec<u128>,
    ) -> (r: Result<FlashAction, AmmError>)
        ensures
            data@.len() == 0 ==> r == Err::<FlashAction, AmmError>(AmmError::Malformed),
            data@.len() > 0 && data@[0] == 0 ==> r is Ok && r->Ok_0 is Respond
                && r->Ok_0->Respond_0.alkanes@ == Seq::<AlkaneTransfer>::empty()
                && r->Ok_0->Respond_0.data@ == Seq::<u8>::empty(),
            data@.len() > 0 && data@[0] == 1 ==> r is Ok && r->Ok_0 is Respond
                && r->Ok_0->Respond_0.alkanes@ == context.incoming_alkanes@
                && r->Ok_0->Respond_0.data@ == Seq::<u8>::empty(),
            data@.len() == 1 && data@[0] > 1 ==> r == Err::<FlashAction, AmmError>(
                AmmError::Malformed,
            ),
            data@.len() > 1 && data@[0] > 1 ==> r is Ok && r->Ok_0 is Call
                && r->Ok_0->Call_0.cellpack.target == (AlkaneId { block: data@[0], tx: data@[1] })
                && r->Ok_0->Call_0.cellpack.inputs@ == data@.skip(2) && r->Ok_0->Call_0.alkanes@
                == context.incoming_alkanes@,
    {
        if data.len() == 0 {
            return Err(AmmError::Malformed);
        }
        if data[0] == 0 {
            Ok(FlashAction::Respond(self.no_refund()))
        } else if data[0] == 1 {
            Ok(FlashAction::Respond(self.refund(context)))
        } else {
            let call = self.arb_call(context, data)?;
            Ok(FlashAction::Call(call))
        }
    }

    /// The call that burns `liquidity` of a pool's tokens without sending
    /// them first, to see what the pool would answer.
    pub fn static_attack(&self, pool: AlkaneId, liquidity: u128) -> (r: OutgoingCall)
        ensures
            r.cellpack.target == pool,
            r.cellpack.inputs@ == seq![POOL_OP_BURN],
            r.alkanes@ == seq![AlkaneTransfer { id: pool, value: liquidity }],
    {
        let mut inputs: Vec<u128> = Vec::new();
        inputs.push(POOL_OP_BURN);
        let mut alkanes: Vec<AlkaneTransfer> = Vec::new();
        alkanes.push(AlkaneTransfer { id: pool, value: liquidity });
        proof {
            assert(inputs@ =~= seq![POOL_OP_BURN]);
            assert(alkanes@ =~= seq![AlkaneTransfer { id: pool, value: liquidity }]);
        }
        OutgoingCall { cellpack: Cellpack { target: pool, inputs }, alkanes }
    }
}

impl Default for FlashSwap {
    /// The same as [`FlashSwap::new`].
    fn default() -> (r: Self)
        ensures
            !r.initialized,
    {
        FlashSwap::new()
    }
}

} // verus!
