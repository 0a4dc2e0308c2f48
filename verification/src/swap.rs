//! Trading against a pool.
//!
//! A pool offers a swap at the price of the constant-product formula, and a
//! low-level swap that pays out first and is checked afterwards. The
//! low-level swap comes in two steps, because the payout may go to a contract
//! that is called with it and may pay back before the check: `swap_begin`
//! takes the guard and says what to pay and whom to call, `swap_finish` checks
//! the reserves as they stand afterwards and releases the guard. While the
//! guard is held every operation that takes it is rejected.

use vstd::prelude::*;
use crate::error::AmmError;
use crate::id::AlkaneId;
use crate::lock::Lock;
use crate::math::{get_amount_in_with_fee, product_at_least, quote_in_at, quote_out_at};
use crate::parcel::{
    amount_of, fits_sheet, sheet_fits, total_of, AlkaneTransfer, CallResponse, Cellpack, Context,
};
use crate::pool::{AMMPool, PendingSwap};

verus! {

/// The operation that a low-level swap calls on the recipient of its payout.
pub const CALLBACK_OPCODE: u128 = 73776170;

/// What a low-level swap asks of the host after its first step: to pay
/// `payout`, and where `callback` is there, to do so by making that call with
/// the payout attached.
pub struct SwapStart {
    pub payout: Vec<AlkaneTransfer>,
    pub callback: Option<Cellpack>,
}

/// The entries that pay `amount_0_out` of `a` and `amount_1_out` of `b`,
/// amounts of zero left out.
pub open spec fn payout_of(a: AlkaneId, amount_0_out: u128, b: AlkaneId, amount_1_out: u128)
    -> Seq<AlkaneTransfer> {
    let first = if amount_0_out > 0 {
        seq![AlkaneTransfer { id: a, value: amount_0_out }]
    } else {
        Seq::<AlkaneTransfer>::empty()
    };
    let second = if amount_1_out > 0 {
        seq![AlkaneTransfer { id: b, value: amount_1_out }]
    } else {
        Seq::<AlkaneTransfer>::empty()
    };
    first + second
}

/// The numbers given to the callback of a low-level swap: the operation, the
/// caller of the swap, the two amounts paid out, and the caller's data.
pub open spec fn callback_inputs(
    caller: AlkaneId,
    amount_0_out: u128,
    amount_1_out: u128,
    data: Seq<u128>,
) -> Seq<u128> {
    seq![CALLBACK_OPCODE, caller.block, caller.tx, amount_0_out, amount_1_out] + data
}

/// Builds [`payout_of`].
fn make_payout(a: AlkaneId, amount_0_out: u128, b: AlkaneId, amount_1_out: u128) -> (r: Vec<
    AlkaneTransfer,
>)
    ensures
        r@ == payout_of(a, amount_0_out, b, amount_1_out),
{
    let mut payout: Vec<AlkaneTransfer> = Vec::new();
    if amount_0_out > 0 {
        payout.push(AlkaneTransfer { id: a, value: amount_0_out });
    }
    if amount_1_out > 0 {
        payout.push(AlkaneTransfer { id: b, value: amount_1_out });
    }
    assert(payout@ =~= payout_of(a, amount_0_out, b, amount_1_out));
    payout
}

impl AMMPool {
    /// What a deposit of one asset of the pair buys of the other at a trading
    /// fee of `fee_per_1000`: the other asset, and [`quote_out_at`] of the
    /// deposited amount against the reserves before the deposit.
    pub open spec fn transfer_out(
        &self,
        parcel: Seq<AlkaneTransfer>,
        fee_per_1000: u128,
        balance_a: u128,
        balance_b: u128,
    ) -> Result<AlkaneTransfer, AmmError> {
        if parcel.len() != 1 {
            Err(AmmError::WrongAssetCount)
        } else if self.reserves_before(balance_a, balance_b, parcel) is Err {
            Err(self.reserves_before(balance_a, balance_b, parcel)->Err_0)
        } else {
            let previous = self.reserves_before(balance_a, balance_b, parcel)->Ok_0;
            let fee = fee_per_1000 as int;
            let amount = parcel[0].value as int;
            if parcel[0].id == self.alkane_a {
                match quote_out_at(fee, amount, previous.a as int, previous.b as int) {
                    Ok(value) => Ok(AlkaneTransfer { id: self.alkane_b, value }),
                    Err(e) => Err(e),
                }
            } else if parcel[0].id == self.alkane_b {
                match quote_out_at(fee, amount, previous.b as int, previous.a as int) {
                    Ok(value) => Ok(AlkaneTransfer { id: self.alkane_a, value }),
                    Err(e) => Err(e),
                }
            } else {
                Err(AmmError::UnsupportedAsset)
            }
        }
    }

    /// What a deposit of one asset of the pair buys of the other at a trading
    /// fee of `fee_per_1000`, which is zero for a quote without fee.
    pub fn get_transfer_out_from_swap(
        &self,
        parcel: &Vec<AlkaneTransfer>,
        fee_per_1000: u128,
        balance_a: u128,
        balance_b: u128,
    ) -> (r: Result<AlkaneTransfer, AmmError>)
        ensures
            r == self.transfer_out(parcel@, fee_per_1000, balance_a, balance_b),
    {
        if parcel.len() != 1 {
            return Err(AmmError::WrongAssetCount);
        }
        let transfer = parcel[0];
        let previous = self.previous_reserves(balance_a, balance_b, parcel)?;
        if transfer.id == self.alkane_a {
            let value = self.get_amount_out(transfer.value, previous.a, previous.b, fee_per_1000)?;
            Ok(AlkaneTransfer { id: self.alkane_b, value })
        } else if transfer.id == self.alkane_b {
            let value = self.get_amount_out(transfer.value, previous.b, previous.a, fee_per_1000)?;
            Ok(AlkaneTransfer { id: self.alkane_a, value })
        } else {
            Err(AmmError::UnsupportedAsset)
        }
    }

    /// Whether the reserves that are left after paying `output` multiply to
    /// at least the product of the reserves before the deposit `input`.
    /// `InsufficientLiquidity` where `output` holds more of an asset than
    /// the balance, `KNotIncreasing` where the product would fall.
    pub open spec fn k_checked(
        &self,
        input: Seq<AlkaneTransfer>,
        output: Seq<AlkaneTransfer>,
        balance_a: u128,
        balance_b: u128,
    ) -> Result<(), AmmError> {
        if self.reserves_before(balance_a, balance_b, input) is Err {
            Err(self.reserves_before(balance_a, balance_b, input)->Err_0)
        } else if !sheet_fits(output) {
            Err(AmmError::Overflow)
        } else if amount_of(output, self.alkane_a) > balance_a || amount_of(output, self.alkane_b)
            > balance_b {
            Err(AmmError::InsufficientLiquidity)
        } else {
            let previous = self.reserves_before(balance_a, balance_b, input)->Ok_0;
            if (balance_a - amount_of(output, self.alkane_a)) * (balance_b - amount_of(
                output,
                self.alkane_b,
            )) < previous.a * previous.b {
                Err(AmmError::KNotIncreasing)
            } else {
                Ok(())
            }
        }
    }

    /// Checks that paying `output` does not lower the product of the
    /// reserves below what it was before the deposit `input`.
    pub fn _check_k_increasing(
        &self,
        input_parcel: &Vec<AlkaneTransfer>,
        output_parcel: &Vec<AlkaneTransfer>,
        balance_a: u128,
        balance_b: u128,
    ) -> (r: Result<(), AmmError>)
        ensures
            r == self.k_checked(input_parcel@, output_parcel@, balance_a, balance_b),
    {
        let previous = self.previous_reserves(balance_a, balance_b, input_parcel)?;
        if !fits_sheet(output_parcel) {
            return Err(AmmError::Overflow);
        }
        let out_a = total_of(output_parcel, &self.alkane_a);
        let out_b = total_of(output_parcel, &self.alkane_b);
        match (out_a, out_b) {
            (Some(out_a), Some(out_b)) => {
                if out_a > balance_a || out_b > balance_b {
                    return Err(AmmError::InsufficientLiquidity);
                }
                if !product_at_least(
                    balance_a - out_a,
                    balance_b - out_b,
                    previous.a,
                    previous.b,
                ) {
                    return Err(AmmError::KNotIncreasing);
                }
                Ok(())
            },
            _ => Err(AmmError::InsufficientLiquidity),
        }
    }

    /// What `swap` does: the transfer it pays, or the reason for which the
    /// call is rejected. The deposit is one entry of one asset of the pair;
    /// the output is [`Self::transfer_out`] at the pool's trading fee, rejected
    /// with `InsufficientOutputAmount` where it is below the caller's
    /// minimum, and checked by [`Self::k_checked`].
    pub open spec fn swapped(
        &self,
        parcel: Seq<AlkaneTransfer>,
        balance_a: u128,
        balance_b: u128,
        amount_out_predicate: u128,
        fee_per_1000: u128,
    ) -> Result<AlkaneTransfer, AmmError> {
        if self.lock.held() {
            Err(AmmError::Locked)
        } else {
            match self.transfer_out(parcel, fee_per_1000, balance_a, balance_b) {
                Err(e) => Err(e),
                Ok(output) => if output.value < amount_out_predicate {
                    Err(AmmError::InsufficientOutputAmount)
                } else {
                    match self.k_checked(parcel, seq![output], balance_a, balance_b) {
                        Err(e) => Err(e),
                        Ok(_) => Ok(output),
                    }
                },
            }
        }
    }

    /// Swaps the deposited asset for the other asset of the pair at the
    /// price of the pool, provided that the output is at least
    /// `amount_out_predicate`. `fee_per_1000` is the trading fee that the
    /// factory has set for the pool. The guard is taken for the call and
    /// released at its end. A rejected call changes nothing.
    pub fn swap(
        &mut self,
        context: &Context,
        balance_a: u128,
        balance_b: u128,
        amount_out_predicate: u128,
        fee_per_1000: u128,
    ) -> (r: Result<CallResponse, AmmError>)
        ensures
            match old(self).swapped(
                context.incoming_alkanes@,
                balance_a,
                balance_b,
                amount_out_predicate,
                fee_per_1000,
            ) {
                Ok(output) => r is Ok && r->Ok_0.alkanes@ == seq![output] && r->Ok_0.data@
                    == Seq::<u8>::empty() && *final(self) == (AMMPool {
                    lock: Lock { state: 0 },
                    ..*old(self)
                }),
                Err(e) => r == Err::<CallResponse, AmmError>(e) && *final(self) == *old(self),
            },
    {
        if self.lock.is_held() {
            return Err(AmmError::Locked);
        }
        let parcel = &context.incoming_alkanes;
        let output = self.get_transfer_out_from_swap(parcel, fee_per_1000, balance_a, balance_b)?;
        if output.value < amount_out_predicate {
            return Err(AmmError::InsufficientOutputAmount);
        }
        let mut output_parcel: Vec<AlkaneTransfer> = Vec::new();
        output_parcel.push(output);
        assert(output_parcel@ =~= seq![output]);
        self._check_k_increasing(parcel, &output_parcel, balance_a, balance_b)?;
        self.lock.release();
        Ok(CallResponse { alkanes: output_parcel, data: Vec::new() })
    }

    /// What `swap_tokens_for_exact_tokens` does: the transfers it pays, or
    /// the reason for which the call is rejected. The deposit is one entry
    /// of one asset of the pair. The input needed for `amount_out` of the
    /// other asset is [`quote_in_at`] against the reserves before the deposit;
    /// the call is rejected with `ExcessiveInputAmount` where that is more
    /// than `amount_in_max` or than the deposit. What the deposit holds
    /// beyond it is paid back.
    pub open spec fn swapped_for_exact(
        &self,
        parcel: Seq<AlkaneTransfer>,
        balance_a: u128,
        balance_b: u128,
        amount_out: u128,
        amount_in_max: u128,
        fee_per_1000: u128,
    ) -> Result<Seq<AlkaneTransfer>, AmmError> {
        if self.lock.held() {
            Err(AmmError::Locked)
        } else if parcel.len() != 1 {
            Err(AmmError::WrongAssetCount)
        } else if self.reserves_before(balance_a, balance_b, parcel) is Err {
            Err(self.reserves_before(balance_a, balance_b, parcel)->Err_0)
        } else if parcel[0].id != self.alkane_a && parcel[0].id != self.alkane_b {
            Err(AmmError::UnsupportedAsset)
        } else {
            let previous = self.reserves_before(balance_a, balance_b, parcel)->Ok_0;
            let a_in = parcel[0].id == self.alkane_a;
            let needed = if a_in {
                quote_in_at(
                    fee_per_1000 as int,
                    amount_out as int,
                    previous.a as int,
                    previous.b as int,
                )
            } else {
                quote_in_at(
                    fee_per_1000 as int,
                    amount_out as int,
                    previous.b as int,
                    previous.a as int,
                )
            };
            match needed {
                Err(e) => Err(e),
                Ok(required) => if required > amount_in_max || required > parcel[0].value {
                    Err(AmmError::ExcessiveInputAmount)
                } else {
                    let refund = (parcel[0].value - required) as u128;
                    let output = if a_in {
                        payout_of(self.alkane_b, amount_out, self.alkane_a, refund)
                    } else {
                        payout_of(self.alkane_a, amount_out, self.alkane_b, refund)
                    };
                    match self.k_checked(parcel, output, balance_a, balance_b) {
                        Err(e) => Err(e),
                        Ok(_) => Ok(output),
                    }
                },
            }
        }
    }

    /// Swaps as much of the deposited asset as `amount_out` of the other
    /// asset costs at the price of the pool, provided that this is at most
    /// `amount_in_max`, and pays back the rest of the deposit.
    /// `fee_per_1000` is the trading fee that the factory has set for the
    /// pool. The guard is taken for the call and released at its end. A
    /// rejected call changes nothing.
    pub fn swap_tokens_for_exact_tokens(
        &mut self,
        context: &Context,
        balance_a: u128,
        balance_b: u128,
        amount_out: u128,
        amount_in_max: u128,
        fee_per_1000: u128,
    ) -> (r: Result<CallResponse, AmmError>)
        ensures
            match old(self).swapped_for_exact(
                context.incoming_alkanes@,
                balance_a,
                balance_b,
                amount_out,
                amount_in_max,
                fee_per_1000,
            ) {
                Ok(output) => r is Ok && r->Ok_0.alkanes@ == output && r->Ok_0.data@ == Seq::<
                    u8,
                >::empty() && *final(self) == (AMMPool { lock: Lock { state: 0 }, ..*old(self) }),
                Err(e) => r == Err::<CallResponse, AmmError>(e) && *final(self) == *old(self),
            },
    {
        if self.lock.is_held() {
            return Err(AmmError::Locked);
        }
        let parcel = &context.incoming_alkanes;
        if parcel.len() != 1 {
            return Err(AmmError::WrongAssetCount);
        }
        let transfer = parcel[0];
        let previous = self.previous_reserves(balance_a, balance_b, parcel)?;
        let a_in = transfer.id == self.alkane_a;
        if !a_in && transfer.id != self.alkane_b {
            return Err(AmmError::UnsupportedAsset);
        }
        let required = if a_in {
            get_amount_in_with_fee(amount_out, previous.a, previous.b, fee_per_1000)?
        } else {
            get_amount_in_with_fee(amount_out, previous.b, previous.a, fee_per_1000)?
        };
        if required > amount_in_max || required > transfer.value {
            return Err(AmmError::ExcessiveInputAmount);
        }
        let refund = transfer.value - required;
        let output = if a_in {
            make_payout(self.alkane_b, amount_out, self.alkane_a, refund)
        } else {
            make_payout(self.alkane_a, amount_out, self.alkane_b, refund)
        };
        self._check_k_increasing(parcel, &output, balance_a, balance_b)?;
        self.lock.release();
        Ok(CallResponse { alkanes: output, data: Vec::new() })
    }

    /// What `swap_begin` does: the pool while the swap is in flight, or the
    /// reason for which the call is rejected.
    ///
    /// The deposit may hold up to two entries, of the two assets of the pool
    /// only. At least one of the two amounts must be positive, and each must
    /// be less than the reserve of its asset before the deposit. The pool
    /// then holds the guard and remembers the reserves before the deposit
    /// and what the response still has to pay: the two amounts where there
    /// is no callback, nothing where the payout leaves with the callback.
    pub open spec fn swap_started(
        &self,
        myself: AlkaneId,
        parcel: Seq<AlkaneTransfer>,
        balance_a: u128,
        balance_b: u128,
        amount_0_out: u128,
        amount_1_out: u128,
        with_callback: bool,
    ) -> Result<AMMPool, AmmError> {
        if self.lock.held() {
            Err(AmmError::Locked)
        } else if self.inputs_checked(myself, parcel, 2) is Err {
            Err(self.inputs_checked(myself, parcel, 2)->Err_0)
        } else if !self.pair_only(parcel) {
            Err(AmmError::UnsupportedAsset)
        } else if amount_0_out == 0 && amount_1_out == 0 {
            Err(AmmError::InsufficientOutputAmount)
        } else if self.reserves_before(balance_a, balance_b, parcel) is Err {
            Err(self.reserves_before(balance_a, balance_b, parcel)->Err_0)
        } else {
            let previous = self.reserves_before(balance_a, balance_b, parcel)->Ok_0;
            if amount_0_out >= previous.a || amount_1_out >= previous.b {
                Err(AmmError::InsufficientLiquidity)
            } else {
                Ok(
                    AMMPool {
                        lock: Lock { state: 1 },
                        pending: Some(
                            PendingSwap {
                                previous_a: previous.a,
                                previous_b: previous.b,
                                owed_a: if with_callback {
                                    0
                                } else {
                                    amount_0_out
                                },
                                owed_b: if with_callback {
                                    0
                                } else {
                                    amount_1_out
                                },
                            },
                        ),
                        ..*self
                    },
                )
            }
        }
    }

    /// The first step of a low-level swap: pays `amount_0_out` of the
    /// smaller asset and `amount_1_out` of the larger one to `to`, before
    /// anything is checked of what the pool gets for them. Where `data` is
    /// not empty, the payout is to be made by calling `to` with it, so that
    /// `to` can use the assets and pay back within the call. The pool holds
    /// the guard until `swap_finish`. A rejected call changes nothing.
    pub fn swap_begin(
        &mut self,
        context: &Context,
        balance_a: u128,
        balance_b: u128,
        amount_0_out: u128,
        amount_1_out: u128,
        to: AlkaneId,
        data: &Vec<u128>,
    ) -> (r: Result<SwapStart, AmmError>)
        ensures
            match old(self).swap_started(
                context.myself,
                context.incoming_alkanes@,
                balance_a,
                balance_b,
                amount_0_out,
                amount_1_out,
                data@.len() > 0,
            ) {
                Ok(pool) => {
                    &&& r is Ok
                    &&& *final(self) == pool
                    &&& r->Ok_0.payout@ == payout_of(
                        pool.alkane_a,
                        amount_0_out,
                        pool.alkane_b,
                        amount_1_out,
                    )
                    &&& r->Ok_0.callback is Some <==> data@.len() > 0
                    &&& r->Ok_0.callback is Some ==> r->Ok_0.callback->0.target == to
                        && r->Ok_0.callback->0.inputs@ == callback_inputs(
                        context.caller,
                        amount_0_out,
                        amount_1_out,
                        data@,
                    )
                },
                Err(e) => r == Err::<SwapStart, AmmError>(e) && *final(self) == *old(self),
            },
    {
        if self.lock.is_held() {
            return Err(AmmError::Locked);
        }
        let parcel = &context.incoming_alkanes;
        self.check_inputs(&context.myself, parcel, 2)?;
        if !self.is_pair_only(parcel) {
            return Err(AmmError::UnsupportedAsset);
        }
        if amount_0_out == 0 && amount_1_out == 0 {
            return Err(AmmError::InsufficientOutputAmount);
        }
        let previous = self.previous_reserves(balance_a, balance_b, parcel)?;
        if amount_0_out >= previous.a || amount_1_out >= previous.b {
            return Err(AmmError::InsufficientLiquidity);
        }
        let payout = make_payout(self.alkane_a, amount_0_out, self.alkane_b, amount_1_out);
        let with_callback = data.len() > 0;
        let callback = if with_callback {
            let mut inputs: Vec<u128> = Vec::new();
            inputs.push(CALLBACK_OPCODE);
            inputs.push(context.caller.block);
            inputs.push(context.caller.tx);
            inputs.push(amount_0_out);
            inputs.push(amount_1_out);
            inputs.extend_from_slice(data.as_slice());
            assert(inputs@ =~= callback_inputs(context.caller, amount_0_out, amount_1_out, data@));
            Some(Cellpack { target: to, inputs })
        } else {
            None
        };
        self.lock.set_lock(1);
        self.pending = Some(
            PendingSwap {
                previous_a: previous.a,
                previous_b: previous.b,
                owed_a: if with_callback {
                    0
                } else {
                    amount_0_out
                },
                owed_b: if with_callback {
                    0
                } else {
                    amount_1_out
                },
            },
        );
        Ok(SwapStart { payout, callback })
    }

    /// What `swap_finish` answers: what the response pays, or the reason for
    /// which the swap is rejected. With `balance_a` and `balance_b` the
    /// balances after the payout and the callback, the swap stands where
    /// `(balance_a - owed_a) * (balance_b - owed_b)` is at least the product
    /// of the reserves before the call.
    pub open spec fn swap_finished(&self, balance_a: u128, balance_b: u128) -> Result<
        Seq<AlkaneTransfer>,
        AmmError,
    > {
        match self.pending {
            None => Err(AmmError::NotInSwap),
            Some(pending) => if pending.owed_a > balance_a || pending.owed_b > balance_b {
                Err(AmmError::InsufficientLiquidity)
            } else if (balance_a - pending.owed_a) * (balance_b - pending.owed_b)
                < pending.previous_a * pending.previous_b {
                Err(AmmError::KNotIncreasing)
            } else {
                Ok(payout_of(self.alkane_a, pending.owed_a, self.alkane_b, pending.owed_b))
            },
        }
    }

    /// The pool once a swap in flight has ended, however it ended: the guard
    /// released and nothing remembered.
    pub open spec fn settled(&self) -> AMMPool {
        if self.pending is Some {
            AMMPool { lock: Lock { state: 0 }, pending: None, ..*self }
        } else {
            *self
        }
    }

    /// The second step of a low-level swap: checks the product of the
    /// reserves as they stand after the payout and the callback, and
    /// releases the guard whether the check passes or not. The response pays
    /// what was not paid by the callback.
    pub fn swap_finish(&mut self, balance_a: u128, balance_b: u128) -> (r: Result<
        CallResponse,
        AmmError,
    >)
        ensures
            *final(self) == old(self).settled(),
            match old(self).swap_finished(balance_a, balance_b) {
                Ok(output) => r is Ok && r->Ok_0.alkanes@ == output && r->Ok_0.data@ == Seq::<
                    u8,
                >::empty(),
                Err(e) => r == Err::<CallResponse, AmmError>(e),
            },
    {
        let pending = match self.pending {
            None => {
                return Err(AmmError::NotInSwap);
            },
            Some(pending) => pending,
        };
        self.lock.release();
        self.pending = None;
        if pending.owed_a > balance_a || pending.owed_b > balance_b {
            return Err(AmmError::InsufficientLiquidity);
        }
        if !product_at_least(
            balance_a - pending.owed_a,
            balance_b - pending.owed_b,
            pending.previous_a,
            pending.previous_b,
        ) {
            return Err(AmmError::KNotIncreasing);
        }
        let payout = make_payout(self.alkane_a, pending.owed_a, self.alkane_b, pending.owed_b);
        Ok(CallResponse { alkanes: payout, data: Vec::new() })
    }
}

} // verus!
