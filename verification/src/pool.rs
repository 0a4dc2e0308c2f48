//! The pool: reserves of two assets, the liquidity tokens that stand for
//! them, and the operations that deposit, withdraw and trade.
//!
//! A pool does not hold its reserves itself. They are its balances on the
//! ledger of its host, and every operation is handed the two balances as they
//! stand when it runs: with the deposit of the call already credited. What an
//! operation pays out it returns as a response; the host moves the assets.

use vstd::prelude::*;
use vstd::bytes::{spec_u128_to_le_bytes, u128_to_le_bytes};
use vstd::slice::slice_to_vec;
use vstd::utf8::encode_utf8;
use crate::error::AmmError;
use crate::id::{sorted_pair, sort_alkanes, AlkaneId};
use crate::lock::Lock;
use crate::naming::{label_text, pool_name, pool_name_text, token_label};
use crate::pool_info::{info_bytes, PoolInfo};
use crate::math::{get_amount_out_with_fee, is_sqrt_floor, quote_out_at, sqrt, sqrt_floor};
use crate::parcel::{
    amount_of, fits_sheet, sheet_fits, total_of,
    AlkaneTransfer, CallResponse, Context,
};

verus! {

/// The liquidity that the first deposit of a pool leaves unassignable for
/// ever, so that a liquidity token cannot be made arbitrarily dear.
pub const MINIMUM_LIQUIDITY: u128 = 1000;

/// The state of one pool.
pub struct AMMPool {
    /// Whether the pool has been given its pair.
    pub initialized: bool,
    /// The smaller asset of the pair.
    pub alkane_a: AlkaneId,
    /// The larger asset of the pair.
    pub alkane_b: AlkaneId,
    /// The factory that controls the pool.
    pub factory: AlkaneId,
    /// The liquidity tokens in existence, those held back for the protocol
    /// and those made unassignable included.
    pub total_supply: u128,
    /// The product of the reserves after the last operation that changed the
    /// liquidity, or zero before the first.
    pub k_last: u128,
    /// Liquidity tokens minted for the protocol and not yet collected.
    pub claimable_fees: u128,
    /// The reentrancy guard.
    pub lock: Lock,
    /// The name of the liquidity token.
    pub name: String,
    /// The low-level swap that has paid out and awaits its check, if any.
    pub pending: Option<PendingSwap>,
}

/// What a low-level swap remembers between paying out and being checked.
#[derive(Clone, Copy, Debug, PartialEq, Eq, Structural)]
pub struct PendingSwap {
    /// The reserve of the smaller asset before the call.
    pub previous_a: u128,
    /// The reserve of the larger asset before the call.
    pub previous_b: u128,
    /// What the response will still pay of the smaller asset.
    pub owed_a: u128,
    /// What the response will still pay of the larger asset.
    pub owed_b: u128,
}

/// The two reserves of a pool before the deposit of the running call.
pub struct Reserves {
    pub a: u128,
    pub b: u128,
}

impl AMMPool {
    /// The invariant of a pool: its pair is in canonical order, so that the
    /// two assets differ.
    pub open spec fn wf(&self) -> bool {
        self.initialized ==> self.alkane_a.precedes(self.alkane_b)
    }

    /// Whether the pool is as it is made: without a pair, a supply or a
    /// name, and with every identifier and number zero.
    pub open spec fn is_fresh(&self) -> bool {
        &&& !self.initialized
        &&& self.alkane_a == (AlkaneId { block: 0, tx: 0 })
        &&& self.alkane_b == (AlkaneId { block: 0, tx: 0 })
        &&& self.factory == (AlkaneId { block: 0, tx: 0 })
        &&& self.total_supply == 0
        &&& self.k_last == 0
        &&& self.claimable_fees == 0
        &&& self.lock.state == 0
        &&& self.name@ == Seq::<char>::empty()
        &&& self.pending is None
    }

    /// A pool that has not been initialized.
    pub fn new() -> (r: Self)
        ensures
            r.is_fresh(),
            r.wf(),
    {
        AMMPool {
            initialized: false,
            alkane_a: AlkaneId { block: 0, tx: 0 },
            alkane_b: AlkaneId { block: 0, tx: 0 },
            factory: AlkaneId { block: 0, tx: 0 },
            total_supply: 0,
            k_last: 0,
            claimable_fees: 0,
            lock: Lock::new(),
            name: String::new(),
            pending: None,
        }
    }

    /// The factory that controls the pool.
    pub fn factory(&self) -> (r: AlkaneId)
        ensures
            r == self.factory,
    {
        self.factory
    }

    /// Sets the factory that controls the pool.
    pub fn set_factory(&mut self, factory_id: AlkaneId)
        ensures
            *final(self) == (AMMPool { factory: factory_id, ..*old(self) }),
    {
        self.factory = factory_id;
    }

    /// The uncollected protocol fees, in liquidity tokens.
    pub fn claimable_fees(&self) -> (r: u128)
        ensures
            r == self.claimable_fees,
    {
        self.claimable_fees
    }

    /// Sets the uncollected protocol fees.
    pub fn set_claimable_fees(&mut self, v: u128)
        ensures
            *final(self) == (AMMPool { claimable_fees: v, ..*old(self) }),
    {
        self.claimable_fees = v;
    }

    /// Sets the product of the reserves recorded last.
    pub fn set_k_last(&mut self, v: u128)
        ensures
            *final(self) == (AMMPool { k_last: v, ..*old(self) }),
    {
        self.k_last = v;
    }

    /// The product of the reserves recorded last.
    pub fn k_last(&self) -> (r: u128)
        ensures
            r == self.k_last,
    {
        self.k_last
    }

    /// The liquidity tokens in existence.
    pub fn total_supply(&self) -> (r: u128)
        ensures
            r == self.total_supply,
    {
        self.total_supply
    }

    /// The pair of the pool, or `Uninitialized` before it has one.
    pub fn alkanes_for_self(&self) -> (r: Result<(AlkaneId, AlkaneId), AmmError>)
        ensures
            r == self.pair(),
    {
        if !self.initialized {
            return Err(AmmError::Uninitialized);
        }
        Ok((self.alkane_a, self.alkane_b))
    }

    /// The pair of the pool, or `Uninitialized` before it has one.
    pub open spec fn pair(&self) -> Result<(AlkaneId, AlkaneId), AmmError> {
        if self.initialized {
            Ok((self.alkane_a, self.alkane_b))
        } else {
            Err(AmmError::Uninitialized)
        }
    }

    /// Fails with `NotFactory` unless the caller is the pool's factory.
    pub fn _only_factory_caller(&self, caller: &AlkaneId) -> (r: Result<(), AmmError>)
        ensures
            r == (if *caller == self.factory {
                Ok::<(), AmmError>(())
            } else {
                Err::<(), AmmError>(AmmError::NotFactory)
            }),
    {
        if *caller != self.factory {
            return Err(AmmError::NotFactory);
        }
        Ok(())
    }

    /// Whether every entry of the parcel is of the pool's own token or of one
    /// of its two assets.
    pub open spec fn supported(&self, myself: AlkaneId, parcel: Seq<AlkaneTransfer>) -> bool {
        forall|i: int| 0 <= i < parcel.len() ==> #[trigger] self.accepts(myself, parcel[i].id)
    }

    /// Whether `id` is the pool's own token or one of its two assets.
    pub open spec fn accepts(&self, myself: AlkaneId, id: AlkaneId) -> bool {
        id == myself || id == self.alkane_a || id == self.alkane_b
    }

    /// What `check_inputs` answers.
    pub open spec fn inputs_checked(&self, myself: AlkaneId, parcel: Seq<AlkaneTransfer>, n: int)
        -> Result<(), AmmError> {
        if parcel.len() > n {
            Err(AmmError::TooManyAssets)
        } else if !self.initialized {
            Err(AmmError::Uninitialized)
        } else if !self.supported(myself, parcel) {
            Err(AmmError::UnsupportedAsset)
        } else {
            Ok(())
        }
    }

    /// Checks a deposit: it may hold at most `n` entries, each of the pool's
    /// own token or of one of its two assets.
    pub fn check_inputs(&self, myself: &AlkaneId, parcel: &Vec<AlkaneTransfer>, n: usize) -> (r:
        Result<(), AmmError>)
        ensures
            r == self.inputs_checked(*myself, parcel@, n as int),
    {
        if parcel.len() > n {
            return Err(AmmError::TooManyAssets);
        }
        if !self.initialized {
            return Err(AmmError::Uninitialized);
        }
        let mut i: usize = 0;
        while i < parcel.len()
            invariant
                0 <= i <= parcel.len() <= n,
                self.initialized,
                self.supported(*myself, parcel@.take(i as int)),
            decreases parcel.len() - i,
        {
            let id = parcel[i].id;
            if *myself != id && id != self.alkane_a && id != self.alkane_b {
                assert(!self.accepts(*myself, parcel@[i as int].id));
                return Err(AmmError::UnsupportedAsset);
            }
            assert forall|j: int| 0 <= j < i + 1 implies #[trigger] self.accepts(
                *myself,
                parcel@.take(i + 1)[j].id,
            ) by {
                if j < i {
                    assert(self.accepts(*myself, parcel@.take(i as int)[j].id));
                }
            }
            i += 1;
        }
        assert(parcel@.take(i as int) =~= parcel@);
        Ok(())
    }

    /// The two reserves with the assets they are of.
    pub fn reserves(&self, balance_a: u128, balance_b: u128) -> (r: Result<
        (AlkaneTransfer, AlkaneTransfer),
        AmmError,
    >)
        ensures
            self.initialized ==> r == Ok::<(AlkaneTransfer, AlkaneTransfer), AmmError>(
                (
                    AlkaneTransfer { id: self.alkane_a, value: balance_a },
                    AlkaneTransfer { id: self.alkane_b, value: balance_b },
                ),
            ),
            !self.initialized ==> r == Err::<(AlkaneTransfer, AlkaneTransfer), AmmError>(
                AmmError::Uninitialized,
            ),
    {
        if !self.initialized {
            return Err(AmmError::Uninitialized);
        }
        Ok(
            (
                AlkaneTransfer { id: self.alkane_a, value: balance_a },
                AlkaneTransfer { id: self.alkane_b, value: balance_b },
            ),
        )
    }

    /// The reserves as they stood before the deposit of the running call:
    /// each balance less what the parcel holds of that asset. `Uninitialized`
    /// before the pool has a pair; `Overflow` where the parcel cannot be held
    /// as a balance sheet, or holds more of an asset than the balance.
    pub open spec fn reserves_before(
        &self,
        balance_a: u128,
        balance_b: u128,
        parcel: Seq<AlkaneTransfer>,
    ) -> Result<Reserves, AmmError> {
        if !self.initialized {
            Err(AmmError::Uninitialized)
        } else if !sheet_fits(parcel) || amount_of(parcel, self.alkane_a) > balance_a || amount_of(
            parcel,
            self.alkane_b,
        ) > balance_b {
            Err(AmmError::Overflow)
        } else {
            Ok(
                Reserves {
                    a: (balance_a - amount_of(parcel, self.alkane_a)) as u128,
                    b: (balance_b - amount_of(parcel, self.alkane_b)) as u128,
                },
            )
        }
    }

    /// The reserves as they stood before the deposit of the running call.
    pub fn previous_reserves(&self, balance_a: u128, balance_b: u128, parcel: &Vec<AlkaneTransfer>)
        -> (r: Result<Reserves, AmmError>)
        ensures
            r == self.reserves_before(balance_a, balance_b, parcel@),
    {
        if !self.initialized {
            return Err(AmmError::Uninitialized);
        }
        if !fits_sheet(parcel) {
            return Err(AmmError::Overflow);
        }
        let in_a = total_of(parcel, &self.alkane_a);
        let in_b = total_of(parcel, &self.alkane_b);
        match (in_a, in_b) {
            (Some(a), Some(b)) => {
                if a > balance_a || b > balance_b {
                    Err(AmmError::Overflow)
                } else {
                    Ok(Reserves { a: balance_a - a, b: balance_b - b })
                }
            },
            _ => Err(AmmError::Overflow),
        }
    }

    /// The pool after the protocol's share of the fees earned since `k_last`
    /// was recorded has been minted: see [`fee_liquidity`]. The minted tokens
    /// join the supply and the uncollected fees.
    pub open spec fn with_fee(&self, previous: Reserves) -> Result<AMMPool, AmmError> {
        match fee_liquidity(
            self.total_supply as int,
            self.k_last as int,
            previous.a as int,
            previous.b as int,
        ) {
            Err(e) => Err(e),
            Ok(fee) => if self.total_supply + fee > u128::MAX || self.claimable_fees + fee
                > u128::MAX {
                Err(AmmError::Overflow)
            } else {
                Ok(
                    AMMPool {
                        total_supply: (self.total_supply + fee) as u128,
                        claimable_fees: (self.claimable_fees + fee) as u128,
                        ..*self
                    },
                )
            },
        }
    }

    /// Mints the protocol's share of the fees earned since `k_last` was
    /// recorded. A failed call changes nothing.
    pub fn _mint_fee(&mut self, previous_a: u128, previous_b: u128) -> (r: Result<(), AmmError>)
        ensures
            match old(self).with_fee(Reserves { a: previous_a, b: previous_b }) {
                Ok(pool) => r is Ok && *final(self) == pool,
                Err(e) => r == Err::<(), AmmError>(e) && *final(self) == *old(self),
            },
            old(self).wf() ==> final(self).wf(),
    {
        let total_supply = self.total_supply;
        let k_last = self.k_last;
        if k_last != 0 {
            let root_k_last = sqrt(k_last);
            let k = match previous_a.checked_mul(previous_b) {
                Some(k) => k,
                None => {
                    return Err(AmmError::Overflow);
                },
            };
            let root_k = sqrt(k);
            if root_k > root_k_last {
                let numerator = match total_supply.checked_mul(root_k - root_k_last) {
                    Some(n) => n,
                    None => {
                        return Err(AmmError::Overflow);
                    },
                };
                proof {
                    lemma_root_small(k as int, root_k as int);
                    lemma_root_small(k_last as int, root_k_last as int);
                }
                let root_k_fee_adj = root_k * 3 / 2;
                let denominator = root_k_fee_adj + root_k_last;
                let liquidity = numerator / denominator;
                proof {
                    vstd::arithmetic::div_mod::lemma_div_is_ordered_by_denominator(
                        numerator as int,
                        1,
                        denominator as int,
                    );
                }
                let new_supply = match total_supply.checked_add(liquidity) {
                    Some(n) => n,
                    None => {
                        return Err(AmmError::Overflow);
                    },
                };
                let new_fees = match self.claimable_fees.checked_add(liquidity) {
                    Some(n) => n,
                    None => {
                        return Err(AmmError::Overflow);
                    },
                };
                self.total_supply = new_supply;
                self.claimable_fees = new_fees;
            }
        }
        Ok(())
    }

    /// The output of a swap of `amount` against the reserves at a trading
    /// fee of `fee_per_1000`, which is zero for a quote without fee: see
    /// [`quote_out_at`].
    pub fn get_amount_out(&self, amount: u128, reserve_from: u128, reserve_to: u128, fee_per_1000: u128)
        -> (r: Result<u128, AmmError>)
        ensures
            r == quote_out_at(
                fee_per_1000 as int,
                amount as int,
                reserve_from as int,
                reserve_to as int,
            ),
    {
        get_amount_out_with_fee(amount, reserve_from, reserve_to, fee_per_1000)
    }

    /// Whether every entry of the parcel is of one of the pool's two assets.
    pub open spec fn pair_only(&self, parcel: Seq<AlkaneTransfer>) -> bool {
        forall|i: int|
            0 <= i < parcel.len() ==> #[trigger] self.accepts(self.alkane_a, parcel[i].id)
    }

    /// Whether every entry of the parcel is of one of the pool's two assets.
    pub fn is_pair_only(&self, parcel: &Vec<AlkaneTransfer>) -> (r: bool)
        ensures
            r == self.pair_only(parcel@),
    {
        let mut i: usize = 0;
        while i < parcel.len()
            invariant
                0 <= i <= parcel.len(),
                self.pair_only(parcel@.take(i as int)),
            decreases parcel.len() - i,
        {
            let id = parcel[i].id;
            if id != self.alkane_a && id != self.alkane_b {
                assert(!self.accepts(self.alkane_a, parcel@[i as int].id));
                return false;
            }
            assert forall|j: int| 0 <= j < i + 1 implies #[trigger] self.accepts(
                self.alkane_a,
                parcel@.take(i + 1)[j].id,
            ) by {
                if j < i {
                    assert(self.accepts(self.alkane_a, parcel@.take(i as int)[j].id));
                }
            }
            i += 1;
        }
        assert(parcel@.take(i as int) =~= parcel@);
        true
    }

    /// What `add_liquidity` does: the pool after the call and the liquidity
    /// minted to the caller, or the reason for which the call is rejected.
    ///
    /// The deposit may hold up to two entries, of the two assets of the pool
    /// only. The guard is taken for the call and released at its end. The
    /// protocol fee is minted first. Then the caller is minted
    /// [`first_liquidity`] where the supply is zero, in which case
    /// `MINIMUM_LIQUIDITY` joins the supply without an owner, and
    /// [`later_liquidity`] where it is not. `k_last` becomes the product of
    /// the two balances.
    pub open spec fn liquidity_added(
        &self,
        myself: AlkaneId,
        parcel: Seq<AlkaneTransfer>,
        balance_a: u128,
        balance_b: u128,
    ) -> Result<(AMMPool, u128), AmmError> {
        if self.lock.held() {
            Err(AmmError::Locked)
        } else if self.inputs_checked(myself, parcel, 2) is Err {
            Err(self.inputs_checked(myself, parcel, 2)->Err_0)
        } else if !self.pair_only(parcel) {
            Err(AmmError::UnsupportedAsset)
        } else if self.reserves_before(balance_a, balance_b, parcel) is Err {
            Err(self.reserves_before(balance_a, balance_b, parcel)->Err_0)
        } else {
            let previous = self.reserves_before(balance_a, balance_b, parcel)->Ok_0;
            let amount_a = balance_a - previous.a;
            let amount_b = balance_b - previous.b;
            match self.with_fee(previous) {
                Err(e) => Err(e),
                Ok(pool) => {
                    let minted = if pool.total_supply == 0 {
                        first_liquidity(amount_a, amount_b)
                    } else {
                        later_liquidity(
                            amount_a,
                            amount_b,
                            pool.total_supply as int,
                            previous.a as int,
                            previous.b as int,
                        )
                    };
                    let base = if pool.total_supply == 0 {
                        MINIMUM_LIQUIDITY
                    } else {
                        pool.total_supply
                    };
                    match minted {
                        Err(e) => Err(e),
                        Ok(liquidity) => if liquidity == 0 {
                            Err(AmmError::InsufficientLiquidityMinted)
                        } else if base + liquidity > u128::MAX || balance_a * balance_b
                            > u128::MAX {
                            Err(AmmError::Overflow)
                        } else {
                            Ok(
                                (
                                    AMMPool {
                                        total_supply: (base + liquidity) as u128,
                                        k_last: (balance_a * balance_b) as u128,
                                        lock: Lock { state: 0 },
                                        ..pool
                                    },
                                    liquidity,
                                ),
                            )
                        },
                    }
                },
            }
        }
    }

    /// Deposits into the pool and mints liquidity tokens to the caller. The
    /// response pays the minted tokens, which are of the pool's own
    /// identifier. A rejected call changes nothing.
    pub fn add_liquidity(&mut self, context: &Context, balance_a: u128, balance_b: u128) -> (r:
        Result<CallResponse, AmmError>)
        ensures
            match old(self).liquidity_added(
                context.myself,
                context.incoming_alkanes@,
                balance_a,
                balance_b,
            ) {
                Ok((pool, liquidity)) => r is Ok && *final(self) == pool && r->Ok_0.alkanes@
                    == seq![AlkaneTransfer { id: context.myself, value: liquidity }]
                    && r->Ok_0.data@ == Seq::<u8>::empty(),
                Err(e) => r == Err::<CallResponse, AmmError>(e) && *final(self) == *old(self),
            },
            old(self).wf() ==> final(self).wf(),
    {
        if self.lock.is_held() {
            return Err(AmmError::Locked);
        }
        let parcel = &context.incoming_alkanes;
        self.check_inputs(&context.myself, parcel, 2)?;
        if !self.is_pair_only(parcel) {
            return Err(AmmError::UnsupportedAsset);
        }
        let previous = self.previous_reserves(balance_a, balance_b, parcel)?;
        let amount_a_in = balance_a - previous.a;
        let amount_b_in = balance_b - previous.b;
        let saved_supply = self.total_supply;
        let saved_fees = self.claimable_fees;
        self._mint_fee(previous.a, previous.b)?;
        let total_supply = self.total_supply;
        let minted = if total_supply == 0 {
            compute_first_liquidity(amount_a_in, amount_b_in)
        } else {
            compute_later_liquidity(amount_a_in, amount_b_in, total_supply, previous.a, previous.b)
        };
        let base = if total_supply == 0 {
            MINIMUM_LIQUIDITY
        } else {
            total_supply
        };
        let outcome = match minted {
            Err(e) => Err(e),
            Ok(liquidity) => if liquidity == 0 {
                Err(AmmError::InsufficientLiquidityMinted)
            } else {
                match (base.checked_add(liquidity), balance_a.checked_mul(balance_b)) {
                    (Some(supply), Some(k)) => Ok((supply, k, liquidity)),
                    _ => Err(AmmError::Overflow),
                }
            },
        };
        match outcome {
            Err(e) => {
                self.total_supply = saved_supply;
                self.claimable_fees = saved_fees;
                Err(e)
            },
            Ok((supply, k, liquidity)) => {
                self.total_supply = supply;
                self.k_last = k;
                self.lock.release();
                let mut response = CallResponse::new();
                response.alkanes.push(AlkaneTransfer { id: context.myself, value: liquidity });
                assert(response.alkanes@ =~= seq![
                    AlkaneTransfer { id: context.myself, value: liquidity },
                ]);
                Ok(response)
            },
        }
    }

    /// What `burn` does: the pool after the call and the amounts of the two
    /// assets paid out, or the reason for which the call is rejected.
    ///
    /// The deposit is one entry of the pool's own token. The protocol fee is
    /// minted first. Then `liquidity * balance / total_supply` of each asset,
    /// rounded down, is paid out, the burned liquidity leaves the supply, and
    /// `k_last` becomes the product of what is left of the two balances.
    pub open spec fn burned(
        &self,
        myself: AlkaneId,
        parcel: Seq<AlkaneTransfer>,
        balance_a: u128,
        balance_b: u128,
    ) -> Result<(AMMPool, u128, u128), AmmError> {
        if self.lock.held() {
            Err(AmmError::Locked)
        } else if self.inputs_checked(myself, parcel, 1) is Err {
            Err(self.inputs_checked(myself, parcel, 1)->Err_0)
        } else if parcel.len() == 0 {
            Err(AmmError::InsufficientLiquidityBurned)
        } else if parcel[0].id != myself {
            Err(AmmError::UnsupportedAsset)
        } else if self.reserves_before(balance_a, balance_b, parcel) is Err {
            Err(self.reserves_before(balance_a, balance_b, parcel)->Err_0)
        } else {
            let previous = self.reserves_before(balance_a, balance_b, parcel)->Ok_0;
            let liquidity = parcel[0].value;
            match self.with_fee(previous) {
                Err(e) => Err(e),
                Ok(pool) => {
                    let amount_a = liquidity * balance_a / (pool.total_supply as int);
                    let amount_b = liquidity * balance_b / (pool.total_supply as int);
                    if liquidity * balance_a > u128::MAX || liquidity * balance_b > u128::MAX {
                        Err(AmmError::Overflow)
                    } else if pool.total_supply == 0 {
                        Err(AmmError::InsufficientLiquidity)
                    } else if amount_a == 0 || amount_b == 0 {
                        Err(AmmError::InsufficientLiquidityBurned)
                    } else if liquidity > pool.total_supply || (balance_a - amount_a) * (balance_b
                        - amount_b) > u128::MAX {
                        Err(AmmError::Overflow)
                    } else {
                        Ok(
                            (
                                AMMPool {
                                    total_supply: (pool.total_supply - liquidity) as u128,
                                    k_last: ((balance_a - amount_a) * (balance_b
                                        - amount_b)) as u128,
                                    lock: Lock { state: 0 },
                                    ..pool
                                },
                                amount_a as u128,
                                amount_b as u128,
                            ),
                        )
                    }
                },
            }
        }
    }

    /// Takes back liquidity tokens and pays out the share of the reserves
    /// that they stand for. A rejected call changes nothing.
    pub fn burn(&mut self, context: &Context, balance_a: u128, balance_b: u128) -> (r: Result<
        CallResponse,
        AmmError,
    >)
        ensures
            match old(self).burned(
                context.myself,
                context.incoming_alkanes@,
                balance_a,
                balance_b,
            ) {
                Ok((pool, amount_a, amount_b)) => r is Ok && *final(self) == pool
                    && r->Ok_0.alkanes@ == seq![
                    AlkaneTransfer { id: pool.alkane_a, value: amount_a },
                    AlkaneTransfer { id: pool.alkane_b, value: amount_b },
                ] && r->Ok_0.data@ == Seq::<u8>::empty(),
                Err(e) => r == Err::<CallResponse, AmmError>(e) && *final(self) == *old(self),
            },
            old(self).wf() ==> final(self).wf(),
    {
        if self.lock.is_held() {
            return Err(AmmError::Locked);
        }
        let parcel = &context.incoming_alkanes;
        self.check_inputs(&context.myself, parcel, 1)?;
        if parcel.len() == 0 {
            return Err(AmmError::InsufficientLiquidityBurned);
        }
        let incoming = parcel[0];
        if incoming.id != context.myself {
            return Err(AmmError::UnsupportedAsset);
        }
        let previous = self.previous_reserves(balance_a, balance_b, parcel)?;
        let saved_supply = self.total_supply;
        let saved_fees = self.claimable_fees;
        self._mint_fee(previous.a, previous.b)?;
        let liquidity = incoming.value;
        let total_supply = self.total_supply;
        let outcome = match (liquidity.checked_mul(balance_a), liquidity.checked_mul(balance_b)) {
            (Some(share_a), Some(share_b)) => {
                if total_supply == 0 {
                    Err(AmmError::InsufficientLiquidity)
                } else {
                    let amount_a = share_a / total_supply;
                    let amount_b = share_b / total_supply;
                    if amount_a == 0 || amount_b == 0 {
                        Err(AmmError::InsufficientLiquidityBurned)
                    } else if liquidity > total_supply {
                        Err(AmmError::Overflow)
                    } else {
                        proof {
                            lemma_share_bounded(
                                liquidity as int,
                                balance_a as int,
                                total_supply as int,
                            );
                            lemma_share_bounded(
                                liquidity as int,
                                balance_b as int,
                                total_supply as int,
                            );
                        }
                        match (balance_a - amount_a).checked_mul(balance_b - amount_b) {
                            Some(k) => Ok((amount_a, amount_b, k)),
                            None => Err(AmmError::Overflow),
                        }
                    }
                }
            },
            _ => Err(AmmError::Overflow),
        };
        match outcome {
            Err(e) => {
                self.total_supply = saved_supply;
                self.claimable_fees = saved_fees;
                Err(e)
            },
            Ok((amount_a, amount_b, k)) => {
                self.total_supply = total_supply - liquidity;
                self.k_last = k;
                self.lock.release();
                let mut response = CallResponse::new();
                response.alkanes.push(AlkaneTransfer { id: self.alkane_a, value: amount_a });
                response.alkanes.push(AlkaneTransfer { id: self.alkane_b, value: amount_b });
                assert(response.alkanes@ =~= seq![
                    AlkaneTransfer { id: self.alkane_a, value: amount_a },
                    AlkaneTransfer { id: self.alkane_b, value: amount_b },
                ]);
                Ok(response)
            },
        }
    }

    /// What `init_pool` does: the pool after the call and the liquidity
    /// minted to the caller, or the reason for which the call is rejected.
    /// The pair is recorded in canonical order, and the first deposit is made
    /// as by [`Self::liquidity_added`], with `k_last` zero.
    pub open spec fn initialized_with(
        &self,
        myself: AlkaneId,
        parcel: Seq<AlkaneTransfer>,
        alkane_a: AlkaneId,
        alkane_b: AlkaneId,
        factory: AlkaneId,
        balance_a: u128,
        balance_b: u128,
    ) -> Result<(AMMPool, u128), AmmError> {
        if self.initialized {
            Err(AmmError::AlreadyInitialized)
        } else if alkane_a == alkane_b {
            Err(AmmError::IdenticalTokens)
        } else {
            (AMMPool {
                initialized: true,
                alkane_a: sorted_pair(alkane_a, alkane_b).0,
                alkane_b: sorted_pair(alkane_a, alkane_b).1,
                factory,
                k_last: 0,
                ..*self
            }).liquidity_added(myself, parcel, balance_a, balance_b)
        }
    }

    /// Gives the pool its pair and its factory, once, and makes the first
    /// deposit. `balance_a` is the balance of the smaller asset of the pair
    /// and `balance_b` that of the larger one. A rejected call changes
    /// nothing.
    pub fn init_pool(
        &mut self,
        context: &Context,
        alkane_a: AlkaneId,
        alkane_b: AlkaneId,
        factory: AlkaneId,
        balance_a: u128,
        balance_b: u128,
    ) -> (r: Result<CallResponse, AmmError>)
        ensures
            match old(self).initialized_with(
                context.myself,
                context.incoming_alkanes@,
                alkane_a,
                alkane_b,
                factory,
                balance_a,
                balance_b,
            ) {
                Ok((pool, liquidity)) => r is Ok && *final(self) == pool && r->Ok_0.alkanes@
                    == seq![AlkaneTransfer { id: context.myself, value: liquidity }]
                    && r->Ok_0.data@ == Seq::<u8>::empty(),
                Err(e) => r == Err::<CallResponse, AmmError>(e) && *final(self) == *old(self),
            },
            old(self).wf() ==> final(self).wf(),
    {
        if self.initialized {
            return Err(AmmError::AlreadyInitialized);
        }
        if alkane_a == alkane_b {
            return Err(AmmError::IdenticalTokens);
        }
        let saved = (self.alkane_a, self.alkane_b, self.factory, self.k_last);
        let (first, second) = sort_alkanes((alkane_a, alkane_b));
        self.initialized = true;
        self.alkane_a = first;
        self.alkane_b = second;
        self.factory = factory;
        self.k_last = 0;
        match self.add_liquidity(context, balance_a, balance_b) {
            Ok(response) => Ok(response),
            Err(e) => {
                self.initialized = false;
                self.alkane_a = saved.0;
                self.alkane_b = saved.1;
                self.factory = saved.2;
                self.k_last = saved.3;
                Err(e)
            },
        }
    }

    /// What `collect_fees` does: the pool after the call and the liquidity
    /// paid to the factory, or the reason for which the call is rejected.
    /// Only the factory may call. The protocol fee is minted, all
    /// uncollected fees are paid, and `k_last` becomes the product of the
    /// reserves before the deposit of the call.
    pub open spec fn fees_collected(
        &self,
        caller: AlkaneId,
        parcel: Seq<AlkaneTransfer>,
        balance_a: u128,
        balance_b: u128,
    ) -> Result<(AMMPool, u128), AmmError> {
        if caller != self.factory {
            Err(AmmError::NotFactory)
        } else if self.reserves_before(balance_a, balance_b, parcel) is Err {
            Err(self.reserves_before(balance_a, balance_b, parcel)->Err_0)
        } else {
            let previous = self.reserves_before(balance_a, balance_b, parcel)->Ok_0;
            match self.with_fee(previous) {
                Err(e) => Err(e),
                Ok(pool) => if previous.a * previous.b > u128::MAX {
                    Err(AmmError::Overflow)
                } else {
                    Ok(
                        (
                            AMMPool {
                                claimable_fees: 0,
                                k_last: (previous.a * previous.b) as u128,
                                ..pool
                            },
                            pool.claimable_fees,
                        ),
                    )
                },
            }
        }
    }

    /// Pays the uncollected protocol fees to the factory, as liquidity
    /// tokens, after the assets that came with the call. A rejected call
    /// changes nothing.
    pub fn collect_fees(&mut self, context: &Context, balance_a: u128, balance_b: u128) -> (r:
        Result<CallResponse, AmmError>)
        ensures
            match old(self).fees_collected(
                context.caller,
                context.incoming_alkanes@,
                balance_a,
                balance_b,
            ) {
                Ok((pool, fees)) => r is Ok && *final(self) == pool && r->Ok_0.alkanes@
                    == context.incoming_alkanes@.push(
                    AlkaneTransfer { id: context.myself, value: fees },
                ) && r->Ok_0.data@ == Seq::<u8>::empty(),
                Err(e) => r == Err::<CallResponse, AmmError>(e) && *final(self) == *old(self),
            },
            old(self).wf() ==> final(self).wf(),
    {
        self._only_factory_caller(&context.caller)?;
        let previous = self.previous_reserves(balance_a, balance_b, &context.incoming_alkanes)?;
        let saved_supply = self.total_supply;
        let saved_fees = self.claimable_fees;
        self._mint_fee(previous.a, previous.b)?;
        match previous.a.checked_mul(previous.b) {
            None => {
                self.total_supply = saved_supply;
                self.claimable_fees = saved_fees;
                Err(AmmError::Overflow)
            },
            Some(new_k) => {
                let mut response = CallResponse::forward(&context.incoming_alkanes);
                response.alkanes.push(
                    AlkaneTransfer { id: context.myself, value: self.claimable_fees },
                );
                self.claimable_fees = 0;
                self.k_last = new_k;
                Ok(response)
            },
        }
    }

    /// Hands back the assets that came with the call.
    pub fn forward_incoming(&self, context: &Context) -> (r: CallResponse)
        ensures
            r.alkanes@ == context.incoming_alkanes@,
            r.data@ == Seq::<u8>::empty(),
    {
        CallResponse::forward(&context.incoming_alkanes)
    }

    /// Hands back the assets that came with the call, with the name of the
    /// liquidity token in UTF-8 as data.
    pub fn get_name(&self, context: &Context) -> (r: CallResponse)
        ensures
            r.alkanes@ == context.incoming_alkanes@,
            r.data@ == encode_utf8(self.name@),
    {
        let mut response = CallResponse::forward(&context.incoming_alkanes);
        response.data = slice_to_vec(self.name.as_str().as_bytes());
        response
    }

    /// Hands back the assets that came with the call, with the two reserves
    /// before the deposit of the call as data: each as sixteen little-endian
    /// bytes, the smaller asset first.
    pub fn get_reserves(&self, context: &Context, balance_a: u128, balance_b: u128) -> (r: Result<
        CallResponse,
        AmmError,
    >)
        ensures
            match self.reserves_before(balance_a, balance_b, context.incoming_alkanes@) {
                Ok(previous) => r is Ok && r->Ok_0.alkanes@ == context.incoming_alkanes@
                    && r->Ok_0.data@ == spec_u128_to_le_bytes(previous.a) + spec_u128_to_le_bytes(
                    previous.b,
                ),
                Err(e) => r == Err::<CallResponse, AmmError>(e),
            },
    {
        let previous = self.previous_reserves(balance_a, balance_b, &context.incoming_alkanes)?;
        let mut response = CallResponse::forward(&context.incoming_alkanes);
        let mut data = u128_to_le_bytes(previous.a);
        let second = u128_to_le_bytes(previous.b);
        data.extend_from_slice(second.as_slice());
        assert(data@ =~= spec_u128_to_le_bytes(previous.a) + spec_u128_to_le_bytes(previous.b));
        response.data = data;
        Ok(response)
    }

    /// The summary of the pool, with the reserves before the given deposit.
    pub open spec fn details(&self, previous: Reserves) -> PoolInfo {
        PoolInfo {
            token_a: self.alkane_a,
            token_b: self.alkane_b,
            reserve_a: previous.a,
            reserve_b: previous.b,
            total_supply: self.total_supply,
            pool_name: self.name,
        }
    }

    /// Hands back the assets that came with the call, with the byte form of
    /// the pool's summary as data: see [`info_bytes`].
    pub fn pool_details(&self, context: &Context, balance_a: u128, balance_b: u128) -> (r: Result<
        CallResponse,
        AmmError,
    >)
        ensures
            match self.reserves_before(balance_a, balance_b, context.incoming_alkanes@) {
                Ok(previous) => r is Ok && r->Ok_0.alkanes@ == context.incoming_alkanes@
                    && r->Ok_0.data@ == info_bytes(self.details(previous)),
                Err(e) => r == Err::<CallResponse, AmmError>(e),
            },
    {
        let previous = self.previous_reserves(balance_a, balance_b, &context.incoming_alkanes)?;
        let pool_info = PoolInfo {
            token_a: self.alkane_a,
            token_b: self.alkane_b,
            reserve_a: previous.a,
            reserve_b: previous.b,
            total_supply: self.total_supply,
            pool_name: self.name.clone(),
        };
        let mut response = CallResponse::forward(&context.incoming_alkanes);
        response.data = pool_info.try_to_vec();
        Ok(response)
    }

    /// Names the liquidity token after the two assets of the pool: see
    /// [`pool_name_text`]. `answer_a` and `answer_b` are what the two assets
    /// answered when asked for their names, `None` where the call failed.
    /// `Uninitialized` before the pool has a pair.
    pub fn set_pool_name_and_symbol(
        &mut self,
        answer_a: Option<&Vec<u8>>,
        answer_b: Option<&Vec<u8>>,
    ) -> (r: Result<(), AmmError>)
        ensures
            !old(self).initialized ==> r == Err::<(), AmmError>(AmmError::Uninitialized)
                && *final(self) == *old(self),
            old(self).initialized ==> r is Ok && final(self).name@ == pool_name_text(
                label_text(old(self).alkane_a, view_of(answer_a)),
                label_text(old(self).alkane_b, view_of(answer_b)),
                false,
            ) && *final(self) == (AMMPool { name: final(self).name, ..*old(self) }),
    {
        if !self.initialized {
            return Err(AmmError::Uninitialized);
        }
        let name_a = token_label(self.alkane_a, answer_a);
        let name_b = token_label(self.alkane_b, answer_b);
        self.name = pool_name(&name_a, &name_b, false);
        Ok(())
    }

    /// Takes four numbers off the front of the list and reads them as two
    /// identifiers. Where the list holds fewer than four, it is emptied and
    /// the answer is `None`.
    pub fn pull_ids(v: &mut Vec<u128>) -> (r: Option<(AlkaneId, AlkaneId)>)
        ensures
            old(v)@.len() >= 4 ==> r == Some(
                (
                    AlkaneId { block: old(v)@[0], tx: old(v)@[1] },
                    AlkaneId { block: old(v)@[2], tx: old(v)@[3] },
                ),
            ) && final(v)@ == old(v)@.skip(4),
            old(v)@.len() < 4 ==> r is None && final(v)@.len() == 0,
    {
        if v.len() < 4 {
            v.clear();
            return None;
        }
        let a_block = v.remove(0);
        let a_tx = v.remove(0);
        let b_block = v.remove(0);
        let b_tx = v.remove(0);
        assert(v@ =~= old(v)@.skip(4));
        Some((AlkaneId::new(a_block, a_tx), AlkaneId::new(b_block, b_tx)))
    }

    /// Takes four numbers off the front of the list and reads them as two
    /// identifiers, or fails with `Malformed`.
    pub fn pull_ids_or_err(v: &mut Vec<u128>) -> (r: Result<(AlkaneId, AlkaneId), AmmError>)
        ensures
            old(v)@.len() >= 4 ==> r == Ok::<(AlkaneId, AlkaneId), AmmError>(
                (
                    AlkaneId { block: old(v)@[0], tx: old(v)@[1] },
                    AlkaneId { block: old(v)@[2], tx: old(v)@[3] },
                ),
            ) && final(v)@ == old(v)@.skip(4),
            old(v)@.len() < 4 ==> r == Err::<(AlkaneId, AlkaneId), AmmError>(AmmError::Malformed)
                && final(v)@.len() == 0,
    {
        match Self::pull_ids(v) {
            Some(ids) => Ok(ids),
            None => Err(AmmError::Malformed),
        }
    }
}

/// What an asset answered when asked for its name, as a sequence.
pub open spec fn view_of(answer: Option<&Vec<u8>>) -> Option<Seq<u8>> {
    match answer {
        Some(data) => Some(data@),
        None => None,
    }
}

/// A share of a balance is at most the balance: `liquidity * balance /
/// total_supply <= balance` where `liquidity <= total_supply`.
pub proof fn lemma_share_bounded(liquidity: int, balance: int, total_supply: int)
    requires
        0 <= liquidity <= total_supply,
        0 < total_supply,
        0 <= balance,
    ensures
        0 <= liquidity * balance / total_supply <= balance,
{
    assert(liquidity * balance <= total_supply * balance) by (nonlinear_arith)
        requires
            0 <= liquidity <= total_supply,
            0 <= balance,
    ;
    assert(0 <= liquidity * balance) by (nonlinear_arith)
        requires
            0 <= liquidity,
            0 <= balance,
    ;
    vstd::arithmetic::div_mod::lemma_div_is_ordered(
        liquidity * balance,
        total_supply * balance,
        total_supply,
    );
    vstd::arithmetic::div_mod::lemma_div_multiples_vanish(balance, total_supply);
    assert(total_supply * balance == balance * total_supply) by (nonlinear_arith);
    vstd::arithmetic::div_mod::lemma_div_pos_is_pos(liquidity * balance, total_supply);
}

/// The liquidity minted for the first deposit of a pool: the rounded-down
/// square root of `amount_a * amount_b`, less `MINIMUM_LIQUIDITY`. `Overflow`
/// where the product does not fit in 128 bits or the root is below
/// `MINIMUM_LIQUIDITY`.
pub open spec fn first_liquidity(amount_a: int, amount_b: int) -> Result<u128, AmmError> {
    if amount_a * amount_b > u128::MAX || sqrt_floor(amount_a * amount_b) < MINIMUM_LIQUIDITY {
        Err(AmmError::Overflow)
    } else {
        Ok((sqrt_floor(amount_a * amount_b) - MINIMUM_LIQUIDITY) as u128)
    }
}

/// The liquidity minted for a deposit into a pool that has a supply: the
/// smaller of `amount_a * total_supply / previous_a` and
/// `amount_b * total_supply / previous_b`, each rounded down. `Overflow` where
/// a product does not fit in 128 bits, `InsufficientLiquidity` where a
/// reserve is zero.
pub open spec fn later_liquidity(
    amount_a: int,
    amount_b: int,
    total_supply: int,
    previous_a: int,
    previous_b: int,
) -> Result<u128, AmmError> {
    let by_a = amount_a * total_supply / previous_a;
    let by_b = amount_b * total_supply / previous_b;
    if amount_a * total_supply > u128::MAX || amount_b * total_supply > u128::MAX {
        Err(AmmError::Overflow)
    } else if previous_a == 0 || previous_b == 0 {
        Err(AmmError::InsufficientLiquidity)
    } else if by_a <= by_b {
        Ok(by_a as u128)
    } else {
        Ok(by_b as u128)
    }
}

/// Computes [`first_liquidity`].
fn compute_first_liquidity(amount_a: u128, amount_b: u128) -> (r: Result<u128, AmmError>)
    ensures
        r == first_liquidity(amount_a as int, amount_b as int),
{
    match amount_a.checked_mul(amount_b) {
        None => Err(AmmError::Overflow),
        Some(product) => match sqrt(product).checked_sub(MINIMUM_LIQUIDITY) {
            None => Err(AmmError::Overflow),
            Some(liquidity) => Ok(liquidity),
        },
    }
}

/// Computes [`later_liquidity`].
fn compute_later_liquidity(
    amount_a: u128,
    amount_b: u128,
    total_supply: u128,
    previous_a: u128,
    previous_b: u128,
) -> (r: Result<u128, AmmError>)
    ensures
        r == later_liquidity(
            amount_a as int,
            amount_b as int,
            total_supply as int,
            previous_a as int,
            previous_b as int,
        ),
{
    match (amount_a.checked_mul(total_supply), amount_b.checked_mul(total_supply)) {
        (Some(liquidity_a), Some(liquidity_b)) => {
            if previous_a == 0 || previous_b == 0 {
                return Err(AmmError::InsufficientLiquidity);
            }
            let by_a = liquidity_a / previous_a;
            let by_b = liquidity_b / previous_b;
            if by_a <= by_b {
                Ok(by_a)
            } else {
                Ok(by_b)
            }
        },
        _ => Err(AmmError::Overflow),
    }
}

/// The liquidity minted for the protocol when the reserves are next touched.
/// Nothing before the first deposit (`k_last` zero) and nothing unless the
/// root of the reserve product has grown since `k_last`. Otherwise, with
/// `root_k` the rounded-down root of `previous_a * previous_b` and
/// `root_k_last` that of `k_last`:
/// `total_supply * (root_k - root_k_last) / (root_k * 3 / 2 + root_k_last)`,
/// each division rounded down.
pub open spec fn fee_liquidity(total_supply: int, k_last: int, previous_a: int, previous_b: int)
    -> Result<u128, AmmError> {
    let root_k_last = sqrt_floor(k_last);
    let root_k = sqrt_floor(previous_a * previous_b);
    if k_last == 0 {
        Ok(0)
    } else if previous_a * previous_b > u128::MAX {
        Err(AmmError::Overflow)
    } else if root_k <= root_k_last {
        Ok(0)
    } else if total_supply * (root_k - root_k_last) > u128::MAX {
        Err(AmmError::Overflow)
    } else {
        Ok((total_supply * (root_k - root_k_last) / (root_k * 3 / 2 + root_k_last)) as u128)
    }
}

/// The rounded-down square root of a 128-bit number fits in 64 bits.
pub proof fn lemma_root_small(x: int, r: int)
    requires
        is_sqrt_floor(x, r),
        x <= u128::MAX,
    ensures
        r <= u64::MAX,
{
    if r > u64::MAX {
        assert(r * r >= 0x1_0000_0000_0000_0000 * 0x1_0000_0000_0000_0000) by (nonlinear_arith)
            requires
                r >= 0x1_0000_0000_0000_0000,
        ;
    }
}

impl Default for AMMPool {
    /// The same as [`AMMPool::new`].
    fn default() -> (r: Self)
        ensures
            r.is_fresh(),
            r.wf(),
    {
        AMMPool::new()
    }
}

} // verus!
