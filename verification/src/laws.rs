//! What holds of the exchange whatever its callers do: laws that relate
//! several operations, each stated over the specifications of the operations
//! and proved from them.

use vstd::prelude::*;
use vstd::multiset::Multiset;
use crate::error::AmmError;
use crate::factory::{deadline_checked, AMMFactory, PoolEntry};
use crate::id::{lemma_sorted_pair_canonical, sorted_pair, AlkaneId};
use crate::lock::Lock;
use crate::parcel::{amount_of, lemma_amount_of_absent, AlkaneTransfer};
use crate::pool::{fee_liquidity, AMMPool, Reserves, MINIMUM_LIQUIDITY};

verus! {

/// One swap against a pool, as its caller makes it.
pub enum SwapCall {
    /// `swap`: the deposit, the least output that the caller accepts, and
    /// the trading fee.
    ExactIn { parcel: Seq<AlkaneTransfer>, amount_out_min: u128, fee_per_1000: u128 },
    /// `swap_tokens_for_exact_tokens`: the deposit, the output asked for,
    /// the most input that the caller accepts, and the trading fee.
    ExactOut {
        parcel: Seq<AlkaneTransfer>,
        amount_out: u128,
        amount_in_max: u128,
        fee_per_1000: u128,
    },
    /// `swap_begin` and `swap_finish`: the deposit, the two amounts paid
    /// out, whether they leave with a callback, and the two balances as they
    /// stand when the callback has returned.
    LowLevel {
        myself: AlkaneId,
        parcel: Seq<AlkaneTransfer>,
        amount_0_out: u128,
        amount_1_out: u128,
        with_callback: bool,
        balance_a_after: u128,
        balance_b_after: u128,
    },
}

impl SwapCall {
    /// The deposit that comes with the swap.
    pub open spec fn deposit(self) -> Seq<AlkaneTransfer> {
        match self {
            SwapCall::ExactIn { parcel, .. } => parcel,
            SwapCall::ExactOut { parcel, .. } => parcel,
            SwapCall::LowLevel { parcel, .. } => parcel,
        }
    }
}

/// The reserves that a swap leaves, starting from `reserves`: the balances
/// when the swap is over, less what its response pays. `None` where the
/// deposit does not fit on top of the reserves or the swap is rejected.
pub open spec fn reserves_after_swap(pool: AMMPool, reserves: Reserves, call: SwapCall) -> Option<
    Reserves,
> {
    let balance_a = reserves.a + amount_of(call.deposit(), pool.alkane_a);
    let balance_b = reserves.b + amount_of(call.deposit(), pool.alkane_b);
    if balance_a > u128::MAX || balance_b > u128::MAX {
        None
    } else {
        match call {
            SwapCall::ExactIn { parcel, amount_out_min, fee_per_1000 } => match pool.swapped(
                parcel,
                balance_a as u128,
                balance_b as u128,
                amount_out_min,
                fee_per_1000,
            ) {
                Err(_) => None,
                Ok(output) => Some(
                    Reserves {
                        a: (balance_a - amount_of(seq![output], pool.alkane_a)) as u128,
                        b: (balance_b - amount_of(seq![output], pool.alkane_b)) as u128,
                    },
                ),
            },
            SwapCall::ExactOut {
                parcel,
                amount_out,
                amount_in_max,
                fee_per_1000,
            } => match pool.swapped_for_exact(
                parcel,
                balance_a as u128,
                balance_b as u128,
                amount_out,
                amount_in_max,
                fee_per_1000,
            ) {
                Err(_) => None,
                Ok(output) => Some(
                    Reserves {
                        a: (balance_a - amount_of(output, pool.alkane_a)) as u128,
                        b: (balance_b - amount_of(output, pool.alkane_b)) as u128,
                    },
                ),
            },
            SwapCall::LowLevel {
                myself,
                parcel,
                amount_0_out,
                amount_1_out,
                with_callback,
                balance_a_after,
                balance_b_after,
            } => match pool.swap_started(
                myself,
                parcel,
                balance_a as u128,
                balance_b as u128,
                amount_0_out,
                amount_1_out,
                with_callback,
            ) {
                Err(_) => None,
                Ok(in_flight) => match in_flight.swap_finished(balance_a_after, balance_b_after) {
                    Err(_) => None,
                    Ok(_) => Some(
                        Reserves {
                            a: (balance_a_after - in_flight.pending->0.owed_a) as u128,
                            b: (balance_b_after - in_flight.pending->0.owed_b) as u128,
                        },
                    ),
                },
            },
        }
    }
}

/// The reserves that a sequence of swaps leaves, each swap starting from the
/// reserves that the one before left. `None` unless every swap is accepted.
pub open spec fn reserves_after_swaps(pool: AMMPool, reserves: Reserves, calls: Seq<SwapCall>)
    -> Option<Reserves>
    decreases calls.len(),
{
    if calls.len() == 0 {
        Some(reserves)
    } else {
        match reserves_after_swaps(pool, reserves, calls.drop_last()) {
            None => None,
            Some(before) => reserves_after_swap(pool, before, calls.last()),
        }
    }
}

/// An accepted swap does not lower the product of the reserves.
pub proof fn law_swap_keeps_product(pool: AMMPool, reserves: Reserves, call: SwapCall)
    requires
        reserves_after_swap(pool, reserves, call) is Some,
    ensures
        reserves_after_swap(pool, reserves, call)->0.a * reserves_after_swap(
            pool,
            reserves,
            call,
        )->0.b >= reserves.a * reserves.b,
{
    let balance_a = (reserves.a + amount_of(call.deposit(), pool.alkane_a)) as u128;
    let balance_b = (reserves.b + amount_of(call.deposit(), pool.alkane_b)) as u128;
    match call {
        SwapCall::ExactIn { parcel, amount_out_min, fee_per_1000 } => {
            let output = pool.swapped(
                parcel,
                balance_a,
                balance_b,
                amount_out_min,
                fee_per_1000,
            )->Ok_0;
            assert(pool.k_checked(parcel, seq![output], balance_a, balance_b) is Ok);
            assert(pool.reserves_before(balance_a, balance_b, parcel) == Ok::<Reserves, AmmError>(
                reserves,
            ));
        },
        SwapCall::ExactOut { parcel, amount_out, amount_in_max, fee_per_1000 } => {
            let output = pool.swapped_for_exact(
                parcel,
                balance_a,
                balance_b,
                amount_out,
                amount_in_max,
                fee_per_1000,
            )->Ok_0;
            assert(pool.k_checked(parcel, output, balance_a, balance_b) is Ok);
            assert(pool.reserves_before(balance_a, balance_b, parcel) == Ok::<Reserves, AmmError>(
                reserves,
            ));
        },
        SwapCall::LowLevel {
            myself,
            parcel,
            amount_0_out,
            amount_1_out,
            with_callback,
            balance_a_after,
            balance_b_after,
        } => {
            assert(pool.reserves_before(balance_a, balance_b, parcel) == Ok::<Reserves, AmmError>(
                reserves,
            ));
        },
    }
}

/// Invariant preservation: whatever sequence of swaps a pool accepts, the
/// product of its reserves after the sequence is at least the product
/// before.
pub proof fn law_swaps_keep_product(pool: AMMPool, reserves: Reserves, calls: Seq<SwapCall>)
    requires
        reserves_after_swaps(pool, reserves, calls) is Some,
    ensures
        reserves_after_swaps(pool, reserves, calls)->0.a * reserves_after_swaps(
            pool,
            reserves,
            calls,
        )->0.b >= reserves.a * reserves.b,
    decreases calls.len(),
{
    if calls.len() > 0 {
        law_swaps_keep_product(pool, reserves, calls.drop_last());
        let before = reserves_after_swaps(pool, reserves, calls.drop_last())->0;
        law_swap_keeps_product(pool, before, calls.last());
    }
}

/// Who holds the liquidity tokens of a pool, apart from the pool's own fee
/// bucket: every token in the hands of an account is one element of `held`,
/// under the account's identifier, and `unassignable` tokens have no owner.
pub struct LpAccounts {
    pub held: Multiset<AlkaneId>,
    pub unassignable: nat,
}

/// `n` tokens in the hands of `holder`.
pub open spec fn tokens_of(holder: AlkaneId, n: nat) -> Multiset<AlkaneId>
    decreases n,
{
    if n == 0 {
        Multiset::empty()
    } else {
        tokens_of(holder, (n - 1) as nat).insert(holder)
    }
}

/// `tokens_of(holder, n)` is `n` tokens, all of them of `holder`.
pub proof fn lemma_tokens_of(holder: AlkaneId, n: nat)
    ensures
        tokens_of(holder, n).len() == n,
        tokens_of(holder, n).count(holder) == n,
        forall|other: AlkaneId| other != holder ==> tokens_of(holder, n).count(other) == 0,
    decreases n,
{
    if n > 0 {
        lemma_tokens_of(holder, (n - 1) as nat);
    }
}

impl LpAccounts {
    /// The tokens that `holder` has.
    pub open spec fn balance(self, holder: AlkaneId) -> nat {
        self.held.count(holder)
    }

    /// The sum of all balances of the pool's liquidity token: what the
    /// accounts hold, what has no owner, and what waits in the pool's fee
    /// bucket.
    pub open spec fn sum_of_balances(self, pool: AMMPool) -> nat {
        self.held.len() + self.unassignable + pool.claimable_fees as nat
    }

    /// The accounts after `holder` has been paid `n` tokens.
    pub open spec fn credit(self, holder: AlkaneId, n: nat) -> LpAccounts {
        LpAccounts { held: self.held.add(tokens_of(holder, n)), ..self }
    }

    /// The accounts after `holder` has handed in `n` tokens.
    pub open spec fn debit(self, holder: AlkaneId, n: nat) -> LpAccounts {
        LpAccounts { held: self.held.sub(tokens_of(holder, n)), ..self }
    }
}

/// One call that mints or burns liquidity tokens, with the balances of the
/// two assets that the pool has when it is made.
pub enum LpCall {
    Init {
        myself: AlkaneId,
        caller: AlkaneId,
        parcel: Seq<AlkaneTransfer>,
        alkane_a: AlkaneId,
        alkane_b: AlkaneId,
        factory: AlkaneId,
        balance_a: u128,
        balance_b: u128,
    },
    AddLiquidity {
        myself: AlkaneId,
        caller: AlkaneId,
        parcel: Seq<AlkaneTransfer>,
        balance_a: u128,
        balance_b: u128,
    },
    Burn {
        myself: AlkaneId,
        caller: AlkaneId,
        parcel: Seq<AlkaneTransfer>,
        balance_a: u128,
        balance_b: u128,
    },
    CollectFees {
        myself: AlkaneId,
        caller: AlkaneId,
        parcel: Seq<AlkaneTransfer>,
        balance_a: u128,
        balance_b: u128,
    },
}

/// What is newly without an owner after a deposit into `pool`:
/// `MINIMUM_LIQUIDITY` where the deposit is the first, nothing otherwise.
pub open spec fn newly_unassignable(pool: AMMPool, previous: Reserves) -> nat {
    if pool.with_fee(previous) is Ok && pool.with_fee(previous)->Ok_0.total_supply == 0 {
        MINIMUM_LIQUIDITY as nat
    } else {
        0
    }
}

/// The accounts after a deposit that `pool` accepted from `caller`: the
/// caller has the minted tokens, and the first deposit leaves
/// `MINIMUM_LIQUIDITY` without an owner.
pub open spec fn accounts_after_deposit(
    accounts: LpAccounts,
    pool: AMMPool,
    caller: AlkaneId,
    parcel: Seq<AlkaneTransfer>,
    balance_a: u128,
    balance_b: u128,
    minted: u128,
) -> LpAccounts {
    let previous = pool.reserves_before(balance_a, balance_b, parcel)->Ok_0;
    LpAccounts {
        held: accounts.held.add(tokens_of(caller, minted as nat)),
        unassignable: accounts.unassignable + newly_unassignable(pool, previous),
    }
}

/// The pool and the accounts after a call. A rejected call changes neither.
/// An accepted deposit pays the minted tokens to the caller; an accepted
/// burn destroys the tokens that the caller handed in; an accepted
/// collection pays the fee bucket to the caller. `None` where the caller of
/// a burn hands in more tokens than the accounts say that it has, which the
/// ledger does not let happen.
pub open spec fn lp_after(pool: AMMPool, accounts: LpAccounts, call: LpCall) -> Option<
    (AMMPool, LpAccounts),
> {
    match call {
        LpCall::Init {
            myself,
            caller,
            parcel,
            alkane_a,
            alkane_b,
            factory,
            balance_a,
            balance_b,
        } => match pool.initialized_with(
            myself,
            parcel,
            alkane_a,
            alkane_b,
            factory,
            balance_a,
            balance_b,
        ) {
            Err(_) => Some((pool, accounts)),
            Ok((after, minted)) => Some(
                (
                    after,
                    accounts_after_deposit(
                        accounts,
                        AMMPool {
                            initialized: true,
                            alkane_a: sorted_pair(alkane_a, alkane_b).0,
                            alkane_b: sorted_pair(alkane_a, alkane_b).1,
                            factory,
                            k_last: 0,
                            ..pool
                        },
                        caller,
                        parcel,
                        balance_a,
                        balance_b,
                        minted,
                    ),
                ),
            ),
        },
        LpCall::AddLiquidity { myself, caller, parcel, balance_a, balance_b } => match pool.liquidity_added(
            myself,
            parcel,
            balance_a,
            balance_b,
        ) {
            Err(_) => Some((pool, accounts)),
            Ok((after, minted)) => Some(
                (
                    after,
                    accounts_after_deposit(
                        accounts,
                        pool,
                        caller,
                        parcel,
                        balance_a,
                        balance_b,
                        minted,
                    ),
                ),
            ),
        },
        LpCall::Burn { myself, caller, parcel, balance_a, balance_b } => match pool.burned(
            myself,
            parcel,
            balance_a,
            balance_b,
        ) {
            Err(_) => Some((pool, accounts)),
            Ok((after, _, _)) => if accounts.balance(caller) >= parcel[0].value {
                Some((after, accounts.debit(caller, parcel[0].value as nat)))
            } else {
                None
            },
        },
        LpCall::CollectFees { myself, caller, parcel, balance_a, balance_b } => match pool.fees_collected(
            caller,
            parcel,
            balance_a,
            balance_b,
        ) {
            Err(_) => Some((pool, accounts)),
            Ok((after, fees)) => Some((after, accounts.credit(caller, fees as nat))),
        },
    }
}

/// The pool and the accounts after a sequence of calls.
pub open spec fn lp_after_all(pool: AMMPool, accounts: LpAccounts, calls: Seq<LpCall>) -> Option<
    (AMMPool, LpAccounts),
>
    decreases calls.len(),
{
    if calls.len() == 0 {
        Some((pool, accounts))
    } else {
        match lp_after_all(pool, accounts, calls.drop_last()) {
            None => None,
            Some((before, held)) => lp_after(before, held, calls.last()),
        }
    }
}

/// A deposit that mints for the caller keeps the sum of the balances equal
/// to the supply.
proof fn lemma_deposit_conserves(
    accounts: LpAccounts,
    pool: AMMPool,
    myself: AlkaneId,
    caller: AlkaneId,
    parcel: Seq<AlkaneTransfer>,
    balance_a: u128,
    balance_b: u128,
)
    requires
        accounts.sum_of_balances(pool) == pool.total_supply,
        pool.liquidity_added(myself, parcel, balance_a, balance_b) is Ok,
    ensures
        ({
            let (after, minted) = pool.liquidity_added(myself, parcel, balance_a, balance_b)->Ok_0;
            accounts_after_deposit(
                accounts,
                pool,
                caller,
                parcel,
                balance_a,
                balance_b,
                minted,
            ).sum_of_balances(after) == after.total_supply
        }),
{
    let (after, minted) = pool.liquidity_added(myself, parcel, balance_a, balance_b)->Ok_0;
    lemma_tokens_of(caller, minted as nat);
    let previous = pool.reserves_before(balance_a, balance_b, parcel)->Ok_0;
    let with_fee = pool.with_fee(previous)->Ok_0;
    assert(pool.with_fee(previous) is Ok);
}

/// LP conservation, one call: where the sum of all balances of the
/// liquidity token equals the supply before a call, it does so after it.
pub proof fn law_lp_call_conserves(pool: AMMPool, accounts: LpAccounts, call: LpCall)
    requires
        accounts.sum_of_balances(pool) == pool.total_supply,
        lp_after(pool, accounts, call) is Some,
    ensures
        ({
            let (after, held) = lp_after(pool, accounts, call)->0;
            held.sum_of_balances(after) == after.total_supply
        }),
{
    match call {
        LpCall::Init {
            myself,
            caller,
            parcel,
            alkane_a,
            alkane_b,
            factory,
            balance_a,
            balance_b,
        } => {
            if pool.initialized_with(
                myself,
                parcel,
                alkane_a,
                alkane_b,
                factory,
                balance_a,
                balance_b,
            ) is Ok {
                let staged = AMMPool {
                    initialized: true,
                    alkane_a: sorted_pair(alkane_a, alkane_b).0,
                    alkane_b: sorted_pair(alkane_a, alkane_b).1,
                    factory,
                    k_last: 0,
                    ..pool
                };
                lemma_deposit_conserves(
                    accounts,
                    staged,
                    myself,
                    caller,
                    parcel,
                    balance_a,
                    balance_b,
                );
            }
        },
        LpCall::AddLiquidity { myself, caller, parcel, balance_a, balance_b } => {
            if pool.liquidity_added(myself, parcel, balance_a, balance_b) is Ok {
                lemma_deposit_conserves(
                    accounts,
                    pool,
                    myself,
                    caller,
                    parcel,
                    balance_a,
                    balance_b,
                );
            }
        },
        LpCall::Burn { myself, caller, parcel, balance_a, balance_b } => {
            if pool.burned(myself, parcel, balance_a, balance_b) is Ok {
                let burnt = parcel[0].value as nat;
                lemma_tokens_of(caller, burnt);
                assert(tokens_of(caller, burnt).subset_of(accounts.held));
                let previous = pool.reserves_before(balance_a, balance_b, parcel)->Ok_0;
                assert(pool.with_fee(previous) is Ok);
            }
        },
        LpCall::CollectFees { myself, caller, parcel, balance_a, balance_b } => {
            if pool.fees_collected(caller, parcel, balance_a, balance_b) is Ok {
                let (after, fees) = pool.fees_collected(caller, parcel, balance_a, balance_b)->Ok_0;
                lemma_tokens_of(caller, fees as nat);
                let previous = pool.reserves_before(balance_a, balance_b, parcel)->Ok_0;
                assert(pool.with_fee(previous) is Ok);
            }
        },
    }
}

/// LP conservation: where the sum of all balances of the liquidity token
/// equals the supply to begin with, it equals the supply after every
/// sequence of deposits, burns and fee collections, accepted or rejected.
/// As this holds of every sequence, it holds at every point of one.
pub proof fn law_lp_conserved(pool: AMMPool, accounts: LpAccounts, calls: Seq<LpCall>)
    requires
        accounts.sum_of_balances(pool) == pool.total_supply,
        lp_after_all(pool, accounts, calls) is Some,
    ensures
        ({
            let (after, held) = lp_after_all(pool, accounts, calls)->0;
            held.sum_of_balances(after) == after.total_supply
        }),
    decreases calls.len(),
{
    if calls.len() > 0 {
        law_lp_conserved(pool, accounts, calls.drop_last());
        let (before, held) = lp_after_all(pool, accounts, calls.drop_last())->0;
        law_lp_call_conserves(before, held, calls.last());
    }
}

/// What a share of liquidity that was minted for `amount` pays back of the
/// asset is at most `amount`: with `liquidity <= amount * supply / previous`,
/// `liquidity * (previous + amount) / (supply + liquidity) <= amount`.
pub proof fn lemma_minted_share_bounded(liquidity: int, previous: int, amount: int, supply: int)
    requires
        0 <= liquidity,
        0 < previous,
        0 <= amount,
        0 < supply,
        liquidity <= amount * supply / previous,
    ensures
        liquidity * (previous + amount) / (supply + liquidity) <= amount,
{
    let n = amount * supply;
    assert(0 <= n) by (nonlinear_arith)
        requires
            0 <= amount,
            0 < supply,
            n == amount * supply,
    ;
    vstd::arithmetic::div_mod::lemma_fundamental_div_mod(n, previous);
    vstd::arithmetic::div_mod::lemma_mod_bound(n, previous);
    let q = n / previous;
    assert(liquidity * previous <= n) by (nonlinear_arith)
        requires
            0 <= liquidity <= q,
            0 < previous,
            previous * q <= n,
    ;
    let total = supply + liquidity;
    assert(liquidity * (previous + amount) <= amount * total) by (nonlinear_arith)
        requires
            liquidity * previous <= n,
            n == amount * supply,
            total == supply + liquidity,
    ;
    vstd::arithmetic::div_mod::lemma_div_is_ordered(
        liquidity * (previous + amount),
        amount * total,
        total,
    );
    vstd::arithmetic::div_mod::lemma_div_multiples_vanish(amount, total);
    assert(amount * total == total * amount) by (nonlinear_arith);
}

/// Round trip: liquidity that is added and burned at once pays back no more
/// of either asset than was deposited.
///
/// The pool's own token is not one of its two assets, and a pool without a
/// supply holds no reserves. The balances at the burn are those at the
/// deposit, as nothing has moved in between.
pub proof fn law_round_trip(
    pool: AMMPool,
    myself: AlkaneId,
    parcel: Seq<AlkaneTransfer>,
    balance_a: u128,
    balance_b: u128,
)
    requires
        myself != pool.alkane_a,
        myself != pool.alkane_b,
        pool.liquidity_added(myself, parcel, balance_a, balance_b) is Ok,
        ({
            let previous = pool.reserves_before(balance_a, balance_b, parcel)->Ok_0;
            pool.with_fee(previous)->Ok_0.total_supply == 0 ==> previous.a == 0 && previous.b == 0
        }),
    ensures
        ({
            let (after, minted) = pool.liquidity_added(myself, parcel, balance_a, balance_b)->Ok_0;
            let returned = seq![AlkaneTransfer { id: myself, value: minted }];
            after.burned(myself, returned, balance_a, balance_b) is Ok ==> {
                let (_, amount_a, amount_b) = after.burned(
                    myself,
                    returned,
                    balance_a,
                    balance_b,
                )->Ok_0;
                amount_a <= amount_of(parcel, pool.alkane_a) && amount_b <= amount_of(
                    parcel,
                    pool.alkane_b,
                )
            }
        }),
{
    let (after, minted) = pool.liquidity_added(myself, parcel, balance_a, balance_b)->Ok_0;
    let returned = seq![AlkaneTransfer { id: myself, value: minted }];
    let previous = pool.reserves_before(balance_a, balance_b, parcel)->Ok_0;
    assert(pool.with_fee(previous) is Ok);
    let with_fee = pool.with_fee(previous)->Ok_0;
    if after.burned(myself, returned, balance_a, balance_b) is Ok {
        assert(returned.drop_last() =~= Seq::<AlkaneTransfer>::empty());
        assert(amount_of(returned, pool.alkane_a) == 0) by {
            lemma_amount_of_absent(returned, pool.alkane_a);
        }
        assert(amount_of(returned, pool.alkane_b) == 0) by {
            lemma_amount_of_absent(returned, pool.alkane_b);
        }
        let at_burn = after.reserves_before(balance_a, balance_b, returned)->Ok_0;
        assert(at_burn.a == balance_a && at_burn.b == balance_b);
        // nothing has been earned since the deposit, so no fee is minted
        assert(fee_liquidity(
            after.total_supply as int,
            after.k_last as int,
            balance_a as int,
            balance_b as int,
        ) == Ok::<u128, AmmError>(0));
        assert(after.with_fee(at_burn) is Ok);
        let supply = after.with_fee(at_burn)->Ok_0.total_supply;
        assert(supply == after.total_supply);
        let amount_a = amount_of(parcel, pool.alkane_a) as int;
        let amount_b = amount_of(parcel, pool.alkane_b) as int;
        if with_fee.total_supply == 0 {
            crate::pool::lemma_share_bounded(minted as int, balance_a as int, supply as int);
            crate::pool::lemma_share_bounded(minted as int, balance_b as int, supply as int);
        } else {
            lemma_minted_share_bounded(
                minted as int,
                previous.a as int,
                amount_a,
                with_fee.total_supply as int,
            );
            lemma_minted_share_bounded(
                minted as int,
                previous.b as int,
                amount_b,
                with_fee.total_supply as int,
            );
        }
    }
}

/// Duplicate pool rejection: once a pool has been created for a pair, the
/// pair resolves to that pool whichever way round it is given, and creating a
/// pool for it again is rejected with `PoolAlreadyExists`, whichever way
/// round the pair is given and whatever the seed deposits and the next
/// identifier are.
pub proof fn law_duplicate_pool_rejected(
    factory: AMMFactory,
    after: AMMFactory,
    token_a: AlkaneId,
    token_b: AlkaneId,
    amount_a: u128,
    amount_b: u128,
    sequence: u128,
    again_a: u128,
    again_b: u128,
    next_sequence: u128,
)
    requires
        factory.pool_created(token_a, token_b, amount_a, amount_b, sequence) is Ok,
        factory.registers(
            after,
            factory.pool_created(token_a, token_b, amount_a, amount_b, sequence)->Ok_0,
        ),
        again_a != 0,
        again_b != 0,
    ensures
        after.pool_of(token_a, token_b) == Some(
            AlkaneId { block: crate::factory::INSTANCE_BLOCK, tx: sequence },
        ),
        after.pool_of(token_b, token_a) == after.pool_of(token_a, token_b),
        after.pool_created(token_a, token_b, again_a, again_b, next_sequence) == Err::<
            PoolEntry,
            AmmError,
        >(AmmError::PoolAlreadyExists),
        after.pool_created(token_b, token_a, again_a, again_b, next_sequence) == Err::<
            PoolEntry,
            AmmError,
        >(AmmError::PoolAlreadyExists),
{
    lemma_sorted_pair_canonical(token_a, token_b);
}

/// Reentrant call rejection: while the guard of a pool is held, every
/// operation that takes the guard is rejected with `Locked`, whatever it is
/// called with. As a rejected call changes nothing, the pool is then as it
/// was before the call.
pub proof fn law_locked_pool_rejects(
    pool: AMMPool,
    myself: AlkaneId,
    parcel: Seq<AlkaneTransfer>,
    balance_a: u128,
    balance_b: u128,
    amount_0: u128,
    amount_1: u128,
    with_callback: bool,
    fee_per_1000: u128,
)
    requires
        pool.lock.held(),
    ensures
        pool.liquidity_added(myself, parcel, balance_a, balance_b) == Err::<
            (AMMPool, u128),
            AmmError,
        >(AmmError::Locked),
        pool.burned(myself, parcel, balance_a, balance_b) == Err::<
            (AMMPool, u128, u128),
            AmmError,
        >(AmmError::Locked),
        pool.swapped(parcel, balance_a, balance_b, amount_0, fee_per_1000) == Err::<
            AlkaneTransfer,
            AmmError,
        >(AmmError::Locked),
        pool.swapped_for_exact(parcel, balance_a, balance_b, amount_0, amount_1, fee_per_1000)
            == Err::<Seq<AlkaneTransfer>, AmmError>(AmmError::Locked),
        pool.swap_started(
            myself,
            parcel,
            balance_a,
            balance_b,
            amount_0,
            amount_1,
            with_callback,
        ) == Err::<AMMPool, AmmError>(AmmError::Locked),
{
}

/// A low-level swap holds the guard from its first step to its second: the
/// pool that `swap_begin` leaves is locked, so that by
/// [`law_locked_pool_rejects`] every nested deposit, burn or swap is
/// rejected and leaves it as it is; and what `swap_finish` then answers
/// depends on nothing but what `swap_begin` recorded and the balances it is
/// given, after which the guard is released and the pool is otherwise as it
/// was before the swap.
pub proof fn law_swap_in_flight_is_locked(
    pool: AMMPool,
    myself: AlkaneId,
    parcel: Seq<AlkaneTransfer>,
    balance_a: u128,
    balance_b: u128,
    amount_0_out: u128,
    amount_1_out: u128,
    with_callback: bool,
)
    requires
        pool.swap_started(
            myself,
            parcel,
            balance_a,
            balance_b,
            amount_0_out,
            amount_1_out,
            with_callback,
        ) is Ok,
    ensures
        ({
            let in_flight = pool.swap_started(
                myself,
                parcel,
                balance_a,
                balance_b,
                amount_0_out,
                amount_1_out,
                with_callback,
            )->Ok_0;
            &&& in_flight.lock.held()
            &&& in_flight.pending is Some
            &&& !in_flight.settled().lock.held()
            &&& in_flight.settled() == (AMMPool {
                lock: Lock { state: 0 },
                pending: None,
                ..pool
            })
        }),
{
}

/// Deadline enforcement: with a deadline that lies before the current
/// height, the factory rejects a deposit and a swap along a path with
/// `Expired`, whatever else they are called with. The operations only plan
/// calls: nothing has been changed when they are rejected.
pub proof fn law_deadline_enforced(
    factory: AMMFactory,
    height: u64,
    deadline: u128,
    token_a: AlkaneId,
    token_b: AlkaneId,
    amounts: (u128, u128, u128, u128),
    previous: (u128, u128),
    path: Seq<AlkaneId>,
    amount: u128,
    limit: u128,
    reserves: Seq<(u128, u128)>,
)
    requires
        deadline < height,
    ensures
        deadline_checked(height, deadline) == Err::<(), AmmError>(AmmError::Expired),
        factory.liquidity_planned(
            height,
            token_a,
            token_b,
            amounts.0,
            amounts.1,
            amounts.2,
            amounts.3,
            deadline,
            previous.0,
            previous.1,
        ) == Err::<(AlkaneId, u128, u128), AmmError>(AmmError::Expired),
        factory.exact_in_planned(height, amount, path, limit, deadline, reserves) == Err::<
            Seq<u128>,
            AmmError,
        >(AmmError::Expired),
        factory.exact_out_planned(height, path, amount, limit, deadline, reserves) == Err::<
            Seq<u128>,
            AmmError,
        >(AmmError::Expired),
{
}

} // verus!
