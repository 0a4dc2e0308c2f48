//! Swaps along a path of assets, each hop through the pool of two
//! neighbours.
//!
//! The amounts along a path are worked out from the reserves of the pools,
//! which the host reads and hands in, one pair for each hop: the reserve of
//! the asset that the hop takes first, the reserve of the asset that it gives
//! second. Each hop is priced at the trading fee of its pool. The swaps
//! themselves are calls that the host makes in order.

use vstd::prelude::*;
use crate::error::AmmError;
use crate::factory::{deadline_checked, AMMFactory, POOL_OP_SWAP};
use crate::id::{sort_alkanes, sorted_pair, AlkaneId};
use crate::math::{get_amount_in_with_fee, get_amount_out_with_fee, quote_in_at, quote_out_at};
use crate::parcel::{AlkaneTransfer, Cellpack, Context, OutgoingCall};

verus! {

/// What one hop of a path is priced with: the reserve of the asset that it
/// takes, the reserve of the asset that it gives, and the trading fee of its
/// pool.
#[derive(Clone, Copy, Debug, PartialEq, Eq, Structural)]
pub struct Hop {
    pub reserve_in: u128,
    pub reserve_out: u128,
    pub fee_per_1000: u128,
}

/// The amounts along a path that starts with `amount_in`: each next amount
/// is what the hop's pool gives for the one before, by [`quote_out_at`]. One
/// amount more than there are hops.
pub open spec fn amounts_out(amount_in: u128, hops: Seq<Hop>) -> Result<Seq<u128>, AmmError>
    decreases hops.len(),
{
    if hops.len() == 0 {
        Ok(seq![amount_in])
    } else {
        match amounts_out(amount_in, hops.drop_last()) {
            Err(e) => Err(e),
            Ok(before) => match quote_out_at(
                hops.last().fee_per_1000 as int,
                before.last() as int,
                hops.last().reserve_in as int,
                hops.last().reserve_out as int,
            ) {
                Err(e) => Err(e),
                Ok(amount) => Ok(before.push(amount)),
            },
        }
    }
}

/// The amounts along a path that ends with `amount_out`: each amount before
/// is what the hop's pool needs for the one after, by [`quote_in_at`]. One
/// amount more than there are hops.
pub open spec fn amounts_in(amount_out: u128, hops: Seq<Hop>) -> Result<Seq<u128>, AmmError>
    decreases hops.len(),
{
    if hops.len() == 0 {
        Ok(seq![amount_out])
    } else {
        match amounts_in(amount_out, hops.drop_first()) {
            Err(e) => Err(e),
            Ok(after) => match quote_in_at(
                hops.first().fee_per_1000 as int,
                after.first() as int,
                hops.first().reserve_in as int,
                hops.first().reserve_out as int,
            ) {
                Err(e) => Err(e),
                Ok(amount) => Ok(seq![amount] + after),
            },
        }
    }
}

/// The amounts along a path have one entry for each asset of the path.
pub proof fn lemma_amounts_out_len(amount_in: u128, hops: Seq<Hop>)
    ensures
        amounts_out(amount_in, hops) is Ok ==> amounts_out(amount_in, hops)->Ok_0.len()
            == hops.len() + 1 && amounts_out(amount_in, hops)->Ok_0[0] == amount_in,
    decreases hops.len(),
{
    if hops.len() > 0 {
        lemma_amounts_out_len(amount_in, hops.drop_last());
    }
}

/// The amounts along a path have one entry for each asset of the path.
pub proof fn lemma_amounts_in_len(amount_out: u128, hops: Seq<Hop>)
    ensures
        amounts_in(amount_out, hops) is Ok ==> amounts_in(amount_out, hops)->Ok_0.len()
            == hops.len() + 1 && amounts_in(amount_out, hops)->Ok_0.last() == amount_out,
    decreases hops.len(),
{
    if hops.len() > 0 {
        lemma_amounts_in_len(amount_out, hops.drop_first());
    }
}

/// What `get_amounts_out` answers.
pub open spec fn amounts_out_for(amount_in: u128, path: Seq<AlkaneId>, hops: Seq<Hop>) -> Result<
    Seq<u128>,
    AmmError,
> {
    if path.len() < 2 {
        Err(AmmError::PathTooShort)
    } else if hops.len() != path.len() - 1 {
        Err(AmmError::Malformed)
    } else {
        amounts_out(amount_in, hops)
    }
}

/// What `get_amounts_in` answers.
pub open spec fn amounts_in_for(amount_out: u128, path: Seq<AlkaneId>, hops: Seq<Hop>) -> Result<
    Seq<u128>,
    AmmError,
> {
    if path.len() < 2 {
        Err(AmmError::PathTooShort)
    } else if hops.len() != path.len() - 1 {
        Err(AmmError::Malformed)
    } else {
        amounts_in(amount_out, hops)
    }
}

/// The amounts along `path` for an input of `amount_in`. `PathTooShort`
/// for a path of fewer than two assets, `Malformed` unless there is one hop
/// for each two neighbours of the path.
pub fn get_amounts_out(amount_in: u128, path: &Vec<AlkaneId>, hops: &Vec<Hop>) -> (r: Result<
    Vec<u128>,
    AmmError,
>)
    ensures
        match amounts_out_for(amount_in, path@, hops@) {
            Ok(amounts) => r is Ok && r->Ok_0@ == amounts,
            Err(e) => r == Err::<Vec<u128>, AmmError>(e),
        },
{
    let n = path.len();
    if n < 2 {
        return Err(AmmError::PathTooShort);
    }
    if hops.len() != n - 1 {
        return Err(AmmError::Malformed);
    }
    let mut amounts: Vec<u128> = Vec::new();
    amounts.push(amount_in);
    let mut i: usize = 1;
    assert(hops@.take(0) =~= Seq::<Hop>::empty());
    while i < n
        invariant
            1 <= i <= n,
            n == path@.len(),
            hops@.len() == n - 1,
            amounts@.len() == i,
            amounts_out(amount_in, hops@.take(i - 1)) == Ok::<Seq<u128>, AmmError>(amounts@),
        decreases n - i,
    {
        let hop = hops[i - 1];
        proof {
            assert(hops@.take(i as int).drop_last() =~= hops@.take(i - 1));
        }
        match get_amount_out_with_fee(
            amounts[i - 1],
            hop.reserve_in,
            hop.reserve_out,
            hop.fee_per_1000,
        ) {
            Err(e) => {
                proof {
                    lemma_amounts_out_prefix(amount_in, hops@, i as int);
                }
                return Err(e);
            },
            Ok(amount) => {
                amounts.push(amount);
            },
        }
        i += 1;
    }
    proof {
        assert(hops@.take(n - 1) =~= hops@);
    }
    Ok(amounts)
}

/// Where the amounts cannot be worked out for the first hops of a path, they
/// cannot be worked out for the path, and the reason is the same.
pub proof fn lemma_amounts_out_prefix(amount_in: u128, hops: Seq<Hop>, n: int)
    requires
        0 <= n <= hops.len(),
        amounts_out(amount_in, hops.take(n)) is Err,
    ensures
        amounts_out(amount_in, hops) == amounts_out(amount_in, hops.take(n)),
    decreases hops.len() - n,
{
    if n < hops.len() {
        assert(hops.take(n + 1).drop_last() =~= hops.take(n));
        lemma_amounts_out_prefix(amount_in, hops, n + 1);
    } else {
        assert(hops.take(n) =~= hops);
    }
}

/// Where the amounts cannot be worked out for the last hops of a path, they
/// cannot be worked out for the path, and the reason is the same.
pub proof fn lemma_amounts_in_suffix(amount_out: u128, hops: Seq<Hop>, n: int)
    requires
        0 <= n <= hops.len(),
        amounts_in(amount_out, hops.skip(n)) is Err,
    ensures
        amounts_in(amount_out, hops) == amounts_in(amount_out, hops.skip(n)),
    decreases n,
{
    if n > 0 {
        assert(hops.skip(n - 1).drop_first() =~= hops.skip(n));
        lemma_amounts_in_suffix(amount_out, hops, n - 1);
    } else {
        assert(hops.skip(0) =~= hops);
    }
}

/// The amounts along `path` for an output of `amount_out`. `PathTooShort`
/// for a path of fewer than two assets, `Malformed` unless there is one hop
/// for each two neighbours of the path.
pub fn get_amounts_in(amount_out: u128, path: &Vec<AlkaneId>, hops: &Vec<Hop>) -> (r: Result<
    Vec<u128>,
    AmmError,
>)
    ensures
        match amounts_in_for(amount_out, path@, hops@) {
            Ok(amounts) => r is Ok && r->Ok_0@ == amounts,
            Err(e) => r == Err::<Vec<u128>, AmmError>(e),
        },
{
    let n = path.len();
    if n < 2 {
        return Err(AmmError::PathTooShort);
    }
    if hops.len() != n - 1 {
        return Err(AmmError::Malformed);
    }
    let mut amounts: Vec<u128> = Vec::new();
    let mut k: usize = 0;
    while k < n
        invariant
            0 <= k <= n,
            amounts@.len() == k,
        decreases n - k,
    {
        amounts.push(0);
        k += 1;
    }
    amounts.set(n - 1, amount_out);
    let mut i: usize = 1;
    assert(hops@.skip(n - 1) =~= Seq::<Hop>::empty());
    assert(amounts@.skip(n - 1) =~= seq![amount_out]);
    while i < n
        invariant
            1 <= i <= n,
            n == path@.len(),
            hops@.len() == n - 1,
            amounts@.len() == n,
            amounts_in(amount_out, hops@.skip(n - i)) == Ok::<Seq<u128>, AmmError>(
                amounts@.skip(n - i),
            ),
        decreases n - i,
    {
        let hop = hops[n - i - 1];
        proof {
            assert(hops@.skip(n - i - 1).drop_first() =~= hops@.skip(n - i));
        }
        let ghost after = amounts@.skip(n - i);
        match get_amount_in_with_fee(
            amounts[n - i],
            hop.reserve_in,
            hop.reserve_out,
            hop.fee_per_1000,
        ) {
            Err(e) => {
                proof {
                    lemma_amounts_in_suffix(amount_out, hops@, n - i - 1);
                }
                return Err(e);
            },
            Ok(amount) => {
                amounts.set(n - i - 1, amount);
                proof {
                    assert(amounts@.skip(n - i) =~= after);
                    assert(amounts@.skip(n - i - 1) =~= seq![amount] + after);
                }
            },
        }
        i += 1;
    }
    proof {
        assert(hops@.skip(0) =~= hops@);
        assert(amounts@.skip(0) =~= amounts@);
    }
    Ok(amounts)
}

/// The numbers given to a pool for one hop: the swap operation, the amount
/// to pay out of the smaller and of the larger asset of the pool's pair, the
/// recipient, and no data. A hop pays out of the asset that it does not take.
pub open spec fn hop_inputs(from: AlkaneId, to: AlkaneId, amount_out: u128, recipient: AlkaneId)
    -> Seq<u128> {
    if from == sorted_pair(from, to).0 {
        seq![POOL_OP_SWAP, 0, amount_out, recipient.block, recipient.tx, 0]
    } else {
        seq![POOL_OP_SWAP, amount_out, 0, recipient.block, recipient.tx, 0]
    }
}

impl AMMFactory {
    /// Whether `call` is the swap of hop `i` of the path: a call of the pool
    /// of `path[i - 1]` and `path[i]`, which is sent `amounts[i - 1]` of the
    /// first and asked to pay `amounts[i]` of the second to `recipient`.
    pub open spec fn is_hop(
        &self,
        call: OutgoingCall,
        amounts: Seq<u128>,
        path: Seq<AlkaneId>,
        recipient: AlkaneId,
        i: int,
    ) -> bool {
        &&& self.pool_of(path[i - 1], path[i]) == Some(call.cellpack.target)
        &&& call.cellpack.inputs@ == hop_inputs(path[i - 1], path[i], amounts[i], recipient)
        &&& call.alkanes@ == seq![AlkaneTransfer { id: path[i - 1], value: amounts[i - 1] }]
    }

    /// Whether every hop of the path has a pool.
    pub open spec fn routable(&self, path: Seq<AlkaneId>) -> bool {
        forall|i: int| 1 <= i < path.len() ==> self.pool_of(path[i - 1], #[trigger] path[i]) is Some
    }

    /// Whether `calls` are the swaps of the path, one for each hop, in order.
    pub open spec fn is_route(
        &self,
        calls: Seq<OutgoingCall>,
        amounts: Seq<u128>,
        path: Seq<AlkaneId>,
        recipient: AlkaneId,
    ) -> bool {
        &&& calls.len() == path.len() - 1 || (path.len() == 0 && calls.len() == 0)
        &&& forall|k: int|
            0 <= k < calls.len() ==> self.is_hop(#[trigger] calls[k], amounts, path, recipient, k + 1)
    }

    /// The swaps of a path: for each hop, in order, the call of the hop's
    /// pool. `Malformed` unless there is one amount for each asset of the
    /// path, `PoolNotFound` where a hop has no pool.
    pub fn _swap(&self, amounts: &Vec<u128>, path: &Vec<AlkaneId>, recipient: AlkaneId) -> (r:
        Result<Vec<OutgoingCall>, AmmError>)
        ensures
            amounts@.len() != path@.len() ==> r == Err::<Vec<OutgoingCall>, AmmError>(
                AmmError::Malformed,
            ),
            amounts@.len() == path@.len() && !self.routable(path@) ==> r == Err::<
                Vec<OutgoingCall>,
                AmmError,
            >(AmmError::PoolNotFound),
            amounts@.len() == path@.len() && self.routable(path@) ==> r is Ok && self.is_route(
                r->Ok_0@,
                amounts@,
                path@,
                recipient,
            ),
    {
        if amounts.len() != path.len() {
            return Err(AmmError::Malformed);
        }
        let mut calls: Vec<OutgoingCall> = Vec::new();
        let mut i: usize = 1;
        while i < path.len()
            invariant
                1 <= i,
                i <= path@.len() || (path@.len() == 0 && i == 1),
                amounts@.len() == path@.len(),
                calls@.len() == i - 1,
                forall|j: int| 1 <= j < i ==> self.pool_of(path@[j - 1], #[trigger] path@[j]) is Some,
                forall|k: int|
                    0 <= k < i - 1 ==> self.is_hop(
                        #[trigger] calls@[k],
                        amounts@,
                        path@,
                        recipient,
                        k + 1,
                    ),
            decreases path@.len() - i,
        {
            let from = path[i - 1];
            let to = path[i];
            let pool = match self.lookup(&from, &to) {
                Some(pool) => pool,
                None => {
                    assert(!(self.pool_of(path@[i - 1], path@[i as int]) is Some));
                    return Err(AmmError::PoolNotFound);
                },
            };
            let (token_a, _) = sort_alkanes((from, to));
            let amount_out = amounts[i];
            let (amount_0_out, amount_1_out) = if from == token_a {
                (0, amount_out)
            } else {
                (amount_out, 0)
            };
            let mut inputs: Vec<u128> = Vec::new();
            inputs.push(POOL_OP_SWAP);
            inputs.push(amount_0_out);
            inputs.push(amount_1_out);
            inputs.push(recipient.block);
            inputs.push(recipient.tx);
            inputs.push(0);
            let mut alkanes: Vec<AlkaneTransfer> = Vec::new();
            alkanes.push(AlkaneTransfer { id: from, value: amounts[i - 1] });
            proof {
                assert(inputs@ =~= hop_inputs(from, to, amount_out, recipient));
                assert(alkanes@ =~= seq![AlkaneTransfer { id: from, value: amounts@[i - 1] }]);
            }
            let ghost before = calls@;
            calls.push(OutgoingCall { cellpack: Cellpack { target: pool, inputs }, alkanes });
            proof {
                assert forall|k: int| 0 <= k < i implies self.is_hop(
                    #[trigger] calls@[k],
                    amounts@,
                    path@,
                    recipient,
                    k + 1,
                ) by {
                    if k < i - 1 {
                        assert(calls@[k] == before[k]);
                    }
                }
            }
            i += 1;
        }
        Ok(calls)
    }

    /// What the hops of a path are priced with: the reserves of each hop as
    /// they are handed in, and the trading fee of the hop's pool.
    pub open spec fn hops_of(&self, path: Seq<AlkaneId>, reserves: Seq<(u128, u128)>) -> Seq<Hop> {
        Seq::new(
            reserves.len(),
            |i: int|
                Hop {
                    reserve_in: reserves[i].0,
                    reserve_out: reserves[i].1,
                    fee_per_1000: self.fee_of(self.entry_of(path[i], path[i + 1])->0),
                },
        )
    }

    /// Whether a path can be priced, and if not, why not: `PathTooShort`
    /// for a path of fewer than two assets, `Malformed` unless there is one
    /// pair of reserves for each hop, `PoolNotFound` where a hop has no pool.
    pub open spec fn path_checked(&self, path: Seq<AlkaneId>, reserves: Seq<(u128, u128)>)
        -> Result<(), AmmError> {
        if path.len() < 2 {
            Err(AmmError::PathTooShort)
        } else if reserves.len() != path.len() - 1 {
            Err(AmmError::Malformed)
        } else if !self.routable(path) {
            Err(AmmError::PoolNotFound)
        } else {
            Ok(())
        }
    }

    /// What the hops of a path are priced with: see [`Self::hops_of`] and
    /// [`Self::path_checked`].
    pub fn hops(&self, path: &Vec<AlkaneId>, reserves: &Vec<(u128, u128)>) -> (r: Result<
        Vec<Hop>,
        AmmError,
    >)
        ensures
            match self.path_checked(path@, reserves@) {
                Ok(_) => r is Ok && r->Ok_0@ == self.hops_of(path@, reserves@),
                Err(e) => r == Err::<Vec<Hop>, AmmError>(e),
            },
    {
        let n = path.len();
        if n < 2 {
            return Err(AmmError::PathTooShort);
        }
        if reserves.len() != n - 1 {
            return Err(AmmError::Malformed);
        }
        let mut k: usize = 1;
        while k < n
            invariant
                1 <= k <= n,
                2 <= n == path@.len(),
                reserves@.len() == n - 1,
                forall|j: int| 1 <= j < k ==> self.pool_of(path@[j - 1], #[trigger] path@[j]) is Some,
            decreases n - k,
        {
            if self.lookup(&path[k - 1], &path[k]).is_none() {
                assert(!(self.pool_of(path@[k - 1], path@[k as int]) is Some));
                return Err(AmmError::PoolNotFound);
            }
            k += 1;
        }
        let mut hops: Vec<Hop> = Vec::new();
        let mut i: usize = 0;
        while i < n - 1
            invariant
                0 <= i <= n - 1,
                n == path@.len(),
                reserves@.len() == n - 1,
                self.routable(path@),
                hops@.len() == i,
                forall|j: int| 0 <= j < i ==> hops@[j] == self.hops_of(path@, reserves@)[j],
            decreases n - 1 - i,
        {
            assert(self.pool_of(path@[i + 1 - 1], path@[i + 1]) is Some);
            let fee = match self.pool_fee(&path[i], &path[i + 1]) {
                Ok(fee) => fee,
                Err(_) => {
                    assert(false);
                    0
                },
            };
            let (reserve_in, reserve_out) = reserves[i];
            hops.push(Hop { reserve_in, reserve_out, fee_per_1000: fee });
            i += 1;
        }
        assert(hops@ =~= self.hops_of(path@, reserves@));
        Ok(hops)
    }

    /// What `swap_exact_tokens_for_tokens` decides: the amounts along the
    /// path, or the reason for which the call is rejected.
    pub open spec fn exact_in_planned(
        &self,
        height: u64,
        amount_in: u128,
        path: Seq<AlkaneId>,
        amount_out_min: u128,
        deadline: u128,
        reserves: Seq<(u128, u128)>,
    ) -> Result<Seq<u128>, AmmError> {
        if deadline_checked(height, deadline) is Err {
            Err(AmmError::Expired)
        } else if self.path_checked(path, reserves) is Err {
            Err(self.path_checked(path, reserves)->Err_0)
        } else {
            match amounts_out(amount_in, self.hops_of(path, reserves)) {
                Err(e) => Err(e),
                Ok(amounts) => if amounts.last() < amount_out_min {
                    Err(AmmError::InsufficientOutputAmount)
                } else {
                    Ok(amounts)
                },
            }
        }
    }

    /// Swaps `amount_in` of the first asset of the path for as much of the
    /// last as the pools along the path give, each at its trading fee,
    /// provided that this is at least `amount_out_min`. Answers with the
    /// swaps to make, in order; what they pay goes to the caller. Changes
    /// nothing.
    pub fn swap_exact_tokens_for_tokens(
        &self,
        context: &Context,
        amount_in: u128,
        path: &Vec<AlkaneId>,
        amount_out_min: u128,
        deadline: u128,
        reserves: &Vec<(u128, u128)>,
    ) -> (r: Result<Vec<OutgoingCall>, AmmError>)
        ensures
            match self.exact_in_planned(
                context.height,
                amount_in,
                path@,
                amount_out_min,
                deadline,
                reserves@,
            ) {
                Ok(amounts) => r is Ok && self.is_route(
                    r->Ok_0@,
                    amounts,
                    path@,
                    context.caller,
                ),
                Err(e) => r == Err::<Vec<OutgoingCall>, AmmError>(e),
            },
    {
        self._check_deadline(context.height, deadline)?;
        let hops = self.hops(path, reserves)?;
        let amounts = get_amounts_out(amount_in, path, &hops)?;
        proof {
            lemma_amounts_out_len(amount_in, hops@);
        }
        if amounts[amounts.len() - 1] < amount_out_min {
            return Err(AmmError::InsufficientOutputAmount);
        }
        self._swap(&amounts, path, context.caller)
    }

    /// What `swap_tokens_for_exact_tokens` decides: the amounts along the
    /// path, or the reason for which the call is rejected.
    pub open spec fn exact_out_planned(
        &self,
        height: u64,
        path: Seq<AlkaneId>,
        desired_amount_out: u128,
        amount_in_max: u128,
        deadline: u128,
        reserves: Seq<(u128, u128)>,
    ) -> Result<Seq<u128>, AmmError> {
        if deadline_checked(height, deadline) is Err {
            Err(AmmError::Expired)
        } else if self.path_checked(path, reserves) is Err {
            Err(self.path_checked(path, reserves)->Err_0)
        } else {
            match amounts_in(desired_amount_out, self.hops_of(path, reserves)) {
                Err(e) => Err(e),
                Ok(amounts) => if amounts.first() > amount_in_max {
                    Err(AmmError::ExcessiveInputAmount)
                } else {
                    Ok(amounts)
                },
            }
        }
    }

    /// Swaps as much of the first asset of the path as the pools along the
    /// path need, each at its trading fee, to give `desired_amount_out` of
    /// the last, provided that this is at most `amount_in_max`. Answers with
    /// the swaps to make, in order; what they pay goes to the caller.
    /// Changes nothing.
    pub fn swap_tokens_for_exact_tokens(
        &self,
        context: &Context,
        path: &Vec<AlkaneId>,
        desired_amount_out: u128,
        amount_in_max: u128,
        deadline: u128,
        reserves: &Vec<(u128, u128)>,
    ) -> (r: Result<Vec<OutgoingCall>, AmmError>)
        ensures
            match self.exact_out_planned(
                context.height,
                path@,
                desired_amount_out,
                amount_in_max,
                deadline,
                reserves@,
            ) {
                Ok(amounts) => r is Ok && self.is_route(
                    r->Ok_0@,
                    amounts,
                    path@,
                    context.caller,
                ),
                Err(e) => r == Err::<Vec<OutgoingCall>, AmmError>(e),
            },
    {
        self._check_deadline(context.height, deadline)?;
        let hops = self.hops(path, reserves)?;
        let amounts = get_amounts_in(desired_amount_out, path, &hops)?;
        proof {
            lemma_amounts_in_len(desired_amount_out, hops@);
        }
        if amounts[0] > amount_in_max {
            return Err(AmmError::ExcessiveInputAmount);
        }
        self._swap(&amounts, path, context.caller)
    }
}

} // verus!
