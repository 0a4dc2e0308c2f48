use oylswap::error::AmmError;
use oylswap::id::AlkaneId;
use oylswap::parcel::{AlkaneTransfer, Context};
use oylswap::pool::{AMMPool, MINIMUM_LIQUIDITY};

const A: AlkaneId = AlkaneId { block: 2, tx: 1 };
const B: AlkaneId = AlkaneId { block: 2, tx: 2 };
const C: AlkaneId = AlkaneId { block: 2, tx: 3 };
const POOL: AlkaneId = AlkaneId { block: 2, tx: 10 };
const FACTORY: AlkaneId = AlkaneId { block: 2, tx: 20 };
const USER: AlkaneId = AlkaneId { block: 2, tx: 30 };

fn call(caller: AlkaneId, incoming: Vec<AlkaneTransfer>) -> Context {
    Context { myself: POOL, caller, incoming_alkanes: incoming, height: 100 }
}

fn t(id: AlkaneId, value: u128) -> AlkaneTransfer {
    AlkaneTransfer { id, value }
}

fn seeded(a: u128, b: u128) -> AMMPool {
    let mut pool = AMMPool::new();
    pool.init_pool(&call(USER, vec![t(A, a), t(B, b)]), A, B, FACTORY, a, b).unwrap();
    pool
}

#[test]
fn first_deposit_mints_the_root_less_the_minimum() {
    let mut pool = AMMPool::new();
    let response = pool
        .init_pool(&call(USER, vec![t(A, 1_000_000), t(B, 1_000_000)]), A, B, FACTORY, 1_000_000, 1_000_000)
        .unwrap();
    assert_eq!(response.alkanes, vec![t(POOL, 999_000)]);
    assert!(response.data.is_empty());
    assert_eq!(pool.total_supply(), 1_000_000);
    assert_eq!(pool.total_supply() - 999_000, MINIMUM_LIQUIDITY);
    assert_eq!(pool.k_last(), 1_000_000_000_000);
    assert_eq!(pool.claimable_fees(), 0);
    assert_eq!(pool.factory(), FACTORY);
    assert_eq!(pool.alkanes_for_self(), Ok((A, B)));
    assert_eq!(pool.lock.get_lock(), 0);
}

#[test]
fn first_deposit_of_unequal_amounts() {
    let mut pool = AMMPool::new();
    let response = pool
        .init_pool(&call(USER, vec![t(A, 4_000_000), t(B, 9_000_000)]), A, B, FACTORY, 4_000_000, 9_000_000)
        .unwrap();
    assert_eq!(response.alkanes, vec![t(POOL, 6_000_000 - 1000)]);
}

#[test]
fn the_pair_is_recorded_in_canonical_order() {
    let mut pool = AMMPool::new();
    pool.init_pool(&call(USER, vec![t(B, 5_000_000), t(A, 2_000_000)]), B, A, FACTORY, 2_000_000, 5_000_000)
        .unwrap();
    assert_eq!(pool.alkanes_for_self(), Ok((A, B)));
    assert_eq!(pool.k_last(), 10_000_000_000_000);
}

#[test]
fn a_pool_is_initialized_once() {
    let mut pool = seeded(1_000_000, 1_000_000);
    let again = pool.init_pool(&call(USER, vec![t(A, 5), t(B, 5)]), A, B, FACTORY, 1_000_005, 1_000_005);
    assert_eq!(again.err(), Some(AmmError::AlreadyInitialized));
    assert_eq!(pool.total_supply(), 1_000_000);
}

#[test]
fn a_pool_needs_two_different_assets() {
    let mut pool = AMMPool::new();
    let r = pool.init_pool(&call(USER, vec![t(A, 5_000)]), A, A, FACTORY, 5_000, 5_000);
    assert_eq!(r.err(), Some(AmmError::IdenticalTokens));
    assert_eq!(pool.alkanes_for_self(), Err(AmmError::Uninitialized));
}

#[test]
fn a_failed_first_deposit_leaves_the_pool_uninitialized() {
    let mut pool = AMMPool::new();
    // the root of 999 * 999 is below the minimum liquidity
    let r = pool.init_pool(&call(USER, vec![t(A, 999), t(B, 999)]), A, B, FACTORY, 999, 999);
    assert_eq!(r.err(), Some(AmmError::Overflow));
    assert_eq!(pool.alkanes_for_self(), Err(AmmError::Uninitialized));
    assert_eq!(pool.total_supply(), 0);
    assert_eq!(pool.k_last(), 0);
}

#[test]
fn a_first_deposit_that_mints_nothing_is_rejected() {
    let mut pool = AMMPool::new();
    let r = pool.init_pool(&call(USER, vec![t(A, 1000), t(B, 1000)]), A, B, FACTORY, 1000, 1000);
    assert_eq!(r.err(), Some(AmmError::InsufficientLiquidityMinted));
    assert_eq!(pool.total_supply(), 0);
}

#[test]
fn a_later_deposit_mints_in_proportion() {
    let mut pool = seeded(1_000_000, 1_000_000);
    let response = pool
        .add_liquidity(&call(USER, vec![t(A, 500_000), t(B, 500_000)]), 1_500_000, 1_500_000)
        .unwrap();
    assert_eq!(response.alkanes, vec![t(POOL, 500_000)]);
    assert_eq!(pool.total_supply(), 1_500_000);
    assert_eq!(pool.k_last(), 1_500_000u128 * 1_500_000);
}

#[test]
fn a_lopsided_deposit_mints_by_the_smaller_side() {
    let mut pool = seeded(1_000_000, 1_000_000);
    let response = pool
        .add_liquidity(&call(USER, vec![t(A, 500_000), t(B, 100_000)]), 1_500_000, 1_100_000)
        .unwrap();
    assert_eq!(response.alkanes, vec![t(POOL, 100_000)]);
}

#[test]
fn a_deposit_split_over_two_entries_of_one_asset_counts_whole() {
    let mut pool = seeded(1_000_000, 1_000_000);
    let r = pool.add_liquidity(&call(USER, vec![t(A, 100_000), t(A, 100_000)]), 1_200_000, 1_000_000);
    // nothing of the second asset: nothing is minted
    assert_eq!(r.err(), Some(AmmError::InsufficientLiquidityMinted));
}

#[test]
fn a_deposit_of_a_foreign_asset_is_rejected() {
    let mut pool = seeded(1_000_000, 1_000_000);
    let r = pool.add_liquidity(&call(USER, vec![t(A, 10), t(C, 10)]), 1_000_010, 1_000_000);
    assert_eq!(r.err(), Some(AmmError::UnsupportedAsset));
}

#[test]
fn a_deposit_of_the_pools_own_token_is_rejected() {
    let mut pool = seeded(1_000_000, 1_000_000);
    let r = pool.add_liquidity(&call(USER, vec![t(POOL, 10)]), 1_000_000, 1_000_000);
    assert_eq!(r.err(), Some(AmmError::UnsupportedAsset));
}

#[test]
fn a_deposit_of_three_entries_is_rejected() {
    let mut pool = seeded(1_000_000, 1_000_000);
    let r = pool.add_liquidity(&call(USER, vec![t(A, 1), t(B, 1), t(A, 1)]), 1_000_002, 1_000_001);
    assert_eq!(r.err(), Some(AmmError::TooManyAssets));
}

#[test]
fn an_empty_deposit_mints_nothing() {
    let mut pool = seeded(1_000_000, 1_000_000);
    let r = pool.add_liquidity(&call(USER, vec![]), 1_000_000, 1_000_000);
    assert_eq!(r.err(), Some(AmmError::InsufficientLiquidityMinted));
    assert_eq!(pool.total_supply(), 1_000_000);
}

#[test]
fn a_deposit_into_an_uninitialized_pool_is_rejected() {
    let mut pool = AMMPool::new();
    let r = pool.add_liquidity(&call(USER, vec![t(A, 10), t(B, 10)]), 10, 10);
    assert_eq!(r.err(), Some(AmmError::Uninitialized));
}

#[test]
fn a_deposit_larger_than_the_balance_is_rejected() {
    let mut pool = seeded(1_000_000, 1_000_000);
    let r = pool.add_liquidity(&call(USER, vec![t(A, 2_000_000), t(B, 5)]), 1_000_000, 1_000_005);
    assert_eq!(r.err(), Some(AmmError::Overflow));
}

#[test]
fn a_deposit_whose_entries_overflow_is_rejected() {
    let mut pool = seeded(1_000_000, 1_000_000);
    let r = pool.add_liquidity(&call(USER, vec![t(A, u128::MAX), t(A, 1)]), u128::MAX, 1_000_000);
    assert_eq!(r.err(), Some(AmmError::Overflow));
}

#[test]
fn the_product_of_the_balances_must_fit() {
    let mut pool = AMMPool::new();
    let big = 1u128 << 64;
    // the deposits multiply to less than 2^128, the balances do not
    let r = pool.init_pool(&call(USER, vec![t(A, 1 << 40), t(B, 1 << 40)]), A, B, FACTORY, big, big);
    assert_eq!(r.err(), Some(AmmError::Overflow));
    assert_eq!(pool.alkanes_for_self(), Err(AmmError::Uninitialized));
}

#[test]
fn growth_of_the_reserves_mints_the_protocol_fee() {
    let mut pool = seeded(1_000_000, 1_000_000);
    // trading has grown the reserve of the first asset to 1_100_000
    let response = pool
        .add_liquidity(&call(USER, vec![t(A, 110_000), t(B, 100_000)]), 1_210_000, 1_100_000)
        .unwrap();
    // root_k = 1_048_808, root_k_last = 1_000_000:
    // fee = 1_000_000 * 48_808 / (1_048_808 * 3 / 2 + 1_000_000) = 18_967
    assert_eq!(pool.claimable_fees(), 18_967);
    assert_eq!(response.alkanes, vec![t(POOL, 101_896)]);
    assert_eq!(pool.total_supply(), 1_120_863);
    assert_eq!(pool.k_last(), 1_331_000_000_000);
}

#[test]
fn mint_fee_does_nothing_before_the_first_deposit() {
    let mut pool = AMMPool::new();
    assert_eq!(pool._mint_fee(5_000_000, 5_000_000), Ok(()));
    assert_eq!(pool.total_supply(), 0);
    assert_eq!(pool.claimable_fees(), 0);
}

#[test]
fn mint_fee_does_nothing_without_growth() {
    let mut pool = seeded(1_000_000, 1_000_000);
    assert_eq!(pool._mint_fee(1_000_000, 1_000_000), Ok(()));
    assert_eq!(pool._mint_fee(900_000, 1_000_000), Ok(()));
    assert_eq!(pool.total_supply(), 1_000_000);
    assert_eq!(pool.claimable_fees(), 0);
}

#[test]
fn mint_fee_rejects_a_product_that_does_not_fit() {
    let mut pool = seeded(1_000_000, 1_000_000);
    assert_eq!(pool._mint_fee(1 << 64, 1 << 64), Err(AmmError::Overflow));
    assert_eq!(pool.total_supply(), 1_000_000);
}

#[test]
fn burning_pays_the_share_of_the_reserves() {
    let mut pool = seeded(1_000_000, 1_000_000);
    let response = pool.burn(&call(USER, vec![t(POOL, 250_000)]), 1_000_000, 1_000_000).unwrap();
    assert_eq!(response.alkanes, vec![t(A, 250_000), t(B, 250_000)]);
    assert_eq!(pool.total_supply(), 750_000);
    assert_eq!(pool.k_last(), 750_000u128 * 750_000);
}

#[test]
fn burning_rounds_down() {
    let mut pool = seeded(1_000_000, 4_000_000);
    // supply 2_000_000; 3 * 1_000_000 / 2_000_000 = 1, 3 * 4_000_000 / 2_000_000 = 6
    let response = pool.burn(&call(USER, vec![t(POOL, 3)]), 1_000_000, 4_000_000).unwrap();
    assert_eq!(response.alkanes, vec![t(A, 1), t(B, 6)]);
    assert_eq!(pool.total_supply(), 1_999_997);
}

#[test]
fn burning_too_little_is_rejected() {
    let mut pool = seeded(1_000_000, 4_000_000);
    let r = pool.burn(&call(USER, vec![t(POOL, 1)]), 1_000_000, 4_000_000);
    assert_eq!(r.err(), Some(AmmError::InsufficientLiquidityBurned));
    assert_eq!(pool.total_supply(), 2_000_000);
}

#[test]
fn burning_nothing_is_rejected() {
    let mut pool = seeded(1_000_000, 1_000_000);
    let r = pool.burn(&call(USER, vec![]), 1_000_000, 1_000_000);
    assert_eq!(r.err(), Some(AmmError::InsufficientLiquidityBurned));
}

#[test]
fn burning_another_asset_is_rejected() {
    let mut pool = seeded(1_000_000, 1_000_000);
    let r = pool.burn(&call(USER, vec![t(A, 100)]), 1_000_100, 1_000_000);
    assert_eq!(r.err(), Some(AmmError::UnsupportedAsset));
    let r = pool.burn(&call(USER, vec![t(C, 100)]), 1_000_000, 1_000_000);
    assert_eq!(r.err(), Some(AmmError::UnsupportedAsset));
}

#[test]
fn burning_two_entries_is_rejected() {
    let mut pool = seeded(1_000_000, 1_000_000);
    let r = pool.burn(&call(USER, vec![t(POOL, 100), t(POOL, 100)]), 1_000_000, 1_000_000);
    assert_eq!(r.err(), Some(AmmError::TooManyAssets));
}

#[test]
fn burning_more_than_the_supply_is_rejected() {
    let mut pool = seeded(1_000_000, 1_000_000);
    let r = pool.burn(&call(USER, vec![t(POOL, 1_000_001)]), 1_000_000, 1_000_000);
    assert_eq!(r.err(), Some(AmmError::Overflow));
    assert_eq!(pool.total_supply(), 1_000_000);
}

#[test]
fn adding_and_burning_at_once_returns_no_more_than_was_added() {
    let mut pool = seeded(1_000_000, 3_000_000);
    let minted = pool
        .add_liquidity(&call(USER, vec![t(A, 333_333), t(B, 1_000_001)]), 1_333_333, 4_000_001)
        .unwrap()
        .alkanes[0];
    let paid = pool.burn(&call(USER, vec![minted]), 1_333_333, 4_000_001).unwrap().alkanes;
    assert_eq!(paid[0].id, A);
    assert_eq!(paid[1].id, B);
    assert!(paid[0].value <= 333_333);
    assert!(paid[1].value <= 1_000_001);
    assert_eq!(paid[0].value, 333_332);
    assert_eq!(paid[1].value, 999_998);
}

#[test]
fn the_first_deposit_comes_back_short_of_the_minimum() {
    let mut pool = AMMPool::new();
    let minted = pool
        .init_pool(&call(USER, vec![t(A, 1_000_000), t(B, 1_000_000)]), A, B, FACTORY, 1_000_000, 1_000_000)
        .unwrap()
        .alkanes[0];
    let paid = pool.burn(&call(USER, vec![minted]), 1_000_000, 1_000_000).unwrap().alkanes;
    assert_eq!(paid, vec![t(A, 999_000), t(B, 999_000)]);
    assert_eq!(pool.total_supply(), MINIMUM_LIQUIDITY);
}

#[test]
fn only_the_factory_collects_fees() {
    let mut pool = seeded(1_000_000, 1_000_000);
    let r = pool.collect_fees(&call(USER, vec![]), 1_100_000, 1_000_000);
    assert_eq!(r.err(), Some(AmmError::NotFactory));
    assert_eq!(pool.claimable_fees(), 0);
    assert_eq!(pool.k_last(), 1_000_000_000_000);
}

#[test]
fn collecting_pays_the_fees_and_empties_the_bucket() {
    let mut pool = seeded(1_000_000, 1_000_000);
    let response = pool.collect_fees(&call(FACTORY, vec![t(C, 1)]), 1_100_000, 1_000_000).unwrap();
    assert_eq!(response.alkanes, vec![t(C, 1), t(POOL, 18_967)]);
    assert_eq!(pool.claimable_fees(), 0);
    assert_eq!(pool.total_supply(), 1_018_967);
    assert_eq!(pool.k_last(), 1_100_000_000_000);
}

#[test]
fn the_supply_is_the_sum_of_what_was_handed_out() {
    // holders, the unassignable minimum and the fee bucket add up to the supply
    let mut pool = AMMPool::new();
    let mut held: u128 = 0;
    held += pool
        .init_pool(&call(USER, vec![t(A, 1_000_000), t(B, 1_000_000)]), A, B, FACTORY, 1_000_000, 1_000_000)
        .unwrap()
        .alkanes[0]
        .value;
    assert_eq!(held + MINIMUM_LIQUIDITY + pool.claimable_fees(), pool.total_supply());
    held += pool
        .add_liquidity(&call(USER, vec![t(A, 110_000), t(B, 100_000)]), 1_210_000, 1_100_000)
        .unwrap()
        .alkanes[0]
        .value;
    assert_eq!(held + MINIMUM_LIQUIDITY + pool.claimable_fees(), pool.total_supply());
    pool.burn(&call(USER, vec![t(POOL, 50_000)]), 1_210_000, 1_100_000).unwrap();
    held -= 50_000;
    assert_eq!(held + MINIMUM_LIQUIDITY + pool.claimable_fees(), pool.total_supply());
    let rejected = pool.add_liquidity(&call(USER, vec![t(C, 5)]), 1_000_000, 1_000_000);
    assert!(rejected.is_err());
    assert_eq!(held + MINIMUM_LIQUIDITY + pool.claimable_fees(), pool.total_supply());
    let collected = pool.collect_fees(&call(FACTORY, vec![]), 1_200_000, 1_090_000).unwrap();
    held += collected.alkanes[0].value;
    assert_eq!(pool.claimable_fees(), 0);
    assert_eq!(held + MINIMUM_LIQUIDITY, pool.total_supply());
}

#[test]
fn check_inputs_counts_and_looks_at_every_entry() {
    let pool = seeded(1_000_000, 1_000_000);
    assert_eq!(pool.check_inputs(&POOL, &vec![t(A, 1), t(B, 1)], 2), Ok(()));
    assert_eq!(pool.check_inputs(&POOL, &vec![t(POOL, 1)], 1), Ok(()));
    assert_eq!(pool.check_inputs(&POOL, &vec![t(A, 1), t(B, 1)], 1), Err(AmmError::TooManyAssets));
    assert_eq!(pool.check_inputs(&POOL, &vec![t(A, 1), t(C, 1)], 2), Err(AmmError::UnsupportedAsset));
    assert_eq!(AMMPool::new().check_inputs(&POOL, &vec![], 2), Err(AmmError::Uninitialized));
}

#[test]
fn previous_reserves_leave_out_the_deposit() {
    let pool = seeded(1_000_000, 1_000_000);
    let previous = pool.previous_reserves(1_000_500, 1_000_000, &vec![t(A, 200), t(C, 9), t(A, 300)]).unwrap();
    assert_eq!((previous.a, previous.b), (1_000_000, 1_000_000));
    assert_eq!(pool.previous_reserves(100, 100, &vec![t(B, 101)]).err(), Some(AmmError::Overflow));
    assert_eq!(
        pool.previous_reserves(100, 100, &vec![t(C, u128::MAX), t(C, 1)]).err(),
        Some(AmmError::Overflow)
    );
}

#[test]
fn reserves_pair_the_balances_with_the_assets() {
    let pool = seeded(1_000_000, 2_000_000);
    assert_eq!(pool.reserves(7, 8), Ok((t(A, 7), t(B, 8))));
    assert_eq!(AMMPool::new().reserves(7, 8), Err(AmmError::Uninitialized));
}

#[test]
fn setters_set() {
    let mut pool = seeded(1_000_000, 1_000_000);
    pool.set_k_last(5);
    pool.set_claimable_fees(6);
    pool.set_factory(USER);
    assert_eq!(pool.k_last(), 5);
    assert_eq!(pool.claimable_fees(), 6);
    assert_eq!(pool.factory(), USER);
    assert_eq!(pool._only_factory_caller(&USER), Ok(()));
    assert_eq!(pool._only_factory_caller(&FACTORY), Err(AmmError::NotFactory));
}

#[test]
fn pull_ids_takes_four_numbers() {
    let mut v = vec![2u128, 1, 2, 2, 77];
    assert_eq!(AMMPool::pull_ids(&mut v), Some((A, B)));
    assert_eq!(v, vec![77]);
    assert_eq!(AMMPool::pull_ids(&mut v), None);
    assert!(v.is_empty());
    let mut short = vec![1u128, 2, 3];
    assert_eq!(AMMPool::pull_ids_or_err(&mut short), Err(AmmError::Malformed));
    let mut enough = vec![2u128, 1, 2, 3];
    assert_eq!(AMMPool::pull_ids_or_err(&mut enough), Ok((A, C)));
}
