use oylswap::error::AmmError;
use oylswap::factory::AMMFactory;
use oylswap::id::AlkaneId;
use oylswap::parcel::{AlkaneTransfer, Context};
use oylswap::route::{get_amounts_in, get_amounts_out, Hop};

const A: AlkaneId = AlkaneId { block: 2, tx: 1 };
const B: AlkaneId = AlkaneId { block: 2, tx: 2 };
const C: AlkaneId = AlkaneId { block: 2, tx: 3 };
const FACTORY: AlkaneId = AlkaneId { block: 2, tx: 20 };
const AUTH: AlkaneId = AlkaneId { block: 2, tx: 21 };
const USER: AlkaneId = AlkaneId { block: 2, tx: 30 };
const POOL_AB: AlkaneId = AlkaneId { block: 2, tx: 77 };
const POOL_BC: AlkaneId = AlkaneId { block: 2, tx: 78 };

fn call(height: u64) -> Context {
    Context { myself: FACTORY, caller: USER, incoming_alkanes: vec![], height }
}

fn t(id: AlkaneId, value: u128) -> AlkaneTransfer {
    AlkaneTransfer { id, value }
}

fn hops(reserves: &[(u128, u128)]) -> Vec<Hop> {
    reserves.iter().map(|r| Hop { reserve_in: r.0, reserve_out: r.1, fee_per_1000: 5 }).collect()
}

fn two_pools() -> AMMFactory {
    let mut factory = AMMFactory::new();
    factory.init_factory(&call(1), 0xffee, t(AUTH, 1)).unwrap();
    factory.create_new_pool(&call(1), A, B, 5, 5, 77).unwrap();
    factory.create_new_pool(&call(1), C, B, 5, 5, 78).unwrap();
    factory
}

#[test]
fn amounts_out_chain_the_quotes() {
    let reserves = [(500_000, 500_000), (1_000_000, 2_000_000)];
    assert_eq!(get_amounts_out(10_000, &vec![A, B, C], &hops(&reserves)), Ok(vec![10_000, 9755, 19_225]));
    assert_eq!(get_amounts_out(10_000, &vec![A, B], &hops(&[(500_000, 500_000)])), Ok(vec![10_000, 9755]));
}

#[test]
fn amounts_in_chain_the_quotes_backwards() {
    let reserves = [(500_000, 500_000), (1_000_000, 2_000_000)];
    assert_eq!(get_amounts_in(19_000, &vec![A, B, C], &hops(&reserves)), Ok(vec![9879, 9640, 19_000]));
}

#[test]
fn the_amounts_in_buy_at_least_the_amount_asked_for() {
    let reserves = [(500_000, 500_000), (1_000_000, 2_000_000)];
    let needed = get_amounts_in(19_000, &vec![A, B, C], &hops(&reserves)).unwrap();
    let bought = get_amounts_out(needed[0], &vec![A, B, C], &hops(&reserves)).unwrap();
    assert!(bought[2] >= 19_000);
}

#[test]
fn a_path_needs_two_assets() {
    assert_eq!(get_amounts_out(5, &vec![A], &vec![]), Err(AmmError::PathTooShort));
    assert_eq!(get_amounts_out(5, &vec![], &vec![]), Err(AmmError::PathTooShort));
    assert_eq!(get_amounts_in(5, &vec![A], &vec![]), Err(AmmError::PathTooShort));
}

#[test]
fn a_path_needs_reserves_for_every_hop() {
    assert_eq!(get_amounts_out(5, &vec![A, B, C], &hops(&[(1, 1)])), Err(AmmError::Malformed));
    assert_eq!(get_amounts_in(5, &vec![A, B], &hops(&[(1, 1), (2, 2)])), Err(AmmError::Malformed));
}

#[test]
fn a_hop_that_cannot_be_quoted_fails_the_path() {
    let reserves = [(500_000, 500_000), (0, 0)];
    assert_eq!(get_amounts_out(0, &vec![A, B, C], &hops(&reserves)), Err(AmmError::InsufficientLiquidity));
    let reserves = [(500_000, 500_000), (1_000_000, 2_000_000)];
    assert_eq!(get_amounts_in(2_000_000, &vec![A, B, C], &hops(&reserves)), Err(AmmError::InsufficientLiquidity));
    assert_eq!(get_amounts_in(0, &vec![A, B, C], &hops(&reserves)), Err(AmmError::InsufficientOutputAmount));
    // the second hop can be served, the first cannot
    let reserves = [(500_000, 9000), (1_000_000, 2_000_000)];
    assert_eq!(get_amounts_in(19_000, &vec![A, B, C], &hops(&reserves)), Err(AmmError::InsufficientLiquidity));
}

#[test]
fn the_swaps_of_a_path_are_planned_hop_by_hop() {
    let factory = two_pools();
    let calls = factory._swap(&vec![10_000, 9755, 19_225], &vec![A, B, C], USER).unwrap();
    assert_eq!(calls.len(), 2);
    // A is the smaller asset of the first pool: the hop is paid in the larger
    assert_eq!(calls[0].cellpack.target, POOL_AB);
    assert_eq!(calls[0].cellpack.inputs, vec![3, 0, 9755, USER.block, USER.tx, 0]);
    assert_eq!(calls[0].alkanes, vec![t(A, 10_000)]);
    // B is the smaller asset of the second pool as well
    assert_eq!(calls[1].cellpack.target, POOL_BC);
    assert_eq!(calls[1].cellpack.inputs, vec![3, 0, 19_225, USER.block, USER.tx, 0]);
    assert_eq!(calls[1].alkanes, vec![t(B, 9755)]);

    let back = factory._swap(&vec![7, 8, 9], &vec![C, B, A], USER).unwrap();
    assert_eq!(back[0].cellpack.target, POOL_BC);
    assert_eq!(back[0].cellpack.inputs, vec![3, 8, 0, USER.block, USER.tx, 0]);
    assert_eq!(back[0].alkanes, vec![t(C, 7)]);
    assert_eq!(back[1].cellpack.target, POOL_AB);
    assert_eq!(back[1].cellpack.inputs, vec![3, 9, 0, USER.block, USER.tx, 0]);
    assert_eq!(back[1].alkanes, vec![t(B, 8)]);
}

#[test]
fn planning_needs_an_amount_for_every_asset_and_a_pool_for_every_hop() {
    let factory = two_pools();
    assert_eq!(factory._swap(&vec![1, 2], &vec![A, B, C], USER).err(), Some(AmmError::Malformed));
    assert_eq!(factory._swap(&vec![1, 2], &vec![A, C], USER).err(), Some(AmmError::PoolNotFound));
    assert_eq!(factory._swap(&vec![], &vec![], USER).unwrap().len(), 0);
    assert_eq!(factory._swap(&vec![5], &vec![A], USER).unwrap().len(), 0);
}

#[test]
fn an_exact_input_is_swapped_along_a_path() {
    let factory = two_pools();
    let reserves = vec![(500_000, 500_000), (1_000_000, 2_000_000)];
    let calls = factory
        .swap_exact_tokens_for_tokens(&call(50), 10_000, &vec![A, B, C], 19_225, 50, &reserves)
        .unwrap();
    assert_eq!(calls.len(), 2);
    assert_eq!(calls[0].alkanes, vec![t(A, 10_000)]);
    assert_eq!(calls[1].cellpack.inputs, vec![3, 0, 19_225, USER.block, USER.tx, 0]);
}

#[test]
fn an_exact_input_respects_minimum_deadline_and_path() {
    let factory = two_pools();
    let reserves = vec![(500_000, 500_000), (1_000_000, 2_000_000)];
    let path = vec![A, B, C];
    let r = factory.swap_exact_tokens_for_tokens(&call(50), 10_000, &path, 19_226, 50, &reserves);
    assert_eq!(r.err(), Some(AmmError::InsufficientOutputAmount));
    let r = factory.swap_exact_tokens_for_tokens(&call(51), 10_000, &path, 0, 50, &reserves);
    assert_eq!(r.err(), Some(AmmError::Expired));
    let r = factory.swap_exact_tokens_for_tokens(&call(50), 10_000, &vec![A], 0, 50, &vec![]);
    assert_eq!(r.err(), Some(AmmError::PathTooShort));
    let r = factory.swap_exact_tokens_for_tokens(&call(50), 10_000, &vec![A, C], 0, 50, &vec![(5, 5)]);
    assert_eq!(r.err(), Some(AmmError::PoolNotFound));
    // an expired call is rejected before anything else is looked at
    let r = factory.swap_exact_tokens_for_tokens(&call(51), 10_000, &vec![], 0, 50, &vec![]);
    assert_eq!(r.err(), Some(AmmError::Expired));
}

#[test]
fn an_exact_output_is_swapped_along_a_path() {
    let factory = two_pools();
    let reserves = vec![(500_000, 500_000), (1_000_000, 2_000_000)];
    let calls = factory
        .swap_tokens_for_exact_tokens(&call(50), &vec![A, B, C], 19_000, 9879, 50, &reserves)
        .unwrap();
    assert_eq!(calls[0].alkanes, vec![t(A, 9879)]);
    assert_eq!(calls[0].cellpack.inputs, vec![3, 0, 9640, USER.block, USER.tx, 0]);
    assert_eq!(calls[1].alkanes, vec![t(B, 9640)]);
    assert_eq!(calls[1].cellpack.inputs, vec![3, 0, 19_000, USER.block, USER.tx, 0]);
}

#[test]
fn an_exact_output_respects_maximum_and_deadline() {
    let factory = two_pools();
    let reserves = vec![(500_000, 500_000), (1_000_000, 2_000_000)];
    let path = vec![A, B, C];
    let r = factory.swap_tokens_for_exact_tokens(&call(50), &path, 19_000, 9878, 50, &reserves);
    assert_eq!(r.err(), Some(AmmError::ExcessiveInputAmount));
    let r = factory.swap_tokens_for_exact_tokens(&call(51), &path, 19_000, u128::MAX, 50, &reserves);
    assert_eq!(r.err(), Some(AmmError::Expired));
    let r = factory.swap_tokens_for_exact_tokens(&call(50), &vec![C], 19_000, u128::MAX, 50, &vec![]);
    assert_eq!(r.err(), Some(AmmError::PathTooShort));
}

#[test]
fn each_hop_is_priced_at_the_fee_of_its_pool() {
    let owner = Context { myself: FACTORY, caller: USER, incoming_alkanes: vec![t(AUTH, 1)], height: 1 };
    let mut factory = two_pools();
    factory.set_pool_fee(&owner, POOL_BC, 30).unwrap();
    let reserves = vec![(500_000, 500_000), (1_000_000, 2_000_000)];
    let priced = factory.hops(&vec![A, B, C], &reserves).unwrap();
    assert_eq!(
        priced,
        vec![
            Hop { reserve_in: 500_000, reserve_out: 500_000, fee_per_1000: 5 },
            Hop { reserve_in: 1_000_000, reserve_out: 2_000_000, fee_per_1000: 30 },
        ]
    );
    // 9755 * 970 * 2000000 / (1000000 * 1000 + 9755 * 970)
    assert_eq!(get_amounts_out(10_000, &vec![A, B, C], &priced), Ok(vec![10_000, 9755, 18_747]));
    let calls = factory
        .swap_exact_tokens_for_tokens(&call(50), 10_000, &vec![A, B, C], 18_747, 50, &reserves)
        .unwrap();
    assert_eq!(calls[1].cellpack.inputs, vec![3, 0, 18_747, USER.block, USER.tx, 0]);
    let r = factory.swap_exact_tokens_for_tokens(&call(50), 10_000, &vec![A, B, C], 18_748, 50, &reserves);
    assert_eq!(r.err(), Some(AmmError::InsufficientOutputAmount));
}

#[test]
fn hops_need_a_path_reserves_and_pools() {
    let factory = two_pools();
    assert_eq!(factory.hops(&vec![A], &vec![]).err(), Some(AmmError::PathTooShort));
    assert_eq!(factory.hops(&vec![A, B], &vec![]).err(), Some(AmmError::Malformed));
    assert_eq!(factory.hops(&vec![A, C], &vec![(1, 1)]).err(), Some(AmmError::PoolNotFound));
}
