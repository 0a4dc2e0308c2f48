use oylswap::error::AmmError;
use oylswap::factory::{
    check_burn_result, compute_optimal_amounts, insert_id, leftover_ids, parse_reserves, query,
    AMMFactory, _get_pool_info, _get_reserves, _get_reserves_ordered, _return_leftovers,
};
use oylswap::id::AlkaneId;
use oylswap::parcel::{AlkaneTransfer, CallResponse, Context};

const A: AlkaneId = AlkaneId { block: 2, tx: 1 };
const B: AlkaneId = AlkaneId { block: 2, tx: 2 };
const C: AlkaneId = AlkaneId { block: 2, tx: 3 };
const FACTORY: AlkaneId = AlkaneId { block: 2, tx: 20 };
const AUTH: AlkaneId = AlkaneId { block: 2, tx: 21 };
const USER: AlkaneId = AlkaneId { block: 2, tx: 30 };

fn call(incoming: Vec<AlkaneTransfer>, height: u64) -> Context {
    Context { myself: FACTORY, caller: USER, incoming_alkanes: incoming, height }
}

fn t(id: AlkaneId, value: u128) -> AlkaneTransfer {
    AlkaneTransfer { id, value }
}

fn ready() -> AMMFactory {
    let mut factory = AMMFactory::new();
    factory.init_factory(&call(vec![], 1), 0xffee, t(AUTH, 5)).unwrap();
    factory
}

#[test]
fn a_factory_is_initialized_once() {
    let mut factory = AMMFactory::new();
    assert_eq!(factory.pool_id(), Err(AmmError::Uninitialized));
    let response = factory.init_factory(&call(vec![t(C, 1)], 1), 0xffee, t(AUTH, 5)).unwrap();
    assert_eq!(response.alkanes, vec![t(C, 1), t(AUTH, 5)]);
    assert_eq!(factory.pool_id(), Ok(0xffee));
    let again = factory.init_factory(&call(vec![], 1), 7, t(C, 1));
    assert_eq!(again.err(), Some(AmmError::AlreadyInitialized));
    assert_eq!(factory.pool_id(), Ok(0xffee));
    assert_eq!(factory.auth_token, AUTH);
}

#[test]
fn creating_a_pool_registers_it_and_plans_its_initialization() {
    let mut factory = ready();
    let planned = factory.create_new_pool(&call(vec![], 1), B, A, 1_000_000, 2_000_000, 77).unwrap();
    let pool = AlkaneId { block: 2, tx: 77 };
    assert_eq!(planned.cellpack.target, AlkaneId { block: 6, tx: 0xffee });
    assert_eq!(planned.cellpack.inputs, vec![0, A.block, A.tx, B.block, B.tx, FACTORY.block, FACTORY.tx]);
    assert_eq!(planned.alkanes, vec![t(B, 1_000_000), t(A, 2_000_000)]);
    assert_eq!(factory._find_existing_pool_id(A, B), Ok(pool));
    assert_eq!(factory._find_existing_pool_id(B, A), Ok(pool));
    assert_eq!(factory.all_pools_length(), 1);
    assert_eq!(factory.all_pools(0), Ok(pool));
}

#[test]
fn a_pair_gets_one_pool_whichever_way_round() {
    let mut factory = ready();
    factory.create_new_pool(&call(vec![], 1), A, B, 1_000_000, 1_000_000, 77).unwrap();
    let again = factory.create_new_pool(&call(vec![], 1), A, B, 5, 5, 78);
    assert_eq!(again.err(), Some(AmmError::PoolAlreadyExists));
    let swapped = factory.create_new_pool(&call(vec![], 1), B, A, 5, 5, 79);
    assert_eq!(swapped.err(), Some(AmmError::PoolAlreadyExists));
    assert_eq!(factory.all_pools_length(), 1);
    assert_eq!(factory._find_existing_pool_id(B, A), Ok(AlkaneId { block: 2, tx: 77 }));
}

#[test]
fn creating_a_pool_checks_its_inputs() {
    let mut factory = ready();
    let r = factory.create_new_pool(&call(vec![], 1), A, A, 5, 5, 77);
    assert_eq!(r.err(), Some(AmmError::IdenticalTokens));
    let r = factory.create_new_pool(&call(vec![], 1), A, B, 0, 5, 77);
    assert_eq!(r.err(), Some(AmmError::ZeroAmount));
    let r = factory.create_new_pool(&call(vec![], 1), A, B, 5, 0, 77);
    assert_eq!(r.err(), Some(AmmError::ZeroAmount));
    assert_eq!(factory.all_pools_length(), 0);
    let mut raw = AMMFactory::new();
    let r = raw.create_new_pool(&call(vec![], 1), A, B, 5, 5, 77);
    assert_eq!(r.err(), Some(AmmError::Uninitialized));
    assert_eq!(raw.all_pools_length(), 0);
}

#[test]
fn a_pair_without_a_pool_is_not_found() {
    let mut factory = ready();
    factory.create_new_pool(&call(vec![], 1), A, B, 5, 5, 77).unwrap();
    assert_eq!(factory._find_existing_pool_id(A, C), Err(AmmError::PoolNotFound));
    assert_eq!(factory.lookup(&C, &B), None);
    let r = factory.find_existing_pool_id(&call(vec![], 1), A, C);
    assert_eq!(r.err(), Some(AmmError::PoolNotFound));
    let found = factory.find_existing_pool_id(&call(vec![t(C, 1)], 1), B, A).unwrap();
    assert_eq!(found.alkanes, vec![t(C, 1)]);
    assert_eq!(found.data, AlkaneId { block: 2, tx: 77 }.to_bytes());
}

#[test]
fn pools_are_enumerated_in_the_order_of_creation() {
    let mut factory = ready();
    factory.create_new_pool(&call(vec![], 1), B, C, 5, 5, 90).unwrap();
    factory.create_new_pool(&call(vec![], 1), A, B, 5, 5, 80).unwrap();
    factory.create_new_pool(&call(vec![], 1), C, A, 5, 5, 85).unwrap();
    assert_eq!(factory.all_pools_length(), 3);
    assert_eq!(factory.all_pools(0), Ok(AlkaneId { block: 2, tx: 90 }));
    assert_eq!(factory.all_pools(1), Ok(AlkaneId { block: 2, tx: 80 }));
    assert_eq!(factory.all_pools(2), Ok(AlkaneId { block: 2, tx: 85 }));
    assert_eq!(factory.all_pools(3), Err(AmmError::PoolNotFound));
    assert_eq!(factory.all_pools(u128::MAX), Err(AmmError::PoolNotFound));

    let mut expected = 3u128.to_le_bytes().to_vec();
    for tx in [90u128, 80, 85] {
        expected.extend_from_slice(&2u128.to_le_bytes());
        expected.extend_from_slice(&tx.to_le_bytes());
    }
    let listed = factory.get_all_pools(&call(vec![t(C, 2)], 1));
    assert_eq!(listed.data, expected);
    assert_eq!(listed.alkanes, vec![t(C, 2)]);
    assert_eq!(factory.get_num_pools(&call(vec![], 1)).data, 3u128.to_le_bytes().to_vec());
}

#[test]
fn an_empty_registry_enumerates_to_its_count() {
    let factory = ready();
    assert_eq!(factory.get_all_pools(&call(vec![], 1)).data, 0u128.to_le_bytes().to_vec());
}

#[test]
fn the_owner_spends_the_auth_token() {
    let factory = ready();
    assert_eq!(factory.only_owner(&call(vec![t(C, 9), t(AUTH, 1)], 1)), Ok(()));
    assert_eq!(factory.only_owner(&call(vec![t(AUTH, 0)], 1)), Err(AmmError::NotOwner));
    assert_eq!(factory.only_owner(&call(vec![t(C, 9)], 1)), Err(AmmError::NotOwner));
    assert_eq!(factory.only_owner(&call(vec![], 1)), Err(AmmError::NotOwner));
    assert_eq!(factory._only_owner(Some(t(AUTH, 1))), Ok(()));
    assert_eq!(factory._only_owner(Some(t(AUTH, 0))), Err(AmmError::NotOwner));
    assert_eq!(factory._only_owner(None), Err(AmmError::NotOwner));
}

#[test]
fn pull_incoming_takes_the_first_transfer_of_the_own_token() {
    let factory = ready();
    let mut context = call(vec![t(C, 1), t(FACTORY, 2), t(FACTORY, 3)], 1);
    assert_eq!(factory._pull_incoming(&mut context), Some(t(FACTORY, 2)));
    assert_eq!(context.incoming_alkanes, vec![t(C, 1), t(FACTORY, 3)]);
    let mut none = call(vec![t(C, 1)], 1);
    assert_eq!(factory._pull_incoming(&mut none), None);
    assert_eq!(none.incoming_alkanes, vec![t(C, 1)]);
}

#[test]
fn only_the_owner_administers() {
    let mut factory = ready();
    let r = factory.set_pool_factory_id(&call(vec![], 1), 5);
    assert_eq!(r.err(), Some(AmmError::NotOwner));
    assert_eq!(factory.pool_id(), Ok(0xffee));
    let ok = factory.set_pool_factory_id(&call(vec![t(AUTH, 1)], 1), 5).unwrap();
    assert_eq!(ok.alkanes, vec![t(AUTH, 1)]);
    assert_eq!(factory.pool_id(), Ok(5));

    let pool = AlkaneId { block: 2, tx: 77 };
    assert_eq!(factory.collect_fees(&call(vec![], 1), pool).err(), Some(AmmError::NotOwner));
    let planned = factory.collect_fees(&call(vec![t(AUTH, 1)], 1), pool).unwrap();
    assert_eq!(planned.cellpack.target, pool);
    assert_eq!(planned.cellpack.inputs, vec![10]);
    assert_eq!(planned.alkanes, vec![t(AUTH, 1)]);
}

#[test]
fn a_deadline_before_the_height_expires() {
    let factory = ready();
    assert_eq!(factory._check_deadline(100, 99), Err(AmmError::Expired));
    assert_eq!(factory._check_deadline(100, 100), Ok(()));
    assert_eq!(factory._check_deadline(100, 101), Ok(()));
    assert_eq!(factory._check_deadline(1, 0), Err(AmmError::Expired));
    assert_eq!(factory._check_deadline(0, 0), Ok(()));
    assert_eq!(factory._check_deadline(u64::MAX, u128::MAX), Ok(()));
}

#[test]
fn deposits_are_matched_to_the_ratio_of_the_reserves() {
    assert_eq!(compute_optimal_amounts(1000, 5000, 0, 0, 0, 0), Ok((1000, 5000)));
    // 1000 * 400 / 100 = 4000 of the second asset goes with all of the first
    assert_eq!(compute_optimal_amounts(1000, 5000, 0, 0, 100, 400), Ok((1000, 4000)));
    // 3000 * 100 / 400 = 750 of the first asset goes with all of the second
    assert_eq!(compute_optimal_amounts(1000, 3000, 0, 0, 100, 400), Ok((750, 3000)));
    assert_eq!(compute_optimal_amounts(1000, 5000, 0, 4001, 100, 400), Err(AmmError::InsufficientBAmount));
    assert_eq!(compute_optimal_amounts(1000, 5000, 0, 4000, 100, 400), Ok((1000, 4000)));
    assert_eq!(compute_optimal_amounts(1000, 3000, 751, 0, 100, 400), Err(AmmError::InsufficientAAmount));
    assert_eq!(compute_optimal_amounts(1000, 3000, 750, 0, 100, 400), Ok((750, 3000)));
    assert_eq!(compute_optimal_amounts(1000, 3000, 0, 0, 0, 400), Err(AmmError::InsufficientLiquidity));
    assert_eq!(compute_optimal_amounts(u128::MAX, 3000, 0, 0, 1, 2), Err(AmmError::Overflow));
    // the product needs more than 128 bits, the quotient does not
    assert_eq!(compute_optimal_amounts(1 << 100, 1 << 101, 0, 0, 1 << 90, 1 << 91), Ok((1 << 100, 1 << 101)));
}

#[test]
fn the_factory_plans_a_deposit() {
    let mut factory = ready();
    factory.create_new_pool(&call(vec![], 1), A, B, 5, 5, 77).unwrap();
    let pool = AlkaneId { block: 2, tx: 77 };
    let planned = factory.add_liquidity(&call(vec![], 50), A, B, 1000, 5000, 0, 0, 50, 100, 400).unwrap();
    assert_eq!(planned.cellpack.target, pool);
    assert_eq!(planned.cellpack.inputs, vec![1]);
    assert_eq!(planned.alkanes, vec![t(A, 1000), t(B, 4000)]);

    let late = factory.add_liquidity(&call(vec![], 51), A, B, 1000, 5000, 0, 0, 50, 100, 400);
    assert_eq!(late.err(), Some(AmmError::Expired));
    let turned = factory.add_liquidity(&call(vec![], 50), B, A, 1000, 5000, 0, 0, 50, 100, 400);
    assert_eq!(turned.err(), Some(AmmError::UnsortedPair));
    let missing = factory.add_liquidity(&call(vec![], 50), A, C, 1000, 5000, 0, 0, 50, 100, 400);
    assert_eq!(missing.err(), Some(AmmError::PoolNotFound));
    let short = factory.add_liquidity(&call(vec![], 50), A, B, 1000, 5000, 0, 4001, 50, 100, 400);
    assert_eq!(short.err(), Some(AmmError::InsufficientBAmount));
}

#[test]
fn the_factory_plans_a_burn() {
    let mut factory = ready();
    factory.create_new_pool(&call(vec![], 1), A, B, 5, 5, 77).unwrap();
    let pool = AlkaneId { block: 2, tx: 77 };
    let planned = factory.burn(&call(vec![], 50), B, A, 12345, 50).unwrap();
    assert_eq!(planned.cellpack.target, pool);
    assert_eq!(planned.cellpack.inputs, vec![2]);
    assert_eq!(planned.alkanes, vec![t(pool, 12345)]);
    assert_eq!(factory.burn(&call(vec![], 51), B, A, 12345, 50).err(), Some(AmmError::Expired));
    assert_eq!(factory.burn(&call(vec![], 50), B, C, 12345, 50).err(), Some(AmmError::PoolNotFound));
}

#[test]
fn what_a_burn_paid_is_held_against_the_minimums() {
    let paid = vec![t(A, 100), t(B, 200)];
    assert_eq!(check_burn_result(A, &paid, 100, 200), Ok(()));
    assert_eq!(check_burn_result(A, &paid, 101, 200), Err(AmmError::InsufficientAAmount));
    assert_eq!(check_burn_result(A, &paid, 100, 201), Err(AmmError::InsufficientBAmount));
    // the caller's first asset is the pool's second
    assert_eq!(check_burn_result(B, &paid, 200, 100), Ok(()));
    assert_eq!(check_burn_result(B, &paid, 201, 100), Err(AmmError::InsufficientAAmount));
    assert_eq!(check_burn_result(B, &paid, 200, 101), Err(AmmError::InsufficientBAmount));
    assert_eq!(check_burn_result(A, &vec![t(A, 100)], 0, 0), Err(AmmError::Malformed));
}

#[test]
fn reserves_are_read_from_thirty_two_bytes() {
    let mut data = 7u128.to_le_bytes().to_vec();
    data.extend_from_slice(&(u128::MAX - 1).to_le_bytes());
    assert_eq!(parse_reserves(&data), Ok((7, u128::MAX - 1)));
    data.push(0);
    assert_eq!(parse_reserves(&data), Ok((7, u128::MAX - 1)));
    assert_eq!(parse_reserves(&data[..31]), Err(AmmError::Malformed));
    assert_eq!(parse_reserves(&[]), Err(AmmError::Malformed));
}

#[test]
fn reserves_follow_the_order_of_the_pair_as_given() {
    assert_eq!(_get_reserves_ordered(A, B, 10, 20), (10, 20));
    assert_eq!(_get_reserves_ordered(B, A, 10, 20), (20, 10));
}

#[test]
fn questions_are_calls_without_assets() {
    let pool = AlkaneId { block: 2, tx: 77 };
    let asked = _get_reserves(pool);
    assert_eq!((asked.cellpack.target, asked.cellpack.inputs, asked.alkanes.len()), (pool, vec![97], 0));
    let asked = _get_pool_info(pool);
    assert_eq!((asked.cellpack.target, asked.cellpack.inputs, asked.alkanes.len()), (pool, vec![999], 0));
    let asked = query(pool, 5);
    assert_eq!((asked.cellpack.target, asked.cellpack.inputs, asked.alkanes.len()), (pool, vec![5], 0));
}

#[test]
fn leftovers_name_each_asset_once_in_ascending_order() {
    let input = vec![t(C, 1), t(A, 1), t(C, 2)];
    let result = vec![t(B, 5), t(A, 7)];
    assert_eq!(leftover_ids(&input, &result), vec![A, B, C]);
    assert_eq!(leftover_ids(&vec![], &vec![]), Vec::<AlkaneId>::new());
    let mut ids = vec![A, C];
    insert_id(&mut ids, B);
    insert_id(&mut ids, A);
    insert_id(&mut ids, AlkaneId { block: 1, tx: 99 });
    assert_eq!(ids, vec![AlkaneId { block: 1, tx: 99 }, A, B, C]);
}

#[test]
fn leftovers_are_paid_back_from_the_balances() {
    let result = CallResponse { alkanes: vec![t(B, 5)], data: vec![1, 2] };
    let input = vec![t(C, 1), t(A, 1)];
    let response = _return_leftovers(&result, &input, &vec![10, 0, 30]).unwrap();
    assert_eq!(response.alkanes, vec![t(A, 10), t(B, 0), t(C, 30)]);
    assert!(response.data.is_empty());
    assert_eq!(_return_leftovers(&result, &input, &vec![10, 0]).err(), Some(AmmError::Malformed));
}

#[test]
fn the_trading_fee_is_the_default_unless_one_is_set() {
    let mut factory = ready();
    factory.create_new_pool(&call(vec![], 1), A, B, 5, 5, 77).unwrap();
    factory.create_new_pool(&call(vec![], 1), B, C, 5, 5, 78).unwrap();
    let first = AlkaneId { block: 2, tx: 77 };
    let second = AlkaneId { block: 2, tx: 78 };
    assert_eq!(factory.pool_fee(&A, &B), Ok(5));
    assert_eq!(factory.pool_fee_by_id(&first), 5);

    let response = factory.set_pool_fee(&call(vec![t(AUTH, 1)], 1), first, 3).unwrap();
    assert_eq!(response.alkanes, vec![t(AUTH, 1)]);
    assert_eq!(factory.pool_fee(&B, &A), Ok(3));
    assert_eq!(factory.pool_fee(&B, &C), Ok(5));
    assert_eq!(factory.pool_fee_by_id(&first), 3);
    assert_eq!(factory.pool_fee_by_id(&second), 5);
    assert_eq!(factory._find_existing_pool_id(A, B), Ok(first));

    factory.set_default_fee(&call(vec![t(AUTH, 1)], 1), 8).unwrap();
    assert_eq!(factory.pool_fee(&A, &B), Ok(3));
    assert_eq!(factory.pool_fee(&B, &C), Ok(8));
    assert_eq!(factory.pool_fee_by_id(&USER), 8);
    assert_eq!(factory.pool_fee(&A, &C), Err(AmmError::PoolNotFound));
    assert_eq!(factory.get_pool_fee(&call(vec![], 1), first).data, 3u128.to_le_bytes().to_vec());
    assert_eq!(factory.get_pool_fee(&call(vec![], 1), second).data, 8u128.to_le_bytes().to_vec());
}

#[test]
fn only_the_owner_sets_fees_and_only_valid_ones() {
    let mut factory = ready();
    factory.create_new_pool(&call(vec![], 1), A, B, 5, 5, 77).unwrap();
    let pool = AlkaneId { block: 2, tx: 77 };
    assert_eq!(factory.set_pool_fee(&call(vec![], 1), pool, 3).err(), Some(AmmError::NotOwner));
    assert_eq!(factory.set_default_fee(&call(vec![], 1), 3).err(), Some(AmmError::NotOwner));
    let owner = call(vec![t(AUTH, 1)], 1);
    assert_eq!(factory.set_pool_fee(&owner, pool, 1001).err(), Some(AmmError::InvalidFee));
    assert_eq!(factory.set_default_fee(&owner, 1001).err(), Some(AmmError::InvalidFee));
    assert_eq!(factory.set_pool_fee(&owner, USER, 3).err(), Some(AmmError::PoolNotFound));
    assert_eq!(factory.pool_fee(&A, &B), Ok(5));
    assert!(factory.set_pool_fee(&owner, pool, 1000).is_ok());
    assert!(factory.set_default_fee(&owner, 0).is_ok());
    assert_eq!(factory.pool_fee(&A, &B), Ok(1000));
    assert_eq!(factory.default_fee_per_1000, 0);
}

#[test]
fn a_position_that_cannot_be_read_is_counted_and_skipped() {
    let mut factory = ready();
    factory.create_new_pool(&call(vec![], 1), A, B, 5, 5, 80).unwrap();
    factory.create_new_pool(&call(vec![], 1), B, C, 5, 5, 90).unwrap();
    factory.listing.insert(1, None);
    assert_eq!(factory.all_pools_length(), 3);
    assert_eq!(factory.all_pools(0), Ok(AlkaneId { block: 2, tx: 80 }));
    assert_eq!(factory.all_pools(1), Err(AmmError::PoolNotFound));
    assert_eq!(factory.all_pools(2), Ok(AlkaneId { block: 2, tx: 90 }));
    let mut expected = 3u128.to_le_bytes().to_vec();
    expected.extend_from_slice(&AlkaneId { block: 2, tx: 80 }.to_bytes());
    expected.extend_from_slice(&AlkaneId { block: 2, tx: 90 }.to_bytes());
    assert_eq!(factory.get_all_pools(&call(vec![], 1)).data, expected);
    assert_eq!(factory.get_num_pools(&call(vec![], 1)).data, 3u128.to_le_bytes().to_vec());
    // the registry still finds both pools
    assert_eq!(factory._find_existing_pool_id(C, B), Ok(AlkaneId { block: 2, tx: 90 }));
}
