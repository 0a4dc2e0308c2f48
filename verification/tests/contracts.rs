use oylswap::error::AmmError;
use oylswap::factory::AMMFactory;
use oylswap::flashswap::{FlashAction, FlashSwap};
use oylswap::id::AlkaneId;
use oylswap::lock::Lock;
use oylswap::message::{
    AMMFactoryMessage, AMMPathProviderMessage, AMMPoolMessage, OylAMMFactoryMessage,
    OylAMMPoolMessage,
};
use oylswap::oyl_factory::OylAMMFactory;
use oylswap::oyl_pool::OylAMMPool;
use oylswap::parcel::{copy_parcel, fits_sheet, total_of, AlkaneTransfer, CallResponse, Context};
use oylswap::path_provider::{encode_path, AMMPathProvider};
use oylswap::pool::AMMPool;
use oylswap::router::AMMRouter;
use oylswap::storable::StorableU256;
use oylswap::token::OylToken;

const A: AlkaneId = AlkaneId { block: 2, tx: 1 };
const B: AlkaneId = AlkaneId { block: 2, tx: 2 };
const C: AlkaneId = AlkaneId { block: 2, tx: 3 };
const ME: AlkaneId = AlkaneId { block: 2, tx: 10 };
const FACTORY: AlkaneId = AlkaneId { block: 2, tx: 20 };
const AUTH: AlkaneId = AlkaneId { block: 2, tx: 21 };
const USER: AlkaneId = AlkaneId { block: 2, tx: 30 };
const PROVIDER: AlkaneId = AlkaneId { block: 2, tx: 50 };
const OYL: AlkaneId = AlkaneId { block: 2, tx: 60 };

fn call(incoming: Vec<AlkaneTransfer>) -> Context {
    Context { myself: ME, caller: USER, incoming_alkanes: incoming, height: 1 }
}

fn t(id: AlkaneId, value: u128) -> AlkaneTransfer {
    AlkaneTransfer { id, value }
}

#[test]
fn parcels_add_up_by_asset() {
    let parcel = vec![t(A, 5), t(B, 7), t(A, 6)];
    assert_eq!(total_of(&parcel, &A), Some(11));
    assert_eq!(total_of(&parcel, &B), Some(7));
    assert_eq!(total_of(&parcel, &C), Some(0));
    assert!(fits_sheet(&parcel));
    let heavy = vec![t(A, u128::MAX), t(B, 7), t(A, 1)];
    assert_eq!(total_of(&heavy, &A), None);
    assert_eq!(total_of(&heavy, &B), Some(7));
    assert!(!fits_sheet(&heavy));
    assert!(fits_sheet(&vec![]));
    assert_eq!(copy_parcel(&parcel), parcel);
}

#[test]
fn responses_forward_or_hand_back_nothing() {
    let empty = CallResponse::new();
    assert!(empty.alkanes.is_empty() && empty.data.is_empty());
    let forwarded = CallResponse::forward(&vec![t(A, 5)]);
    assert_eq!(forwarded.alkanes, vec![t(A, 5)]);
    assert!(forwarded.data.is_empty());
}

#[test]
fn the_router_is_given_its_factory_once() {
    let mut router = AMMRouter::new();
    assert_eq!(router.factory(), Err(AmmError::Uninitialized));
    assert_eq!(router.get_pool_for(&A, &B).err(), Some(AmmError::Uninitialized));
    assert_eq!(router.get_all_pools().err(), Some(AmmError::Uninitialized));
    let response = router.initialize(&call(vec![t(C, 1)]), FACTORY).unwrap();
    assert_eq!(response.alkanes, vec![t(C, 1)]);
    assert_eq!(router.factory(), Ok(FACTORY));
    assert_eq!(router.initialize(&call(vec![]), USER).err(), Some(AmmError::AlreadyInitialized));
    assert_eq!(router.factory(), Ok(FACTORY));
}

#[test]
fn the_router_asks_the_factory_for_pools() {
    let mut router = AMMRouter::new();
    router.initialize(&call(vec![]), FACTORY).unwrap();
    let asked = router.get_pool_for(&B, &A).unwrap();
    assert_eq!(asked.cellpack.target, FACTORY);
    assert_eq!(asked.cellpack.inputs, vec![2, B.block, B.tx, A.block, A.tx]);
    assert!(asked.alkanes.is_empty());
    let all = router.get_all_pools().unwrap();
    assert_eq!((all.cellpack.target, all.cellpack.inputs), (FACTORY, vec![3]));
    assert_eq!(AMMRouter::read_pool(&C.to_bytes()), Ok(C));
    assert_eq!(AMMRouter::read_pool(&C.to_bytes()[..31]), Err(AmmError::Malformed));
}

#[test]
fn the_router_hands_assets_on_to_a_pool() {
    let router = AMMRouter::new();
    let context = call(vec![t(A, 5), t(B, 6)]);
    let add = router.add_liquidity(&context, C);
    assert_eq!((add.cellpack.target, add.cellpack.inputs, add.alkanes), (C, vec![1], vec![t(A, 5), t(B, 6)]));
    let remove = router.remove_liquidity(&context, C);
    assert_eq!((remove.cellpack.target, remove.cellpack.inputs), (C, vec![2]));
    let other = router.add_or_remove_liquidity(&context, 9, C);
    assert_eq!(other.cellpack.inputs, vec![9]);
    assert_eq!(router.forward_incoming(&context).alkanes, vec![t(A, 5), t(B, 6)]);
}

#[test]
fn the_router_asks_for_the_minimum_at_the_last_hop_only() {
    let router = AMMRouter::new();
    let path = vec![A, B, C];
    let first = router.swap(&path, 500, 1, ME, vec![t(A, 9)]).unwrap();
    assert_eq!((first.cellpack.target, first.cellpack.inputs, first.alkanes), (ME, vec![3, 0], vec![t(A, 9)]));
    let last = router.swap(&path, 500, 2, FACTORY, vec![t(B, 8)]).unwrap();
    assert_eq!((last.cellpack.target, last.cellpack.inputs, last.alkanes), (FACTORY, vec![3, 500], vec![t(B, 8)]));
    assert_eq!(router.swap(&vec![A], 500, 1, ME, vec![]).err(), Some(AmmError::PathTooShort));
    assert_eq!(router.swap(&path, 500, 0, ME, vec![]).err(), Some(AmmError::Malformed));
    assert_eq!(router.swap(&path, 500, 3, ME, vec![]).err(), Some(AmmError::Malformed));
}

#[test]
fn the_token_mints_its_supply_once() {
    let mut token = OylToken::new();
    let response = token
        .initialize(&call(vec![t(C, 1)]), 1_000_000, "Oyl".to_string(), "OYL".to_string())
        .unwrap();
    assert_eq!(response.alkanes, vec![t(C, 1), t(ME, 1_000_000)]);
    assert_eq!(token.total_supply, 1_000_000);
    let again = token.initialize(&call(vec![]), 5, "x".to_string(), "y".to_string());
    assert_eq!(again.err(), Some(AmmError::AlreadyInitialized));
    let context = call(vec![t(A, 2)]);
    assert_eq!(token.get_name(&context).data, b"Oyl".to_vec());
    assert_eq!(token.get_symbol(&context).data, b"OYL".to_vec());
    assert_eq!(token.get_total_supply(&context).data, 1_000_000u128.to_le_bytes().to_vec());
    assert!(token.get_data(&context).data.is_empty());
    assert_eq!(token.get_data(&context).alkanes, vec![t(A, 2)]);
}

#[test]
fn the_token_supply_must_fit() {
    let mut token = OylToken::new();
    token.total_supply = 1;
    let r = token.initialize(&call(vec![]), u128::MAX, "x".to_string(), "y".to_string());
    assert_eq!(r.err(), Some(AmmError::Overflow));
    assert!(!token.initialized);
}

#[test]
fn the_flash_recipient_does_what_the_data_says() {
    let mut recipient = FlashSwap::new();
    assert!(recipient.initialize(&call(vec![])).is_ok());
    assert_eq!(recipient.initialize(&call(vec![])).err(), Some(AmmError::AlreadyInitialized));
    let context = call(vec![t(A, 100)]);
    match recipient.callback(&context, USER, 100, 0, &vec![0]).unwrap() {
        FlashAction::Respond(response) => assert!(response.alkanes.is_empty()),
        FlashAction::Call(_) => panic!("kept funds are not sent on"),
    }
    match recipient.callback(&context, USER, 100, 0, &vec![1]).unwrap() {
        FlashAction::Respond(response) => assert_eq!(response.alkanes, vec![t(A, 100)]),
        FlashAction::Call(_) => panic!("a refund is an answer"),
    }
    match recipient.callback(&context, USER, 100, 0, &vec![2, 10, 1, 0, 5]).unwrap() {
        FlashAction::Respond(_) => panic!("a call was asked for"),
        FlashAction::Call(made) => {
            assert_eq!(made.cellpack.target, ME);
            assert_eq!(made.cellpack.inputs, vec![1, 0, 5]);
            assert_eq!(made.alkanes, vec![t(A, 100)]);
        }
    }
    assert_eq!(recipient.callback(&context, USER, 100, 0, &vec![]).err(), Some(AmmError::Malformed));
    assert_eq!(recipient.callback(&context, USER, 100, 0, &vec![5]).err(), Some(AmmError::Malformed));
    assert_eq!(recipient.arb_call(&context, &vec![2, 10]).unwrap().cellpack.inputs, Vec::<u128>::new());
    let attack = recipient.static_attack(ME, 77);
    assert_eq!((attack.cellpack.target, attack.cellpack.inputs, attack.alkanes), (ME, vec![2], vec![t(ME, 77)]));
}

fn oyl_pool() -> OylAMMPool {
    let mut pool = OylAMMPool::new();
    pool.init_pool(&call(vec![t(A, 500_000), t(B, 500_000)]), A, B, FACTORY, 500_000, 500_000).unwrap();
    pool
}

#[test]
fn the_fee_burning_pool_sends_half_of_the_fee_to_its_factory() {
    let mut pool = oyl_pool();
    let (response, burn) = pool.swap(&call(vec![t(A, 10_000)]), 510_000, 500_000, 0, 5).unwrap();
    assert_eq!(response.alkanes, vec![t(B, 9755)]);
    // (9803 - 9755) * 5 / 10
    let burn = burn.unwrap();
    assert_eq!(burn.cellpack.target, FACTORY);
    assert_eq!(burn.cellpack.inputs, vec![6]);
    assert_eq!(burn.alkanes, vec![t(B, 24)]);
    assert_eq!(pool.pool.lock.get_lock(), 0);
}

#[test]
fn the_fee_burning_pool_sends_nothing_where_the_fee_is_nothing() {
    let mut pool = oyl_pool();
    let (response, burn) = pool.swap(&call(vec![t(A, 100)]), 500_100, 500_000, 0, 5).unwrap();
    assert_eq!(response.alkanes, vec![t(B, 99)]);
    assert!(burn.is_none());
    let r = pool.swap(&call(vec![t(C, 100)]), 500_000, 500_000, 0, 5);
    assert_eq!(r.err(), Some(AmmError::UnsupportedAsset));
    let r = pool.swap(&call(vec![t(A, 100)]), 500_100, 500_000, 100, 5);
    assert_eq!(r.err(), Some(AmmError::InsufficientOutputAmount));
}

#[test]
fn the_fee_burning_pool_works_out_the_burn_from_what_was_paid() {
    let pool = oyl_pool();
    let context = call(vec![t(A, 10_000)]);
    let planned = pool._handle_oyl_swap_and_burn(&context, t(B, 9755), 510_000, 500_000).unwrap();
    assert_eq!(planned.unwrap().alkanes, vec![t(B, 24)]);
    let none = pool._handle_oyl_swap_and_burn(&context, t(B, 9803), 510_000, 500_000).unwrap();
    assert!(none.is_none());
    let r = pool._handle_oyl_swap_and_burn(&context, t(B, 9804), 510_000, 500_000);
    assert_eq!(r.err(), Some(AmmError::Overflow));
}

#[test]
fn the_fee_burning_pool_is_a_pool() {
    let mut pool = oyl_pool();
    let minted = pool.add_liquidity(&call(vec![t(A, 1000), t(B, 1000)]), 501_000, 501_000).unwrap();
    assert_eq!(minted.alkanes, vec![t(ME, 1000)]);
    let paid = pool.burn(&call(vec![t(ME, 1000)]), 501_000, 501_000).unwrap();
    assert_eq!(paid.alkanes, vec![t(A, 1000), t(B, 1000)]);
    pool.set_pool_name_and_symbol(None, Some(&b"SILVER".to_vec())).unwrap();
    assert_eq!(pool.get_name(&call(vec![])).data, b"2,1 / SILVER LP (OYL)".to_vec());
    assert_eq!(pool.forward_incoming(&call(vec![t(C, 1)])).alkanes, vec![t(C, 1)]);
    assert!(pool.pool_details(&call(vec![]), 500_000, 500_000).is_ok());
    assert_eq!(OylAMMPool::new().set_pool_name_and_symbol(None, None), Err(AmmError::Uninitialized));
}

fn oyl_factory() -> OylAMMFactory {
    let mut factory = OylAMMFactory::new();
    factory.init_factory(&call(vec![]), 0xffee, t(AUTH, 1), PROVIDER, OYL).unwrap();
    factory
}

#[test]
fn the_fee_burning_factory_knows_its_token_and_its_path_provider() {
    let mut raw = OylAMMFactory::new();
    assert_eq!(raw.path_provider(), Err(AmmError::Uninitialized));
    assert_eq!(raw.oyl_token(), Err(AmmError::Uninitialized));
    let response = raw.init_factory(&call(vec![t(C, 1)]), 0xffee, t(AUTH, 1), PROVIDER, OYL).unwrap();
    assert_eq!(response.alkanes, vec![t(C, 1), t(AUTH, 1)]);
    assert_eq!(raw.path_provider(), Ok(PROVIDER));
    assert_eq!(raw.oyl_token(), Ok(OYL));
    let again = raw.init_factory(&call(vec![]), 1, t(AUTH, 1), USER, USER);
    assert_eq!(again.err(), Some(AmmError::AlreadyInitialized));
    assert_eq!(raw.path_provider(), Ok(PROVIDER));
    assert_eq!(raw.get_path_provider(&call(vec![])).data, PROVIDER.to_bytes());
}

#[test]
fn only_the_owner_changes_token_and_path_provider() {
    let mut factory = oyl_factory();
    assert_eq!(factory.set_path_provider_id(&call(vec![]), USER).err(), Some(AmmError::NotOwner));
    assert_eq!(factory.set_oyl_token_id(&call(vec![]), USER).err(), Some(AmmError::NotOwner));
    assert_eq!(factory.path_provider(), Ok(PROVIDER));
    assert_eq!(factory.oyl_token(), Ok(OYL));
    factory.set_path_provider_id(&call(vec![t(AUTH, 1)]), USER).unwrap();
    factory.set_oyl_token_id(&call(vec![t(AUTH, 2)]), C).unwrap();
    assert_eq!(factory.path_provider(), Ok(USER));
    assert_eq!(factory.oyl_token(), Ok(C));
}

#[test]
fn the_fee_burning_factory_registers_pools() {
    let mut factory = oyl_factory();
    factory.create_new_pool(&call(vec![]), A, B, 5, 5, 77).unwrap();
    let again = factory.create_new_pool(&call(vec![]), B, A, 5, 5, 78);
    assert_eq!(again.err(), Some(AmmError::PoolAlreadyExists));
    assert_eq!(factory.factory._find_existing_pool_id(B, A), Ok(AlkaneId { block: 2, tx: 77 }));
}

#[test]
fn what_is_sent_to_be_burned_is_routed_to_the_token() {
    let factory = oyl_factory();
    let asked = factory.swap_to_and_burn_oyl(&call(vec![t(B, 24)])).unwrap().unwrap();
    assert_eq!(asked.cellpack.target, PROVIDER);
    assert_eq!(asked.cellpack.inputs, vec![1, B.block, B.tx, OYL.block, OYL.tx]);
    assert!(asked.alkanes.is_empty());
    assert!(factory.swap_to_and_burn_oyl(&call(vec![t(OYL, 24)])).unwrap().is_none());
    assert_eq!(factory.swap_to_and_burn_oyl(&call(vec![])).err(), Some(AmmError::WrongAssetCount));
    assert_eq!(
        factory.swap_to_and_burn_oyl(&call(vec![t(A, 1), t(B, 1)])).err(),
        Some(AmmError::WrongAssetCount)
    );
    assert_eq!(
        OylAMMFactory::new().swap_to_and_burn_oyl(&call(vec![t(A, 1)])).err(),
        Some(AmmError::Uninitialized)
    );
    assert_eq!(OylAMMFactory::read_path(&encode_path(&vec![B, A, OYL])), Some(vec![B, A, OYL]));
    assert_eq!(OylAMMFactory::read_path(&[]), None);
    assert_eq!(OylAMMFactory::read_path(&[0u8; 31]), None);
}

#[test]
fn stored_numbers_are_thirty_two_little_endian_bytes() {
    assert_eq!(StorableU256::zero().to_bytes(), vec![0u8; 32]);
    assert_eq!(StorableU256::maximum().to_bytes(), vec![0xffu8; 32]);
    let mut bytes = vec![0u8; 32];
    bytes[0] = 1;
    bytes[31] = 0x80;
    let number = StorableU256::from_bytes(bytes.clone());
    assert_eq!(number.to_bytes(), bytes);
    assert_eq!(StorableU256::new(number.into_inner()).to_bytes(), bytes);
    let small: u128 = number.into_inner().wrapping_shl(128).wrapping_shr(128).try_into().unwrap();
    assert_eq!(small, 1);
}

#[test]
fn operations_have_their_numbers() {
    assert_eq!(AMMPoolMessage::InitPool { alkane_a: A, alkane_b: B, factory: FACTORY }.opcode(), 0);
    assert_eq!(AMMPoolMessage::AddLiquidity.opcode(), 1);
    assert_eq!(AMMPoolMessage::Burn.opcode(), 2);
    assert_eq!(AMMPoolMessage::Swap { amount_0_out: 1, amount_1_out: 0, to: USER, data: vec![] }.opcode(), 3);
    assert_eq!(AMMPoolMessage::CollectFees.opcode(), 10);
    assert_eq!(AMMPoolMessage::ForwardIncoming.opcode(), 50);
    assert_eq!(AMMPoolMessage::GetReserves.opcode(), 97);
    assert_eq!(AMMPoolMessage::GetPriceCumulativeLast.opcode(), 98);
    assert_eq!(AMMPoolMessage::GetName.opcode(), 99);
    assert_eq!(AMMPoolMessage::PoolDetails.opcode(), 999);
    assert_eq!(OylAMMPoolMessage::Swap { amount_out_predicate: 5 }.opcode(), 3);
    assert_eq!(OylAMMPoolMessage::PoolDetails.opcode(), 999);
    assert_eq!(AMMFactoryMessage::InitFactory { pool_factory_id: 1, auth_token_units: 1 }.opcode(), 0);
    assert_eq!(AMMFactoryMessage::CreateNewPool.opcode(), 1);
    assert_eq!(AMMFactoryMessage::FindExistingPoolId { alkane_a: A, alkane_b: B }.opcode(), 2);
    assert_eq!(AMMFactoryMessage::GetAllPools.opcode(), 3);
    assert_eq!(AMMFactoryMessage::GetNumPools.opcode(), 4);
    assert_eq!(AMMFactoryMessage::SetPoolFactoryId { pool_factory_id: 1 }.opcode(), 7);
    assert_eq!(AMMFactoryMessage::CollectFees { pool_id: A }.opcode(), 10);
    assert_eq!(
        AMMFactoryMessage::SwapExactTokensForTokens { amount_in: 1, path: vec![A, B], amount_out_min: 0, deadline: 0 }
            .opcode(),
        13
    );
    assert_eq!(
        AMMFactoryMessage::SwapTokensForExactTokens { path: vec![A, B], amount_out: 1, amount_in_max: 9, deadline: 0 }
            .opcode(),
        14
    );
    assert_eq!(OylAMMFactoryMessage::GetPathProvider.opcode(), 5);
    assert_eq!(OylAMMFactoryMessage::SwapToAndBurnOyl.opcode(), 6);
    assert_eq!(OylAMMFactoryMessage::SetPathProviderId { path_provider_id: A }.opcode(), 8);
    assert_eq!(OylAMMFactoryMessage::SetOylTokenId { oyl_token_id: A }.opcode(), 9);
    assert_eq!(OylAMMFactoryMessage::SwapAlongPath { path: vec![], amount: 0 }.opcode(), 20);
    assert_eq!(AMMFactoryMessage::SetPoolFee { pool_id: A, fee_per_1000: 3 }.opcode(), 21);
    assert_eq!(AMMFactoryMessage::SetDefaultFee { fee_per_1000: 3 }.opcode(), 22);
    assert_eq!(AMMFactoryMessage::GetPoolFee { pool_id: A }.opcode(), 23);
    assert_eq!(OylAMMFactoryMessage::SetPoolFee { pool_id: A, fee_per_1000: 3 }.opcode(), 21);
    assert_eq!(OylAMMFactoryMessage::SetDefaultFee { fee_per_1000: 3 }.opcode(), 22);
    assert_eq!(OylAMMFactoryMessage::GetPoolFee { pool_id: A }.opcode(), 23);
    assert_eq!(AMMPathProviderMessage::InitPathProvider.opcode(), 0);
    assert_eq!(AMMPathProviderMessage::GetOptimalPath { start: A, end: B }.opcode(), 1);
    assert_eq!(AMMPathProviderMessage::SetPath { start: A, end: B, path: vec![] }.opcode(), 2);
}

#[test]
fn contracts_start_out_uninitialized() {
    let pool = AMMPool::default();
    assert!(!pool.initialized && pool.total_supply == 0 && pool.name.is_empty() && pool.pending.is_none());
    let factory = AMMFactory::default();
    assert!(!factory.initialized && factory.pools.is_empty());
    assert_eq!(factory.default_fee_per_1000, 5);
    assert!(!OylAMMPool::default().pool.initialized);
    assert!(!OylAMMFactory::default().factory.initialized);
    assert!(!AMMPathProvider::default().initialized);
    assert_eq!(AMMRouter::default(), AMMRouter::new());
    assert!(!OylToken::default().initialized);
    assert_eq!(FlashSwap::default(), FlashSwap::new());
    assert_eq!(Lock::default(), Lock::new());
}
