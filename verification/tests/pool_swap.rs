use oylswap::error::AmmError;
use oylswap::id::AlkaneId;
use oylswap::parcel::{AlkaneTransfer, Context};
use oylswap::pool::AMMPool;
use oylswap::swap::CALLBACK_OPCODE;

const A: AlkaneId = AlkaneId { block: 2, tx: 1 };
const B: AlkaneId = AlkaneId { block: 2, tx: 2 };
const C: AlkaneId = AlkaneId { block: 2, tx: 3 };
const POOL: AlkaneId = AlkaneId { block: 2, tx: 10 };
const FACTORY: AlkaneId = AlkaneId { block: 2, tx: 20 };
const USER: AlkaneId = AlkaneId { block: 2, tx: 30 };
const BORROWER: AlkaneId = AlkaneId { block: 2, tx: 40 };

fn call(incoming: Vec<AlkaneTransfer>) -> Context {
    Context { myself: POOL, caller: USER, incoming_alkanes: incoming, height: 100 }
}

fn t(id: AlkaneId, value: u128) -> AlkaneTransfer {
    AlkaneTransfer { id, value }
}

fn seeded(a: u128, b: u128) -> AMMPool {
    let mut pool = AMMPool::new();
    pool.init_pool(&call(vec![t(A, a), t(B, b)]), A, B, FACTORY, a, b).unwrap();
    pool
}

#[test]
fn a_swap_pays_the_quoted_amount_of_the_other_asset() {
    let mut pool = seeded(500_000, 500_000);
    let response = pool.swap(&call(vec![t(A, 10_000)]), 510_000, 500_000, 0, 5).unwrap();
    assert_eq!(response.alkanes, vec![t(B, 9755)]);
    assert!(response.data.is_empty());
    assert_eq!(pool.total_supply(), 500_000);
    assert_eq!(pool.k_last(), 250_000_000_000);
    assert_eq!(pool.lock.get_lock(), 0);
}

#[test]
fn a_swap_of_the_larger_asset_pays_the_smaller() {
    let mut pool = seeded(500_000, 1_000_000);
    let response = pool.swap(&call(vec![t(B, 10_000)]), 500_000, 1_010_000, 0, 5).unwrap();
    // 10000 * 995 * 500000 / (1000000 * 1000 + 10000 * 995)
    assert_eq!(response.alkanes, vec![t(A, 4925)]);
}

#[test]
fn a_swap_below_the_minimum_is_rejected() {
    let mut pool = seeded(500_000, 500_000);
    let r = pool.swap(&call(vec![t(A, 10_000)]), 510_000, 500_000, 9756, 5);
    assert_eq!(r.err(), Some(AmmError::InsufficientOutputAmount));
    let ok = pool.swap(&call(vec![t(A, 10_000)]), 510_000, 500_000, 9755, 5);
    assert!(ok.is_ok());
}

#[test]
fn a_swap_takes_one_entry() {
    let mut pool = seeded(500_000, 500_000);
    let r = pool.swap(&call(vec![]), 500_000, 500_000, 0, 5);
    assert_eq!(r.err(), Some(AmmError::WrongAssetCount));
    let r = pool.swap(&call(vec![t(A, 5), t(B, 5)]), 500_005, 500_005, 0, 5);
    assert_eq!(r.err(), Some(AmmError::WrongAssetCount));
}

#[test]
fn a_swap_of_a_foreign_asset_is_rejected() {
    let mut pool = seeded(500_000, 500_000);
    let r = pool.swap(&call(vec![t(C, 10_000)]), 500_000, 500_000, 0, 5);
    assert_eq!(r.err(), Some(AmmError::UnsupportedAsset));
}

#[test]
fn a_swap_keeps_the_product_of_the_reserves() {
    let mut pool = seeded(500_000, 500_000);
    let paid = pool.swap(&call(vec![t(A, 10_000)]), 510_000, 500_000, 0, 5).unwrap().alkanes[0];
    let after = 510_000u128 * (500_000 - paid.value);
    assert!(after >= 500_000u128 * 500_000);
    // and again from where the first swap left the reserves
    let left_b = 500_000 - paid.value;
    let paid = pool.swap(&call(vec![t(B, 20_000)]), 510_000, left_b + 20_000, 0, 5).unwrap().alkanes[0];
    assert_eq!(paid.id, A);
    assert!((510_000 - paid.value) * (left_b + 20_000) >= after);
}

#[test]
fn quotes_with_and_without_the_fee() {
    let pool = seeded(500_000, 500_000);
    assert_eq!(pool.get_amount_out(10_000, 500_000, 500_000, 5), Ok(9755));
    assert_eq!(pool.get_amount_out(10_000, 500_000, 500_000, 0), Ok(9803));
    assert_eq!(pool.get_transfer_out_from_swap(&vec![t(A, 10_000)], 0, 510_000, 500_000), Ok(t(B, 9803)));
    assert_eq!(pool.get_transfer_out_from_swap(&vec![t(B, 10_000)], 5, 500_000, 510_000), Ok(t(A, 9755)));
}

#[test]
fn the_product_check_rejects_an_output_that_is_too_large() {
    let pool = seeded(500_000, 500_000);
    let input = vec![t(A, 10_000)];
    assert_eq!(pool._check_k_increasing(&input, &vec![t(B, 9755)], 510_000, 500_000), Ok(()));
    assert_eq!(pool._check_k_increasing(&input, &vec![t(B, 9803)], 510_000, 500_000), Ok(()));
    assert_eq!(
        pool._check_k_increasing(&input, &vec![t(B, 9804)], 510_000, 500_000),
        Err(AmmError::KNotIncreasing)
    );
    assert_eq!(
        pool._check_k_increasing(&input, &vec![t(B, 500_001)], 510_000, 500_000),
        Err(AmmError::InsufficientLiquidity)
    );
}

#[test]
fn the_product_check_does_not_overflow() {
    let mut pool = AMMPool::new();
    pool.initialized = true;
    pool.alkane_a = A;
    pool.alkane_b = B;
    let big = u128::MAX;
    // the products need more than 128 bits
    assert_eq!(pool._check_k_increasing(&vec![], &vec![], big, big), Ok(()));
    assert_eq!(pool._check_k_increasing(&vec![], &vec![t(A, 1)], big, big), Err(AmmError::KNotIncreasing));
    assert_eq!(pool._check_k_increasing(&vec![t(A, 1)], &vec![], big, big), Ok(()));
}

#[test]
fn an_exact_output_costs_the_quoted_input_and_the_rest_comes_back() {
    let mut pool = seeded(500_000, 500_000);
    let response = pool
        .swap_tokens_for_exact_tokens(&call(vec![t(A, 12_000)]), 512_000, 500_000, 9755, 11_000, 5)
        .unwrap();
    assert_eq!(response.alkanes, vec![t(B, 9755), t(A, 2000)]);
}

#[test]
fn an_exact_output_with_the_exact_input_pays_nothing_back() {
    let mut pool = seeded(500_000, 500_000);
    let response = pool
        .swap_tokens_for_exact_tokens(&call(vec![t(A, 10_000)]), 510_000, 500_000, 9755, 10_000, 5)
        .unwrap();
    assert_eq!(response.alkanes, vec![t(B, 9755)]);
}

#[test]
fn an_exact_output_that_costs_too_much_is_rejected() {
    let mut pool = seeded(500_000, 500_000);
    let r = pool.swap_tokens_for_exact_tokens(&call(vec![t(A, 12_000)]), 512_000, 500_000, 9755, 9_999, 5);
    assert_eq!(r.err(), Some(AmmError::ExcessiveInputAmount));
    let r = pool.swap_tokens_for_exact_tokens(&call(vec![t(A, 9_999)]), 509_999, 500_000, 9755, 20_000, 5);
    assert_eq!(r.err(), Some(AmmError::ExcessiveInputAmount));
}

#[test]
fn an_exact_output_of_the_whole_reserve_is_rejected() {
    let mut pool = seeded(500_000, 500_000);
    let r = pool.swap_tokens_for_exact_tokens(&call(vec![t(A, 12_000)]), 512_000, 500_000, 500_000, u128::MAX, 5);
    assert_eq!(r.err(), Some(AmmError::InsufficientLiquidity));
    let r = pool.swap_tokens_for_exact_tokens(&call(vec![t(A, 12_000)]), 512_000, 500_000, 0, u128::MAX, 5);
    assert_eq!(r.err(), Some(AmmError::InsufficientOutputAmount));
}

#[test]
fn a_low_level_swap_without_data_pays_in_the_response() {
    let mut pool = seeded(500_000, 500_000);
    let start = pool
        .swap_begin(&call(vec![t(A, 10_000)]), 510_000, 500_000, 0, 9755, USER, &vec![])
        .unwrap();
    assert_eq!(start.payout, vec![t(B, 9755)]);
    assert!(start.callback.is_none());
    assert_eq!(pool.lock.get_lock(), 1);
    let response = pool.swap_finish(510_000, 500_000).unwrap();
    assert_eq!(response.alkanes, vec![t(B, 9755)]);
    assert_eq!(pool.lock.get_lock(), 0);
    assert!(pool.pending.is_none());
}

#[test]
fn a_low_level_swap_that_takes_too_much_is_rejected_at_the_end() {
    let mut pool = seeded(500_000, 500_000);
    pool.swap_begin(&call(vec![t(A, 10_000)]), 510_000, 500_000, 0, 9804, USER, &vec![]).unwrap();
    let r = pool.swap_finish(510_000, 500_000);
    assert_eq!(r.err(), Some(AmmError::KNotIncreasing));
    assert_eq!(pool.lock.get_lock(), 0);
    assert!(pool.pending.is_none());
}

#[test]
fn a_flash_swap_calls_the_recipient_with_the_payout() {
    let mut pool = seeded(500_000, 500_000);
    let start = pool
        .swap_begin(&call(vec![]), 500_000, 500_000, 100_000, 0, BORROWER, &vec![1, 7])
        .unwrap();
    assert_eq!(start.payout, vec![t(A, 100_000)]);
    let callback = start.callback.unwrap();
    assert_eq!(callback.target, BORROWER);
    assert_eq!(callback.inputs, vec![CALLBACK_OPCODE, USER.block, USER.tx, 100_000, 0, 1, 7]);
    // the recipient took 100_000 and paid back 100_503
    let response = pool.swap_finish(500_503, 500_000).unwrap();
    assert!(response.alkanes.is_empty());
    assert_eq!(pool.lock.get_lock(), 0);
}

#[test]
fn a_flash_swap_that_is_not_repaid_is_rejected() {
    let mut pool = seeded(500_000, 500_000);
    pool.swap_begin(&call(vec![]), 500_000, 500_000, 100_000, 0, BORROWER, &vec![0]).unwrap();
    let r = pool.swap_finish(400_000, 500_000);
    assert_eq!(r.err(), Some(AmmError::KNotIncreasing));
    pool.swap_begin(&call(vec![]), 500_000, 500_000, 100_000, 0, BORROWER, &vec![0]).unwrap();
    let r = pool.swap_finish(499_999, 500_000);
    assert_eq!(r.err(), Some(AmmError::KNotIncreasing));
    pool.swap_begin(&call(vec![]), 500_000, 500_000, 100_000, 0, BORROWER, &vec![0]).unwrap();
    assert!(pool.swap_finish(500_000, 500_000).is_ok());
}

#[test]
fn a_low_level_swap_checks_its_amounts() {
    let mut pool = seeded(500_000, 500_000);
    let r = pool.swap_begin(&call(vec![t(A, 5)]), 500_005, 500_000, 0, 0, USER, &vec![]);
    assert_eq!(r.err(), Some(AmmError::InsufficientOutputAmount));
    let r = pool.swap_begin(&call(vec![t(A, 5)]), 500_005, 500_000, 0, 500_000, USER, &vec![]);
    assert_eq!(r.err(), Some(AmmError::InsufficientLiquidity));
    let r = pool.swap_begin(&call(vec![t(A, 5)]), 500_005, 500_000, 500_000, 1, USER, &vec![]);
    assert_eq!(r.err(), Some(AmmError::InsufficientLiquidity));
    let r = pool.swap_begin(&call(vec![t(C, 5)]), 500_000, 500_000, 0, 1, USER, &vec![]);
    assert_eq!(r.err(), Some(AmmError::UnsupportedAsset));
    let r = pool.swap_begin(&call(vec![t(A, 1), t(A, 1), t(B, 1)]), 500_002, 500_001, 0, 1, USER, &vec![]);
    assert_eq!(r.err(), Some(AmmError::TooManyAssets));
    assert_eq!(pool.lock.get_lock(), 0);
    assert!(pool.pending.is_none());
}

#[test]
fn finishing_without_a_swap_in_flight_is_rejected() {
    let mut pool = seeded(500_000, 500_000);
    assert_eq!(pool.swap_finish(500_000, 500_000).err(), Some(AmmError::NotInSwap));
    assert_eq!(pool.lock.get_lock(), 0);
}

#[test]
fn nested_calls_during_a_flash_swap_are_locked_out() {
    let mut pool = seeded(500_000, 500_000);
    pool.swap_begin(&call(vec![]), 500_000, 500_000, 100_000, 0, BORROWER, &vec![2, 10, 1]).unwrap();
    let supply = pool.total_supply();
    let k_last = pool.k_last();

    // the recipient calls back into the pool before it returns
    let nested = Context { myself: POOL, caller: BORROWER, incoming_alkanes: vec![t(A, 50_000), t(B, 50_000)], height: 100 };
    assert_eq!(pool.add_liquidity(&nested, 450_000, 550_000).err(), Some(AmmError::Locked));
    let nested = Context { myself: POOL, caller: BORROWER, incoming_alkanes: vec![t(POOL, 1000)], height: 100 };
    assert_eq!(pool.burn(&nested, 400_000, 500_000).err(), Some(AmmError::Locked));
    let nested = Context { myself: POOL, caller: BORROWER, incoming_alkanes: vec![t(B, 1000)], height: 100 };
    assert_eq!(pool.swap(&nested, 400_000, 501_000, 0, 5).err(), Some(AmmError::Locked));
    assert_eq!(
        pool.swap_tokens_for_exact_tokens(&nested, 400_000, 501_000, 10, 1000, 5).err(),
        Some(AmmError::Locked)
    );
    assert_eq!(
        pool.swap_begin(&nested, 400_000, 501_000, 1, 0, BORROWER, &vec![]).err(),
        Some(AmmError::Locked)
    );

    // nothing has changed, and the swap in flight is still there
    assert_eq!(pool.total_supply(), supply);
    assert_eq!(pool.k_last(), k_last);
    assert_eq!(pool.lock.get_lock(), 1);
    assert!(pool.pending.is_some());

    // the outer swap completes once the recipient has paid back
    assert!(pool.swap_finish(500_600, 500_000).is_ok());
    assert_eq!(pool.lock.get_lock(), 0);

    // and the pool takes calls again
    let later = Context { myself: POOL, caller: USER, incoming_alkanes: vec![t(B, 1000)], height: 100 };
    assert!(pool.swap(&later, 500_600, 501_000, 0, 5).is_ok());
}

#[test]
fn a_locked_pool_still_answers_questions() {
    let mut pool = seeded(500_000, 500_000);
    pool.swap_begin(&call(vec![]), 500_000, 500_000, 1, 0, BORROWER, &vec![1]).unwrap();
    let response = pool.get_reserves(&call(vec![]), 499_999, 500_000).unwrap();
    let mut expected = 499_999u128.to_le_bytes().to_vec();
    expected.extend_from_slice(&500_000u128.to_le_bytes());
    assert_eq!(response.data, expected);
    assert_eq!(pool.forward_incoming(&call(vec![t(C, 3)])).alkanes, vec![t(C, 3)]);
}

#[test]
fn a_pool_swaps_at_the_fee_it_is_given() {
    let mut pool = seeded(500_000, 500_000);
    let response = pool.swap(&call(vec![t(A, 10_000)]), 510_000, 500_000, 0, 3).unwrap();
    assert_eq!(response.alkanes, vec![t(B, 9775)]);
    let response = pool.swap(&call(vec![t(A, 10_000)]), 510_000, 500_000, 0, 0).unwrap();
    assert_eq!(response.alkanes, vec![t(B, 9803)]);
    let r = pool.swap(&call(vec![t(A, 10_000)]), 510_000, 500_000, 0, 1001);
    assert_eq!(r.err(), Some(AmmError::InvalidFee));
    let r = pool.swap_tokens_for_exact_tokens(&call(vec![t(A, 10_000)]), 510_000, 500_000, 5, 10_000, 1000);
    assert_eq!(r.err(), Some(AmmError::InvalidFee));
    let response = pool
        .swap_tokens_for_exact_tokens(&call(vec![t(A, 10_000)]), 510_000, 500_000, 9755, 10_000, 0)
        .unwrap();
    assert_eq!(response.alkanes, vec![t(B, 9755), t(A, 50)]);
}
