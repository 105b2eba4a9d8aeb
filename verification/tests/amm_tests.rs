use anchor_v2_uniswap::constants::{FEE_LIMIT, MINIMUM_LIQUIDITY};
use anchor_v2_uniswap::errors::TutorialError;
use anchor_v2_uniswap::instructions::create_amm::create_amm;
use anchor_v2_uniswap::instructions::create_pool::create_pool;
use anchor_v2_uniswap::instructions::deposit_liquidity::{deposit_is_defined, deposit_liquidity, DepositPlan};
use anchor_v2_uniswap::instructions::swap_exact_tokens_for_tokens::{
    check_invariant, swap_exact_tokens_for_tokens, swap_is_defined, SwapPlan,
};
use anchor_v2_uniswap::instructions::withdraw_liquidity::{withdraw_is_defined, withdraw_liquidity, WithdrawPlan};
use anchor_v2_uniswap::state::{Amm, Pool, Pubkey};

fn key(last: u8) -> Pubkey {
    let mut bytes = [7u8; 32];
    bytes[31] = last;
    Pubkey { bytes }
}

#[test]
fn create_amm_accepts_fee_below_limit() {
    let amm = create_amm(key(1), key(2), 9999).unwrap();
    assert_eq!(amm, Amm { id: key(1), admin: key(2), fee: 9999 });
    assert_eq!(create_amm(key(1), key(2), 0).unwrap().fee, 0);
}

#[test]
fn create_amm_rejects_fee_at_or_above_limit() {
    assert_eq!(create_amm(key(1), key(2), FEE_LIMIT), Err(TutorialError::InvalidFee));
    assert_eq!(create_amm(key(1), key(2), u16::MAX), Err(TutorialError::InvalidFee));
}

#[test]
fn pubkey_order_is_lexicographic() {
    let mut low = [0u8; 32];
    let mut high = [0u8; 32];
    low[0] = 1;
    low[31] = 255;
    high[0] = 2;
    assert!(Pubkey { bytes: low }.lt(&Pubkey { bytes: high }));
    assert!(!Pubkey { bytes: high }.lt(&Pubkey { bytes: low }));
    assert!(!key(3).lt(&key(3)));
    assert!(key(3).lt(&key(4)));
}

#[test]
fn create_pool_accepts_increasing_mints() {
    let pool = create_pool(key(9), key(1), key(2), key(1), key(2)).unwrap();
    assert_eq!(pool, Pool { amm: key(9), mint_a: key(1), mint_b: key(2) });
    // the order is checked on the mint accounts; the given mints are recorded
    let pool = create_pool(key(9), key(1), key(2), key(5), key(4)).unwrap();
    assert_eq!(pool, Pool { amm: key(9), mint_a: key(5), mint_b: key(4) });
}

#[test]
fn create_pool_rejects_equal_or_decreasing_mints() {
    assert_eq!(create_pool(key(9), key(2), key(2), key(2), key(2)), Err(TutorialError::InvalidMint));
    assert_eq!(create_pool(key(9), key(3), key(2), key(3), key(2)), Err(TutorialError::InvalidMint));
    assert_eq!(create_pool(key(9), key(3), key(2), key(1), key(2)), Err(TutorialError::InvalidMint));
}

#[test]
fn first_deposit_locks_minimum_liquidity() {
    // sqrt(1000 * 1000) = 1000, less the locked 100
    let plan = deposit_liquidity(1000, 1000, 5000, 5000, 0, 0).unwrap();
    assert_eq!(plan, DepositPlan { amount_a: 1000, amount_b: 1000, liquidity: 900 });
    // sqrt(2 * 5000) = 100 exactly: nothing left over, but accepted
    let plan = deposit_liquidity(2, 5000, 2, 5000, 0, 0).unwrap();
    assert_eq!(plan.liquidity, 0);
    // sqrt(123 * 456) = 236.8... rounds down to 236
    let plan = deposit_liquidity(123, 456, 1000, 1000, 0, 0).unwrap();
    assert_eq!(plan.liquidity, 236 - MINIMUM_LIQUIDITY);
}

#[test]
fn first_deposit_too_small_is_refused() {
    assert_eq!(deposit_liquidity(50, 50, 100, 100, 0, 0), Err(TutorialError::DepositTooSmall));
    // 99 * 101 = 9999 < 100 * 100
    assert_eq!(deposit_liquidity(99, 101, 100, 200, 0, 0), Err(TutorialError::DepositTooSmall));
}

#[test]
fn deposit_is_capped_by_balances() {
    let plan = deposit_liquidity(10_000, 10_000, 400, 900, 0, 0).unwrap();
    assert_eq!(plan.amount_a, 400);
    assert_eq!(plan.amount_b, 900);
    // sqrt(360000) = 600
    assert_eq!(plan.liquidity, 500);
}

#[test]
fn deposit_fits_a_side_to_pool_ratio() {
    // pool ratio 2:1, so A is fitted to twice B
    let plan = deposit_liquidity(500, 100, 1000, 1000, 2000, 1000).unwrap();
    assert_eq!(plan, DepositPlan { amount_a: 200, amount_b: 100, liquidity: 141 });
}

#[test]
fn deposit_fits_b_side_to_pool_ratio() {
    // pool ratio 1:3, so B is fitted to three times A
    let plan = deposit_liquidity(100, 5, 1000, 1000, 1000, 3000).unwrap();
    assert_eq!(plan, DepositPlan { amount_a: 100, amount_b: 300, liquidity: 173 });
    // equal balances: B follows A
    let plan = deposit_liquidity(40, 7, 1000, 1000, 500, 500).unwrap();
    assert_eq!(plan, DepositPlan { amount_a: 40, amount_b: 40, liquidity: 40 });
}

#[test]
fn deposit_follows_ratio_on_concrete_values() {
    let (pool_a, pool_b) = (7000u64, 3000u64);
    let plan = deposit_liquidity(1000, 333, 5000, 5000, pool_a, pool_b).unwrap();
    assert!(plan.amount_a * pool_b <= plan.amount_b * pool_a);
    let (pool_a, pool_b) = (3000u64, 7000u64);
    let plan = deposit_liquidity(333, 1000, 5000, 5000, pool_a, pool_b).unwrap();
    assert!(plan.amount_a * pool_b < (plan.amount_b + 1) * pool_a);
}

#[test]
fn swap_without_fee_follows_constant_product() {
    let plan = swap_exact_tokens_for_tokens(true, 100, 0, 0, 1000, 1000, 1000, 1000).unwrap();
    // 100 * 1000 / 1100 = 90.9...
    assert_eq!(plan, SwapPlan { input: 100, taxed_input: 100, output: 90, product_before: 1_000_000 });
}

#[test]
fn swap_takes_fee_per_thousand() {
    // 100 * 30 / 1000 = 3; 97 * 2000 / (1000 + 97) = 176.8...
    let plan = swap_exact_tokens_for_tokens(true, 100, 0, 30, 1000, 1000, 1000, 2000).unwrap();
    assert_eq!(plan.taxed_input, 97);
    assert_eq!(plan.output, 176);
}

#[test]
fn swap_b_for_a() {
    // 50 * 1000 / (4000 + 50) = 12.3...
    let plan = swap_exact_tokens_for_tokens(false, 50, 12, 0, 0, 1000, 1000, 4000).unwrap();
    assert_eq!(plan.output, 12);
    assert_eq!(plan.product_before, 4_000_000);
}

#[test]
fn swap_input_is_capped_by_trader_balance() {
    let plan = swap_exact_tokens_for_tokens(true, 500, 0, 0, 100, 9999, 1000, 1000).unwrap();
    assert_eq!(plan.input, 100);
    let plan = swap_exact_tokens_for_tokens(false, 500, 0, 0, 9999, 20, 1000, 1000).unwrap();
    assert_eq!(plan.input, 20);
    // 20 * 1000 / 1020 = 19.6...
    assert_eq!(plan.output, 19);
}

#[test]
fn swap_below_minimum_output_is_refused() {
    assert_eq!(
        swap_exact_tokens_for_tokens(true, 100, 91, 0, 1000, 1000, 1000, 1000),
        Err(TutorialError::OutputTooSmall)
    );
    assert!(swap_exact_tokens_for_tokens(true, 100, 90, 0, 1000, 1000, 1000, 1000).is_ok());
}

#[test]
fn swap_keeps_product_on_concrete_values() {
    let (pool_a, pool_b) = (12_345u64, 67_890u64);
    let plan = swap_exact_tokens_for_tokens(true, 999, 0, 7, 5000, 0, pool_a, pool_b).unwrap();
    assert!(plan.output <= pool_b);
    let after_a = pool_a + plan.input;
    let after_b = pool_b - plan.output;
    assert!(after_a * after_b >= plan.product_before);
    assert_eq!(check_invariant(plan.product_before, after_a, after_b), Ok(()));
}

#[test]
fn invariant_check_refuses_a_lower_product() {
    assert_eq!(check_invariant(1_000_000, 1100, 909), Err(TutorialError::InvariantViolated));
    assert_eq!(check_invariant(1_000_000, 1100, 910), Ok(()));
    assert_eq!(check_invariant(1_000_000, 1000, 1000), Ok(()));
}

#[test]
fn withdraw_pays_share_of_pool() {
    // 50 * 1000 / (900 + 100) = 50; 50 * 2000 / 1000 = 100
    assert_eq!(withdraw_liquidity(50, 1000, 2000, 900), WithdrawPlan { amount_a: 50, amount_b: 100 });
    // 333 * 1000 / 1100 = 302.7...; 333 * 7 / 1100 = 2.1...
    assert_eq!(withdraw_liquidity(333, 1000, 7, 1000), WithdrawPlan { amount_a: 302, amount_b: 2 });
    assert_eq!(withdraw_liquidity(0, 1000, 7, 1000), WithdrawPlan { amount_a: 0, amount_b: 0 });
}

#[test]
fn withdraw_of_whole_supply_stays_within_pool() {
    let (pool_a, pool_b, supply) = (5000u64, 80u64, 900u64);
    let plan = withdraw_liquidity(supply, pool_a, pool_b, supply);
    assert!(plan.amount_a <= pool_a && plan.amount_b <= pool_b);
    // the locked minimum keeps a tenth of the pool here
    assert_eq!(plan, WithdrawPlan { amount_a: 4500, amount_b: 72 });
}

#[test]
fn deposit_domain_is_decided_exactly() {
    assert!(deposit_is_defined(1000, 1000, 5000, 5000, 0, 0));
    // the ratio divides by the B balance
    assert!(!deposit_is_defined(10, 10, 100, 100, 50, 0));
    // fitting B divides by the ratio, which is zero with no A in the pool
    assert!(!deposit_is_defined(10, 10, 100, 100, 0, 50));
    // amounts of 2^63 or more do not fit in I64F64
    assert!(!deposit_is_defined(1 << 63, 1, u64::MAX, 1, 0, 0));
    // the product of the amounts must stay below 2^63
    assert!(!deposit_is_defined(1 << 32, 1 << 31, u64::MAX, u64::MAX, 0, 0));
    assert!(deposit_is_defined((1 << 32) - 1, 1 << 31, u64::MAX, u64::MAX, 0, 0));
}

#[test]
fn swap_domain_is_decided_exactly() {
    assert!(swap_is_defined(true, 100, 0, 30, 1000, 1000, 1000, 1000));
    // a fee above 1000 per thousand takes more than the input
    assert!(!swap_is_defined(true, 100, 0, 2000, 1000, 1000, 1000, 1000));
    // nothing taxed into an empty side divides by zero
    assert!(!swap_is_defined(true, 0, 0, 0, 1000, 1000, 0, 1000));
    // the product of the pool's balances must fit in u64 once the output is accepted
    assert!(!swap_is_defined(true, 1, 0, 0, 10, 10, 1 << 40, 1 << 30));
    assert!(swap_is_defined(true, 1, 1, 0, 10, 10, 1 << 40, 1 << 30));
}

#[test]
fn withdraw_domain_is_decided_exactly() {
    assert!(withdraw_is_defined(50, 1000, 2000, 900));
    assert!(!withdraw_is_defined(50, 1000, 2000, (1 << 63) - 100));
    assert!(withdraw_is_defined(50, 1000, 2000, (1 << 63) - 101));
    assert!(!withdraw_is_defined(1 << 32, 1 << 31, 1, 900));
}

#[test]
fn swap_output_grows_with_input_and_falls_with_fee() {
    let quote = |input: u64, fee: u16| {
        swap_exact_tokens_for_tokens(true, input, 0, fee, 1_000_000, 0, 50_000, 80_000).unwrap().output
    };
    let mut last = 0;
    for input in [0u64, 1, 2, 10, 99, 100, 101, 1000, 5000, 123_456] {
        let out = quote(input, 30);
        assert!(out >= last);
        last = out;
    }
    let mut last = u64::MAX;
    for fee in [0u16, 1, 5, 30, 100, 999, 1000] {
        let out = quote(5000, fee);
        assert!(out <= last);
        last = out;
    }
    // with no fee, the plain constant-product price: 5000 * 80000 / 55000
    assert_eq!(quote(5000, 0), 7272);
    // with the whole input taken as fee, nothing comes out
    assert_eq!(quote(5000, 1000), 0);
}

#[test]
fn deposit_fitting_b_can_exceed_the_share_by_rounding() {
    // the ratio 3 / (3 * 2^40 + 1) rounds down to 2^24 - 1 bits, so one unit
    // of A fits 2^40 + 2^16 units of B where the exact share is 2^40 + 1/3
    let pool_b = 3 * (1u64 << 40) + 1;
    let plan = deposit_liquidity(1, u64::MAX, 10, u64::MAX, 3, pool_b).unwrap();
    assert_eq!(plan.amount_a, 1);
    assert_eq!(plan.amount_b, (1u64 << 40) + (1 << 16));
}
