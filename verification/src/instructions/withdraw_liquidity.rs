//! Withdrawing liquidity: burning liquidity tokens for a share of a pool.
use vstd::prelude::*;
use vstd::arithmetic::div_mod::{lemma_div_is_ordered, lemma_div_multiples_vanish, lemma_div_pos_is_pos};
use vstd::arithmetic::mul::lemma_mul_nonnegative;

use crate::constants::MINIMUM_LIQUIDITY;
use crate::fixed_point::{
    fixed_checked_div, fixed_checked_mul, fixed_floor, fixed_from_u64, fixed_to_u64, fx_int_bound,
    fx_one, lemma_bits_int_part, lemma_div_cancel_one, lemma_int_bits_fit, lemma_mul_int_bits,
    lemma_nested_floor,
};

verus! {

/// What a withdrawal pays out of the pool: `amount_a` of token A and
/// `amount_b` of token B.
#[derive(Clone, Copy, Debug, PartialEq, Eq, Structural)]
pub struct WithdrawPlan {
    pub amount_a: u64,
    pub amount_b: u64,
}

/// The share of a pool balance that `amount` liquidity tokens are worth:
/// `amount * pool / (supply + MINIMUM_LIQUIDITY)`, rounded down. The locked
/// minimum liquidity counts in the divisor, so it is never paid out.
pub open spec fn withdraw_share(amount: int, pool: int, supply: int) -> int {
    amount * pool / (supply + MINIMUM_LIQUIDITY)
}

/// A withdrawal's share of a pool balance is `amount * pool` divided by the
/// supply plus the locked minimum, rounded down: the largest amount whose
/// product with that divisor is at most `amount * pool`.
pub proof fn lemma_withdraw_share_is_floor(amount: int, pool: int, supply: int)
    requires
        supply >= 0,
    ensures
        withdraw_share(amount, pool, supply) * (supply + MINIMUM_LIQUIDITY) <= amount * pool,
        amount * pool < (withdraw_share(amount, pool, supply) + 1) * (supply + MINIMUM_LIQUIDITY),
{
    let d = supply + MINIMUM_LIQUIDITY;
    let q = withdraw_share(amount, pool, supply);
    vstd::arithmetic::div_mod::lemma_fundamental_div_mod(amount * pool, d);
    vstd::arithmetic::div_mod::lemma_mod_bound(amount * pool, d);
    assert(q * d <= amount * pool && amount * pool < (q + 1) * d) by (nonlinear_arith)
        requires
            amount * pool == d * q + (amount * pool) % d,
            0 <= (amount * pool) % d < d,
    ;
}

/// The inputs on which a withdrawal runs to its end without a panic: every
/// amount turned into a fixed-point number fits in it (the supply plus the
/// locked minimum included, which then also fits in `u64`), and the
/// fixed-point products fit.
pub open spec fn withdraw_defined(amount: u64, pool_a: u64, pool_b: u64, supply: u64) -> bool {
    &&& amount < fx_int_bound()
    &&& pool_a < fx_int_bound()
    &&& pool_b < fx_int_bound()
    &&& supply + MINIMUM_LIQUIDITY < fx_int_bound()
    &&& amount * pool_a < fx_int_bound()
    &&& amount * pool_b < fx_int_bound()
}

/// `amount * pool / (supply + MINIMUM_LIQUIDITY)` computed in `I64F64`:
/// product, quotient, rounded down to an integer, converted back.
fn pool_share(amount: u64, pool: u64, supply: u64) -> (share: u64)
    requires
        amount < fx_int_bound(),
        pool < fx_int_bound(),
        supply + MINIMUM_LIQUIDITY < fx_int_bound(),
        amount * pool < fx_int_bound(),
    ensures
        share == withdraw_share(amount as int, pool as int, supply as int),
{
    let x = fixed_from_u64(amount);
    let p = fixed_from_u64(pool);
    proof {
        lemma_mul_int_bits(amount as int, p as int);
        assert((amount as int) * (pool as int * fx_one()) == (amount as int * pool as int) * fx_one())
            by (nonlinear_arith);
        lemma_int_bits_fit(amount as int * pool as int);
    }
    let num = fixed_checked_mul(x, p).unwrap();
    let total = supply + MINIMUM_LIQUIDITY;
    let d = fixed_from_u64(total);
    let ghost n = amount as int * pool as int;
    proof {
        lemma_mul_nonnegative(amount as int, pool as int);
        lemma_div_cancel_one(n * fx_one(), total as int);
        assert(n * fx_one() / (total as int) <= n * fx_one()) by {
            vstd::arithmetic::div_mod::lemma_div_is_ordered_by_denominator(n * fx_one(), 1, total as int);
        }
    }
    let q = fixed_checked_div(num, d).unwrap();
    proof {
        lemma_nested_floor(n, total as int);
        lemma_div_pos_is_pos(n * fx_one(), total as int);
    }
    let f = fixed_floor(q);
    proof {
        lemma_div_pos_is_pos(q as int, fx_one());
        lemma_div_multiples_vanish(q as int / fx_one(), fx_one());
        assert((q as int / fx_one()) * fx_one() == fx_one() * (q as int / fx_one())) by (nonlinear_arith);
        assert(f >= 0) by (nonlinear_arith)
            requires f == (q as int / fx_one()) * fx_one(), q as int / fx_one() >= 0, fx_one() > 0;
    }
    fixed_to_u64(f)
}

/// Plans a withdrawal of `amount` liquidity tokens from a pool holding
/// `pool_a` and `pool_b`, whose liquidity mint has `supply` tokens out:
/// each side pays `amount * pool / (supply + MINIMUM_LIQUIDITY)`, rounded
/// down. The transfers and the burn of the liquidity tokens are the
/// caller's.
pub fn withdraw_liquidity(amount: u64, pool_a: u64, pool_b: u64, supply: u64) -> (plan: WithdrawPlan)
    requires
        withdraw_defined(amount, pool_a, pool_b, supply),
    ensures
        plan.amount_a == withdraw_share(amount as int, pool_a as int, supply as int),
        plan.amount_b == withdraw_share(amount as int, pool_b as int, supply as int),
        // each side is amount * pool / (supply + MINIMUM_LIQUIDITY), rounded down
        plan.amount_a * (supply + MINIMUM_LIQUIDITY) <= amount * pool_a,
        amount * pool_a < (plan.amount_a + 1) * (supply + MINIMUM_LIQUIDITY),
        plan.amount_b * (supply + MINIMUM_LIQUIDITY) <= amount * pool_b,
        amount * pool_b < (plan.amount_b + 1) * (supply + MINIMUM_LIQUIDITY),
{
    proof {
        lemma_withdraw_share_is_floor(amount as int, pool_a as int, supply as int);
        lemma_withdraw_share_is_floor(amount as int, pool_b as int, supply as int);
    }
    let amount_a = pool_share(amount, pool_a, supply);
    let amount_b = pool_share(amount, pool_b, supply);
    WithdrawPlan { amount_a, amount_b }
}

/// Burning at most the whole supply of liquidity tokens never pays out more
/// than the pool holds, on either side.
pub proof fn lemma_withdraw_within_pool(amount: u64, pool_a: u64, pool_b: u64, supply: u64)
    requires
        amount <= supply,
    ensures
        withdraw_share(amount as int, pool_a as int, supply as int) <= pool_a,
        withdraw_share(amount as int, pool_b as int, supply as int) <= pool_b,
{
    lemma_share_within_pool(amount as int, pool_a as int, supply as int);
    lemma_share_within_pool(amount as int, pool_b as int, supply as int);
}

proof fn lemma_share_within_pool(amount: int, pool: int, supply: int)
    requires
        0 <= amount <= supply,
        pool >= 0,
    ensures
        withdraw_share(amount, pool, supply) <= pool,
{
    let d = supply + MINIMUM_LIQUIDITY;
    assert(amount * pool <= d * pool) by (nonlinear_arith)
        requires 0 <= amount <= d, pool >= 0;
    lemma_div_is_ordered(amount * pool, d * pool, d);
    assert(d * pool / d == pool) by {
        assert(d * pool == pool * d) by (nonlinear_arith);
        vstd::arithmetic::div_mod::lemma_div_by_multiple(pool, d);
    }
}

/// Whether a withdrawal runs to its end without a panic
/// (`withdraw_defined`), decided with exact integer arithmetic, for callers
/// to test before they call `withdraw_liquidity`.
pub fn withdraw_is_defined(amount: u64, pool_a: u64, pool_b: u64, supply: u64) -> (r: bool)
    ensures
        r == withdraw_defined(amount, pool_a, pool_b, supply),
{
    let bound: u128 = 0x8000_0000_0000_0000;
    let amount = amount as u128;
    let pool_a = pool_a as u128;
    let pool_b = pool_b as u128;
    if amount >= bound || pool_a >= bound || pool_b >= bound {
        return false;
    }
    assert(amount * pool_a < bound * bound && amount * pool_b < bound * bound) by (nonlinear_arith)
        requires amount < bound, pool_a < bound, pool_b < bound;
    (supply as u128) + (MINIMUM_LIQUIDITY as u128) < bound && amount * pool_a < bound && amount * pool_b < bound
}

} // verus!
