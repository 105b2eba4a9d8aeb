//! Swapping an exact input of one token of a pool for the other token.
use vstd::prelude::*;
use vstd::arithmetic::div_mod::*;
use vstd::arithmetic::mul::*;

use crate::constants::FEE_DENOMINATOR;
use crate::errors::TutorialError;
use crate::fixed_point::{
    fixed_checked_add, fixed_checked_div, fixed_checked_mul, fixed_from_u64, fixed_to_u64, fx_int_bound,
    fx_one, lemma_div_cancel_one, lemma_int_bits_fit, lemma_mul_int_bits, lemma_nested_floor,
};

verus! {

/// What a swap moves: the trader pays `input` of the token going in, of
/// which `taxed_input` counts after the fee, and receives `output` of the
/// other token; `product_before` is the product of the pool's balances before the
/// swap, which the product after it must not fall below.
#[derive(Clone, Copy, Debug, PartialEq, Eq, Structural)]
pub struct SwapPlan {
    pub input: u64,
    pub taxed_input: u64,
    pub output: u64,
    pub product_before: u64,
}

/// The input that a swap takes: the amount asked for, capped by the trader's
/// balance of the token going in (token A when `swap_a`).
pub open spec fn swap_input(swap_a: bool, input_amount: u64, trader_a: u64, trader_b: u64) -> int {
    if swap_a && input_amount > trader_a {
        trader_a as int
    } else if !swap_a && input_amount > trader_b {
        trader_b as int
    } else {
        input_amount as int
    }
}

/// The input less the fee, `input * fee / 1000` rounded down.
pub open spec fn taxed_input(input: int, fee: int) -> int {
    input - input * fee / (FEE_DENOMINATOR as int)
}

/// The constant-product output for a taxed input into a pool holding
/// `pool_in` of the token going in and `pool_out` of the other, rounded down.
pub open spec fn swap_output(taxed: int, pool_in: int, pool_out: int) -> int {
    taxed * pool_out / (pool_in + taxed)
}

/// The pool's balance of the token going in, and of the token going out.
pub open spec fn swap_sides(swap_a: bool, pool_a: u64, pool_b: u64) -> (int, int) {
    if swap_a {
        (pool_a as int, pool_b as int)
    } else {
        (pool_b as int, pool_a as int)
    }
}

/// The input a swap takes is the smaller of the amount asked for and the
/// trader's balance of the token going in: never more than either, and
/// equal to one of them.
pub proof fn lemma_swap_input_is_capped(swap_a: bool, input_amount: u64, trader_a: u64, trader_b: u64)
    ensures
        ({
            let input = swap_input(swap_a, input_amount, trader_a, trader_b);
            let balance = if swap_a { trader_a } else { trader_b };
            &&& input <= input_amount
            &&& input <= balance
            &&& (input == input_amount || input == balance)
        }),
{
}

/// The fee taken from an input is `input * fee / 1000` rounded down: the
/// largest amount whose thousandfold is at most `input * fee`.
pub proof fn lemma_taxed_input_takes_fee(input: int, fee: int)
    requires
        input >= 0,
        fee >= 0,
    ensures
        (input - taxed_input(input, fee)) * FEE_DENOMINATOR <= input * fee,
        input * fee < (input - taxed_input(input, fee) + 1) * FEE_DENOMINATOR,
{
    let d = FEE_DENOMINATOR as int;
    lemma_mul_nonnegative(input, fee);
    lemma_fundamental_div_mod(input * fee, d);
    lemma_mod_pos_bound(input * fee, d);
}

/// The constant-product output is the taxed input's share of the balance
/// going out, rounded down: the largest amount whose product with the
/// balance coming in plus the taxed input is at most `taxed * pool_out`.
pub proof fn lemma_swap_output_is_floor(taxed: int, pool_in: int, pool_out: int)
    requires
        pool_in + taxed > 0,
    ensures
        swap_output(taxed, pool_in, pool_out) * (pool_in + taxed) <= taxed * pool_out,
        taxed * pool_out < (swap_output(taxed, pool_in, pool_out) + 1) * (pool_in + taxed),
{
    let d = pool_in + taxed;
    let o = swap_output(taxed, pool_in, pool_out);
    lemma_fundamental_div_mod(taxed * pool_out, d);
    lemma_mod_bound(taxed * pool_out, d);
    assert(o * d <= taxed * pool_out && taxed * pool_out < (o + 1) * d) by (nonlinear_arith)
        requires
            taxed * pool_out == d * o + (taxed * pool_out) % d,
            0 <= (taxed * pool_out) % d < d,
    ;
}

/// The inputs on which a swap runs to its end without a panic: the fee
/// arithmetic in `u64` does not overflow or underflow, every amount turned
/// into a fixed-point number fits in it, the product and sum in fixed point
/// fit, the divisor is not zero, and, when the output is accepted, the
/// product of the pool's balances fits in `u64`.
pub open spec fn swap_defined(
    swap_a: bool,
    input_amount: u64,
    min_output_amount: u64,
    fee: u16,
    trader_a: u64,
    trader_b: u64,
    pool_a: u64,
    pool_b: u64,
) -> bool {
    let input = swap_input(swap_a, input_amount, trader_a, trader_b);
    let taxed = taxed_input(input, fee as int);
    let (pool_in, pool_out) = swap_sides(swap_a, pool_a, pool_b);
    &&& input * fee <= u64::MAX
    &&& input * fee / (FEE_DENOMINATOR as int) <= input
    &&& taxed < fx_int_bound()
    &&& pool_a < fx_int_bound()
    &&& pool_b < fx_int_bound()
    &&& taxed * pool_out < fx_int_bound()
    &&& pool_in + taxed < fx_int_bound()
    &&& pool_in + taxed > 0
    &&& swap_output(taxed, pool_in, pool_out) >= min_output_amount ==> pool_a * pool_b <= u64::MAX
}

/// The constant-product output `taxed * pool_out / (pool_in + taxed)`,
/// computed in `I64F64` as the product of the taxed input and the balance
/// going out, divided by the sum of the balance coming in and the taxed
/// input, and converted back to an integer.
fn constant_product_output(taxed: u64, pool_in: u64, pool_out: u64) -> (output: u64)
    requires
        taxed < fx_int_bound(),
        pool_in < fx_int_bound(),
        pool_out < fx_int_bound(),
        taxed * pool_out < fx_int_bound(),
        pool_in + taxed < fx_int_bound(),
        pool_in + taxed > 0,
    ensures
        output == swap_output(taxed as int, pool_in as int, pool_out as int),
{
    let t = fixed_from_u64(taxed);
    let o = fixed_from_u64(pool_out);
    proof {
        lemma_mul_int_bits(taxed as int, o as int);
        assert((taxed as int) * (pool_out as int * fx_one()) == (taxed as int * pool_out as int) * fx_one())
            by (nonlinear_arith);
        lemma_int_bits_fit(taxed as int * pool_out as int);
    }
    let num = fixed_checked_mul(t, o).unwrap();
    assert(num == (taxed as int * pool_out as int) * fx_one());
    let i = fixed_from_u64(pool_in);
    proof {
        assert(i + t == (pool_in + taxed) * fx_one()) by (nonlinear_arith)
            requires i == pool_in * fx_one(), t == taxed * fx_one();
        lemma_int_bits_fit(pool_in + taxed);
    }
    let den = fixed_checked_add(i, t).unwrap();
    proof {
        lemma_div_cancel_one((taxed as int * pool_out as int) * fx_one(), (pool_in + taxed) as int);
        assert((num as int) * fx_one() / (den as int)
            == (taxed as int * pool_out as int) * fx_one() / ((pool_in + taxed) as int));
        lemma_div_is_ordered_by_denominator((taxed as int * pool_out as int) * fx_one(), 1, (pool_in + taxed) as int);
        lemma_int_bits_fit(taxed as int * pool_out as int);
    }
    let q = fixed_checked_div(num, den).unwrap();
    proof {
        lemma_nested_floor(taxed as int * pool_out as int, (pool_in + taxed) as int);
    }
    fixed_to_u64(q)
}

/// Plans a swap of `input_amount` (capped by the trader's balance) of token
/// A for token B when `swap_a`, else of B for A, in a pool holding
/// `pool_a` and `pool_b` of an AMM charging `fee`.
///
/// Refused with `OutputTooSmall` exactly when the output falls below
/// `min_output_amount`. The plan's `product_before` is the product of the pool's
/// balances before the swap; the transfers are the caller's, and so is the
/// check of that product afterwards (`check_invariant`).
pub fn swap_exact_tokens_for_tokens(
    swap_a: bool,
    input_amount: u64,
    min_output_amount: u64,
    fee: u16,
    trader_a: u64,
    trader_b: u64,
    pool_a: u64,
    pool_b: u64,
) -> (res: Result<SwapPlan, TutorialError>)
    requires
        swap_defined(swap_a, input_amount, min_output_amount, fee, trader_a, trader_b, pool_a, pool_b),
    ensures
        ({
            let input = swap_input(swap_a, input_amount, trader_a, trader_b);
            let taxed = taxed_input(input, fee as int);
            let (pool_in, pool_out) = swap_sides(swap_a, pool_a, pool_b);
            let output = swap_output(taxed, pool_in, pool_out);
            &&& (res is Err <==> output < min_output_amount)
            &&& (res matches Err(e) ==> e == TutorialError::OutputTooSmall)
            &&& (res matches Ok(plan) ==> {
                &&& plan.input == input
                &&& plan.taxed_input == taxed
                &&& plan.output == output
                &&& plan.product_before == pool_a * pool_b
                // the input is the amount asked for, capped by the trader's balance
                &&& plan.input <= input_amount
                &&& plan.input <= (if swap_a { trader_a } else { trader_b })
                &&& (plan.input == input_amount || plan.input == (if swap_a { trader_a } else { trader_b }))
                // the fee is input * fee / 1000, rounded down
                &&& plan.taxed_input <= plan.input
                &&& (plan.input - plan.taxed_input) * FEE_DENOMINATOR <= plan.input * fee
                &&& plan.input * fee < (plan.input - plan.taxed_input + 1) * FEE_DENOMINATOR
                // the output is taxed * pool_out / (pool_in + taxed), rounded down
                &&& plan.output * (pool_in + plan.taxed_input) <= plan.taxed_input * pool_out
                &&& plan.taxed_input * pool_out < (plan.output + 1) * (pool_in + plan.taxed_input)
            })
        }),
{
    proof {
        let input = swap_input(swap_a, input_amount, trader_a, trader_b);
        let taxed = taxed_input(input, fee as int);
        let (pool_in, pool_out) = swap_sides(swap_a, pool_a, pool_b);
        lemma_swap_input_is_capped(swap_a, input_amount, trader_a, trader_b);
        lemma_taxed_input_takes_fee(input, fee as int);
        lemma_div_pos_is_pos(input * fee, FEE_DENOMINATOR as int);
        lemma_swap_output_is_floor(taxed, pool_in, pool_out);
    }
    let input = if swap_a && input_amount > trader_a {
        trader_a
    } else if !swap_a && input_amount > trader_b {
        trader_b
    } else {
        input_amount
    };
    let taxed = input - input * (fee as u64) / FEE_DENOMINATOR;
    let output = if swap_a {
        constant_product_output(taxed, pool_a, pool_b)
    } else {
        constant_product_output(taxed, pool_b, pool_a)
    };
    if output < min_output_amount {
        return Err(TutorialError::OutputTooSmall);
    }
    let product_before = pool_a * pool_b;
    Ok(SwapPlan { input, taxed_input: taxed, output, product_before })
}

/// Checks the pool's balances after a swap against the product before it:
/// refused with `InvariantViolated` exactly when the product went down.
pub fn check_invariant(product_before: u64, pool_a_after: u64, pool_b_after: u64) -> (res: Result<(), TutorialError>)
    requires
        pool_a_after * pool_b_after <= u64::MAX,
    ensures
        res is Err <==> product_before > pool_a_after * pool_b_after,
        res matches Err(e) ==> e == TutorialError::InvariantViolated,
{
    if product_before > pool_a_after * pool_b_after {
        return Err(TutorialError::InvariantViolated);
    }
    Ok(())
}

/// The constant-product output never exceeds what the pool holds of the
/// token going out, and paying the whole input in while paying that output
/// out never lowers the product of the pool's balances.
pub proof fn lemma_output_keeps_product(input: int, taxed: int, pool_in: int, pool_out: int)
    requires
        0 <= taxed <= input,
        pool_in >= 0,
        pool_out >= 0,
        pool_in + taxed > 0,
    ensures
        0 <= swap_output(taxed, pool_in, pool_out) <= pool_out,
        (pool_in + input) * (pool_out - swap_output(taxed, pool_in, pool_out)) >= pool_in * pool_out,
{
    let d = pool_in + taxed;
    let o = swap_output(taxed, pool_in, pool_out);
    lemma_fundamental_div_mod(taxed * pool_out, d);
    lemma_mod_pos_bound(taxed * pool_out, d);
    lemma_mul_nonnegative(taxed, pool_out);
    lemma_div_pos_is_pos(taxed * pool_out, d);
    assert(o <= pool_out) by (nonlinear_arith)
        requires
            d * o <= taxed * pool_out,
            0 <= taxed <= d,
            pool_out >= 0,
            d > 0,
    ;
    assert((pool_in + input) * (pool_out - o) >= pool_in * pool_out) by (nonlinear_arith)
        requires
            d * o <= taxed * pool_out,
            d == pool_in + taxed,
            taxed <= input,
            o <= pool_out,
    ;
}

/// A swap that is not refused never lowers the product of the pool's
/// balances: once the trader's whole input is in the pool and the output is
/// out of it, the product is at least the plan's `product_before`, so the
/// check after the transfers (`check_invariant`) passes; and the output
/// never exceeds the pool's balance of the token going out.
pub proof fn lemma_swap_keeps_product(
    swap_a: bool,
    input_amount: u64,
    min_output_amount: u64,
    fee: u16,
    trader_a: u64,
    trader_b: u64,
    pool_a: u64,
    pool_b: u64,
)
    requires
        swap_defined(swap_a, input_amount, min_output_amount, fee, trader_a, trader_b, pool_a, pool_b),
    ensures
        ({
            let input = swap_input(swap_a, input_amount, trader_a, trader_b);
            let taxed = taxed_input(input, fee as int);
            let (pool_in, pool_out) = swap_sides(swap_a, pool_a, pool_b);
            let output = swap_output(taxed, pool_in, pool_out);
            &&& 0 <= output <= pool_out
            &&& swap_a ==> (pool_a + input) * (pool_b - output) >= pool_a * pool_b
            &&& !swap_a ==> (pool_a - output) * (pool_b + input) >= pool_a * pool_b
        }),
{
    let input = swap_input(swap_a, input_amount, trader_a, trader_b);
    let taxed = taxed_input(input, fee as int);
    let (pool_in, pool_out) = swap_sides(swap_a, pool_a, pool_b);
    lemma_div_pos_is_pos(input * fee, FEE_DENOMINATOR as int);
    lemma_output_keeps_product(input, taxed, pool_in, pool_out);
    let output = swap_output(taxed, pool_in, pool_out);
    if !swap_a {
        assert((pool_a - output) * (pool_b + input) == (pool_b + input) * (pool_a - output)) by (nonlinear_arith);
        assert(pool_a * pool_b == pool_b * pool_a) by (nonlinear_arith);
    }
}

/// Whether a swap runs to its end without a panic (`swap_defined`),
/// decided with exact integer arithmetic, for callers to test before they
/// call `swap_exact_tokens_for_tokens`.
pub fn swap_is_defined(
    swap_a: bool,
    input_amount: u64,
    min_output_amount: u64,
    fee: u16,
    trader_a: u64,
    trader_b: u64,
    pool_a: u64,
    pool_b: u64,
) -> (r: bool)
    ensures
        r == swap_defined(swap_a, input_amount, min_output_amount, fee, trader_a, trader_b, pool_a, pool_b),
{
    let bound: u128 = 0x8000_0000_0000_0000;
    let input: u128 = if swap_a && input_amount > trader_a {
        trader_a as u128
    } else if !swap_a && input_amount > trader_b {
        trader_b as u128
    } else {
        input_amount as u128
    };
    assert(input * fee <= 0xffff_ffff_ffff_ffff * 0xffff) by (nonlinear_arith)
        requires input <= 0xffff_ffff_ffff_ffffu128, fee <= 0xffffu16;
    let fee_part: u128 = input * (fee as u128);
    if fee_part > 0xffff_ffff_ffff_ffff {
        return false;
    }
    let cut: u128 = fee_part / (FEE_DENOMINATOR as u128);
    if cut > input {
        return false;
    }
    let taxed: u128 = input - cut;
    if taxed >= bound || pool_a as u128 >= bound || pool_b as u128 >= bound {
        return false;
    }
    let pool_in: u128 = if swap_a { pool_a as u128 } else { pool_b as u128 };
    let pool_out: u128 = if swap_a { pool_b as u128 } else { pool_a as u128 };
    assert(taxed * pool_out < bound * bound) by (nonlinear_arith)
        requires taxed < bound, pool_out < bound;
    if taxed * pool_out >= bound {
        return false;
    }
    let sum: u128 = pool_in + taxed;
    if sum >= bound || sum == 0 {
        return false;
    }
    let output: u128 = taxed * pool_out / sum;
    assert((pool_a as u128) * (pool_b as u128) <= bound * bound) by (nonlinear_arith)
        requires pool_a < bound, pool_b < bound;
    output < min_output_amount as u128 || (pool_a as u128) * (pool_b as u128) <= 0xffff_ffff_ffff_ffff
}

/// The output that a swap plans, before the minimum is checked.
pub open spec fn swap_quote(
    swap_a: bool,
    input_amount: u64,
    fee: u16,
    trader_a: u64,
    trader_b: u64,
    pool_a: u64,
    pool_b: u64,
) -> int {
    let input = swap_input(swap_a, input_amount, trader_a, trader_b);
    let (pool_in, pool_out) = swap_sides(swap_a, pool_a, pool_b);
    swap_output(taxed_input(input, fee as int), pool_in, pool_out)
}

/// With a fee of at most 1000 per thousand, a larger input is never taxed
/// down to less.
proof fn lemma_taxed_grows_with_input(i1: int, i2: int, fee: int)
    requires
        0 <= i1 <= i2,
        0 <= fee <= FEE_DENOMINATOR,
    ensures
        taxed_input(i1, fee) <= taxed_input(i2, fee),
{
    let d = FEE_DENOMINATOR as int;
    assert(i2 * fee <= i1 * fee + (i2 - i1) * d) by (nonlinear_arith)
        requires 0 <= i1 <= i2, 0 <= fee <= d;
    lemma_div_is_ordered(i2 * fee, i1 * fee + (i2 - i1) * d, d);
    lemma_hoist_over_denominator(i1 * fee, i2 - i1, d as nat);
}

/// A higher fee never taxes an input down to more.
proof fn lemma_taxed_falls_with_fee(i: int, f1: int, f2: int)
    requires
        i >= 0,
        0 <= f1 <= f2,
    ensures
        taxed_input(i, f2) <= taxed_input(i, f1),
{
    assert(i * f1 <= i * f2) by (nonlinear_arith) requires i >= 0, f1 <= f2;
    lemma_div_is_ordered(i * f1, i * f2, FEE_DENOMINATOR as int);
}

/// The constant-product output never falls when the taxed input grows.
proof fn lemma_output_grows_with_taxed(t1: int, t2: int, pool_in: int, pool_out: int)
    requires
        0 <= t1 <= t2,
        pool_in >= 0,
        pool_out >= 0,
        pool_in + t1 > 0,
    ensures
        swap_output(t1, pool_in, pool_out) <= swap_output(t2, pool_in, pool_out),
{
    let d1 = pool_in + t1;
    let d2 = pool_in + t2;
    let q1 = swap_output(t1, pool_in, pool_out);
    lemma_mul_nonnegative(t1, pool_out);
    lemma_fundamental_div_mod(t1 * pool_out, d1);
    lemma_mod_pos_bound(t1 * pool_out, d1);
    lemma_div_pos_is_pos(t1 * pool_out, d1);
    assert(q1 * d2 <= t2 * pool_out) by (nonlinear_arith)
        requires
            t1 * pool_out == d1 * q1 + (t1 * pool_out) % d1,
            (t1 * pool_out) % d1 >= 0,
            d1 == pool_in + t1,
            d2 == pool_in + t2,
            0 <= t1 <= t2,
            pool_in >= 0,
            pool_out >= 0,
            q1 >= 0,
            d1 > 0,
    {
        assert(q1 * d1 <= t1 * pool_out);
        assert(t1 * d2 <= t2 * d1);
        assert((q1 * d2) * d1 == (q1 * d1) * d2);
        assert((q1 * d1) * d2 <= (t1 * pool_out) * d2);
        assert((t1 * pool_out) * d2 == (t1 * d2) * pool_out);
        assert((t1 * d2) * pool_out <= (t2 * d1) * pool_out);
        assert((q1 * d2) * d1 <= (t2 * pool_out) * d1);
    }
    lemma_div_is_ordered(q1 * d2, t2 * pool_out, d2);
    lemma_div_by_multiple(q1, d2);
}

/// A larger input asked for never gets a smaller output: of two swaps on the
/// same accounts, with a fee of at most 1000 per thousand, the one asking
/// for more input is quoted at least as much (before the minimum is
/// checked).
pub proof fn lemma_swap_output_grows_with_input(
    swap_a: bool,
    x1: u64,
    x2: u64,
    min_output_amount: u64,
    fee: u16,
    trader_a: u64,
    trader_b: u64,
    pool_a: u64,
    pool_b: u64,
)
    requires
        x1 <= x2,
        fee <= FEE_DENOMINATOR,
        swap_defined(swap_a, x1, min_output_amount, fee, trader_a, trader_b, pool_a, pool_b),
        swap_defined(swap_a, x2, min_output_amount, fee, trader_a, trader_b, pool_a, pool_b),
    ensures
        swap_quote(swap_a, x1, fee, trader_a, trader_b, pool_a, pool_b)
            <= swap_quote(swap_a, x2, fee, trader_a, trader_b, pool_a, pool_b),
{
    let i1 = swap_input(swap_a, x1, trader_a, trader_b);
    let i2 = swap_input(swap_a, x2, trader_a, trader_b);
    let (pool_in, pool_out) = swap_sides(swap_a, pool_a, pool_b);
    lemma_taxed_grows_with_input(i1, i2, fee as int);
    lemma_div_pos_is_pos(i1 * fee, FEE_DENOMINATOR as int);
    lemma_output_grows_with_taxed(taxed_input(i1, fee as int), taxed_input(i2, fee as int), pool_in, pool_out);
}

/// A higher fee never gives the trader more: of two swaps alike but for the
/// AMM's fee, the one with the higher fee is quoted at most as much. With no
/// fee, the quote is the plain constant-product price
/// `input * pool_out / (pool_in + input)`, rounded down.
pub proof fn lemma_swap_output_falls_with_fee(
    swap_a: bool,
    input_amount: u64,
    min_output_amount: u64,
    f1: u16,
    f2: u16,
    trader_a: u64,
    trader_b: u64,
    pool_a: u64,
    pool_b: u64,
)
    requires
        f1 <= f2,
        swap_defined(swap_a, input_amount, min_output_amount, f1, trader_a, trader_b, pool_a, pool_b),
        swap_defined(swap_a, input_amount, min_output_amount, f2, trader_a, trader_b, pool_a, pool_b),
    ensures
        swap_quote(swap_a, input_amount, f2, trader_a, trader_b, pool_a, pool_b)
            <= swap_quote(swap_a, input_amount, f1, trader_a, trader_b, pool_a, pool_b),
        ({
            let input = swap_input(swap_a, input_amount, trader_a, trader_b);
            let (pool_in, pool_out) = swap_sides(swap_a, pool_a, pool_b);
            f1 == 0 ==> swap_quote(swap_a, input_amount, f1, trader_a, trader_b, pool_a, pool_b)
                == input * pool_out / (pool_in + input)
        }),
{
    let i = swap_input(swap_a, input_amount, trader_a, trader_b);
    let (pool_in, pool_out) = swap_sides(swap_a, pool_a, pool_b);
    lemma_taxed_falls_with_fee(i, f1 as int, f2 as int);
    lemma_div_pos_is_pos(i * f2, FEE_DENOMINATOR as int);
    lemma_output_grows_with_taxed(taxed_input(i, f2 as int), taxed_input(i, f1 as int), pool_in, pool_out);
    if f1 == 0 {
        assert(i * (f1 as int) == 0) by (nonlinear_arith) requires f1 == 0;
        assert(taxed_input(i, f1 as int) == i);
    }
}

} // verus!
