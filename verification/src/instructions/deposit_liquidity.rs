//! Depositing liquidity: adding both tokens to a pool, in the pool's ratio,
//! for newly minted liquidity tokens.
use vstd::prelude::*;
use vstd::arithmetic::div_mod::{
    lemma_div_by_self, lemma_div_denominator, lemma_div_is_ordered, lemma_div_is_ordered_by_denominator,
    lemma_div_pos_is_pos, lemma_fundamental_div_mod, lemma_mod_pos_bound,
};
use vstd::arithmetic::mul::lemma_mul_nonnegative;

use crate::constants::MINIMUM_LIQUIDITY;
use crate::errors::TutorialError;
use crate::fixed_point::{
    fixed_checked_div, fixed_checked_mul, fixed_from_u64, fixed_sqrt, fixed_to_u64, fx_int_bound,
    fx_one, lemma_bits_int_part, lemma_div_cancel_one, lemma_int_bits_fit, lemma_mul_int_bits,
};

verus! {

/// What a deposit moves: `amount_a` and `amount_b` into the pool, and
/// `liquidity` newly minted liquidity tokens to the depositor.
#[derive(Clone, Copy, Debug, PartialEq, Eq, Structural)]
pub struct DepositPlan {
    pub amount_a: u64,
    pub amount_b: u64,
    pub liquidity: u64,
}

/// An amount capped by a balance.
pub open spec fn capped(amount: u64, balance: u64) -> int {
    if amount > balance {
        balance as int
    } else {
        amount as int
    }
}

/// A capped amount is the smaller of the amount and the balance: never
/// more than either, and equal to one of them.
pub proof fn lemma_capped_is_min(amount: u64, balance: u64)
    ensures
        capped(amount, balance) <= amount,
        capped(amount, balance) <= balance,
        capped(amount, balance) == amount || capped(amount, balance) == balance,
{
}

/// Whether the pool is empty, so that this deposit creates its liquidity.
pub open spec fn is_pool_creation(pool_a: int, pool_b: int) -> bool {
    pool_a == 0 && pool_b == 0
}

/// The pool's ratio `pool_a / pool_b` as `I64F64` bits, rounded down.
pub open spec fn pool_ratio(pool_a: int, pool_b: int) -> int {
    pool_a * fx_one() / pool_b
}

/// The amounts that a deposit of (capped) `a` and `b` adds to a pool:
/// both as they are into an empty pool; otherwise the side of the pool's
/// smaller balance is kept and the other side is fitted to the pool's
/// ratio, rounded down at each fixed-point step (the A side as
/// `b * ratio`, or the B side as `a / ratio`).
pub open spec fn deposit_amounts(a: int, b: int, pool_a: int, pool_b: int) -> (int, int) {
    if is_pool_creation(pool_a, pool_b) {
        (a, b)
    } else if pool_a > pool_b {
        (b * pool_ratio(pool_a, pool_b) / fx_one(), b)
    } else {
        (a, a * fx_one() * fx_one() / pool_ratio(pool_a, pool_b) / fx_one())
    }
}

/// `r` is the integer square root of `n`: the largest integer whose square
/// is at most `n`.
pub open spec fn is_isqrt(r: int, n: int) -> bool {
    0 <= r && r * r <= n && n < (r + 1) * (r + 1)
}

/// The inputs on which a deposit runs to its end without a panic: every
/// amount turned into a fixed-point number fits in it, the pool's ratio is
/// defined (the B balance is not zero) and, where it divides, not zero (the
/// A balance is not zero), and the fixed-point products and quotient fit.
pub open spec fn deposit_defined(
    amount_a: u64,
    amount_b: u64,
    depositor_a: u64,
    depositor_b: u64,
    pool_a: u64,
    pool_b: u64,
) -> bool {
    let a = capped(amount_a, depositor_a);
    let b = capped(amount_b, depositor_b);
    let ratio = pool_ratio(pool_a as int, pool_b as int);
    let (fa, fb) = deposit_amounts(a, b, pool_a as int, pool_b as int);
    &&& is_pool_creation(pool_a as int, pool_b as int) ==> a < fx_int_bound() && b < fx_int_bound()
    &&& !is_pool_creation(pool_a as int, pool_b as int) ==> {
        &&& pool_a < fx_int_bound()
        &&& pool_b < fx_int_bound()
        &&& pool_b > 0
        &&& pool_a > pool_b ==> b < fx_int_bound() && b * ratio <= i128::MAX
        &&& pool_a <= pool_b ==> a < fx_int_bound() && pool_a > 0 && a * fx_one() * fx_one() / ratio <= i128::MAX
    }
    &&& fa * fb < fx_int_bound()
}

/// From the square root in bits of `n` (as a fixed-point number), its
/// integer part is the integer square root of `n`.
proof fn lemma_sqrt_int_part(n: int, s: int)
    requires
        n >= 0,
        s >= 0,
        s * s <= n * fx_one() * fx_one(),
        n * fx_one() * fx_one() < (s + 1) * (s + 1),
    ensures
        is_isqrt(s / fx_one(), n),
{
    let f = fx_one();
    let l = s / f;
    lemma_fundamental_div_mod(s, f);
    lemma_mod_pos_bound(s, f);
    lemma_div_pos_is_pos(s, f);
    assert(l * l <= n) by (nonlinear_arith)
        requires
            s == f * l + s % f,
            0 <= s % f,
            l >= 0,
            f > 0,
            s * s <= n * f * f,
    {
        assert(l * f <= s);
        assert((l * f) * (l * f) <= s * s);
        assert((l * l) * (f * f) <= n * (f * f));
    }
    assert(n < (l + 1) * (l + 1)) by (nonlinear_arith)
        requires
            s == f * l + s % f,
            s % f < f,
            l >= 0,
            s >= 0,
            f > 0,
            n * f * f < (s + 1) * (s + 1),
    {
        assert(s + 1 <= (l + 1) * f);
        assert((s + 1) * (s + 1) <= ((l + 1) * f) * ((l + 1) * f));
        assert(n * (f * f) < ((l + 1) * (l + 1)) * (f * f));
    }
}

/// The integer square root is below `MINIMUM_LIQUIDITY` exactly when `n` is
/// below its square.
proof fn lemma_isqrt_below_minimum(r: int, n: int)
    requires
        is_isqrt(r, n),
    ensures
        r < MINIMUM_LIQUIDITY <==> n < MINIMUM_LIQUIDITY * MINIMUM_LIQUIDITY,
{
    let m = MINIMUM_LIQUIDITY as int;
    if r < m {
        assert(n < m * m) by (nonlinear_arith)
            requires 0 <= r, r + 1 <= m, n < (r + 1) * (r + 1);
    } else {
        assert(n >= m * m) by (nonlinear_arith)
            requires r >= m, m >= 0, r * r <= n;
    }
}

/// The ratio of a pool whose A balance is not zero is at least one bit: its
/// A balance times `2^64` is at least `2^64`, which exceeds the B balance.
proof fn lemma_ratio_positive(pool_a: int, pool_b: int)
    requires
        pool_a >= 1,
        0 < pool_b < fx_int_bound(),
    ensures
        pool_ratio(pool_a, pool_b) >= 1,
{
    let f = fx_one();
    assert(pool_b <= pool_a * f) by (nonlinear_arith)
        requires pool_a >= 1, f == 0x1_0000_0000_0000_0000int, pool_b < 0x8000_0000_0000_0000int;
    lemma_div_is_ordered(pool_b, pool_a * f, pool_b);
    lemma_div_by_self(pool_b);
}

/// The amounts fitted to the pool's ratio, computed in `I64F64`.
fn balanced_amounts(a: u64, b: u64, pool_a: u64, pool_b: u64) -> (r: (u64, u64))
    requires
        !is_pool_creation(pool_a as int, pool_b as int),
        pool_a < fx_int_bound(),
        pool_b < fx_int_bound(),
        pool_b > 0,
        pool_a > pool_b ==> b < fx_int_bound() && b * pool_ratio(pool_a as int, pool_b as int) <= i128::MAX,
        pool_a <= pool_b ==> a < fx_int_bound() && pool_a > 0
            && a * fx_one() * fx_one() / pool_ratio(pool_a as int, pool_b as int) <= i128::MAX,
    ensures
        r.0 == deposit_amounts(a as int, b as int, pool_a as int, pool_b as int).0,
        r.1 == deposit_amounts(a as int, b as int, pool_a as int, pool_b as int).1,
{
    let ghost f = fx_one();
    let xa = fixed_from_u64(pool_a);
    let xb = fixed_from_u64(pool_b);
    let ghost ratio = pool_ratio(pool_a as int, pool_b as int);
    proof {
        lemma_div_cancel_one(pool_a as int * f, pool_b as int);
        lemma_div_is_ordered_by_denominator(pool_a as int * f, 1, pool_b as int);
        lemma_int_bits_fit(pool_a as int);
        assert(pool_a as int * f >= 0) by (nonlinear_arith) requires f > 0;
        lemma_div_pos_is_pos(pool_a as int * f, pool_b as int);
    }
    let r = fixed_checked_div(xa, xb).unwrap();
    assert(r == ratio);
    if pool_a > pool_b {
        let xm = fixed_from_u64(b);
        proof {
            lemma_mul_int_bits(b as int, r as int);
            lemma_mul_nonnegative(b as int, r as int);
        }
        let p = fixed_checked_mul(xm, r).unwrap();
        (fixed_to_u64(p), b)
    } else {
        let xm = fixed_from_u64(a);
        proof {
            lemma_ratio_positive(pool_a as int, pool_b as int);
            assert(a as int * f >= 0) by (nonlinear_arith) requires f > 0;
            assert(a as int * f * f == (a as int * f) * f);
        }
        let q = fixed_checked_div(xm, r).unwrap();
        proof {
            lemma_div_pos_is_pos(a as int * f * f, r as int);
        }
        (a, fixed_to_u64(q))
    }
}

/// The liquidity that amounts `a` and `b` are worth, the integer square root
/// of `a * b`, computed in `I64F64`.
fn liquidity_of(a: u64, b: u64) -> (l: u64)
    requires
        a < fx_int_bound(),
        b < fx_int_bound(),
        a * b < fx_int_bound(),
    ensures
        is_isqrt(l as int, a * b),
{
    let ghost f = fx_one();
    let xa = fixed_from_u64(a);
    let xb = fixed_from_u64(b);
    proof {
        lemma_mul_int_bits(a as int, xb as int);
        assert((a as int) * (b as int * f) == (a as int * b as int) * f) by (nonlinear_arith);
        lemma_mul_nonnegative(a as int, b as int);
        lemma_int_bits_fit(a as int * b as int);
    }
    let p = fixed_checked_mul(xa, xb).unwrap();
    let s = fixed_sqrt(p);
    proof {
        assert(p as int * f == (a as int * b as int) * f * f);
        lemma_sqrt_int_part(a as int * b as int, s as int);
    }
    fixed_to_u64(s)
}

/// Plans a deposit of `amount_a` and `amount_b`, each capped by the
/// depositor's balance, into a pool holding `pool_a` and `pool_b`.
///
/// Into an empty pool both amounts go as they are; otherwise one side is
/// fitted to the pool's ratio (`deposit_amounts`). The liquidity minted is
/// the integer square root of the product of the two amounts, less
/// `MINIMUM_LIQUIDITY` for the deposit that creates the pool, which is
/// refused with `DepositTooSmall` exactly when that root falls below the
/// minimum. The transfers and the minting are the caller's.
pub fn deposit_liquidity(
    amount_a: u64,
    amount_b: u64,
    depositor_a: u64,
    depositor_b: u64,
    pool_a: u64,
    pool_b: u64,
) -> (res: Result<DepositPlan, TutorialError>)
    requires
        deposit_defined(amount_a, amount_b, depositor_a, depositor_b, pool_a, pool_b),
    ensures
        ({
            let creation = is_pool_creation(pool_a as int, pool_b as int);
            let (fa, fb) = deposit_amounts(
                capped(amount_a, depositor_a),
                capped(amount_b, depositor_b),
                pool_a as int,
                pool_b as int,
            );
            &&& (res is Err <==> creation && fa * fb < MINIMUM_LIQUIDITY * MINIMUM_LIQUIDITY)
            &&& (res matches Err(e) ==> e == TutorialError::DepositTooSmall)
            &&& (res matches Ok(plan) ==> {
                &&& plan.amount_a == fa
                &&& plan.amount_b == fb
                &&& is_isqrt(plan.liquidity + (if creation { MINIMUM_LIQUIDITY as int } else { 0 }), fa * fb)
                // the kept amounts are the requested ones, capped by the depositor's balances
                &&& (creation || pool_a <= pool_b) ==> {
                    &&& plan.amount_a <= amount_a
                    &&& plan.amount_a <= depositor_a
                    &&& (plan.amount_a == amount_a || plan.amount_a == depositor_a)
                }
                &&& (creation || pool_a > pool_b) ==> {
                    &&& plan.amount_b <= amount_b
                    &&& plan.amount_b <= depositor_b
                    &&& (plan.amount_b == amount_b || plan.amount_b == depositor_b)
                }
                // the liquidity (with the locked minimum on creation) is the
                // largest integer whose square is at most the product of the amounts
                &&& ({
                    let l = plan.liquidity + (if creation { MINIMUM_LIQUIDITY as int } else { 0 });
                    l * l <= plan.amount_a * plan.amount_b < (l + 1) * (l + 1)
                })
            })
        }),
{
    proof {
        lemma_capped_is_min(amount_a, depositor_a);
        lemma_capped_is_min(amount_b, depositor_b);
    }
    let amount_a = if amount_a > depositor_a {
        depositor_a
    } else {
        amount_a
    };
    let amount_b = if amount_b > depositor_b {
        depositor_b
    } else {
        amount_b
    };
    let pool_creation = pool_a == 0 && pool_b == 0;
    let (amount_a, amount_b) = if pool_creation {
        (amount_a, amount_b)
    } else {
        balanced_amounts(amount_a, amount_b, pool_a, pool_b)
    };
    proof {
        if !pool_creation {
            if pool_a > pool_b {
                lemma_mul_nonnegative(amount_b as int, pool_ratio(pool_a as int, pool_b as int));
                lemma_bits_int_part(amount_b * pool_ratio(pool_a as int, pool_b as int));
            }
        }
    }
    let mut liquidity = liquidity_of(amount_a, amount_b);
    if pool_creation {
        proof {
            lemma_isqrt_below_minimum(liquidity as int, amount_a * amount_b);
        }
        if liquidity < MINIMUM_LIQUIDITY {
            return Err(TutorialError::DepositTooSmall);
        }
        liquidity = liquidity - MINIMUM_LIQUIDITY;
    }
    Ok(DepositPlan { amount_a, amount_b, liquidity })
}

/// A deposit into a pool that already holds tokens follows the pool's ratio
/// `pool_a : pool_b`, up to the rounding of the fixed-point steps.
///
/// When the A side is fitted (`pool_a > pool_b`), it is within two units of
/// the ratio's share `b * pool_a / pool_b`: never above it, and above it
/// less two. When the B side is fitted (`pool_a <= pool_b`), it falls short
/// of the ratio's share `a * pool_b / pool_a` by less than one unit; it can
/// exceed that share, because the ratio is rounded down before it divides,
/// but only by less than `fb * pool_b / (pool_a * 2^64)` units, and it never
/// exceeds `a` divided by the rounded ratio.
pub proof fn lemma_deposit_follows_ratio(a: u64, b: u64, pool_a: u64, pool_b: u64)
    requires
        !is_pool_creation(pool_a as int, pool_b as int),
        pool_a < fx_int_bound(),
        pool_b < fx_int_bound(),
        pool_b > 0,
        pool_a <= pool_b ==> pool_a > 0,
    ensures
        ({
            let (fa, fb) = deposit_amounts(a as int, b as int, pool_a as int, pool_b as int);
            &&& pool_a > pool_b ==> {
                &&& fb == b
                &&& fa * pool_b <= fb * pool_a
                &&& fb * pool_a < (fa + 2) * pool_b
            }
            &&& pool_a <= pool_b ==> {
                &&& fa == a
                &&& fa * pool_b < (fb + 1) * pool_a
                &&& fb * pool_ratio(pool_a as int, pool_b as int) <= fa * fx_one()
                &&& fb * pool_a * fx_one() <= fa * pool_b * fx_one() + fb * (pool_b - 1)
            }
        }),
{
    let f = fx_one();
    let pa = pool_a as int;
    let pb = pool_b as int;
    let ratio = pool_ratio(pa, pb);
    lemma_fundamental_div_mod(pa * f, pb);
    lemma_mod_pos_bound(pa * f, pb);
    // ratio * pool_b is within pool_b - 1 below pool_a * 2^64
    assert(ratio * pb <= pa * f && pa * f <= ratio * pb + pb - 1) by (nonlinear_arith)
        requires
            pa * f == pb * ratio + (pa * f) % pb,
            0 <= (pa * f) % pb < pb,
    ;
    let (fa, fb) = deposit_amounts(a as int, b as int, pa, pb);
    if pool_a > pool_b {
        assert(pa * f >= 0) by (nonlinear_arith) requires pa >= 0, f > 0;
        lemma_div_pos_is_pos(pa * f, pb);
        lemma_mul_nonnegative(b as int, ratio);
        lemma_fundamental_div_mod(b * ratio, f);
        lemma_mod_pos_bound(b * ratio, f);
        assert(fa * pb <= fb * pa) by (nonlinear_arith)
            requires
                fa == (b * ratio) / f,
                b * ratio == f * fa + (b * ratio) % f,
                (b * ratio) % f >= 0,
                ratio * pb <= pa * f,
                fb == b,
                b >= 0,
                pb > 0,
                f > 0,
        {
            assert(fa * f <= b * ratio);
            assert(fa * f * pb <= b * ratio * pb);
            assert(b * (ratio * pb) <= b * (pa * f));
            assert((fa * pb) * f <= (b * pa) * f);
        }
        assert(fb * pa < (fa + 2) * pb) by (nonlinear_arith)
            requires
                b * ratio == f * fa + (b * ratio) % f,
                (b * ratio) % f < f,
                pa * f <= ratio * pb + pb - 1,
                fb == b,
                0 <= b < f,
                pb > 0,
                f > 0,
        {
            assert(b * ratio < f * (fa + 1));
            assert(b * ratio * pb < f * (fa + 1) * pb);
            assert(b * (pa * f) <= b * (ratio * pb) + b * (pb - 1));
            assert(b * (pb - 1) < f * pb);
            assert((b * pa) * f < ((fa + 2) * pb) * f);
        }
    } else {
        lemma_ratio_positive(pa, pb);
        let x = a as int * f * f;
        assert(x >= 0) by (nonlinear_arith) requires x == a * f * f, a >= 0, f > 0;
        let q = x / ratio;
        lemma_fundamental_div_mod(x, ratio);
        lemma_mod_pos_bound(x, ratio);
        lemma_div_pos_is_pos(x, ratio);
        lemma_fundamental_div_mod(q, f);
        lemma_mod_pos_bound(q, f);
        lemma_div_pos_is_pos(q, f);
        assert(fa * pb < (fb + 1) * pa) by (nonlinear_arith)
            requires
                fa == a,
                x == a * f * f,
                x == ratio * q + x % ratio,
                x % ratio < ratio,
                fb == q / f,
                q == f * fb + q % f,
                q % f < f,
                ratio * pb <= pa * f,
                ratio >= 1,
                pb > 0,
                f > 0,
                q >= 0,
        {
            assert(x < ratio * (q + 1));
            assert(q + 1 <= f * (fb + 1));
            assert(x * pb < ratio * (q + 1) * pb);
            assert(ratio * (q + 1) * pb == (ratio * pb) * (q + 1));
            assert((ratio * pb) * (q + 1) <= (pa * f) * (q + 1));
            assert((pa * f) * (q + 1) <= (pa * f) * (f * (fb + 1)));
            assert((a * pb) * (f * f) < ((fb + 1) * pa) * (f * f));
        }
        assert(fb * ratio <= fa * f) by (nonlinear_arith)
            requires
                fa == a,
                x == a * f * f,
                x == ratio * q + x % ratio,
                x % ratio >= 0,
                q == f * fb + q % f,
                q % f >= 0,
                fb >= 0,
                ratio >= 1,
                f > 0,
        {
            assert(f * fb <= q);
            assert(ratio * (f * fb) <= ratio * q);
            assert((fb * ratio) * f <= (a * f) * f);
        }
        assert(fb * pa * f <= fa * pb * f + fb * (pb - 1)) by (nonlinear_arith)
            requires
                fb * ratio <= fa * f,
                pa * f <= ratio * pb + pb - 1,
                fb >= 0,
                pb > 0,
        {
            assert(fb * (pa * f) <= fb * (ratio * pb) + fb * (pb - 1));
            assert(fb * (ratio * pb) == (fb * ratio) * pb);
            assert((fb * ratio) * pb <= (fa * f) * pb);
        }
    }
}

/// Dividing the number `a` (bits `a * 2^64`) by a positive ratio in
/// `I64F64` fits exactly when `2 * a` is below the ratio's bits.
proof fn lemma_quotient_fits(a: int, ratio: int)
    requires
        a >= 0,
        ratio > 0,
    ensures
        a * fx_one() * fx_one() / ratio <= i128::MAX <==> 2 * a < ratio,
{
    let f = fx_one();
    let x = a * f * f;
    lemma_fundamental_div_mod(x, ratio);
    lemma_mod_pos_bound(x, ratio);
    let q = x / ratio;
    let k = 0x8000_0000_0000_0000_0000_0000_0000_0000int;
    assert(q <= k - 1 <==> x < k * ratio) by (nonlinear_arith)
        requires
            x == ratio * q + x % ratio,
            0 <= x % ratio < ratio,
            ratio > 0,
    {
        if q <= k - 1 {
            assert(ratio * q <= ratio * (k - 1));
        } else {
            assert(ratio * q >= ratio * k);
        }
    }
    assert(x < k * ratio <==> 2 * a < ratio) by (nonlinear_arith)
        requires
            x == a * f * f,
            f == 0x1_0000_0000_0000_0000int,
            k == 0x8000_0000_0000_0000_0000_0000_0000_0000int,
    {
        assert(k * 2 == f * f);
        assert(x * 2 == (2 * a) * (f * f));
        assert(k * ratio * 2 == ratio * (f * f));
    }
}

/// Whether a deposit runs to its end without a panic (`deposit_defined`),
/// decided with exact integer arithmetic, for callers to test before they
/// call `deposit_liquidity`.
pub fn deposit_is_defined(
    amount_a: u64,
    amount_b: u64,
    depositor_a: u64,
    depositor_b: u64,
    pool_a: u64,
    pool_b: u64,
) -> (r: bool)
    ensures
        r == deposit_defined(amount_a, amount_b, depositor_a, depositor_b, pool_a, pool_b),
{
    let bound: u128 = 0x8000_0000_0000_0000;
    let one: u128 = 0x1_0000_0000_0000_0000;
    let a: u128 = if amount_a > depositor_a { depositor_a as u128 } else { amount_a as u128 };
    let b: u128 = if amount_b > depositor_b { depositor_b as u128 } else { amount_b as u128 };
    if pool_a == 0 && pool_b == 0 {
        if a >= bound || b >= bound {
            return false;
        }
        assert(a * b < bound * bound) by (nonlinear_arith) requires a < bound, b < bound;
        return a * b < bound;
    }
    if pool_a as u128 >= bound || pool_b as u128 >= bound || pool_b == 0 {
        return false;
    }
    assert((pool_a as u128) * one < bound * one) by (nonlinear_arith) requires pool_a < bound, one > 0;
    let ratio: u128 = (pool_a as u128) * one / (pool_b as u128);
    if pool_a > pool_b {
        if b >= bound {
            return false;
        }
        let p = match b.checked_mul(ratio) {
            Some(p) => p,
            None => return false,
        };
        if p > 0x7fff_ffff_ffff_ffff_ffff_ffff_ffff_ffff {
            return false;
        }
        let fa: u128 = p / one;
        assert(fa * b < bound * bound) by (nonlinear_arith)
            requires fa == p / one, p <= 0x7fff_ffff_ffff_ffff_ffff_ffff_ffff_ffffu128,
                one == 0x1_0000_0000_0000_0000u128, b < bound, bound == 0x8000_0000_0000_0000u128;
        fa * b < bound
    } else {
        if a >= bound || pool_a == 0 {
            return false;
        }
        proof {
            lemma_ratio_positive(pool_a as int, pool_b as int);
            lemma_quotient_fits(a as int, ratio as int);
        }
        if 2 * a >= ratio {
            return false;
        }
        assert(a * one < bound * one) by (nonlinear_arith) requires a < bound, one > 0;
        let fb: u128 = a * one / ratio;
        proof {
            let f = fx_one();
            assert(a as int * f >= 0) by (nonlinear_arith) requires f > 0;
            lemma_div_denominator(a as int * f * f, ratio as int, f);
            lemma_div_cancel_one(a as int * f, ratio as int);
            assert(ratio as int * f == f * ratio as int) by (nonlinear_arith);
            assert(fb as int == deposit_amounts(a as int, b as int, pool_a as int, pool_b as int).1);
            assert(a as int * f * f >= 0) by (nonlinear_arith) requires a >= 0, f > 0;
            lemma_div_pos_is_pos(a as int * f * f, ratio as int);
            lemma_bits_int_part(a as int * f * f / (ratio as int));
        }
        assert(a * fb < bound * bound) by (nonlinear_arith)
            requires a < bound, fb < bound;
        a * fb < bound
    }
}

} // verus!
