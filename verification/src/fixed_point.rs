//! Fixed-point arithmetic in the `I64F64` format of the `fixed` crate.
//!
//! A number is carried as its raw bits, an `i128` whose value is
//! `bits / 2^64`. Each operation the library needs is one call into the
//! `fixed` crate; its contract restates what that crate documents for it.
use vstd::prelude::*;
use fixed::types::I64F64;
use vstd::arithmetic::div_mod::*;

verus! {

/// `2^64`: the raw bits of the number one.
pub open spec fn fx_one() -> int {
    0x1_0000_0000_0000_0000
}

/// The exclusive bound on integers that `I64F64` can hold: `2^63`.
pub open spec fn fx_int_bound() -> int {
    0x8000_0000_0000_0000
}

/// `I64F64::from_num` on a `u64`: the number `x`, that is the bits `x * 2^64`.
/// The crate documents a panic (with debug assertions) when `x` does not fit
/// in the 64 signed integer bits, which `requires` leaves out.
#[verifier::external_body]
pub(crate) fn fixed_from_u64(x: u64) -> (r: i128)
    requires
        x < fx_int_bound(),
    ensures
        r == x * fx_one(),
{
    I64F64::from_num(x).to_bits()
}

/// `I64F64::checked_mul`: the product of the two numbers with its fractional
/// bits beyond 64 dropped (the wide product shifted right by 64, which rounds
/// toward minus infinity), or `None` when that does not fit in `i128`.
#[verifier::external_body]
pub(crate) fn fixed_checked_mul(a: i128, b: i128) -> (r: Option<i128>)
    ensures
        r is Some <==> i128::MIN <= (a * b) / fx_one() <= i128::MAX,
        r matches Some(v) ==> v == (a * b) / fx_one(),
{
    match I64F64::from_bits(a).checked_mul(I64F64::from_bits(b)) {
        Some(p) => Some(p.to_bits()),
        None => None,
    }
}

/// `I64F64::checked_div`: `None` when the divisor is zero; for a
/// non-negative dividend and a positive divisor, the quotient rounded down
/// (the dividend's bits shifted left by 64 and divided by the divisor's
/// bits), or `None` when it does not fit. What it returns for a negative
/// operand is not stated here.
#[verifier::external_body]
pub(crate) fn fixed_checked_div(a: i128, b: i128) -> (r: Option<i128>)
    ensures
        b == 0 ==> r is None,
        (a >= 0 && b > 0) ==> (r is Some <==> (a * fx_one()) / (b as int) <= i128::MAX),
        (a >= 0 && b > 0) ==> (r matches Some(v) ==> v == (a * fx_one()) / (b as int)),
{
    match I64F64::from_bits(a).checked_div(I64F64::from_bits(b)) {
        Some(q) => Some(q.to_bits()),
        None => None,
    }
}

/// `I64F64::checked_add`: the exact sum, or `None` when it does not fit.
#[verifier::external_body]
pub(crate) fn fixed_checked_add(a: i128, b: i128) -> (r: Option<i128>)
    ensures
        r is Some <==> i128::MIN <= a + b <= i128::MAX,
        r matches Some(v) ==> v == a + b,
{
    match I64F64::from_bits(a).checked_add(I64F64::from_bits(b)) {
        Some(s) => Some(s.to_bits()),
        None => None,
    }
}

/// `I64F64::sqrt`: the square root rounded down, documented as
/// `result <= sqrt(self) < result + DELTA`; in bits, `r * r <= a * 2^64 <
/// (r + 1) * (r + 1)`. It panics on a negative number, which `requires`
/// leaves out.
#[verifier::external_body]
pub(crate) fn fixed_sqrt(a: i128) -> (r: i128)
    requires
        a >= 0,
    ensures
        r >= 0,
        r * r <= a * fx_one(),
        a * fx_one() < (r + 1) * (r + 1),
{
    I64F64::from_bits(a).sqrt().to_bits()
}

/// `I64F64::floor`: the number rounded down to an integer, that is the bits
/// with the 64 fractional bits cleared.
#[verifier::external_body]
pub(crate) fn fixed_floor(a: i128) -> (r: i128)
    ensures
        r == ((a as int) / fx_one()) * fx_one(),
{
    I64F64::from_bits(a).floor().to_bits()
}

/// `I64F64::to_num::<u64>`: the integer part, rounded toward minus infinity.
/// A negative number does not fit in `u64` and panics with debug assertions,
/// which `requires` leaves out.
#[verifier::external_body]
pub(crate) fn fixed_to_u64(a: i128) -> (r: u64)
    requires
        a >= 0,
    ensures
        r == (a as int) / fx_one(),
{
    I64F64::from_bits(a).to_num::<u64>()
}

/// An integer `x >= 0` fits as an `I64F64` (its bits `x * 2^64` fit in
/// `i128`) exactly when `x < 2^63`.
pub proof fn lemma_int_bits_fit(x: int)
    requires
        x >= 0,
    ensures
        x * fx_one() <= i128::MAX <==> x < fx_int_bound(),
{
    assert(x * fx_one() <= i128::MAX <==> x < fx_int_bound()) by (nonlinear_arith)
        requires
            x >= 0,
            fx_one() == 0x1_0000_0000_0000_0000int,
            fx_int_bound() == 0x8000_0000_0000_0000int,
            i128::MAX == 0x7fff_ffff_ffff_ffff_ffff_ffff_ffff_ffffint,
    ;
}

/// Multiplying the bits of the integer `x` by any bits `r` and dropping 64
/// fractional bits gives `x * r` exactly.
pub proof fn lemma_mul_int_bits(x: int, r: int)
    ensures
        (x * fx_one()) * r / fx_one() == x * r,
{
    assert((x * fx_one()) * r == fx_one() * (x * r)) by (nonlinear_arith);
    lemma_div_multiples_vanish(x * r, fx_one());
}

/// Dividing `a * 2^64` by `d * 2^64` is dividing `a` by `d`.
pub proof fn lemma_div_cancel_one(a: int, d: int)
    requires
        a >= 0,
        d > 0,
    ensures
        (a * fx_one()) / (d * fx_one()) == a / d,
{
    lemma_div_multiples_vanish_quotient(fx_one(), a, d);
    assert(fx_one() * a == a * fx_one() && fx_one() * d == d * fx_one()) by (nonlinear_arith);
}

/// Rounding `x * 2^64 / d` down and then dropping 64 fractional bits is
/// rounding `x / d` down.
pub proof fn lemma_nested_floor(x: int, d: int)
    requires
        x >= 0,
        d > 0,
    ensures
        ((x * fx_one()) / d) / fx_one() == x / d,
{
    lemma_div_denominator(x * fx_one(), d, fx_one());
    lemma_div_cancel_one(x, d);
    assert(d * fx_one() == fx_one() * d) by (nonlinear_arith);
}

/// Non-negative bits that fit in `i128` hold an integer part below `2^63`.
pub proof fn lemma_bits_int_part(b: int)
    requires
        0 <= b <= i128::MAX,
    ensures
        0 <= b / fx_one() < fx_int_bound(),
{
    assert(0 <= b / fx_one() < fx_int_bound()) by (nonlinear_arith)
        requires
            0 <= b <= 0x7fff_ffff_ffff_ffff_ffff_ffff_ffff_ffffint,
            fx_one() == 0x1_0000_0000_0000_0000int,
            fx_int_bound() == 0x8000_0000_0000_0000int,
    ;
}

} // verus!
