//! Saturating 16.16 fixed-point arithmetic on `i64` raw values.
//!
//! A raw value `r` stands for the real number `r / ONE`. Every operation is
//! exact up to a floor division by `ONE` (or by the divisor), and results that
//! fall outside the `i64` range saturate at its bounds.

use vstd::prelude::*;

verus! {

/// The raw value of 1.0.
pub const ONE: i64 = 65536;

/// Clamps a mathematical integer into the `i64` range.
pub open spec fn sat(v: int) -> int {
    if v < i64::MIN {
        i64::MIN as int
    } else if v > i64::MAX {
        i64::MAX as int
    } else {
        v
    }
}

/// Fixed-point sum.
pub open spec fn add_spec(a: int, b: int) -> int {
    sat(a + b)
}

/// Fixed-point difference.
pub open spec fn sub_spec(a: int, b: int) -> int {
    sat(a - b)
}

/// Fixed-point product, rounded down.
pub open spec fn mul_spec(a: int, b: int) -> int {
    sat((a * b) / (ONE as int))
}

/// Fixed-point quotient, rounded down; meaningful for `b > 0`.
pub open spec fn div_spec(a: int, b: int) -> int {
    sat((a * ONE) / b)
}

/// Converts a fixed-point value to an integer by truncation toward zero,
/// saturating at the `i32` range.
pub open spec fn trunc_i32_spec(a: int) -> int {
    let t = if a >= 0 { a / (ONE as int) } else { -((-a) / (ONE as int)) };
    if t < i32::MIN {
        i32::MIN as int
    } else if t > i32::MAX {
        i32::MAX as int
    } else {
        t
    }
}

/// Floor division of a signed value by a positive one.
pub fn floor_div(a: i128, b: i128) -> (r: i128)
    requires
        b > 0,
    ensures
        r == a / b,
{
    if a >= 0 {
        a / b
    } else {
        let n = -(a + 1);
        let q = n / b;
        proof {
            let qq = n as int / b as int;
            let rr = n as int % b as int;
            assert(n == b * qq + rr) by (nonlinear_arith)
                requires
                    qq == n as int / b as int,
                    rr == n as int % b as int,
                    b > 0,
            ;
            assert(0 <= rr < b);
            assert(a == b * (-qq - 1) + (b - 1 - rr)) by (nonlinear_arith)
                requires
                    n == b * qq + rr,
                    n == -(a + 1),
            ;
            assert(a as int / b as int == -qq - 1) by (nonlinear_arith)
                requires
                    a == b * (-qq - 1) + (b - 1 - rr),
                    0 <= b - 1 - rr < b,
                    b > 0,
            ;
            assert(qq >= 0) by (nonlinear_arith)
                requires
                    n >= 0,
                    b > 0,
                    qq == n as int / b as int,
            ;
        }
        -q - 1
    }
}

/// Clamps a wide value into the `i64` range.
pub fn saturate(v: i128) -> (r: i64)
    ensures
        r == sat(v as int),
{
    if v < i64::MIN as i128 {
        i64::MIN
    } else if v > i64::MAX as i128 {
        i64::MAX
    } else {
        v as i64
    }
}

/// Saturating fixed-point sum.
pub fn fx_add(a: i64, b: i64) -> (r: i64)
    ensures
        r == add_spec(a as int, b as int),
{
    saturate(a as i128 + b as i128)
}

/// Saturating fixed-point difference.
pub fn fx_sub(a: i64, b: i64) -> (r: i64)
    ensures
        r == sub_spec(a as int, b as int),
{
    saturate(a as i128 - b as i128)
}

/// Saturating fixed-point product, rounded down.
pub fn fx_mul(a: i64, b: i64) -> (r: i64)
    ensures
        r == mul_spec(a as int, b as int),
{
    proof {
        assert(-0x4000_0000_0000_0000_0000_0000_0000_0000 <= a as int * b as int
            <= 0x4000_0000_0000_0000_0000_0000_0000_0000) by (nonlinear_arith)
            requires
                i64::MIN <= a <= i64::MAX,
                i64::MIN <= b <= i64::MAX,
        ;
    }
    saturate(floor_div(a as i128 * b as i128, ONE as i128))
}

/// Saturating fixed-point quotient, rounded down.
pub fn fx_div(a: i64, b: i64) -> (r: i64)
    requires
        b > 0,
    ensures
        r == div_spec(a as int, b as int),
{
    proof {
        assert(-0x1_0000_0000_0000_0000_0000 <= a as int * ONE <= 0x1_0000_0000_0000_0000_0000) by (nonlinear_arith)
            requires
                i64::MIN <= a <= i64::MAX,
        ;
    }
    saturate(floor_div(a as i128 * ONE as i128, b as i128))
}

/// Fixed-point value to integer, truncating toward zero and saturating.
pub fn fx_trunc_i32(a: i64) -> (r: i32)
    ensures
        r == trunc_i32_spec(a as int),
{
    let t: i64 = if a >= 0 {
        a / ONE
    } else {
        -((-(a as i128) / ONE as i128) as i64)
    };
    if t < i32::MIN as i64 {
        i32::MIN
    } else if t > i32::MAX as i64 {
        i32::MAX
    } else {
        t as i32
    }
}

} // verus!
