//! Fixed-point scalar arithmetic for the layout engine.
//!
//! Every geometric quantity (widths, heights, offsets, aspect ratios,
//! tolerances) is an `i128` holding the value scaled by `SCALE`: one display
//! unit (one pixel) is `SCALE` fixed units.  Division and multiplication
//! round half up, so every computation is deterministic.

use vstd::prelude::*;

verus! {

/// Number of fixed units per display unit.
pub const SCALE: i128 = 1_000_000;

/// Magnitude bound within which all intermediate values of the engine stay;
/// far below `i128::MAX`, so sums and products of two bounded values fit.
pub const VAL_LIMIT: i128 = 100_000_000_000_000_000_000_000_000_000_000_000;

/// Rounded division: `n / d` rounded half up (toward positive infinity),
/// for a positive divisor.
pub open spec fn rdiv(n: int, d: int) -> int {
    (n + d / 2) / d
}

/// Product of two fixed-point values, as a fixed-point value.
pub open spec fn fmul(a: int, b: int) -> int {
    rdiv(a * b, SCALE as int)
}

/// Quotient of two fixed-point values, as a fixed-point value.
pub open spec fn fquot(a: int, b: int) -> int {
    rdiv(a * (SCALE as int), b)
}

/// Clamp `x` into `[lo, hi]`.
pub open spec fn clamp_val(x: int, lo: int, hi: int) -> int {
    if x < lo {
        lo
    } else if x > hi {
        hi
    } else {
        x
    }
}

/// Absolute value.
pub open spec fn abs_i(x: int) -> int {
    if x < 0 {
        -x
    } else {
        x
    }
}

/// Euclidean division by a positive divisor never moves a value past zero.
pub proof fn lemma_div_bound(m: int, d: int)
    requires
        1 <= d,
    ensures
        m >= 0 ==> 0 <= m / d <= m,
        m < 0 ==> m <= m / d <= 0,
{
    vstd::arithmetic::div_mod::lemma_fundamental_div_mod(m, d);
    let q = m / d;
    let r = m % d;
    assert(m >= 0 ==> 0 <= q <= m) by (nonlinear_arith)
        requires
            m == d * q + r,
            0 <= r < d,
            1 <= d,
    ;
    assert(m < 0 ==> m <= q <= 0) by (nonlinear_arith)
        requires
            m == d * q + r,
            0 <= r < d,
            1 <= d,
    ;
}

/// A bound on the numerator gives a bound on the rounded quotient.
pub proof fn lemma_rdiv_bound(n: int, d: int, b: int)
    requires
        1 <= d,
        -b <= n <= b,
    ensures
        -(b / d) - 1 <= rdiv(n, d) <= b / d + 1,
{
    let m = n + d / 2;
    lemma_div_bound(d, 2);
    vstd::arithmetic::div_mod::lemma_div_is_ordered(m, b + d, d);
    vstd::arithmetic::div_mod::lemma_div_plus_one(b, d);
    vstd::arithmetic::div_mod::lemma_div_is_ordered(-b, m, d);
    vstd::arithmetic::div_mod::lemma_fundamental_div_mod(b, d);
    let qb = b / d;
    let rb = b % d;
    if rb == 0 {
        assert((-qb) * d + 0 == -(d * qb + rb)) by (nonlinear_arith)
            requires
                rb == 0,
        ;
        vstd::arithmetic::div_mod::lemma_fundamental_div_mod_converse(-b, d, -qb, 0);
    } else {
        assert((-qb - 1) * d + (d - rb) == -(d * qb + rb)) by (nonlinear_arith);
        vstd::arithmetic::div_mod::lemma_fundamental_div_mod_converse(-b, d, -qb - 1, d - rb);
    }
}

/// Bounds on two factors bound their product.
pub proof fn lemma_mul_abs_bound(x: int, xb: int, y: int, yb: int)
    requires
        -xb <= x <= xb,
        -yb <= y <= yb,
    ensures
        -(xb * yb) <= x * y <= xb * yb,
{
    assert(-(xb * yb) <= x * y <= xb * yb) by (nonlinear_arith)
        requires
            -xb <= x <= xb,
            -yb <= y <= yb,
    ;
}

/// Rounded division on machine integers.
pub fn rdiv_i128(n: i128, d: i128) -> (r: i128)
    requires
        1 <= d <= VAL_LIMIT,
        -VAL_LIMIT <= n <= VAL_LIMIT,
    ensures
        r == rdiv(n as int, d as int),
{
    let m: i128 = n + d / 2;
    let q: i128 = m / d;
    if m % d != 0 && m < 0 {
        proof {
            let dd = d as int;
            let p = -(m as int);
            let qq = p / dd;
            let rr = p % dd;
            vstd::arithmetic::div_mod::lemma_fundamental_div_mod(p, dd);
            assert((-qq - 1) * dd + (dd - rr) == -(dd * qq + rr)) by (nonlinear_arith);
            vstd::arithmetic::div_mod::lemma_fundamental_div_mod_converse(
                m as int,
                dd,
                -qq - 1,
                dd - rr,
            );
        }
        q - 1
    } else {
        proof {
            if m < 0 {
                let dd = d as int;
                let p = -(m as int);
                let qq = p / dd;
                let rr = p % dd;
                vstd::arithmetic::div_mod::lemma_fundamental_div_mod(p, dd);
                assert((-qq) * dd + rr == -(dd * qq) + rr) by (nonlinear_arith);
                vstd::arithmetic::div_mod::lemma_fundamental_div_mod_converse(m as int, dd, -qq, rr);
            }
        }
        q
    }
}

/// Product of two fixed-point machine values.
pub fn fmul_i128(a: i128, b: i128) -> (r: i128)
    requires
        -VAL_LIMIT <= a * b <= VAL_LIMIT,
    ensures
        r == fmul(a as int, b as int),
{
    rdiv_i128(a * b, SCALE)
}

/// Quotient of two fixed-point machine values, positive divisor.
pub fn fquot_i128(a: i128, b: i128) -> (r: i128)
    requires
        1 <= b <= VAL_LIMIT,
        -VAL_LIMIT <= a * SCALE <= VAL_LIMIT,
    ensures
        r == fquot(a as int, b as int),
{
    rdiv_i128(a * SCALE, b)
}

/// Clamp on machine values.
pub fn clamp_i128(x: i128, lo: i128, hi: i128) -> (r: i128)
    requires
        lo <= hi,
    ensures
        r == clamp_val(x as int, lo as int, hi as int),
{
    if x < lo {
        lo
    } else if x > hi {
        hi
    } else {
        x
    }
}

/// Absolute value on machine values.
pub fn abs_i128(x: i128) -> (r: i128)
    requires
        x != i128::MIN,
    ensures
        r == abs_i(x as int),
{
    if x < 0 {
        -x
    } else {
        x
    }
}

} // verus!
