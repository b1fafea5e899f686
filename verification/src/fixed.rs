//! Fixed-point scalars.
//!
//! A coordinate is an `i64` whose real value is `raw / FX_ONE`. Products are
//! rescaled with a truncating (round-toward-zero) division, which `tdiv`
//! specifies exactly; every executable routine here is proved equal to its
//! specification and free of overflow within the stated magnitude limits.

use vstd::prelude::*;
use vstd::math::abs;
use vstd::arithmetic::div_mod::{
    lemma_div_is_ordered, lemma_div_pos_is_pos, lemma_multiply_divide_lt,
};
use vstd::arithmetic::mul::lemma_mul_upper_bound;

verus! {

/// The fixed-point unit: raw value of the real number one (2^24).
pub const FX_ONE: i64 = 0x100_0000;

/// Largest raw magnitude accepted for region bounds, for the components of
/// `c_0` and for the escape threshold (2^40, real value 65536).
pub const FX_COORD_MAX: i64 = 0x100_0000_0000;

/// Largest raw magnitude of a span between two region bounds (2^41).
pub const FX_SPAN_LIMIT: i64 = 0x200_0000_0000;

/// Largest raw magnitude of a grid sample point: a bound plus a span offset
/// stays well below this (2^42).
pub const FX_POINT_LIMIT: i64 = 0x400_0000_0000;

/// Largest raw magnitude of a rescaled product of two point-sized values
/// (2^60 = 2^42 * 2^42 / 2^24).
pub const FX_MUL_LIMIT: i64 = 0x1000_0000_0000_0000;

/// Largest raw magnitude of a component right after one map step (2^62).
pub const FX_STEP_LIMIT: i64 = 0x4000_0000_0000_0000;

/// Truncating division: the quotient rounded toward zero, for a positive
/// divisor. This is the rounding executable code performs when it divides
/// magnitudes and reattaches the sign.
pub open spec fn tdiv(a: int, b: int) -> int
    recommends
        b > 0,
{
    if a >= 0 {
        a / b
    } else {
        -((-a) / b)
    }
}

/// The fixed-point product: the exact integer product rescaled by `FX_ONE`,
/// truncated toward zero.
pub open spec fn spec_fx_mul(a: int, b: int) -> int {
    tdiv(a * b, FX_ONE as int)
}

/// The magnitude of a product is the product of the magnitudes.
pub proof fn lemma_abs_mul(a: int, b: int)
    ensures
        abs(a * b) == abs(a) * abs(b),
{
    if a >= 0 && b >= 0 {
        assert(a * b >= 0) by (nonlinear_arith)
            requires
                a >= 0,
                b >= 0,
        ;
    } else if a >= 0 && b < 0 {
        assert(a * b <= 0 && a * b == -(a * (-b))) by (nonlinear_arith)
            requires
                a >= 0,
                b < 0,
        ;
    } else if a < 0 && b >= 0 {
        assert(a * b <= 0 && a * b == -((-a) * b)) by (nonlinear_arith)
            requires
                a < 0,
                b >= 0,
        ;
    } else {
        assert(a * b >= 0 && a * b == (-a) * (-b)) by (nonlinear_arith)
            requires
                a < 0,
                b < 0,
        ;
    }
}

/// The magnitude of a truncated quotient is the quotient of the magnitude.
pub proof fn lemma_tdiv_mag(a: int, b: int)
    requires
        b > 0,
    ensures
        abs(tdiv(a, b)) == abs(a) as int / b,
{
    if a >= 0 {
        lemma_div_pos_is_pos(a, b);
    } else {
        lemma_div_pos_is_pos(-a, b);
    }
}

/// A truncated quotient is no larger in magnitude than the bound on the
/// dividend divided by the divisor.
pub proof fn lemma_tdiv_bound(a: int, b: int, m: int)
    requires
        b > 0,
        abs(a) <= m,
    ensures
        abs(tdiv(a, b)) <= m / b,
{
    lemma_tdiv_mag(a, b);
    lemma_div_is_ordered(abs(a) as int, m, b);
}

/// Magnitude bound on a fixed-point product of two bounded factors.
pub proof fn lemma_fx_mul_bound(a: int, b: int, m: int)
    requires
        0 <= m,
        abs(a) <= m,
        abs(b) <= m,
    ensures
        abs(spec_fx_mul(a, b)) <= (m * m) / (FX_ONE as int),
{
    lemma_abs_mul(a, b);
    lemma_mul_upper_bound(abs(a) as int, m, abs(b) as int, m);
    lemma_tdiv_bound(a * b, FX_ONE as int, m * m);
}

/// The magnitude of a bounded `i64`, as a `u64`.
pub(crate) fn fx_abs(a: i64) -> (r: u64)
    requires
        a > i64::MIN,
    ensures
        r == abs(a as int),
{
    if a < 0 {
        (-a) as u64
    } else {
        a as u64
    }
}

/// Fixed-point multiplication, exact up to the specified truncation.
pub(crate) fn fx_mul(a: i64, b: i64) -> (r: i64)
    requires
        -FX_POINT_LIMIT <= a <= FX_POINT_LIMIT,
        -FX_POINT_LIMIT <= b <= FX_POINT_LIMIT,
    ensures
        r == spec_fx_mul(a as int, b as int),
        -FX_MUL_LIMIT <= r <= FX_MUL_LIMIT,
{
    let am = fx_abs(a);
    let bm = fx_abs(b);
    proof {
        lemma_mul_upper_bound(am as int, FX_POINT_LIMIT as int, bm as int, FX_POINT_LIMIT as int);
    }
    let p: u128 = (am as u128) * (bm as u128);
    let q: u128 = p / (FX_ONE as u128);
    proof {
        lemma_abs_mul(a as int, b as int);
        assert(p == abs((a as int) * (b as int)));
        lemma_tdiv_mag((a as int) * (b as int), FX_ONE as int);
        lemma_div_is_ordered(p as int, FX_POINT_LIMIT as int * FX_POINT_LIMIT as int, FX_ONE as int);
        assert(q <= FX_MUL_LIMIT);
    }
    if (a < 0) != (b < 0) {
        proof {
            if a < 0 {
                assert((a as int) * (b as int) <= 0) by (nonlinear_arith)
                    requires
                        a < 0,
                        b >= 0,
                ;
            } else {
                assert((a as int) * (b as int) <= 0) by (nonlinear_arith)
                    requires
                        a >= 0,
                        b < 0,
                ;
            }
        }
        -(q as i64)
    } else {
        proof {
            if a < 0 {
                assert((a as int) * (b as int) >= 0) by (nonlinear_arith)
                    requires
                        a < 0,
                        b < 0,
                ;
            } else {
                assert((a as int) * (b as int) >= 0) by (nonlinear_arith)
                    requires
                        a >= 0,
                        b >= 0,
                ;
            }
        }
        q as i64
    }
}

/// The evenly spaced offset of sample `i` of `n` across a signed span `d`:
/// `tdiv(i * d, n)`, never larger in magnitude than the span itself.
pub(crate) fn scale_index(i: usize, d: i64, n: usize) -> (r: i64)
    requires
        0 < n,
        i < n,
        -FX_SPAN_LIMIT <= d <= FX_SPAN_LIMIT,
    ensures
        r == tdiv((i as int) * (d as int), n as int),
        abs(r as int) <= abs(d as int),
{
    let dm = fx_abs(d);
    proof {
        lemma_mul_upper_bound(i as int, usize::MAX as int, dm as int, FX_SPAN_LIMIT as int);
    }
    let p: u128 = (i as u128) * (dm as u128);
    let q: u128 = p / (n as u128);
    proof {
        lemma_abs_mul(i as int, d as int);
        assert(p == abs((i as int) * (d as int)));
        lemma_tdiv_mag((i as int) * (d as int), n as int);
        if dm > 0 {
            assert(p < (n as int) * (dm as int)) by (nonlinear_arith)
                requires
                    0 <= i < n,
                    dm > 0,
                    p == (i as int) * (dm as int),
            ;
            lemma_multiply_divide_lt(p as int, n as int, dm as int);
        } else {
            assert(p == 0) by (nonlinear_arith)
                requires
                    p == (i as int) * (dm as int),
                    dm == 0,
            ;
            assert(q == 0);
        }
        assert(q <= dm);
    }
    if d < 0 {
        proof {
            assert((i as int) * (d as int) <= 0) by (nonlinear_arith)
                requires
                    i >= 0,
                    d < 0,
            ;
        }
        -(q as i64)
    } else {
        proof {
            assert((i as int) * (d as int) >= 0) by (nonlinear_arith)
                requires
                    i >= 0,
                    d >= 0,
            ;
        }
        q as i64
    }
}

} // verus!
