//! Fixed-point complex values and the quadratic map step.
//!
//! A `Complex` holds two fixed-point components. One step of the map is
//! `z <- z*z + c`, computed with fixed-point products; the escape test
//! compares the exact squared magnitude `re*re + im*im` (in the doubled raw
//! scale) against the exact square of the threshold, so the comparison itself
//! involves no rounding at all.

use vstd::prelude::*;
use vstd::math::abs;
use vstd::arithmetic::mul::lemma_mul_upper_bound;
use crate::fixed::{
    fx_abs, fx_mul, lemma_fx_mul_bound, spec_fx_mul, FX_COORD_MAX, FX_MUL_LIMIT, FX_POINT_LIMIT,
    FX_STEP_LIMIT,
};

verus! {

/// A complex number with fixed-point real and imaginary components.
#[derive(Clone, Copy, Debug, PartialEq, Eq, Structural)]
pub struct Complex {
    pub re: i64,
    pub im: i64,
}

/// Real component of `z*z + c` in fixed point.
pub open spec fn spec_step_re(zr: int, zi: int, cr: int) -> int {
    spec_fx_mul(zr, zr) - spec_fx_mul(zi, zi) + cr
}

/// Imaginary component of `z*z + c` in fixed point.
pub open spec fn spec_step_im(zr: int, zi: int, ci: int) -> int {
    2 * spec_fx_mul(zr, zi) + ci
}

/// Exact squared magnitude of a complex value, in the doubled raw scale
/// (no rescaling, no rounding).
pub open spec fn spec_mag_sq(zr: int, zi: int) -> int {
    zr * zr + zi * zi
}

/// Both components of a complex value are bounded in magnitude by `m`.
pub open spec fn spec_bounded(zr: int, zi: int, m: int) -> bool {
    abs(zr) <= m && abs(zi) <= m
}

/// A squared magnitude below `t*t` bounds each component by `t`.
pub proof fn lemma_component_bound(zr: int, zi: int, t: int)
    requires
        t >= 0,
        spec_mag_sq(zr, zi) <= t * t,
    ensures
        spec_bounded(zr, zi, t),
{
    assert(-t <= zr <= t && -t <= zi <= t) by (nonlinear_arith)
        requires
            t >= 0,
            zr * zr + zi * zi <= t * t,
    ;
}

/// One step of the map keeps the components within the step limit.
pub proof fn lemma_step_bound(zr: int, zi: int, cr: int, ci: int)
    requires
        spec_bounded(zr, zi, FX_POINT_LIMIT as int),
        spec_bounded(cr, ci, FX_COORD_MAX as int),
    ensures
        spec_bounded(spec_step_re(zr, zi, cr), spec_step_im(zr, zi, ci), FX_STEP_LIMIT as int),
{
    lemma_fx_mul_bound(zr, zr, FX_POINT_LIMIT as int);
    lemma_fx_mul_bound(zi, zi, FX_POINT_LIMIT as int);
    lemma_fx_mul_bound(zr, zi, FX_POINT_LIMIT as int);
}

impl Complex {
    /// One application of the quadratic map: `self*self + c`.
    pub fn step(self, c: Complex) -> (r: Complex)
        requires
            spec_bounded(self.re as int, self.im as int, FX_POINT_LIMIT as int),
            spec_bounded(c.re as int, c.im as int, FX_COORD_MAX as int),
        ensures
            r.re == spec_step_re(self.re as int, self.im as int, c.re as int),
            r.im == spec_step_im(self.re as int, self.im as int, c.im as int),
            spec_bounded(r.re as int, r.im as int, FX_STEP_LIMIT as int),
    {
        proof {
            lemma_step_bound(self.re as int, self.im as int, c.re as int, c.im as int);
        }
        let rr = fx_mul(self.re, self.re);
        let ii = fx_mul(self.im, self.im);
        let ri = fx_mul(self.re, self.im);
        Complex { re: rr - ii + c.re, im: 2 * ri + c.im }
    }

    /// Whether the exact squared magnitude of `self` exceeds `t` squared.
    pub fn mag_sq_exceeds(self, t: i64) -> (r: bool)
        requires
            spec_bounded(self.re as int, self.im as int, FX_STEP_LIMIT as int),
            0 <= t <= FX_COORD_MAX,
        ensures
            r == (spec_mag_sq(self.re as int, self.im as int) > (t as int) * (t as int)),
    {
        let rm = fx_abs(self.re);
        let im = fx_abs(self.im);
        proof {
            lemma_mul_upper_bound(rm as int, FX_STEP_LIMIT as int, rm as int, FX_STEP_LIMIT as int);
            lemma_mul_upper_bound(im as int, FX_STEP_LIMIT as int, im as int, FX_STEP_LIMIT as int);
            lemma_mul_upper_bound(t as int, FX_COORD_MAX as int, t as int, FX_COORD_MAX as int);
            assert((rm as int) * (rm as int) == (self.re as int) * (self.re as int))
                by (nonlinear_arith)
                requires
                    rm == abs(self.re as int),
            ;
            assert((im as int) * (im as int) == (self.im as int) * (self.im as int))
                by (nonlinear_arith)
                requires
                    im == abs(self.im as int),
            ;
        }
        let m: u128 = (rm as u128) * (rm as u128) + (im as u128) * (im as u128);
        let tsq: u128 = (t as u128) * (t as u128);
        m > tsq
    }
}

} // verus!
