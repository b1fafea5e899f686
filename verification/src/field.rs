//! Divergence fields: escape-time classification of grid points under the
//! map `z <- z*z + c_0`.
//!
//! Per point: `z` is updated first, then tested, so every point undergoes at
//! least one map application; the loop stops as soon as the completed count
//! reaches the maximum or the squared magnitude exceeds the squared
//! threshold. The count, clamped below at the minimum, is rescaled linearly
//! into the fixed-point unit interval `[0, FX_ONE]`.

use vstd::prelude::*;
use vstd::arithmetic::div_mod::{
    lemma_div_by_multiple, lemma_div_pos_is_pos, lemma_multiply_divide_le,
};
use vstd::arithmetic::mul::lemma_mul_upper_bound;
use crate::complex::{
    lemma_component_bound, spec_bounded, spec_mag_sq, spec_step_im, spec_step_re, Complex,
};
use crate::fixed::{FX_COORD_MAX, FX_ONE, FX_POINT_LIMIT, FX_STEP_LIMIT};
use crate::region::{ComplexRegion, RES_MAX};
use crate::JuliaError;

verus! {

/// Largest accepted maximum iteration count (2^30).
pub const ITER_MAX: usize = 0x4000_0000;

/// Completed iterations counted from an already-updated value `w`: zero if
/// `w` has escaped or no budget remains, else one more than the count from
/// the next update.
pub open spec fn spec_escape_from(wr: int, wi: int, cr: int, ci: int, tsq: int, rem: nat) -> nat
    decreases rem,
{
    if rem == 0 || spec_mag_sq(wr, wi) > tsq {
        0
    } else {
        1 + spec_escape_from(
            spec_step_re(wr, wi, cr),
            spec_step_im(wr, wi, ci),
            cr,
            ci,
            tsq,
            (rem - 1) as nat,
        )
    }
}

/// Completed iterations for a starting point `z`: the point is updated once
/// before the first test.
pub open spec fn spec_escape_steps(zr: int, zi: int, cr: int, ci: int, tsq: int, fuel: nat) -> nat {
    spec_escape_from(spec_step_re(zr, zi, cr), spec_step_im(zr, zi, ci), cr, ci, tsq, fuel)
}

/// The normalized intensity: the count clamped below at `lo`, rescaled so
/// that `lo` maps to 0 and `hi` maps to `FX_ONE`.
pub open spec fn spec_normalized(steps: int, lo: int, hi: int) -> int
    recommends
        lo < hi,
{
    if steps <= lo {
        0
    } else {
        ((steps - lo) * FX_ONE) / (hi - lo)
    }
}

/// The completed count never exceeds the remaining budget.
pub proof fn lemma_escape_from_le_rem(wr: int, wi: int, cr: int, ci: int, tsq: int, rem: nat)
    ensures
        spec_escape_from(wr, wi, cr, ci, tsq, rem) <= rem,
    decreases rem,
{
    if rem > 0 && !(spec_mag_sq(wr, wi) > tsq) {
        lemma_escape_from_le_rem(
            spec_step_re(wr, wi, cr),
            spec_step_im(wr, wi, ci),
            cr,
            ci,
            tsq,
            (rem - 1) as nat,
        );
    }
}

/// A normalized count of at most `hi` lies in the unit interval.
pub proof fn lemma_normalized_range(steps: int, lo: int, hi: int)
    requires
        lo < hi,
        0 <= steps <= hi,
    ensures
        0 <= spec_normalized(steps, lo, hi) <= FX_ONE,
{
    if steps > lo {
        let diff = steps - lo;
        let den = hi - lo;
        lemma_div_pos_is_pos(diff * FX_ONE, den);
        assert(diff * FX_ONE <= den * FX_ONE) by (nonlinear_arith)
            requires
                0 < diff <= den,
        ;
        lemma_multiply_divide_le(diff * FX_ONE, den, FX_ONE as int);
    }
}

/// A divergence-field descriptor: the map constant `c_0`, the escape
/// threshold, the iteration range `(min, max)` and the resolution along the
/// real axis.
pub struct JuliaDiv {
    pub c_0: Complex,
    pub threshold: i64,
    pub n_iterations: (usize, usize),
    pub resolution: usize,
}

impl JuliaDiv {
    /// The constant and threshold are in the coordinate range, the threshold
    /// is positive, the iteration range is non-empty and the sizes fit.
    pub open spec fn wf(self) -> bool {
        &&& spec_bounded(self.c_0.re as int, self.c_0.im as int, FX_COORD_MAX as int)
        &&& 0 < self.threshold <= FX_COORD_MAX
        &&& self.n_iterations.0 < self.n_iterations.1
        &&& self.n_iterations.1 <= ITER_MAX
        &&& self.resolution <= RES_MAX
    }

    /// The squared escape threshold, in the doubled raw scale.
    pub open spec fn spec_threshold_sq(self) -> int {
        (self.threshold as int) * (self.threshold as int)
    }

    /// Completed iterations for the point `(zr, zi)` under this field.
    pub open spec fn spec_escape_count(self, zr: int, zi: int) -> nat {
        spec_escape_steps(
            zr,
            zi,
            self.c_0.re as int,
            self.c_0.im as int,
            self.spec_threshold_sq(),
            self.n_iterations.1 as nat,
        )
    }

    /// The divergence intensity of the point `(zr, zi)`: its escape count,
    /// clamped and normalized into `[0, FX_ONE]`.
    pub open spec fn spec_divergence(self, zr: int, zi: int) -> int {
        spec_normalized(
            self.spec_escape_count(zr, zi) as int,
            self.n_iterations.0 as int,
            self.n_iterations.1 as int,
        )
    }

    /// The divergence output for `plane`: the shape of the plane's sample
    /// lattice, every entry the divergence of its sample, in `[0, FX_ONE]`.
    pub open spec fn output_matches(self, plane: ComplexRegion, out: Seq<Vec<i64>>) -> bool {
        let nx = self.resolution as int;
        let ny = plane.spec_res_y(nx);
        &&& out.len() == nx
        &&& forall|i: int| 0 <= i < nx ==> (#[trigger] out[i])@.len() == ny
        &&& forall|i: int, j: int|
            0 <= i < nx && 0 <= j < ny ==> {
                let v = #[trigger] out[i]@[j];
                &&& v == self.spec_divergence(
                    plane.spec_sample_re(nx, i),
                    plane.spec_sample_im(ny, j),
                )
                &&& 0 <= v <= FX_ONE
            }
    }

    /// Validated construction: fails exactly on an empty iteration range.
    pub fn new(
        c_0: Complex,
        threshold: i64,
        n_iterations: (usize, usize),
        resolution: usize,
    ) -> (r: Result<JuliaDiv, JuliaError>)
        requires
            spec_bounded(c_0.re as int, c_0.im as int, FX_COORD_MAX as int),
            0 < threshold <= FX_COORD_MAX,
            n_iterations.1 <= ITER_MAX,
            resolution <= RES_MAX,
        ensures
            r is Ok <==> n_iterations.0 < n_iterations.1,
            r is Ok ==> r->Ok_0 == (JuliaDiv { c_0, threshold, n_iterations, resolution })
                && r->Ok_0.wf(),
            r is Err ==> r->Err_0 == JuliaError::InvalidIterationRange,
    {
        if n_iterations.0 >= n_iterations.1 {
            Err(JuliaError::InvalidIterationRange)
        } else {
            Ok(JuliaDiv { c_0, threshold, n_iterations, resolution })
        }
    }

    /// The divergence intensity of one point, in `[0, FX_ONE]`.
    pub fn intensity(&self, z: Complex) -> (r: i64)
        requires
            self.wf(),
            spec_bounded(z.re as int, z.im as int, FX_POINT_LIMIT as int),
        ensures
            r == self.spec_divergence(z.re as int, z.im as int),
            0 <= r <= FX_ONE,
    {
        let steps = escape_steps(z, self.c_0, self.threshold, self.n_iterations.1);
        normalize(steps, self.n_iterations.0, self.n_iterations.1)
    }

    /// Evaluate the field over `plane`: build the sample lattice once at the
    /// field's resolution, then classify every sample independently. Fails
    /// exactly when the lattice itself cannot be built.
    #[verifier::loop_isolation(false)]
    pub fn over(&self, plane: &ComplexRegion) -> (r: Result<Vec<Vec<i64>>, JuliaError>)
        requires
            self.wf(),
            plane.wf(),
        ensures
            r is Ok <==> plane.spec_res_y(self.resolution as int) <= RES_MAX,
            r is Ok ==> self.output_matches(*plane, r->Ok_0@),
            r is Err ==> r->Err_0 == JuliaError::ResolutionOverflow,
    {
        let grid = match plane.build(self.resolution) {
            Ok(g) => g,
            Err(e) => {
                return Err(e);
            },
        };
        let nx = grid.width();
        let ny = grid.height();
        let mut out: Vec<Vec<i64>> = Vec::new();
        let mut i: usize = 0;
        while i < nx
            invariant
                i <= nx,
                out@.len() == i,
                forall|ii: int| 0 <= ii < i ==> (#[trigger] out@[ii])@.len() == ny,
                forall|ii: int, jj: int|
                    0 <= ii < i && 0 <= jj < ny ==> {
                        let v = #[trigger] out@[ii]@[jj];
                        &&& v == self.spec_divergence(
                            plane.spec_sample_re(nx as int, ii),
                            plane.spec_sample_im(ny as int, jj),
                        )
                        &&& 0 <= v <= FX_ONE
                    },
            decreases nx - i,
        {
            let mut line: Vec<i64> = Vec::new();
            let mut j: usize = 0;
            while j < ny
                invariant
                    j <= ny,
                    i < nx,
                    line@.len() == j,
                    forall|jj: int|
                        0 <= jj < j ==> {
                            let v = #[trigger] line@[jj];
                            &&& v == self.spec_divergence(
                                plane.spec_sample_re(nx as int, i as int),
                                plane.spec_sample_im(ny as int, jj),
                            )
                            &&& 0 <= v <= FX_ONE
                        },
                decreases ny - j,
            {
                let z = grid.at(i, j);
                let v = self.intensity(z);
                line.push(v);
                j += 1;
            }
            out.push(line);
            i += 1;
        }
        Ok(out)
    }
}

/// The escape loop: update, then test, until the budget is spent or the
/// squared magnitude exceeds the squared threshold.
#[verifier::loop_isolation(false)]
fn escape_steps(z: Complex, c: Complex, t: i64, fuel: usize) -> (r: usize)
    requires
        spec_bounded(z.re as int, z.im as int, FX_POINT_LIMIT as int),
        spec_bounded(c.re as int, c.im as int, FX_COORD_MAX as int),
        0 < t <= FX_COORD_MAX,
    ensures
        r == spec_escape_steps(
            z.re as int,
            z.im as int,
            c.re as int,
            c.im as int,
            (t as int) * (t as int),
            fuel as nat,
        ),
        r <= fuel,
{
    let ghost tsq = (t as int) * (t as int);
    let mut w = z.step(c);
    let mut escaped = w.mag_sq_exceeds(t);
    let mut i: usize = 0;
    while i < fuel && !escaped
        invariant
            i <= fuel,
            spec_bounded(w.re as int, w.im as int, FX_STEP_LIMIT as int),
            escaped == (spec_mag_sq(w.re as int, w.im as int) > tsq),
            spec_escape_steps(z.re as int, z.im as int, c.re as int, c.im as int, tsq, fuel as nat)
                == i + spec_escape_from(
                w.re as int,
                w.im as int,
                c.re as int,
                c.im as int,
                tsq,
                (fuel - i) as nat,
            ),
        decreases fuel - i,
    {
        proof {
            lemma_component_bound(w.re as int, w.im as int, t as int);
        }
        i += 1;
        w = w.step(c);
        escaped = w.mag_sq_exceeds(t);
    }
    i
}

/// Clamp the count below at `lo` and rescale `[lo, hi]` linearly onto
/// `[0, FX_ONE]`, truncating.
fn normalize(steps: usize, lo: usize, hi: usize) -> (r: i64)
    requires
        lo < hi,
        hi <= ITER_MAX,
        steps <= hi,
    ensures
        r == spec_normalized(steps as int, lo as int, hi as int),
        0 <= r <= FX_ONE,
{
    proof {
        lemma_normalized_range(steps as int, lo as int, hi as int);
    }
    if steps <= lo {
        0
    } else {
        let diff = (steps - lo) as u64;
        let den = (hi - lo) as u64;
        proof {
            lemma_mul_upper_bound(diff as int, ITER_MAX as int, FX_ONE as int, FX_ONE as int);
        }
        let num = diff * (FX_ONE as u64);
        (num / den) as i64
    }
}

/// Law: for every field configuration and every point, the divergence
/// intensity lies in the unit interval `[0, FX_ONE]`.
pub proof fn lemma_divergence_in_unit_range(field: JuliaDiv, zr: int, zi: int)
    requires
        field.wf(),
    ensures
        0 <= field.spec_divergence(zr, zi) <= FX_ONE,
{
    lemma_escape_from_le_rem(
        spec_step_re(zr, zi, field.c_0.re as int),
        spec_step_im(zr, zi, field.c_0.im as int),
        field.c_0.re as int,
        field.c_0.im as int,
        field.spec_threshold_sq(),
        field.n_iterations.1 as nat,
    );
    lemma_normalized_range(
        field.spec_escape_count(zr, zi) as int,
        field.n_iterations.0 as int,
        field.n_iterations.1 as int,
    );
}

/// Law: a point that escapes at or before the minimum iteration count has
/// divergence exactly zero.
pub proof fn lemma_early_escape_clamps_to_zero(field: JuliaDiv, zr: int, zi: int)
    requires
        field.wf(),
        field.spec_escape_count(zr, zi) <= field.n_iterations.0,
    ensures
        field.spec_divergence(zr, zi) == 0,
{
}

/// The origin under `c_0 == 0` never escapes: every unit of budget is spent.
proof fn lemma_origin_escape_from(tsq: int, rem: nat)
    requires
        tsq >= 0,
    ensures
        spec_escape_from(0, 0, 0, 0, tsq, rem) == rem,
    decreases rem,
{
    if rem > 0 {
        lemma_origin_escape_from(tsq, (rem - 1) as nat);
    }
}

/// Law: with `c_0 == 0`, the origin never escapes under any positive
/// threshold and any valid iteration range, and its divergence is exactly
/// one (`FX_ONE`).
pub proof fn lemma_origin_saturates(field: JuliaDiv)
    requires
        field.wf(),
        field.c_0 == (Complex { re: 0, im: 0 }),
    ensures
        field.spec_divergence(0, 0) == FX_ONE,
{
    let tsq = field.spec_threshold_sq();
    assert(tsq >= 0) by (nonlinear_arith)
        requires
            tsq == (field.threshold as int) * (field.threshold as int),
    ;
    lemma_origin_escape_from(tsq, field.n_iterations.1 as nat);
    let lo = field.n_iterations.0 as int;
    let hi = field.n_iterations.1 as int;
    assert(field.spec_escape_count(0, 0) == hi);
    assert((hi - lo) * FX_ONE == FX_ONE * (hi - lo)) by (nonlinear_arith);
    lemma_div_by_multiple(FX_ONE as int, hi - lo);
}

} // verus!
