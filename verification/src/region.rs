//! Rectangular regions of the complex plane and their sample grids.
//!
//! A region is four fixed-point bounds; orientation is meaningful, so either
//! bound of an axis may be the larger one, and a degenerate axis is rejected
//! at construction. `build` discretizes the region into an evenly spaced
//! half-open lattice: sample `i` of `n` along a signed span `d` sits at
//! `bound + tdiv(i * d, n)`, so the starting bound is hit exactly and the far
//! bound never is.

use vstd::prelude::*;
use vstd::math::abs;
use vstd::arithmetic::div_mod::{
    lemma_fundamental_div_mod, lemma_mod_division_less_than_divisor, lemma_multiply_divide_lt,
};
use vstd::arithmetic::mul::lemma_mul_upper_bound;
use crate::complex::{spec_bounded, Complex};
use crate::fixed::{scale_index, tdiv, FX_COORD_MAX, FX_POINT_LIMIT, FX_SPAN_LIMIT};
use crate::JuliaError;

verus! {

/// Largest accepted resolution along either axis (2^30 samples).
pub const RES_MAX: usize = 0x4000_0000;

/// A rectangle in the complex plane: fixed-point bounds along the real axis
/// (`xleft`, `xright`) and the imaginary axis (`yleft`, `yright`).
#[derive(Clone, Copy, Debug, PartialEq, Eq, Structural)]
pub struct ComplexRegion {
    pub xleft: i64,
    pub xright: i64,
    pub yleft: i64,
    pub yright: i64,
}

/// A 2D lattice of complex samples: axis 0 (outer) runs along the real
/// direction, axis 1 (inner) along the imaginary direction.
pub struct Grid {
    pub points: Vec<Vec<Complex>>,
    pub resolution_y: usize,
}

impl Grid {
    /// Every row has the declared length and every sample is bounded.
    pub open spec fn wf(self) -> bool {
        &&& forall|i: int|
            0 <= i < self.points@.len() ==> (#[trigger] self.points@[i])@.len()
                == self.resolution_y
        &&& forall|i: int, j: int|
            0 <= i < self.points@.len() && 0 <= j < self.resolution_y ==> {
                let p = #[trigger] self.points@[i]@[j];
                spec_bounded(p.re as int, p.im as int, FX_POINT_LIMIT as int)
            }
    }

    /// Number of samples along the real axis.
    pub fn width(&self) -> (r: usize)
        ensures
            r == self.points@.len(),
    {
        self.points.len()
    }

    /// Number of samples along the imaginary axis.
    pub fn height(&self) -> (r: usize)
        ensures
            r == self.resolution_y,
    {
        self.resolution_y
    }

    /// The sample at index `(i, j)`.
    pub fn at(&self, i: usize, j: usize) -> (r: Complex)
        requires
            self.wf(),
            i < self.points@.len(),
            j < self.resolution_y,
        ensures
            r == self.points@[i as int]@[j as int],
    {
        self.points[i][j]
    }
}

impl ComplexRegion {
    /// Bounds are within the fixed-point coordinate range and neither axis is
    /// degenerate.
    pub open spec fn wf(self) -> bool {
        &&& -FX_COORD_MAX <= self.xleft <= FX_COORD_MAX
        &&& -FX_COORD_MAX <= self.xright <= FX_COORD_MAX
        &&& -FX_COORD_MAX <= self.yleft <= FX_COORD_MAX
        &&& -FX_COORD_MAX <= self.yright <= FX_COORD_MAX
        &&& self.xleft != self.xright
        &&& self.yleft != self.yright
    }

    /// Magnitude of the real-axis span.
    pub open spec fn spec_xspan(self) -> int {
        abs(self.xright - self.xleft) as int
    }

    /// Magnitude of the imaginary-axis span.
    pub open spec fn spec_yspan(self) -> int {
        abs(self.yright - self.yleft) as int
    }

    /// The derived resolution along the imaginary axis: the nearest integer
    /// to `nx * yspan / xspan`, half-way cases rounded up (away from zero;
    /// every quantity here is non-negative).
    pub open spec fn spec_res_y(self, nx: int) -> int
        recommends
            self.wf(),
    {
        (2 * nx * self.spec_yspan() + self.spec_xspan()) / (2 * self.spec_xspan())
    }

    /// Real part of the sample at index `i` of `nx`.
    pub open spec fn spec_sample_re(self, nx: int, i: int) -> int {
        self.xleft + tdiv(i * (self.xright - self.xleft), nx)
    }

    /// Imaginary part of the sample at index `j` of `ny`.
    pub open spec fn spec_sample_im(self, ny: int, j: int) -> int {
        self.yleft + tdiv(j * (self.yright - self.yleft), ny)
    }

    /// `g` is the sample lattice of `self` at resolution `nx`: the requested
    /// shape, and every entry the specified sample value.
    pub open spec fn grid_matches(self, g: Grid, nx: int) -> bool {
        &&& g.points@.len() == nx
        &&& g.resolution_y == self.spec_res_y(nx)
        &&& forall|i: int|
            0 <= i < nx ==> (#[trigger] g.points@[i])@.len() == self.spec_res_y(nx)
        &&& forall|i: int, j: int|
            0 <= i < nx && 0 <= j < self.spec_res_y(nx) ==> {
                let p = #[trigger] g.points@[i]@[j];
                &&& p.re == self.spec_sample_re(nx, i)
                &&& p.im == self.spec_sample_im(self.spec_res_y(nx), j)
            }
    }

    /// Validated construction: fails exactly on a degenerate rectangle.
    pub fn new(xleft: i64, xright: i64, yleft: i64, yright: i64) -> (r: Result<
        ComplexRegion,
        JuliaError,
    >)
        requires
            -FX_COORD_MAX <= xleft <= FX_COORD_MAX,
            -FX_COORD_MAX <= xright <= FX_COORD_MAX,
            -FX_COORD_MAX <= yleft <= FX_COORD_MAX,
            -FX_COORD_MAX <= yright <= FX_COORD_MAX,
        ensures
            r is Ok <==> (xleft != xright && yleft != yright),
            r is Ok ==> r->Ok_0 == (ComplexRegion { xleft, xright, yleft, yright })
                && r->Ok_0.wf(),
            r is Err ==> r->Err_0 == JuliaError::DegenerateRegion,
    {
        if xleft == xright || yleft == yright {
            Err(JuliaError::DegenerateRegion)
        } else {
            Ok(ComplexRegion { xleft, xright, yleft, yright })
        }
    }

    /// Magnitude of the real-axis span.
    pub fn xspan(&self) -> (r: i64)
        requires
            self.wf(),
        ensures
            r == self.spec_xspan(),
            1 <= r <= FX_SPAN_LIMIT,
    {
        if self.xright >= self.xleft {
            self.xright - self.xleft
        } else {
            self.xleft - self.xright
        }
    }

    /// Magnitude of the imaginary-axis span.
    pub fn yspan(&self) -> (r: i64)
        requires
            self.wf(),
        ensures
            r == self.spec_yspan(),
            1 <= r <= FX_SPAN_LIMIT,
    {
        if self.yright >= self.yleft {
            self.yright - self.yleft
        } else {
            self.yleft - self.yright
        }
    }

    /// Discretize the region into a freshly allocated lattice of
    /// `resolution_x` by `spec_res_y` samples. Fails exactly when the derived
    /// resolution along the imaginary axis does not fit the supported range.
    #[verifier::loop_isolation(false)]
    pub fn build(&self, resolution_x: usize) -> (r: Result<Grid, JuliaError>)
        requires
            self.wf(),
            resolution_x <= RES_MAX,
        ensures
            r is Ok <==> self.spec_res_y(resolution_x as int) <= RES_MAX,
            r is Ok ==> self.grid_matches(r->Ok_0, resolution_x as int) && r->Ok_0.wf(),
            r is Err ==> r->Err_0 == JuliaError::ResolutionOverflow,
    {
        let xs = self.xspan();
        let ys = self.yspan();
        proof {
            lemma_mul_upper_bound(
                2 * (resolution_x as int),
                2 * (RES_MAX as int),
                ys as int,
                FX_SPAN_LIMIT as int,
            );
        }
        let num: u128 = 2 * (resolution_x as u128) * (ys as u128) + (xs as u128);
        let den: u128 = 2 * (xs as u128);
        let nyw: u128 = num / den;
        if nyw > RES_MAX as u128 {
            return Err(JuliaError::ResolutionOverflow);
        }
        let ny: usize = nyw as usize;
        let dx = self.xright - self.xleft;
        let dy = self.yright - self.yleft;
        let mut points: Vec<Vec<Complex>> = Vec::new();
        let mut i: usize = 0;
        while i < resolution_x
            invariant
                i <= resolution_x,
                points@.len() == i,
                forall|ii: int| 0 <= ii < i ==> (#[trigger] points@[ii])@.len() == ny,
                forall|ii: int, jj: int|
                    0 <= ii < i && 0 <= jj < ny ==> {
                        let p = #[trigger] points@[ii]@[jj];
                        &&& p.re == self.spec_sample_re(resolution_x as int, ii)
                        &&& p.im == self.spec_sample_im(ny as int, jj)
                        &&& spec_bounded(p.re as int, p.im as int, FX_POINT_LIMIT as int)
                    },
            decreases resolution_x - i,
        {
            let x = self.xleft + scale_index(i, dx, resolution_x);
            let mut row: Vec<Complex> = Vec::new();
            let mut j: usize = 0;
            while j < ny
                invariant
                    j <= ny,
                    row@.len() == j,
                    i < resolution_x,
                    x == self.spec_sample_re(resolution_x as int, i as int),
                    -FX_POINT_LIMIT <= x <= FX_POINT_LIMIT,
                    forall|jj: int|
                        0 <= jj < j ==> {
                            let p = #[trigger] row@[jj];
                            &&& p.re == x
                            &&& p.im == self.spec_sample_im(ny as int, jj)
                            &&& spec_bounded(p.re as int, p.im as int, FX_POINT_LIMIT as int)
                        },
                decreases ny - j,
            {
                let y = self.yleft + scale_index(j, dy, ny);
                row.push(Complex { re: x, im: y });
                j += 1;
            }
            points.push(row);
            i += 1;
        }
        Ok(Grid { points, resolution_y: ny })
    }
}

/// Law: for a non-degenerate region, the derived resolution along the
/// imaginary axis is the integer nearest to `nx * yspan / xspan`, with
/// half-way cases rounded up: it is the unique `n` with
/// `n - 1/2 <= nx * yspan / xspan < n + 1/2` over the reals.
pub proof fn lemma_resolution_y_nearest(region: ComplexRegion, nx: int)
    requires
        region.wf(),
        nx >= 0,
    ensures
        2 * region.spec_res_y(nx) * region.spec_xspan() - region.spec_xspan() <= 2 * nx
            * region.spec_yspan(),
        2 * nx * region.spec_yspan() < 2 * region.spec_res_y(nx) * region.spec_xspan()
            + region.spec_xspan(),
{
    let xs = region.spec_xspan();
    let ys = region.spec_yspan();
    let a = 2 * nx * ys + xs;
    let d = 2 * xs;
    let n = region.spec_res_y(nx);
    lemma_fundamental_div_mod(a, d);
    lemma_mod_division_less_than_divisor(a, d);
    assert(a == d * n + a % d);
    assert((2 * xs) * n == 2 * n * xs) by (nonlinear_arith);
}

/// Law: with `nx >= 1` samples, the first sample along the real axis is
/// exactly `xleft`, and no sample along it equals `xright`.
pub proof fn lemma_real_axis_samples(region: ComplexRegion, nx: int, i: int)
    requires
        region.wf(),
        0 <= i < nx,
    ensures
        region.spec_sample_re(nx, 0) == region.xleft,
        region.spec_sample_re(nx, i) != region.xright,
{
    lemma_axis_samples(region.xleft as int, region.xright as int, nx, i);
}

/// Law: with `ny >= 1` samples, the first sample along the imaginary axis is
/// exactly `yleft`, and no sample along it equals `yright`.
pub proof fn lemma_imag_axis_samples(region: ComplexRegion, ny: int, j: int)
    requires
        region.wf(),
        0 <= j < ny,
    ensures
        region.spec_sample_im(ny, 0) == region.yleft,
        region.spec_sample_im(ny, j) != region.yright,
{
    lemma_axis_samples(region.yleft as int, region.yright as int, ny, j);
}

/// Half-open sampling along one axis: sample 0 sits on the starting bound and
/// every in-range offset stays strictly inside the signed span.
proof fn lemma_axis_samples(near: int, far: int, n: int, i: int)
    requires
        near != far,
        0 <= i < n,
    ensures
        near + tdiv(0 * (far - near), n) == near,
        near + tdiv(i * (far - near), n) != far,
{
    let d = far - near;
    assert(0 * d == 0) by (nonlinear_arith);
    crate::fixed::lemma_tdiv_mag(i * d, n);
    crate::fixed::lemma_abs_mul(i, d);
    assert(abs(i * d) < n * abs(d)) by (nonlinear_arith)
        requires
            0 <= i < n,
            abs(i * d) == abs(i) * abs(d),
            abs(i) == i,
            abs(d) >= 1,
    ;
    lemma_multiply_divide_lt(abs(i * d) as int, n, abs(d) as int);
    assert(abs(tdiv(i * d, n)) < abs(d));
}

} // verus!
