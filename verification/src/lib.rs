//! Escape-time divergence fields for the quadratic complex map `z <- z*z + c0`
//! over a rectangular region of the complex plane.
//!
//! All coordinates are fixed-point numbers: an `i64` stands for the real value
//! `raw / FX_ONE`. Fixed-point arithmetic is exact and fully specified, so the
//! grid construction and the per-point escape iteration are verified down to
//! the last bit.

use vstd::prelude::*;

pub mod complex;
pub mod field;
pub mod fixed;
pub mod region;

verus! {

/// Failures of the validated constructors and of grid construction.
#[derive(Clone, Copy, Debug, PartialEq, Eq, Structural)]
pub enum JuliaError {
    /// A region with `xleft == xright` or `yleft == yright` has no usable area.
    DegenerateRegion,
    /// An iteration range with `min >= max` has no usable normalization divisor.
    InvalidIterationRange,
    /// The derived resolution along the imaginary axis does not fit the
    /// supported index range.
    ResolutionOverflow,
}

} // verus!
