use juliaset::complex::Complex;
use juliaset::fixed::{FX_COORD_MAX, FX_ONE};
use juliaset::region::ComplexRegion;
use juliaset::JuliaError;

/// One in fixed point.
const S: i64 = FX_ONE;

#[test]
fn degenerate_region_rejected() {
    assert_eq!(
        ComplexRegion::new(0, 0, -S, S),
        Err(JuliaError::DegenerateRegion)
    );
    assert_eq!(
        ComplexRegion::new(-S, S, 3 * S, 3 * S),
        Err(JuliaError::DegenerateRegion)
    );
    assert!(ComplexRegion::new(-S, S, -S, S).is_ok());
}

#[test]
fn spans_are_absolute() {
    let r = ComplexRegion::new(-S, S, S, -S).unwrap();
    assert_eq!(r.xspan(), 2 * S);
    assert_eq!(r.yspan(), 2 * S);
}

#[test]
fn concrete_square_grid() {
    // Region(-1, 1, -1, 1) at resolution 4: shape (4, 4), sample (0,0) at
    // (-1, -1) and sample (2,0) at (0, -1).
    let r = ComplexRegion::new(-S, S, -S, S).unwrap();
    let g = r.build(4).unwrap();
    assert_eq!(g.width(), 4);
    assert_eq!(g.height(), 4);
    assert_eq!(g.at(0, 0), Complex { re: -S, im: -S });
    assert_eq!(g.at(2, 0), Complex { re: 0, im: -S });
}

#[test]
fn first_samples_hit_bounds_far_bound_never() {
    let r = ComplexRegion::new(-S, S, -S, S).unwrap();
    let g = r.build(3).unwrap();
    assert_eq!(g.at(0, 0), Complex { re: -S, im: -S });
    for i in 0..g.width() {
        for j in 0..g.height() {
            assert_ne!(g.at(i, j).re, S);
            assert_ne!(g.at(i, j).im, S);
        }
    }
}

#[test]
fn derived_resolution_rounds_half_away_from_zero() {
    // yspan / xspan == 0.5, resolution 5: 2.5 rounds up to 3 rows.
    let r = ComplexRegion::new(0, 2 * S, 0, S).unwrap();
    let g = r.build(5).unwrap();
    assert_eq!(g.width(), 5);
    assert_eq!(g.height(), 3);
    // 1.5 rounds up to 2; an exact 2.0 stays 2.
    let g = r.build(3).unwrap();
    assert_eq!(g.height(), 2);
    let g = r.build(4).unwrap();
    assert_eq!(g.height(), 2);
}

#[test]
fn zero_resolution_gives_empty_grid() {
    let r = ComplexRegion::new(-S, S, -S, S).unwrap();
    let g = r.build(0).unwrap();
    assert_eq!(g.width(), 0);
    assert_eq!(g.height(), 0);
}

#[test]
fn oversized_derived_resolution_rejected() {
    // The aspect ratio is FX_COORD_MAX, so two columns already ask for more
    // rows than the supported range.
    let r = ComplexRegion::new(0, 1, 0, FX_COORD_MAX).unwrap();
    assert!(matches!(r.build(2), Err(JuliaError::ResolutionOverflow)));
}

#[test]
fn inverted_axes_keep_orientation() {
    // Swapped bounds flip the sampling direction: samples start at the first
    // bound and walk toward the second.
    let r = ComplexRegion::new(S, -S, S, -S).unwrap();
    let g = r.build(2).unwrap();
    assert_eq!(g.width(), 2);
    assert_eq!(g.height(), 2);
    assert_eq!(g.at(0, 0), Complex { re: S, im: S });
    assert_eq!(g.at(1, 0), Complex { re: 0, im: S });
    assert_eq!(g.at(0, 1), Complex { re: S, im: 0 });
}
