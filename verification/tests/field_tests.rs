use juliaset::complex::Complex;
use juliaset::field::JuliaDiv;
use juliaset::fixed::FX_ONE;
use juliaset::region::ComplexRegion;
use juliaset::JuliaError;

/// One in fixed point.
const S: i64 = FX_ONE;

const ORIGIN: Complex = Complex { re: 0, im: 0 };

#[test]
fn empty_iteration_range_rejected() {
    assert!(matches!(
        JuliaDiv::new(ORIGIN, 2 * S, (5, 5), 10),
        Err(JuliaError::InvalidIterationRange)
    ));
    assert!(matches!(
        JuliaDiv::new(ORIGIN, 2 * S, (7, 3), 10),
        Err(JuliaError::InvalidIterationRange)
    ));
    assert!(JuliaDiv::new(ORIGIN, 2 * S, (5, 80), 10).is_ok());
}

#[test]
fn immediate_escape_is_zero() {
    // c0 = 0, threshold 2, range (0, 10), point 3+0i: |3*3| > 4 at once.
    let f = JuliaDiv::new(ORIGIN, 2 * S, (0, 10), 4).unwrap();
    assert_eq!(f.intensity(Complex { re: 3 * S, im: 0 }), 0);
}

#[test]
fn origin_never_escapes() {
    // Same field, point 0: the magnitude stays 0, so the result saturates.
    let f = JuliaDiv::new(ORIGIN, 2 * S, (0, 10), 4).unwrap();
    assert_eq!(f.intensity(ORIGIN), S);
}

#[test]
fn escape_at_or_before_minimum_clamps_to_zero() {
    let f = JuliaDiv::new(ORIGIN, 2 * S, (2, 10), 4).unwrap();
    // Escapes immediately: count 0 <= 2.
    assert_eq!(f.intensity(Complex { re: 3 * S, im: 0 }), 0);
    // -1-1i squares to 2i (magnitude 2, not above the threshold), and 2i
    // squares to -4 (escaped): count 1 <= 2.
    assert_eq!(f.intensity(Complex { re: -S, im: -S }), 0);
}

#[test]
fn over_concrete_values() {
    let f = JuliaDiv::new(ORIGIN, 2 * S, (0, 2), 2).unwrap();
    let r = ComplexRegion::new(-S, S, -S, S).unwrap();
    let out = f.over(&r).unwrap();
    // Samples: (-1,-1) escapes after 1 completed iteration, the rest exhaust
    // the budget of 2.
    assert_eq!(out, vec![vec![S / 2, S], vec![S, S]]);
}

#[test]
fn over_shape_and_range() {
    // The default Julia parameters, in fixed point, over a 1.6 x 1.0 region:
    // 16 columns give round(16 / 1.6) = 10 rows, every entry in [0, 1].
    let c0 = Complex {
        re: -(835 * S / 1000),
        im: -(2321 * S / 10000),
    };
    let f = JuliaDiv::new(c0, 2 * S, (5, 80), 16).unwrap();
    let r = ComplexRegion::new(-(16 * S / 10), 16 * S / 10, S, -S).unwrap();
    let out = f.over(&r).unwrap();
    assert_eq!(out.len(), 16);
    for column in &out {
        assert_eq!(column.len(), 10);
        for &v in column {
            assert!((0..=S).contains(&v));
        }
    }
}

#[test]
fn over_propagates_grid_failure() {
    let f = JuliaDiv::new(ORIGIN, 2 * S, (0, 10), 2).unwrap();
    let r = ComplexRegion::new(0, 1, 0, juliaset::fixed::FX_COORD_MAX).unwrap();
    assert!(matches!(f.over(&r), Err(JuliaError::ResolutionOverflow)));
}
