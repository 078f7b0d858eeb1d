use autoeq::curve::{Curve, CurveError, Point};

fn curve(points: &[(u32, i64)]) -> Curve {
    Curve::new(points.iter().map(|&(freq, gain)| Point { freq, gain }).collect()).unwrap()
}

#[test]
fn value_at_interpolates_midpoint() {
    let c = curve(&[(100_000, -10_000), (200_000, -20_000)]);
    assert_eq!(c.value_at(150_000), Ok(-15_000));
}

#[test]
fn value_at_is_exact_at_samples() {
    let c = curve(&[(100_000, -10_000), (250_000, -7_333), (900_000, -42_001)]);
    for p in c.points() {
        assert_eq!(c.value_at(p.freq), Ok(p.gain));
    }
}

#[test]
fn value_at_clamps_outside_range() {
    let c = curve(&[(100_000, -10_000), (200_000, -20_000)]);
    assert_eq!(c.value_at(1), Ok(-10_000));
    assert_eq!(c.value_at(99_999), Ok(-10_000));
    assert_eq!(c.value_at(200_001), Ok(-20_000));
    assert_eq!(c.value_at(u32::MAX), Ok(-20_000));
}

#[test]
fn value_at_rounds_toward_zero() {
    let c = curve(&[(1_000, 0), (4_000, -1)]);
    assert_eq!(c.value_at(2_000), Ok(0));
    let c = curve(&[(1_000, 0), (4_000, 2)]);
    assert_eq!(c.value_at(3_000), Ok(1));
}

#[test]
fn value_at_on_empty_curve_fails() {
    let c = Curve::new(vec![]).unwrap();
    assert_eq!(c.value_at(1_000), Err(CurveError::EmptyCurve));
}

#[test]
fn new_rejects_unordered_or_zero_frequencies() {
    let p = |freq, gain| Point { freq, gain };
    assert!(matches!(Curve::new(vec![p(200, 0), p(100, 0)]), Err(CurveError::NotAscending)));
    assert!(matches!(Curve::new(vec![p(100, 0), p(100, 1)]), Err(CurveError::NotAscending)));
    assert!(matches!(Curve::new(vec![p(0, 0), p(100, 1)]), Err(CurveError::NotAscending)));
    assert!(Curve::new(vec![p(100, 0), p(101, 1)]).is_ok());
}

#[test]
fn peak_gain_is_largest() {
    let c = curve(&[(1, -5), (2, 7), (3, 3)]);
    assert_eq!(c.peak_gain(), Ok(7));
    let e = Curve::new(vec![]).unwrap();
    assert_eq!(e.peak_gain(), Err(CurveError::EmptyCurve));
}

#[test]
fn transform_maps_gains_only() {
    let c = curve(&[(10, -5), (20, 7)]);
    let t = c.transform(|g| g * 2);
    assert_eq!(t.points(), &vec![Point { freq: 10, gain: -10 }, Point { freq: 20, gain: 14 }]);
}

#[test]
fn normalize_moves_peak_to_zero() {
    let c = curve(&[(10, -5_000), (20, 3_500), (30, 1_000)]);
    let n = c.normalize().unwrap();
    assert_eq!(n.peak_gain(), Ok(0));
    assert_eq!(
        n.points(),
        &vec![
            Point { freq: 10, gain: -8_500 },
            Point { freq: 20, gain: 0 },
            Point { freq: 30, gain: -2_500 },
        ]
    );
}

#[test]
fn normalize_errors() {
    let e = Curve::new(vec![]).unwrap();
    assert!(matches!(e.normalize(), Err(CurveError::EmptyCurve)));
    let c = curve(&[(10, i64::MIN), (20, 1)]);
    assert!(matches!(c.normalize(), Err(CurveError::GainOverflow)));
}

#[test]
fn difference_subtracts_interpolated_gain() {
    let t = curve(&[(100, -1_000), (200, -2_000)]);
    let m = curve(&[(100, -4_000), (300, -8_000)]);
    let d = t.difference(&m).unwrap();
    assert_eq!(d.points(), &vec![Point { freq: 100, gain: 3_000 }, Point { freq: 200, gain: 4_000 }]);
}

#[test]
fn difference_errors() {
    let t = curve(&[(100, i64::MAX)]);
    let m = curve(&[(100, -1)]);
    assert!(matches!(t.difference(&m), Err(CurveError::GainOverflow)));
    let e = Curve::new(vec![]).unwrap();
    assert!(matches!(t.difference(&e), Err(CurveError::EmptyCurve)));
}

#[test]
fn eq_text_has_three_decimals() {
    let c = curve(&[(50_000, 0), (1_234_567, -15_000), (14_000_000, -500), (14_000_001, 7)]);
    assert_eq!(
        c.to_eq_text(),
        "50.000\t0.000\n1234.567\t-15.000\n14000.000\t-0.500\n14000.001\t0.007\n"
    );
    assert_eq!(Curve::new(vec![]).unwrap().to_eq_text(), "");
}
