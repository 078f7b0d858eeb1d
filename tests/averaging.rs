use autoeq::combine::{combine, share_grid};
use autoeq::curve::{Curve, CurveError, Point};
use autoeq::grid::{frequency_grid, BOTTOM_FREQ, TOP_FREQ};
use autoeq::pipeline::correction;

/// Mean in the linear power domain, back in millidecibels.
fn power_mean(gains: Vec<i64>) -> i64 {
    let n = gains.len() as f64;
    let sum: f64 = gains.iter().map(|&g| 10f64.powf(g as f64 / 10_000.0)).sum();
    ((sum / n).log10() * 10_000.0).round() as i64
}

fn curve(points: &[(u32, i64)]) -> Curve {
    Curve::new(points.iter().map(|&(freq, gain)| Point { freq, gain }).collect()).unwrap()
}

#[test]
fn combine_identical_curves_keeps_gain() {
    let a = curve(&[(1_000_000, -6_000)]);
    let b = curve(&[(1_000_000, -6_000)]);
    let c = combine(&vec![a, b], &power_mean).unwrap();
    assert_eq!(c.points(), &vec![Point { freq: 1_000_000, gain: -6_000 }]);
}

#[test]
fn combine_averages_in_power_domain() {
    let a = curve(&[(1_000_000, -3_000)]);
    let b = curve(&[(1_000_000, -9_000)]);
    let c = combine(&vec![a, b], &power_mean).unwrap();
    let g = c.points()[0].gain;
    assert_eq!(g, -5_037);
    assert!(g > -9_000 && g < -3_000);
    assert!((g - -3_000).abs() < (g - -9_000).abs());
}

#[test]
fn combine_single_curve_is_identity() {
    let a = curve(&[(100_000, -3_123), (200_000, -7_777), (300_000, 0)]);
    let c = combine(&vec![curve(&[(100_000, -3_123), (200_000, -7_777), (300_000, 0)])], &power_mean)
        .unwrap();
    assert_eq!(c.points(), a.points());
}

#[test]
fn combine_of_nothing_fails() {
    assert!(matches!(combine(&vec![], &power_mean), Err(CurveError::EmptyInput)));
}

#[test]
fn share_grid_compares_frequencies() {
    let a = curve(&[(100, -1), (200, -2)]);
    let b = curve(&[(100, -5), (200, -6)]);
    let c = curve(&[(100, -5), (201, -6)]);
    let d = curve(&[(100, -5)]);
    assert!(share_grid(&vec![a, b]));
    assert!(!share_grid(&vec![curve(&[(100, -1), (200, -2)]), c]));
    assert!(!share_grid(&vec![curve(&[(100, -1), (200, -2)]), d]));
}

#[test]
fn grid_spans_bottom_to_top_ascending() {
    let g = frequency_grid();
    assert_eq!(g[0], BOTTOM_FREQ);
    assert_eq!(g[0], 50_000);
    assert_eq!(*g.last().unwrap(), TOP_FREQ);
    assert_eq!(*g.last().unwrap(), 14_000_000);
    assert!(g.windows(2).all(|w| w[0] < w[1]));
    assert_eq!(g.len(), 50);
}

#[test]
fn grid_first_step_follows_density() {
    // At 50 Hz the contour gives 109 + (82 - 109) * 30 / 60 = 95.5 dB, so the
    // step is 50 * 95.5 / 400 * 2 / e = 8.7831... Hz.
    let g = frequency_grid();
    assert_eq!(g[1], 58_783);
    assert_eq!(g[2], 68_681);
    assert_eq!(g[48], 13_589_594);
}

#[test]
fn resample_keeps_grid_frequencies() {
    let c = curve(&[(50_000, -10_000), (1_000_000, -20_000), (20_000_000, -5_000)]);
    let grid = vec![100_000u32, 150_000, 900_000, 5_000_000];
    let r = c.resample(&grid, &power_mean).unwrap();
    let freqs: Vec<u32> = r.points().iter().map(|p| p.freq).collect();
    assert_eq!(freqs, grid);
}

#[test]
fn resample_of_flat_curve_is_flat() {
    let c = curve(&[(10_000, -4_000), (30_000_000, -4_000)]);
    let grid = frequency_grid();
    let r = c.resample(&grid, &power_mean).unwrap();
    assert_eq!(r.len(), grid.len());
    assert!(r.points().iter().all(|p| p.gain == -4_000));
}

#[test]
fn resample_edge_window_is_one_sided() {
    // The last grid point's window runs from the midpoint to the point itself.
    let c = curve(&[(100_000, 0), (200_000, -10_000)]);
    let grid = vec![100_000u32, 200_000];
    let r = c.resample(&grid, &|v: Vec<i64>| v[0]).unwrap();
    assert_eq!(r.points()[0].gain, 0);
    assert_eq!(r.points()[1].gain, -5_000);
}

#[test]
fn resample_errors() {
    let c = curve(&[(100, 0)]);
    assert!(matches!(c.resample(&vec![200, 100], &power_mean), Err(CurveError::NotAscending)));
    let e = Curve::new(vec![]).unwrap();
    assert!(matches!(e.resample(&vec![100], &power_mean), Err(CurveError::EmptyCurve)));
}

#[test]
fn correction_is_normalized_on_grid() {
    let m1 = curve(&[(20_000, -30_000), (1_000_000, -20_000), (20_000_000, -40_000)]);
    let m2 = curve(&[(20_000, -32_000), (1_000_000, -21_000), (20_000_000, -38_000)]);
    let target = curve(&[(20_000, -25_000), (20_000_000, -25_000)]);
    let c = correction(&vec![m1, m2], &target, &power_mean).unwrap();
    let grid = frequency_grid();
    let freqs: Vec<u32> = c.points().iter().map(|p| p.freq).collect();
    assert_eq!(freqs, grid);
    assert_eq!(c.peak_gain(), Ok(0));
}

#[test]
fn correction_errors() {
    let t = curve(&[(100, 0)]);
    assert!(matches!(correction(&vec![], &t, &power_mean), Err(CurveError::EmptyInput)));
    let e = Curve::new(vec![]).unwrap();
    assert!(matches!(correction(&vec![e], &t, &power_mean), Err(CurveError::EmptyCurve)));
    let e = Curve::new(vec![]).unwrap();
    assert!(matches!(correction(&vec![curve(&[(100, 0)])], &e, &power_mean), Err(CurveError::EmptyCurve)));
}
