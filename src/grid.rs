use vstd::prelude::*;

use crate::curve::{Curve, Point, interp, lemma_interp_bounded, valid_points};

verus! {

/// Lowest frequency of the analysis grid, in millihertz (50 Hz).
pub const BOTTOM_FREQ: u32 = 50_000;

/// Highest frequency of the analysis grid, in millihertz (14 kHz).
pub const TOP_FREQ: u32 = 14_000_000;

/// Euler's number as the fraction `E_NUM / E_DEN`.
pub const E_NUM: u128 = 2_718_281_828_459_045;

/// Denominator of the fraction for Euler's number.
pub const E_DEN: u128 = 1_000_000_000_000_000;

/// A density of 400 per decibel of loudness, the loudness given in millidecibels.
pub const DENSITY_SCALE: u128 = 400_000;

/// A rough equal-loudness contour: frequency in millihertz, loudness in
/// millidecibels.
pub open spec fn loudness_points() -> Seq<Point> {
    seq![
        Point { freq: 20_000, gain: 109_000 },
        Point { freq: 80_000, gain: 82_000 },
        Point { freq: 400_000, gain: 62_000 },
        Point { freq: 1_000_000, gain: 60_000 },
        Point { freq: 1_500_000, gain: 64_000 },
        Point { freq: 2_500_000, gain: 57_000 },
        Point { freq: 4_000_000, gain: 57_000 },
        Point { freq: 8_500_000, gain: 73_000 },
        Point { freq: 15_000_000, gain: 72_000 },
        Point { freq: 19_000_000, gain: 68_000 },
        Point { freq: 30_000_000, gain: 130_000 },
    ]
}

/// The grid step after frequency `f`. With `density(f) = 400 / loudness(f)`
/// (loudness in decibels) the step is `f / density(f) * 2 / e`, rounded down.
pub open spec fn step(f: int) -> int {
    (f * interp(loudness_points(), f) * 2 * E_DEN) / (DENSITY_SCALE * E_NUM)
}

/// The grid frequency that follows `f`.
pub open spec fn advance(f: int) -> int {
    f + step(f)
}

proof fn lemma_adjacent_ascending(s: Seq<Point>, n: int)
    requires
        0 <= n <= s.len(),
        s.len() > 0 ==> s[0].freq > 0,
        forall|i: int| 0 <= i < s.len() - 1 ==> #[trigger] s[i].freq < s[i + 1].freq,
    ensures
        valid_points(s.subrange(0, n)),
    decreases n,
{
    if n > 0 {
        lemma_adjacent_ascending(s, n - 1);
        let p = s.subrange(0, n - 1);
        let q = s.subrange(0, n);
        assert forall|a: int, b: int| 0 <= a < b < q.len() implies q[a].freq < q[b].freq by {
            if b < n - 1 {
                assert(p[a].freq < p[b].freq);
            } else if a < n - 2 {
                assert(p[a].freq < p[n - 2].freq);
                assert(s[n - 2].freq < s[n - 1].freq);
            } else {
                assert(s[n - 2].freq < s[n - 1].freq);
            }
        }
        assert forall|a: int| 0 <= a < q.len() implies q[a].freq > 0 by {
            if a > 0 {
                assert(q[0].freq < q[a].freq);
            }
        }
    }
}

proof fn lemma_loudness_valid()
    ensures
        valid_points(loudness_points()),
        loudness_points().len() == 11,
        forall|i: int|
            0 <= i < 11 ==> 57_000 <= #[trigger] loudness_points()[i].gain <= 130_000,
{
    let s = loudness_points();
    assert forall|i: int| 0 <= i < s.len() - 1 implies #[trigger] s[i].freq < s[i + 1].freq by {
    }
    lemma_adjacent_ascending(s, s.len() as int);
    assert(s.subrange(0, s.len() as int) =~= s);
}

/// The equal-loudness contour that sets the grid's density.
pub fn equal_loudness() -> (r: Curve)
    ensures
        r.wf(),
        r@ == loudness_points(),
{
    let points = vec![
        Point { freq: 20_000, gain: 109_000 },
        Point { freq: 80_000, gain: 82_000 },
        Point { freq: 400_000, gain: 62_000 },
        Point { freq: 1_000_000, gain: 60_000 },
        Point { freq: 1_500_000, gain: 64_000 },
        Point { freq: 2_500_000, gain: 57_000 },
        Point { freq: 4_000_000, gain: 57_000 },
        Point { freq: 8_500_000, gain: 73_000 },
        Point { freq: 15_000_000, gain: 72_000 },
        Point { freq: 19_000_000, gain: 68_000 },
        Point { freq: 30_000_000, gain: 130_000 },
    ];
    assert(points@ =~= loudness_points());
    proof {
        lemma_loudness_valid();
    }
    Curve::from_valid(points)
}

proof fn lemma_step_bounds(f: int)
    requires
        BOTTOM_FREQ <= f < TOP_FREQ,
    ensures
        57_000 <= interp(loudness_points(), f) <= 130_000,
        1 <= step(f) <= 10_000_000,
{
    lemma_loudness_valid();
    let s = loudness_points();
    lemma_interp_bounded(s, f, 57_000, 130_000);
    let l = interp(s, f);
    assert(2_850_000_000 <= f * l <= 1_820_000_000_000) by (nonlinear_arith)
        requires
            50_000 <= f < 14_000_000,
            57_000 <= l <= 130_000,
    ;
    let num = f * l * 2 * E_DEN;
    let den = DENSITY_SCALE * E_NUM;
    assert(num == (f * l) * 2 * E_DEN);
    assert(den <= num <= den * 10_000_000);
    assert(1 <= num / den <= 10_000_000) by (nonlinear_arith)
        requires
            den > 0,
            den <= num <= den * 10_000_000,
    ;
}

/// The analysis grid: it starts at `BOTTOM_FREQ`, each next frequency is
/// `advance` of the one before while that one is below `TOP_FREQ`, and
/// `TOP_FREQ` closes it.
pub open spec fn is_frequency_grid(r: Seq<u32>) -> bool {
    &&& r.len() >= 2
    &&& r[0] == BOTTOM_FREQ
    &&& r.last() == TOP_FREQ
    &&& r[r.len() - 2] < TOP_FREQ
    &&& advance(r[r.len() - 2] as int) >= TOP_FREQ
    &&& forall|i: int| 0 <= i < r.len() - 2 ==> #[trigger] r[i + 1] == advance(r[i] as int)
}

/// The analysis grid: from `BOTTOM_FREQ`, each frequency advanced by `step`
/// while it stays below `TOP_FREQ`, then `TOP_FREQ` itself as the last point.
/// Finer where the ear is more sensitive, coarser elsewhere.
pub fn frequency_grid() -> (r: Vec<u32>)
    ensures
        is_frequency_grid(r@),
        forall|i: int| 0 <= i < r@.len() - 1 ==> #[trigger] r@[i] < r@[i + 1],
        forall|i: int, j: int| 0 <= i < j < r@.len() ==> r@[i] < r@[j],
{
    let loudness = equal_loudness();
    proof {
        lemma_loudness_valid();
    }
    let mut out: Vec<u32> = Vec::new();
    let mut freq: u32 = BOTTOM_FREQ;
    while freq < TOP_FREQ
        invariant
            loudness.wf(),
            loudness@ == loudness_points(),
            BOTTOM_FREQ <= freq < 30_000_000,
            out@.len() == 0 ==> freq == BOTTOM_FREQ,
            out@.len() > 0 ==> out@[0] == BOTTOM_FREQ && out@.last() < TOP_FREQ && freq
                == advance(out@.last() as int),
            forall|i: int| 0 <= i < out@.len() - 1 ==> #[trigger] out@[i + 1] == advance(
                out@[i] as int,
            ),
            forall|i: int, j: int| 0 <= i < j < out@.len() ==> out@[i] < out@[j],
            forall|i: int| 0 <= i < out@.len() ==> #[trigger] out@[i] < freq,
        decreases 30_000_000 - freq,
    {
        proof {
            lemma_step_bounds(freq as int);
        }
        let level = match loudness.value_at(freq) {
            Ok(v) => v,
            Err(_) => {
                proof {
                    assert(false);
                }
                0
            },
        };
        let fl = freq as u128 * level as u128;
        assert(fl <= 1_820_000_000_000) by (nonlinear_arith)
            requires
                fl == freq * level,
                freq < 14_000_000,
                0 <= level <= 130_000,
        ;
        let inc = (fl * 2 * E_DEN) / (DENSITY_SCALE * E_NUM);
        assert(inc == step(freq as int));
        out.push(freq);
        freq = freq + inc as u32;
    }
    proof {
        assert(out@.len() > 0);
    }
    let ghost before = out@;
    out.push(TOP_FREQ);
    proof {
        assert(out@.len() - 2 == before.len() - 1);
        assert forall|i: int| 0 <= i < out@.len() - 2 implies #[trigger] out@[i + 1] == advance(
            out@[i] as int,
        ) by {
            assert(out@[i] == before[i]);
            assert(out@[i + 1] == before[i + 1]);
        }
        assert forall|i: int, j: int| 0 <= i < j < out@.len() implies out@[i] < out@[j] by {
            if j < before.len() {
                assert(before[i] < before[j]);
            } else {
                assert(before[i] < freq);
            }
        }
        assert forall|i: int| 0 <= i < out@.len() - 1 implies #[trigger] out@[i] < out@[i + 1] by {
            assert(out@[i] < out@[i + 1]);
        }
    }
    out
}

} // verus!
