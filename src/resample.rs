use vstd::prelude::*;

use crate::curve::{
    Curve,
    CurveError,
    Point,
    interp,
    lemma_interp_bounded,
    lemma_scaled_fraction,
    valid_points,
};

verus! {

/// Number of samples taken across the window of each target frequency.
pub const WINDOW_SAMPLES: usize = 20;

/// Positive frequencies, strictly ascending.
pub open spec fn valid_grid(g: Seq<u32>) -> bool {
    &&& forall|i: int| 0 <= i < g.len() ==> g[i] > 0
    &&& forall|i: int, j: int| 0 <= i < j < g.len() ==> g[i] < g[j]
}

/// Lower edge of the window of target `i`: halfway to the previous target,
/// or the target itself for the first one.
pub open spec fn window_start(g: Seq<u32>, i: int) -> int {
    if i > 0 {
        (g[i] + g[i - 1]) / 2
    } else {
        g[i] as int
    }
}

/// Upper edge of the window of target `i`: halfway to the next target, or
/// the target itself for the last one.
pub open spec fn window_end(g: Seq<u32>, i: int) -> int {
    if i + 1 < g.len() {
        (g[i] + g[i + 1]) / 2
    } else {
        g[i] as int
    }
}

/// The `k`-th of the equally spaced sample frequencies across the window of
/// target `i`, rounded down.
pub open spec fn window_position(g: Seq<u32>, i: int, k: int) -> int {
    let x1 = window_start(g, i);
    let x2 = window_end(g, i);
    x1 + ((x2 - x1) * k) / (WINDOW_SAMPLES as int)
}

/// The gains of curve `s` at the sample frequencies of the window of target `i`.
pub open spec fn window_gains(s: Seq<Point>, g: Seq<u32>, i: int) -> Seq<i64> {
    Seq::new(WINDOW_SAMPLES as nat, |k: int| interp(s, window_position(g, i, k)) as i64)
}

/// `r` has the frequencies of `g`, and at each a gain that `average` may
/// return for the window gains of `s` there.
pub open spec fn is_resampling<F: Fn(Vec<i64>) -> i64>(
    s: Seq<Point>,
    g: Seq<u32>,
    average: F,
    r: Seq<Point>,
) -> bool {
    &&& r.len() == g.len()
    &&& forall|i: int|
        0 <= i < g.len() ==> (#[trigger] r[i]).freq == g[i] && exists|v: Vec<i64>|
            v@ == window_gains(s, g, i) && average.ensures((v,), r[i].gain)
}

/// Checks that grid frequencies are positive and strictly ascending.
pub fn grid_is_valid(g: &Vec<u32>) -> (r: bool)
    ensures
        r == valid_grid(g@),
{
    let n = g.len();
    let mut i: usize = 0;
    while i < n
        invariant
            i <= n,
            n == g@.len(),
            valid_grid(g@.subrange(0, i as int)),
        decreases n - i,
    {
        if g[i] == 0 {
            assert(g@[i as int] == 0);
            return false;
        }
        if i > 0 && g[i - 1] >= g[i] {
            assert(g@[i - 1] >= g@[i as int]);
            return false;
        }
        proof {
            let p = g@.subrange(0, i as int);
            let q = g@.subrange(0, i + 1);
            assert forall|a: int, b: int| 0 <= a < b < q.len() implies q[a] < q[b] by {
                if b < i {
                    assert(p[a] < p[b]);
                } else if a < i - 1 {
                    assert(p[a] < p[i - 1]);
                }
            }
        }
        i = i + 1;
    }
    assert(g@.subrange(0, n as int) =~= g@);
    true
}

/// The gains of `curve` across the window of target `i` of `grid`.
fn window_samples(curve: &Curve, grid: &Vec<u32>, i: usize) -> (r: Vec<i64>)
    requires
        curve.wf(),
        curve@.len() > 0,
        valid_grid(grid@),
        i < grid@.len(),
    ensures
        r@ == window_gains(curve@, grid@, i as int),
{
    let g = grid;
    let p = g[i];
    let left = if i > 0 {
        g[i - 1]
    } else {
        p
    };
    let right = if i < g.len() - 1 {
        g[i + 1]
    } else {
        p
    };
    if i > 0 {
        assert(g@[i - 1] < g@[i as int]);
    }
    if i + 1 < g.len() {
        assert(g@[i as int] < g@[i + 1]);
    }
    let x1 = ((p as u64 + left as u64) / 2) as u32;
    let x2 = ((p as u64 + right as u64) / 2) as u32;
    assert(x1 == window_start(g@, i as int));
    assert(x2 == window_end(g@, i as int));
    let mut out: Vec<i64> = Vec::with_capacity(WINDOW_SAMPLES);
    let mut k: usize = 0;
    while k < WINDOW_SAMPLES
        invariant
            k <= WINDOW_SAMPLES,
            curve.wf(),
            curve@.len() > 0,
            x1 == window_start(g@, i as int),
            x2 == window_end(g@, i as int),
            x1 <= x2,
            out@.len() == k,
            forall|j: int| 0 <= j < k ==> #[trigger] out@[j] == window_gains(curve@, g@, i as int)[j],
        decreases WINDOW_SAMPLES - k,
    {
        let d = (x2 - x1) as u64;
        proof {
            lemma_scaled_fraction(k as int, WINDOW_SAMPLES as int, d as int);
        }
        assert(d * k <= 0xffff_ffffu64 * 20) by (nonlinear_arith)
            requires
                d <= 0xffff_ffff,
                k <= 20,
        ;
        let x = x1 + (d * k as u64 / WINDOW_SAMPLES as u64) as u32;
        assert(x == window_position(g@, i as int, k as int));
        let v = match curve.value_at(x) {
            Ok(v) => v,
            Err(_) => {
                proof {
                    assert(false);
                }
                0
            },
        };
        out.push(v);
        k = k + 1;
    }
    assert(out@ =~= window_gains(curve@, g@, i as int));
    out
}

impl Curve {
    /// Re-expresses the curve on `grid`: one point per grid frequency, in
    /// order, whose gain is `average` of the curve's gains at
    /// `WINDOW_SAMPLES` equally spaced frequencies across the window of that
    /// grid frequency. The window spans from halfway to the previous grid
    /// frequency up to halfway to the next one; at either end of the grid it
    /// is one-sided. `average` is expected to combine the gains in the
    /// linear power domain.
    pub fn resample<F: Fn(Vec<i64>) -> i64>(&self, grid: &Vec<u32>, average: &F) -> (r: Result<
        Curve,
        CurveError,
    >)
        requires
            self.wf(),
            forall|v: Vec<i64>| average.requires((v,)),
        ensures
            self@.len() == 0 <==> r == Err::<Curve, CurveError>(CurveError::EmptyCurve),
            (self@.len() > 0 && !valid_grid(grid@)) <==> r == Err::<Curve, CurveError>(
                CurveError::NotAscending,
            ),
            r is Ok <==> (self@.len() > 0 && valid_grid(grid@)),
            r matches Ok(c) ==> c.wf() && is_resampling(self@, grid@, average, c@),
    {
        if self.len() == 0 {
            return Err(CurveError::EmptyCurve);
        }
        if !grid_is_valid(grid) {
            return Err(CurveError::NotAscending);
        }
        let n = grid.len();
        let mut out: Vec<Point> = Vec::with_capacity(n);
        let mut i: usize = 0;
        while i < n
            invariant
                i <= n,
                n == grid@.len(),
                self.wf(),
                self@.len() > 0,
                valid_grid(grid@),
                forall|v: Vec<i64>| average.requires((v,)),
                out@.len() == i,
                forall|j: int|
                    0 <= j < i ==> (#[trigger] out@[j]).freq == grid@[j] && exists|v: Vec<i64>|
                        v@ == window_gains(self@, grid@, j) && average.ensures((v,), out@[j].gain),
            decreases n - i,
        {
            let samples = window_samples(self, grid, i);
            let ghost sv = samples;
            let gain = average(samples);
            assert(sv@ == window_gains(self@, grid@, i as int) && average.ensures((sv,), gain));
            out.push(Point { freq: grid[i], gain });
            i = i + 1;
        }
        proof {
            assert forall|a: int, b: int| 0 <= a < b < out@.len() implies out@[a].freq
                < out@[b].freq by {
                assert(grid@[a] < grid@[b]);
            }
            assert forall|a: int| 0 <= a < out@.len() implies out@[a].freq > 0 by {
                assert(grid@[a] > 0);
            }
            assert(valid_points(out@));
        }
        let c = Curve::from_valid(out);
        assert(c@ == out@);
        assert forall|i: int| 0 <= i < grid@.len() implies (#[trigger] c@[i]).freq == grid@[i]
            && exists|v: Vec<i64>|
            v@ == window_gains(self@, grid@, i) && average.ensures((v,), c@[i].gain) by {
            assert(out@[i].freq == grid@[i]);
        }
        Ok(c)
    }
}

} // verus!
