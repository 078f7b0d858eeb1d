use vstd::prelude::*;

verus! {

/// One sample of a curve: a frequency in millihertz and a gain in millidecibels.
#[derive(Clone, Copy, Debug, PartialEq, Eq, Structural)]
pub struct Point {
    pub freq: u32,
    pub gain: i64,
}

/// Errors of curve construction and curve arithmetic.
#[derive(Clone, Copy, Debug, PartialEq, Eq, Structural)]
pub enum CurveError {
    /// The frequencies are not strictly ascending, or one of them is zero.
    NotAscending,
    /// A query needs at least one point and the curve has none.
    EmptyCurve,
    /// A combination was asked of zero curves.
    EmptyInput,
    /// A computed gain does not fit in 64 bits.
    GainOverflow,
}

/// Positive frequencies, strictly ascending.
pub open spec fn valid_points(s: Seq<Point>) -> bool {
    &&& forall|i: int| 0 <= i < s.len() ==> s[i].freq > 0
    &&& forall|i: int, j: int| 0 <= i < j < s.len() ==> s[i].freq < s[j].freq
}

/// Integer division rounding toward zero, as machine division does.
pub open spec fn trunc_div(n: int, d: int) -> int {
    if n >= 0 {
        n / d
    } else {
        -((-n) / d)
    }
}

/// The straight line through `a` and `b`, evaluated at `x`.
pub open spec fn lerp(a: Point, b: Point, x: int) -> int {
    a.gain + trunc_div((x - a.freq) * (b.gain - a.gain), b.freq - a.freq)
}

/// Interpolation from segment `j` on: the first segment whose right end is
/// not below `x`, or the last gain when there is none.
pub open spec fn scan(s: Seq<Point>, j: int, x: int) -> int
    decreases s.len() - j,
{
    if j + 1 >= s.len() {
        s.last().gain as int
    } else if x <= s[j + 1].freq {
        lerp(s[j], s[j + 1], x)
    } else {
        scan(s, j + 1, x)
    }
}

/// The gain of a non-empty curve at frequency `x`: piecewise linear between
/// samples, the first gain below the first sample, the last gain above the last.
pub open spec fn interp(s: Seq<Point>, x: int) -> int {
    if x < s[0].freq {
        s[0].gain as int
    } else {
        scan(s, 0, x)
    }
}

/// `m` is the largest gain of `s`, and some sample has it.
pub open spec fn is_peak(s: Seq<Point>, m: int) -> bool {
    &&& exists|i: int| 0 <= i < s.len() && s[i].gain == m
    &&& forall|i: int| 0 <= i < s.len() ==> s[i].gain <= m
}

/// `r` holds, for each sample of `s`, its frequency and its gain less the
/// gain of `o` at that frequency.
pub open spec fn is_difference(s: Seq<Point>, o: Seq<Point>, r: Seq<Point>) -> bool {
    &&& r.len() == s.len()
    &&& forall|i: int|
        0 <= i < s.len() ==> (#[trigger] r[i]).freq == s[i].freq && r[i].gain == s[i].gain
            - interp(o, s[i].freq as int)
}

/// `r` is `s` with its peak gain subtracted from every gain.
pub open spec fn is_normalization(s: Seq<Point>, r: Seq<Point>) -> bool {
    &&& r.len() == s.len()
    &&& exists|m: int|
        is_peak(s, m) && forall|i: int|
            0 <= i < s.len() ==> (#[trigger] r[i]).freq == s[i].freq && r[i].gain == s[i].gain - m
}

/// A value that a 64-bit signed integer can hold.
pub open spec fn fits_i64(v: int) -> bool {
    i64::MIN <= v <= i64::MAX
}

/// A curve has only one peak gain.
pub proof fn lemma_peak_unique(s: Seq<Point>, m: int)
    requires
        is_peak(s, m),
    ensures
        forall|m2: int| is_peak(s, m2) ==> m2 == m,
{
    assert forall|m2: int| is_peak(s, m2) implies m2 == m by {
        let a = choose|k: int| 0 <= k < s.len() && s[k].gain == m;
        let b = choose|k: int| 0 <= k < s.len() && s[k].gain == m2;
        assert(s[a].gain <= m2);
        assert(s[b].gain <= m);
    }
}

pub(crate) proof fn lemma_scaled_fraction(t: int, d: int, m: int)
    requires
        0 <= t <= d,
        0 < d,
        0 <= m,
    ensures
        0 <= (t * m) / d <= m,
{
    assert(0 <= t * m) by (nonlinear_arith)
        requires
            0 <= t,
            0 <= m,
    ;
    assert(t * m <= d * m) by (nonlinear_arith)
        requires
            t <= d,
            0 <= m,
    ;
    assert((d * m) / d == m) by (nonlinear_arith)
        requires
            0 < d,
    ;
    assert((t * m) / d <= (d * m) / d) by (nonlinear_arith)
        requires
            t * m <= d * m,
            0 < d,
    ;
}

/// A line between two samples stays between their gains.
pub proof fn lemma_lerp_between(a: Point, b: Point, x: int)
    requires
        a.freq < b.freq,
        a.freq <= x <= b.freq,
    ensures
        a.gain <= b.gain ==> a.gain <= lerp(a, b, x) <= b.gain,
        b.gain <= a.gain ==> b.gain <= lerp(a, b, x) <= a.gain,
        x == a.freq ==> lerp(a, b, x) == a.gain,
        x == b.freq ==> lerp(a, b, x) == b.gain,
{
    let t = x - a.freq;
    let d = b.freq - a.freq;
    if a.gain <= b.gain {
        let m = b.gain - a.gain;
        lemma_scaled_fraction(t, d, m);
        assert(0 <= t * m) by (nonlinear_arith)
            requires
                0 <= t,
                0 <= m,
        ;
    } else {
        let m = a.gain - b.gain;
        lemma_scaled_fraction(t, d, m);
        let n = b.gain - a.gain;
        assert(t * n == -(t * m)) by (nonlinear_arith)
            requires
                n == -m,
        ;
        assert(0 <= t * m) by (nonlinear_arith)
            requires
                0 <= t,
                0 <= m,
        ;
        if t * m == 0 {
            assert(t * (b.gain - a.gain) == 0);
        }
    }
    if x == a.freq {
        let n = b.gain - a.gain;
        assert(t * n == 0) by (nonlinear_arith)
            requires
                t == 0,
        ;
    }
    if x == b.freq {
        let n = b.gain - a.gain;
        assert(t == d);
        if n >= 0 {
            assert((d * n) / d == n) by (nonlinear_arith)
                requires
                    0 < d,
            ;
        } else {
            assert(d * n == -(d * (-n))) by (nonlinear_arith);
            assert(d * (-n) >= 0) by (nonlinear_arith)
                requires
                    0 < d,
                    n < 0,
            ;
            assert((d * (-n)) / d == -n) by (nonlinear_arith)
                requires
                    0 < d,
            ;
        }
    }
}

proof fn lemma_scan_at_sample(s: Seq<Point>, j: int, k: int)
    requires
        valid_points(s),
        0 <= j < k < s.len(),
    ensures
        scan(s, j, s[k].freq as int) == s[k].gain,
    decreases k - j,
{
    let x = s[k].freq as int;
    if x <= s[j + 1].freq {
        if j + 1 < k {
            assert(s[j + 1].freq < s[k].freq);
        }
        lemma_lerp_between(s[j], s[j + 1], x);
    } else {
        lemma_scan_at_sample(s, j + 1, k);
    }
}

proof fn lemma_scan_above(s: Seq<Point>, j: int, x: int)
    requires
        valid_points(s),
        0 <= j < s.len(),
        x > s.last().freq,
    ensures
        scan(s, j, x) == s.last().gain,
    decreases s.len() - j,
{
    if j + 1 < s.len() {
        assert(s[j + 1].freq <= s.last().freq);
        lemma_scan_above(s, j + 1, x);
    }
}

proof fn lemma_scan_bounded(s: Seq<Point>, j: int, x: int, lo: int, hi: int)
    requires
        valid_points(s),
        0 <= j < s.len(),
        x >= s[j].freq,
        forall|i: int| 0 <= i < s.len() ==> lo <= #[trigger] s[i].gain <= hi,
    ensures
        lo <= scan(s, j, x) <= hi,
    decreases s.len() - j,
{
    if j + 1 < s.len() {
        if x <= s[j + 1].freq {
            lemma_lerp_between(s[j], s[j + 1], x);
            assert(lo <= s[j].gain <= hi);
            assert(lo <= s[j + 1].gain <= hi);
        } else {
            lemma_scan_bounded(s, j + 1, x, lo, hi);
        }
    } else {
        assert(lo <= s[s.len() - 1].gain <= hi);
    }
}

/// Interpolation never leaves the range of the sampled gains.
pub proof fn lemma_interp_bounded(s: Seq<Point>, x: int, lo: int, hi: int)
    requires
        valid_points(s),
        s.len() > 0,
        forall|i: int| 0 <= i < s.len() ==> lo <= #[trigger] s[i].gain <= hi,
    ensures
        lo <= interp(s, x) <= hi,
{
    assert(lo <= s[0].gain <= hi);
    if x >= s[0].freq {
        lemma_scan_bounded(s, 0, x, lo, hi);
    }
}

/// Interpolation is exact at every sample: the gain at a sample's frequency
/// is that sample's gain.
pub proof fn lemma_exact_at_samples(c: &Curve, k: int)
    requires
        c.wf(),
        0 <= k < c@.len(),
    ensures
        interp(c@, c@[k].freq as int) == c@[k].gain,
{
    let s = c@;
    if k == 0 {
        if s.len() > 1 {
            lemma_lerp_between(s[0], s[1], s[0].freq as int);
        }
    } else {
        assert(s[0].freq < s[k].freq);
        lemma_scan_at_sample(s, 0, k);
    }
}

/// Below the first sample the gain is the first sample's gain, and above the
/// last sample it is the last sample's gain.
pub proof fn lemma_clamped_outside(c: &Curve, x: int)
    requires
        c.wf(),
        c@.len() > 0,
    ensures
        x < c@[0].freq ==> interp(c@, x) == c@[0].gain,
        x > c@.last().freq ==> interp(c@, x) == c@.last().gain,
{
    let s = c@;
    if x > s.last().freq {
        assert(s[0].freq <= s.last().freq);
        lemma_scan_above(s, 0, x);
    }
}

/// The gain at `x` on the line through `a` and `b`, rounded toward zero.
fn lerp_exec(a: Point, b: Point, x: u32) -> (r: i64)
    requires
        a.freq < b.freq,
        a.freq <= x <= b.freq,
    ensures
        r == lerp(a, b, x as int),
{
    proof {
        lemma_lerp_between(a, b, x as int);
    }
    let t = (x - a.freq) as u128;
    let d = (b.freq - a.freq) as u128;
    if a.gain <= b.gain {
        let m = (b.gain as i128 - a.gain as i128) as u128;
        assert(t * m <= 0xffff_ffffu128 * 0xffff_ffff_ffff_ffffu128) by (nonlinear_arith)
            requires
                t <= 0xffff_ffff,
                m <= 0xffff_ffff_ffff_ffff,
        ;
        let q = (t * m) / d;
        proof {
            lemma_scaled_fraction(t as int, d as int, m as int);
        }
        (a.gain as i128 + q as i128) as i64
    } else {
        let m = (a.gain as i128 - b.gain as i128) as u128;
        assert(t * m <= 0xffff_ffffu128 * 0xffff_ffff_ffff_ffffu128) by (nonlinear_arith)
            requires
                t <= 0xffff_ffff,
                m <= 0xffff_ffff_ffff_ffff,
        ;
        let q = (t * m) / d;
        proof {
            lemma_scaled_fraction(t as int, d as int, m as int);
            let n = b.gain - a.gain;
            assert(t * n == -(t * m)) by (nonlinear_arith)
                requires
                    n == -(m as int),
            ;
            if t * m == 0 {
                assert(t * n == 0);
            }
        }
        (a.gain as i128 - q as i128) as i64
    }
}

/// A curve: samples strictly ascending in frequency, never changed once built.
pub struct Curve {
    points: Vec<Point>,
}

impl View for Curve {
    type V = Seq<Point>;

    closed spec fn view(&self) -> Seq<Point> {
        self.points@
    }
}

/// Checks that the frequencies are positive and strictly ascending.
pub fn points_are_valid(points: &Vec<Point>) -> (r: bool)
    ensures
        r == valid_points(points@),
{
    let n = points.len();
    let mut i: usize = 0;
    while i < n
        invariant
            i <= n,
            n == points@.len(),
            valid_points(points@.subrange(0, i as int)),
        decreases n - i,
    {
        if points[i].freq == 0 {
            assert(!valid_points(points@)) by {
                assert(points@[i as int].freq == 0);
            }
            return false;
        }
        if i > 0 && points[i - 1].freq >= points[i].freq {
            assert(!valid_points(points@)) by {
                assert(points@[i - 1].freq >= points@[i as int].freq);
            }
            return false;
        }
        proof {
            let s = points@;
            let p = s.subrange(0, i as int);
            let q = s.subrange(0, i + 1);
            assert forall|a: int, b: int| 0 <= a < b < q.len() implies q[a].freq < q[b].freq by {
                if b < i {
                    assert(p[a].freq < p[b].freq);
                } else if a < i - 1 {
                    assert(p[a].freq < p[i - 1].freq);
                }
            }
        }
        i = i + 1;
    }
    assert(points@.subrange(0, n as int) =~= points@);
    true
}

impl Curve {
    /// The curve's invariant.
    pub open spec fn wf(&self) -> bool {
        valid_points(self@)
    }

    /// Builds a curve from samples, rejecting frequencies that are zero or
    /// not strictly ascending.
    pub fn new(points: Vec<Point>) -> (r: Result<Curve, CurveError>)
        ensures
            r is Ok <==> valid_points(points@),
            r is Err ==> r == Err::<Curve, CurveError>(CurveError::NotAscending),
            r matches Ok(c) ==> c@ == points@ && c.wf(),
    {
        if points_are_valid(&points) {
            Ok(Curve { points })
        } else {
            Err(CurveError::NotAscending)
        }
    }

    /// Builds a curve from samples already known to be valid.
    pub(crate) fn from_valid(points: Vec<Point>) -> (r: Curve)
        requires
            valid_points(points@),
        ensures
            r.wf(),
            r@ == points@,
    {
        Curve { points }
    }

    /// The samples of the curve.
    pub fn points(&self) -> (r: &Vec<Point>)
        ensures
            r@ == self@,
    {
        &self.points
    }

    /// Number of samples.
    pub fn len(&self) -> (r: usize)
        ensures
            r == self@.len(),
    {
        self.points.len()
    }

    /// The gain at frequency `x`: interpolated between the two samples around
    /// it, clamped to the first or last gain outside the sampled range.
    pub fn value_at(&self, x: u32) -> (r: Result<i64, CurveError>)
        requires
            self.wf(),
        ensures
            self@.len() == 0 <==> r == Err::<i64, CurveError>(CurveError::EmptyCurve),
            self@.len() > 0 ==> r == Ok::<i64, CurveError>(interp(self@, x as int) as i64),
            self@.len() > 0 ==> interp(self@, x as int) == interp(self@, x as int) as i64,
    {
        let n = self.points.len();
        if n == 0 {
            return Err(CurveError::EmptyCurve);
        }
        let s = Ghost(self@);
        if x < self.points[0].freq {
            return Ok(self.points[0].gain);
        }
        let mut j: usize = 0;
        while j + 1 < n
            invariant
                s@ == self@,
                valid_points(s@),
                n == s@.len(),
                j < n,
                x >= s@[j as int].freq,
                interp(s@, x as int) == scan(s@, j as int, x as int),
            decreases n - j,
        {
            if x <= self.points[j + 1].freq {
                let r = lerp_exec(self.points[j], self.points[j + 1], x);
                return Ok(r);
            }
            j = j + 1;
        }
        Ok(self.points[n - 1].gain)
    }

    /// The largest gain of the curve.
    pub fn peak_gain(&self) -> (r: Result<i64, CurveError>)
        ensures
            self@.len() == 0 <==> r == Err::<i64, CurveError>(CurveError::EmptyCurve),
            self@.len() > 0 <==> r is Ok,
            r matches Ok(m) ==> is_peak(self@, m as int),
    {
        let n = self.points.len();
        if n == 0 {
            return Err(CurveError::EmptyCurve);
        }
        let mut m = self.points[0].gain;
        assert(self@.subrange(0, 1)[0].gain == m);
        let mut i: usize = 1;
        while i < n
            invariant
                1 <= i <= n,
                n == self@.len(),
                is_peak(self@.subrange(0, i as int), m as int),
            decreases n - i,
        {
            let g = self.points[i].gain;
            proof {
                let p = self@.subrange(0, i as int);
                let q = self@.subrange(0, i + 1);
                let w = choose|k: int| 0 <= k < p.len() && p[k].gain == m;
                if g > m {
                    assert(q[i as int].gain == g);
                } else {
                    assert(q[w].gain == m);
                }
                assert forall|k: int| 0 <= k < q.len() implies q[k].gain <= (if g > m { g } else { m }) by {
                    if k < i {
                        assert(p[k].gain <= m);
                    }
                }
            }
            if g > m {
                m = g;
            }
            i = i + 1;
        }
        assert(self@.subrange(0, n as int) =~= self@);
        Ok(m)
    }

    /// Applies `f` to every gain; the frequencies stay as they are.
    pub fn transform<F: Fn(i64) -> i64>(&self, f: F) -> (r: Curve)
        requires
            self.wf(),
            forall|g: i64| f.requires((g,)),
        ensures
            r.wf(),
            r@.len() == self@.len(),
            forall|i: int| 0 <= i < self@.len() ==> (#[trigger] r@[i]).freq == self@[i].freq
                && f.ensures((self@[i].gain,), r@[i].gain),
    {
        let n = self.points.len();
        let mut out: Vec<Point> = Vec::with_capacity(n);
        let mut i: usize = 0;
        while i < n
            invariant
                i <= n,
                n == self@.len(),
                forall|g: i64| f.requires((g,)),
                out@.len() == i,
                forall|k: int| 0 <= k < i ==> (#[trigger] out@[k]).freq == self@[k].freq
                    && f.ensures((self@[k].gain,), out@[k].gain),
            decreases n - i,
        {
            let p = self.points[i];
            let g = f(p.gain);
            out.push(Point { freq: p.freq, gain: g });
            i = i + 1;
        }
        proof {
            assert forall|a: int, b: int| 0 <= a < b < out@.len() implies out@[a].freq
                < out@[b].freq by {
                assert(self@[a].freq < self@[b].freq);
            }
            assert forall|a: int| 0 <= a < out@.len() implies out@[a].freq > 0 by {
                assert(self@[a].freq > 0);
            }
        }
        Curve { points: out }
    }

    /// Subtracts the peak gain from every gain, so that the largest gain
    /// becomes exactly zero.
    pub fn normalize(&self) -> (r: Result<Curve, CurveError>)
        requires
            self.wf(),
        ensures
            self@.len() == 0 <==> r == Err::<Curve, CurveError>(CurveError::EmptyCurve),
            r == Err::<Curve, CurveError>(CurveError::GainOverflow) <==> (self@.len() > 0
                && exists|m: int|
                #[trigger] is_peak(self@, m) && exists|i: int|
                    0 <= i < self@.len() && !fits_i64(#[trigger] self@[i].gain - m)),
            r is Err ==> r == Err::<Curve, CurveError>(CurveError::EmptyCurve) || r
                == Err::<Curve, CurveError>(CurveError::GainOverflow),
            r matches Ok(c) ==> c.wf() && is_normalization(self@, c@),
            r matches Ok(c) ==> is_peak(c@, 0),
    {
        let m = match self.peak_gain() {
            Ok(m) => m,
            Err(_) => {
                return Err(CurveError::EmptyCurve);
            },
        };
        let n = self.points.len();
        let mut out: Vec<Point> = Vec::with_capacity(n);
        let mut i: usize = 0;
        while i < n
            invariant
                i <= n,
                n == self@.len(),
                is_peak(self@, m as int),
                out@.len() == i,
                forall|k: int| 0 <= k < i ==> (#[trigger] out@[k]).freq == self@[k].freq
                    && out@[k].gain == self@[k].gain - m,
            decreases n - i,
        {
            let p = self.points[i];
            let g = p.gain as i128 - m as i128;
            if g < i64::MIN as i128 {
                proof {
                    lemma_peak_unique(self@, m as int);
                    assert(!fits_i64(self@[i as int].gain - m));
                }
                return Err(CurveError::GainOverflow);
            }
            assert(self@[i as int].gain <= m);
            out.push(Point { freq: p.freq, gain: g as i64 });
            i = i + 1;
        }
        proof {
            lemma_peak_unique(self@, m as int);
            assert forall|a: int, b: int| 0 <= a < b < out@.len() implies out@[a].freq
                < out@[b].freq by {
                assert(self@[a].freq < self@[b].freq);
            }
            assert forall|a: int| 0 <= a < out@.len() implies out@[a].freq > 0 by {
                assert(self@[a].freq > 0);
            }
            let w = choose|k: int| 0 <= k < self@.len() && self@[k].gain == m;
            assert(out@[w].gain == 0);
            assert forall|m2: int, k: int|
                #![trigger is_peak(self@, m2), self@[k]]
                is_peak(self@, m2) && 0 <= k < self@.len() implies fits_i64(
                self@[k].gain - m2,
            ) by {
                assert(out@[k].gain == self@[k].gain - m);
            }
            assert forall|k: int| 0 <= k < out@.len() implies out@[k].gain <= 0 by {
                assert(self@[k].gain <= m);
            }
        }
        Ok(Curve { points: out })
    }

    /// For each sample of `self`, its gain minus the gain of `other` at the
    /// same frequency.
    pub fn difference(&self, other: &Curve) -> (r: Result<Curve, CurveError>)
        requires
            self.wf(),
            other.wf(),
        ensures
            other@.len() == 0 <==> r == Err::<Curve, CurveError>(CurveError::EmptyCurve),
            r == Err::<Curve, CurveError>(CurveError::GainOverflow) <==> (other@.len() > 0
                && exists|i: int|
                0 <= i < self@.len() && !fits_i64(
                    #[trigger] self@[i].gain - interp(other@, self@[i].freq as int),
                )),
            r is Err ==> r == Err::<Curve, CurveError>(CurveError::EmptyCurve) || r
                == Err::<Curve, CurveError>(CurveError::GainOverflow),
            r matches Ok(c) ==> c.wf() && is_difference(self@, other@, c@),
    {
        if other.points.len() == 0 {
            return Err(CurveError::EmptyCurve);
        }
        let n = self.points.len();
        let mut out: Vec<Point> = Vec::with_capacity(n);
        let mut i: usize = 0;
        while i < n
            invariant
                i <= n,
                n == self@.len(),
                other.wf(),
                other@.len() > 0,
                out@.len() == i,
                forall|k: int| 0 <= k < i ==> (#[trigger] out@[k]).freq == self@[k].freq
                    && out@[k].gain == self@[k].gain - interp(other@, self@[k].freq as int),
            decreases n - i,
        {
            let p = self.points[i];
            let v = match other.value_at(p.freq) {
                Ok(v) => v,
                Err(e) => {
                    return Err(e);
                },
            };
            let g = p.gain as i128 - v as i128;
            if g < i64::MIN as i128 || g > i64::MAX as i128 {
                assert(!fits_i64(self@[i as int].gain - interp(other@, self@[i as int].freq as int)));
                return Err(CurveError::GainOverflow);
            }
            out.push(Point { freq: p.freq, gain: g as i64 });
            i = i + 1;
        }
        proof {
            assert forall|a: int, b: int| 0 <= a < b < out@.len() implies out@[a].freq
                < out@[b].freq by {
                assert(self@[a].freq < self@[b].freq);
            }
            assert forall|a: int| 0 <= a < out@.len() implies out@[a].freq > 0 by {
                assert(self@[a].freq > 0);
            }
            assert forall|k: int| 0 <= k < self@.len() implies fits_i64(
                #[trigger] self@[k].gain - interp(other@, self@[k].freq as int),
            ) by {
                assert(out@[k].gain == self@[k].gain - interp(other@, self@[k].freq as int));
            }
        }
        Ok(Curve { points: out })
    }
}

} // verus!
