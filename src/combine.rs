use vstd::prelude::*;

use crate::curve::{Curve, CurveError, Point, valid_points};

verus! {

/// Every curve has the length and the frequencies of the first one.
pub open spec fn shared_grid(cs: Seq<Curve>) -> bool {
    forall|k: int|
        0 <= k < cs.len() ==> (#[trigger] cs[k]@).len() == cs[0]@.len() && forall|i: int|
            0 <= i < cs[0]@.len() ==> (#[trigger] cs[k]@[i]).freq == cs[0]@[i].freq
}

/// The gains at index `i` of every curve, in the order of the curves.
pub open spec fn column(cs: Seq<Curve>, i: int) -> Seq<i64> {
    Seq::new(cs.len(), |k: int| cs[k]@[i].gain)
}

/// `r` has the frequencies of the first curve, and at each index a gain that
/// `average` may return for the column of gains at that index.
pub open spec fn is_combination<F: Fn(Vec<i64>) -> i64>(
    cs: Seq<Curve>,
    average: F,
    r: Seq<Point>,
) -> bool {
    &&& r.len() == cs[0]@.len()
    &&& forall|i: int|
        0 <= i < r.len() ==> (#[trigger] r[i]).freq == cs[0]@[i].freq && exists|v: Vec<i64>|
            v@ == column(cs, i) && average.ensures((v,), r[i].gain)
}

/// Checks that all curves share the length and frequencies of the first one.
pub fn share_grid(curves: &Vec<Curve>) -> (r: bool)
    ensures
        r == shared_grid(curves@),
{
    let n = curves.len();
    if n == 0 {
        return true;
    }
    let first = curves[0].points();
    let m = first.len();
    let mut k: usize = 0;
    while k < n
        invariant
            k <= n,
            n == curves@.len(),
            n > 0,
            first@ == curves@[0]@,
            m == first@.len(),
            forall|a: int|
                0 <= a < k ==> (#[trigger] curves@[a]@).len() == m && forall|i: int|
                    0 <= i < m ==> (#[trigger] curves@[a]@[i]).freq == first@[i].freq,
        decreases n - k,
    {
        let pts = curves[k].points();
        if pts.len() != m {
            assert(!shared_grid(curves@)) by {
                assert(curves@[k as int]@.len() != curves@[0]@.len());
            }
            return false;
        }
        let mut i: usize = 0;
        while i < m
            invariant
                i <= m,
                k < n,
                n == curves@.len(),
                m == first@.len(),
                first@ == curves@[0]@,
                pts@ == curves@[k as int]@,
                pts@.len() == m,
                forall|j: int| 0 <= j < i ==> (#[trigger] pts@[j]).freq == first@[j].freq,
            decreases m - i,
        {
            if pts[i].freq != first[i].freq {
                assert(!shared_grid(curves@)) by {
                    assert(curves@[k as int]@[i as int].freq != curves@[0]@[i as int].freq);
                }
                return false;
            }
            i = i + 1;
        }
        k = k + 1;
    }
    true
}

/// Combines curves on a shared grid point by point: at each index the result
/// keeps the common frequency and takes `average` of the gains there.
/// `average` is expected to average in the linear power domain.
pub fn combine<F: Fn(Vec<i64>) -> i64>(curves: &Vec<Curve>, average: &F) -> (r: Result<
    Curve,
    CurveError,
>)
    requires
        forall|k: int| 0 <= k < curves@.len() ==> (#[trigger] curves@[k]).wf(),
        shared_grid(curves@),
        forall|v: Vec<i64>| average.requires((v,)),
    ensures
        curves@.len() == 0 <==> r == Err::<Curve, CurveError>(CurveError::EmptyInput),
        curves@.len() > 0 <==> r is Ok,
        r matches Ok(c) ==> c.wf() && is_combination(curves@, average, c@),
{
    let n = curves.len();
    if n == 0 {
        return Err(CurveError::EmptyInput);
    }
    let first = curves[0].points();
    let m = first.len();
    let mut out: Vec<Point> = Vec::with_capacity(m);
    let mut i: usize = 0;
    while i < m
        invariant
            i <= m,
            n == curves@.len(),
            n > 0,
            first@ == curves@[0]@,
            m == first@.len(),
            shared_grid(curves@),
            forall|v: Vec<i64>| average.requires((v,)),
            out@.len() == i,
            forall|j: int|
                0 <= j < i ==> (#[trigger] out@[j]).freq == first@[j].freq && exists|v: Vec<i64>|
                    v@ == column(curves@, j) && average.ensures((v,), out@[j].gain),
        decreases m - i,
    {
        let mut col: Vec<i64> = Vec::with_capacity(n);
        let mut k: usize = 0;
        while k < n
            invariant
                k <= n,
                i < m,
                n == curves@.len(),
                m == curves@[0]@.len(),
                shared_grid(curves@),
                col@.len() == k,
                forall|a: int| 0 <= a < k ==> #[trigger] col@[a] == column(curves@, i as int)[a],
            decreases n - k,
        {
            assert(curves@[k as int]@.len() == m);
            let pts = curves[k].points();
            col.push(pts[i].gain);
            k = k + 1;
        }
        assert(col@ =~= column(curves@, i as int));
        let ghost cv = col;
        let gain = average(col);
        assert(cv@ == column(curves@, i as int) && average.ensures((cv,), gain));
        out.push(Point { freq: first[i].freq, gain });
        i = i + 1;
    }
    proof {
        assert(curves@[0].wf());
        assert forall|a: int, b: int| 0 <= a < b < out@.len() implies out@[a].freq
            < out@[b].freq by {
            assert(first@[a].freq < first@[b].freq);
        }
        assert forall|a: int| 0 <= a < out@.len() implies out@[a].freq > 0 by {
            assert(first@[a].freq > 0);
        }
    }
    let c = Curve::from_valid(out);
    assert(c@ == out@);
    assert forall|i: int| 0 <= i < c@.len() implies (#[trigger] c@[i]).freq
        == curves@[0]@[i].freq && exists|v: Vec<i64>|
        v@ == column(curves@, i) && average.ensures((v,), c@[i].gain) by {
        assert(out@[i].freq == first@[i].freq);
    }
    Ok(c)
}

/// Combining a single curve gives that curve back, given an `average` that
/// returns the one gain of a one-gain column unchanged.
pub proof fn lemma_combine_single<F: Fn(Vec<i64>) -> i64>(c: Curve, average: F, r: Curve)
    requires
        is_combination(seq![c], average, r@),
        forall|v: Vec<i64>, g: i64| v@.len() == 1 && #[trigger] average.ensures((v,), g) ==> g == v@[0],
    ensures
        r@ == c@,
{
    let cs = seq![c];
    assert forall|i: int| 0 <= i < r@.len() implies #[trigger] r@[i] == c@[i] by {
        let v = choose|v: Vec<i64>| v@ == column(cs, i) && average.ensures((v,), r@[i].gain);
        assert(v@.len() == 1);
        assert(v@[0] == c@[i].gain);
    }
    assert(r@ =~= c@);
}

} // verus!
