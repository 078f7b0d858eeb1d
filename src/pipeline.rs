use vstd::prelude::*;

use crate::combine::{combine, is_combination, shared_grid};
use crate::curve::{
    Curve,
    CurveError,
    fits_i64,
    interp,
    is_difference,
    is_normalization,
    is_peak,
};
use crate::grid::{frequency_grid, is_frequency_grid};
use crate::resample::{is_resampling, valid_grid};

verus! {

/// The correction curve for `measurements` against `target`: both are
/// resampled onto the frequency grid, the measurements are combined, the
/// combination is subtracted from the target, and the result is shifted so
/// that its peak gain is zero.
pub fn correction<F: Fn(Vec<i64>) -> i64>(
    measurements: &Vec<Curve>,
    target: &Curve,
    average: &F,
) -> (r: Result<Curve, CurveError>)
    requires
        forall|k: int| 0 <= k < measurements@.len() ==> (#[trigger] measurements@[k]).wf(),
        target.wf(),
        forall|v: Vec<i64>| average.requires((v,)),
    ensures
        measurements@.len() == 0 <==> r == Err::<Curve, CurveError>(CurveError::EmptyInput),
        (measurements@.len() > 0 && (target@.len() == 0 || exists|k: int|
            0 <= k < measurements@.len() && (#[trigger] measurements@[k])@.len() == 0)) <==> r
            == Err::<Curve, CurveError>(CurveError::EmptyCurve),
        r is Err ==> r == Err::<Curve, CurveError>(CurveError::EmptyInput) || r == Err::<
            Curve,
            CurveError,
        >(CurveError::EmptyCurve) || r == Err::<Curve, CurveError>(CurveError::GainOverflow),
        r == Err::<Curve, CurveError>(CurveError::GainOverflow) ==> exists|
            grid: Seq<u32>,
            rs: Seq<Curve>,
            t: Curve,
            a: Curve,
        |
            {
                &&& is_frequency_grid(grid)
                &&& rs.len() == measurements@.len()
                &&& forall|k: int|
                    0 <= k < rs.len() ==> is_resampling(
                        #[trigger] measurements@[k]@,
                        grid,
                        average,
                        rs[k]@,
                    )
                &&& is_resampling(target@, grid, average, t@)
                &&& is_combination(rs, average, a@)
                &&& ((exists|i: int|
                    0 <= i < t@.len() && !fits_i64(
                        #[trigger] t@[i].gain - interp(a@, t@[i].freq as int),
                    )) || exists|d: Curve, m: int|
                    #![trigger is_difference(t@, a@, d@), is_peak(d@, m)]
                    is_difference(t@, a@, d@) && is_peak(d@, m) && exists|i: int|
                        0 <= i < d@.len() && !fits_i64(#[trigger] d@[i].gain - m))
            },
        r matches Ok(c) ==> c.wf() && is_peak(c@, 0) && exists|
            grid: Seq<u32>,
            rs: Seq<Curve>,
            t: Curve,
            a: Curve,
            d: Curve,
        |
            {
                &&& is_frequency_grid(grid)
                &&& rs.len() == measurements@.len()
                &&& forall|k: int|
                    0 <= k < rs.len() ==> is_resampling(
                        #[trigger] measurements@[k]@,
                        grid,
                        average,
                        rs[k]@,
                    )
                &&& is_resampling(target@, grid, average, t@)
                &&& is_combination(rs, average, a@)
                &&& is_difference(t@, a@, d@)
                &&& is_normalization(d@, c@)
            },
{
    let n = measurements.len();
    if n == 0 {
        return Err(CurveError::EmptyInput);
    }
    let grid = frequency_grid();
    assert(valid_grid(grid@)) by {
        assert forall|i: int| 0 <= i < grid@.len() implies grid@[i] > 0 by {
            if i > 0 {
                assert(grid@[0] < grid@[i]);
            }
        }
    }
    let mut rs: Vec<Curve> = Vec::with_capacity(n);
    let mut k: usize = 0;
    while k < n
        invariant
            k <= n,
            n == measurements@.len(),
            forall|j: int| 0 <= j < n ==> (#[trigger] measurements@[j]).wf(),
            forall|v: Vec<i64>| average.requires((v,)),
            valid_grid(grid@),
            is_frequency_grid(grid@),
            rs@.len() == k,
            forall|j: int| 0 <= j < k ==> (#[trigger] measurements@[j])@.len() > 0,
            forall|j: int|
                0 <= j < k ==> (#[trigger] rs@[j]).wf() && is_resampling(
                    measurements@[j]@,
                    grid@,
                    average,
                    rs@[j]@,
                ),
        decreases n - k,
    {
        match measurements[k].resample(&grid, average) {
            Ok(c) => {
                rs.push(c);
            },
            Err(_) => {
                return Err(CurveError::EmptyCurve);
            },
        }
        k = k + 1;
    }
    let t = match target.resample(&grid, average) {
        Ok(c) => c,
        Err(_) => {
            return Err(CurveError::EmptyCurve);
        },
    };
    assert(shared_grid(rs@)) by {
        assert forall|j: int| 0 <= j < rs@.len() implies (#[trigger] rs@[j]@).len()
            == rs@[0]@.len() && forall|i: int|
            0 <= i < rs@[0]@.len() ==> (#[trigger] rs@[j]@[i]).freq == rs@[0]@[i].freq by {
            assert(is_resampling(measurements@[j]@, grid@, average, rs@[j]@));
            assert(is_resampling(measurements@[0]@, grid@, average, rs@[0]@));
            assert forall|i: int| 0 <= i < rs@[0]@.len() implies (#[trigger] rs@[j]@[i]).freq
                == rs@[0]@[i].freq by {
                assert(rs@[j]@[i].freq == grid@[i]);
                assert(rs@[0]@[i].freq == grid@[i]);
            }
        }
    }
    let a = match combine(&rs, average) {
        Ok(c) => c,
        Err(_) => {
            return Err(CurveError::EmptyInput);
        },
    };
    assert(a@.len() == grid@.len());
    assert(forall|j: int|
        0 <= j < rs@.len() ==> is_resampling(
            #[trigger] measurements@[j]@,
            grid@,
            average,
            rs@[j]@,
        ));
    let d = match t.difference(&a) {
        Ok(c) => c,
        Err(_) => {
            return Err(CurveError::GainOverflow);
        },
    };
    let c = match d.normalize() {
        Ok(c) => c,
        Err(_) => {
            proof {
                let m = choose|m: int| #[trigger]
                    is_peak(d@, m) && exists|i: int|
                        0 <= i < d@.len() && !fits_i64(#[trigger] d@[i].gain - m);
                assert(is_difference(t@, a@, d@) && is_peak(d@, m));
            }
            return Err(CurveError::GainOverflow);
        },
    };
    Ok(c)
}

} // verus!
