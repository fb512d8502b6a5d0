//! What holds of the residuals and their sensitivities together.
use crate::merit::formula;
use crate::merit::kinds;
use crate::merit::kinds::Form;
use crate::merit::plan;
use crate::merit::residuals;
use crate::merit::sensitivity;
use crate::merit::sensitivity::CurveTerm;
use crate::merit::plan::SampleRef;
use crate::merit::sim::SimCurves;
use crate::merit::spec::{MeritKey, MeritSpec, MeritTarget};
use crate::merit::{ConstraintKind, CurveId};
use crate::numeric;
use crate::numeric::Numeric;
use crate::optics::Optics;
use crate::scalar;
use crate::scalar::Scalar;
use vstd::prelude::*;

verus! {

/// The two passes index the same rows: a key group has as many sensitivity
/// rows as residuals, and its first row is the same in both, whatever the
/// groups before it are.
pub proof fn the_passes_agree_row_for_row<
    A: Numeric,
    O: Optics,
    C: Fn(usize, usize) -> Option<Scalar>,
>(
    num: A,
    ph: O,
    color: C,
    spec: &MeritSpec,
    sim: &SimCurves,
    n: int,
    vals: Seq<Seq<Scalar>>,
    rows: Seq<Seq<Seq<CurveTerm>>>,
)
    requires
        residuals::keys_values(num, ph, color, spec, sim, n, vals),
        rows.len() == n,
        forall|k: int|
            0 <= k < n ==> sensitivity::key_rows_are(
                num,
                ph,
                spec,
                sim,
                k,
                #[trigger] rows[k],
            ),
    ensures
        forall|k: int| 0 <= k < n ==> (#[trigger] vals[k]).len() == rows[k].len(),
        forall|k: int|
            0 <= k <= n ==> #[trigger] residuals::joined(vals.take(k)).len()
                == sensitivity::rows_joined(rows.take(k)).len(),
{
    assert forall|k: int| 0 <= k < n implies (#[trigger] vals[k]).len() == rows[k].len() by {
        assert(residuals::key_values(num, ph, color, spec, sim, k, vals[k]));
        assert(sensitivity::key_rows_are(num, ph, spec, sim, k, rows[k]));
    }
    assert forall|k: int| 0 <= k <= n implies #[trigger] residuals::joined(vals.take(k)).len()
        == sensitivity::rows_joined(rows.take(k)).len() by {
        starts_agree(vals, rows, k);
    }
}

proof fn starts_agree(vals: Seq<Seq<Scalar>>, rows: Seq<Seq<Seq<CurveTerm>>>, k: int)
    requires
        0 <= k <= vals.len(),
        vals.len() == rows.len(),
        forall|j: int| 0 <= j < vals.len() ==> (#[trigger] vals[j]).len() == rows[j].len(),
    ensures
        residuals::joined(vals.take(k)).len() == sensitivity::rows_joined(rows.take(k)).len(),
    decreases k,
{
    if k > 0 {
        starts_agree(vals, rows, k - 1);
        assert(vals.take(k).drop_last() =~= vals.take(k - 1));
        assert(rows.take(k).drop_last() =~= rows.take(k - 1));
        assert(vals.take(k).last() == vals[k - 1]);
        assert(rows.take(k).last() == rows[k - 1]);
    }
}

/// Without color demands the residual pass fails on a key group exactly where
/// the sensitivity pass does: where a simulated row is missing.
pub proof fn the_passes_fail_together<A: Numeric, C: Fn(usize, usize) -> Option<Scalar>>(
    num: A,
    color: C,
    spec: &MeritSpec,
    sim: &SimCurves,
    k: int,
)
    requires
        spec.color_seq().len() == 0,
    ensures
        residuals::key_fails(num, color, spec, sim, k) <==> !plan::readable(spec, sim, k),
{
}

/// Without color demands the two passes over a whole specification end alike:
/// both succeed, or both name the same curve.
pub proof fn the_passes_end_alike<A: Numeric, O: Optics, C: Fn(usize, usize) -> Option<Scalar>>(
    num: A,
    ph: O,
    color: C,
    spec: &MeritSpec,
    sim: &SimCurves,
    n: int,
    parts: Seq<Seq<Scalar>>,
    a: Result<(), CurveId>,
    rows: Seq<Seq<Seq<CurveTerm>>>,
    b: Result<(), CurveId>,
)
    requires
        spec.color_seq().len() == 0,
        residuals::evaluation(num, ph, color, spec, sim, n, parts, a),
        match b {
            Ok(_) => sensitivity::all_rows_are(num, ph, spec, sim, rows),
            Err(c) => sensitivity::first_unreadable(spec, sim, c),
        },
    ensures
        a is Ok <==> b is Ok,
        a matches Err(c) ==> b == Err::<(), CurveId>(c),
{
    assert forall|k: int| 0 <= k < n implies #[trigger] plan::readable(spec, sim, k) by {
        assert(residuals::key_values(num, ph, color, spec, sim, k, parts[k]));
    }
    if a is Err {
        the_passes_fail_together(num, color, spec, sim, n);
        if b is Ok {
            assert(sensitivity::key_rows_are(num, ph, spec, sim, n, rows[n]));
        }
    }
    if let Err(c) = b {
        let k = choose|k: int|
            {
                &&& 0 <= k < spec.key_seq().len()
                &&& !#[trigger] plan::readable(spec, sim, k)
                &&& c == spec.key_seq()[k].curve
                &&& forall|j: int| 0 <= j < k ==> #[trigger] plan::readable(spec, sim, j)
            };
        if k < n {
            assert(plan::readable(spec, sim, k));
        }
        if n < k {
            assert(plan::readable(spec, sim, n));
        }
        assert(n == k);
        assert(a is Err);
    } else {
        assert(a is Ok);
    }
}

/// The merit as a fold over the key groups: the squared residuals of a group
/// added up, or the penalty once where a row of it is missing.
pub open spec fn merit_fold<A: Numeric>(
    num: A,
    spec: &MeritSpec,
    sim: &SimCurves,
    penalty: Scalar,
    parts: Seq<Seq<Scalar>>,
    n: int,
) -> Scalar
    decreases n,
{
    if n <= 0 {
        Scalar::zero()
    } else {
        num.sum(
            merit_fold(num, spec, sim, penalty, parts, n - 1),
            if plan::readable(spec, sim, n - 1) {
                numeric::dot_of(num, parts[n - 1], parts[n - 1])
            } else {
                penalty
            },
        )
    }
}

/// Without color demands the merit is the sum of the squared residual rows,
/// group by group, and one penalty for each group that lacks a row.
pub proof fn the_merit_adds_the_squares<
    A: Numeric,
    O: Optics,
    C: Fn(usize, usize) -> Option<Scalar>,
>(
    num: A,
    ph: O,
    color: C,
    spec: &MeritSpec,
    sim: &SimCurves,
    penalty: Scalar,
    cs: Seq<Scalar>,
    parts: Seq<Seq<Scalar>>,
    n: int,
)
    requires
        spec.color_seq().len() == 0,
        residuals::contributions(num, ph, color, spec, sim, penalty, cs),
        parts.len() == cs.len(),
        forall|k: int|
            0 <= k < parts.len() && plan::readable(spec, sim, k) ==> residuals::key_values(
                num,
                ph,
                color,
                spec,
                sim,
                k,
                #[trigger] parts[k],
            ),
        0 <= n <= cs.len(),
    ensures
        formula::tally(num, cs, n) == merit_fold(num, spec, sim, penalty, parts, n),
    decreases n,
{
    if n > 0 {
        let k = n - 1;
        the_merit_adds_the_squares(num, ph, color, spec, sim, penalty, cs, parts, k);
        the_passes_fail_together(num, color, spec, sim, k);
        assert(residuals::contributes(num, ph, color, spec, sim, penalty, k, cs[k]));
        if plan::readable(spec, sim, k) {
            let vals = choose|vals: Seq<Scalar>|
                {
                    &&& #[trigger] residuals::key_values(num, ph, color, spec, sim, k, vals)
                    &&& cs[k] == numeric::dot_of(num, vals, vals)
                };
            assert(residuals::key_values(num, ph, color, spec, sim, k, parts[k]));
            residuals::residuals_are_settled(num, ph, color, spec, sim, k, vals, parts[k]);
        }
    }
}

/// An inactive row has no terms: where a one-sided or boxed demand is met at a
/// point, the slope there is zero and nothing is listed. The premise on the
/// product holds whenever the factors are finite.
pub proof fn an_inactive_row_has_no_terms<A: Numeric, O: Optics>(
    num: A,
    ph: O,
    sim: &SimCurves,
    key: MeritKey,
    t: MeritTarget,
    samples: Seq<SampleRef>,
    angle_row: usize,
    i: int,
)
    requires
        !t.phase,
        !t.integral,
        0 <= i < samples.len(),
        ({
            let xs = sensitivity::frame_raws(num, sim, key, t, samples, angle_row as int);
            let ds = sensitivity::frame_gaps(num, ph, t, xs);
            &&& kinds::form_of(t.kind, ds[i], t.tolerances@[i], residuals::band_at(t, i))
                is Inactive
            &&& scalar::same(
                num.product(
                    num.product(formula::frame_scale(num, t), Scalar::zero()),
                    formula::transform_slope(num, t.transform, xs[i], t.norm_factor),
                ),
                Scalar::zero(),
            )
        }),
    ensures
        sensitivity::frame_rows(num, ph, sim, key, t, samples, angle_row)[i].len() == 0,
{
}

/// A satisfied one-sided or boxed demand asks for nothing and does not move:
/// its residual and its slope are both zero.
pub proof fn a_satisfied_demand_is_flat<A: Numeric>(
    num: A,
    kind: ConstraintKind,
    d: Scalar,
    tol: Scalar,
    bw: Scalar,
)
    requires
        kinds::form_of(kind, d, tol, bw) == Form::Inactive,
    ensures
        formula::residual(num, kind, d, tol, bw) == Scalar::zero(),
        formula::residual_slope(num, kind, d, tol, bw) == Scalar::zero(),
{
}

} // verus!
