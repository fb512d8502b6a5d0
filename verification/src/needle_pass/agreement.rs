//! The needle pass pursues what the merit asks for: it sees the merit's
//! differences, leaves a satisfied demand alone, and the terms that it emits
//! cost what the merit's residuals cost.
use crate::merit::calculus;
use crate::merit::formula;
use crate::merit::kinds;
use crate::merit::kinds::Form;
use crate::merit::sim::SimCurves;
use crate::merit::spec::{MeritKey, MeritTarget};
use crate::merit::ConstraintKind;
use crate::needle_pass::fold;
use crate::needle_pass::fold::{FoldForm, Place};
use crate::numeric::Numeric;
use crate::optics::Optics;
use crate::reading;
use crate::reading::{sign, size, Reading};
use crate::scalar;
use crate::scalar::Scalar;
use vstd::prelude::*;

verus! {

/// The needle pass sees the merit's scaled difference, for every factor: that
/// of a linear demand as it is, and that of a wrapped phase where the factor
/// is neutral.
pub proof fn the_needle_sees_the_merits_difference<A: Numeric, O: Optics>(
    num: A,
    ph: O,
    t: MeritTarget,
    s: Scalar,
    target: Scalar,
)
    requires
        t.transform is Linear || (t.phase && t.transform is Phase && num.product(s, t.norm_factor)
            == s),
    ensures
        fold::op_gap(num, ph, t, s, target) == formula::scaled_gap(
            num,
            ph,
            t.transform,
            t.norm_factor,
            s,
            target,
        ),
{
}

/// A point emits nothing exactly where the merit's residual is inactive: with
/// an operating point whose difference is a number.
pub proof fn satisfied_points_are_left_alone<A: Numeric, O: Optics>(
    num: A,
    ph: O,
    sim: Option<&SimCurves>,
    key: MeritKey,
    t: MeritTarget,
    place: Place,
    i: int,
)
    requires
        place.op_row is Some,
        sim is Some,
        t.transform is Linear,
        ({
            let s = fold::op_value(
                num,
                ph,
                sim->0,
                key,
                t,
                place.op_row->0 as int,
                t.wavelengths@[i],
            );
            let target = fold::point_target(num, t, i);
            !formula::scaled_gap(num, ph, t.transform, t.norm_factor, s, target).nan()
        }),
    ensures
        ({
            let s = fold::op_value(
                num,
                ph,
                sim->0,
                key,
                t,
                place.op_row->0 as int,
                t.wavelengths@[i],
            );
            let target = fold::point_target(num, t, i);
            let d = formula::scaled_gap(num, ph, t.transform, t.norm_factor, s, target);
            let tol = fold::point_tolerance(num, t, i);
            let bw = fold::point_band(num, t, i);
            fold::point_outcome(num, ph, sim, key, t, place, i) is None <==> kinds::form_of(
                t.kind,
                d,
                tol,
                bw,
            ) is Inactive
        }),
{
    let s = fold::op_value(num, ph, sim->0, key, t, place.op_row->0 as int, t.wavelengths@[i]);
    let target = fold::point_target(num, t, i);
    the_needle_sees_the_merits_difference(num, ph, t, s, target);
    let d = fold::op_gap(num, ph, t, s, target);
    assert(fold::op_point(num, ph, sim, key, t, place.op_row, i) == (s, d));
}

/// What a point folds to matches the form of the merit's residual.
pub open spec fn same_form(form: FoldForm, merit: Form) -> bool {
    match form {
        FoldForm::Centre => merit is OverTolerance,
        FoldForm::Inside => merit is OverBand,
        FoldForm::Edge { bw } => merit == (Form::Excess { bw }) || merit is SoftExcess,
    }
}

/// Away from a satisfied demand, the point folds to the form of the merit's
/// residual; without an operating point it folds to the target itself.
pub proof fn the_needle_takes_the_merits_form(
    kind: ConstraintKind,
    d: Scalar,
    tol: Scalar,
    bw: Scalar,
)
    requires
        !d.nan(),
    ensures
        fold::fold_form_of(kind, Some(d), tol, bw) is None <==> kinds::form_of(
            kind,
            d,
            tol,
            bw,
        ) is Inactive,
        fold::fold_form_of(kind, Some(d), tol, bw) matches Some(form) ==> same_form(
            form,
            kinds::form_of(kind, d, tol, bw),
        ),
        fold::fold_form_of(kind, None::<Scalar>, tol, bw) == Some(FoldForm::Centre),
{
}

/// The half-width that an edge is away from the target; none otherwise.
pub open spec fn reach(k: Reading, form: FoldForm) -> real {
    match form {
        FoldForm::Edge { bw } => k.of(bw),
        _ => 0real,
    }
}

/// The unit that a form counts in: the half-width inside a band, else the
/// tolerance.
pub open spec fn unit(k: Reading, form: FoldForm, tol: Scalar, bw: Scalar) -> real {
    match form {
        FoldForm::Inside => k.of(bw),
        _ => k.of(tol),
    }
}

/// The numbers that a pair meets on its way can be held.
pub open spec fn pairable(
    k: Reading,
    t: MeritTarget,
    form: FoldForm,
    target: Scalar,
    tol: Scalar,
    bw: Scalar,
    d: Scalar,
) -> bool {
    let f = k.of(t.norm_factor);
    let u = unit(k, form, tol, bw);
    let goal = k.of(target) + sign(k.of(d)) * reach(k, form);
    let count = match t.count_norm {
        Some(c) => k.of(c),
        None => 1real,
    };
    &&& t.norm_factor.finite() && t.weight.finite() && target.finite() && tol.finite()
        && bw.finite() && d.finite()
    &&& form matches FoldForm::Edge { bw: half } ==> half.finite()
    &&& t.count_norm matches Some(c) ==> c.finite()
    &&& form is Edge ==> k.of(d) != 0real
    &&& f != 0real
    &&& u > 0real
    &&& count > 0real
    &&& k.holds(goal)
    &&& k.holds(sign(k.of(d)) * reach(k, form))
    &&& k.holds(goal / f)
    &&& k.holds(f * f)
    &&& k.holds(u * u)
    &&& k.holds((f * f) / (u * u))
    &&& k.holds(((f * f) / (u * u)) * k.of(t.weight))
    &&& k.holds((((f * f) / (u * u)) * k.of(t.weight)) / count)
}

/// An emitted pair is a goal and a weight in the space of the simulated value:
/// scaled, the goal is the target, or the edge of its band on the violated
/// side; the weight undoes the unit and carries the demand's weight.
pub proof fn a_pair_aims_at_the_target<A: Numeric>(
    num: A,
    k: Reading,
    t: MeritTarget,
    form: FoldForm,
    target: Scalar,
    tol: Scalar,
    bw: Scalar,
    d: Scalar,
)
    requires
        reading::faithful(num, k),
        pairable(k, t, form, target, tol, bw, d),
    ensures
        ({
            let pair = fold::point_pair(num, t, form, target, tol, bw, d);
            let f = k.of(t.norm_factor);
            let u = unit(k, form, tol, bw);
            let count = match t.count_norm {
                Some(c) => k.of(c),
                None => 1real,
            };
            &&& pair.0.finite() && pair.1.finite()
            &&& k.of(pair.0) * f == k.of(target) + sign(k.of(d)) * reach(k, form)
            &&& (k.of(pair.1) * count) * (u * u) == (f * f) * k.of(t.weight)
        }),
{
    let f = k.of(t.norm_factor);
    let u = unit(k, form, tol, bw);
    let w = k.of(t.weight);
    let goal = k.of(target) + sign(k.of(d)) * reach(k, form);
    let count = match t.count_norm {
        Some(c) => k.of(c),
        None => 1real,
    };
    let zero = Scalar { bits: 0 };
    let one = Scalar { bits: 0x3FF0_0000_0000_0000 };
    reading::order_reads(k, d, zero);
    reading::order_reads(k, zero, d);
    assert(k.of(scalar::negated(one)) == -k.of(one));
    let uu = u * u;
    assert(uu > 0real) by (nonlinear_arith)
        requires
            uu == u * u,
            u > 0real,
    ;
    let sg = sign(k.of(d));
    assert(sg * 0real == 0real) by (nonlinear_arith);
    reading::over_and_back(goal, f);
    reading::over_and_back(f * f, uu);
    let q = (f * f) / uu;
    reading::over_and_back(q * w, count);
    assert((q * w) * uu == (q * uu) * w) by (nonlinear_arith);
    let p = fold::form_pair(num, t, form, target, tol, bw, d);
    let nf2 = num.product(t.norm_factor, t.norm_factor);
    assert(k.is(nf2, f * f));
    let us = match form {
        FoldForm::Inside => bw,
        _ => tol,
    };
    assert(k.is(num.product(us, us), uu));
    assert(k.is(p.1, q));
    if let FoldForm::Edge { bw: half } = form {
        let signed = num.product(formula::sign_of(d), half);
        assert(k.is(formula::sign_of(d), sg));
        assert(k.is(signed, sg * k.of(half)));
        assert(k.is(num.sum(target, signed), goal));
    }
    assert(k.is(p.0, goal / f));
    assert(k.is(num.product(p.1, t.weight), q * w));
}

/// The cost of a pair at a simulated value, by the cost of the merit.
///
/// What a point's pair costs at the operating point is the square of the
/// merit's residual times the demand's weight over its count; outside a soft
/// band, the square less one.
pub proof fn a_pair_costs_the_merits_residual<A: Numeric, O: Optics>(
    num: A,
    ph: O,
    k: Reading,
    t: MeritTarget,
    form: FoldForm,
    s: Scalar,
    target: Scalar,
    tol: Scalar,
    bw: Scalar,
    root: real,
)
    requires
        reading::faithful(num, k),
        t.transform is Linear,
        s.finite(),
        k.holds(k.of(s) * k.of(t.norm_factor)),
        k.holds(k.of(s) * k.of(t.norm_factor) - k.of(target)),
        ({
            let d = fold::op_gap(num, ph, t, s, target);
            &&& pairable(k, t, form, target, tol, bw, d)
            &&& calculus::comfortable(k, k.of(d), k.of(tol), k.of(bw), root)
            &&& fold::fold_form_of(t.kind, Some(d), tol, bw) == Some(form)
        }),
    ensures
        ({
            let d = fold::op_gap(num, ph, t, s, target);
            let pair = fold::point_pair(num, t, form, target, tol, bw, d);
            let r = k.of(formula::residual(num, t.kind, d, tol, bw));
            let away = k.of(s) - k.of(pair.0);
            let count = match t.count_norm {
                Some(c) => k.of(c),
                None => 1real,
            };
            let square = if t.kind is CenterBand && form is Edge {
                r * r - 1real
            } else {
                r * r
            };
            (k.of(pair.1) * count) * (away * away) == square * k.of(t.weight)
        }),
{
    let d = fold::op_gap(num, ph, t, s, target);
    the_needle_sees_the_merits_difference(num, ph, t, s, target);
    a_pair_aims_at_the_target(num, k, t, form, target, tol, bw, d);
    calculus::a_residual_means_its_kind(num, k, t.kind, d, tol, bw, root);
    let zero = Scalar { bits: 0 };
    reading::order_reads(k, d, zero);
    reading::order_reads(k, zero, d);
    reading::order_reads(k, bw, zero);
    let m = scalar::absolute(d);
    reading::order_reads(k, m, bw);
    reading::order_reads(k, m, tol);
    let pair = fold::point_pair(num, t, form, target, tol, bw, d);
    let r = k.of(formula::residual(num, t.kind, d, tol, bw));
    let count = match t.count_norm {
        Some(c) => k.of(c),
        None => 1real,
    };
    let (x, f, g) = (k.of(s), k.of(t.norm_factor), k.of(target));
    let e = k.of(d);
    assert(e == x * f - g);
    let u = unit(k, form, tol, bw);
    let sg = sign(e);
    let h = reach(k, form);
    let out = e - sg * h;
    let away = x - k.of(pair.0);
    assert((x - k.of(pair.0)) * f == x * f - k.of(pair.0) * f) by (nonlinear_arith);
    assert(away * f == out);
    let square = if t.kind is CenterBand && form is Edge {
        r * r - 1real
    } else {
        r * r
    };
    // In units the part that sticks out is the residual.
    if let FoldForm::Edge { bw: half } = form {
        let b = k.of(half);
        assert(sg == 1real ==> sg * h == h) by (nonlinear_arith);
        assert(sg == -1real ==> sg * h == -h) by (nonlinear_arith);
        let over = size(e) - b;
        assert(out == over || out == -over);
        assert((-over) * (-over) == over * over) by (nonlinear_arith);
        assert(out * out == over * over);
        if t.kind is CenterBand {
            assert(square * (u * u) == out * out);
        } else {
            assert(r * u == over);
            assert((r * u) * (r * u) == (r * r) * (u * u)) by (nonlinear_arith);
            assert(square * (u * u) == out * out);
        }
    } else {
        assert(sg * 0real == 0real) by (nonlinear_arith);
        assert(out == e);
        assert(r * u == e);
        assert((r * u) * (r * u) == (r * r) * (u * u)) by (nonlinear_arith);
        assert(square * (u * u) == out * out);
    }
    costs_agree(k.of(pair.1) * count, away, f, u, k.of(t.weight), square, out);
}

proof fn costs_agree(w: real, away: real, f: real, u: real, weight: real, square: real, out: real)
    requires
        u > 0real,
        f != 0real,
        w * (u * u) == (f * f) * weight,
        away * f == out,
        square * (u * u) == out * out,
    ensures
        w * (away * away) == square * weight,
{
    let uu = u * u;
    let left = w * (away * away);
    let right = square * weight;
    assert(left * uu == (w * uu) * (away * away)) by (nonlinear_arith)
        requires
            left == w * (away * away),
    ;
    assert(((f * f) * weight) * (away * away) == ((away * f) * (away * f)) * weight)
        by (nonlinear_arith);
    assert(right * uu == (square * uu) * weight) by (nonlinear_arith)
        requires
            right == square * weight,
    ;
    assert(left * uu == right * uu);
    assert(uu > 0real) by (nonlinear_arith)
        requires
            uu == u * u,
            u > 0real,
    ;
    reading::cancelled(left, uu);
    reading::cancelled(right, uu);
}

} // verus!
