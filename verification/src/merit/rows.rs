//! A residual row follows the simulated value.
use crate::merit::formula;
use crate::merit::kinds;
use crate::merit::kinds::Form;
use crate::merit::sensitivity;
use crate::merit::spec::MeritTarget;
use crate::numeric::Numeric;
use crate::optics::Optics;
use crate::reading;
use crate::reading::{over, size, times, Reading};
use crate::scalar;
use crate::scalar::Scalar;
use vstd::prelude::*;

verus! {

/// The residual is worked out of numbers that can be held: `d` is the
/// difference, `unit` what it is counted in, `half` what is taken off.
pub open spec fn countable(k: Reading, form: Form, d: real, tol: real, bw: real) -> bool {
    match form {
        Form::Inactive => true,
        Form::OverTolerance => k.holds(over(d, tol)) && k.holds(over(1real, tol)),
        Form::OverBand => k.holds(over(d, bw)) && k.holds(over(1real, bw)),
        Form::Excess { bw: half } => {
            &&& half.finite()
            &&& d != 0real
            &&& k.holds(size(d) - k.of(half))
            &&& k.holds(over(size(d) - k.of(half), tol))
            &&& k.holds(over(1real, tol))
            &&& k.holds(-over(1real, tol))
        },
        Form::SoftExcess => false,
    }
}

/// A residual row follows the simulated value: where both values leave the
/// demand in one straight form, the scaled residual moves by the step of the
/// value times the slope of its point, for every factor, weight and count.
pub proof fn a_row_follows_the_value<A: Numeric, O: Optics>(
    num: A,
    ph: O,
    k: Reading,
    t: MeritTarget,
    x: Scalar,
    y: Scalar,
    target: Scalar,
    tol: Scalar,
    bw: Scalar,
)
    requires
        reading::exact(num, k),
        t.transform is Linear || t.transform is Complex,
        t.norm_factor.finite() && x.finite() && y.finite() && target.finite(),
        tol.finite() && bw.finite() && formula::frame_scale(num, t).finite(),
        k.of(tol) != 0real,
        ({
            let f = k.of(t.norm_factor);
            let a = formula::scaled_gap(num, ph, t.transform, t.norm_factor, x, target);
            let b = formula::scaled_gap(num, ph, t.transform, t.norm_factor, y, target);
            let form = kinds::form_of(t.kind, a, tol, bw);
            let rs = k.of(formula::residual_slope(num, t.kind, a, tol, bw));
            let ra = k.of(formula::residual(num, t.kind, a, tol, bw));
            let rb = k.of(formula::residual(num, t.kind, b, tol, bw));
            let scale = k.of(formula::frame_scale(num, t));
            &&& k.holds(times(k.of(x), f)) && k.holds(times(k.of(y), f))
            &&& k.holds(times(k.of(x), f) - k.of(target))
            &&& k.holds(times(k.of(y), f) - k.of(target))
            &&& kinds::form_of(t.kind, b, tol, bw) == form
            &&& form is OverBand ==> k.of(bw) != 0real
            &&& form is Excess ==> (k.of(a) < 0real <==> k.of(b) < 0real)
            &&& countable(k, form, k.of(a), k.of(tol), k.of(bw))
            &&& countable(k, form, k.of(b), k.of(tol), k.of(bw))
            &&& k.holds(times(scale, rs))
            &&& k.holds(times(times(scale, rs), f))
            &&& k.holds(times(ra, scale))
            &&& k.holds(times(rb, scale))
        }),
    ensures
        ({
            let a = formula::scaled_gap(num, ph, t.transform, t.norm_factor, x, target);
            let b = formula::scaled_gap(num, ph, t.transform, t.norm_factor, y, target);
            let s = formula::frame_scale(num, t);
            let before = num.product(formula::residual(num, t.kind, a, tol, bw), s);
            let after = num.product(formula::residual(num, t.kind, b, tol, bw), s);
            k.of(after) - k.of(before) == times(
                k.of(y) - k.of(x),
                k.of(sensitivity::point_slope(num, t, (a, tol, bw), x)),
            )
        }),
{
    let f = k.of(t.norm_factor);
    let a = formula::scaled_gap(num, ph, t.transform, t.norm_factor, x, target);
    let b = formula::scaled_gap(num, ph, t.transform, t.norm_factor, y, target);
    assert(k.is(num.product(x, t.norm_factor), times(k.of(x), f)));
    assert(k.is(num.product(y, t.norm_factor), times(k.of(y), f)));
    assert(k.is(a, times(k.of(x), f) - k.of(target)));
    assert(k.is(b, times(k.of(y), f) - k.of(target)));
    let dx = k.of(y) - k.of(x);
    let dg = k.of(b) - k.of(a);
    reading::spread_out(k.of(y), k.of(x), f);
    assert(dg == times(dx, f));
    let form = kinds::form_of(t.kind, a, tol, bw);
    let r_a = formula::residual(num, t.kind, a, tol, bw);
    let r_b = formula::residual(num, t.kind, b, tol, bw);
    let r_s = formula::residual_slope(num, t.kind, a, tol, bw);
    one_form_moves(num, k, form, a, b, tol, bw);
    let s = formula::frame_scale(num, t);
    let (ra, rb, rs, sc) = (k.of(r_a), k.of(r_b), k.of(r_s), k.of(s));
    assert(k.is(num.product(r_a, s), times(ra, sc)));
    assert(k.is(num.product(r_b, s), times(rb, sc)));
    assert(k.is(num.product(s, r_s), times(sc, rs)));
    assert(k.is(
        sensitivity::point_slope(num, t, (a, tol, bw), x),
        times(times(sc, rs), f),
    ));
    reading::spread_out(rb, ra, sc);
    // ((dx f) rs) sc is dx ((sc rs) f).
    reading::regrouped(dg, rs, sc);
    reading::units(rs, sc);
    reading::regrouped(dx, f, times(sc, rs));
    reading::units(f, times(sc, rs));
}

proof fn one_form_moves<A: Numeric>(
    num: A,
    k: Reading,
    form: Form,
    a: Scalar,
    b: Scalar,
    tol: Scalar,
    bw: Scalar,
)
    requires
        reading::exact(num, k),
        a.finite() && b.finite() && tol.finite() && bw.finite(),
        k.of(tol) != 0real,
        form is OverBand ==> k.of(bw) != 0real,
        form is Excess ==> (k.of(a) < 0real <==> k.of(b) < 0real),
        countable(k, form, k.of(a), k.of(tol), k.of(bw)),
        countable(k, form, k.of(b), k.of(tol), k.of(bw)),
    ensures
        formula::form_value(num, form, a, tol, bw).finite(),
        formula::form_value(num, form, b, tol, bw).finite(),
        formula::form_slope(num, form, a, tol, bw).finite(),
        k.of(formula::form_value(num, form, b, tol, bw)) - k.of(
            formula::form_value(num, form, a, tol, bw),
        ) == times(k.of(b) - k.of(a), k.of(formula::form_slope(num, form, a, tol, bw))),
{
    let zero = Scalar { bits: 0 };
    let one = Scalar { bits: 0x3FF0_0000_0000_0000 };
    let (x, y, t) = (k.of(a), k.of(b), k.of(tol));
    assert(k.of(scalar::negated(one)) == -k.of(one));
    reading::units(y - x, y - x);
    match form {
        Form::Inactive => {},
        Form::OverTolerance => {
            reading::over_alike(y, x, t);
        },
        Form::OverBand => {
            reading::over_alike(y, x, k.of(bw));
        },
        Form::Excess { bw: half } => {
            let h = k.of(half);
            reading::order_reads(k, a, zero);
            reading::order_reads(k, zero, a);
            reading::order_reads(k, b, zero);
            reading::over_alike(size(y) - h, size(x) - h, t);
            reading::over_alike(y - x, over(1real, t), t);
            assert(k.is(num.difference(scalar::absolute(a), half), size(x) - h));
            assert(k.is(num.difference(scalar::absolute(b), half), size(y) - h));
            assert(k.is(
                formula::sign_of(a),
                if x < 0real {
                    -1real
                } else {
                    1real
                },
            ));
        },
        Form::SoftExcess => {},
    }
}

} // verus!
