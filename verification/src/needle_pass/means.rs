//! What a mean asks of its points, and what the terms on one solver point
//! come to together.
use crate::merit::formula;
use crate::merit::kinds;
use crate::merit::kinds::Form;
use crate::merit::sim::SimCurves;
use crate::merit::spec::{MeritKey, MeritTarget};
use crate::merit::ConstraintKind;
use crate::needle_pass::buckets;
use crate::needle_pass::buckets::GradTerm;
use crate::needle_pass::fold;
use crate::needle_pass::fold::{Bucket, Emission, MeanForm, Means};
use crate::numeric::Numeric;
use crate::optics::Optics;
use crate::reading;
use crate::reading::{over, size, times, Reading};
use crate::scalar;
use crate::scalar::Scalar;
use vstd::prelude::*;

verus! {

/// A mean folds to what the merit makes of the means: nothing where the
/// merit's residual of the mean is inactive, else the same form; without an
/// operating point each point is asked for its own target.
pub proof fn a_mean_takes_the_merits_form<A: Numeric>(
    num: A,
    k: Reading,
    kind: ConstraintKind,
    row: usize,
    m: Means,
)
    requires
        reading::exact(num, k),
        m.d.finite() && m.tol.finite() && m.bw.finite(),
        k.of(m.tol) > 0real,
        k.holds(over(k.of(m.d), k.of(m.tol))),
    ensures
        ({
            let merit = kinds::form_of(kind, m.d, m.tol, m.bw);
            match fold::mean_form_of(kind, fold::mean_state(num, Some(row), m), m.tol, m.bw) {
                None => merit is Inactive,
                Some(MeanForm::Centre) => merit is OverTolerance,
                Some(MeanForm::Inside) => merit is OverBand,
                Some(MeanForm::Edge { bw }) => merit == (Form::Excess { bw })
                    || merit is SoftExcess,
                Some(MeanForm::Conservative) => false,
            }
        }),
        fold::mean_form_of(kind, fold::mean_state(num, None::<usize>, m), m.tol, m.bw) == Some(
            MeanForm::Conservative,
        ),
{
    let zero = Scalar { bits: 0 };
    let ratio = num.quotient(m.d, m.tol);
    let (d, t) = (k.of(m.d), k.of(m.tol));
    let q = over(d, t);
    same_side(d, t);
    assert(k.is(ratio, q));
    reading::order_reads(k, ratio, zero);
    reading::order_reads(k, zero, ratio);
    reading::order_reads(k, m.d, zero);
    reading::order_reads(k, zero, m.d);
}

proof fn same_side(d: real, t: real)
    requires
        t > 0real,
    ensures
        over(d, t) > 0real <==> d > 0real,
        over(d, t) < 0real <==> d < 0real,
{
    reading::undone(d, t);
    let q = over(d, t);
    reveal(times);
    assert(t > 0real && q > 0real ==> q * t > 0real) by (nonlinear_arith);
    assert(t > 0real && q < 0real ==> q * t < 0real) by (nonlinear_arith);
    assert(q == 0real ==> q * t == 0real) by (nonlinear_arith);
}

/// The unit that a mean counts in.
pub open spec fn mean_unit(k: Reading, form: MeanForm, m: Means) -> real {
    match form {
        MeanForm::Inside => k.of(m.bw),
        _ => k.of(m.tol),
    }
}

/// How far the mean sticks out of its band, with the sign of the difference.
pub open spec fn sticking_out(k: Reading, d: Scalar, bw: Scalar) -> real {
    if k.of(d) < 0real {
        -(size(k.of(d)) - k.of(bw))
    } else {
        size(k.of(d)) - k.of(bw)
    }
}

/// The numbers that a mean's pair meets on its way can be held.
pub open spec fn mean_pairable(
    k: Reading,
    t: MeritTarget,
    form: MeanForm,
    m: Means,
    target: Scalar,
    s: Scalar,
) -> bool {
    let f = k.of(t.norm_factor);
    let u = mean_unit(k, form, m);
    let n = t.wavelengths@.len() as real;
    let w = k.of(t.weight);
    let top = times(times(w, f), f);
    &&& t.norm_factor.finite() && t.weight.finite() && target.finite() && s.finite()
    &&& m.target.finite() && m.tol.finite() && m.bw.finite() && m.sim.finite() && m.d.finite()
    &&& 0 < t.wavelengths@.len() <= usize::MAX
    &&& f != 0real
    &&& u > 0real
    &&& k.holds(n)
    &&& k.holds(times(w, f))
    &&& k.holds(top)
    &&& k.holds(times(u, u))
    &&& k.holds(times(n, n))
    &&& k.holds(over(top, times(u, u)))
    &&& k.holds(over(over(top, times(u, u)), times(n, n)))
    &&& match form {
        MeanForm::Conservative => k.holds(over(k.of(target), f)),
        MeanForm::Edge { bw } => {
            let e = sticking_out(k, m.d, bw);
            &&& bw.finite()
            &&& k.of(m.d) != 0real
            &&& k.holds(size(k.of(m.d)) - k.of(bw))
            &&& k.holds(e)
            &&& k.holds(over(e, f))
            &&& k.holds(times(n, over(e, f)))
            &&& k.holds(k.of(s) - times(n, over(e, f)))
        },
        _ => {
            let e = k.of(m.sim) - over(k.of(m.target), f);
            &&& k.holds(over(k.of(m.target), f))
            &&& k.holds(e)
            &&& k.holds(times(n, e))
            &&& k.holds(k.of(s) - times(n, e))
        },
    }
}

/// Each point of a mean is asked for the whole excess of the mean, as many
/// times as there are points, at a weight that many times squared smaller: the
/// scaled mean of the simulated values less the mean target, or what sticks
/// out of the band. Without an operating point each is asked for its own
/// target.
pub proof fn a_mean_asks_its_points<A: Numeric>(
    num: A,
    k: Reading,
    t: MeritTarget,
    form: MeanForm,
    m: Means,
    target: Scalar,
    s: Scalar,
)
    requires
        reading::exact(num, k),
        mean_pairable(k, t, form, m, target, s),
    ensures
        ({
            let pair = fold::mean_pair(num, t, form, m, target, s);
            let f = k.of(t.norm_factor);
            let u = mean_unit(k, form, m);
            let n = t.wavelengths@.len() as real;
            let asked = times(k.of(s) - k.of(pair.0), f);
            &&& pair.0.finite() && pair.1.finite()
            &&& match form {
                MeanForm::Conservative => times(k.of(pair.0), f) == k.of(target),
                MeanForm::Edge { bw } => asked == times(n, sticking_out(k, m.d, bw)),
                _ => asked == times(n, times(k.of(m.sim), f) - k.of(m.target)),
            }
            &&& times(times(k.of(pair.1), times(n, n)), times(u, u)) == times(
                k.of(t.weight),
                times(f, f),
            )
        }),
{
    let f = k.of(t.norm_factor);
    let u = mean_unit(k, form, m);
    let n = t.wavelengths@.len() as real;
    let w = k.of(t.weight);
    let top = times(times(w, f), f);
    let ns = num.whole(t.wavelengths@.len() as usize);
    assert(k.is(ns, n));
    let uu = times(u, u);
    let nn = times(n, n);
    reading::squared(u);
    reading::squared(n);
    reading::undone(top, uu);
    reading::undone(over(top, uu), nn);
    reading::regrouped(w, f, f);
    let us = match form {
        MeanForm::Inside => m.bw,
        _ => m.tol,
    };
    assert(k.is(num.product(us, us), uu));
    assert(k.is(num.product(ns, ns), nn));
    assert(k.is(num.product(t.weight, t.norm_factor), times(w, f)));
    assert(k.is(num.product(num.product(t.weight, t.norm_factor), t.norm_factor), top));
    let pair = fold::mean_pair(num, t, form, m, target, s);
    assert(k.is(pair.1, over(over(top, uu), nn)));
    match form {
        MeanForm::Conservative => {
            reading::undone(k.of(target), f);
        },
        MeanForm::Edge { bw } => {
            let zero = Scalar { bits: 0 };
            let one = Scalar { bits: 0x3FF0_0000_0000_0000 };
            reading::order_reads(k, m.d, zero);
            reading::order_reads(k, zero, m.d);
            assert(k.of(scalar::negated(one)) == -k.of(one));
            let out = num.difference(scalar::absolute(m.d), bw);
            assert(k.is(out, size(k.of(m.d)) - k.of(bw)));
            reading::units(k.of(out), k.of(out));
            let e = sticking_out(k, m.d, bw);
            assert(k.is(num.product(formula::sign_of(m.d), out), e));
            reading::undone(e, f);
            reading::regrouped(n, over(e, f), f);
        },
        _ => {
            let q = over(k.of(m.target), f);
            let e = k.of(m.sim) - q;
            reading::undone(k.of(m.target), f);
            reading::spread_out(k.of(m.sim), q, f);
            reading::regrouped(n, e, f);
            assert(k.is(num.quotient(m.target, t.norm_factor), q));
            assert(k.is(num.difference(m.sim, num.quotient(m.target, t.norm_factor)), e));
        },
    }
}

/// A gain shift is minus twice the passes' wavenumber, times the weight, times
/// how far the value lies from its goal.
pub proof fn a_gain_pulls_towards_the_goal<A: Numeric, O: Optics>(
    num: A,
    ph: O,
    k: Reading,
    sim: &SimCurves,
    key: MeritKey,
    passes: Scalar,
    w: Scalar,
    pair: (Scalar, Scalar),
    s: Scalar,
)
    requires
        reading::exact(num, k),
        passes.finite() && pair.0.finite() && pair.1.finite() && s.finite(),
        ({
            let kz = ph.wavenumber(
                w,
                if key.curve.back() {
                    sim.n_back_re
                } else {
                    sim.n_front_re
                },
                key.angle,
            );
            let c = times(k.of(passes), k.of(kz));
            &&& kz.finite()
            &&& k.holds(c)
            &&& k.holds(times(-2real, c))
            &&& k.holds(times(times(-2real, c), k.of(pair.1)))
            &&& k.holds(k.of(s) - k.of(pair.0))
            &&& k.holds(times(times(times(-2real, c), k.of(pair.1)), k.of(s) - k.of(pair.0)))
        }),
    ensures
        ({
            let kz = ph.wavenumber(
                w,
                if key.curve.back() {
                    sim.n_back_re
                } else {
                    sim.n_front_re
                },
                key.angle,
            );
            let c = times(k.of(passes), k.of(kz));
            k.is(
                fold::gain_of(num, ph, sim, key, passes, w, pair, s),
                times(times(times(-2real, c), k.of(pair.1)), k.of(s) - k.of(pair.0)),
            )
        }),
{
    let kz = ph.wavenumber(w, formula::incidence(sim, key.curve), key.angle);
    let two = Scalar { bits: 0x4000_0000_0000_0000 };
    let minus = Scalar { bits: 0xC000_0000_0000_0000 };
    assert(minus == scalar::negated(two));
    assert(k.of(scalar::negated(two)) == -k.of(two));
    let c = times(k.of(passes), k.of(kz));
    assert(k.is(num.product(passes, kz), c));
    assert(k.is(num.product(minus, num.product(passes, kz)), times(-2real, c)));
}

/// The weights of the first `n` terms that fall on a solver point.
pub open spec fn weight_on(k: Reading, es: Seq<Emission>, b: Bucket, at: int, n: int) -> real
    decreases n,
{
    if n <= 0 {
        0real
    } else if es[n - 1].bucket == b && es[n - 1].k == at {
        weight_on(k, es, b, at, n - 1) + k.of(es[n - 1].weight)
    } else {
        weight_on(k, es, b, at, n - 1)
    }
}

/// Their goals, each times its weight.
pub open spec fn moment_on(k: Reading, es: Seq<Emission>, b: Bucket, at: int, n: int) -> real
    decreases n,
{
    if n <= 0 {
        0real
    } else if es[n - 1].bucket == b && es[n - 1].k == at {
        moment_on(k, es, b, at, n - 1) + times(k.of(es[n - 1].weight), k.of(es[n - 1].target))
    } else {
        moment_on(k, es, b, at, n - 1)
    }
}

/// The terms' weights and goals, and their sums, can be held.
pub open spec fn gatherable(k: Reading, es: Seq<Emission>, b: Bucket, at: int) -> bool {
    &&& forall|i: int|
        0 <= i < es.len() ==> (#[trigger] es[i]).weight.finite() && es[i].target.finite()
            && k.holds(times(k.of(es[i].weight), k.of(es[i].target)))
    &&& forall|i: int|
        0 <= i <= es.len() ==> k.holds(#[trigger] weight_on(k, es, b, at, i)) && k.holds(
            moment_on(k, es, b, at, i),
        )
}

proof fn sums_gather<A: Numeric>(
    num: A,
    k: Reading,
    es: Seq<Emission>,
    b: Bucket,
    at: int,
    n: int,
)
    requires
        reading::exact(num, k),
        gatherable(k, es, b, at),
        0 <= n <= es.len(),
    ensures
        k.is(
            buckets::summed(num, es, buckets::weights(es), b, at, n),
            weight_on(k, es, b, at, n),
        ),
        k.is(
            buckets::summed(num, es, buckets::products(num, es), b, at, n),
            moment_on(k, es, b, at, n),
        ),
    decreases n,
{
    let ws = buckets::weights(es);
    let ps = buckets::products(num, es);
    if n > 0 {
        sums_gather(num, k, es, b, at, n - 1);
        let e = es[n - 1];
        assert(e.weight.finite());
        assert(k.holds(weight_on(k, es, b, at, n)));
        assert(ws[n - 1] == e.weight);
        assert(ps[n - 1] == num.product(e.weight, e.target));
        if e.bucket == b && e.k == at {
            let before = buckets::picked(es, ws, b, at, n - 1);
            let earlier = buckets::picked(es, ps, b, at, n - 1);
            formula::tally_goes_on(num, before, ws[n - 1]);
            formula::tally_goes_on(num, earlier, ps[n - 1]);
        }
    }
}

/// The terms on one solver point act together: their joint weight is the sum
/// of the weights, and the joint goal times that weight is the sum of the
/// goals, each by its weight. Terms elsewhere do not count.
pub proof fn terms_act_together<A: Numeric>(
    num: A,
    k: Reading,
    es: Seq<Emission>,
    b: Bucket,
    at: int,
)
    requires
        reading::exact(num, k),
        gatherable(k, es, b, at),
        ({
            let w = weight_on(k, es, b, at, es.len() as int);
            w > 0real ==> k.holds(over(moment_on(k, es, b, at, es.len() as int), w))
        }),
    ensures
        ({
            let n = es.len() as int;
            let w = weight_on(k, es, b, at, n);
            let t = k.of(buckets::joint_target(num, es, b, at));
            &&& k.is(buckets::joint_weight(num, es, b, at), w)
            &&& if w > 0real {
                times(t, w) == moment_on(k, es, b, at, n)
            } else {
                t == moment_on(k, es, b, at, n)
            }
        }),
{
    let n = es.len() as int;
    sums_gather(num, k, es, b, at, n);
    let zero = Scalar { bits: 0 };
    let ws = buckets::joint_weight(num, es, b, at);
    reading::order_reads(k, zero, ws);
    let w = weight_on(k, es, b, at, n);
    if w > 0real {
        reading::undone(moment_on(k, es, b, at, n), w);
    }
}

/// The color terms of the first `n` that fall on a solver point.
pub open spec fn gradient_on(
    k: Reading,
    gs: Seq<GradTerm>,
    reflect: bool,
    at: int,
    n: int,
) -> real
    decreases n,
{
    if n <= 0 {
        0real
    } else if gs[n - 1].reflect == reflect && gs[n - 1].k == at {
        gradient_on(k, gs, reflect, at, n - 1) + k.of(gs[n - 1].value)
    } else {
        gradient_on(k, gs, reflect, at, n - 1)
    }
}

/// The color terms on one side of a solver point add up; terms elsewhere do
/// not count.
pub proof fn color_terms_add_up<A: Numeric>(
    num: A,
    k: Reading,
    gs: Seq<GradTerm>,
    reflect: bool,
    at: int,
    n: int,
)
    requires
        reading::exact(num, k),
        0 <= n <= gs.len(),
        forall|i: int| 0 <= i < gs.len() ==> (#[trigger] gs[i]).value.finite(),
        forall|i: int|
            0 <= i <= gs.len() ==> k.holds(#[trigger] gradient_on(k, gs, reflect, at, i)),
    ensures
        k.is(buckets::grad_sum(num, gs, reflect, at, n), gradient_on(k, gs, reflect, at, n)),
    decreases n,
{
    if n > 0 {
        color_terms_add_up(num, k, gs, reflect, at, n - 1);
        let g = gs[n - 1];
        assert(g.value.finite());
        assert(k.holds(gradient_on(k, gs, reflect, at, n)));
        if g.reflect == reflect && g.k == at {
            formula::tally_goes_on(num, buckets::grads_at(gs, reflect, at, n - 1), g.value);
        }
    }
}

/// The gain shifts of the first `n` terms on an element.
pub open spec fn shift_on(k: Reading, es: Seq<Emission>, ch: usize, n: int) -> real
    decreases n,
{
    if n <= 0 {
        0real
    } else if es[n - 1].shift is Some && es[n - 1].bucket == (Bucket::Phi { ch }) {
        shift_on(k, es, ch, n - 1) + k.of(es[n - 1].shift->0)
    } else {
        shift_on(k, es, ch, n - 1)
    }
}

proof fn shifts_gather<A: Numeric>(num: A, k: Reading, es: Seq<Emission>, ch: usize, n: int)
    requires
        reading::exact(num, k),
        0 <= n <= es.len(),
        forall|i: int|
            0 <= i < es.len() && (#[trigger] es[i]).shift is Some ==> es[i].shift->0.finite(),
        forall|i: int| 0 <= i <= es.len() ==> k.holds(#[trigger] shift_on(k, es, ch, i)),
    ensures
        ({
            let xs = buckets::shifts(es, ch, n);
            k.is(formula::tally(num, xs, xs.len() as int), shift_on(k, es, ch, n))
        }),
    decreases n,
{
    if n > 0 {
        shifts_gather(num, k, es, ch, n - 1);
        let e = es[n - 1];
        assert(k.holds(shift_on(k, es, ch, n)));
        if e.shift is Some && e.bucket == (Bucket::Phi { ch }) {
            assert(e.shift->0.finite());
            formula::tally_goes_on(num, buckets::shifts(es, ch, n - 1), e.shift->0);
        }
    }
}

/// The gain shifts of an element add up over its terms.
pub proof fn gain_shifts_add_up<A: Numeric>(num: A, k: Reading, es: Seq<Emission>, ch: usize)
    requires
        reading::exact(num, k),
        forall|i: int|
            0 <= i < es.len() && (#[trigger] es[i]).shift is Some ==> es[i].shift->0.finite(),
        forall|i: int| 0 <= i <= es.len() ==> k.holds(#[trigger] shift_on(k, es, ch, i)),
    ensures
        k.is(buckets::shift_sum(num, es, ch), shift_on(k, es, ch, es.len() as int)),
{
    shifts_gather(num, k, es, ch, es.len() as int);
}

} // verus!
