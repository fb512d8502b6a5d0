//! What the formulas of the trust region mean over real numbers: parabolas,
//! their vertex, crossings of the sphere, ratios and radii.
use crate::numeric;
use crate::numeric::Numeric;
use crate::reading;
use crate::reading::products;
use crate::reading::{over, times, Reading};
use crate::scalar;
use crate::scalar::Scalar;
use crate::trf::quadratic;
use vstd::prelude::*;

verus! {

/// A parabola is worked out by its coefficients.
pub proof fn a_parabola_has_its_coefficients<A: Numeric>(
    num: A,
    k: Reading,
    a: Scalar,
    b: Scalar,
    c: Scalar,
    t: Scalar,
)
    requires
        reading::exact(num, k),
        a.finite() && b.finite() && c.finite() && t.finite(),
        k.holds(times(k.of(a), k.of(t))),
        k.holds(times(k.of(a), k.of(t)) + k.of(b)),
        k.holds(times(k.of(t), times(k.of(a), k.of(t)) + k.of(b))),
        k.holds(times(k.of(t), times(k.of(a), k.of(t)) + k.of(b)) + k.of(c)),
    ensures
        k.is(
            quadratic::parabola(num, a, b, c, t),
            times(k.of(t), times(k.of(a), k.of(t)) + k.of(b)) + k.of(c),
        ),
{
    assert(k.is(num.product(a, t), times(k.of(a), k.of(t))));
    assert(k.is(num.sum(num.product(a, t), b), times(k.of(a), k.of(t)) + k.of(b)));
}

proof fn halved(h: real, v: real, half: real)
    requires
        h * 2real == 1real,
        half * 2real == v,
    ensures
        times(-h, v) == -half,
{
    reading::spread_out(half, half, -h);
    reading::spread_out(-h, -h, half);
    reading::units(half, half);
}

/// At its vertex a parabola is flat: the slope `2 a t + b` vanishes there.
pub proof fn a_parabola_is_flat_at_its_vertex<A: Numeric>(
    num: A,
    k: Reading,
    a: Scalar,
    b: Scalar,
    half: real,
)
    requires
        reading::exact(num, k),
        a.finite() && b.finite(),
        k.of(a) != 0real,
        half * 2real == k.of(b),
        k.holds(-half),
        k.holds(over(-half, k.of(a))),
    ensures
        times(k.of(quadratic::vertex(num, a, b)), k.of(a)) * 2real + k.of(b) == 0real,
{
    let halves = Scalar { bits: 0x3FE0_0000_0000_0000 };
    let minus = Scalar { bits: 0xBFE0_0000_0000_0000 };
    assert(minus == scalar::negated(halves));
    assert(k.of(scalar::negated(halves)) == -k.of(halves));
    let h = k.of(halves);
    let v = k.of(b);
    halved(h, v, half);
    assert(k.is(num.product(minus, b), -half));
    reading::undone(-half, k.of(a));
}

/// A number solves the equation of the crossings, `a t t + 2 b t + c = 0`.
pub open spec fn solves(a: real, b: real, c: real, t: real) -> bool {
    times(times(a, t), t) + times(2real * b, t) + c == 0real
}

proof fn one_root(a: real, b: real, c: real, p: real, q: real, t: real)
    requires
        a != 0real,
        times(p, p) == times(b, b) - times(a, c),
        q == -(b + p),
        times(t, a) == q,
    ensures
        times(q, q) + times(2real * b, q) + times(a, c) == 0real,
        solves(a, b, c, t),
{
    // q q = b b + 2 b p + p p, and 2 b q = - 2 b b - 2 b p.
    let z = b + p;
    reading::over_alike(z, -z, 1real);
    reading::over_alike(z, z, 1real);
    assert(times(-z, -z) == times(z, z));
    reading::spread_out(b, p, z);
    reading::spread_out(b, p, b);
    reading::spread_out(b, p, p);
    reading::units(b, p);
    reading::units(p, z);
    reading::units(b, z);
    let two = 2real * b;
    reading::spread_out(b, b, q);
    reading::over_alike(b, z, 1real);
    assert(times(two, q) == times(b, q) + times(b, q));
    assert(times(b, q) == -times(b, z));
    // Times a, the equation at t is the equation of q.
    let e = times(times(a, t), t) + times(two, t) + c;
    reading::units(t, a);
    reading::spread_out(times(times(a, t), t) + times(two, t), c, a);
    reading::spread_out(times(times(a, t), t), times(two, t), a);
    reading::regrouped(q, t, a);
    reading::regrouped(two, t, a);
    reading::units(a, times(times(a, t), t));
    reading::units(a, times(two, t));
    reading::units(a, c);
    reading::units(a, e);
    assert(times(e, a) == 0real);
    reading::units(a, a);
    reading::divided_out(e, 0real, a);
}

proof fn other_root(a: real, b: real, c: real, q: real, t: real)
    requires
        q != 0real,
        times(q, q) + times(2real * b, q) + times(a, c) == 0real,
        times(t, q) == c,
    ensures
        solves(a, b, c, t),
{
    let two = 2real * b;
    let e = times(times(a, t), t) + times(two, t) + c;
    // Times q, the equation at t is t times the equation of q.
    reading::spread_out(times(times(a, t), t) + times(two, t), c, q);
    reading::spread_out(times(times(a, t), t), times(two, t), q);
    reading::regrouped(times(a, t), t, q);
    reading::regrouped(two, t, q);
    reading::regrouped(two, q, t);
    reading::regrouped(a, t, c);
    reading::regrouped(a, c, t);
    reading::regrouped(t, q, q);
    reading::units(t, times(q, q));
    reading::spread_out(times(q, q) + times(two, q), times(a, c), t);
    reading::spread_out(times(q, q), times(two, q), t);
    reading::units(t, t);
    assert(times(times(a, c), t) + times(times(two, q), t) + times(times(q, q), t) == 0real);
    assert(times(e, q) == 0real);
    reading::units(q, q);
    reading::divided_out(e, 0real, q);
}

/// A ray crosses the sphere where it is as far out as the radius: both
/// crossings solve the equation of the squared distance.
pub proof fn crossings_lie_on_the_sphere<A: Numeric>(
    num: A,
    k: Reading,
    x: Seq<Scalar>,
    s: Seq<Scalar>,
    delta: Scalar,
    root: real,
)
    requires
        reading::exact(num, k),
        delta.finite(),
        products::multipliable(k, s, s),
        products::multipliable(k, x, s),
        products::multipliable(k, x, x),
        ({
            let n = x.len() as int;
            let a = products::multiply_up(k, s, s, n);
            let b = products::multiply_up(k, x, s, n);
            let xx = products::multiply_up(k, x, x, n);
            let dd = times(k.of(delta), k.of(delta));
            let c = xx - dd;
            let disc = times(b, b) - times(a, c);
            let p = if b < 0real {
                -root
            } else {
                root
            };
            let q = -(b + p);
            &&& k.holds(dd)
            &&& k.holds(c)
            &&& k.holds(times(b, b))
            &&& k.holds(times(a, c))
            &&& k.holds(disc)
            &&& disc >= 0real ==> root >= 0real && times(root, root) == disc && k.holds(root)
            &&& k.holds(-root)
            &&& k.holds(b + p)
            &&& q != 0real
            &&& a != 0real
            &&& k.holds(over(q, a))
            &&& k.holds(over(c, q))
            // The sign bit of the inner product is that of its value.
            &&& numeric::dot_of(num, x, s).negative() <==> b < 0real
        }),
    ensures
        ({
            let n = x.len() as int;
            let a = products::multiply_up(k, s, s, n);
            let b = products::multiply_up(k, x, s, n);
            let c = products::multiply_up(k, x, x, n) - times(k.of(delta), k.of(delta));
            match quadratic::crossings(num, x, s, delta) {
                Some((t1, t2)) => {
                    &&& solves(a, b, c, k.of(t1))
                    &&& solves(a, b, c, k.of(t2))
                    &&& k.of(t1) <= k.of(t2)
                },
                None => c > 0real || times(b, b) - times(a, c) < 0real,
            }
        }),
{
    let n = x.len() as int;
    let zero = Scalar { bits: 0 };
    products::an_inner_product_adds_up(num, k, s, s, n);
    products::an_inner_product_adds_up(num, k, x, s, n);
    products::an_inner_product_adds_up(num, k, x, x, n);
    let a_s = numeric::dot_of(num, s, s);
    let b_s = numeric::dot_of(num, x, s);
    let xx_s = numeric::dot_of(num, x, x);
    let a = k.of(a_s);
    let b = k.of(b_s);
    let dd_s = num.product(delta, delta);
    let c_s = num.difference(xx_s, dd_s);
    let c = k.of(c_s);
    assert(k.is(dd_s, times(k.of(delta), k.of(delta))));
    assert(c_s.finite());
    let bb_s = num.product(b_s, b_s);
    let ac_s = num.product(a_s, c_s);
    assert(k.is(bb_s, times(b, b)));
    assert(k.is(ac_s, times(a, c)));
    let disc_s = num.difference(bb_s, ac_s);
    assert(k.is(disc_s, times(b, b) - times(a, c)));
    reading::order_reads(k, a_s, zero);
    reading::order_reads(k, zero, c_s);
    reading::order_reads(k, disc_s, zero);
    if c <= 0real && times(b, b) - times(a, c) >= 0real {
        let r_s = num.square_root(disc_s);
        assert(k.is(r_s, root));
        reading::order_reads(k, r_s, zero);
        let m = scalar::absolute(r_s);
        assert(k.of(m) == root);
        assert(k.of(scalar::negated(m)) == -k.of(m));
        let p_s = scalar::signed_as(r_s, b_s);
        let p = if b < 0real {
            -root
        } else {
            root
        };
        assert(k.is(p_s, p));
        reading::over_alike(root, -root, 1real);
        reading::over_alike(root, root, 1real);
        assert(times(p, p) == times(b, b) - times(a, c));
        let sum_s = num.sum(b_s, p_s);
        assert(k.is(sum_s, b + p));
        assert(k.of(scalar::negated(sum_s)) == -k.of(sum_s));
        let q_s = scalar::negated(sum_s);
        let q = -(b + p);
        assert(k.is(q_s, q));
        let t1 = num.quotient(q_s, a_s);
        let t2 = num.quotient(c_s, q_s);
        assert(k.is(t1, over(q, a)));
        assert(k.is(t2, over(c, q)));
        reading::undone(q, a);
        reading::undone(c, q);
        one_root(a, b, c, p, q, over(q, a));
        other_root(a, b, c, q, over(c, q));
        reading::order_reads(k, t1, t2);
    }
}

/// The ratio of a step is the obtained share of what was promised.
pub proof fn a_ratio_is_the_obtained_share<A: Numeric>(
    num: A,
    k: Reading,
    actual: Scalar,
    predicted: Scalar,
)
    requires
        reading::exact(num, k),
        actual.finite() && predicted.finite(),
        k.of(predicted) > 0real ==> k.holds(over(k.of(actual), k.of(predicted))),
    ensures
        ({
            let r = k.of(quadratic::reduction_ratio(num, actual, predicted));
            if k.of(predicted) > 0real {
                times(r, k.of(predicted)) == k.of(actual)
            } else if k.of(predicted) == 0real && k.of(actual) == 0real {
                r == 1real
            } else {
                r == 0real
            }
        }),
{
    let zero = Scalar { bits: 0 };
    reading::order_reads(k, zero, predicted);
    reading::order_reads(k, predicted, zero);
    reading::order_reads(k, actual, zero);
    if k.of(predicted) > 0real {
        reading::undone(k.of(actual), k.of(predicted));
    }
}

/// The radius shrinks to a quarter of a bad step, doubles after a good one
/// that pressed against it, and stays otherwise.
pub proof fn a_radius_follows_the_ratio<A: Numeric>(
    num: A,
    k: Reading,
    delta: Scalar,
    ratio: Scalar,
    step: Scalar,
    hit: bool,
)
    requires
        reading::exact(num, k),
        delta.finite() && ratio.finite() && step.finite(),
        k.of(Scalar { bits: 0x3fd0_0000_0000_0000 }) * 4real == 1real,
        k.of(Scalar { bits: 0x3fe8_0000_0000_0000 }) * 4real == 3real,
        k.holds(times(k.of(Scalar { bits: 0x3fd0_0000_0000_0000 }), k.of(step))),
        k.holds(k.of(delta) * 2real),
    ensures
        ({
            let next = k.of(quadratic::next_radius(num, delta, ratio, step, hit));
            if k.of(ratio) * 4real < 1real {
                next * 4real == k.of(step)
            } else if k.of(ratio) * 4real > 3real && hit {
                next == k.of(delta) * 2real
            } else {
                next == k.of(delta)
            }
        }),
{
    let quarter = Scalar { bits: 0x3fd0_0000_0000_0000 };
    let most = Scalar { bits: 0x3fe8_0000_0000_0000 };
    reading::order_reads(k, ratio, quarter);
    reading::order_reads(k, most, ratio);
    let q = k.of(quarter);
    let s = k.of(step);
    reading::spread_out(q, q, s);
    reading::spread_out(q + q, q + q, s);
    reading::units(s, s);
    assert(k.is(num.product(quarter, step), times(q, s)));
    let two = Scalar { bits: 0x4000_0000_0000_0000 };
    let d = k.of(delta);
    reading::spread_out(1real, 1real, d);
    reading::units(d, 2real);
    reading::units(d, d);
    assert(k.is(num.product(delta, two), d * 2real));
}

} // verus!
