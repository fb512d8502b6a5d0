//! Bounded and unbounded coordinates: the box and the whole line.
use crate::numeric;
use crate::numeric::Numeric;
use crate::optimizer::interval;
use crate::optimizer::interval::IntervalMap;
use crate::reading;
use crate::reading::{over, size, times, Reading};
use crate::scalar;
use crate::scalar::Scalar;
use vstd::prelude::*;

verus! {

/// The middle of an interval less its half width is the lower end, and with it
/// the upper end.
pub proof fn a_middle_and_a_half_width_give_the_ends<A: Numeric>(
    num: A,
    k: Reading,
    lo: Seq<Scalar>,
    hi: Seq<Scalar>,
    i: int,
)
    requires
        reading::exact(num, k),
        lo.len() == hi.len(),
        0 <= i < lo.len(),
        lo[i].finite() && hi[i].finite(),
        ({
            let half = k.of(Scalar { bits: 0x3FE0_0000_0000_0000 });
            &&& k.holds(k.of(lo[i]) + k.of(hi[i]))
            &&& k.holds(k.of(hi[i]) - k.of(lo[i]))
            &&& k.holds(times(half, k.of(lo[i]) + k.of(hi[i])))
            &&& k.holds(times(half, k.of(hi[i]) - k.of(lo[i])))
        }),
    ensures
        ({
            let m = k.of(interval::middles(num, lo, hi)[i]);
            let h = k.of(interval::half_widths(num, lo, hi)[i]);
            &&& m - h == k.of(lo[i])
            &&& m + h == k.of(hi[i])
        }),
{
    let half = k.of(Scalar { bits: 0x3FE0_0000_0000_0000 });
    let (a, b) = (k.of(lo[i]), k.of(hi[i]));
    reading::spread_out(a, b, half);
    reading::spread_out(b, a, half);
    reading::spread_out(half, half, a);
    reading::spread_out(half, half, b);
    reading::units(a, b);
    reading::units(b, a);
    assert(half + half == 1real);
}

/// A bounded coordinate lies in its interval: as far from the middle as the
/// hyperbolic tangent says, in half widths.
pub proof fn a_bounded_coordinate_stays_within<A: Numeric, T: Fn(Scalar) -> Scalar>(
    num: A,
    k: Reading,
    map: IntervalMap,
    tanh: T,
    u: Seq<Scalar>,
    i: int,
)
    requires
        reading::exact(num, k),
        0 <= i < u.len(),
        u.len() == map.mids().len(),
        map.wf(),
        map.mids()[i].finite() && map.halves()[i].finite(),
        k.of(map.halves()[i]) >= 0real,
        ({
            let t = numeric::image_of(tanh, u[i]);
            &&& t.finite()
            &&& size(k.of(t)) <= 1real
            &&& k.holds(times(k.of(map.halves()[i]), k.of(t)))
            &&& k.holds(k.of(map.mids()[i]) + times(k.of(map.halves()[i]), k.of(t)))
        }),
    ensures
        ({
            let t = k.of(numeric::image_of(tanh, u[i]));
            let x = k.of(map.bounded(num, tanh, u)[i]);
            let m = k.of(map.mids()[i]);
            let h = k.of(map.halves()[i]);
            &&& x - m == times(h, t)
            &&& m - h <= x <= m + h
        }),
{
    let t = numeric::image_of(tanh, u[i]);
    within(k.of(map.halves()[i]), k.of(t));
}

proof fn within(h: real, t: real)
    requires
        h >= 0real,
        size(t) <= 1real,
    ensures
        -h <= times(h, t) <= h,
{
    reveal(times);
    assert(h * t <= h) by (nonlinear_arith)
        requires
            h >= 0real,
            t <= 1real,
    ;
    assert(-h <= h * t) by (nonlinear_arith)
        requires
            h >= 0real,
            t >= -1real,
    ;
}

/// A bounded point is found again: where the two functions undo each other and
/// the coordinate is not saturated, going out to the line and back gives the
/// coordinate.
pub proof fn a_coordinate_is_found_again<
    A: Numeric,
    T: Fn(Scalar) -> Scalar,
    U: Fn(Scalar) -> Scalar,
>(num: A, k: Reading, map: IntervalMap, tanh: T, atanh: U, i: int, x: Scalar)
    requires
        reading::exact(num, k),
        0 <= i < map.mids().len(),
        map.wf(),
        x.finite() && map.mids()[i].finite() && map.halves()[i].finite(),
        k.of(map.halves()[i]) > 0real,
        forall|y: Scalar| #[trigger]
            numeric::image_of(tanh, numeric::image_of(atanh, y)) == y,
        ({
            let clamp = k.of(Scalar { bits: 0x3fef_ffff_ffff_ffa6 });
            let away = k.of(x) - k.of(map.mids()[i]);
            let part = over(away, k.of(map.halves()[i]));
            &&& k.holds(away)
            &&& k.holds(part)
            &&& -clamp <= part <= clamp
            &&& k.holds(times(k.of(map.halves()[i]), part))
        }),
    ensures
        ({
            let u = map.unbounded_at(num, atanh, i, x);
            let t = numeric::image_of(tanh, u);
            k.is(
                num.sum(map.mids()[i], num.product(map.halves()[i], t)),
                k.of(x),
            )
        }),
{
    let zero = Scalar { bits: 0 };
    let clamp = Scalar { bits: 0x3fef_ffff_ffff_ffa6 };
    let m = map.mids()[i];
    let h = map.halves()[i];
    reading::order_reads(k, h, zero);
    let q = num.quotient(num.difference(x, m), h);
    let away = k.of(x) - k.of(m);
    assert(k.is(num.difference(x, m), away));
    assert(k.is(q, over(away, k.of(h))));
    assert(k.of(scalar::negated(clamp)) == -k.of(clamp));
    assert(scalar::negated(clamp).finite());
    reading::order_reads(k, q, scalar::negated(clamp));
    reading::order_reads(k, clamp, q);
    assert(scalar::confined(q, scalar::negated(clamp), clamp) == q);
    reading::undone(away, k.of(h));
    reading::units(k.of(h), over(away, k.of(h)));
    assert(k.holds(k.of(x)));
    assert(k.is(num.product(h, q), away));
}

/// The slope of a bounded coordinate is its half width over the square of the
/// hyperbolic cosine.
pub proof fn a_slope_is_the_half_width_over_the_square<A: Numeric, C: Fn(Scalar) -> Scalar>(
    num: A,
    k: Reading,
    map: IntervalMap,
    cosh: C,
    i: int,
    u: Scalar,
)
    requires
        reading::exact(num, k),
        0 <= i < map.halves().len(),
        map.halves()[i].finite(),
        ({
            let c = numeric::image_of(cosh, u);
            &&& c.finite()
            &&& k.of(c) != 0real
            &&& k.holds(times(k.of(c), k.of(c)))
            &&& k.holds(over(k.of(map.halves()[i]), times(k.of(c), k.of(c))))
        }),
    ensures
        ({
            let c = k.of(numeric::image_of(cosh, u));
            times(k.of(map.slope_at(num, cosh, i, u)), times(c, c)) == k.of(map.halves()[i])
        }),
{
    let c = numeric::image_of(cosh, u);
    reading::squared(k.of(c));
    reading::undone(k.of(map.halves()[i]), times(k.of(c), k.of(c)));
}

} // verus!
