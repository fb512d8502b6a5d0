//! How far a box reaches, and that the model on a line is the model.
use crate::numeric;
use crate::numeric::Numeric;
use crate::reading;
use crate::reading::products;
use crate::reading::{over, times, Reading};
use crate::scalar;
use crate::scalar::Scalar;
use crate::trf::geometry;
use crate::trf::quadratic;
use vstd::prelude::*;

verus! {

proof fn signs(p: real, q: real)
    requires
        q != 0real,
    ensures
        p >= 0real && q > 0real ==> over(p, q) >= 0real,
        p <= 0real && q > 0real ==> over(p, q) <= 0real,
        p >= 0real && q < 0real ==> over(p, q) <= 0real,
        p <= 0real && q < 0real ==> over(p, q) >= 0real,
{
    reading::undone(p, q);
    let r = over(p, q);
    reveal(times);
    assert(r > 0real && q > 0real ==> r * q > 0real) by (nonlinear_arith);
    assert(r < 0real && q > 0real ==> r * q < 0real) by (nonlinear_arith);
    assert(r > 0real && q < 0real ==> r * q < 0real) by (nonlinear_arith);
    assert(r < 0real && q < 0real ==> r * q > 0real) by (nonlinear_arith);
}

/// The room of a coordinate ends on the bound that the step heads for: times
/// the step, it is the distance to the upper bound for a rising step and to
/// the lower one for a falling step.
pub proof fn room_ends_on_the_bound<A: Numeric>(
    num: A,
    k: Reading,
    x: Scalar,
    s: Scalar,
    lo: Scalar,
    hi: Scalar,
)
    requires
        reading::exact(num, k),
        x.finite() && s.finite() && lo.finite() && hi.finite(),
        k.of(s) != 0real,
        k.of(lo) <= k.of(x) <= k.of(hi),
        k.of(lo) < k.of(hi),
        k.holds(k.of(lo) - k.of(x)),
        k.holds(k.of(hi) - k.of(x)),
        k.holds(over(k.of(lo) - k.of(x), k.of(s))),
        k.holds(over(k.of(hi) - k.of(x), k.of(s))),
    ensures
        ({
            let t = k.of(geometry::room(num, x, s, lo, hi));
            &&& t >= 0real
            &&& times(t, k.of(s)) == (if k.of(s) > 0real {
                k.of(hi) - k.of(x)
            } else {
                k.of(lo) - k.of(x)
            })
        }),
{
    let zero = Scalar { bits: 0 };
    reading::order_reads(k, s, zero);
    let below = k.of(lo) - k.of(x);
    let above = k.of(hi) - k.of(x);
    let q = k.of(s);
    signs(below, q);
    signs(above, q);
    reading::undone(below, q);
    reading::undone(above, q);
    reading::units(q, q);
    let a = num.quotient(num.difference(lo, x), s);
    let b = num.quotient(num.difference(hi, x), s);
    assert(k.is(num.difference(lo, x), below));
    assert(k.is(num.difference(hi, x), above));
    assert(k.is(a, over(below, q)));
    assert(k.is(b, over(above, q)));
    reading::order_reads(k, a, b);
}

/// The least entry is not above any other.
pub proof fn the_least_is_not_above(xs: Seq<Scalar>, n: int)
    requires
        0 <= n <= xs.len(),
        forall|i: int| 0 <= i < n ==> !(#[trigger] xs[i]).nan(),
    ensures
        !geometry::least_upto(xs, n).nan(),
        forall|i: int| 0 <= i < n ==> scalar::at_most(geometry::least_upto(xs, n), #[trigger] xs[i]),
    decreases n,
{
    if n > 0 {
        the_least_is_not_above(xs, n - 1);
        assert(!xs[n - 1].nan());
    }
}

/// The scaling of a coordinate is its distance to the bound that the descent
/// heads for, with the slope of that distance; one and flat where it heads for
/// none.
pub proof fn a_scaling_is_the_distance_ahead<A: Numeric>(
    num: A,
    k: Reading,
    x: Scalar,
    g: Scalar,
    lo: Scalar,
    hi: Scalar,
)
    requires
        reading::exact(num, k),
        x.finite() && g.finite(),
        hi.finite() ==> k.holds(k.of(hi) - k.of(x)),
        lo.finite() ==> k.holds(k.of(x) - k.of(lo)),
    ensures
        ({
            let r = geometry::bound_distance(num, x, g, lo, hi);
            if k.of(g) < 0real && hi.finite() {
                k.is(r.0, k.of(hi) - k.of(x)) && k.is(r.1, -1real)
            } else if k.of(g) > 0real && lo.finite() {
                k.is(r.0, k.of(x) - k.of(lo)) && k.is(r.1, 1real)
            } else {
                k.is(r.0, 1real) && k.is(r.1, 0real)
            }
        }),
{
    let zero = Scalar { bits: 0 };
    let one = Scalar { bits: 0x3FF0_0000_0000_0000 };
    let minus = Scalar { bits: 0xBFF0_0000_0000_0000 };
    assert(minus == scalar::negated(one));
    assert(k.of(scalar::negated(one)) == -k.of(one));
    reading::order_reads(k, g, zero);
    reading::order_reads(k, zero, g);
}

/// The model on a line through the origin is the model: its coefficients add
/// up to the model's value at the end of the direction. On a line from `s0`
/// the constant is the model's value there.
pub proof fn the_model_on_a_line_is_the_model<A: Numeric>(
    num: A,
    k: Reading,
    jh: Seq<Seq<Scalar>>,
    g: Seq<Scalar>,
    s: Seq<Scalar>,
    z: Seq<Scalar>,
    diag: Seq<Scalar>,
)
    requires
        reading::exact(num, k),
        smooth(num, k, jh, g, s, diag),
        smooth(num, k, jh, g, z, diag),
    ensures
        ({
            let from_origin = quadratic::on_line(num, jh, g, s, diag, None);
            let from_z = quadratic::on_line(num, jh, g, s, diag, Some(z));
            &&& k.of(quadratic::model_value(num, jh, g, s, diag)) == k.of(from_origin.0) + k.of(
                from_origin.1,
            )
            &&& k.of(from_origin.2) == 0real
            &&& k.of(quadratic::model_value(num, jh, g, z, diag)) == k.of(from_z.2)
            &&& from_z.0 == from_origin.0
        }),
{
    smooth_parts(num, k, jh, g, s, diag);
    smooth_parts(num, k, jh, g, z, diag);
}

/// The numbers that the model meets at `s` can be held.
pub open spec fn smooth<A: Numeric>(
    num: A,
    k: Reading,
    jh: Seq<Seq<Scalar>>,
    g: Seq<Scalar>,
    s: Seq<Scalar>,
    diag: Seq<Scalar>,
) -> bool {
    let js = quadratic::image(num, jh, s);
    let square = numeric::dot_of(num, js, js);
    let bent = quadratic::weighted(num, s, diag, s);
    let fall = products::multiply_up(k, s, g, s.len() as int);
    let half = k.of(Scalar { bits: 0x3FE0_0000_0000_0000 });
    let (a, b) = (k.of(square), k.of(bent));
    &&& square.finite() && bent.finite()
    &&& products::multipliable(k, s, g)
    &&& products::multipliable(k, g, s)
    &&& k.holds(a + b)
    &&& k.holds(times(half, a + b))
    &&& k.holds(times(half, a))
    &&& k.holds(times(half, b))
    &&& k.holds(times(half, a + b) + fall)
    &&& k.holds(times(half, a) + fall)
    &&& k.holds(times(half, a) + fall + times(half, b))
}

proof fn smooth_parts<A: Numeric>(
    num: A,
    k: Reading,
    jh: Seq<Seq<Scalar>>,
    g: Seq<Scalar>,
    s: Seq<Scalar>,
    diag: Seq<Scalar>,
)
    requires
        reading::exact(num, k),
        smooth(num, k, jh, g, s, diag),
    ensures
        ({
            let js = quadratic::image(num, jh, s);
            let square = numeric::dot_of(num, js, js);
            let bent = quadratic::weighted(num, s, diag, s);
            let fall = products::multiply_up(k, s, g, s.len() as int);
            let hs = Scalar { bits: 0x3FE0_0000_0000_0000 };
            let half = k.of(hs);
            &&& k.is(numeric::dot_of(num, s, g), fall)
            &&& k.is(numeric::dot_of(num, g, s), fall)
            &&& k.is(
                num.product(num.sum(square, bent), hs),
                times(half, k.of(square) + k.of(bent)),
            )
            &&& k.is(
                quadratic::model_value(num, jh, g, s, diag),
                times(half, k.of(square) + k.of(bent)) + fall,
            )
            &&& k.is(
                num.sum(
                    num.sum(num.product(hs, square), numeric::dot_of(num, g, s)),
                    num.product(hs, bent),
                ),
                times(half, k.of(square) + k.of(bent)) + fall,
            )
        }),
{
    let js = quadratic::image(num, jh, s);
    let square = numeric::dot_of(num, js, js);
    let bent = quadratic::weighted(num, s, diag, s);
    let hs = Scalar { bits: 0x3FE0_0000_0000_0000 };
    let half = k.of(hs);
    let (a, b) = (k.of(square), k.of(bent));
    products::an_inner_product_adds_up(num, k, s, g, s.len() as int);
    products::an_inner_product_adds_up(num, k, g, s, g.len() as int);
    products::products_go_either_way(k, s, g, s.len() as int);
    let both = num.sum(square, bent);
    assert(k.is(both, a + b));
    reading::units(half, a + b);
    reading::spread_out(a, b, half);
    assert(k.is(num.product(hs, both), times(half, a + b)));
    assert(k.is(num.product(hs, square), times(half, a)));
    assert(k.is(num.product(hs, bent), times(half, b)));
}

} // verus!
