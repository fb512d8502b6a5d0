//! What the steps of the trust region come to over real numbers: strides,
//! boundaries, damping and costs.
use crate::numeric;
use crate::numeric::Numeric;
use crate::reading;
use crate::reading::products;
use crate::reading::{over, times, Reading};
use crate::scalar;
use crate::scalar::Scalar;
use crate::trf::driver;
use crate::trf::select;
use crate::trf::subproblem;
use vstd::prelude::*;

verus! {

/// A point along a ray: the stride times the direction, from the start.
pub proof fn a_point_lies_along_the_ray<A: Numeric>(
    num: A,
    k: Reading,
    r: Seq<Scalar>,
    stride: Scalar,
    p: Seq<Scalar>,
    i: int,
)
    requires
        reading::exact(num, k),
        r.len() == p.len(),
        0 <= i < r.len(),
        r[i].finite() && p[i].finite() && stride.finite(),
        k.holds(times(k.of(r[i]), k.of(stride))),
        k.holds(times(k.of(r[i]), k.of(stride)) + k.of(p[i])),
    ensures
        select::along(num, r, stride, p).len() == r.len(),
        k.of(select::along(num, r, stride, p)[i]) - k.of(p[i]) == times(
            k.of(r[i]),
            k.of(stride),
        ),
{
    assert(k.is(num.product(r[i], stride), times(k.of(r[i]), k.of(stride))));
}

/// The reflected ray is searched up to the bound, held back by theta, or to
/// the region, whichever comes first, from a share of the stride that led to
/// the bound; nowhere if there is no way to go.
pub proof fn a_reflection_stays_within_reach<A: Numeric>(
    num: A,
    k: Reading,
    theta: Scalar,
    p_stride: Scalar,
    to_bound: Scalar,
    to_region: Scalar,
)
    requires
        reading::exact(num, k),
        theta.finite() && p_stride.finite() && to_bound.finite() && to_region.finite(),
        ({
            let first = if k.of(to_bound) < k.of(to_region) {
                k.of(to_bound)
            } else {
                k.of(to_region)
            };
            let kept = times(1real - k.of(theta), k.of(p_stride));
            &&& k.holds(1real - k.of(theta))
            &&& k.holds(kept)
            &&& first > 0real ==> k.holds(over(kept, first))
            &&& k.holds(times(k.of(theta), k.of(to_bound)))
        }),
    ensures
        ({
            let first = if k.of(to_bound) < k.of(to_region) {
                k.of(to_bound)
            } else {
                k.of(to_region)
            };
            let kept = times(1real - k.of(theta), k.of(p_stride));
            let range = select::reflected_range(num, theta, p_stride, to_bound, Some(to_region));
            if first > 0real {
                &&& times(k.of(range.0), first) == kept
                &&& k.of(range.1) == (if first == k.of(to_bound) {
                    times(k.of(theta), k.of(to_bound))
                } else {
                    k.of(to_region)
                })
            } else {
                k.of(range.0) > k.of(range.1)
            }
        }),
        ({
            let none = select::reflected_range(num, theta, p_stride, to_bound, None);
            k.of(none.0) > k.of(none.1)
        }),
{
    let zero = Scalar { bits: 0 };
    let one = Scalar { bits: 0x3FF0_0000_0000_0000 };
    let minus = Scalar { bits: 0xBFF0_0000_0000_0000 };
    assert(minus == scalar::negated(one));
    assert(k.of(scalar::negated(one)) == -k.of(one));
    reading::order_reads(k, to_bound, to_region);
    reading::order_reads(k, to_region, to_bound);
    let first = scalar::lesser(to_bound, to_region);
    assert(first.finite());
    reading::order_reads(k, zero, first);
    reading::order_reads(k, first, to_bound);
    let kept = times(1real - k.of(theta), k.of(p_stride));
    assert(k.is(num.difference(one, theta), 1real - k.of(theta)));
    assert(k.is(num.product(num.difference(one, theta), p_stride), kept));
    if k.of(first) > 0real {
        reading::undone(kept, k.of(first));
    }
}

/// A step is brought onto the boundary along its own direction: by the ratio
/// of the radius to its norm.
pub proof fn a_step_is_stretched_to_the_boundary<A: Numeric>(
    num: A,
    k: Reading,
    p: Seq<Scalar>,
    delta: Scalar,
    i: int,
)
    requires
        reading::exact(num, k),
        0 <= i < p.len(),
        p[i].finite() && delta.finite() && numeric::norm_of(num, p).finite(),
        k.of(numeric::norm_of(num, p)) > 0real,
        ({
            let ratio = over(k.of(delta), k.of(numeric::norm_of(num, p)));
            k.holds(ratio) && k.holds(times(k.of(p[i]), ratio))
        }),
    ensures
        subproblem::onto_boundary(num, p, delta).len() == p.len(),
        times(
            k.of(subproblem::onto_boundary(num, p, delta)[i]),
            k.of(numeric::norm_of(num, p)),
        ) == times(k.of(p[i]), k.of(delta)),
{
    let zero = Scalar { bits: 0 };
    let pn = numeric::norm_of(num, p);
    reading::order_reads(k, zero, pn);
    let ratio = over(k.of(delta), k.of(pn));
    assert(k.is(num.quotient(delta, pn), ratio));
    reading::undone(k.of(delta), k.of(pn));
    reading::regrouped(k.of(p[i]), ratio, k.of(pn));
}

/// Damping follows the radius: damping times radius stays the same.
pub proof fn damping_times_radius_is_kept<A: Numeric>(
    num: A,
    k: Reading,
    alpha: Scalar,
    delta: Scalar,
    next: Scalar,
)
    requires
        reading::exact(num, k),
        alpha.finite() && delta.finite() && next.finite(),
        k.of(next) > 0real,
        k.holds(over(k.of(delta), k.of(next))),
        k.holds(times(k.of(alpha), over(k.of(delta), k.of(next)))),
    ensures
        times(k.of(driver::rescaled(num, alpha, delta, next)), k.of(next)) == times(
            k.of(alpha),
            k.of(delta),
        ),
{
    let zero = Scalar { bits: 0 };
    reading::order_reads(k, zero, next);
    let q = over(k.of(delta), k.of(next));
    assert(k.is(num.quotient(delta, next), q));
    reading::undone(k.of(delta), k.of(next));
    reading::regrouped(k.of(alpha), q, k.of(next));
}

/// Twice the cost is the sum of the squared residuals.
pub proof fn twice_the_cost_is_the_sum_of_squares<A: Numeric>(
    num: A,
    k: Reading,
    f: Seq<Scalar>,
)
    requires
        reading::exact(num, k),
        products::multipliable(k, f, f),
        k.holds(
            times(
                k.of(Scalar { bits: 0x3FE0_0000_0000_0000 }),
                products::multiply_up(k, f, f, f.len() as int),
            ),
        ),
    ensures
        k.of(driver::half_cost(num, f)) * 2real == products::multiply_up(
            k,
            f,
            f,
            f.len() as int,
        ),
{
    let half = k.of(Scalar { bits: 0x3FE0_0000_0000_0000 });
    let s = products::multiply_up(k, f, f, f.len() as int);
    products::an_inner_product_adds_up(num, k, f, f, f.len() as int);
    reading::spread_out(half, half, s);
    reading::units(s, s);
    assert(half + half == 1real);
}

/// The share of the way to a bound: at least the usual one, and all but the
/// gradient where that is small.
pub proof fn theta_closes_in<A: Numeric>(num: A, k: Reading, g_norm: Scalar)
    requires
        reading::exact(num, k),
        g_norm.finite(),
        k.holds(1real - k.of(g_norm)),
    ensures
        ({
            let usual = k.of(Scalar { bits: 0x3fef_d70a_3d70_a3d7 });
            let rest = 1real - k.of(g_norm);
            k.of(driver::theta_of(num, g_norm)) == (if usual < rest {
                rest
            } else {
                usual
            })
        }),
{
    let one = Scalar { bits: 0x3FF0_0000_0000_0000 };
    let usual = Scalar { bits: 0x3fef_d70a_3d70_a3d7 };
    let rest = num.difference(one, g_norm);
    assert(k.is(rest, 1real - k.of(g_norm)));
    reading::order_reads(k, usual, rest);
}

/// One step of the radius equation: the damping falls by the excess of the
/// norm over its slope, times the norm over the radius.
pub proof fn a_newton_step_follows_the_radius_equation<A: Numeric>(
    num: A,
    k: Reading,
    r: Seq<Seq<Scalar>>,
    q: Seq<Scalar>,
    n: int,
    delta: Scalar,
    alpha: Scalar,
    lower: Scalar,
    upper: Scalar,
    p: Seq<Scalar>,
    pn: Scalar,
    qn: Scalar,
)
    requires
        reading::exact(num, k),
        alpha.finite() && lower.finite() && upper.finite() && delta.finite(),
        pn.finite() && qn.finite(),
        k.of(lower) <= k.of(alpha) <= k.of(upper),
        k.of(pn) > 0real && k.of(delta) > 0real && k.of(qn) != 0real,
        subproblem::damped_at(num, r, q, n, alpha) == Some((p, pn, qn)),
        ({
            let phi = k.of(pn) - k.of(delta);
            let bent = times(k.of(qn), k.of(qn));
            let slope = over(-bent, k.of(pn));
            let ratio = over(phi, slope);
            let moved = over(times(k.of(pn), ratio), k.of(delta));
            &&& k.holds(phi) && k.holds(bent) && k.holds(-bent)
            &&& k.holds(slope) && k.holds(ratio)
            &&& k.holds(times(k.of(pn), ratio)) && k.holds(moved)
            &&& k.holds(k.of(alpha) - moved)
        }),
    ensures
        ({
            let out = subproblem::newton(num, r, q, n, delta, alpha, lower, upper, 1);
            let phi = k.of(pn) - k.of(delta);
            let slope = over(-times(k.of(qn), k.of(qn)), k.of(pn));
            &&& out matches Some((s, next)) && s == p && times(
                times(k.of(alpha) - k.of(next), k.of(delta)),
                slope,
            ) == times(k.of(pn), phi)
            &&& times(slope, k.of(pn)) == -times(k.of(qn), k.of(qn))
        }),
{
    let zero = Scalar { bits: 0 };
    reading::order_reads(k, alpha, lower);
    reading::order_reads(k, upper, alpha);
    reading::order_reads(k, zero, pn);
    let phi_s = num.difference(pn, delta);
    let phi = k.of(pn) - k.of(delta);
    assert(k.is(phi_s, phi));
    let bent = times(k.of(qn), k.of(qn));
    reading::squared(k.of(qn));
    let bent_s = num.product(qn, qn);
    assert(k.is(bent_s, bent));
    assert(k.of(scalar::negated(bent_s)) == -k.of(bent_s));
    let slope_s = num.quotient(scalar::negated(bent_s), pn);
    let slope = over(-bent, k.of(pn));
    assert(k.is(slope_s, slope));
    reading::undone(-bent, k.of(pn));
    reading::units(k.of(pn), k.of(pn));
    assert(slope != 0real);
    reading::order_reads(k, slope_s, zero);
    let ratio_s = num.quotient(phi_s, slope_s);
    let ratio = over(phi, slope);
    assert(k.is(ratio_s, ratio));
    reading::undone(phi, slope);
    assert(k.holds(k.of(pn)));
    let back = num.sum(phi_s, delta);
    assert(k.is(back, k.of(pn)));
    let lifted = num.product(back, ratio_s);
    assert(k.is(lifted, times(k.of(pn), ratio)));
    let moved_s = num.quotient(lifted, delta);
    let moved = over(times(k.of(pn), ratio), k.of(delta));
    assert(k.is(moved_s, moved));
    reading::undone(times(k.of(pn), ratio), k.of(delta));
    reading::regrouped(k.of(pn), ratio, slope);
    let next = num.difference(alpha, moved_s);
    assert(k.is(next, k.of(alpha) - moved));
}

/// The least and the greatest pivot bound the diagonal.
pub proof fn pivots_bound_the_diagonal(r: Seq<Seq<Scalar>>, n: int)
    requires
        0 <= n <= r.len(),
        forall|i: int| 0 <= i < n ==> !(#[trigger] r[i])[i].nan(),
    ensures
        !subproblem::least_pivot(r, n).nan() && !subproblem::greatest_pivot(r, n).nan(),
        forall|i: int|
            0 <= i < n ==> scalar::at_most(
                subproblem::least_pivot(r, n),
                scalar::absolute((#[trigger] r[i])[i]),
            ) && scalar::at_most(
                scalar::absolute(r[i][i]),
                subproblem::greatest_pivot(r, n),
            ),
    decreases n,
{
    if n > 0 {
        pivots_bound_the_diagonal(r, n - 1);
        assert(!r[n - 1][n - 1].nan());
    }
}

} // verus!
