//! The bound geometry: scaling by the distance to the bounds, the way to the
//! first bound, and stepping back off a bound.
use crate::numeric::Numeric;
use crate::scalar;
use crate::scalar::Scalar;
use crate::trf::{HALF_BITS, NEG_ONE_BITS};
use vstd::prelude::*;

verus! {

/// Distance of one coordinate to the bound that the anti-gradient points at,
/// and its slope; one and zero if it points away from both.
pub open spec fn bound_distance<A: Numeric>(
    num: A,
    x: Scalar,
    g: Scalar,
    lo: Scalar,
    hi: Scalar,
) -> (Scalar, Scalar) {
    if scalar::less(g, Scalar::zero()) && hi.finite() {
        (num.difference(hi, x), (Scalar { bits: NEG_ONE_BITS }))
    } else if scalar::less(Scalar::zero(), g) && lo.finite() {
        (num.difference(x, lo), Scalar::one())
    } else {
        (Scalar::one(), Scalar::zero())
    }
}

/// The scaling vector.
pub open spec fn cl_scaling<A: Numeric>(
    num: A,
    x: Seq<Scalar>,
    g: Seq<Scalar>,
    lo: Seq<Scalar>,
    hi: Seq<Scalar>,
) -> Seq<Scalar> {
    Seq::new(x.len(), |i: int| bound_distance(num, x[i], g[i], lo[i], hi[i]).0)
}

/// The slope of the scaling vector.
pub open spec fn cl_slope<A: Numeric>(
    num: A,
    x: Seq<Scalar>,
    g: Seq<Scalar>,
    lo: Seq<Scalar>,
    hi: Seq<Scalar>,
) -> Seq<Scalar> {
    Seq::new(x.len(), |i: int| bound_distance(num, x[i], g[i], lo[i], hi[i]).1)
}

/// Computes the scaling vector and its slope.
pub fn cl_scaling_vector<A: Numeric>(
    num: &A,
    x: &Vec<Scalar>,
    g: &Vec<Scalar>,
    lb: &Vec<Scalar>,
    ub: &Vec<Scalar>,
) -> (r: (Vec<Scalar>, Vec<Scalar>))
    requires
        num.sound(),
        g@.len() == x@.len(),
        lb@.len() == x@.len(),
        ub@.len() == x@.len(),
    ensures
        r.0@ == cl_scaling(*num, x@, g@, lb@, ub@),
        r.1@ == cl_slope(*num, x@, g@, lb@, ub@),
{
    let ghost tv = cl_scaling(*num, x@, g@, lb@, ub@);
    let ghost td = cl_slope(*num, x@, g@, lb@, ub@);
    let mut v: Vec<Scalar> = Vec::with_capacity(x.len());
    let mut dv: Vec<Scalar> = Vec::with_capacity(x.len());
    let mut i: usize = 0;
    while i < x.len()
        invariant
            num.sound(),
            g@.len() == x@.len(),
            lb@.len() == x@.len(),
            ub@.len() == x@.len(),
            tv == cl_scaling(*num, x@, g@, lb@, ub@),
            td == cl_slope(*num, x@, g@, lb@, ub@),
            i <= x.len(),
            v@ == tv.take(i as int),
            dv@ == td.take(i as int),
        decreases x.len() - i,
    {
        if g[i].lt(Scalar::zero()) && ub[i].is_finite() {
            v.push(num.minus(ub[i], x[i]));
            dv.push(Scalar::from_bits(NEG_ONE_BITS));
        } else if g[i].gt(Scalar::zero()) && lb[i].is_finite() {
            v.push(num.minus(x[i], lb[i]));
            dv.push(Scalar::one());
        } else {
            v.push(Scalar::one());
            dv.push(Scalar::zero());
        }
        i += 1;
        assert(v@ =~= tv.take(i as int));
        assert(dv@ =~= td.take(i as int));
    }
    assert(v@ =~= tv);
    assert(dv@ =~= td);
    (v, dv)
}

/// Every coordinate lies in its interval.
pub open spec fn inside(x: Seq<Scalar>, lo: Seq<Scalar>, hi: Seq<Scalar>) -> bool {
    forall|i: int|
        0 <= i < x.len() ==> scalar::at_most(lo[i], #[trigger] x[i]) && scalar::at_most(
            x[i],
            hi[i],
        )
}

/// Tests whether every coordinate lies in its interval.
pub fn in_bounds(x: &Vec<Scalar>, lb: &Vec<Scalar>, ub: &Vec<Scalar>) -> (r: bool)
    requires
        lb@.len() == x@.len(),
        ub@.len() == x@.len(),
    ensures
        r == inside(x@, lb@, ub@),
{
    let mut i: usize = 0;
    while i < x.len()
        invariant
            lb@.len() == x@.len(),
            ub@.len() == x@.len(),
            i <= x.len(),
            forall|k: int|
                0 <= k < i ==> scalar::at_most(lb@[k], #[trigger] x@[k]) && scalar::at_most(
                    x@[k],
                    ub@[k],
                ),
        decreases x.len() - i,
    {
        if !(x[i].ge(lb[i]) && x[i].le(ub[i])) {
            assert(!(scalar::at_most(lb@[i as int], x@[i as int]) && scalar::at_most(
                x@[i as int],
                ub@[i as int],
            )));
            return false;
        }
        i += 1;
    }
    true
}

/// How far coordinate `i` lets us go along `s`.
pub open spec fn room<A: Numeric>(
    num: A,
    x: Scalar,
    s: Scalar,
    lo: Scalar,
    hi: Scalar,
) -> Scalar {
    if scalar::same(s, Scalar::zero()) {
        Scalar::infinity()
    } else {
        scalar::greater(
            num.quotient(num.difference(lo, x), s),
            num.quotient(num.difference(hi, x), s),
        )
    }
}

/// The room of every coordinate.
pub open spec fn rooms<A: Numeric>(
    num: A,
    x: Seq<Scalar>,
    s: Seq<Scalar>,
    lo: Seq<Scalar>,
    hi: Seq<Scalar>,
) -> Seq<Scalar> {
    Seq::new(x.len(), |i: int| room(num, x[i], s[i], lo[i], hi[i]))
}

/// The least of the first `k` entries, infinity if there is none.
pub open spec fn least_upto(xs: Seq<Scalar>, k: int) -> Scalar
    decreases k,
{
    if k <= 0 {
        Scalar::infinity()
    } else {
        scalar::lesser(least_upto(xs, k - 1), xs[k - 1])
    }
}

/// How far the box lets us go along `s`.
pub open spec fn stride_to_bound<A: Numeric>(
    num: A,
    x: Seq<Scalar>,
    s: Seq<Scalar>,
    lo: Seq<Scalar>,
    hi: Seq<Scalar>,
) -> Scalar {
    least_upto(rooms(num, x, s, lo, hi), x.len() as int)
}

/// The coordinates that stop us.
pub open spec fn stoppers<A: Numeric>(
    num: A,
    x: Seq<Scalar>,
    s: Seq<Scalar>,
    lo: Seq<Scalar>,
    hi: Seq<Scalar>,
) -> Seq<bool> {
    Seq::new(
        x.len(),
        |i: int|
            !scalar::same(s[i], Scalar::zero()) && scalar::same(
                rooms(num, x, s, lo, hi)[i],
                stride_to_bound(num, x, s, lo, hi),
            ),
    )
}

/// How far along `s` the box lets us go, and which coordinates stop us.
pub fn step_size_to_bound<A: Numeric>(
    num: &A,
    x: &Vec<Scalar>,
    s: &Vec<Scalar>,
    lb: &Vec<Scalar>,
    ub: &Vec<Scalar>,
) -> (r: (Scalar, Vec<bool>))
    requires
        num.sound(),
        s@.len() == x@.len(),
        lb@.len() == x@.len(),
        ub@.len() == x@.len(),
    ensures
        r.0 == stride_to_bound(*num, x@, s@, lb@, ub@),
        r.1@ == stoppers(*num, x@, s@, lb@, ub@),
{
    let n: usize = x.len();
    let ghost ts = rooms(*num, x@, s@, lb@, ub@);
    let mut steps: Vec<Scalar> = Vec::with_capacity(n);
    let mut least: Scalar = Scalar::infinity();
    let mut i: usize = 0;
    while i < n
        invariant
            num.sound(),
            n == x@.len(),
            s@.len() == n,
            lb@.len() == n,
            ub@.len() == n,
            ts == rooms(*num, x@, s@, lb@, ub@),
            i <= n,
            steps@ == ts.take(i as int),
            least == least_upto(ts, i as int),
        decreases n - i,
    {
        let step: Scalar = if s[i].same_value(Scalar::zero()) {
            Scalar::infinity()
        } else {
            let a: Scalar = num.over(num.minus(lb[i], x[i]), s[i]);
            let b: Scalar = num.over(num.minus(ub[i], x[i]), s[i]);
            a.max(b)
        };
        assert(step == ts[i as int]);
        least = least.min(step);
        steps.push(step);
        i += 1;
        assert(steps@ =~= ts.take(i as int));
    }
    assert(steps@ =~= ts);
    let ghost th = stoppers(*num, x@, s@, lb@, ub@);
    let mut hits: Vec<bool> = Vec::with_capacity(n);
    let mut k: usize = 0;
    while k < n
        invariant
            n == x@.len(),
            s@.len() == n,
            steps@ == ts,
            ts == rooms(*num, x@, s@, lb@, ub@),
            ts.len() == n,
            least == stride_to_bound(*num, x@, s@, lb@, ub@),
            th == stoppers(*num, x@, s@, lb@, ub@),
            k <= n,
            hits@ == th.take(k as int),
        decreases n - k,
    {
        hits.push(!s[k].same_value(Scalar::zero()) && steps[k].same_value(least));
        k += 1;
        assert(hits@ =~= th.take(k as int));
    }
    assert(hits@ =~= th);
    (least, hits)
}

/// The tolerance of a bound.
pub open spec fn bound_slack<A: Numeric>(num: A, rtol: Scalar, bound: Scalar) -> Scalar {
    num.product(rtol, scalar::greater(Scalar::one(), scalar::absolute(bound)))
}

/// Which bound `x` sits on: -1 the lower, 1 the upper, 0 neither.
pub open spec fn activity<A: Numeric>(
    num: A,
    x: Scalar,
    lo: Scalar,
    hi: Scalar,
    rtol: Scalar,
) -> i8 {
    if scalar::same(rtol, Scalar::zero()) {
        if scalar::at_most(x, lo) {
            (-1) as i8
        } else if scalar::at_most(hi, x) {
            1
        } else {
            0
        }
    } else {
        let below = num.difference(x, lo);
        let above = num.difference(hi, x);
        if lo.finite() && scalar::at_most(
            below,
            scalar::lesser(above, bound_slack(num, rtol, lo)),
        ) {
            (-1) as i8
        } else if hi.finite() && scalar::at_most(
            above,
            scalar::lesser(below, bound_slack(num, rtol, hi)),
        ) {
            1
        } else {
            0
        }
    }
}

fn active_bound<A: Numeric>(num: &A, x: Scalar, lo: Scalar, hi: Scalar, rtol: Scalar) -> (r: i8)
    requires
        num.sound(),
    ensures
        r == activity(*num, x, lo, hi, rtol),
{
    if rtol.same_value(Scalar::zero()) {
        if x.le(lo) {
            -1
        } else if x.ge(hi) {
            1
        } else {
            0
        }
    } else {
        let below: Scalar = num.minus(x, lo);
        let above: Scalar = num.minus(hi, x);
        let slack_lo: Scalar = num.times(rtol, Scalar::one().max(lo.abs()));
        let slack_hi: Scalar = num.times(rtol, Scalar::one().max(hi.abs()));
        if lo.is_finite() && below.le(above.min(slack_lo)) {
            -1
        } else if hi.is_finite() && above.le(below.min(slack_hi)) {
            1
        } else {
            0
        }
    }
}

/// Which bounds `x` sits on, to within `rtol` of the bounds' own scale.
pub fn find_active_constraints<A: Numeric>(
    num: &A,
    x: &Vec<Scalar>,
    lb: &Vec<Scalar>,
    ub: &Vec<Scalar>,
    rtol: Scalar,
) -> (r: Vec<i8>)
    requires
        num.sound(),
        lb@.len() == x@.len(),
        ub@.len() == x@.len(),
    ensures
        r@ == Seq::new(x@.len(), |i: int| activity(*num, x@[i], lb@[i], ub@[i], rtol)),
{
    let ghost target = Seq::new(x@.len(), |i: int| activity(*num, x@[i], lb@[i], ub@[i], rtol));
    let mut out: Vec<i8> = Vec::with_capacity(x.len());
    let mut i: usize = 0;
    while i < x.len()
        invariant
            num.sound(),
            lb@.len() == x@.len(),
            ub@.len() == x@.len(),
            target == Seq::new(
                x@.len(),
                |i: int| activity(*num, x@[i], lb@[i], ub@[i], rtol),
            ),
            i <= x.len(),
            out@ == target.take(i as int),
        decreases x.len() - i,
    {
        out.push(active_bound(num, x[i], lb[i], ub[i], rtol));
        i += 1;
        assert(out@ =~= target.take(i as int));
    }
    assert(out@ =~= target);
    out
}

/// The next double from `x` in the direction of `toward`.
pub open spec fn toward_of(x: Scalar, toward: Scalar) -> Scalar {
    if x.nan() || toward.nan() || scalar::same(x, toward) {
        toward
    } else if scalar::less(x, toward) {
        scalar::above(x)
    } else {
        scalar::below(x)
    }
}

/// The next double from `x` in the direction of `toward`.
pub fn next_toward(x: Scalar, toward: Scalar) -> (r: Scalar)
    ensures
        r == toward_of(x, toward),
{
    if x.is_nan() || toward.is_nan() || x.same_value(toward) {
        return toward;
    }
    if toward.gt(x) {
        x.next_up()
    } else {
        x.next_down()
    }
}

/// One coordinate pushed off the bound it sits on; the midpoint where that
/// leaves the interval.
pub open spec fn pushed_off<A: Numeric>(
    num: A,
    x: Scalar,
    lo: Scalar,
    hi: Scalar,
    rstep: Scalar,
) -> Scalar {
    let active = activity(num, x, lo, hi, rstep);
    let ulp = scalar::same(rstep, Scalar::zero());
    let off = if active == -1 {
        if ulp {
            toward_of(lo, hi)
        } else {
            num.sum(lo, bound_slack(num, rstep, lo))
        }
    } else if active == 1 {
        if ulp {
            toward_of(hi, lo)
        } else {
            num.difference(hi, bound_slack(num, rstep, hi))
        }
    } else {
        x
    };
    if scalar::less(off, lo) || scalar::less(hi, off) {
        num.product((Scalar { bits: HALF_BITS }), num.sum(lo, hi))
    } else {
        off
    }
}

/// The point pushed off all its bounds.
pub open spec fn interior<A: Numeric>(
    num: A,
    x: Seq<Scalar>,
    lo: Seq<Scalar>,
    hi: Seq<Scalar>,
    rstep: Scalar,
) -> Seq<Scalar> {
    Seq::new(x.len(), |i: int| pushed_off(num, x[i], lo[i], hi[i], rstep))
}

/// Pushes a point off every bound it sits on; a zero `rstep` steps back by a
/// single ulp.
pub fn make_strictly_feasible<A: Numeric>(
    num: &A,
    x: &Vec<Scalar>,
    lb: &Vec<Scalar>,
    ub: &Vec<Scalar>,
    rstep: Scalar,
) -> (r: Vec<Scalar>)
    requires
        num.sound(),
        lb@.len() == x@.len(),
        ub@.len() == x@.len(),
    ensures
        r@ == interior(*num, x@, lb@, ub@, rstep),
{
    let ghost target = interior(*num, x@, lb@, ub@, rstep);
    let active: Vec<i8> = find_active_constraints(num, x, lb, ub, rstep);
    let ulp: bool = rstep.same_value(Scalar::zero());
    let mut out: Vec<Scalar> = Vec::with_capacity(x.len());
    let mut i: usize = 0;
    while i < x.len()
        invariant
            num.sound(),
            lb@.len() == x@.len(),
            ub@.len() == x@.len(),
            target == interior(*num, x@, lb@, ub@, rstep),
            ulp == scalar::same(rstep, Scalar::zero()),
            active@ == Seq::new(
                x@.len(),
                |i: int| activity(*num, x@[i], lb@[i], ub@[i], rstep),
            ),
            i <= x.len(),
            out@ == target.take(i as int),
        decreases x.len() - i,
    {
        let lo: Scalar = lb[i];
        let hi: Scalar = ub[i];
        let off: Scalar = if active[i] == -1 {
            if ulp {
                next_toward(lo, hi)
            } else {
                num.plus(lo, num.times(rstep, Scalar::one().max(lo.abs())))
            }
        } else if active[i] == 1 {
            if ulp {
                next_toward(hi, lo)
            } else {
                num.minus(hi, num.times(rstep, Scalar::one().max(hi.abs())))
            }
        } else {
            x[i]
        };
        let kept: Scalar = if off.lt(lo) || off.gt(hi) {
            num.times(Scalar::from_bits(HALF_BITS), num.plus(lo, hi))
        } else {
            off
        };
        assert(kept == target[i as int]);
        out.push(kept);
        i += 1;
        assert(out@ =~= target.take(i as int));
    }
    assert(out@ =~= target);
    out
}

/// An interval with a double strictly between its ends.
pub open spec fn open_interval(lo: Scalar, hi: Scalar) -> bool {
    lo.finite() && hi.finite() && scalar::less(scalar::above(lo), hi)
}

/// A step back by one ulp leaves a coordinate strictly inside its interval,
/// wherever it was; only a NaN stays one.
pub proof fn stepping_back_is_strictly_interior<A: Numeric>(
    num: A,
    x: Scalar,
    lo: Scalar,
    hi: Scalar,
)
    requires
        open_interval(lo, hi),
        !x.nan(),
    ensures
        scalar::less(lo, pushed_off(num, x, lo, hi, Scalar::zero())),
        scalar::less(pushed_off(num, x, lo, hi, Scalar::zero()), hi),
{
}

} // verus!
