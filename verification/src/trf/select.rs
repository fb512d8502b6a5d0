//! The choice among the three candidate steps.
use crate::linalg;
use crate::numeric;
use crate::numeric::{entrywise, norm, scale_vec, sum_vec, Numeric};
use crate::scalar;
use crate::scalar::Scalar;
use crate::trf::geometry;
use crate::trf::geometry::{in_bounds, step_size_to_bound};
use crate::trf::quadratic;
use crate::trf::quadratic::{
    build_quadratic_1d, evaluate_quadratic, intersect_trust_region, minimize_quadratic_1d,
};
use crate::trf::NEG_ONE_BITS;
use vstd::prelude::*;

verus! {

/// What the candidates are built from.
pub struct Scene {
    pub x: Seq<Scalar>,
    pub jh: Seq<Seq<Scalar>>,
    pub diag_h: Seq<Scalar>,
    pub g_h: Seq<Scalar>,
    pub d: Seq<Scalar>,
    pub delta: Scalar,
    pub lo: Seq<Scalar>,
    pub hi: Seq<Scalar>,
    pub theta: Scalar,
}

/// A candidate: the step, the step in scaled variables, and the model's value.
pub struct Candidate {
    pub step: Seq<Scalar>,
    pub step_h: Seq<Scalar>,
    pub value: Scalar,
}

impl Scene {
    /// The model's value at a scaled step.
    pub open spec fn value_at<A: Numeric>(self, num: A, s: Seq<Scalar>) -> Scalar {
        quadratic::model_value(num, self.jh, self.g_h, s, self.diag_h)
    }

    /// All lengths agree.
    pub open spec fn shaped(self) -> bool {
        let n = self.x.len() as int;
        &&& linalg::wide(self.jh, n)
        &&& self.diag_h.len() == n
        &&& self.g_h.len() == n
        &&& self.d.len() == n
        &&& self.lo.len() == n
        &&& self.hi.len() == n
    }
}

/// The components that hit a bound change sign.
pub open spec fn flip_hits(p_h: Seq<Scalar>, hits: Seq<bool>) -> Seq<Scalar> {
    Seq::new(
        p_h.len(),
        |k: int|
            if hits[k] {
                scalar::negated(p_h[k])
            } else {
                p_h[k]
            },
    )
}

/// Each `r[k] * stride + p[k]`.
pub open spec fn along<A: Numeric>(
    num: A,
    r: Seq<Scalar>,
    stride: Scalar,
    p: Seq<Scalar>,
) -> Seq<Scalar> {
    Seq::new(r.len(), |k: int| num.sum(num.product(r[k], stride), p[k]))
}

/// Between which strides the reflected ray is searched: from a share of the
/// stride to the bound, to the bound held back by theta or to the region,
/// whichever it reaches first. An empty range if there is no way to go.
pub open spec fn reflected_range<A: Numeric>(
    num: A,
    theta: Scalar,
    p_stride: Scalar,
    to_bound: Scalar,
    to_region: Option<Scalar>,
) -> (Scalar, Scalar) {
    let stride = match to_region {
        Some(t) => scalar::lesser(to_bound, t),
        None => Scalar::neg_infinity(),
    };
    if scalar::less(Scalar::zero(), stride) {
        (
            num.quotient(num.product(num.difference(Scalar::one(), theta), p_stride), stride),
            if scalar::same(stride, to_bound) {
                num.product(theta, to_bound)
            } else {
                match to_region {
                    Some(t) => t,
                    None => Scalar::zero(),
                }
            },
        )
    } else {
        (Scalar::zero(), (Scalar { bits: NEG_ONE_BITS }))
    }
}

/// The second crossing of the ray with the region.
pub open spec fn far_crossing<A: Numeric>(
    num: A,
    p_h: Seq<Scalar>,
    r_h: Seq<Scalar>,
    delta: Scalar,
) -> Option<Scalar> {
    match quadratic::crossings(num, p_h, r_h, delta) {
        Some((_, t)) => Some(t),
        None => None,
    }
}

/// The reflected candidate: the step cut at the bound, then on along the
/// reflection. Without a way to go its value is infinite.
pub open spec fn reflected<A: Numeric>(
    num: A,
    sc: Scene,
    p: Seq<Scalar>,
    p_h: Seq<Scalar>,
) -> Candidate {
    let p_stride = geometry::stride_to_bound(num, sc.x, p, sc.lo, sc.hi);
    let r_h = flip_hits(p_h, geometry::stoppers(num, sc.x, p, sc.lo, sc.hi));
    let cut_h = numeric::scaled(num, p_h, p_stride);
    let on_bound = numeric::added(num, sc.x, numeric::scaled(num, p, p_stride));
    let to_bound = geometry::stride_to_bound(
        num,
        on_bound,
        numeric::hadamard(num, sc.d, r_h),
        sc.lo,
        sc.hi,
    );
    let range = reflected_range(
        num,
        sc.theta,
        p_stride,
        to_bound,
        far_crossing(num, cut_h, r_h, sc.delta),
    );
    if scalar::at_most(range.0, range.1) {
        let abc = quadratic::on_line(num, sc.jh, sc.g_h, r_h, sc.diag_h, Some(cut_h));
        let best = quadratic::lowest_on(num, abc.0, abc.1, range.0, range.1, abc.2);
        let step_h = along(num, r_h, best.0, cut_h);
        Candidate { step: numeric::hadamard(num, sc.d, step_h), step_h, value: best.1 }
    } else {
        Candidate {
            step: numeric::hadamard(num, sc.d, r_h),
            step_h: r_h,
            value: Scalar::infinity(),
        }
    }
}

/// The truncated candidate: the step cut at the bound and held back by theta.
pub open spec fn truncated<A: Numeric>(
    num: A,
    sc: Scene,
    p: Seq<Scalar>,
    p_h: Seq<Scalar>,
) -> Candidate {
    let p_stride = geometry::stride_to_bound(num, sc.x, p, sc.lo, sc.hi);
    let step_h = numeric::scaled(num, numeric::scaled(num, p_h, p_stride), sc.theta);
    Candidate {
        step: numeric::scaled(num, numeric::scaled(num, p, p_stride), sc.theta),
        step_h,
        value: sc.value_at(num, step_h),
    }
}

/// The candidate down the gradient, as far as the region and the bounds let
/// it; of infinite value where the gradient vanishes.
pub open spec fn downhill<A: Numeric>(num: A, sc: Scene) -> Candidate {
    let ag_h = numeric::flipped(sc.g_h);
    let ag = numeric::hadamard(num, sc.d, ag_h);
    let size = numeric::norm_of(num, ag_h);
    if scalar::less(Scalar::zero(), size) {
        let to_region = num.quotient(sc.delta, size);
        let to_bound = geometry::stride_to_bound(num, sc.x, ag, sc.lo, sc.hi);
        let cap = if scalar::less(to_bound, to_region) {
            num.product(sc.theta, to_bound)
        } else {
            to_region
        };
        let abc = quadratic::on_line(num, sc.jh, sc.g_h, ag_h, sc.diag_h, None);
        let best = quadratic::lowest_on(
            num,
            abc.0,
            abc.1,
            Scalar::zero(),
            cap,
            Scalar::zero(),
        );
        Candidate {
            step: numeric::scaled(num, ag, best.0),
            step_h: numeric::scaled(num, ag_h, best.0),
            value: best.1,
        }
    } else {
        Candidate { step: ag, step_h: ag_h, value: Scalar::infinity() }
    }
}

/// The chosen candidate: the full step where it fits; else the truncated or
/// the reflected one where it is strictly best, and the downhill one
/// otherwise.
pub open spec fn chosen<A: Numeric>(
    num: A,
    sc: Scene,
    p: Seq<Scalar>,
    p_h: Seq<Scalar>,
) -> Candidate {
    if geometry::inside(numeric::added(num, sc.x, p), sc.lo, sc.hi) {
        Candidate { step: p, step_h: p_h, value: sc.value_at(num, p_h) }
    } else {
        let t = truncated(num, sc, p, p_h);
        let r = reflected(num, sc, p, p_h);
        let g = downhill(num, sc);
        if scalar::less(t.value, r.value) && scalar::less(t.value, g.value) {
            t
        } else if scalar::less(r.value, t.value) && scalar::less(r.value, g.value) {
            r
        } else {
            g
        }
    }
}

/// Unless a value is NaN, no candidate is better than the chosen one.
pub proof fn the_chosen_candidate_is_best<A: Numeric>(
    num: A,
    sc: Scene,
    p: Seq<Scalar>,
    p_h: Seq<Scalar>,
)
    requires
        !geometry::inside(numeric::added(num, sc.x, p), sc.lo, sc.hi),
        !truncated(num, sc, p, p_h).value.nan(),
        !reflected(num, sc, p, p_h).value.nan(),
        !downhill(num, sc).value.nan(),
        !scalar::same(truncated(num, sc, p, p_h).value, reflected(num, sc, p, p_h).value),
    ensures
        !scalar::less(truncated(num, sc, p, p_h).value, chosen(num, sc, p, p_h).value),
        !scalar::less(reflected(num, sc, p, p_h).value, chosen(num, sc, p, p_h).value),
        !scalar::less(downhill(num, sc).value, chosen(num, sc, p, p_h).value),
{
}

/// A candidate in hand.
pub struct Step {
    pub step: Vec<Scalar>,
    pub step_h: Vec<Scalar>,
    pub value: Scalar,
}

impl Step {
    /// This is the candidate `c`.
    pub open spec fn shows(&self, c: Candidate) -> bool {
        self.step@ == c.step && self.step_h@ == c.step_h && self.value == c.value
    }
}

fn flip(p_h: &Vec<Scalar>, hits: &Vec<bool>) -> (r: Vec<Scalar>)
    requires
        p_h@.len() == hits@.len(),
    ensures
        r@ == flip_hits(p_h@, hits@),
{
    let ghost target = flip_hits(p_h@, hits@);
    let mut out: Vec<Scalar> = Vec::with_capacity(p_h.len());
    let mut k: usize = 0;
    while k < p_h.len()
        invariant
            p_h@.len() == hits@.len(),
            target == flip_hits(p_h@, hits@),
            k <= p_h.len(),
            out@ == target.take(k as int),
        decreases p_h.len() - k,
    {
        if hits[k] {
            out.push(p_h[k].neg());
        } else {
            out.push(p_h[k]);
        }
        k += 1;
        assert(out@ =~= target.take(k as int));
    }
    assert(out@ =~= target);
    out
}

fn go_along<A: Numeric>(num: &A, r: &Vec<Scalar>, stride: Scalar, p: &Vec<Scalar>) -> (q: Vec<
    Scalar,
>)
    requires
        num.sound(),
        r@.len() == p@.len(),
    ensures
        q@ == along(*num, r@, stride, p@),
{
    let ghost target = along(*num, r@, stride, p@);
    let mut out: Vec<Scalar> = Vec::with_capacity(r.len());
    let mut k: usize = 0;
    while k < r.len()
        invariant
            num.sound(),
            r@.len() == p@.len(),
            target == along(*num, r@, stride, p@),
            k <= r.len(),
            out@ == target.take(k as int),
        decreases r.len() - k,
    {
        out.push(num.plus(num.times(r[k], stride), p[k]));
        k += 1;
        assert(out@ =~= target.take(k as int));
    }
    assert(out@ =~= target);
    out
}

/// Scores the three candidates and takes the best. The reduction that the
/// model promises for it is its value with the sign flipped.
pub fn select_step<A: Numeric>(
    num: &A,
    x: &Vec<Scalar>,
    jh: &Vec<Vec<Scalar>>,
    diag_h: &Vec<Scalar>,
    g_h: &Vec<Scalar>,
    p: Vec<Scalar>,
    p_h: Vec<Scalar>,
    d: &Vec<Scalar>,
    delta: Scalar,
    lb: &Vec<Scalar>,
    ub: &Vec<Scalar>,
    theta: Scalar,
) -> (r: Step)
    requires
        num.sound(),
        (Scene {
            x: x@,
            jh: linalg::grid(jh@),
            diag_h: diag_h@,
            g_h: g_h@,
            d: d@,
            delta,
            lo: lb@,
            hi: ub@,
            theta,
        }).shaped(),
        p@.len() == x@.len(),
        p_h@.len() == x@.len(),
    ensures
        r.shows(
            chosen(
                *num,
                (Scene {
                    x: x@,
                    jh: linalg::grid(jh@),
                    diag_h: diag_h@,
                    g_h: g_h@,
                    d: d@,
                    delta,
                    lo: lb@,
                    hi: ub@,
                    theta,
                }),
                p@,
                p_h@,
            ),
        ),
        r.step@.len() == x@.len(),
        r.step_h@.len() == x@.len(),
{
    let ghost sc = Scene {
        x: x@,
        jh: linalg::grid(jh@),
        diag_h: diag_h@,
        g_h: g_h@,
        d: d@,
        delta,
        lo: lb@,
        hi: ub@,
        theta,
    };
    let ghost p0 = p@;
    let ghost ph0 = p_h@;
    let trial: Vec<Scalar> = sum_vec(num, x, &p);
    if in_bounds(&trial, lb, ub) {
        let value: Scalar = evaluate_quadratic(num, jh, g_h, &p_h, diag_h);
        return Step { step: p, step_h: p_h, value };
    }
    let (p_stride, hits): (Scalar, Vec<bool>) = step_size_to_bound(num, x, &p, lb, ub);
    let r_h: Vec<Scalar> = flip(&p_h, &hits);
    let r_vec: Vec<Scalar> = entrywise(num, d, &r_h);
    let cut: Vec<Scalar> = scale_vec(num, &p, p_stride);
    let cut_h: Vec<Scalar> = scale_vec(num, &p_h, p_stride);
    let on_bound: Vec<Scalar> = sum_vec(num, x, &cut);
    let to_region: Option<Scalar> = match intersect_trust_region(num, &cut_h, &r_h, delta) {
        Some((_, t)) => Some(t),
        None => None,
    };
    let (to_bound, _): (Scalar, Vec<bool>) = step_size_to_bound(num, &on_bound, &r_vec, lb, ub);
    let stride: Scalar = match to_region {
        Some(t) => to_bound.min(t),
        None => Scalar::neg_infinity(),
    };
    let (from, upto): (Scalar, Scalar) = if stride.gt(Scalar::zero()) {
        let l: Scalar = num.over(
            num.times(num.minus(Scalar::one(), theta), p_stride),
            stride,
        );
        let u: Scalar = if stride.same_value(to_bound) {
            num.times(theta, to_bound)
        } else {
            match to_region {
                Some(t) => t,
                None => Scalar::zero(),
            }
        };
        (l, u)
    } else {
        (Scalar::zero(), Scalar::from_bits(NEG_ONE_BITS))
    };
    assert((from, upto) == reflected_range(
        *num,
        theta,
        p_stride,
        to_bound,
        far_crossing(*num, cut_h@, r_h@, delta),
    ));
    let reflection: Step = if from.le(upto) {
        let (a, b, c): (Scalar, Scalar, Scalar) = build_quadratic_1d(
            num,
            jh,
            g_h,
            &r_h,
            diag_h,
            Some(&cut_h),
        );
        let (best, value): (Scalar, Scalar) = minimize_quadratic_1d(num, a, b, from, upto, c);
        let step_h: Vec<Scalar> = go_along(num, &r_h, best, &cut_h);
        Step { step: entrywise(num, d, &step_h), step_h, value }
    } else {
        Step { step: entrywise(num, d, &r_h), step_h: r_h, value: Scalar::infinity() }
    };
    assert(reflection.shows(reflected(*num, sc, p0, ph0)));
    let held: Vec<Scalar> = scale_vec(num, &cut, theta);
    let held_h: Vec<Scalar> = scale_vec(num, &cut_h, theta);
    let held_value: Scalar = evaluate_quadratic(num, jh, g_h, &held_h, diag_h);
    let truncation: Step = Step { step: held, step_h: held_h, value: held_value };
    assert(truncation.shows(truncated(*num, sc, p0, ph0)));
    let ag_h: Vec<Scalar> = numeric::neg(g_h);
    let size: Scalar = norm(num, &ag_h);
    let ag: Vec<Scalar> = entrywise(num, d, &ag_h);
    let descent: Step = if size.gt(Scalar::zero()) {
        let region: Scalar = num.over(delta, size);
        let (bound, _): (Scalar, Vec<bool>) = step_size_to_bound(num, x, &ag, lb, ub);
        let cap: Scalar = if bound.lt(region) {
            num.times(theta, bound)
        } else {
            region
        };
        let (a, b, _): (Scalar, Scalar, Scalar) = build_quadratic_1d(
            num,
            jh,
            g_h,
            &ag_h,
            diag_h,
            None,
        );
        let (best, value): (Scalar, Scalar) = minimize_quadratic_1d(
            num,
            a,
            b,
            Scalar::zero(),
            cap,
            Scalar::zero(),
        );
        Step {
            step: scale_vec(num, &ag, best),
            step_h: scale_vec(num, &ag_h, best),
            value,
        }
    } else {
        Step { step: ag, step_h: ag_h, value: Scalar::infinity() }
    };
    assert(descent.shows(downhill(*num, sc)));
    if truncation.value.lt(reflection.value) && truncation.value.lt(descent.value) {
        truncation
    } else if reflection.value.lt(truncation.value) && reflection.value.lt(descent.value) {
        reflection
    } else {
        descent
    }
}

} // verus!
