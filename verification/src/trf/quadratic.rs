//! The quadratic model, the radius and the tests that it feeds.
use crate::linalg;
use crate::linalg::TWO_BITS;
use crate::numeric;
use crate::numeric::{dot, entrywise, Numeric, NEG_ZERO_BITS};
use crate::scalar;
use crate::scalar::Scalar;
use crate::thick_opt::model;
use crate::thick_opt::model::mat_vec;
use crate::thick_opt::LmTermination;
use crate::trf::{HALF_BITS, NEG_HALF_BITS, QUARTER_BITS, THREE_QUARTERS_BITS};
use vstd::prelude::*;

verus! {

/// Each row times `s`.
pub open spec fn image<A: Numeric>(num: A, jh: Seq<Seq<Scalar>>, s: Seq<Scalar>) -> Seq<Scalar> {
    model::row_products(num, (Scalar { bits: NEG_ZERO_BITS }), jh, s)
}

/// The sum of `us[i] * diag[i] * vs[i]`.
pub open spec fn weighted<A: Numeric>(
    num: A,
    us: Seq<Scalar>,
    diag: Seq<Scalar>,
    vs: Seq<Scalar>,
) -> Scalar {
    numeric::dot_of(num, numeric::hadamard(num, us, diag), vs)
}

/// The model's value at `s`: half the squared image and curvature, plus the
/// slope.
pub open spec fn model_value<A: Numeric>(
    num: A,
    jh: Seq<Seq<Scalar>>,
    g: Seq<Scalar>,
    s: Seq<Scalar>,
    diag: Seq<Scalar>,
) -> Scalar {
    let js = image(num, jh, s);
    num.sum(
        num.product(
            (Scalar { bits: HALF_BITS }),
            num.sum(numeric::dot_of(num, js, js), weighted(num, s, diag, s)),
        ),
        numeric::dot_of(num, s, g),
    )
}

fn weigh<A: Numeric>(num: &A, us: &Vec<Scalar>, diag: &Vec<Scalar>, vs: &Vec<Scalar>) -> (r:
    Scalar)
    requires
        num.sound(),
        us@.len() == diag@.len(),
        vs@.len() == diag@.len(),
    ensures
        r == weighted(*num, us@, diag@, vs@),
{
    let h: Vec<Scalar> = entrywise(num, us, diag);
    dot(num, &h, vs)
}

/// Evaluates the model.
pub fn evaluate_quadratic<A: Numeric>(
    num: &A,
    jh: &Vec<Vec<Scalar>>,
    g_h: &Vec<Scalar>,
    s: &Vec<Scalar>,
    diag: &Vec<Scalar>,
) -> (r: Scalar)
    requires
        num.sound(),
        linalg::wide(linalg::grid(jh@), s@.len() as int),
        g_h@.len() == s@.len(),
        diag@.len() == s@.len(),
    ensures
        r == model_value(*num, linalg::grid(jh@), g_h@, s@, diag@),
{
    let js: Vec<Scalar> = mat_vec(num, Scalar::from_bits(NEG_ZERO_BITS), jh, s);
    let q: Scalar = num.plus(dot(num, &js, &js), weigh(num, s, diag, s));
    num.plus(num.times(Scalar::from_bits(HALF_BITS), q), dot(num, s, g_h))
}

/// The model on the line `s0 + t s`, as the coefficients of t squared, t and
/// one; without `s0` the line starts at the origin.
pub open spec fn on_line<A: Numeric>(
    num: A,
    jh: Seq<Seq<Scalar>>,
    g: Seq<Scalar>,
    s: Seq<Scalar>,
    diag: Seq<Scalar>,
    s0: Option<Seq<Scalar>>,
) -> (Scalar, Scalar, Scalar) {
    let half = Scalar { bits: HALF_BITS };
    let v = image(num, jh, s);
    let a = num.product(
        num.sum(numeric::dot_of(num, v, v), weighted(num, s, diag, s)),
        half,
    );
    let b = numeric::dot_of(num, g, s);
    match s0 {
        None => (a, b, Scalar::zero()),
        Some(z) => {
            let u = image(num, jh, z);
            (
                a,
                num.sum(
                    num.sum(b, numeric::dot_of(num, u, v)),
                    weighted(num, z, diag, s),
                ),
                num.sum(
                    num.sum(
                        num.product(half, numeric::dot_of(num, u, u)),
                        numeric::dot_of(num, g, z),
                    ),
                    num.product(half, weighted(num, z, diag, z)),
                ),
            )
        },
    }
}

/// Restricts the model to a line.
pub fn build_quadratic_1d<A: Numeric>(
    num: &A,
    jh: &Vec<Vec<Scalar>>,
    g_h: &Vec<Scalar>,
    s: &Vec<Scalar>,
    diag: &Vec<Scalar>,
    s0: Option<&Vec<Scalar>>,
) -> (r: (Scalar, Scalar, Scalar))
    requires
        num.sound(),
        linalg::wide(linalg::grid(jh@), s@.len() as int),
        g_h@.len() == s@.len(),
        diag@.len() == s@.len(),
        s0 matches Some(z) ==> z@.len() == s@.len(),
    ensures
        r == on_line(
            *num,
            linalg::grid(jh@),
            g_h@,
            s@,
            diag@,
            match s0 {
                Some(z) => Some(z@),
                None => None,
            },
        ),
{
    let start: Scalar = Scalar::from_bits(NEG_ZERO_BITS);
    let half: Scalar = Scalar::from_bits(HALF_BITS);
    let v: Vec<Scalar> = mat_vec(num, start, jh, s);
    let a: Scalar = num.times(num.plus(dot(num, &v, &v), weigh(num, s, diag, s)), half);
    let b: Scalar = dot(num, g_h, s);
    match s0 {
        None => (a, b, Scalar::zero()),
        Some(z) => {
            let u: Vec<Scalar> = mat_vec(num, start, jh, z);
            let b2: Scalar = num.plus(num.plus(b, dot(num, &u, &v)), weigh(num, z, diag, s));
            let c: Scalar = num.plus(
                num.plus(num.times(half, dot(num, &u, &u)), dot(num, g_h, z)),
                num.times(half, weigh(num, z, diag, z)),
            );
            (a, b2, c)
        },
    }
}

/// `a t^2 + b t + c`.
pub open spec fn parabola<A: Numeric>(
    num: A,
    a: Scalar,
    b: Scalar,
    c: Scalar,
    t: Scalar,
) -> Scalar {
    num.sum(num.product(t, num.sum(num.product(a, t), b)), c)
}

/// Where the parabola turns.
pub open spec fn vertex<A: Numeric>(num: A, a: Scalar, b: Scalar) -> Scalar {
    num.quotient(num.product((Scalar { bits: NEG_HALF_BITS }), b), a)
}

/// The best of the two ends and, where it lies strictly between them, the
/// vertex: a later one wins only if it is lower.
pub open spec fn lowest_on<A: Numeric>(
    num: A,
    a: Scalar,
    b: Scalar,
    lo: Scalar,
    hi: Scalar,
    c: Scalar,
) -> (Scalar, Scalar) {
    let at_lo = (lo, parabola(num, a, b, c, lo));
    let at_hi = (hi, parabola(num, a, b, c, hi));
    let ends = if scalar::less(at_hi.1, at_lo.1) {
        at_hi
    } else {
        at_lo
    };
    let t = vertex(num, a, b);
    let y = parabola(num, a, b, c, t);
    if !scalar::same(a, Scalar::zero()) && scalar::less(lo, t) && scalar::less(t, hi)
        && scalar::less(y, ends.1) {
        (t, y)
    } else {
        ends
    }
}

/// Minimizes the parabola over an interval.
pub fn minimize_quadratic_1d<A: Numeric>(
    num: &A,
    a: Scalar,
    b: Scalar,
    lb: Scalar,
    ub: Scalar,
    c: Scalar,
) -> (r: (Scalar, Scalar))
    requires
        num.sound(),
    ensures
        r == lowest_on(*num, a, b, lb, ub, c),
{
    let mut best_t: Scalar = lb;
    let mut best_y: Scalar = value_at(num, a, b, c, lb);
    let yu: Scalar = value_at(num, a, b, c, ub);
    if yu.lt(best_y) {
        best_t = ub;
        best_y = yu;
    }
    if !a.same_value(Scalar::zero()) {
        let t: Scalar = num.over(num.times(Scalar::from_bits(NEG_HALF_BITS), b), a);
        if lb.lt(t) && t.lt(ub) {
            let y: Scalar = value_at(num, a, b, c, t);
            if y.lt(best_y) {
                best_t = t;
                best_y = y;
            }
        }
    }
    (best_t, best_y)
}

fn value_at<A: Numeric>(num: &A, a: Scalar, b: Scalar, c: Scalar, t: Scalar) -> (r: Scalar)
    requires
        num.sound(),
    ensures
        r == parabola(*num, a, b, c, t),
{
    num.plus(num.times(t, num.plus(num.times(a, t), b)), c)
}

/// The minimum found is no higher than either end of the interval.
pub proof fn the_lowest_is_not_above_the_ends<A: Numeric>(
    num: A,
    a: Scalar,
    b: Scalar,
    lo: Scalar,
    hi: Scalar,
    c: Scalar,
)
    ensures
        !scalar::less(
            parabola(num, a, b, c, lo),
            lowest_on(num, a, b, lo, hi, c).1,
        ),
        !parabola(num, a, b, c, lo).nan() ==> !scalar::less(
            parabola(num, a, b, c, hi),
            lowest_on(num, a, b, lo, hi, c).1,
        ),
        lowest_on(num, a, b, lo, hi, c).1 == parabola(
            num,
            a,
            b,
            c,
            lowest_on(num, a, b, lo, hi, c).0,
        ),
{
}

/// Where the ray `x + t s` crosses the sphere of radius `delta`.
pub open spec fn crossings<A: Numeric>(
    num: A,
    x: Seq<Scalar>,
    s: Seq<Scalar>,
    delta: Scalar,
) -> Option<(Scalar, Scalar)> {
    let a = numeric::dot_of(num, s, s);
    let b = numeric::dot_of(num, x, s);
    let c = num.difference(numeric::dot_of(num, x, x), num.product(delta, delta));
    let disc = num.difference(num.product(b, b), num.product(a, c));
    if scalar::same(a, Scalar::zero()) || scalar::less(Scalar::zero(), c) || scalar::less(
        disc,
        Scalar::zero(),
    ) {
        None
    } else {
        let q = scalar::negated(num.sum(b, scalar::signed_as(num.square_root(disc), b)));
        let t1 = num.quotient(q, a);
        let t2 = num.quotient(c, q);
        if scalar::less(t1, t2) {
            Some((t1, t2))
        } else {
            Some((t2, t1))
        }
    }
}

/// Finds where a ray crosses the trust region; nothing if the ray is
/// degenerate or starts outside.
pub fn intersect_trust_region<A: Numeric>(
    num: &A,
    x: &Vec<Scalar>,
    s: &Vec<Scalar>,
    delta: Scalar,
) -> (r: Option<(Scalar, Scalar)>)
    requires
        num.sound(),
        x@.len() == s@.len(),
    ensures
        r == crossings(*num, x@, s@, delta),
{
    let a: Scalar = dot(num, s, s);
    if a.same_value(Scalar::zero()) {
        return None;
    }
    let b: Scalar = dot(num, x, s);
    let c: Scalar = num.minus(dot(num, x, x), num.times(delta, delta));
    if c.gt(Scalar::zero()) {
        return None;
    }
    let disc: Scalar = num.minus(num.times(b, b), num.times(a, c));
    if disc.lt(Scalar::zero()) {
        return None;
    }
    let q: Scalar = num.plus(b, num.root(disc).copysign(b)).neg();
    let t1: Scalar = num.over(q, a);
    let t2: Scalar = num.over(c, q);
    if t1.lt(t2) {
        Some((t1, t2))
    } else {
        Some((t2, t1))
    }
}

/// Obtained over predicted reduction; one if both are zero, zero if the model
/// promised nothing.
pub open spec fn reduction_ratio<A: Numeric>(
    num: A,
    actual: Scalar,
    predicted: Scalar,
) -> Scalar {
    if scalar::less(Scalar::zero(), predicted) {
        num.quotient(actual, predicted)
    } else if scalar::same(predicted, Scalar::zero()) && scalar::same(actual, Scalar::zero()) {
        Scalar::one()
    } else {
        Scalar::zero()
    }
}

/// The radius after a step: a quarter of the step if that was bad, doubled if
/// it was good and pressed against the radius.
pub open spec fn next_radius<A: Numeric>(
    num: A,
    delta: Scalar,
    ratio: Scalar,
    step_norm: Scalar,
    bound_hit: bool,
) -> Scalar {
    if scalar::less(ratio, (Scalar { bits: QUARTER_BITS })) {
        num.product((Scalar { bits: QUARTER_BITS }), step_norm)
    } else if scalar::less((Scalar { bits: THREE_QUARTERS_BITS }), ratio) && bound_hit {
        num.product(delta, (Scalar { bits: TWO_BITS }))
    } else {
        delta
    }
}

/// The radius and the ratio after a step.
pub fn update_tr_radius<A: Numeric>(
    num: &A,
    delta: Scalar,
    actual_reduction: Scalar,
    predicted_reduction: Scalar,
    step_norm: Scalar,
    bound_hit: bool,
) -> (r: (Scalar, Scalar))
    requires
        num.sound(),
    ensures
        r.1 == reduction_ratio(*num, actual_reduction, predicted_reduction),
        r.0 == next_radius(*num, delta, r.1, step_norm, bound_hit),
{
    let ratio: Scalar = if predicted_reduction.gt(Scalar::zero()) {
        num.over(actual_reduction, predicted_reduction)
    } else if predicted_reduction.same_value(Scalar::zero()) && actual_reduction.same_value(
        Scalar::zero(),
    ) {
        Scalar::one()
    } else {
        Scalar::zero()
    };
    let next: Scalar = if ratio.lt(Scalar::from_bits(QUARTER_BITS)) {
        num.times(Scalar::from_bits(QUARTER_BITS), step_norm)
    } else if ratio.gt(Scalar::from_bits(THREE_QUARTERS_BITS)) && bound_hit {
        num.times(delta, Scalar::from_bits(TWO_BITS))
    } else {
        delta
    };
    (next, ratio)
}

/// Why a step ends the run, if it does: the cost test counts only for a step
/// that was a quarter as good as promised.
pub open spec fn end_by_step<A: Numeric>(
    num: A,
    d_f: Scalar,
    f: Scalar,
    dx_norm: Scalar,
    x_norm: Scalar,
    ratio: Scalar,
    ftol: Scalar,
    xtol: Scalar,
) -> Option<LmTermination> {
    if scalar::less(d_f, num.product(ftol, f)) && scalar::less(
        (Scalar { bits: QUARTER_BITS }),
        ratio,
    ) {
        Some(LmTermination::Cost)
    } else if scalar::less(dx_norm, num.product(xtol, num.sum(xtol, x_norm))) {
        Some(LmTermination::Step)
    } else {
        None
    }
}

/// The cost and step tests.
pub fn check_termination<A: Numeric>(
    num: &A,
    d_f: Scalar,
    f: Scalar,
    dx_norm: Scalar,
    x_norm: Scalar,
    ratio: Scalar,
    ftol: Scalar,
    xtol: Scalar,
) -> (r: Option<LmTermination>)
    requires
        num.sound(),
    ensures
        r == end_by_step(*num, d_f, f, dx_norm, x_norm, ratio, ftol, xtol),
{
    if d_f.lt(num.times(ftol, f)) && ratio.gt(Scalar::from_bits(QUARTER_BITS)) {
        Some(LmTermination::Cost)
    } else if dx_norm.lt(num.times(xtol, num.plus(xtol, x_norm))) {
        Some(LmTermination::Step)
    } else {
        None
    }
}

} // verus!
