//! The trust-region reflective run.
use crate::linalg;
use crate::linalg::{householder_qr, stack_diagonal, upper_triangle, zero_vec, TWO_BITS};
use crate::numeric;
use crate::numeric::{dot, entrywise, norm, sum_vec, Numeric};
use crate::scalar;
use crate::scalar::Scalar;
use crate::thick_opt;
use crate::thick_opt::driver;
use crate::thick_opt::driver::{obtain_jacobian, JacobianEnd};
use crate::thick_opt::ladder::NAN_BITS;
use crate::thick_opt::model;
use crate::thick_opt::model::{head_of, jt_times, peak_of};
use crate::thick_opt::{
    evaluate, JacobianSource, LmConfig, LmFault, LmResult, LmTermination,
};
use crate::trf::geometry;
use crate::trf::geometry::{cl_scaling_vector, make_strictly_feasible};
use crate::trf::quadratic;
use crate::trf::quadratic::{check_termination, update_tr_radius};
use crate::trf::select;
use crate::trf::select::{select_step, Scene, Step};
use crate::trf::subproblem;
use crate::trf::subproblem::solve_lsq_trust_region;
use crate::trf::{HALF_BITS, QUARTER_BITS};
use vstd::prelude::*;

verus! {

/// Relative step back of the starting point: 1e-10.
pub const INITIAL_RSTEP_BITS: u64 = 0x3ddb_7cdf_d9d7_bdbb;

/// Least share of the way to a bound that a step may take: 0.995.
pub const THETA_BITS: u64 = 0x3fef_d70a_3d70_a3d7;

/// Share of the radius from which a step presses against it: 0.95.
pub const PRESS_BITS: u64 = 0x3fee_6666_6666_6666;

// ---------------------------------------------------------------------------
// Inputs
// ---------------------------------------------------------------------------
/// What is wrong with coordinate `j`.
pub open spec fn coordinate_fault(x: Scalar, lo: Scalar, hi: Scalar, j: int) -> Option<LmFault> {
    if scalar::less(hi, lo) {
        Some(LmFault::BoundsCrossed { index: j as usize })
    } else if !(scalar::at_most(lo, x) && scalar::at_most(x, hi)) {
        Some(LmFault::StartOutside { index: j as usize, x, lo, hi })
    } else if !lo.finite() || !hi.finite() {
        Some(LmFault::BoundNotFinite { index: j as usize, lo, hi })
    } else {
        None
    }
}

/// The first fault from coordinate `j` on.
pub open spec fn first_fault(
    x: Seq<Scalar>,
    lo: Seq<Scalar>,
    hi: Seq<Scalar>,
    j: int,
) -> Option<LmFault>
    decreases x.len() - j,
{
    if j >= x.len() {
        None
    } else {
        match coordinate_fault(x[j], lo[j], hi[j], j) {
            Some(fault) => Some(fault),
            None => first_fault(x, lo, hi, j + 1),
        }
    }
}

/// What is wrong with the inputs.
pub open spec fn input_fault(x: Seq<Scalar>, lo: Seq<Scalar>, hi: Seq<Scalar>) -> Option<
    LmFault,
> {
    if x.len() == 0 {
        Some(LmFault::NoParameters)
    } else if lo.len() != x.len() || hi.len() != x.len() {
        Some(LmFault::BoundLength)
    } else {
        first_fault(x, lo, hi, 0)
    }
}

fn check_inputs(x0: &Vec<Scalar>, lb: &Vec<Scalar>, ub: &Vec<Scalar>) -> (r: Option<LmFault>)
    ensures
        r == input_fault(x0@, lb@, ub@),
        r is None ==> x0@.len() > 0 && lb@.len() == x0@.len() && ub@.len() == x0@.len(),
{
    let n: usize = x0.len();
    if n == 0 {
        return Some(LmFault::NoParameters);
    }
    if lb.len() != n || ub.len() != n {
        return Some(LmFault::BoundLength);
    }
    let mut j: usize = 0;
    while j < n
        invariant
            n == x0@.len(),
            n > 0,
            lb@.len() == n,
            ub@.len() == n,
            j <= n,
            first_fault(x0@, lb@, ub@, j as int) == first_fault(x0@, lb@, ub@, 0),
        decreases n - j,
    {
        let x: Scalar = x0[j];
        let lo: Scalar = lb[j];
        let hi: Scalar = ub[j];
        if lo.gt(hi) {
            return Some(LmFault::BoundsCrossed { index: j });
        }
        if !(lo.le(x) && x.le(hi)) {
            return Some(LmFault::StartOutside { index: j, x, lo, hi });
        }
        if !lo.is_finite() || !hi.is_finite() {
            return Some(LmFault::BoundNotFinite { index: j, lo, hi });
        }
        j += 1;
    }
    None
}

// ---------------------------------------------------------------------------
// The scaled model of an iteration
// ---------------------------------------------------------------------------
/// The square roots of the entries.
pub open spec fn roots<A: Numeric>(num: A, xs: Seq<Scalar>) -> Seq<Scalar> {
    xs.map_values(|x: Scalar| num.square_root(x))
}

/// Each column times its scale.
pub open spec fn scaled_columns<A: Numeric>(
    num: A,
    jac: Seq<Seq<Scalar>>,
    d: Seq<Scalar>,
) -> Seq<Seq<Scalar>> {
    jac.map_values(|row: Seq<Scalar>| numeric::hadamard(num, row, d))
}

/// The diagonal below the scaled Jacobian: the root of the curvature, and a
/// one where a column carries no direction at all.
pub open spec fn curvature_rows<A: Numeric>(
    num: A,
    jh: Seq<Seq<Scalar>>,
    diag_h: Seq<Scalar>,
) -> Seq<Scalar> {
    Seq::new(
        diag_h.len(),
        |k: int|
            if scalar::less(
                Scalar::zero(),
                num.sum(
                    numeric::dot_of(num, linalg::col(jh, k), linalg::col(jh, k)),
                    diag_h[k],
                ),
            ) {
                num.square_root(scalar::greater(diag_h[k], Scalar::zero()))
            } else {
                Scalar::one()
            },
    )
}

/// The model of an iteration at `x`.
pub struct Frame {
    /// Roots of the scaling vector.
    pub d: Seq<Scalar>,
    pub diag_h: Seq<Scalar>,
    pub g_h: Seq<Scalar>,
    pub jh: Seq<Seq<Scalar>>,
}

/// The scaled model of gradient `g` and Jacobian `jac` at `x`.
pub open spec fn frame_at<A: Numeric>(
    num: A,
    x: Seq<Scalar>,
    g: Seq<Scalar>,
    jac: Seq<Seq<Scalar>>,
    lo: Seq<Scalar>,
    hi: Seq<Scalar>,
) -> Frame {
    let d = roots(num, geometry::cl_scaling(num, x, g, lo, hi));
    Frame {
        d,
        diag_h: numeric::hadamard(num, g, geometry::cl_slope(num, x, g, lo, hi)),
        g_h: numeric::hadamard(num, d, g),
        jh: scaled_columns(num, jac, d),
    }
}

/// The factor of the scaled model and the head of the rotated residuals.
pub open spec fn frame_factor<A: Numeric>(num: A, fr: Frame, f: Seq<Scalar>) -> Option<
    (Seq<Seq<Scalar>>, Seq<Scalar>),
> {
    let n = fr.d.len() as int;
    match linalg::factored(
        num,
        fr.jh + linalg::diagonal(curvature_rows(num, fr.jh, fr.diag_h)),
        f + linalg::zeros(n),
        n,
        n,
    ) {
        None => None,
        Some((h, c)) => Some((linalg::triangle(h, n), c.take(n))),
    }
}

/// The bound-aware size of the gradient.
pub open spec fn gradient_size<A: Numeric>(
    num: A,
    x: Seq<Scalar>,
    g: Seq<Scalar>,
    lo: Seq<Scalar>,
    hi: Seq<Scalar>,
) -> Scalar {
    let gv = numeric::hadamard(num, g, geometry::cl_scaling(num, x, g, lo, hi));
    model::peak(gv, gv.len() as int)
}

/// The model in hand.
pub struct Working {
    pub d: Vec<Scalar>,
    pub diag_h: Vec<Scalar>,
    pub g_h: Vec<Scalar>,
    pub jh: Vec<Vec<Scalar>>,
}

impl Working {
    /// This is the frame `fr`.
    pub open spec fn shows(&self, fr: Frame) -> bool {
        &&& self.d@ == fr.d
        &&& self.diag_h@ == fr.diag_h
        &&& self.g_h@ == fr.g_h
        &&& linalg::grid(self.jh@) == fr.jh
    }
}

fn root_vec<A: Numeric>(num: &A, xs: &Vec<Scalar>) -> (r: Vec<Scalar>)
    requires
        num.sound(),
    ensures
        r@ == roots(*num, xs@),
{
    let ghost target = roots(*num, xs@);
    let mut out: Vec<Scalar> = Vec::with_capacity(xs.len());
    let mut i: usize = 0;
    while i < xs.len()
        invariant
            num.sound(),
            target == roots(*num, xs@),
            i <= xs.len(),
            out@ == target.take(i as int),
        decreases xs.len() - i,
    {
        out.push(num.root(xs[i]));
        i += 1;
        assert(out@ =~= target.take(i as int));
    }
    assert(out@ =~= target);
    out
}

fn scale_columns<A: Numeric>(num: &A, jac: &Vec<Vec<Scalar>>, d: &Vec<Scalar>) -> (r: Vec<
    Vec<Scalar>,
>)
    requires
        num.sound(),
        linalg::wide(linalg::grid(jac@), d@.len() as int),
    ensures
        linalg::grid(r@) == scaled_columns(*num, linalg::grid(jac@), d@),
        linalg::wide(linalg::grid(r@), d@.len() as int),
        r@.len() == jac@.len(),
{
    let ghost g = linalg::grid(jac@);
    let ghost target = scaled_columns(*num, g, d@);
    let mut out: Vec<Vec<Scalar>> = Vec::with_capacity(jac.len());
    let mut i: usize = 0;
    while i < jac.len()
        invariant
            num.sound(),
            g == linalg::grid(jac@),
            linalg::wide(g, d@.len() as int),
            target == scaled_columns(*num, g, d@),
            i <= jac.len(),
            out@.len() == i,
            linalg::grid(out@) == target.take(i as int),
        decreases jac.len() - i,
    {
        assert(g[i as int].len() == d@.len());
        let row: Vec<Scalar> = entrywise(num, &jac[i], d);
        let ghost before = linalg::grid(out@);
        out.push(row);
        assert(linalg::grid(out@) =~= before.push(target[i as int]));
        i += 1;
        assert(linalg::grid(out@) =~= target.take(i as int));
    }
    proof {
        assert(target.take(i as int) =~= target);
        assert forall|k: int| 0 <= k < linalg::grid(out@).len() implies (
        #[trigger] linalg::grid(out@)[k]).len() == d@.len() by {
            assert(linalg::grid(out@)[k] == target[k]);
            assert(g[k].len() == d@.len());
        }
    }
    out
}

fn curvature<A: Numeric>(num: &A, jh: &Vec<Vec<Scalar>>, diag_h: &Vec<Scalar>) -> (r: Vec<Scalar>)
    requires
        num.sound(),
        linalg::wide(linalg::grid(jh@), diag_h@.len() as int),
    ensures
        r@ == curvature_rows(*num, linalg::grid(jh@), diag_h@),
{
    let n: usize = diag_h.len();
    let ghost target = curvature_rows(*num, linalg::grid(jh@), diag_h@);
    let mut out: Vec<Scalar> = Vec::with_capacity(n);
    let mut k: usize = 0;
    while k < n
        invariant
            num.sound(),
            n == diag_h@.len(),
            linalg::wide(linalg::grid(jh@), n as int),
            target == curvature_rows(*num, linalg::grid(jh@), diag_h@),
            k <= n,
            out@ == target.take(k as int),
        decreases n - k,
    {
        let ck: Vec<Scalar> = linalg::column_of(jh, k, n);
        let col_sq: Scalar = num.plus(dot(num, &ck, &ck), diag_h[k]);
        if col_sq.gt(Scalar::zero()) {
            out.push(num.root(diag_h[k].max(Scalar::zero())));
        } else {
            out.push(Scalar::one());
        }
        k += 1;
        assert(out@ =~= target.take(k as int));
    }
    assert(out@ =~= target);
    out
}

fn factor_frame<A: Numeric>(num: &A, w: &Working, f: &Vec<Scalar>, Ghost(fr): Ghost<Frame>) -> (r:
    Option<(Vec<Vec<Scalar>>, Vec<Scalar>)>)
    requires
        num.sound(),
        w.shows(fr),
        w.diag_h@.len() == w.d@.len(),
        w.jh@.len() == f@.len(),
        linalg::wide(fr.jh, w.d@.len() as int),
    ensures
        match r {
            None => frame_factor(*num, fr, f@) is None,
            Some((t, q)) => {
                &&& frame_factor(*num, fr, f@) == Some((linalg::grid(t@), q@))
                &&& t@.len() == w.d@.len()
                &&& q@.len() == w.d@.len()
                &&& linalg::wide(linalg::grid(t@), w.d@.len() as int)
                &&& linalg::grid(t@) == linalg::triangle(
                    linalg::grid(t@),
                    w.d@.len() as int,
                )
            },
        },
{
    let n: usize = w.d.len();
    let below: Vec<Scalar> = curvature(num, &w.jh, &w.diag_h);
    let top: Vec<Vec<Scalar>> = model::copy_rows(&w.jh);
    let aug: Vec<Vec<Scalar>> = stack_diagonal(top, &below);
    let mut b: Vec<Scalar> = numeric::copy(f);
    let mut tail: Vec<Scalar> = zero_vec(n);
    b.append(&mut tail);
    assert(b@ =~= f@ + linalg::zeros(n as int));
    match householder_qr(num, aug, b, n) {
        Err(_) => None,
        Ok((h, c)) => {
            let t: Vec<Vec<Scalar>> = upper_triangle(&h, n);
            let q: Vec<Scalar> = head_of(&c, n);
            assert(linalg::triangle(linalg::grid(t@), n as int) =~~= linalg::grid(t@));
            Some((t, q))
        },
    }
}

// ---------------------------------------------------------------------------
// Trial steps of one iteration
// ---------------------------------------------------------------------------
/// What the trial steps of an iteration start from.
pub struct Base {
    pub x: Seq<Scalar>,
    pub f: Seq<Scalar>,
    pub cost: Scalar,
    pub fr: Frame,
    pub r_tri: Seq<Seq<Scalar>>,
    pub qtf: Seq<Scalar>,
    pub lo: Seq<Scalar>,
    pub hi: Seq<Scalar>,
    pub theta: Scalar,
}

/// A point that lowered the cost.
pub struct NewPoint {
    pub x: Vec<Scalar>,
    pub f: Vec<Scalar>,
    pub cost: Scalar,
}

/// How the trial steps of an iteration end.
pub struct TrialEnd {
    pub accepted: Option<NewPoint>,
    pub delta: Scalar,
    pub alpha: Scalar,
    pub ratio: Scalar,
    pub evals: usize,
    pub termination: Option<LmTermination>,
}

/// The end of the trial steps, or a failure.
pub enum Trials {
    End { end: TrialEnd },
    Fault { fault: LmFault },
}

/// All entries are finite.
pub open spec fn all_finite(xs: Seq<Scalar>) -> bool {
    forall|i: int| 0 <= i < xs.len() ==> (#[trigger] xs[i]).finite()
}

/// The candidate chosen at radius `delta` for the scaled step `p_h`.
pub open spec fn trial_candidate<A: Numeric>(
    num: A,
    b: Base,
    delta: Scalar,
    p_h: Seq<Scalar>,
) -> select::Candidate {
    select::chosen(
        num,
        (Scene {
            x: b.x,
            jh: b.fr.jh,
            diag_h: b.fr.diag_h,
            g_h: b.fr.g_h,
            d: b.fr.d,
            delta,
            lo: b.lo,
            hi: b.hi,
            theta: b.theta,
        }),
        numeric::hadamard(num, b.fr.d, p_h),
        p_h,
    )
}

/// Where a candidate leads, off the bounds by an ulp.
pub open spec fn trial_of<A: Numeric>(num: A, b: Base, c: select::Candidate) -> Seq<Scalar> {
    geometry::interior(num, numeric::added(num, b.x, c.step), b.lo, b.hi, Scalar::zero())
}

/// Half the squared norm.
pub open spec fn half_cost<A: Numeric>(num: A, f: Seq<Scalar>) -> Scalar {
    num.product((Scalar { bits: HALF_BITS }), numeric::dot_of(num, f, f))
}

/// The radius and the tests after a trial with finite residuals.
pub struct Verdict {
    pub actual: Scalar,
    pub delta: Scalar,
    pub ratio: Scalar,
    pub termination: Option<LmTermination>,
}

/// What a trial with finite residuals `f` comes to.
pub open spec fn verdict<A: Numeric>(
    num: A,
    cfg: LmConfig,
    b: Base,
    c: select::Candidate,
    delta: Scalar,
    f: Seq<Scalar>,
) -> Verdict {
    let actual = num.difference(b.cost, half_cost(num, f));
    let size = numeric::norm_of(num, c.step_h);
    let ratio = quadratic::reduction_ratio(num, actual, scalar::negated(c.value));
    let pressed = scalar::less(num.product((Scalar { bits: PRESS_BITS }), delta), size);
    Verdict {
        actual,
        delta: quadratic::next_radius(num, delta, ratio, size, pressed),
        ratio,
        termination: quadratic::end_by_step(
            num,
            actual,
            b.cost,
            numeric::norm_of(num, c.step),
            numeric::norm_of(num, b.x),
            ratio,
            cfg.ftol,
            cfg.xtol,
        ),
    }
}

/// `got` is the trial point if its reduction is positive.
pub open spec fn accepted_as<A: Numeric>(
    num: A,
    v: Verdict,
    x: Seq<Scalar>,
    f: Vec<Scalar>,
    got: Option<NewPoint>,
) -> bool {
    if scalar::less(Scalar::zero(), v.actual) {
        got matches Some(p) && p.x@ == x && p.f == f && p.cost == half_cost(num, f@)
    } else {
        got is None
    }
}

/// The damping rescaled to the new radius.
pub open spec fn rescaled<A: Numeric>(
    num: A,
    alpha: Scalar,
    delta: Scalar,
    next: Scalar,
) -> Scalar {
    if scalar::less(Scalar::zero(), next) {
        num.product(alpha, num.quotient(delta, next))
    } else {
        alpha
    }
}

/// `t` ends the trials with these values.
pub open spec fn ends_with(
    t: Trials,
    delta: Scalar,
    alpha: Scalar,
    ratio: Scalar,
    evals: int,
    termination: Option<LmTermination>,
) -> bool {
    &&& t matches Trials::End { end }
    &&& end.delta == delta
    &&& end.alpha == alpha
    &&& end.ratio == ratio
    &&& end.evals == evals
    &&& end.termination == termination
}

/// The point that ended the trials.
pub open spec fn gained(t: Trials) -> Option<NewPoint> {
    match t {
        Trials::End { end } => end.accepted,
        Trials::Fault { .. } => None,
    }
}

/// `t` is a possible end of the trials from this radius and damping. A
/// subproblem that cannot be solved stalls; residuals that are not finite
/// shrink the radius to a quarter of the step; any other trial updates the
/// radius, and the trials go on as long as nothing was gained.
pub open spec fn tries<A: Numeric, F: Fn(&Vec<Scalar>) -> Result<Vec<Scalar>, String>>(
    num: A,
    f: F,
    cfg: LmConfig,
    b: Base,
    delta: Scalar,
    alpha_in: Scalar,
    ratio: Scalar,
    evals: int,
    t: Trials,
) -> bool
    decreases cfg.max_evals - evals,
{
    if evals >= cfg.max_evals {
        ends_with(t, delta, alpha_in, ratio, evals, None) && gained(t) is None
    } else {
        match subproblem::region_step(
            num,
            b.r_tri,
            b.qtf,
            b.f.len() as usize,
            b.x.len() as int,
            numeric::norm_of(num, b.fr.g_h),
            delta,
            alpha_in,
        ) {
            None => ends_with(t, delta, alpha_in, ratio, evals, Some(LmTermination::Stalled))
                && gained(t) is None,
            Some((p_h, alpha)) => {
                let c = trial_candidate(num, b, delta, p_h);
                let x = trial_of(num, b, c);
                let shrunk = num.product(
                    (Scalar { bits: QUARTER_BITS }),
                    numeric::norm_of(num, c.step_h),
                );
                exists|v: Result<Vec<Scalar>, String>|
                    {
                        &&& #[trigger] thick_opt::evaluated(f, x, v)
                        &&& match v {
                            Err(reason) => t == (Trials::Fault {
                                fault: LmFault::Failed { reason },
                            }),
                            Ok(fv) => if fv@.len() != b.f.len() {
                                t == (Trials::Fault {
                                    fault: LmFault::ResidualLength {
                                        expected: b.f.len() as usize,
                                        found: fv@.len() as usize,
                                    },
                                })
                            } else if !all_finite(fv@) {
                                if scalar::less(Scalar::zero(), shrunk) {
                                    tries(
                                        num,
                                        f,
                                        cfg,
                                        b,
                                        shrunk,
                                        alpha,
                                        ratio,
                                        evals + 1,
                                        t,
                                    )
                                } else {
                                    ends_with(
                                        t,
                                        shrunk,
                                        alpha,
                                        ratio,
                                        evals + 1,
                                        Some(LmTermination::Stalled),
                                    ) && gained(t) is None
                                }
                            } else {
                                let w = verdict(num, cfg, b, c, delta, fv@);
                                let alpha2 = rescaled(num, alpha, delta, w.delta);
                                if w.termination is Some {
                                    &&& ends_with(
                                        t,
                                        delta,
                                        alpha,
                                        w.ratio,
                                        evals + 1,
                                        w.termination,
                                    )
                                    &&& accepted_as(num, w, x, fv, gained(t))
                                } else if !scalar::less(Scalar::zero(), w.delta)
                                    || !w.delta.finite() {
                                    &&& ends_with(
                                        t,
                                        w.delta,
                                        alpha2,
                                        w.ratio,
                                        evals + 1,
                                        Some(LmTermination::Stalled),
                                    )
                                    &&& accepted_as(num, w, x, fv, gained(t))
                                } else if scalar::at_most(w.actual, Scalar::zero()) {
                                    tries(
                                        num,
                                        f,
                                        cfg,
                                        b,
                                        w.delta,
                                        alpha2,
                                        w.ratio,
                                        evals + 1,
                                        t,
                                    )
                                } else {
                                    &&& ends_with(
                                        t,
                                        w.delta,
                                        alpha2,
                                        w.ratio,
                                        evals + 1,
                                        None,
                                    )
                                    &&& accepted_as(num, w, x, fv, gained(t))
                                }
                            },
                        }
                    }
            },
        }
    }
}

fn finite_vec(xs: &Vec<Scalar>) -> (r: bool)
    ensures
        r == all_finite(xs@),
{
    let mut i: usize = 0;
    while i < xs.len()
        invariant
            i <= xs.len(),
            forall|k: int| 0 <= k < i ==> (#[trigger] xs@[k]).finite(),
        decreases xs.len() - i,
    {
        if !xs[i].is_finite() {
            assert(!xs@[i as int].finite());
            return false;
        }
        i += 1;
    }
    true
}

/// The evaluations that the trials report.
pub open spec fn trial_evals(t: Trials) -> int {
    match t {
        Trials::End { end } => end.evals as int,
        Trials::Fault { .. } => 0,
    }
}

/// What one trial comes to.
pub enum Attempt {
    Over { t: Trials },
    Again { delta: Scalar, alpha: Scalar, ratio: Scalar, evals: usize },
}

/// `a` leads to the end `t` if the trials from where it leaves off do.
pub open spec fn attempt_leads<A: Numeric, F: Fn(&Vec<Scalar>) -> Result<Vec<Scalar>, String>>(
    num: A,
    f: F,
    cfg: LmConfig,
    b: Base,
    a: Attempt,
    t: Trials,
) -> bool {
    match a {
        Attempt::Over { t: o } => t == o,
        Attempt::Again { delta, alpha, ratio, evals } => tries(
            num,
            f,
            cfg,
            b,
            delta,
            alpha,
            ratio,
            evals as int,
            t,
        ),
    }
}

fn attempt<A: Numeric, F: Fn(&Vec<Scalar>) -> Result<Vec<Scalar>, String>>(
    num: &A,
    f: &F,
    cfg: &LmConfig,
    w: &Working,
    x: &Vec<Scalar>,
    fv: &Vec<Scalar>,
    cost: Scalar,
    r_tri: &Vec<Vec<Scalar>>,
    qtf: &Vec<Scalar>,
    lb: &Vec<Scalar>,
    ub: &Vec<Scalar>,
    theta: Scalar,
    g_h_norm: Scalar,
    delta: Scalar,
    alpha_in: Scalar,
    ratio: Scalar,
    evals: usize,
    Ghost(b): Ghost<Base>,
) -> (a: Attempt)
    requires
        num.sound(),
        thick_opt::askable(*f),
        based(b, w, x@, fv@, cost, r_tri@, qtf@, lb@, ub@, theta),
        g_h_norm == numeric::norm_of(*num, b.fr.g_h),
        evals < cfg.max_evals,
    ensures
        forall|t: Trials| #[trigger]
            attempt_leads(*num, *f, *cfg, b, a, t) ==> tries(
                *num,
                *f,
                *cfg,
                b,
                delta,
                alpha_in,
                ratio,
                evals as int,
                t,
            ),
        match a {
            Attempt::Over { t } => trial_evals(t) <= evals + 1 && (gained(t) matches Some(p)
                ==> p.x@.len() == x@.len() && p.f@.len() == fv@.len()),
            Attempt::Again { evals: e, .. } => e == evals + 1,
        },
{
    let n: usize = x.len();
    let m: usize = fv.len();
    let (p_h, alpha): (Vec<Scalar>, Scalar) = match solve_lsq_trust_region(
        num,
        r_tri,
        qtf,
        m,
        n,
        g_h_norm,
        delta,
        alpha_in,
    ) {
        None => {
            return Attempt::Over {
                t: Trials::End {
                    end: TrialEnd {
                        accepted: None,
                        delta,
                        alpha: alpha_in,
                        ratio,
                        evals,
                        termination: Some(LmTermination::Stalled),
                    },
                },
            };
        },
        Some(s) => s,
    };
    let p: Vec<Scalar> = entrywise(num, &w.d, &p_h);
    let ghost c = trial_candidate(*num, b, delta, p_h@);
    let s: Step = select_step(
        num,
        x,
        &w.jh,
        &w.diag_h,
        &w.g_h,
        p,
        p_h,
        &w.d,
        delta,
        lb,
        ub,
        theta,
    );
    assert(s.shows(c));
    let moved: Vec<Scalar> = sum_vec(num, x, &s.step);
    let x_new: Vec<Scalar> = make_strictly_feasible(num, &moved, lb, ub, Scalar::zero());
    assert(x_new@ == trial_of(*num, b, c));
    let got: Result<Vec<Scalar>, String> = evaluate(f, &x_new);
    assert(thick_opt::evaluated(*f, trial_of(*num, b, c), got));
    let f_new: Vec<Scalar> = match got {
        Err(reason) => {
            return Attempt::Over { t: Trials::Fault { fault: LmFault::Failed { reason } } };
        },
        Ok(v) => v,
    };
    if f_new.len() != m {
        return Attempt::Over {
            t: Trials::Fault {
                fault: LmFault::ResidualLength { expected: m, found: f_new.len() },
            },
        };
    }
    let size: Scalar = norm(num, &s.step_h);
    if !finite_vec(&f_new) {
        let shrunk: Scalar = num.times(Scalar::from_bits(QUARTER_BITS), size);
        if !shrunk.gt(Scalar::zero()) {
            return Attempt::Over {
                t: Trials::End {
                    end: TrialEnd {
                        accepted: None,
                        delta: shrunk,
                        alpha,
                        ratio,
                        evals: evals + 1,
                        termination: Some(LmTermination::Stalled),
                    },
                },
            };
        }
        return Attempt::Again { delta: shrunk, alpha, ratio, evals: evals + 1 };
    }
    let ghost wd = verdict(*num, *cfg, b, c, delta, f_new@);
    let cost_new: Scalar = num.times(Scalar::from_bits(HALF_BITS), dot(num, &f_new, &f_new));
    let actual: Scalar = num.minus(cost, cost_new);
    let pressed: bool = size.gt(num.times(Scalar::from_bits(PRESS_BITS), delta));
    let (delta_new, ratio_new): (Scalar, Scalar) = update_tr_radius(
        num,
        delta,
        actual,
        s.value.neg(),
        size,
        pressed,
    );
    let termination: Option<LmTermination> = check_termination(
        num,
        actual,
        cost,
        norm(num, &s.step),
        norm(num, x),
        ratio_new,
        cfg.ftol,
        cfg.xtol,
    );
    assert(actual == wd.actual && delta_new == wd.delta && ratio_new == wd.ratio && termination
        == wd.termination);
    let accepted: Option<NewPoint> = if actual.gt(Scalar::zero()) {
        Some(NewPoint { x: x_new, f: f_new, cost: cost_new })
    } else {
        None
    };
    assert(accepted_as(*num, wd, trial_of(*num, b, c), f_new, accepted));
    if termination.is_some() {
        return Attempt::Over {
            t: Trials::End {
                end: TrialEnd {
                    accepted,
                    delta,
                    alpha,
                    ratio: ratio_new,
                    evals: evals + 1,
                    termination,
                },
            },
        };
    }
    let alpha_new: Scalar = if delta_new.gt(Scalar::zero()) {
        num.times(alpha, num.over(delta, delta_new))
    } else {
        alpha
    };
    if !delta_new.gt(Scalar::zero()) || !delta_new.is_finite() {
        return Attempt::Over {
            t: Trials::End {
                end: TrialEnd {
                    accepted,
                    delta: delta_new,
                    alpha: alpha_new,
                    ratio: ratio_new,
                    evals: evals + 1,
                    termination: Some(LmTermination::Stalled),
                },
            },
        };
    }
    if actual.le(Scalar::zero()) {
        return Attempt::Again {
            delta: delta_new,
            alpha: alpha_new,
            ratio: ratio_new,
            evals: evals + 1,
        };
    }
    Attempt::Over {
        t: Trials::End {
            end: TrialEnd {
                accepted,
                delta: delta_new,
                alpha: alpha_new,
                ratio: ratio_new,
                evals: evals + 1,
                termination: None,
            },
        },
    }
}

/// The values in hand are those of the base.
pub open spec fn based(
    b: Base,
    w: &Working,
    x: Seq<Scalar>,
    f: Seq<Scalar>,
    cost: Scalar,
    r_tri: Seq<Vec<Scalar>>,
    qtf: Seq<Scalar>,
    lo: Seq<Scalar>,
    hi: Seq<Scalar>,
    theta: Scalar,
) -> bool {
    let n = x.len() as int;
    &&& b.x == x
    &&& b.f == f
    &&& b.cost == cost
    &&& w.shows(b.fr)
    &&& b.r_tri == linalg::grid(r_tri)
    &&& b.qtf == qtf
    &&& b.lo == lo
    &&& b.hi == hi
    &&& b.theta == theta
    &&& lo.len() == n
    &&& hi.len() == n
    &&& w.d@.len() == n
    &&& w.diag_h@.len() == n
    &&& w.g_h@.len() == n
    &&& linalg::wide(b.fr.jh, n)
    &&& r_tri.len() == n
    &&& qtf.len() == n
    &&& linalg::wide(b.r_tri, n)
    &&& b.r_tri == linalg::triangle(b.r_tri, n)
}

fn run_trials<A: Numeric, F: Fn(&Vec<Scalar>) -> Result<Vec<Scalar>, String>>(
    num: &A,
    f: &F,
    cfg: &LmConfig,
    w: &Working,
    x: &Vec<Scalar>,
    fv: &Vec<Scalar>,
    cost: Scalar,
    r_tri: &Vec<Vec<Scalar>>,
    qtf: &Vec<Scalar>,
    lb: &Vec<Scalar>,
    ub: &Vec<Scalar>,
    theta: Scalar,
    delta0: Scalar,
    alpha0: Scalar,
    ratio0: Scalar,
    evals0: usize,
    Ghost(b): Ghost<Base>,
) -> (t: Trials)
    requires
        num.sound(),
        thick_opt::askable(*f),
        based(b, w, x@, fv@, cost, r_tri@, qtf@, lb@, ub@, theta),
        evals0 < cfg.max_evals,
    ensures
        tries(*num, *f, *cfg, b, delta0, alpha0, ratio0, evals0 as int, t),
        trial_evals(t) <= cfg.max_evals,
        gained(t) matches Some(p) ==> p.x@.len() == x@.len() && p.f@.len() == fv@.len(),
{
    let g_h_norm: Scalar = norm(num, &w.g_h);
    let mut delta: Scalar = delta0;
    let mut alpha: Scalar = alpha0;
    let mut ratio: Scalar = ratio0;
    let mut evals: usize = evals0;
    while evals < cfg.max_evals
        invariant
            num.sound(),
            thick_opt::askable(*f),
            based(b, w, x@, fv@, cost, r_tri@, qtf@, lb@, ub@, theta),
            g_h_norm == numeric::norm_of(*num, b.fr.g_h),
            evals <= cfg.max_evals,
            forall|t: Trials| #[trigger]
                tries(*num, *f, *cfg, b, delta, alpha, ratio, evals as int, t) ==> tries(
                    *num,
                    *f,
                    *cfg,
                    b,
                    delta0,
                    alpha0,
                    ratio0,
                    evals0 as int,
                    t,
                ),
        decreases cfg.max_evals - evals,
    {
        let a: Attempt = attempt(
            num,
            f,
            cfg,
            w,
            x,
            fv,
            cost,
            r_tri,
            qtf,
            lb,
            ub,
            theta,
            g_h_norm,
            delta,
            alpha,
            ratio,
            evals,
            Ghost(b),
        );
        match a {
            Attempt::Over { t } => {
                assert(attempt_leads(*num, *f, *cfg, b, a, t));
                return t;
            },
            Attempt::Again { delta: d2, alpha: a2, ratio: r2, evals: e2 } => {
                assert forall|t: Trials| #[trigger]
                    tries(*num, *f, *cfg, b, d2, a2, r2, e2 as int, t) implies tries(
                    *num,
                    *f,
                    *cfg,
                    b,
                    delta0,
                    alpha0,
                    ratio0,
                    evals0 as int,
                    t,
                ) by {
                    assert(attempt_leads(*num, *f, *cfg, b, a, t));
                }
                delta = d2;
                alpha = a2;
                ratio = r2;
                evals = e2;
            },
        }
    }
    let t: Trials = Trials::End {
        end: TrialEnd { accepted: None, delta, alpha, ratio, evals, termination: None },
    };
    assert(tries(*num, *f, *cfg, b, delta, alpha, ratio, evals as int, t));
    t
}

// ---------------------------------------------------------------------------
// Iterations
// ---------------------------------------------------------------------------
/// The state between iterations.
pub struct TrfRun {
    pub x: Vec<Scalar>,
    pub f: Vec<Scalar>,
    pub cost: Scalar,
    pub jac: Vec<Vec<Scalar>>,
    pub g: Vec<Scalar>,
    pub delta: Scalar,
    pub alpha: Scalar,
    pub ratio: Scalar,
    pub evals: usize,
    pub iteration: usize,
    pub analytic: usize,
}

/// What an iteration comes to.
pub enum TrfEnd {
    Done { out: Result<LmResult, LmFault> },
    Go { run: TrfRun },
}

/// `out` reports the point `x`.
pub open spec fn tells<A: Numeric>(
    num: A,
    out: Result<LmResult, LmFault>,
    x: Seq<Scalar>,
    half: Scalar,
    ratio: Scalar,
    iteration: int,
    evals: int,
    analytic: int,
    why: LmTermination,
) -> bool {
    driver::reports(
        out,
        x,
        num.product((Scalar { bits: TWO_BITS }), half),
        ratio,
        iteration,
        evals,
        analytic,
        why,
    )
}

/// `e` ends the run with this point, or goes on with it.
pub open spec fn continues<A: Numeric>(
    num: A,
    s: TrfRun,
    end: TrialEnd,
    x: Seq<Scalar>,
    f: Seq<Scalar>,
    cost: Scalar,
    jac: Seq<Seq<Scalar>>,
    g: Seq<Scalar>,
    evals: int,
    analytic: int,
    e: TrfEnd,
) -> bool {
    match end.termination {
        Some(why) => e matches TrfEnd::Done { out } && tells(
            num,
            out,
            x,
            cost,
            end.ratio,
            s.iteration + 1,
            evals,
            analytic,
            why,
        ),
        None => {
            &&& e matches TrfEnd::Go { run: t }
            &&& t.x@ == x
            &&& t.f@ == f
            &&& t.cost == cost
            &&& linalg::grid(t.jac@) == jac
            &&& t.g@ == g
            &&& t.delta == end.delta
            &&& t.alpha == end.alpha
            &&& t.ratio == end.ratio
            &&& t.evals == evals
            &&& t.iteration == s.iteration + 1
            &&& t.analytic == analytic
        },
    }
}

/// The counts once a Jacobian is obtained at a point with `n` coordinates.
pub open spec fn evals_after(evals: int, n: int, analytic: bool) -> int {
    if analytic {
        evals
    } else {
        evals + 2 * n
    }
}

/// The analytic count once a Jacobian is obtained.
pub open spec fn analytic_after(count: int, analytic: bool) -> int {
    if analytic {
        count + 1
    } else {
        count
    }
}

/// `e` is a possible outcome once the trials have ended: an accepted point
/// gets its Jacobian, any other leaves the point as it is.
pub open spec fn after_trials<
    A: Numeric,
    F: Fn(&Vec<Scalar>) -> Result<Vec<Scalar>, String>,
    J: JacobianSource,
>(num: A, f: F, src: Option<&J>, s: TrfRun, t: Trials, e: TrfEnd) -> bool {
    let n = s.x@.len() as int;
    match t {
        Trials::Fault { fault } => e == (TrfEnd::Done { out: Err(fault) }),
        Trials::End { end } => match end.accepted {
            None => continues(
                num,
                s,
                end,
                s.x@,
                s.f@,
                s.cost,
                linalg::grid(s.jac@),
                s.g@,
                end.evals as int,
                s.analytic as int,
                e,
            ),
            Some(p) => exists|j: JacobianEnd|
                {
                    &&& #[trigger] driver::supplied(num, f, src, p.x@, p.f@.len() as int, j)
                    &&& match j {
                        JacobianEnd::Fault { fault } => e == (TrfEnd::Done {
                            out: Err(fault),
                        }),
                        JacobianEnd::Rows { rows, analytic } => continues(
                            num,
                            s,
                            end,
                            p.x@,
                            p.f@,
                            p.cost,
                            linalg::grid(rows@),
                            model::gradient(num, linalg::grid(rows@), p.f@, n),
                            evals_after(end.evals as int, n, analytic),
                            analytic_after(s.analytic as int, analytic),
                            e,
                        ),
                    }
                },
        },
    }
}

/// The share of the way to a bound that steps may take at this gradient.
pub open spec fn theta_of<A: Numeric>(num: A, g_norm: Scalar) -> Scalar {
    scalar::greater(
        (Scalar { bits: THETA_BITS }),
        num.difference(Scalar::one(), g_norm),
    )
}

/// The base of the trials of an iteration.
pub open spec fn base_of<A: Numeric>(
    num: A,
    s: TrfRun,
    lo: Seq<Scalar>,
    hi: Seq<Scalar>,
    r_tri: Seq<Seq<Scalar>>,
    qtf: Seq<Scalar>,
) -> Base {
    Base {
        x: s.x@,
        f: s.f@,
        cost: s.cost,
        fr: frame_at(num, s.x@, s.g@, linalg::grid(s.jac@), lo, hi),
        r_tri,
        qtf,
        lo,
        hi,
        theta: theta_of(num, gradient_size(num, s.x@, s.g@, lo, hi)),
    }
}

/// `e` is a possible outcome of the trials from `b` and what follows them.
pub open spec fn moves_from<
    A: Numeric,
    F: Fn(&Vec<Scalar>) -> Result<Vec<Scalar>, String>,
    J: JacobianSource,
>(num: A, f: F, src: Option<&J>, cfg: LmConfig, b: Base, s: TrfRun, e: TrfEnd) -> bool {
    exists|t: Trials|
        {
            &&& #[trigger] tries(
                num,
                f,
                cfg,
                b,
                s.delta,
                s.alpha,
                s.ratio,
                s.evals as int,
                t,
            )
            &&& after_trials(num, f, src, s, t, e)
        }
}

/// `e` is a possible outcome of an iteration from `s`: the gradient test, the
/// caps, the factorization, the trials, and the Jacobian of what they gained.
pub open spec fn rounds<
    A: Numeric,
    F: Fn(&Vec<Scalar>) -> Result<Vec<Scalar>, String>,
    J: JacobianSource,
>(
    num: A,
    f: F,
    src: Option<&J>,
    cfg: LmConfig,
    lo: Seq<Scalar>,
    hi: Seq<Scalar>,
    s: TrfRun,
    e: TrfEnd,
) -> bool {
    let ends = |why: LmTermination|
        e matches TrfEnd::Done { out } && tells(
            num,
            out,
            s.x@,
            s.cost,
            s.ratio,
            s.iteration as int,
            s.evals as int,
            s.analytic as int,
            why,
        );
    if scalar::less(gradient_size(num, s.x@, s.g@, lo, hi), cfg.gtol) {
        ends(LmTermination::Gradient)
    } else if s.evals >= cfg.max_evals || s.iteration >= cfg.max_iterations {
        ends(LmTermination::MaxIterations)
    } else {
        match frame_factor(
            num,
            frame_at(num, s.x@, s.g@, linalg::grid(s.jac@), lo, hi),
            s.f@,
        ) {
            None => ends(LmTermination::Stalled),
            Some((r_tri, qtf)) => moves_from(
                num,
                f,
                src,
                cfg,
                base_of(num, s, lo, hi, r_tri, qtf),
                s,
                e,
            ),
        }
    }
}

/// What holds between iterations.
pub open spec fn sound_trf(cfg: LmConfig, s: TrfRun, n: int) -> bool {
    &&& s.x@.len() == n
    &&& n > 0
    &&& s.jac@.len() == s.f@.len()
    &&& linalg::wide(linalg::grid(s.jac@), n)
    &&& s.g@.len() == n
    &&& s.evals <= cfg.max_evals + 2 * n || s.evals <= 1 + 2 * n
    &&& s.iteration <= cfg.max_iterations
    &&& s.analytic <= s.iteration + 1
}

/// The evaluations of a result pass the cap at most by the first one and the
/// differences of one Jacobian.
pub open spec fn capped(cfg: LmConfig, n: int, out: Result<LmResult, LmFault>) -> bool {
    out matches Ok(res) ==> res.evals <= cfg.max_evals + 2 * n + 1
}

fn finish<A: Numeric>(num: &A, s: TrfRun, why: LmTermination) -> (e: TrfEnd)
    requires
        num.sound(),
    ensures
        e matches TrfEnd::Done { out } && tells(
            *num,
            out,
            s.x@,
            s.cost,
            s.ratio,
            s.iteration as int,
            s.evals as int,
            s.analytic as int,
            why,
        ),
{
    let cost: Scalar = num.times(Scalar::from_bits(TWO_BITS), s.cost);
    TrfEnd::Done {
        out: Ok(
            LmResult {
                x: s.x,
                cost,
                iterations: s.iteration,
                evals: s.evals,
                termination: why,
                gain_ratio: s.ratio,
                analytic_jacobians: s.analytic,
            },
        ),
    }
}

fn absorb<
    A: Numeric,
    F: Fn(&Vec<Scalar>) -> Result<Vec<Scalar>, String>,
    J: JacobianSource,
>(num: &A, f: &F, src: Option<&J>, cfg: &LmConfig, s: TrfRun, t: Trials) -> (e: TrfEnd)
    requires
        num.sound(),
        thick_opt::askable(*f),
        driver::roomy(*cfg, s.x@.len() as int),
        sound_trf(*cfg, s, s.x@.len() as int),
        s.iteration < cfg.max_iterations,
        s.iteration + 2 <= usize::MAX,
        trial_evals(t) <= cfg.max_evals,
        gained(t) matches Some(p) ==> p.x@.len() == s.x@.len() && p.f@.len() == s.f@.len(),
    ensures
        after_trials(*num, *f, src, s, t, e),
        e matches TrfEnd::Done { out } ==> capped(*cfg, s.x@.len() as int, out),
        e matches TrfEnd::Go { run } ==> sound_trf(*cfg, run, s.x@.len() as int)
            && run.iteration == s.iteration + 1,
{
    let n: usize = s.x.len();
    let end: TrialEnd = match t {
        Trials::Fault { fault } => {
            return TrfEnd::Done { out: Err(fault) };
        },
        Trials::End { end } => end,
    };
    let mut evals: usize = end.evals;
    let mut analytic: usize = s.analytic;
    let mut x: Vec<Scalar> = s.x;
    let mut fv: Vec<Scalar> = s.f;
    let mut cost: Scalar = s.cost;
    let mut jac: Vec<Vec<Scalar>> = s.jac;
    let mut g: Vec<Scalar> = s.g;
    if let Some(p) = end.accepted {
        let got: JacobianEnd = obtain_jacobian(num, f, src, &p.x, p.f.len());
        assert(driver::supplied(*num, *f, src, p.x@, p.f@.len() as int, got));
        match got {
            JacobianEnd::Fault { fault } => {
                return TrfEnd::Done { out: Err(fault) };
            },
            JacobianEnd::Rows { rows, analytic: by_source } => {
                if by_source {
                    analytic = analytic + 1;
                } else {
                    evals = evals + 2 * n;
                }
                g = jt_times(num, &rows, &p.f, n);
                jac = rows;
                x = p.x;
                fv = p.f;
                cost = p.cost;
            },
        }
    }
    let run: TrfRun = TrfRun {
        x,
        f: fv,
        cost,
        jac,
        g,
        delta: end.delta,
        alpha: end.alpha,
        ratio: end.ratio,
        evals,
        iteration: s.iteration + 1,
        analytic,
    };
    match end.termination {
        Some(why) => finish(num, run, why),
        None => TrfEnd::Go { run },
    }
}

/// Runs one iteration.
pub fn round<
    A: Numeric,
    F: Fn(&Vec<Scalar>) -> Result<Vec<Scalar>, String>,
    J: JacobianSource,
>(
    num: &A,
    f: &F,
    src: Option<&J>,
    cfg: &LmConfig,
    lb: &Vec<Scalar>,
    ub: &Vec<Scalar>,
    s: TrfRun,
) -> (e: TrfEnd)
    requires
        num.sound(),
        thick_opt::askable(*f),
        driver::roomy(*cfg, s.x@.len() as int),
        cfg.max_iterations + 2 <= usize::MAX,
        sound_trf(*cfg, s, s.x@.len() as int),
        lb@.len() == s.x@.len(),
        ub@.len() == s.x@.len(),
    ensures
        rounds(*num, *f, src, *cfg, lb@, ub@, s, e),
        e matches TrfEnd::Done { out } ==> capped(*cfg, s.x@.len() as int, out),
        e matches TrfEnd::Go { run } ==> sound_trf(*cfg, run, s.x@.len() as int)
            && run.iteration == s.iteration + 1 && s.iteration < cfg.max_iterations,
{
    let (v, dv): (Vec<Scalar>, Vec<Scalar>) = cl_scaling_vector(num, &s.x, &s.g, lb, ub);
    let gv: Vec<Scalar> = entrywise(num, &s.g, &v);
    let g_norm: Scalar = peak_of(&gv);
    assert(g_norm == gradient_size(*num, s.x@, s.g@, lb@, ub@));
    if g_norm.lt(cfg.gtol) {
        return finish(num, s, LmTermination::Gradient);
    }
    if s.evals >= cfg.max_evals || s.iteration >= cfg.max_iterations {
        return finish(num, s, LmTermination::MaxIterations);
    }
    let d: Vec<Scalar> = root_vec(num, &v);
    let diag_h: Vec<Scalar> = entrywise(num, &s.g, &dv);
    let g_h: Vec<Scalar> = entrywise(num, &d, &s.g);
    let jh: Vec<Vec<Scalar>> = scale_columns(num, &s.jac, &d);
    let w: Working = Working { d, diag_h, g_h, jh };
    let ghost fr = frame_at(*num, s.x@, s.g@, linalg::grid(s.jac@), lb@, ub@);
    assert(w.shows(fr));
    let (r_tri, qtf): (Vec<Vec<Scalar>>, Vec<Scalar>) = match factor_frame(
        num,
        &w,
        &s.f,
        Ghost(fr),
    ) {
        None => {
            return finish(num, s, LmTermination::Stalled);
        },
        Some(r) => r,
    };
    let theta: Scalar = Scalar::from_bits(THETA_BITS).max(num.minus(Scalar::one(), g_norm));
    let ghost b = base_of(*num, s, lb@, ub@, linalg::grid(r_tri@), qtf@);
    let t: Trials = run_trials(
        num,
        f,
        cfg,
        &w,
        &s.x,
        &s.f,
        s.cost,
        &r_tri,
        &qtf,
        lb,
        ub,
        theta,
        s.delta,
        s.alpha,
        s.ratio,
        s.evals,
        Ghost(b),
    );
    let ghost s0 = s;
    let e: TrfEnd = absorb(num, f, src, cfg, s, t);
    assert(moves_from(*num, *f, src, *cfg, b, s0, e));
    assert(frame_factor(*num, fr, s0.f@) == Some((linalg::grid(r_tri@), qtf@)));
    e
}

// ---------------------------------------------------------------------------
// The run
// ---------------------------------------------------------------------------
/// `out` is a possible result of the iterations from `s` on.
pub open spec fn reflects<
    A: Numeric,
    F: Fn(&Vec<Scalar>) -> Result<Vec<Scalar>, String>,
    J: JacobianSource,
>(
    num: A,
    f: F,
    src: Option<&J>,
    cfg: LmConfig,
    lo: Seq<Scalar>,
    hi: Seq<Scalar>,
    s: TrfRun,
    out: Result<LmResult, LmFault>,
) -> bool
    decreases cfg.max_iterations - s.iteration,
{
    exists|e: TrfEnd|
        {
            &&& #[trigger] rounds(num, f, src, cfg, lo, hi, s, e)
            &&& match e {
                TrfEnd::Done { out: o } => out == o,
                TrfEnd::Go { run } => s.iteration < cfg.max_iterations && run.iteration
                    == s.iteration + 1 && reflects(num, f, src, cfg, lo, hi, run, out),
            }
        }
}

/// The squares over the scaling, where that is positive.
pub open spec fn radius_terms<A: Numeric>(
    num: A,
    x: Seq<Scalar>,
    v: Seq<Scalar>,
) -> Seq<Scalar> {
    Seq::new(
        x.len(),
        |i: int|
            if scalar::less(Scalar::zero(), v[i]) {
                num.quotient(num.product(x[i], x[i]), v[i])
            } else {
                Scalar::zero()
            },
    )
}

/// The sum of the first `k` terms.
pub open spec fn total<A: Numeric>(num: A, xs: Seq<Scalar>, k: int) -> Scalar
    decreases k,
{
    if k <= 0 {
        Scalar { bits: numeric::NEG_ZERO_BITS }
    } else {
        num.sum(total(num, xs, k - 1), xs[k - 1])
    }
}

/// The radius to start with; one where the scaled start has no length.
pub open spec fn first_radius<A: Numeric>(num: A, x: Seq<Scalar>, v: Seq<Scalar>) -> Scalar {
    let d = num.square_root(total(num, radius_terms(num, x, v), x.len() as int));
    if scalar::less(Scalar::zero(), d) && d.finite() {
        d
    } else {
        Scalar::one()
    }
}

fn initial_radius<A: Numeric>(num: &A, x: &Vec<Scalar>, v: &Vec<Scalar>) -> (r: Scalar)
    requires
        num.sound(),
        x@.len() == v@.len(),
    ensures
        r == first_radius(*num, x@, v@),
{
    let ghost ts = radius_terms(*num, x@, v@);
    let mut acc: Scalar = Scalar::from_bits(numeric::NEG_ZERO_BITS);
    let mut i: usize = 0;
    while i < x.len()
        invariant
            num.sound(),
            x@.len() == v@.len(),
            ts == radius_terms(*num, x@, v@),
            i <= x.len(),
            acc == total(*num, ts, i as int),
        decreases x.len() - i,
    {
        let term: Scalar = if v[i].gt(Scalar::zero()) {
            num.over(num.times(x[i], x[i]), v[i])
        } else {
            Scalar::zero()
        };
        assert(term == ts[i as int]);
        acc = num.plus(acc, term);
        i += 1;
    }
    let d: Scalar = num.root(acc);
    if d.gt(Scalar::zero()) && d.is_finite() {
        d
    } else {
        Scalar::one()
    }
}

/// `s` is the state before the first iteration.
pub open spec fn opens<A: Numeric>(
    num: A,
    x: Seq<Scalar>,
    f: Vec<Scalar>,
    rows: Vec<Vec<Scalar>>,
    analytic: bool,
    lo: Seq<Scalar>,
    hi: Seq<Scalar>,
    s: TrfRun,
) -> bool {
    let g = model::gradient(num, linalg::grid(rows@), f@, x.len() as int);
    &&& s.x@ == x
    &&& s.f@ == f@
    &&& s.cost == half_cost(num, f@)
    &&& linalg::grid(s.jac@) == linalg::grid(rows@)
    &&& s.g@ == g
    &&& s.delta == first_radius(num, x, geometry::cl_scaling(num, x, g, lo, hi))
    &&& s.alpha == Scalar::zero()
    &&& s.ratio == (Scalar { bits: NAN_BITS })
    &&& s.evals == evals_after(1, x.len() as int, analytic)
    &&& s.iteration == 0
    &&& s.analytic == analytic_after(0, analytic)
}

/// The starting point, off the bounds.
pub open spec fn first_point<A: Numeric>(
    num: A,
    x0: Seq<Scalar>,
    lo: Seq<Scalar>,
    hi: Seq<Scalar>,
) -> Seq<Scalar> {
    geometry::interior(num, x0, lo, hi, (Scalar { bits: INITIAL_RSTEP_BITS }))
}

/// `out` is a possible result once the residuals of the starting point are
/// known.
pub open spec fn from_residuals<
    A: Numeric,
    F: Fn(&Vec<Scalar>) -> Result<Vec<Scalar>, String>,
    J: JacobianSource,
>(
    num: A,
    f: F,
    src: Option<&J>,
    cfg: LmConfig,
    x: Seq<Scalar>,
    lo: Seq<Scalar>,
    hi: Seq<Scalar>,
    fv: Vec<Scalar>,
    out: Result<LmResult, LmFault>,
) -> bool {
    if fv@.len() == 0 {
        out == Err::<LmResult, LmFault>(LmFault::NoResiduals)
    } else {
        exists|j: JacobianEnd|
            {
                &&& #[trigger] driver::supplied(num, f, src, x, fv@.len() as int, j)
                &&& match j {
                    JacobianEnd::Fault { fault } => out == Err::<LmResult, LmFault>(fault),
                    JacobianEnd::Rows { rows, analytic } => exists|s: TrfRun|
                        {
                            &&& opens(num, x, fv, rows, analytic, lo, hi, s)
                            &&& #[trigger] reflects(num, f, src, cfg, lo, hi, s, out)
                        },
                }
            }
    }
}

/// `out` is a possible result of a whole run.
pub open spec fn settles<
    A: Numeric,
    F: Fn(&Vec<Scalar>) -> Result<Vec<Scalar>, String>,
    J: JacobianSource,
>(
    num: A,
    f: F,
    src: Option<&J>,
    cfg: LmConfig,
    x0: Seq<Scalar>,
    lo: Seq<Scalar>,
    hi: Seq<Scalar>,
    out: Result<LmResult, LmFault>,
) -> bool {
    match input_fault(x0, lo, hi) {
        Some(fault) => out == Err::<LmResult, LmFault>(fault),
        None => exists|v: Result<Vec<Scalar>, String>|
            {
                &&& #[trigger] thick_opt::evaluated(f, first_point(num, x0, lo, hi), v)
                &&& match v {
                    Err(reason) => out == Err::<LmResult, LmFault>(LmFault::Failed { reason }),
                    Ok(fv) => from_residuals(
                        num,
                        f,
                        src,
                        cfg,
                        first_point(num, x0, lo, hi),
                        lo,
                        hi,
                        fv,
                        out,
                    ),
                }
            },
    }
}

fn iterate_from<
    A: Numeric,
    F: Fn(&Vec<Scalar>) -> Result<Vec<Scalar>, String>,
    J: JacobianSource,
>(
    num: &A,
    f: &F,
    src: Option<&J>,
    cfg: &LmConfig,
    lb: &Vec<Scalar>,
    ub: &Vec<Scalar>,
    start: TrfRun,
) -> (out: Result<LmResult, LmFault>)
    requires
        num.sound(),
        thick_opt::askable(*f),
        driver::roomy(*cfg, start.x@.len() as int),
        cfg.max_iterations + 2 <= usize::MAX,
        sound_trf(*cfg, start, start.x@.len() as int),
        lb@.len() == start.x@.len(),
        ub@.len() == start.x@.len(),
    ensures
        reflects(*num, *f, src, *cfg, lb@, ub@, start, out),
        capped(*cfg, start.x@.len() as int, out),
{
    let ghost n = start.x@.len() as int;
    let ghost s0 = start;
    let mut s: TrfRun = start;
    loop
        invariant
            num.sound(),
            thick_opt::askable(*f),
            driver::roomy(*cfg, n),
            cfg.max_iterations + 2 <= usize::MAX,
            s0 == start,
            n == start.x@.len(),
            sound_trf(*cfg, s, n),
            lb@.len() == n,
            ub@.len() == n,
            forall|o: Result<LmResult, LmFault>| #[trigger]
                reflects(*num, *f, src, *cfg, lb@, ub@, s, o) ==> reflects(
                    *num,
                    *f,
                    src,
                    *cfg,
                    lb@,
                    ub@,
                    s0,
                    o,
                ),
        decreases cfg.max_iterations - s.iteration,
    {
        let ghost before = s;
        let e: TrfEnd = round(num, f, src, cfg, lb, ub, s);
        assert(rounds(*num, *f, src, *cfg, lb@, ub@, before, e));
        match e {
            TrfEnd::Done { out } => {
                assert(reflects(*num, *f, src, *cfg, lb@, ub@, before, out));
                return out;
            },
            TrfEnd::Go { run } => {
                assert forall|o: Result<LmResult, LmFault>| #[trigger]
                    reflects(*num, *f, src, *cfg, lb@, ub@, run, o) implies reflects(
                    *num,
                    *f,
                    src,
                    *cfg,
                    lb@,
                    ub@,
                    s0,
                    o,
                ) by {
                    assert(reflects(*num, *f, src, *cfg, lb@, ub@, before, o));
                }
                s = run;
            },
        }
    }
}

/// Minimizes the sum of the squared residuals over the box by trust-region
/// reflective.
pub fn trust_region_reflective<
    A: Numeric,
    F: Fn(&Vec<Scalar>) -> Result<Vec<Scalar>, String>,
    J: JacobianSource,
>(
    num: &A,
    residuals: &F,
    jacobian: Option<&J>,
    x0: &Vec<Scalar>,
    lb: &Vec<Scalar>,
    ub: &Vec<Scalar>,
    cfg: &LmConfig,
) -> (out: Result<LmResult, LmFault>)
    requires
        num.sound(),
        thick_opt::askable(*residuals),
        driver::roomy(*cfg, x0@.len() as int),
        cfg.max_iterations + 2 <= usize::MAX,
    ensures
        settles(*num, *residuals, jacobian, *cfg, x0@, lb@, ub@, out),
        capped(*cfg, x0@.len() as int, out),
{
    match check_inputs(x0, lb, ub) {
        Some(fault) => {
            return Err(fault);
        },
        None => {},
    }
    let n: usize = x0.len();
    let x: Vec<Scalar> = make_strictly_feasible(
        num,
        x0,
        lb,
        ub,
        Scalar::from_bits(INITIAL_RSTEP_BITS),
    );
    let ghost xs = x@;
    let got: Result<Vec<Scalar>, String> = evaluate(residuals, &x);
    assert(thick_opt::evaluated(*residuals, first_point(*num, x0@, lb@, ub@), got));
    let fv: Vec<Scalar> = match got {
        Err(reason) => {
            return Err(LmFault::Failed { reason });
        },
        Ok(fv) => fv,
    };
    if fv.len() == 0 {
        return Err(LmFault::NoResiduals);
    }
    let ghost fv0 = fv;
    let half: Scalar = num.times(Scalar::from_bits(HALF_BITS), dot(num, &fv, &fv));
    let first: JacobianEnd = obtain_jacobian(num, residuals, jacobian, &x, fv.len());
    assert(driver::supplied(*num, *residuals, jacobian, xs, fv0@.len() as int, first));
    let (rows, by_source): (Vec<Vec<Scalar>>, bool) = match first {
        JacobianEnd::Fault { fault } => {
            return Err(fault);
        },
        JacobianEnd::Rows { rows, analytic } => (rows, analytic),
    };
    let ghost rows0 = rows;
    let g: Vec<Scalar> = jt_times(num, &rows, &fv, n);
    let (v, _): (Vec<Scalar>, Vec<Scalar>) = cl_scaling_vector(num, &x, &g, lb, ub);
    let delta: Scalar = initial_radius(num, &x, &v);
    let evals: usize = if by_source {
        1
    } else {
        1 + 2 * n
    };
    let analytic: usize = if by_source {
        1
    } else {
        0
    };
    let s: TrfRun = TrfRun {
        x,
        f: fv,
        cost: half,
        jac: rows,
        g,
        delta,
        alpha: Scalar::zero(),
        ratio: Scalar::from_bits(NAN_BITS),
        evals,
        iteration: 0,
        analytic,
    };
    let ghost s0 = s;
    assert(opens(*num, xs, fv0, rows0, by_source, lb@, ub@, s0));
    let out: Result<LmResult, LmFault> = iterate_from(
        num,
        residuals,
        jacobian,
        cfg,
        lb,
        ub,
        s,
    );
    assert(reflects(*num, *residuals, jacobian, *cfg, lb@, ub@, s0, out));
    assert(from_residuals(*num, *residuals, jacobian, *cfg, xs, lb@, ub@, fv0, out));
    out
}

} // verus!
