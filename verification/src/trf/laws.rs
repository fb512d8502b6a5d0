//! What every trust-region reflective run keeps.
use crate::numeric;
use crate::numeric::Numeric;
use crate::scalar;
use crate::scalar::Scalar;
use crate::thick_opt;
use crate::thick_opt::driver;
use crate::thick_opt::driver::JacobianEnd;
use crate::thick_opt::{JacobianSource, LmConfig, LmFault, LmResult};
use crate::trf::driver as run;
use crate::trf::driver::{Base, TrfEnd, TrfRun, Trials};
use crate::trf::geometry;
use crate::trf::subproblem;
use vstd::prelude::*;

verus! {

/// Every coordinate lies strictly inside its interval, unless it is NaN.
pub open spec fn strictly_inside(x: Seq<Scalar>, lo: Seq<Scalar>, hi: Seq<Scalar>) -> bool {
    forall|j: int|
        0 <= j < x.len() ==> (#[trigger] x[j]).nan() || (scalar::less(lo[j], x[j])
            && scalar::less(x[j], hi[j]))
}

/// Every interval has a double strictly between its ends.
pub open spec fn open_box(lo: Seq<Scalar>, hi: Seq<Scalar>, n: int) -> bool {
    &&& lo.len() == n
    &&& hi.len() == n
    &&& forall|j: int| 0 <= j < n ==> geometry::open_interval(#[trigger] lo[j], hi[j])
}

/// Stepping back by an ulp leaves any point strictly inside an open box.
pub proof fn stepping_back_stays_strictly_inside<A: Numeric>(
    num: A,
    x: Seq<Scalar>,
    lo: Seq<Scalar>,
    hi: Seq<Scalar>,
)
    requires
        open_box(lo, hi, x.len() as int),
    ensures
        strictly_inside(geometry::interior(num, x, lo, hi, Scalar::zero()), lo, hi),
{
    let y = geometry::interior(num, x, lo, hi, Scalar::zero());
    assert forall|j: int| 0 <= j < y.len() implies (#[trigger] y[j]).nan() || (scalar::less(
        lo[j],
        y[j],
    ) && scalar::less(y[j], hi[j])) by {
        assert(geometry::open_interval(lo[j], hi[j]));
        if !x[j].nan() {
            geometry::stepping_back_is_strictly_interior(num, x[j], lo[j], hi[j]);
        }
    }
}

/// A point that the trials gain lies strictly inside the box, and its
/// reduction is positive.
pub proof fn a_gained_point_is_better_and_inside<
    A: Numeric,
    F: Fn(&Vec<Scalar>) -> Result<Vec<Scalar>, String>,
>(
    num: A,
    f: F,
    cfg: LmConfig,
    b: Base,
    delta: Scalar,
    alpha: Scalar,
    ratio: Scalar,
    evals: int,
    t: Trials,
)
    requires
        open_box(b.lo, b.hi, b.x.len() as int),
        run::tries(num, f, cfg, b, delta, alpha, ratio, evals, t),
    ensures
        run::gained(t) matches Some(p) ==> {
            &&& p.x@.len() == b.x.len()
            &&& strictly_inside(p.x@, b.lo, b.hi)
            &&& scalar::less(Scalar::zero(), num.difference(b.cost, p.cost))
        },
    decreases cfg.max_evals - evals,
{
    if evals < cfg.max_evals {
        match subproblem::region_step(
            num,
            b.r_tri,
            b.qtf,
            b.f.len() as usize,
            b.x.len() as int,
            numeric::norm_of(num, b.fr.g_h),
            delta,
            alpha,
        ) {
            None => {},
            Some((p_h, alpha1)) => {
                let c = run::trial_candidate(num, b, delta, p_h);
                let moved = numeric::added(num, b.x, c.step);
                stepping_back_stays_strictly_inside(num, moved, b.lo, b.hi);
                let shrunk = num.product(
                    (Scalar { bits: crate::trf::QUARTER_BITS }),
                    numeric::norm_of(num, c.step_h),
                );
                if run::tries(num, f, cfg, b, shrunk, alpha1, ratio, evals + 1, t) {
                    a_gained_point_is_better_and_inside(
                        num,
                        f,
                        cfg,
                        b,
                        shrunk,
                        alpha1,
                        ratio,
                        evals + 1,
                        t,
                    );
                } else {
                    let x = run::trial_of(num, b, c);
                    let v = choose|v: Result<Vec<Scalar>, String>|
                        {
                            &&& #[trigger] thick_opt::evaluated(f, x, v)
                            &&& step_outcome(num, f, cfg, b, delta, alpha1, evals, c, v, t)
                        };
                    if let Ok(fv) = v {
                        let w = run::verdict(num, cfg, b, c, delta, fv@);
                        let alpha2 = run::rescaled(num, alpha1, delta, w.delta);
                        if run::tries(
                            num,
                            f,
                            cfg,
                            b,
                            w.delta,
                            alpha2,
                            w.ratio,
                            evals + 1,
                            t,
                        ) {
                            a_gained_point_is_better_and_inside(
                                num,
                                f,
                                cfg,
                                b,
                                w.delta,
                                alpha2,
                                w.ratio,
                                evals + 1,
                                t,
                            );
                        }
                    }
                }
            },
        }
    }
}

/// The answer `v` at the candidate's trial point gains nothing, gains that
/// point, or leads to further trials that end as `t`.
spec fn step_outcome<A: Numeric, F: Fn(&Vec<Scalar>) -> Result<Vec<Scalar>, String>>(
    num: A,
    f: F,
    cfg: LmConfig,
    b: Base,
    delta: Scalar,
    alpha: Scalar,
    evals: int,
    c: crate::trf::select::Candidate,
    v: Result<Vec<Scalar>, String>,
    t: Trials,
) -> bool {
    match v {
        Err(_) => run::gained(t) is None,
        Ok(fv) => {
            let w = run::verdict(num, cfg, b, c, delta, fv@);
            ||| run::gained(t) is None
            ||| run::accepted_as(num, w, run::trial_of(num, b, c), fv, run::gained(t))
            ||| run::tries(
                num,
                f,
                cfg,
                b,
                w.delta,
                run::rescaled(num, alpha, delta, w.delta),
                w.ratio,
                evals + 1,
                t,
            )
        },
    }
}

/// From a state strictly inside the box a run ends strictly inside it.
pub proof fn a_run_stays_strictly_inside<
    A: Numeric,
    F: Fn(&Vec<Scalar>) -> Result<Vec<Scalar>, String>,
    J: JacobianSource,
>(
    num: A,
    f: F,
    src: Option<&J>,
    cfg: LmConfig,
    lo: Seq<Scalar>,
    hi: Seq<Scalar>,
    s: TrfRun,
    out: Result<LmResult, LmFault>,
)
    requires
        open_box(lo, hi, s.x@.len() as int),
        strictly_inside(s.x@, lo, hi),
        s.iteration <= cfg.max_iterations,
        run::reflects(num, f, src, cfg, lo, hi, s, out),
    ensures
        out matches Ok(res) ==> {
            &&& res.x@.len() == s.x@.len()
            &&& strictly_inside(res.x@, lo, hi)
            &&& res.iterations <= cfg.max_iterations
        },
    decreases cfg.max_iterations - s.iteration,
{
    let e = choose|e: TrfEnd|
        {
            &&& #[trigger] run::rounds(num, f, src, cfg, lo, hi, s, e)
            &&& match e {
                TrfEnd::Done { out: o } => out == o,
                TrfEnd::Go { run: r } => s.iteration < cfg.max_iterations && r.iteration
                    == s.iteration + 1 && run::reflects(num, f, src, cfg, lo, hi, r, out),
            }
        };
    a_round_stays_strictly_inside(num, f, src, cfg, lo, hi, s, e);
    if let TrfEnd::Go { run: r } = e {
        a_run_stays_strictly_inside(num, f, src, cfg, lo, hi, r, out);
    }
}

/// One iteration keeps the point strictly inside the box.
pub proof fn a_round_stays_strictly_inside<
    A: Numeric,
    F: Fn(&Vec<Scalar>) -> Result<Vec<Scalar>, String>,
    J: JacobianSource,
>(
    num: A,
    f: F,
    src: Option<&J>,
    cfg: LmConfig,
    lo: Seq<Scalar>,
    hi: Seq<Scalar>,
    s: TrfRun,
    e: TrfEnd,
)
    requires
        open_box(lo, hi, s.x@.len() as int),
        strictly_inside(s.x@, lo, hi),
        s.iteration <= cfg.max_iterations,
        run::rounds(num, f, src, cfg, lo, hi, s, e),
    ensures
        match e {
            TrfEnd::Go { run: r } => r.x@.len() == s.x@.len() && strictly_inside(r.x@, lo, hi),
            TrfEnd::Done { out } => out matches Ok(res) ==> {
                &&& res.x@.len() == s.x@.len()
                &&& strictly_inside(res.x@, lo, hi)
                &&& res.iterations <= cfg.max_iterations
            },
        },
{
    let small = scalar::less(run::gradient_size(num, s.x@, s.g@, lo, hi), cfg.gtol);
    if !small && s.evals < cfg.max_evals && s.iteration < cfg.max_iterations {
        let fr = run::frame_at(num, s.x@, s.g@, crate::linalg::grid(s.jac@), lo, hi);
        if let Some((r_tri, qtf)) = run::frame_factor(num, fr, s.f@) {
            let b = run::base_of(num, s, lo, hi, r_tri, qtf);
            let t = choose|t: Trials|
                {
                    &&& #[trigger] run::tries(
                        num,
                        f,
                        cfg,
                        b,
                        s.delta,
                        s.alpha,
                        s.ratio,
                        s.evals as int,
                        t,
                    )
                    &&& run::after_trials(num, f, src, s, t, e)
                };
            a_gained_point_is_better_and_inside(
                num,
                f,
                cfg,
                b,
                s.delta,
                s.alpha,
                s.ratio,
                s.evals as int,
                t,
            );
        }
    }
}

/// A run whose starting point was pushed strictly inside an open box ends
/// strictly inside it: no result sits on a bound.
pub proof fn a_result_is_strictly_inside<
    A: Numeric,
    F: Fn(&Vec<Scalar>) -> Result<Vec<Scalar>, String>,
    J: JacobianSource,
>(
    num: A,
    f: F,
    src: Option<&J>,
    cfg: LmConfig,
    x0: Seq<Scalar>,
    lo: Seq<Scalar>,
    hi: Seq<Scalar>,
    out: Result<LmResult, LmFault>,
)
    requires
        open_box(lo, hi, x0.len() as int),
        strictly_inside(run::first_point(num, x0, lo, hi), lo, hi),
        run::settles(num, f, src, cfg, x0, lo, hi, out),
    ensures
        out matches Ok(res) ==> {
            &&& res.x@.len() == x0.len()
            &&& strictly_inside(res.x@, lo, hi)
            &&& res.iterations <= cfg.max_iterations
        },
{
    if run::input_fault(x0, lo, hi) is None {
        let x = run::first_point(num, x0, lo, hi);
        let v = choose|v: Result<Vec<Scalar>, String>|
            {
                &&& #[trigger] thick_opt::evaluated(f, x, v)
                &&& match v {
                    Err(reason) => out == Err::<LmResult, LmFault>(LmFault::Failed { reason }),
                    Ok(fv) => run::from_residuals(num, f, src, cfg, x, lo, hi, fv, out),
                }
            };
        if let Ok(fv) = v {
            if fv@.len() > 0 {
                let j = choose|j: JacobianEnd|
                    {
                        &&& #[trigger] driver::supplied(num, f, src, x, fv@.len() as int, j)
                        &&& match j {
                            JacobianEnd::Fault { fault } => out == Err::<LmResult, LmFault>(
                                fault,
                            ),
                            JacobianEnd::Rows { rows, analytic } => exists|s: TrfRun|
                                {
                                    &&& run::opens(num, x, fv, rows, analytic, lo, hi, s)
                                    &&& #[trigger] run::reflects(
                                        num,
                                        f,
                                        src,
                                        cfg,
                                        lo,
                                        hi,
                                        s,
                                        out,
                                    )
                                },
                        }
                    };
                if let JacobianEnd::Rows { rows, analytic } = j {
                    let s = choose|s: TrfRun|
                        {
                            &&& run::opens(num, x, fv, rows, analytic, lo, hi, s)
                            &&& #[trigger] run::reflects(num, f, src, cfg, lo, hi, s, out)
                        };
                    a_run_stays_strictly_inside(num, f, src, cfg, lo, hi, s, out);
                }
            }
        }
    }
}

} // verus!
