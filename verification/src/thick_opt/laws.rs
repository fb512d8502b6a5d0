//! What every Levenberg-Marquardt run keeps.
use crate::linalg;
use crate::numeric::Numeric;
use crate::scalar;
use crate::scalar::Scalar;
use crate::thick_opt;
use crate::thick_opt::driver;
use crate::thick_opt::driver::{Consulted, JacobianEnd, LmRun, RoundEnd};
use crate::thick_opt::ladder;
use crate::thick_opt::ladder::{Footing, LadderEnd};
use crate::thick_opt::model;
use crate::thick_opt::{JacobianSource, LmConfig, LmFault, LmResult, NoJacobian};
use vstd::prelude::*;

verus! {

/// No coordinate is below its lower or above its upper bound.
pub open spec fn never_outside(x: Seq<Scalar>, lo: Seq<Scalar>, hi: Seq<Scalar>) -> bool {
    forall|j: int|
        0 <= j < x.len() ==> !scalar::less(#[trigger] x[j], lo[j]) && !scalar::less(hi[j], x[j])
}

/// The cost stayed or fell.
pub open spec fn no_worse(new: Scalar, old_cost: Scalar) -> bool {
    new == old_cost || scalar::less(new, old_cost)
}

/// A clamped step never leaves the box.
pub proof fn a_clamped_step_stays_inside<A: Numeric>(
    num: A,
    x: Seq<Scalar>,
    lo: Seq<Scalar>,
    hi: Seq<Scalar>,
    d: Seq<Scalar>,
)
    requires
        ladder::boxed(lo, hi, x.len() as int),
    ensures
        never_outside(ladder::trial_point(num, x, lo, hi, d), lo, hi),
{
    let t = ladder::trial_point(num, x, lo, hi, d);
    assert forall|j: int| 0 <= j < t.len() implies !scalar::less(#[trigger] t[j], lo[j])
        && !scalar::less(hi[j], t[j]) by {
        assert(scalar::at_most(lo[j], hi[j]));
    }
}

/// A ladder only takes steps that lower the cost, and none of them leaves the
/// box.
pub proof fn a_taken_step_descends_inside<
    A: Numeric,
    F: Fn(&Vec<Scalar>) -> Result<Vec<Scalar>, String>,
>(
    num: A,
    f: F,
    cfg: LmConfig,
    at: Footing,
    tries: int,
    lambda: Scalar,
    nu: Scalar,
    evals: int,
    end: LadderEnd,
)
    requires
        ladder::boxed(at.lo, at.hi, at.x.len() as int),
        ladder::climbs(num, f, cfg, at, tries, lambda, nu, evals, end),
    ensures
        end matches LadderEnd::Taken { step } ==> {
            &&& scalar::less(step.cost, at.cost)
            &&& step.x@.len() == at.x.len()
            &&& never_outside(step.x@, at.lo, at.hi)
        },
    decreases tries,
{
    let up = num.product(lambda, cfg.lambda_up);
    if tries > 0 && evals < cfg.max_evals {
        match model::lm_step(num, at.jac, at.r, at.x.len() as int, lambda) {
            None => {
                if !ladder::too_damped(up) {
                    a_taken_step_descends_inside(
                        num,
                        f,
                        cfg,
                        at,
                        tries - 1,
                        up,
                        nu,
                        evals,
                        end,
                    );
                }
            },
            Some(d) => {
                let trial = ladder::trial_point(num, at.x, at.lo, at.hi, d);
                a_clamped_step_stays_inside(num, at.x, at.lo, at.hi, d);
                if ladder::motionless(ladder::gap(num, trial, at.x)) {
                    if !ladder::too_damped(lambda) {
                        a_taken_step_descends_inside(
                            num,
                            f,
                            cfg,
                            at,
                            tries - 1,
                            up,
                            nu,
                            evals,
                            end,
                        );
                    }
                } else {
                    let next = ladder::raised(num, cfg, lambda, nu);
                    if ladder::climbs(num, f, cfg, at, tries - 1, up, nu, evals + 1, end) {
                        a_taken_step_descends_inside(
                            num,
                            f,
                            cfg,
                            at,
                            tries - 1,
                            up,
                            nu,
                            evals + 1,
                            end,
                        );
                    }
                    if ladder::climbs(
                        num,
                        f,
                        cfg,
                        at,
                        tries - 1,
                        next.0,
                        next.1,
                        evals + 1,
                        end,
                    ) {
                        a_taken_step_descends_inside(
                            num,
                            f,
                            cfg,
                            at,
                            tries - 1,
                            next.0,
                            next.1,
                            evals + 1,
                            end,
                        );
                    }
                }
            },
        }
    }
}

/// One iteration keeps the point in the box and does not raise the cost.
pub proof fn an_iteration_descends_inside<
    A: Numeric,
    F: Fn(&Vec<Scalar>) -> Result<Vec<Scalar>, String>,
    J: JacobianSource,
>(
    num: A,
    f: F,
    src: Option<&J>,
    cfg: LmConfig,
    lo: Seq<Scalar>,
    hi: Seq<Scalar>,
    s: LmRun,
    e: RoundEnd,
)
    requires
        ladder::boxed(lo, hi, s.x@.len() as int),
        never_outside(s.x@, lo, hi),
        driver::iterates(num, f, src, cfg, lo, hi, s, e),
    ensures
        match e {
            RoundEnd::Go { run } => {
                &&& scalar::less(run.cost, s.cost)
                &&& run.x@.len() == s.x@.len()
                &&& never_outside(run.x@, lo, hi)
            },
            RoundEnd::Done { out } => out matches Ok(res) ==> {
                &&& no_worse(res.cost, s.cost)
                &&& res.x@.len() == s.x@.len()
                &&& never_outside(res.x@, lo, hi)
                &&& res.iterations == s.iteration
            },
        },
{
    let n = s.x@.len() as int;
    let m = s.r@.len() as int;
    let c = choose|c: Consulted|
        {
            &&& #[trigger] driver::consulted(src, s.x@, m, c)
            &&& driver::proceeds(num, f, cfg, lo, hi, s, c, e)
        };
    if !(c is Declined) || driver::affordable(cfg, s) {
        let j = choose|j: JacobianEnd|
            {
                &&& #[trigger] driver::completed(num, f, s.x@, m, c, j)
                &&& driver::iterates_with(num, f, cfg, lo, hi, s, j, e)
            };
        match j {
            JacobianEnd::Fault { .. } => {},
            JacobianEnd::Rows { rows, analytic } => {
                let g = linalg::grid(rows@);
                if !driver::stationary(num, cfg, g, s.r@, s.cost, n) {
                    let at = Footing { x: s.x@, r: s.r@, cost: s.cost, jac: g, lo, hi };
                    let end = choose|end: LadderEnd|
                        {
                            &&& #[trigger] ladder::climbs(
                                num,
                                f,
                                cfg,
                                at,
                                ladder::LADDER_STEPS as int,
                                s.lambda,
                                s.nu,
                                driver::evals_with(s, analytic),
                                end,
                            )
                            &&& driver::after_ladder(
                                num,
                                cfg,
                                s,
                                driver::analytic_with(s, analytic),
                                end,
                                e,
                            )
                        };
                    a_taken_step_descends_inside(
                        num,
                        f,
                        cfg,
                        at,
                        ladder::LADDER_STEPS as int,
                        s.lambda,
                        s.nu,
                        driver::evals_with(s, analytic),
                        end,
                    );
                }
            },
        }
    }
}

/// From any state inside the box a run ends inside the box, at no higher cost
/// and within its iteration cap.
pub proof fn a_run_descends_inside<
    A: Numeric,
    F: Fn(&Vec<Scalar>) -> Result<Vec<Scalar>, String>,
    J: JacobianSource,
>(
    num: A,
    f: F,
    src: Option<&J>,
    cfg: LmConfig,
    lo: Seq<Scalar>,
    hi: Seq<Scalar>,
    s: LmRun,
    out: Result<LmResult, LmFault>,
)
    requires
        ladder::boxed(lo, hi, s.x@.len() as int),
        never_outside(s.x@, lo, hi),
        s.iteration <= cfg.max_iterations,
        driver::runs(num, f, src, cfg, lo, hi, s, out),
    ensures
        out matches Ok(res) ==> {
            &&& no_worse(res.cost, s.cost)
            &&& res.x@.len() == s.x@.len()
            &&& never_outside(res.x@, lo, hi)
            &&& res.iterations <= cfg.max_iterations
        },
    decreases cfg.max_iterations - s.iteration,
{
    if s.iteration < cfg.max_iterations {
        let e = choose|e: RoundEnd|
            {
                &&& #[trigger] driver::iterates(num, f, src, cfg, lo, hi, s, e)
                &&& match e {
                    RoundEnd::Done { out: o } => out == o,
                    RoundEnd::Go { run } => run.iteration == s.iteration + 1 && driver::runs(
                        num,
                        f,
                        src,
                        cfg,
                        lo,
                        hi,
                        run,
                        out,
                    ),
                }
            };
        an_iteration_descends_inside(num, f, src, cfg, lo, hi, s, e);
        if let RoundEnd::Go { run } = e {
            a_run_descends_inside(num, f, src, cfg, lo, hi, run, out);
        }
    }
}

/// Whatever the residuals and the Jacobian answer, a result lies in the box
/// and respects the iteration cap.
pub proof fn a_result_lies_in_the_box<
    A: Numeric,
    F: Fn(&Vec<Scalar>) -> Result<Vec<Scalar>, String>,
    J: JacobianSource,
>(
    num: A,
    f: F,
    src: Option<&J>,
    cfg: LmConfig,
    x0: Seq<Scalar>,
    lo: Seq<Scalar>,
    hi: Seq<Scalar>,
    out: Result<LmResult, LmFault>,
)
    requires
        driver::minimizes(num, f, src, cfg, x0, lo, hi, out),
    ensures
        out matches Ok(res) ==> {
            &&& res.x@.len() == x0.len()
            &&& never_outside(res.x@, lo, hi)
            &&& res.iterations <= cfg.max_iterations
        },
{
    if driver::start_fault(x0, lo, hi) is None {
        let x = driver::clamped_start(x0, lo, hi);
        inside_start(x0, lo, hi, 0);
        assert forall|j: int| 0 <= j < x.len() implies !scalar::less(#[trigger] x[j], lo[j])
            && !scalar::less(hi[j], x[j]) by {
            assert(scalar::at_most(lo[j], hi[j]));
        }
        let v = choose|v: Result<Vec<Scalar>, String>|
            {
                &&& #[trigger] thick_opt::evaluated(f, x, v)
                &&& match v {
                    Err(reason) => out == Err::<LmResult, LmFault>(LmFault::Failed { reason }),
                    Ok(r) => exists|s: LmRun|
                        {
                            &&& driver::fresh(num, cfg, x, r, s)
                            &&& #[trigger] driver::runs(num, f, src, cfg, lo, hi, s, out)
                        },
                }
            };
        if let Ok(r) = v {
            let s = choose|s: LmRun|
                {
                    &&& driver::fresh(num, cfg, x, r, s)
                    &&& #[trigger] driver::runs(num, f, src, cfg, lo, hi, s, out)
                };
            a_run_descends_inside(num, f, src, cfg, lo, hi, s, out);
        }
    }
}

pub(crate) proof fn inside_start(x: Seq<Scalar>, lo: Seq<Scalar>, hi: Seq<Scalar>, j: int)
    requires
        0 <= j <= x.len(),
        driver::first_outside(x, lo, hi, j) is None,
    ensures
        forall|k: int| j <= k < x.len() ==> scalar::at_most(#[trigger] lo[k], hi[k]),
    decreases x.len() - j,
{
    if j < x.len() {
        inside_start(x, lo, hi, j + 1);
    }
}

/// The source has nothing to offer anywhere.
pub open spec fn declines<J: JacobianSource>(src: J) -> bool {
    forall|x: Seq<Scalar>, a: Result<Option<(usize, Vec<Scalar>)>, String>| #[trigger]
        thick_opt::filled(src, x, a) ==> a == Ok::<Option<(usize, Vec<Scalar>)>, String>(None)
}

/// A source that declines everywhere leaves a run as it is without a source:
/// each of its results is one of a run by differences alone.
pub proof fn a_declining_source_changes_nothing<
    A: Numeric,
    F: Fn(&Vec<Scalar>) -> Result<Vec<Scalar>, String>,
    J: JacobianSource,
>(
    num: A,
    f: F,
    src: &J,
    cfg: LmConfig,
    x0: Seq<Scalar>,
    lo: Seq<Scalar>,
    hi: Seq<Scalar>,
    out: Result<LmResult, LmFault>,
)
    requires
        declines(*src),
        driver::minimizes(num, f, Some(src), cfg, x0, lo, hi, out),
    ensures
        driver::minimizes(num, f, None::<&NoJacobian>, cfg, x0, lo, hi, out),
{
    if driver::start_fault(x0, lo, hi) is None {
        let x = driver::clamped_start(x0, lo, hi);
        let v = choose|v: Result<Vec<Scalar>, String>|
            {
                &&& #[trigger] thick_opt::evaluated(f, x, v)
                &&& match v {
                    Err(reason) => out == Err::<LmResult, LmFault>(LmFault::Failed { reason }),
                    Ok(r) => exists|s: LmRun|
                        {
                            &&& driver::fresh(num, cfg, x, r, s)
                            &&& #[trigger] driver::runs(num, f, Some(src), cfg, lo, hi, s, out)
                        },
                }
            };
        assert(thick_opt::evaluated(f, x, v));
        if let Ok(r) = v {
            let s = choose|s: LmRun|
                {
                    &&& driver::fresh(num, cfg, x, r, s)
                    &&& #[trigger] driver::runs(num, f, Some(src), cfg, lo, hi, s, out)
                };
            declining_runs(num, f, src, cfg, lo, hi, s, out);
        }
    }
}

proof fn declining_runs<
    A: Numeric,
    F: Fn(&Vec<Scalar>) -> Result<Vec<Scalar>, String>,
    J: JacobianSource,
>(
    num: A,
    f: F,
    src: &J,
    cfg: LmConfig,
    lo: Seq<Scalar>,
    hi: Seq<Scalar>,
    s: LmRun,
    out: Result<LmResult, LmFault>,
)
    requires
        declines(*src),
        driver::runs(num, f, Some(src), cfg, lo, hi, s, out),
    ensures
        driver::runs(num, f, None::<&NoJacobian>, cfg, lo, hi, s, out),
    decreases cfg.max_iterations - s.iteration,
{
    if s.iteration < cfg.max_iterations {
        let e = choose|e: RoundEnd|
            {
                &&& #[trigger] driver::iterates(num, f, Some(src), cfg, lo, hi, s, e)
                &&& match e {
                    RoundEnd::Done { out: o } => out == o,
                    RoundEnd::Go { run } => run.iteration == s.iteration + 1 && driver::runs(
                        num,
                        f,
                        Some(src),
                        cfg,
                        lo,
                        hi,
                        run,
                        out,
                    ),
                }
            };
        let m = s.r@.len() as int;
        let c = choose|c: Consulted|
            {
                &&& #[trigger] driver::consulted(Some(src), s.x@, m, c)
                &&& driver::proceeds(num, f, cfg, lo, hi, s, c, e)
            };
        assert(driver::consulted(None::<&NoJacobian>, s.x@, m, c));
        assert(driver::iterates(num, f, None::<&NoJacobian>, cfg, lo, hi, s, e));
        if let RoundEnd::Go { run } = e {
            declining_runs(num, f, src, cfg, lo, hi, run, out);
        }
    }
}

} // verus!
