//! Runs whose residuals depend on the point alone.
use crate::linalg;
use crate::numeric;
use crate::numeric::Numeric;
use crate::scalar;
use crate::scalar::Scalar;
use crate::thick_opt;
use crate::thick_opt::difference;
use crate::thick_opt::difference::{Column, Differenced};
use crate::thick_opt::driver;
use crate::thick_opt::driver::{Consulted, JacobianEnd, LmRun, RoundEnd};
use crate::thick_opt::ladder;
use crate::thick_opt::ladder::{Accepted, Footing, LadderEnd};
use crate::thick_opt::laws;
use crate::thick_opt::model;
use crate::thick_opt::{JacobianSource, LmConfig, LmFault, LmResult, NoJacobian};
use vstd::prelude::*;

verus! {

/// Two answers of the residuals say the same.
pub open spec fn same_answer(
    a: Result<Vec<Scalar>, String>,
    b: Result<Vec<Scalar>, String>,
) -> bool {
    match (a, b) {
        (Ok(u), Ok(v)) => u@ == v@,
        (Err(p), Err(q)) => p@ == q@,
        _ => false,
    }
}

/// The residuals at a point are always the same.
pub open spec fn steady<F: Fn(&Vec<Scalar>) -> Result<Vec<Scalar>, String>>(f: F) -> bool {
    forall|x: Seq<Scalar>, a: Result<Vec<Scalar>, String>, b: Result<Vec<Scalar>, String>|
        (#[trigger] thick_opt::evaluated(f, x, a)) && (#[trigger] thick_opt::evaluated(f, x, b))
            ==> same_answer(a, b)
}

/// Two faults say the same.
pub open spec fn same_fault(a: LmFault, b: LmFault) -> bool {
    match (a, b) {
        (LmFault::Failed { reason: p }, LmFault::Failed { reason: q }) => p@ == q@,
        _ => a == b,
    }
}

/// Two runs came to the same.
pub open spec fn same_outcome(
    a: Result<LmResult, LmFault>,
    b: Result<LmResult, LmFault>,
) -> bool {
    match (a, b) {
        (Ok(p), Ok(q)) => {
            &&& p.x@ == q.x@
            &&& p.cost == q.cost
            &&& p.iterations == q.iterations
            &&& p.evals == q.evals
            &&& p.termination == q.termination
            &&& p.gain_ratio == q.gain_ratio
            &&& p.analytic_jacobians == q.analytic_jacobians
        },
        (Err(p), Err(q)) => same_fault(p, q),
        _ => false,
    }
}

spec fn same_column(a: Column, b: Column) -> bool {
    match (a, b) {
        (Column::Entries { entries: u }, Column::Entries { entries: v }) => u@ == v@,
        (Column::Fault { fault: p }, Column::Fault { fault: q }) => same_fault(p, q),
        _ => false,
    }
}

spec fn same_jacobian(a: JacobianEnd, b: JacobianEnd) -> bool {
    match (a, b) {
        (
            JacobianEnd::Rows { rows: u, analytic: p },
            JacobianEnd::Rows { rows: v, analytic: q },
        ) => linalg::grid(u@) == linalg::grid(v@) && p == q,
        (JacobianEnd::Fault { fault: p }, JacobianEnd::Fault { fault: q }) => same_fault(p, q),
        _ => false,
    }
}

spec fn same_step(a: Accepted, b: Accepted) -> bool {
    &&& a.x@ == b.x@
    &&& a.r@ == b.r@
    &&& a.cost == b.cost
    &&& a.lambda == b.lambda
    &&& a.nu == b.nu
    &&& a.gain == b.gain
    &&& a.flat == b.flat
    &&& a.evals == b.evals
}

spec fn same_ladder(a: LadderEnd, b: LadderEnd) -> bool {
    match (a, b) {
        (LadderEnd::Stuck { evals: p }, LadderEnd::Stuck { evals: q }) => p == q,
        (LadderEnd::Changed { fault: p }, LadderEnd::Changed { fault: q }) => same_fault(p, q),
        (LadderEnd::Taken { step: p }, LadderEnd::Taken { step: q }) => same_step(p, q),
        _ => false,
    }
}

spec fn same_state(a: LmRun, b: LmRun) -> bool {
    &&& a.x@ == b.x@
    &&& a.r@ == b.r@
    &&& a.cost == b.cost
    &&& a.lambda == b.lambda
    &&& a.nu == b.nu
    &&& a.gain == b.gain
    &&& a.evals == b.evals
    &&& a.iteration == b.iteration
    &&& a.analytic == b.analytic
}

spec fn same_round(a: RoundEnd, b: RoundEnd) -> bool {
    match (a, b) {
        (RoundEnd::Done { out: p }, RoundEnd::Done { out: q }) => same_outcome(p, q),
        (RoundEnd::Go { run: p }, RoundEnd::Go { run: q }) => same_state(p, q),
        _ => false,
    }
}

proof fn columns_agree<A: Numeric, F: Fn(&Vec<Scalar>) -> Result<Vec<Scalar>, String>>(
    num: A,
    f: F,
    x: Seq<Scalar>,
    m: int,
    j: int,
    c: Column,
    d: Column,
)
    requires
        steady(f),
        difference::probed(num, f, x, m, j, c),
        difference::probed(num, f, x, m, j, d),
    ensures
        same_column(c, d),
{
    let at_up = difference::probe_up(num, x, j);
    let at_down = difference::probe_down(num, x, j);
    let up1 = choose|up: Result<Vec<Scalar>, String>|
        {
            &&& #[trigger] thick_opt::evaluated(f, at_up, up)
            &&& match up {
                Err(e) => c == (Column::Fault { fault: LmFault::Failed { reason: e } }),
                Ok(up) => exists|down: Result<Vec<Scalar>, String>|
                    {
                        &&& #[trigger] thick_opt::evaluated(f, at_down, down)
                        &&& difference::probed_pair(num, x[j], m, up, down, c)
                    },
            }
        };
    let up2 = choose|up: Result<Vec<Scalar>, String>|
        {
            &&& #[trigger] thick_opt::evaluated(f, at_up, up)
            &&& match up {
                Err(e) => d == (Column::Fault { fault: LmFault::Failed { reason: e } }),
                Ok(up) => exists|down: Result<Vec<Scalar>, String>|
                    {
                        &&& #[trigger] thick_opt::evaluated(f, at_down, down)
                        &&& difference::probed_pair(num, x[j], m, up, down, d)
                    },
            }
        };
    assert(same_answer(up1, up2));
    if let (Ok(u1), Ok(u2)) = (up1, up2) {
        let d1 = choose|down: Result<Vec<Scalar>, String>|
            {
                &&& #[trigger] thick_opt::evaluated(f, at_down, down)
                &&& difference::probed_pair(num, x[j], m, u1, down, c)
            };
        let d2 = choose|down: Result<Vec<Scalar>, String>|
            {
                &&& #[trigger] thick_opt::evaluated(f, at_down, down)
                &&& difference::probed_pair(num, x[j], m, u2, down, d)
            };
        assert(same_answer(d1, d2));
    }
}

/// The number of entries that column `j` has to have.
spec fn column_len(cols: Seq<Vec<Scalar>>, j: int) -> int {
    if j == 0 {
        -1
    } else {
        cols[0]@.len() as int
    }
}

proof fn tables_agree<A: Numeric, F: Fn(&Vec<Scalar>) -> Result<Vec<Scalar>, String>>(
    num: A,
    f: F,
    x: Seq<Scalar>,
    a: Seq<Vec<Scalar>>,
    b: Seq<Vec<Scalar>>,
)
    requires
        steady(f),
        difference::probed_upto(num, f, x, a),
        difference::probed_upto(num, f, x, b),
    ensures
        forall|j: int| 0 <= j < a.len() && j < b.len() ==> (#[trigger] a[j])@ == b[j]@,
{
    assert forall|j: int| 0 <= j < a.len() && j < b.len() implies (#[trigger] a[j])@ == b[j]@ by {
        assert(a[0]@ == b[0]@) by {
            columns_agree(
                num,
                f,
                x,
                -1,
                0,
                (Column::Entries { entries: a[0] }),
                (Column::Entries { entries: b[0] }),
            );
        }
        columns_agree(
            num,
            f,
            x,
            column_len(a, j),
            j,
            (Column::Entries { entries: a[j] }),
            (Column::Entries { entries: b[j] }),
        );
    }
}

spec fn same_difference(a: Differenced, b: Differenced) -> bool {
    match (a, b) {
        (Differenced::Rows { rows: u }, Differenced::Rows { rows: v }) => linalg::grid(u@)
            == linalg::grid(v@),
        (Differenced::Fault { fault: p }, Differenced::Fault { fault: q }) => same_fault(p, q),
        _ => false,
    }
}

proof fn short_table_ends<A: Numeric, F: Fn(&Vec<Scalar>) -> Result<Vec<Scalar>, String>>(
    num: A,
    f: F,
    x: Seq<Scalar>,
    a: Seq<Vec<Scalar>>,
    b: Seq<Vec<Scalar>>,
    fault: LmFault,
)
    requires
        steady(f),
        difference::probed_upto(num, f, x, a),
        difference::probed_upto(num, f, x, b),
        difference::probed(
            num,
            f,
            x,
            column_len(a, a.len() as int),
            a.len() as int,
            (Column::Fault { fault }),
        ),
    ensures
        b.len() <= a.len(),
{
    if a.len() < b.len() {
        let j = a.len() as int;
        tables_agree(num, f, x, a, b);
        if j > 0 {
            assert(a[0]@ == b[0]@);
        }
        columns_agree(
            num,
            f,
            x,
            column_len(a, j),
            j,
            (Column::Fault { fault }),
            (Column::Entries { entries: b[j] }),
        );
    }
}

proof fn differences_agree<A: Numeric, F: Fn(&Vec<Scalar>) -> Result<Vec<Scalar>, String>>(
    num: A,
    f: F,
    x: Seq<Scalar>,
    d: Differenced,
    e: Differenced,
)
    requires
        steady(f),
        x.len() > 0,
        difference::differenced(num, f, x, d),
        difference::differenced(num, f, x, e),
    ensures
        same_difference(d, e),
{
    let a = choose|cols: Seq<Vec<Scalar>>|
        {
            &&& #[trigger] difference::probed_upto(num, f, x, cols)
            &&& match d {
                Differenced::Rows { rows } => cols.len() == x.len() && linalg::grid(rows@)
                    == difference::rows_of_columns(linalg::grid(cols), cols[0]@.len() as int),
                Differenced::Fault { fault } => cols.len() < x.len() && difference::probed(
                    num,
                    f,
                    x,
                    column_len(cols, cols.len() as int),
                    cols.len() as int,
                    (Column::Fault { fault }),
                ),
            }
        };
    let b = choose|cols: Seq<Vec<Scalar>>|
        {
            &&& #[trigger] difference::probed_upto(num, f, x, cols)
            &&& match e {
                Differenced::Rows { rows } => cols.len() == x.len() && linalg::grid(rows@)
                    == difference::rows_of_columns(linalg::grid(cols), cols[0]@.len() as int),
                Differenced::Fault { fault } => cols.len() < x.len() && difference::probed(
                    num,
                    f,
                    x,
                    column_len(cols, cols.len() as int),
                    cols.len() as int,
                    (Column::Fault { fault }),
                ),
            }
        };
    tables_agree(num, f, x, a, b);
    if let Differenced::Fault { fault } = d {
        short_table_ends(num, f, x, a, b, fault);
    }
    if let Differenced::Fault { fault } = e {
        short_table_ends(num, f, x, b, a, fault);
    }
    match (d, e) {
        (Differenced::Rows { .. }, Differenced::Rows { .. }) => {
            assert(a[0]@ == b[0]@);
            assert(linalg::grid(a) =~= linalg::grid(b));
        },
        (Differenced::Fault { fault: p }, Differenced::Fault { fault: q }) => {
            if a.len() > 0 {
                assert(a[0]@ == b[0]@);
            }
            columns_agree(
                num,
                f,
                x,
                column_len(a, a.len() as int),
                a.len() as int,
                (Column::Fault { fault: p }),
                (Column::Fault { fault: q }),
            );
        },
        _ => {},
    }
}

proof fn jacobians_agree<A: Numeric, F: Fn(&Vec<Scalar>) -> Result<Vec<Scalar>, String>>(
    num: A,
    f: F,
    x: Seq<Scalar>,
    m: int,
    a: JacobianEnd,
    b: JacobianEnd,
)
    requires
        steady(f),
        x.len() > 0,
        driver::by_difference(num, f, x, m, a),
        driver::by_difference(num, f, x, m, b),
    ensures
        same_jacobian(a, b),
{
    let d = choose|d: Differenced|
        {
            &&& #[trigger] difference::differenced(num, f, x, d)
            &&& match d {
                Differenced::Fault { fault } => a == (JacobianEnd::Fault { fault }),
                Differenced::Rows { rows } => if rows@.len() != m {
                    a == (JacobianEnd::Fault {
                        fault: LmFault::ResidualLength {
                            expected: m as usize,
                            found: rows@.len() as usize,
                        },
                    })
                } else {
                    a == (JacobianEnd::Rows { rows, analytic: false })
                },
            }
        };
    let e = choose|d: Differenced|
        {
            &&& #[trigger] difference::differenced(num, f, x, d)
            &&& match d {
                Differenced::Fault { fault } => b == (JacobianEnd::Fault { fault }),
                Differenced::Rows { rows } => if rows@.len() != m {
                    b == (JacobianEnd::Fault {
                        fault: LmFault::ResidualLength {
                            expected: m as usize,
                            found: rows@.len() as usize,
                        },
                    })
                } else {
                    b == (JacobianEnd::Rows { rows, analytic: false })
                },
            }
        };
    differences_agree(num, f, x, d, e);
    if let (Differenced::Rows { rows: u }, Differenced::Rows { rows: v }) = (d, e) {
        assert(linalg::grid(u@).len() == u@.len());
        assert(linalg::grid(v@).len() == v@.len());
    }
}

/// What the evaluation of a trial makes of a ladder.
spec fn climbs_on<A: Numeric, F: Fn(&Vec<Scalar>) -> Result<Vec<Scalar>, String>>(
    num: A,
    f: F,
    cfg: LmConfig,
    at: Footing,
    tries: int,
    lambda: Scalar,
    nu: Scalar,
    evals: int,
    trial: Seq<Scalar>,
    v: Result<Vec<Scalar>, String>,
    end: LadderEnd,
) -> bool {
    let up = num.product(lambda, cfg.lambda_up);
    let next = ladder::raised(num, cfg, lambda, nu);
    match v {
        Err(_) => ladder::climbs(num, f, cfg, at, tries - 1, up, nu, evals + 1, end),
        Ok(r) => if scalar::less(numeric::dot_of(num, r@, r@), at.cost) {
            if r@.len() != at.r.len() {
                end == (LadderEnd::Changed {
                    fault: LmFault::ResidualLength {
                        expected: at.r.len() as usize,
                        found: r@.len() as usize,
                    },
                })
            } else {
                end matches LadderEnd::Taken { step } && ladder::accepts(
                    num,
                    cfg,
                    at,
                    lambda,
                    nu,
                    evals + 1,
                    trial,
                    r,
                    step,
                )
            }
        } else if ladder::too_damped(next.0) {
            end == (LadderEnd::Stuck { evals: (evals + 1) as usize })
        } else {
            ladder::climbs(num, f, cfg, at, tries - 1, next.0, next.1, evals + 1, end)
        },
    }
}

proof fn ladders_agree<A: Numeric, F: Fn(&Vec<Scalar>) -> Result<Vec<Scalar>, String>>(
    num: A,
    f: F,
    cfg: LmConfig,
    at: Footing,
    tries: int,
    lambda: Scalar,
    nu: Scalar,
    evals: int,
    a: LadderEnd,
    b: LadderEnd,
)
    requires
        steady(f),
        ladder::climbs(num, f, cfg, at, tries, lambda, nu, evals, a),
        ladder::climbs(num, f, cfg, at, tries, lambda, nu, evals, b),
    ensures
        same_ladder(a, b),
    decreases tries,
{
    let up = num.product(lambda, cfg.lambda_up);
    if tries > 0 && evals < cfg.max_evals {
        match model::lm_step(num, at.jac, at.r, at.x.len() as int, lambda) {
            None => {
                if !ladder::too_damped(up) {
                    ladders_agree(num, f, cfg, at, tries - 1, up, nu, evals, a, b);
                }
            },
            Some(d) => {
                let trial = ladder::trial_point(num, at.x, at.lo, at.hi, d);
                if ladder::motionless(ladder::gap(num, trial, at.x)) {
                    if !ladder::too_damped(lambda) {
                        ladders_agree(num, f, cfg, at, tries - 1, up, nu, evals, a, b);
                    }
                } else {
                    let next = ladder::raised(num, cfg, lambda, nu);
                    let v = choose|v: Result<Vec<Scalar>, String>|
                        {
                            &&& #[trigger] thick_opt::evaluated(f, trial, v)
                            &&& climbs_on(
                                num,
                                f,
                                cfg,
                                at,
                                tries,
                                lambda,
                                nu,
                                evals,
                                trial,
                                v,
                                a,
                            )
                        };
                    let w = choose|v: Result<Vec<Scalar>, String>|
                        {
                            &&& #[trigger] thick_opt::evaluated(f, trial, v)
                            &&& climbs_on(
                                num,
                                f,
                                cfg,
                                at,
                                tries,
                                lambda,
                                nu,
                                evals,
                                trial,
                                v,
                                b,
                            )
                        };
                    assert(same_answer(v, w));
                    match v {
                        Err(_) => {
                            ladders_agree(num, f, cfg, at, tries - 1, up, nu, evals + 1, a, b);
                        },
                        Ok(r) => {
                            if !scalar::less(numeric::dot_of(num, r@, r@), at.cost)
                                && !ladder::too_damped(next.0) {
                                ladders_agree(
                                    num,
                                    f,
                                    cfg,
                                    at,
                                    tries - 1,
                                    next.0,
                                    next.1,
                                    evals + 1,
                                    a,
                                    b,
                                );
                            }
                        },
                    }
                }
            },
        }
    }
}

proof fn rounds_agree<A: Numeric, F: Fn(&Vec<Scalar>) -> Result<Vec<Scalar>, String>>(
    num: A,
    f: F,
    cfg: LmConfig,
    lo: Seq<Scalar>,
    hi: Seq<Scalar>,
    s: LmRun,
    t: LmRun,
    a: RoundEnd,
    b: RoundEnd,
)
    requires
        steady(f),
        s.x@.len() > 0,
        same_state(s, t),
        driver::iterates(num, f, None::<&NoJacobian>, cfg, lo, hi, s, a),
        driver::iterates(num, f, None::<&NoJacobian>, cfg, lo, hi, t, b),
    ensures
        same_round(a, b),
        a matches RoundEnd::Go { run } ==> run.x@.len() == s.x@.len() && run.analytic
            == s.analytic,
        a matches RoundEnd::Done { out } ==> (out matches Ok(res) ==> res.analytic_jacobians
            == s.analytic),
{
    let m = s.r@.len() as int;
    if driver::affordable(cfg, s) {
        let j = choose|j: JacobianEnd|
            {
                &&& #[trigger] driver::completed(num, f, s.x@, m, Consulted::Declined, j)
                &&& driver::iterates_with(num, f, cfg, lo, hi, s, j, a)
            };
        let k = choose|j: JacobianEnd|
            {
                &&& #[trigger] driver::completed(num, f, t.x@, m, Consulted::Declined, j)
                &&& driver::iterates_with(num, f, cfg, lo, hi, t, j, b)
            };
        jacobians_agree(num, f, s.x@, m, j, k);
        if let (
            JacobianEnd::Rows { rows: u, analytic: p },
            JacobianEnd::Rows { rows: v, analytic: q },
        ) = (j, k) {
            let g = linalg::grid(u@);
            assert(!p);
            if !driver::stationary(num, cfg, g, s.r@, s.cost, s.x@.len() as int) {
                let at = Footing { x: s.x@, r: s.r@, cost: s.cost, jac: g, lo, hi };
                let tries = ladder::LADDER_STEPS as int;
                let evals = driver::evals_with(s, false);
                let c = choose|end: LadderEnd|
                    {
                        &&& #[trigger] ladder::climbs(
                            num,
                            f,
                            cfg,
                            at,
                            tries,
                            s.lambda,
                            s.nu,
                            evals,
                            end,
                        )
                        &&& driver::after_ladder(
                            num,
                            cfg,
                            s,
                            driver::analytic_with(s, false),
                            end,
                            a,
                        )
                    };
                let d = choose|end: LadderEnd|
                    {
                        &&& #[trigger] ladder::climbs(
                            num,
                            f,
                            cfg,
                            at,
                            tries,
                            s.lambda,
                            s.nu,
                            evals,
                            end,
                        )
                        &&& driver::after_ladder(
                            num,
                            cfg,
                            t,
                            driver::analytic_with(t, false),
                            end,
                            b,
                        )
                    };
                ladders_agree(num, f, cfg, at, tries, s.lambda, s.nu, evals, c, d);
                ladder_keeps_width(num, f, cfg, at, tries, s.lambda, s.nu, evals, c);
            }
        }
    }
}

proof fn ladder_keeps_width<A: Numeric, F: Fn(&Vec<Scalar>) -> Result<Vec<Scalar>, String>>(
    num: A,
    f: F,
    cfg: LmConfig,
    at: Footing,
    tries: int,
    lambda: Scalar,
    nu: Scalar,
    evals: int,
    end: LadderEnd,
)
    requires
        ladder::climbs(num, f, cfg, at, tries, lambda, nu, evals, end),
    ensures
        end matches LadderEnd::Taken { step } ==> step.x@.len() == at.x.len() && step.cost
            == numeric::dot_of(num, step.r@, step.r@) && thick_opt::evaluated(
            f,
            step.x@,
            Ok(step.r),
        ),
    decreases tries,
{
    let up = num.product(lambda, cfg.lambda_up);
    if tries > 0 && evals < cfg.max_evals {
        match model::lm_step(num, at.jac, at.r, at.x.len() as int, lambda) {
            None => {
                if !ladder::too_damped(up) {
                    ladder_keeps_width(num, f, cfg, at, tries - 1, up, nu, evals, end);
                }
            },
            Some(d) => {
                let trial = ladder::trial_point(num, at.x, at.lo, at.hi, d);
                if ladder::motionless(ladder::gap(num, trial, at.x)) {
                    if !ladder::too_damped(lambda) {
                        ladder_keeps_width(num, f, cfg, at, tries - 1, up, nu, evals, end);
                    }
                } else {
                    let next = ladder::raised(num, cfg, lambda, nu);
                    let v = choose|v: Result<Vec<Scalar>, String>|
                        {
                            &&& #[trigger] thick_opt::evaluated(f, trial, v)
                            &&& climbs_on(
                                num,
                                f,
                                cfg,
                                at,
                                tries,
                                lambda,
                                nu,
                                evals,
                                trial,
                                v,
                                end,
                            )
                        };
                    match v {
                        Err(_) => {
                            ladder_keeps_width(num, f, cfg, at, tries - 1, up, nu, evals + 1, end);
                        },
                        Ok(r) => {
                            if !scalar::less(numeric::dot_of(num, r@, r@), at.cost)
                                && !ladder::too_damped(next.0) {
                                ladder_keeps_width(
                                    num,
                                    f,
                                    cfg,
                                    at,
                                    tries - 1,
                                    next.0,
                                    next.1,
                                    evals + 1,
                                    end,
                                );
                            }
                        },
                    }
                }
            },
        }
    }
}

proof fn runs_agree<A: Numeric, F: Fn(&Vec<Scalar>) -> Result<Vec<Scalar>, String>>(
    num: A,
    f: F,
    cfg: LmConfig,
    lo: Seq<Scalar>,
    hi: Seq<Scalar>,
    s: LmRun,
    t: LmRun,
    a: Result<LmResult, LmFault>,
    b: Result<LmResult, LmFault>,
)
    requires
        steady(f),
        s.x@.len() > 0,
        same_state(s, t),
        driver::runs(num, f, None::<&NoJacobian>, cfg, lo, hi, s, a),
        driver::runs(num, f, None::<&NoJacobian>, cfg, lo, hi, t, b),
    ensures
        same_outcome(a, b),
        a matches Ok(res) ==> res.analytic_jacobians == s.analytic,
    decreases cfg.max_iterations - s.iteration,
{
    if s.iteration < cfg.max_iterations {
        let d = choose|e: RoundEnd|
            {
                &&& #[trigger] driver::iterates(num, f, None::<&NoJacobian>, cfg, lo, hi, s, e)
                &&& match e {
                    RoundEnd::Done { out: o } => a == o,
                    RoundEnd::Go { run } => run.iteration == s.iteration + 1 && driver::runs(
                        num,
                        f,
                        None::<&NoJacobian>,
                        cfg,
                        lo,
                        hi,
                        run,
                        a,
                    ),
                }
            };
        let e = choose|e: RoundEnd|
            {
                &&& #[trigger] driver::iterates(num, f, None::<&NoJacobian>, cfg, lo, hi, t, e)
                &&& match e {
                    RoundEnd::Done { out: o } => b == o,
                    RoundEnd::Go { run } => run.iteration == t.iteration + 1 && driver::runs(
                        num,
                        f,
                        None::<&NoJacobian>,
                        cfg,
                        lo,
                        hi,
                        run,
                        b,
                    ),
                }
            };
        rounds_agree(num, f, cfg, lo, hi, s, t, d, e);
        if let (RoundEnd::Go { run: p }, RoundEnd::Go { run: q }) = (d, e) {
            runs_agree(num, f, cfg, lo, hi, p, q, a, b);
        }
    }
}

/// The start of a run: the answer at the clamped point and what follows.
spec fn starts<A: Numeric, F: Fn(&Vec<Scalar>) -> Result<Vec<Scalar>, String>, J: JacobianSource>(
    num: A,
    f: F,
    src: Option<&J>,
    cfg: LmConfig,
    x: Seq<Scalar>,
    lo: Seq<Scalar>,
    hi: Seq<Scalar>,
    v: Result<Vec<Scalar>, String>,
    out: Result<LmResult, LmFault>,
) -> bool {
    match v {
        Err(reason) => out == Err::<LmResult, LmFault>(LmFault::Failed { reason }),
        Ok(r) => exists|s: LmRun|
            {
                &&& driver::fresh(num, cfg, x, r, s)
                &&& #[trigger] driver::runs(num, f, src, cfg, lo, hi, s, out)
            },
    }
}

/// With steady residuals a run by differences has one result: two runs on the
/// same inputs come to the same, and no Jacobian of either is analytic.
pub proof fn a_steady_run_has_one_result<
    A: Numeric,
    F: Fn(&Vec<Scalar>) -> Result<Vec<Scalar>, String>,
>(
    num: A,
    f: F,
    cfg: LmConfig,
    x0: Seq<Scalar>,
    lo: Seq<Scalar>,
    hi: Seq<Scalar>,
    a: Result<LmResult, LmFault>,
    b: Result<LmResult, LmFault>,
)
    requires
        steady(f),
        driver::minimizes(num, f, None::<&NoJacobian>, cfg, x0, lo, hi, a),
        driver::minimizes(num, f, None::<&NoJacobian>, cfg, x0, lo, hi, b),
    ensures
        same_outcome(a, b),
        a matches Ok(res) ==> res.analytic_jacobians == 0,
{
    if driver::start_fault(x0, lo, hi) is None {
        let x = driver::clamped_start(x0, lo, hi);
        let v = choose|v: Result<Vec<Scalar>, String>|
            {
                &&& #[trigger] thick_opt::evaluated(f, x, v)
                &&& starts(num, f, None::<&NoJacobian>, cfg, x, lo, hi, v, a)
            };
        let w = choose|v: Result<Vec<Scalar>, String>|
            {
                &&& #[trigger] thick_opt::evaluated(f, x, v)
                &&& starts(num, f, None::<&NoJacobian>, cfg, x, lo, hi, v, b)
            };
        assert(same_answer(v, w));
        if let (Ok(p), Ok(q)) = (v, w) {
            let s = choose|s: LmRun|
                {
                    &&& driver::fresh(num, cfg, x, p, s)
                    &&& #[trigger] driver::runs(num, f, None::<&NoJacobian>, cfg, lo, hi, s, a)
                };
            let t = choose|s: LmRun|
                {
                    &&& driver::fresh(num, cfg, x, q, s)
                    &&& #[trigger] driver::runs(num, f, None::<&NoJacobian>, cfg, lo, hi, s, b)
                };
            runs_agree(num, f, cfg, lo, hi, s, t, a, b);
        }
    }
}

/// A source that declines everywhere leaves a run exactly as it is without a
/// source: with steady residuals both come to the same, and no Jacobian is
/// counted as analytic.
pub proof fn a_declining_source_leaves_the_result<
    A: Numeric,
    F: Fn(&Vec<Scalar>) -> Result<Vec<Scalar>, String>,
    J: JacobianSource,
>(
    num: A,
    f: F,
    src: &J,
    cfg: LmConfig,
    x0: Seq<Scalar>,
    lo: Seq<Scalar>,
    hi: Seq<Scalar>,
    a: Result<LmResult, LmFault>,
    b: Result<LmResult, LmFault>,
)
    requires
        steady(f),
        laws::declines(*src),
        driver::minimizes(num, f, Some(src), cfg, x0, lo, hi, a),
        driver::minimizes(num, f, None::<&NoJacobian>, cfg, x0, lo, hi, b),
    ensures
        same_outcome(a, b),
        a matches Ok(res) ==> res.analytic_jacobians == 0,
{
    laws::a_declining_source_changes_nothing(num, f, src, cfg, x0, lo, hi, a);
    a_steady_run_has_one_result(num, f, cfg, x0, lo, hi, a, b);
}

// ---------------------------------------------------------------------------
// The cost of a result
// ---------------------------------------------------------------------------
/// `cost` is the sum of the squared residuals at `x`.
pub open spec fn cost_at<A: Numeric, F: Fn(&Vec<Scalar>) -> Result<Vec<Scalar>, String>>(
    num: A,
    f: F,
    x: Seq<Scalar>,
    cost: Scalar,
) -> bool {
    exists|r: Vec<Scalar>| #[trigger]
        thick_opt::evaluated(f, x, Ok(r)) && cost == numeric::dot_of(num, r@, r@)
}

proof fn costs_carry<
    A: Numeric,
    F: Fn(&Vec<Scalar>) -> Result<Vec<Scalar>, String>,
    J: JacobianSource,
>(
    num: A,
    f: F,
    src: Option<&J>,
    cfg: LmConfig,
    lo: Seq<Scalar>,
    hi: Seq<Scalar>,
    s: LmRun,
    out: Result<LmResult, LmFault>,
)
    requires
        cost_at(num, f, s.x@, s.cost),
        driver::runs(num, f, src, cfg, lo, hi, s, out),
    ensures
        out matches Ok(res) ==> cost_at(num, f, res.x@, res.cost),
    decreases cfg.max_iterations - s.iteration,
{
    if s.iteration < cfg.max_iterations {
        let e = choose|e: RoundEnd|
            {
                &&& #[trigger] driver::iterates(num, f, src, cfg, lo, hi, s, e)
                &&& match e {
                    RoundEnd::Done { out: o } => out == o,
                    RoundEnd::Go { run } => run.iteration == s.iteration + 1 && driver::runs(
                        num,
                        f,
                        src,
                        cfg,
                        lo,
                        hi,
                        run,
                        out,
                    ),
                }
            };
        round_costs_carry(num, f, src, cfg, lo, hi, s, e);
        if let RoundEnd::Go { run } = e {
            costs_carry(num, f, src, cfg, lo, hi, run, out);
        }
    }
}

proof fn round_costs_carry<
    A: Numeric,
    F: Fn(&Vec<Scalar>) -> Result<Vec<Scalar>, String>,
    J: JacobianSource,
>(
    num: A,
    f: F,
    src: Option<&J>,
    cfg: LmConfig,
    lo: Seq<Scalar>,
    hi: Seq<Scalar>,
    s: LmRun,
    e: RoundEnd,
)
    requires
        cost_at(num, f, s.x@, s.cost),
        driver::iterates(num, f, src, cfg, lo, hi, s, e),
    ensures
        match e {
            RoundEnd::Done { out } => out matches Ok(res) ==> cost_at(num, f, res.x@, res.cost),
            RoundEnd::Go { run } => cost_at(num, f, run.x@, run.cost),
        },
{
    let m = s.r@.len() as int;
    let c = choose|c: Consulted|
        {
            &&& #[trigger] driver::consulted(src, s.x@, m, c)
            &&& driver::proceeds(num, f, cfg, lo, hi, s, c, e)
        };
    if !(c is Declined) || driver::affordable(cfg, s) {
        let j = choose|j: JacobianEnd|
            {
                &&& #[trigger] driver::completed(num, f, s.x@, m, c, j)
                &&& driver::iterates_with(num, f, cfg, lo, hi, s, j, e)
            };
        if let JacobianEnd::Rows { rows, analytic } = j {
            let g = linalg::grid(rows@);
            if !driver::stationary(num, cfg, g, s.r@, s.cost, s.x@.len() as int) {
                let at = Footing { x: s.x@, r: s.r@, cost: s.cost, jac: g, lo, hi };
                let tries = ladder::LADDER_STEPS as int;
                let evals = driver::evals_with(s, analytic);
                let end = choose|end: LadderEnd|
                    {
                        &&& #[trigger] ladder::climbs(
                            num,
                            f,
                            cfg,
                            at,
                            tries,
                            s.lambda,
                            s.nu,
                            evals,
                            end,
                        )
                        &&& driver::after_ladder(
                            num,
                            cfg,
                            s,
                            driver::analytic_with(s, analytic),
                            end,
                            e,
                        )
                    };
                ladder_keeps_width(num, f, cfg, at, tries, s.lambda, s.nu, evals, end);
                if let LadderEnd::Taken { step } = end {
                    assert(cost_at(num, f, step.x@, step.cost));
                }
            }
        }
    }
}

/// The cost of a result is the sum of the squared residuals at its point, and
/// not above that at the start; the point lies in the box.
pub proof fn a_result_has_its_cost<
    A: Numeric,
    F: Fn(&Vec<Scalar>) -> Result<Vec<Scalar>, String>,
    J: JacobianSource,
>(
    num: A,
    f: F,
    src: Option<&J>,
    cfg: LmConfig,
    x0: Seq<Scalar>,
    lo: Seq<Scalar>,
    hi: Seq<Scalar>,
    out: Result<LmResult, LmFault>,
)
    requires
        driver::minimizes(num, f, src, cfg, x0, lo, hi, out),
    ensures
        out matches Ok(res) ==> {
            &&& cost_at(num, f, res.x@, res.cost)
            &&& exists|first: Scalar| #[trigger]
                cost_at(num, f, driver::clamped_start(x0, lo, hi), first) && laws::no_worse(
                    res.cost,
                    first,
                )
            &&& laws::never_outside(res.x@, lo, hi)
        },
{
    laws::a_result_lies_in_the_box(num, f, src, cfg, x0, lo, hi, out);
    if driver::start_fault(x0, lo, hi) is None {
        let x = driver::clamped_start(x0, lo, hi);
        laws::inside_start(x0, lo, hi, 0);
        assert forall|j: int| 0 <= j < x.len() implies !scalar::less(
            #[trigger] x[j],
            lo[j],
        ) && !scalar::less(hi[j], x[j]) by {
            assert(scalar::at_most(lo[j], hi[j]));
        }
        let v = choose|v: Result<Vec<Scalar>, String>|
            {
                &&& #[trigger] thick_opt::evaluated(f, x, v)
                &&& starts(num, f, src, cfg, x, lo, hi, v, out)
            };
        if let Ok(r) = v {
            let s = choose|s: LmRun|
                {
                    &&& driver::fresh(num, cfg, x, r, s)
                    &&& #[trigger] driver::runs(num, f, src, cfg, lo, hi, s, out)
                };
            assert(cost_at(num, f, s.x@, s.cost));
            costs_carry(num, f, src, cfg, lo, hi, s, out);
            laws::a_run_descends_inside(num, f, src, cfg, lo, hi, s, out);
        }
    }
}

} // verus!
