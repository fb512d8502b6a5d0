//! The Levenberg-Marquardt run.
use crate::linalg;
use crate::linalg::TWO_BITS;
use crate::numeric;
use crate::numeric::Numeric;
use crate::scalar;
use crate::scalar::Scalar;
use crate::thick_opt;
use crate::thick_opt::difference;
use crate::thick_opt::difference::{build_jacobian, Differenced};
use crate::thick_opt::ladder;
use crate::thick_opt::ladder::{climb, subtract, Footing, LadderEnd, LADDER_STEPS, NAN_BITS};
use crate::thick_opt::model;
use crate::thick_opt::model::{gradient_cosine, linearize, peak_of, LinearModel};
use crate::thick_opt::{
    ask, evaluate, JacobianSource, LmConfig, LmFault, LmResult, LmTermination, NoJacobian,
};
use vstd::prelude::*;

verus! {

// ---------------------------------------------------------------------------
// The Jacobian of an iteration
// ---------------------------------------------------------------------------
/// Rows of `n` entries each, one after the other.
pub open spec fn rows_of_flat(flat: Seq<Scalar>, m: int, n: int) -> Seq<Seq<Scalar>> {
    Seq::new(m as nat, |i: int| flat.subrange(i * n, i * n + n))
}

/// Cuts a flat matrix into rows.
pub fn cut_rows(flat: &Vec<Scalar>, m: usize, n: usize) -> (r: Vec<Vec<Scalar>>)
    requires
        flat@.len() == m * n,
    ensures
        linalg::grid(r@) == rows_of_flat(flat@, m as int, n as int),
        linalg::wide(linalg::grid(r@), n as int),
        r@.len() == m,
{
    let ghost target = rows_of_flat(flat@, m as int, n as int);
    let total: usize = flat.len();
    let mut out: Vec<Vec<Scalar>> = Vec::with_capacity(m);
    let mut i: usize = 0;
    let mut at: usize = 0;
    while i < m
        invariant
            total == flat@.len() == m * n,
            target == rows_of_flat(flat@, m as int, n as int),
            i <= m,
            at == i * n,
            out@.len() == i,
            linalg::grid(out@) == target.take(i as int),
        decreases m - i,
    {
        assert(i * n + n <= m * n) by (nonlinear_arith)
            requires
                i < m,
                0 <= n,
        ;
        assert((i + 1) * n == i * n + n) by (nonlinear_arith);
        let mut row: Vec<Scalar> = Vec::with_capacity(n);
        let mut j: usize = 0;
        while j < n
            invariant
                i < m,
                at == i * n,
                i * n + n <= m * n,
                total == flat@.len() == m * n,
                target == rows_of_flat(flat@, m as int, n as int),
                j <= n,
                row@ == target[i as int].take(j as int),
            decreases n - j,
        {
            row.push(flat[at + j]);
            j += 1;
            assert(row@ =~= target[i as int].take(j as int));
        }
        assert(row@ =~= target[i as int]);
        let ghost before = linalg::grid(out@);
        out.push(row);
        assert(linalg::grid(out@) =~= before.push(target[i as int]));
        i += 1;
        at += n;
        assert(linalg::grid(out@) =~= target.take(i as int));
    }
    proof {
        assert(target.take(i as int) =~= target);
        assert forall|k: int| 0 <= k < linalg::grid(out@).len() implies (
        #[trigger] linalg::grid(out@)[k]).len() == n by {
            assert(k * n + n <= m * n) by (nonlinear_arith)
                requires
                    k < m,
                    0 <= n,
            ;
            assert(0 <= k * n) by (nonlinear_arith)
                requires
                    0 <= k,
                    0 <= n,
            ;
            assert(linalg::grid(out@)[k] == target[k]);
        }
    }
    out
}

/// The Jacobian of an iteration, or why there is none.
pub enum JacobianEnd {
    Rows { rows: Vec<Vec<Scalar>>, analytic: bool },
    Fault { fault: LmFault },
}

/// `e` is a possible Jacobian by differences.
pub open spec fn by_difference<A: Numeric, F: Fn(&Vec<Scalar>) -> Result<Vec<Scalar>, String>>(
    num: A,
    f: F,
    x: Seq<Scalar>,
    m: int,
    e: JacobianEnd,
) -> bool {
    exists|d: Differenced|
        {
            &&& #[trigger] difference::differenced(num, f, x, d)
            &&& match d {
                Differenced::Fault { fault } => e == (JacobianEnd::Fault { fault }),
                Differenced::Rows { rows } => if rows@.len() != m {
                    e == (JacobianEnd::Fault {
                        fault: LmFault::ResidualLength {
                            expected: m as usize,
                            found: rows@.len() as usize,
                        },
                    })
                } else {
                    e == (JacobianEnd::Rows { rows, analytic: false })
                },
            }
        }
}

/// What a source says of the Jacobian: nothing, or how it ends.
pub enum Consulted {
    Declined,
    Settled { end: JacobianEnd },
}

/// `c` is what an answer of a source comes to.
pub open spec fn answered(
    n: int,
    m: int,
    answer: Result<Option<(usize, Vec<Scalar>)>, String>,
    c: Consulted,
) -> bool {
    match answer {
        Err(reason) => c == (Consulted::Settled {
            end: JacobianEnd::Fault { fault: LmFault::Failed { reason } },
        }),
        Ok(None) => c is Declined,
        Ok(Some((rows, flat))) => if rows != m || flat@.len() != m * n {
            c == (Consulted::Settled {
                end: JacobianEnd::Fault {
                    fault: LmFault::JacobianShape {
                        rows,
                        entries: flat@.len() as usize,
                        residuals: m as usize,
                    },
                },
            })
        } else {
            c matches Consulted::Settled { end } && end matches JacobianEnd::Rows {
                rows: got,
                analytic,
            } && analytic && linalg::grid(got@) == rows_of_flat(flat@, m, n)
        },
    }
}

/// `c` is what asking the source at `x` may come to; without one there is
/// nothing to ask.
pub open spec fn consulted<J: JacobianSource>(
    src: Option<&J>,
    x: Seq<Scalar>,
    m: int,
    c: Consulted,
) -> bool {
    match src {
        None => c is Declined,
        Some(s) => exists|answer: Result<Option<(usize, Vec<Scalar>)>, String>|
            {
                &&& #[trigger] thick_opt::filled(*s, x, answer)
                &&& answered(x.len() as int, m, answer, c)
            },
    }
}

/// `e` is the Jacobian once the source was asked: its own, or one by
/// differences where it declined.
pub open spec fn completed<A: Numeric, F: Fn(&Vec<Scalar>) -> Result<Vec<Scalar>, String>>(
    num: A,
    f: F,
    x: Seq<Scalar>,
    m: int,
    c: Consulted,
    e: JacobianEnd,
) -> bool {
    match c {
        Consulted::Declined => by_difference(num, f, x, m, e),
        Consulted::Settled { end } => e == end,
    }
}

/// `e` is a possible Jacobian at `x`: the source's if it has one, else by
/// differences.
pub open spec fn supplied<
    A: Numeric,
    F: Fn(&Vec<Scalar>) -> Result<Vec<Scalar>, String>,
    J: JacobianSource,
>(num: A, f: F, src: Option<&J>, x: Seq<Scalar>, m: int, e: JacobianEnd) -> bool {
    exists|c: Consulted|
        {
            &&& #[trigger] consulted(src, x, m, c)
            &&& completed(num, f, x, m, c, e)
        }
}

fn difference_jacobian<A: Numeric, F: Fn(&Vec<Scalar>) -> Result<Vec<Scalar>, String>>(
    num: &A,
    f: &F,
    x: &Vec<Scalar>,
    m: usize,
) -> (e: JacobianEnd)
    requires
        num.sound(),
        thick_opt::askable(*f),
        x@.len() > 0,
    ensures
        by_difference(*num, *f, x@, m as int, e),
        e matches JacobianEnd::Rows { rows, analytic } ==> rows@.len() == m && !analytic
            && linalg::wide(linalg::grid(rows@), x@.len() as int),
{
    let d: Differenced = build_jacobian(num, f, x);
    assert(difference::differenced(*num, *f, x@, d));
    match d {
        Differenced::Fault { fault } => JacobianEnd::Fault { fault },
        Differenced::Rows { rows } => if rows.len() != m {
            JacobianEnd::Fault {
                fault: LmFault::ResidualLength { expected: m, found: rows.len() },
            }
        } else {
            JacobianEnd::Rows { rows, analytic: false }
        },
    }
}

/// Asks the source for the Jacobian at `x`.
pub fn consult<J: JacobianSource>(src: Option<&J>, x: &Vec<Scalar>, m: usize) -> (c: Consulted)
    ensures
        consulted(src, x@, m as int, c),
        c matches Consulted::Settled { end } ==> (end matches JacobianEnd::Rows { rows, analytic }
            ==> analytic && rows@.len() == m && linalg::wide(
            linalg::grid(rows@),
            x@.len() as int,
        )),
{
    match src {
        None => Consulted::Declined,
        Some(s) => {
            let answer: Result<Option<(usize, Vec<Scalar>)>, String> = ask(s, x);
            assert(thick_opt::filled(*s, x@, answer));
            match answer {
                Err(reason) => Consulted::Settled {
                    end: JacobianEnd::Fault { fault: LmFault::Failed { reason } },
                },
                Ok(None) => Consulted::Declined,
                Ok(Some((rows, flat))) => {
                    let n: usize = x.len();
                    let fits: bool = match m.checked_mul(n) {
                        Some(mn) => flat.len() == mn,
                        None => false,
                    };
                    if rows != m || !fits {
                        Consulted::Settled {
                            end: JacobianEnd::Fault {
                                fault: LmFault::JacobianShape {
                                    rows,
                                    entries: flat.len(),
                                    residuals: m,
                                },
                            },
                        }
                    } else {
                        Consulted::Settled {
                            end: JacobianEnd::Rows {
                                rows: cut_rows(&flat, m, n),
                                analytic: true,
                            },
                        }
                    }
                },
            }
        },
    }
}

/// Obtains the Jacobian at `x`.
pub fn obtain_jacobian<
    A: Numeric,
    F: Fn(&Vec<Scalar>) -> Result<Vec<Scalar>, String>,
    J: JacobianSource,
>(num: &A, f: &F, src: Option<&J>, x: &Vec<Scalar>, m: usize) -> (e: JacobianEnd)
    requires
        num.sound(),
        thick_opt::askable(*f),
        x@.len() > 0,
    ensures
        supplied(*num, *f, src, x@, m as int, e),
        e matches JacobianEnd::Rows { rows, .. } ==> rows@.len() == m && linalg::wide(
            linalg::grid(rows@),
            x@.len() as int,
        ),
{
    let c: Consulted = consult(src, x, m);
    let ghost said = c;
    let e: JacobianEnd = match c {
        Consulted::Declined => difference_jacobian(num, f, x, m),
        Consulted::Settled { end } => end,
    };
    assert(consulted(src, x@, m as int, said) && completed(*num, *f, x@, m as int, said, e));
    e
}

// ---------------------------------------------------------------------------
// One iteration
// ---------------------------------------------------------------------------
/// The state between iterations.
pub struct LmRun {
    pub x: Vec<Scalar>,
    pub r: Vec<Scalar>,
    pub cost: Scalar,
    pub lambda: Scalar,
    pub nu: Scalar,
    pub gain: Scalar,
    pub evals: usize,
    pub iteration: usize,
    pub analytic: usize,
}

/// The point passes a gradient test.
pub open spec fn stationary<A: Numeric>(
    num: A,
    cfg: LmConfig,
    jac: Seq<Seq<Scalar>>,
    r: Seq<Scalar>,
    cost: Scalar,
    n: int,
) -> bool {
    let jtr = model::gradient(num, jac, r, n);
    ||| scalar::less(model::peak(jtr, n), cfg.gtol)
    ||| cfg.gtol_scale_invariant && scalar::at_most(
        model::cosine(num, jtr, model::column_squares(num, jac, n), num.square_root(cost)),
        cfg.gtol,
    )
}

/// `out` reports the point `x` with this cost and these counts.
pub open spec fn reports(
    out: Result<LmResult, LmFault>,
    x: Seq<Scalar>,
    cost: Scalar,
    gain: Scalar,
    iteration: int,
    evals: int,
    analytic: int,
    why: LmTermination,
) -> bool {
    &&& out matches Ok(res)
    &&& res.x@ == x
    &&& res.cost == cost
    &&& res.gain_ratio == gain
    &&& res.iterations == iteration
    &&& res.evals == evals
    &&& res.analytic_jacobians == analytic
    &&& res.termination == why
}

/// Why the run ends after an accepted step from `from`, if it does.
pub open spec fn end_after<A: Numeric>(
    num: A,
    cfg: LmConfig,
    from: Seq<Scalar>,
    step: ladder::Accepted,
) -> Option<LmTermination> {
    let moved = ladder::gap(num, step.x@, from);
    let dx = numeric::norm_of(num, moved);
    let reach = num.product(cfg.xtol, num.sum(cfg.xtol, numeric::norm_of(num, step.x@)));
    if step.flat {
        Some(LmTermination::Cost)
    } else if scalar::at_most(dx, reach) {
        Some(LmTermination::Step)
    } else if step.evals >= cfg.max_evals {
        Some(LmTermination::MaxIterations)
    } else {
        None
    }
}

/// What an iteration comes to.
pub enum RoundEnd {
    Done { out: Result<LmResult, LmFault> },
    Go { run: LmRun },
}

/// `t` is `s` after the accepted `step`.
pub open spec fn advanced(s: LmRun, analytic: int, step: ladder::Accepted, t: LmRun) -> bool {
    &&& t.x@ == step.x@
    &&& t.r@ == step.r@
    &&& t.cost == step.cost
    &&& t.lambda == step.lambda
    &&& t.nu == step.nu
    &&& t.gain == step.gain
    &&& t.evals == step.evals
    &&& t.iteration == s.iteration + 1
    &&& t.analytic == analytic
}

/// `e` is what the end of the ladder makes of an iteration from `s`.
pub open spec fn after_ladder<A: Numeric>(
    num: A,
    cfg: LmConfig,
    s: LmRun,
    analytic: int,
    end: LadderEnd,
    e: RoundEnd,
) -> bool {
    match end {
        LadderEnd::Changed { fault } => e == (RoundEnd::Done { out: Err(fault) }),
        LadderEnd::Stuck { evals } => e matches RoundEnd::Done { out } && reports(
            out,
            s.x@,
            s.cost,
            s.gain,
            s.iteration as int,
            evals as int,
            analytic,
            LmTermination::Stalled,
        ),
        LadderEnd::Taken { step } => match end_after(num, cfg, s.x@, step) {
            Some(why) => e matches RoundEnd::Done { out } && reports(
                out,
                step.x@,
                step.cost,
                step.gain,
                s.iteration as int,
                step.evals as int,
                analytic,
                why,
            ),
            None => e matches RoundEnd::Go { run } && advanced(s, analytic, step, run),
        },
    }
}

/// The evaluations once the Jacobian is there: differences take two per
/// coordinate.
pub open spec fn evals_with(s: LmRun, analytic: bool) -> int {
    if analytic {
        s.evals as int
    } else {
        s.evals + 2 * s.x@.len()
    }
}

/// The analytic Jacobians once this iteration's is there.
pub open spec fn analytic_with(s: LmRun, analytic: bool) -> int {
    if analytic {
        s.analytic + 1
    } else {
        s.analytic as int
    }
}

/// `e` is a possible outcome of an iteration from `s` once the Jacobian is
/// obtained: the gradient tests, the ladder, and the tests on the step taken.
pub open spec fn iterates_with<
    A: Numeric,
    F: Fn(&Vec<Scalar>) -> Result<Vec<Scalar>, String>,
>(
    num: A,
    f: F,
    cfg: LmConfig,
    lo: Seq<Scalar>,
    hi: Seq<Scalar>,
    s: LmRun,
    j: JacobianEnd,
    e: RoundEnd,
) -> bool {
    match j {
        JacobianEnd::Fault { fault } => e == (RoundEnd::Done { out: Err(fault) }),
        JacobianEnd::Rows { rows, analytic } => if stationary(
            num,
            cfg,
            linalg::grid(rows@),
            s.r@,
            s.cost,
            s.x@.len() as int,
        ) {
            e matches RoundEnd::Done { out } && reports(
                out,
                s.x@,
                s.cost,
                s.gain,
                s.iteration as int,
                evals_with(s, analytic),
                analytic_with(s, analytic),
                LmTermination::Gradient,
            )
        } else {
            exists|end: LadderEnd|
                {
                    &&& #[trigger] ladder::climbs(
                        num,
                        f,
                        cfg,
                        (Footing {
                            x: s.x@,
                            r: s.r@,
                            cost: s.cost,
                            jac: linalg::grid(rows@),
                            lo,
                            hi,
                        }),
                        LADDER_STEPS as int,
                        s.lambda,
                        s.nu,
                        evals_with(s, analytic),
                        end,
                    )
                    &&& after_ladder(num, cfg, s, analytic_with(s, analytic), end, e)
                }
        },
    }
}

/// A Jacobian by differences stays within the evaluation cap.
pub open spec fn affordable(cfg: LmConfig, s: LmRun) -> bool {
    s.evals + 2 * s.x@.len() <= cfg.max_evals
}

/// `e` is a possible outcome of an iteration from `s` once the source was
/// asked: where it declined and differences would pass the evaluation cap, the
/// run ends where it is.
pub open spec fn proceeds<A: Numeric, F: Fn(&Vec<Scalar>) -> Result<Vec<Scalar>, String>>(
    num: A,
    f: F,
    cfg: LmConfig,
    lo: Seq<Scalar>,
    hi: Seq<Scalar>,
    s: LmRun,
    c: Consulted,
    e: RoundEnd,
) -> bool {
    if c is Declined && !affordable(cfg, s) {
        e matches RoundEnd::Done { out } && reports(
            out,
            s.x@,
            s.cost,
            s.gain,
            s.iteration as int,
            s.evals as int,
            s.analytic as int,
            LmTermination::MaxIterations,
        )
    } else {
        exists|j: JacobianEnd|
            {
                &&& #[trigger] completed(num, f, s.x@, s.r@.len() as int, c, j)
                &&& iterates_with(num, f, cfg, lo, hi, s, j, e)
            }
    }
}

/// `e` is a possible outcome of one iteration from `s`.
pub open spec fn iterates<
    A: Numeric,
    F: Fn(&Vec<Scalar>) -> Result<Vec<Scalar>, String>,
    J: JacobianSource,
>(
    num: A,
    f: F,
    src: Option<&J>,
    cfg: LmConfig,
    lo: Seq<Scalar>,
    hi: Seq<Scalar>,
    s: LmRun,
    e: RoundEnd,
) -> bool {
    exists|c: Consulted|
        {
            &&& #[trigger] consulted(src, s.x@, s.r@.len() as int, c)
            &&& proceeds(num, f, cfg, lo, hi, s, c, e)
        }
}

/// The evaluations have room for the differences of one Jacobian past the cap.
pub open spec fn roomy(cfg: LmConfig, n: int) -> bool {
    cfg.max_evals + 2 * n + 2 <= usize::MAX
}

/// What holds between iterations.
pub open spec fn sound_run(cfg: LmConfig, s: LmRun, n: int) -> bool {
    &&& s.x@.len() == n
    &&& n > 0
    &&& s.evals <= cfg.max_evals || s.evals <= 1
    &&& s.iteration <= cfg.max_iterations
    &&& s.analytic <= s.iteration
}

fn settle<A: Numeric>(num: &A, cfg: &LmConfig, s: LmRun, analytic: usize, end: LadderEnd) -> (e:
    RoundEnd)
    requires
        num.sound(),
        s.iteration < usize::MAX,
        end matches LadderEnd::Taken { step } ==> step.x@.len() == s.x@.len(),
    ensures
        after_ladder(*num, *cfg, s, analytic as int, end, e),
{
    match end {
        LadderEnd::Changed { fault } => RoundEnd::Done { out: Err(fault) },
        LadderEnd::Stuck { evals } => RoundEnd::Done {
            out: Ok(
                LmResult {
                    x: s.x,
                    cost: s.cost,
                    iterations: s.iteration,
                    evals,
                    termination: LmTermination::Stalled,
                    gain_ratio: s.gain,
                    analytic_jacobians: analytic,
                },
            ),
        },
        LadderEnd::Taken { step } => {
            let moved: Vec<Scalar> = subtract(num, &step.x, &s.x);
            let dx: Scalar = numeric::norm(num, &moved);
            let reach: Scalar = num.times(
                cfg.xtol,
                num.plus(cfg.xtol, numeric::norm(num, &step.x)),
            );
            let why: Option<LmTermination> = if step.flat {
                Some(LmTermination::Cost)
            } else if dx.le(reach) {
                Some(LmTermination::Step)
            } else if step.evals >= cfg.max_evals {
                Some(LmTermination::MaxIterations)
            } else {
                None
            };
            match why {
                Some(termination) => RoundEnd::Done {
                    out: Ok(
                        LmResult {
                            x: step.x,
                            cost: step.cost,
                            iterations: s.iteration,
                            evals: step.evals,
                            termination,
                            gain_ratio: step.gain,
                            analytic_jacobians: analytic,
                        },
                    ),
                },
                None => RoundEnd::Go {
                    run: LmRun {
                        x: step.x,
                        r: step.r,
                        cost: step.cost,
                        lambda: step.lambda,
                        nu: step.nu,
                        gain: step.gain,
                        evals: step.evals,
                        iteration: s.iteration + 1,
                        analytic,
                    },
                },
            }
        },
    }
}

/// Runs one iteration.
pub fn iterate<
    A: Numeric,
    F: Fn(&Vec<Scalar>) -> Result<Vec<Scalar>, String>,
    J: JacobianSource,
>(
    num: &A,
    f: &F,
    src: Option<&J>,
    cfg: &LmConfig,
    lo: &Vec<Scalar>,
    hi: &Vec<Scalar>,
    s: LmRun,
) -> (e: RoundEnd)
    requires
        num.sound(),
        thick_opt::askable(*f),
        sound_run(*cfg, s, s.x@.len() as int),
        s.x@.len() < usize::MAX,
        s.iteration < cfg.max_iterations,
        ladder::boxed(lo@, hi@, s.x@.len() as int),
    ensures
        iterates(*num, *f, src, *cfg, lo@, hi@, s, e),
        e matches RoundEnd::Go { run } ==> sound_run(*cfg, run, s.x@.len() as int)
            && run.iteration == s.iteration + 1,
        e matches RoundEnd::Done { out } ==> (out matches Ok(res) ==> (cfg.max_evals
            >= 1 ==> res.evals <= cfg.max_evals)),
{
    let n: usize = s.x.len();
    let c: Consulted = consult(src, &s.x, s.r.len());
    let ghost said = c;
    let got: JacobianEnd = match c {
        Consulted::Declined => {
            if s.evals > cfg.max_evals || n > (cfg.max_evals - s.evals) / 2 {
                return RoundEnd::Done {
                    out: Ok(
                        LmResult {
                            x: s.x,
                            cost: s.cost,
                            iterations: s.iteration,
                            evals: s.evals,
                            termination: LmTermination::MaxIterations,
                            gain_ratio: s.gain,
                            analytic_jacobians: s.analytic,
                        },
                    ),
                };
            }
            difference_jacobian(num, f, &s.x, s.r.len())
        },
        Consulted::Settled { end } => end,
    };
    assert(completed(*num, *f, s.x@, s.r@.len() as int, said, got));
    let (rows, by_source): (Vec<Vec<Scalar>>, bool) = match got {
        JacobianEnd::Fault { fault } => {
            return RoundEnd::Done { out: Err(fault) };
        },
        JacobianEnd::Rows { rows, analytic } => (rows, analytic),
    };
    let evals: usize = if by_source {
        s.evals
    } else {
        s.evals + 2 * n
    };
    let analytic: usize = if by_source {
        s.analytic + 1
    } else {
        s.analytic
    };
    let m: LinearModel = linearize(num, rows, &s.r, n);
    let by_size: bool = peak_of(&m.jtr).lt(cfg.gtol);
    let ready: bool = by_size || (cfg.gtol_scale_invariant && gradient_cosine(
        num,
        &m.jtr,
        &m.col_sq,
        num.root(s.cost),
    ).le(cfg.gtol));
    assert(ready == stationary(*num, *cfg, linalg::grid(rows@), s.r@, s.cost, n as int));
    if ready {
        return RoundEnd::Done {
            out: Ok(
                LmResult {
                    x: s.x,
                    cost: s.cost,
                    iterations: s.iteration,
                    evals,
                    termination: LmTermination::Gradient,
                    gain_ratio: s.gain,
                    analytic_jacobians: analytic,
                },
            ),
        };
    }
    let end: LadderEnd = climb(
        num,
        f,
        cfg,
        &m,
        &s.x,
        &s.r,
        s.cost,
        lo,
        hi,
        LADDER_STEPS,
        s.lambda,
        s.nu,
        evals,
    );
    assert(ladder::climbs(
        *num,
        *f,
        *cfg,
        (Footing {
            x: s.x@,
            r: s.r@,
            cost: s.cost,
            jac: linalg::grid(rows@),
            lo: lo@,
            hi: hi@,
        }),
        LADDER_STEPS as int,
        s.lambda,
        s.nu,
        evals_with(s, by_source),
        end,
    ));
    settle(num, cfg, s, analytic, end)
}

// ---------------------------------------------------------------------------
// The run
// ---------------------------------------------------------------------------
/// `out` is a possible result of the iterations from `s` on.
pub open spec fn runs<
    A: Numeric,
    F: Fn(&Vec<Scalar>) -> Result<Vec<Scalar>, String>,
    J: JacobianSource,
>(
    num: A,
    f: F,
    src: Option<&J>,
    cfg: LmConfig,
    lo: Seq<Scalar>,
    hi: Seq<Scalar>,
    s: LmRun,
    out: Result<LmResult, LmFault>,
) -> bool
    decreases cfg.max_iterations - s.iteration,
{
    if s.iteration >= cfg.max_iterations {
        reports(
            out,
            s.x@,
            s.cost,
            s.gain,
            s.iteration as int,
            s.evals as int,
            s.analytic as int,
            LmTermination::MaxIterations,
        )
    } else {
        exists|e: RoundEnd|
            {
                &&& #[trigger] iterates(num, f, src, cfg, lo, hi, s, e)
                &&& match e {
                    RoundEnd::Done { out: o } => out == o,
                    RoundEnd::Go { run } => run.iteration == s.iteration + 1 && runs(
                        num,
                        f,
                        src,
                        cfg,
                        lo,
                        hi,
                        run,
                        out,
                    ),
                }
            }
    }
}

/// The first coordinate from `j` on that leaves its interval.
pub open spec fn first_outside(
    x: Seq<Scalar>,
    lo: Seq<Scalar>,
    hi: Seq<Scalar>,
    j: int,
) -> Option<LmFault>
    decreases x.len() - j,
{
    if j >= x.len() {
        None
    } else if !(scalar::at_most(lo[j], x[j]) && scalar::at_most(x[j], hi[j])) {
        Some(LmFault::StartOutside { index: j as usize, x: x[j], lo: lo[j], hi: hi[j] })
    } else {
        first_outside(x, lo, hi, j + 1)
    }
}

/// What is wrong with the inputs of a run.
pub open spec fn start_fault(x: Seq<Scalar>, lo: Seq<Scalar>, hi: Seq<Scalar>) -> Option<
    LmFault,
> {
    if x.len() == 0 {
        Some(LmFault::NoParameters)
    } else if lo.len() != x.len() || hi.len() != x.len() {
        Some(LmFault::BoundLength)
    } else {
        first_outside(x, lo, hi, 0)
    }
}

/// The starting point, clamped into the box.
pub open spec fn clamped_start(x: Seq<Scalar>, lo: Seq<Scalar>, hi: Seq<Scalar>) -> Seq<Scalar> {
    Seq::new(x.len(), |j: int| scalar::confined(x[j], lo[j], hi[j]))
}

/// `s` is the state before the first iteration at `x` with residuals `r`.
pub open spec fn fresh<A: Numeric>(
    num: A,
    cfg: LmConfig,
    x: Seq<Scalar>,
    r: Vec<Scalar>,
    s: LmRun,
) -> bool {
    &&& s.x@ == x
    &&& s.r@ == r@
    &&& s.cost == numeric::dot_of(num, r@, r@)
    &&& s.lambda == cfg.lambda_init
    &&& s.nu == (Scalar { bits: TWO_BITS })
    &&& s.gain == (Scalar { bits: NAN_BITS })
    &&& s.evals == 1
    &&& s.iteration == 0
    &&& s.analytic == 0
}

/// `out` is a possible result of a whole run.
pub open spec fn minimizes<
    A: Numeric,
    F: Fn(&Vec<Scalar>) -> Result<Vec<Scalar>, String>,
    J: JacobianSource,
>(
    num: A,
    f: F,
    src: Option<&J>,
    cfg: LmConfig,
    x0: Seq<Scalar>,
    lo: Seq<Scalar>,
    hi: Seq<Scalar>,
    out: Result<LmResult, LmFault>,
) -> bool {
    match start_fault(x0, lo, hi) {
        Some(fault) => out == Err::<LmResult, LmFault>(fault),
        None => {
            let x = clamped_start(x0, lo, hi);
            exists|v: Result<Vec<Scalar>, String>|
                {
                    &&& #[trigger] thick_opt::evaluated(f, x, v)
                    &&& match v {
                        Err(reason) => out == Err::<LmResult, LmFault>(
                            LmFault::Failed { reason },
                        ),
                        Ok(r) => exists|s: LmRun|
                            {
                                &&& fresh(num, cfg, x, r, s)
                                &&& #[trigger] runs(num, f, src, cfg, lo, hi, s, out)
                            },
                    }
                }
        },
    }
}

fn check_start(x0: &Vec<Scalar>, lo: &Vec<Scalar>, hi: &Vec<Scalar>) -> (r: Option<LmFault>)
    ensures
        r == start_fault(x0@, lo@, hi@),
        r is None ==> ladder::boxed(lo@, hi@, x0@.len() as int) && x0@.len() > 0,
{
    let n: usize = x0.len();
    if n == 0 {
        return Some(LmFault::NoParameters);
    }
    if lo.len() != n || hi.len() != n {
        return Some(LmFault::BoundLength);
    }
    let mut j: usize = 0;
    while j < n
        invariant
            n == x0@.len(),
            n > 0,
            lo@.len() == n,
            hi@.len() == n,
            j <= n,
            forall|k: int| 0 <= k < j ==> scalar::at_most(#[trigger] lo@[k], hi@[k]),
            first_outside(x0@, lo@, hi@, j as int) == first_outside(x0@, lo@, hi@, 0),
        decreases n - j,
    {
        if !(lo[j].le(x0[j]) && x0[j].le(hi[j])) {
            return Some(
                LmFault::StartOutside { index: j, x: x0[j], lo: lo[j], hi: hi[j] },
            );
        }
        j += 1;
    }
    None
}

fn clamp_start(x0: &Vec<Scalar>, lo: &Vec<Scalar>, hi: &Vec<Scalar>) -> (r: Vec<Scalar>)
    requires
        ladder::boxed(lo@, hi@, x0@.len() as int),
    ensures
        r@ == clamped_start(x0@, lo@, hi@),
{
    let ghost target = clamped_start(x0@, lo@, hi@);
    let mut out: Vec<Scalar> = Vec::with_capacity(x0.len());
    let mut j: usize = 0;
    while j < x0.len()
        invariant
            ladder::boxed(lo@, hi@, x0@.len() as int),
            target == clamped_start(x0@, lo@, hi@),
            j <= x0.len(),
            out@ == target.take(j as int),
        decreases x0.len() - j,
    {
        assert(scalar::at_most(lo@[j as int], hi@[j as int]));
        out.push(x0[j].clamp(lo[j], hi[j]));
        j += 1;
        assert(out@ =~= target.take(j as int));
    }
    assert(out@ =~= target);
    out
}

/// Minimizes the sum of the squared residuals over the box, with an analytic
/// Jacobian where the source supplies one.
pub fn levenberg_marquardt_with<
    A: Numeric,
    F: Fn(&Vec<Scalar>) -> Result<Vec<Scalar>, String>,
    J: JacobianSource,
>(
    num: &A,
    residuals: &F,
    jacobian: Option<&J>,
    x0: &Vec<Scalar>,
    lb: &Vec<Scalar>,
    ub: &Vec<Scalar>,
    cfg: &LmConfig,
) -> (out: Result<LmResult, LmFault>)
    requires
        num.sound(),
        thick_opt::askable(*residuals),
        x0@.len() < usize::MAX,
    ensures
        minimizes(*num, *residuals, jacobian, *cfg, x0@, lb@, ub@, out),
        out matches Ok(res) ==> (cfg.max_evals >= 1 ==> res.evals <= cfg.max_evals),
{
    match check_start(x0, lb, ub) {
        Some(fault) => {
            return Err(fault);
        },
        None => {},
    }
    let n: usize = x0.len();
    let x: Vec<Scalar> = clamp_start(x0, lb, ub);
    let ghost start = x@;
    let got: Result<Vec<Scalar>, String> = evaluate(residuals, &x);
    assert(thick_opt::evaluated(*residuals, start, got));
    let r: Vec<Scalar> = match got {
        Err(reason) => {
            return Err(LmFault::Failed { reason });
        },
        Ok(r) => r,
    };
    let ghost r0 = r;
    let cost: Scalar = numeric::dot(num, &r, &r);
    let mut s: LmRun = LmRun {
        x,
        r,
        cost,
        lambda: cfg.lambda_init,
        nu: Scalar::from_bits(TWO_BITS),
        gain: Scalar::from_bits(NAN_BITS),
        evals: 1,
        iteration: 0,
        analytic: 0,
    };
    let ghost s0 = s;
    assert(fresh(*num, *cfg, start, r0, s0));
    while s.iteration < cfg.max_iterations
        invariant
            num.sound(),
            thick_opt::askable(*residuals),
            n < usize::MAX,
            ladder::boxed(lb@, ub@, n as int),
            sound_run(*cfg, s, n as int),
            start_fault(x0@, lb@, ub@) is None,
            start == clamped_start(x0@, lb@, ub@),
            got == Ok::<Vec<Scalar>, String>(r0),
            thick_opt::evaluated(*residuals, start, got),
            fresh(*num, *cfg, start, r0, s0),
            forall|o: Result<LmResult, LmFault>| #[trigger]
                runs(*num, *residuals, jacobian, *cfg, lb@, ub@, s, o) ==> runs(
                    *num,
                    *residuals,
                    jacobian,
                    *cfg,
                    lb@,
                    ub@,
                    s0,
                    o,
                ),
        decreases cfg.max_iterations - s.iteration,
    {
        let ghost before = s;
        let e: RoundEnd = iterate(num, residuals, jacobian, cfg, lb, ub, s);
        assert(iterates(*num, *residuals, jacobian, *cfg, lb@, ub@, before, e));
        match e {
            RoundEnd::Done { out } => {
                assert(runs(*num, *residuals, jacobian, *cfg, lb@, ub@, before, out));
                return out;
            },
            RoundEnd::Go { run } => {
                assert forall|o: Result<LmResult, LmFault>| #[trigger]
                    runs(*num, *residuals, jacobian, *cfg, lb@, ub@, run, o) implies runs(
                    *num,
                    *residuals,
                    jacobian,
                    *cfg,
                    lb@,
                    ub@,
                    s0,
                    o,
                ) by {
                    assert(runs(*num, *residuals, jacobian, *cfg, lb@, ub@, before, o));
                }
                s = run;
            },
        }
    }
    let ghost last = s;
    let out: Result<LmResult, LmFault> = Ok(
        LmResult {
            x: s.x,
            cost: s.cost,
            iterations: s.iteration,
            evals: s.evals,
            termination: LmTermination::MaxIterations,
            gain_ratio: s.gain,
            analytic_jacobians: s.analytic,
        },
    );
    assert(runs(*num, *residuals, jacobian, *cfg, lb@, ub@, last, out));
    out
}

/// Minimizes the sum of the squared residuals over the box by differences
/// alone.
pub fn levenberg_marquardt<A: Numeric, F: Fn(&Vec<Scalar>) -> Result<Vec<Scalar>, String>>(
    num: &A,
    residuals: &F,
    x0: &Vec<Scalar>,
    lb: &Vec<Scalar>,
    ub: &Vec<Scalar>,
    cfg: &LmConfig,
) -> (out: Result<LmResult, LmFault>)
    requires
        num.sound(),
        thick_opt::askable(*residuals),
        x0@.len() < usize::MAX,
    ensures
        minimizes(*num, *residuals, None::<&NoJacobian>, *cfg, x0@, lb@, ub@, out),
        out matches Ok(res) ==> (cfg.max_evals >= 1 ==> res.evals <= cfg.max_evals),
{
    levenberg_marquardt_with(num, residuals, None::<&NoJacobian>, x0, lb, ub, cfg)
}

} // verus!
