//! The damping ladder: raising the damping until a step lowers the cost.
use crate::linalg;
use crate::linalg::TWO_BITS;
use crate::numeric;
use crate::numeric::Numeric;
use crate::scalar;
use crate::scalar::Scalar;
use crate::thick_opt;
use crate::thick_opt::model;
use crate::thick_opt::model::{
    damped_lm_step, ftol_converged, predicted_reduction, LinearModel,
};
use crate::thick_opt::{evaluate, LmConfig, LmDamping, LmFault};
use vstd::prelude::*;

verus! {

/// Damping above this gives up: 1e18.
pub const LAMBDA_CEILING_BITS: u64 = 0x43ab_c16d_674e_c800;

/// Floor of the cost that reductions are taken relative to: 1e-300.
pub const COST_FLOOR_BITS: u64 = 0x01a5_6e1f_c2f8_f359;

/// The least factor that an accepted step shrinks the damping by: 1/3.
pub const THIRD_BITS: u64 = 0x3fd5_5555_5555_5555;

/// The pattern of the NaN that stands for no gain ratio.
pub const NAN_BITS: u64 = 0x7ff8_0000_0000_0000;

/// How many steps the ladder has.
pub const LADDER_STEPS: usize = 40;

// ---------------------------------------------------------------------------
// The step that is taken
// ---------------------------------------------------------------------------
/// The step of one coordinate unless it pushes out of an active bound.
pub open spec fn vetoed(x: Scalar, lo: Scalar, hi: Scalar, d: Scalar) -> Scalar {
    let d1 = if scalar::at_most(x, lo) && scalar::less(d, Scalar::zero()) {
        Scalar::zero()
    } else {
        d
    };
    if scalar::at_most(hi, x) && scalar::less(Scalar::zero(), d1) {
        Scalar::zero()
    } else {
        d1
    }
}

/// Where a step leads: vetoed, then clamped into the box.
pub open spec fn trial_point<A: Numeric>(
    num: A,
    x: Seq<Scalar>,
    lo: Seq<Scalar>,
    hi: Seq<Scalar>,
    d: Seq<Scalar>,
) -> Seq<Scalar> {
    Seq::new(
        x.len(),
        |j: int|
            scalar::confined(num.sum(x[j], vetoed(x[j], lo[j], hi[j], d[j])), lo[j], hi[j]),
    )
}

/// Each entry less its partner.
pub open spec fn gap<A: Numeric>(num: A, us: Seq<Scalar>, vs: Seq<Scalar>) -> Seq<Scalar> {
    Seq::new(us.len(), |i: int| num.difference(us[i], vs[i]))
}

/// Nothing moves.
pub open spec fn motionless(step: Seq<Scalar>) -> bool {
    forall|i: int| 0 <= i < step.len() ==> scalar::same(#[trigger] step[i], Scalar::zero())
}

/// The box has an interval per coordinate, none of them empty.
pub open spec fn boxed(lo: Seq<Scalar>, hi: Seq<Scalar>, n: int) -> bool {
    &&& lo.len() == n
    &&& hi.len() == n
    &&& forall|j: int| 0 <= j < n ==> scalar::at_most(#[trigger] lo[j], hi[j])
}

/// Takes a step into the box.
pub fn step_into<A: Numeric>(
    num: &A,
    x: &Vec<Scalar>,
    lo: &Vec<Scalar>,
    hi: &Vec<Scalar>,
    d: &Vec<Scalar>,
) -> (r: Vec<Scalar>)
    requires
        num.sound(),
        boxed(lo@, hi@, x@.len() as int),
        d@.len() == x@.len(),
    ensures
        r@ == trial_point(*num, x@, lo@, hi@, d@),
{
    let ghost target = trial_point(*num, x@, lo@, hi@, d@);
    let mut out: Vec<Scalar> = Vec::with_capacity(x.len());
    let mut j: usize = 0;
    while j < x.len()
        invariant
            num.sound(),
            boxed(lo@, hi@, x@.len() as int),
            d@.len() == x@.len(),
            target == trial_point(*num, x@, lo@, hi@, d@),
            j <= x.len(),
            out@ == target.take(j as int),
        decreases x.len() - j,
    {
        let mut dj: Scalar = d[j];
        if x[j].le(lo[j]) && dj.lt(Scalar::zero()) {
            dj = Scalar::zero();
        }
        if x[j].ge(hi[j]) && dj.gt(Scalar::zero()) {
            dj = Scalar::zero();
        }
        assert(dj == vetoed(x@[j as int], lo@[j as int], hi@[j as int], d@[j as int]));
        assert(scalar::at_most(lo@[j as int], hi@[j as int]));
        out.push(num.plus(x[j], dj).clamp(lo[j], hi[j]));
        j += 1;
        assert(out@ =~= target.take(j as int));
    }
    assert(out@ =~= target);
    out
}

/// Computes `gap`.
pub fn subtract<A: Numeric>(num: &A, us: &Vec<Scalar>, vs: &Vec<Scalar>) -> (r: Vec<Scalar>)
    requires
        num.sound(),
        us@.len() == vs@.len(),
    ensures
        r@ == gap(*num, us@, vs@),
{
    let ghost target = gap(*num, us@, vs@);
    let mut out: Vec<Scalar> = Vec::with_capacity(us.len());
    let mut i: usize = 0;
    while i < us.len()
        invariant
            num.sound(),
            us@.len() == vs@.len(),
            target == gap(*num, us@, vs@),
            i <= us.len(),
            out@ == target.take(i as int),
        decreases us.len() - i,
    {
        out.push(num.minus(us[i], vs[i]));
        i += 1;
        assert(out@ =~= target.take(i as int));
    }
    assert(out@ =~= target);
    out
}

/// Tests whether nothing moves.
pub fn is_motionless(step: &Vec<Scalar>) -> (r: bool)
    ensures
        r == motionless(step@),
{
    let mut i: usize = 0;
    while i < step.len()
        invariant
            i <= step.len(),
            forall|j: int| 0 <= j < i ==> scalar::same(#[trigger] step@[j], Scalar::zero()),
        decreases step.len() - i,
    {
        if !step[i].same_value(Scalar::zero()) {
            assert(!scalar::same(step@[i as int], Scalar::zero()));
            return false;
        }
        i += 1;
    }
    true
}

// ---------------------------------------------------------------------------
// Damping
// ---------------------------------------------------------------------------
/// The gain ratio of a step.
pub open spec fn gain_of<A: Numeric>(num: A, actual: Scalar, predicted: Scalar) -> Scalar {
    if scalar::less(Scalar::zero(), predicted) {
        num.quotient(actual, predicted)
    } else {
        Scalar { bits: NAN_BITS }
    }
}

/// Damping and its multiplier after an accepted step.
pub open spec fn lowered<A: Numeric>(
    num: A,
    cfg: LmConfig,
    lambda: Scalar,
    nu: Scalar,
    actual: Scalar,
    predicted: Scalar,
) -> (Scalar, Scalar) {
    if cfg.damping == LmDamping::GainRatio && scalar::less(Scalar::zero(), predicted) {
        let t = num.difference(
            num.product((Scalar { bits: TWO_BITS }), num.quotient(actual, predicted)),
            Scalar::one(),
        );
        let cube = num.product(num.product(t, t), t);
        (
            num.product(
                lambda,
                scalar::greater(
                    num.difference(Scalar::one(), cube),
                    (Scalar { bits: THIRD_BITS }),
                ),
            ),
            (Scalar { bits: TWO_BITS }),
        )
    } else {
        (num.quotient(lambda, cfg.lambda_down), nu)
    }
}

/// Damping and its multiplier after a step that did not lower the cost.
pub open spec fn raised<A: Numeric>(
    num: A,
    cfg: LmConfig,
    lambda: Scalar,
    nu: Scalar,
) -> (Scalar, Scalar) {
    match cfg.damping {
        LmDamping::GainRatio => (
            num.product(lambda, nu),
            num.product(nu, (Scalar { bits: TWO_BITS })),
        ),
        LmDamping::Fixed => (num.product(lambda, cfg.lambda_up), nu),
    }
}

/// The damping left the range in which steps are tried.
pub open spec fn too_damped(lambda: Scalar) -> bool {
    scalar::less((Scalar { bits: LAMBDA_CEILING_BITS }), lambda)
}

/// An accepted step and what it does to the damping.
pub struct Accepted {
    pub x: Vec<Scalar>,
    pub r: Vec<Scalar>,
    pub cost: Scalar,
    pub lambda: Scalar,
    pub nu: Scalar,
    pub gain: Scalar,
    /// Both relative reductions were below the cost tolerance.
    pub flat: bool,
    pub evals: usize,
}

/// How a ladder ends.
pub enum LadderEnd {
    /// No step lowered the cost.
    Stuck { evals: usize },
    /// A step that would be accepted has another number of residuals.
    Changed { fault: LmFault },
    Taken { step: Accepted },
}

/// The point that a ladder starts from.
pub struct Footing {
    pub x: Seq<Scalar>,
    pub r: Seq<Scalar>,
    pub cost: Scalar,
    pub jac: Seq<Seq<Scalar>>,
    pub lo: Seq<Scalar>,
    pub hi: Seq<Scalar>,
}

/// `step` is the acceptance of `trial`, whose residuals are `r`.
pub open spec fn accepts<A: Numeric>(
    num: A,
    cfg: LmConfig,
    at: Footing,
    lambda: Scalar,
    nu: Scalar,
    evals: int,
    trial: Seq<Scalar>,
    r: Vec<Scalar>,
    step: Accepted,
) -> bool {
    let cost = numeric::dot_of(num, r@, r@);
    let actual = num.difference(at.cost, cost);
    let predicted = model::promised(
        num,
        at.jac,
        model::gradient(num, at.jac, at.r, at.x.len() as int),
        gap(num, trial, at.x),
    );
    let denom = scalar::greater(
        scalar::absolute(at.cost),
        (Scalar { bits: COST_FLOOR_BITS }),
    );
    &&& step.x@ == trial
    &&& step.r == r
    &&& step.cost == cost
    &&& (step.lambda, step.nu) == lowered(num, cfg, lambda, nu, actual, predicted)
    &&& step.gain == gain_of(num, actual, predicted)
    &&& step.flat == model::ftol_met(
        num.quotient(actual, denom),
        num.quotient(predicted, denom),
        cfg.ftol,
    )
    &&& step.evals == evals
}

/// `end` is a possible end of a ladder with `tries` steps left. Each step
/// solves for the damping at hand. A failed solve, a step that moves nothing
/// and a failed evaluation raise the damping; a step that lowers the cost is
/// taken; any other raises the damping by the rule of the settings.
pub open spec fn climbs<A: Numeric, F: Fn(&Vec<Scalar>) -> Result<Vec<Scalar>, String>>(
    num: A,
    f: F,
    cfg: LmConfig,
    at: Footing,
    tries: int,
    lambda: Scalar,
    nu: Scalar,
    evals: int,
    end: LadderEnd,
) -> bool
    decreases tries,
{
    let stuck = LadderEnd::Stuck { evals: evals as usize };
    let up = num.product(lambda, cfg.lambda_up);
    if tries <= 0 || evals >= cfg.max_evals {
        end == stuck
    } else {
        match model::lm_step(num, at.jac, at.r, at.x.len() as int, lambda) {
            None => if too_damped(up) {
                end == stuck
            } else {
                climbs(num, f, cfg, at, tries - 1, up, nu, evals, end)
            },
            Some(d) => {
                let trial = trial_point(num, at.x, at.lo, at.hi, d);
                if motionless(gap(num, trial, at.x)) {
                    if too_damped(lambda) {
                        end == stuck
                    } else {
                        climbs(num, f, cfg, at, tries - 1, up, nu, evals, end)
                    }
                } else {
                    exists|v: Result<Vec<Scalar>, String>|
                        {
                            &&& #[trigger] thick_opt::evaluated(f, trial, v)
                            &&& match v {
                                Err(_) => climbs(
                                    num,
                                    f,
                                    cfg,
                                    at,
                                    tries - 1,
                                    up,
                                    nu,
                                    evals + 1,
                                    end,
                                ),
                                Ok(r) => if scalar::less(
                                    numeric::dot_of(num, r@, r@),
                                    at.cost,
                                ) {
                                    if r@.len() != at.r.len() {
                                        end == (LadderEnd::Changed {
                                            fault: LmFault::ResidualLength {
                                                expected: at.r.len() as usize,
                                                found: r@.len() as usize,
                                            },
                                        })
                                    } else {
                                        end matches LadderEnd::Taken { step } && accepts(
                                            num,
                                            cfg,
                                            at,
                                            lambda,
                                            nu,
                                            evals + 1,
                                            trial,
                                            r,
                                            step,
                                        )
                                    }
                                } else {
                                    let next = raised(num, cfg, lambda, nu);
                                    if too_damped(next.0) {
                                        end == (LadderEnd::Stuck {
                                            evals: (evals + 1) as usize,
                                        })
                                    } else {
                                        climbs(
                                            num,
                                            f,
                                            cfg,
                                            at,
                                            tries - 1,
                                            next.0,
                                            next.1,
                                            evals + 1,
                                            end,
                                        )
                                    }
                                },
                            }
                        }
                }
            },
        }
    }
}

/// The evaluations that a ladder's end reports.
pub open spec fn spent(end: LadderEnd) -> int {
    match end {
        LadderEnd::Stuck { evals } => evals as int,
        LadderEnd::Changed { .. } => 0,
        LadderEnd::Taken { step } => step.evals as int,
    }
}

fn lower<A: Numeric>(
    num: &A,
    cfg: &LmConfig,
    lambda: Scalar,
    nu: Scalar,
    actual: Scalar,
    predicted: Scalar,
) -> (r: (Scalar, Scalar))
    requires
        num.sound(),
    ensures
        r == lowered(*num, *cfg, lambda, nu, actual, predicted),
{
    let by_gain: bool = match cfg.damping {
        LmDamping::GainRatio => true,
        LmDamping::Fixed => false,
    };
    if by_gain && predicted.gt(Scalar::zero()) {
        let two: Scalar = Scalar::from_bits(TWO_BITS);
        let t: Scalar = num.minus(
            num.times(two, num.over(actual, predicted)),
            Scalar::one(),
        );
        let cube: Scalar = num.times(num.times(t, t), t);
        (
            num.times(
                lambda,
                num.minus(Scalar::one(), cube).max(Scalar::from_bits(THIRD_BITS)),
            ),
            two,
        )
    } else {
        (num.over(lambda, cfg.lambda_down), nu)
    }
}

/// Climbs the ladder from `lambda`.
pub(crate) fn climb<A: Numeric, F: Fn(&Vec<Scalar>) -> Result<Vec<Scalar>, String>>(
    num: &A,
    f: &F,
    cfg: &LmConfig,
    m: &LinearModel,
    x: &Vec<Scalar>,
    r: &Vec<Scalar>,
    cost: Scalar,
    lo: &Vec<Scalar>,
    hi: &Vec<Scalar>,
    tries: usize,
    lambda: Scalar,
    nu: Scalar,
    evals: usize,
) -> (end: LadderEnd)
    requires
        num.sound(),
        thick_opt::askable(*f),
        m.describes(*num, r@, x@.len() as int),
        boxed(lo@, hi@, x@.len() as int),
    ensures
        climbs(
            *num,
            *f,
            *cfg,
            (Footing {
                x: x@,
                r: r@,
                cost,
                jac: linalg::grid(m.jac@),
                lo: lo@,
                hi: hi@,
            }),
            tries as int,
            lambda,
            nu,
            evals as int,
            end,
        ),
        spent(end) <= evals || spent(end) <= cfg.max_evals,
        end matches LadderEnd::Taken { step } ==> step.x@.len() == x@.len() && step.r@.len()
            == r@.len(),
    decreases tries,
{
    let ghost at = Footing {
        x: x@,
        r: r@,
        cost,
        jac: linalg::grid(m.jac@),
        lo: lo@,
        hi: hi@,
    };
    if tries == 0 || evals >= cfg.max_evals {
        return LadderEnd::Stuck { evals };
    }
    let d: Vec<Scalar> = match damped_lm_step(num, m, lambda, x.len(), Ghost(r@)) {
        None => {
            let up: Scalar = num.times(lambda, cfg.lambda_up);
            if up.gt(Scalar::from_bits(LAMBDA_CEILING_BITS)) {
                return LadderEnd::Stuck { evals };
            }
            return climb(num, f, cfg, m, x, r, cost, lo, hi, tries - 1, up, nu, evals);
        },
        Some(d) => d,
    };
    let trial: Vec<Scalar> = step_into(num, x, lo, hi, &d);
    let applied: Vec<Scalar> = subtract(num, &trial, x);
    if is_motionless(&applied) {
        if lambda.gt(Scalar::from_bits(LAMBDA_CEILING_BITS)) {
            return LadderEnd::Stuck { evals };
        }
        let up: Scalar = num.times(lambda, cfg.lambda_up);
        return climb(num, f, cfg, m, x, r, cost, lo, hi, tries - 1, up, nu, evals);
    }
    let predicted: Scalar = predicted_reduction(num, &m.jac, &m.jtr, &applied);
    let got: Result<Vec<Scalar>, String> = evaluate(f, &trial);
    assert(thick_opt::evaluated(*f, trial@, got));
    let rt: Vec<Scalar> = match got {
        Err(_) => {
            let up: Scalar = num.times(lambda, cfg.lambda_up);
            return climb(num, f, cfg, m, x, r, cost, lo, hi, tries - 1, up, nu, evals + 1);
        },
        Ok(rt) => rt,
    };
    let new_cost: Scalar = numeric::dot(num, &rt, &rt);
    if new_cost.lt(cost) {
        if rt.len() != r.len() {
            return LadderEnd::Changed {
                fault: LmFault::ResidualLength { expected: r.len(), found: rt.len() },
            };
        }
        let actual: Scalar = num.minus(cost, new_cost);
        let denom: Scalar = cost.abs().max(Scalar::from_bits(COST_FLOOR_BITS));
        let gain: Scalar = if predicted.gt(Scalar::zero()) {
            num.over(actual, predicted)
        } else {
            Scalar::from_bits(NAN_BITS)
        };
        let (lambda2, nu2): (Scalar, Scalar) = lower(num, cfg, lambda, nu, actual, predicted);
        let flat: bool = ftol_converged(
            num.over(actual, denom),
            num.over(predicted, denom),
            cfg.ftol,
        );
        let step: Accepted = Accepted {
            x: trial,
            r: rt,
            cost: new_cost,
            lambda: lambda2,
            nu: nu2,
            gain,
            flat,
            evals: evals + 1,
        };
        assert(accepts(*num, *cfg, at, lambda, nu, evals + 1, trial@, rt, step));
        return LadderEnd::Taken { step };
    }
    let (lambda2, nu2): (Scalar, Scalar) = match cfg.damping {
        LmDamping::GainRatio => (
            num.times(lambda, nu),
            num.times(nu, Scalar::from_bits(TWO_BITS)),
        ),
        LmDamping::Fixed => (num.times(lambda, cfg.lambda_up), nu),
    };
    if lambda2.gt(Scalar::from_bits(LAMBDA_CEILING_BITS)) {
        return LadderEnd::Stuck { evals: evals + 1 };
    }
    climb(num, f, cfg, m, x, r, cost, lo, hi, tries - 1, lambda2, nu2, evals + 1)
}

} // verus!
