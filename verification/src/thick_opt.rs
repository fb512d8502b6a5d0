//! Bounded Levenberg-Marquardt for film thicknesses: settings, results and
//! the residual system that it is handed.
use crate::optimizer::OptimizerBackend;
use crate::scalar::Scalar;
use vstd::prelude::*;

pub mod difference;
pub mod driver;
pub mod fault;
pub mod ladder;
pub mod laws;
pub mod meaning;
pub mod model;
pub mod steady;

verus! {

/// Default cost and step tolerance: 1e-12.
pub const DEFAULT_TOL_BITS: u64 = 0x3d71_9799_812d_ea11;

/// Default gradient tolerance: 1e-10.
pub const DEFAULT_GTOL_BITS: u64 = 0x3ddb_7cdf_d9d7_bdbb;

/// Default initial damping: 1e-3.
pub const DEFAULT_LAMBDA_BITS: u64 = 0x3f50_624d_d2f1_a9fc;

/// Default damping multiplier: 5.
pub const DEFAULT_UP_BITS: u64 = 0x4014_0000_0000_0000;

/// Default damping divisor: 3.
pub const DEFAULT_DOWN_BITS: u64 = 0x4008_0000_0000_0000;

/// Which Jacobian the thickness optimizer should use.
#[derive(Clone, Copy, Debug, PartialEq, Eq, Structural)]
pub enum JacobianMode {
    /// The analytic one where the problem is covered by it.
    Analytic,
    /// Central differences throughout.
    Fd,
}

/// How the damping moves between trial steps.
#[derive(Clone, Copy, Debug, PartialEq, Eq, Structural)]
pub enum LmDamping {
    /// By the ratio of the reduction obtained to the reduction predicted.
    GainRatio,
    /// By fixed factors.
    Fixed,
}

/// Settings of the optimizers.
#[derive(Clone, Copy, Debug)]
pub struct LmConfig {
    /// Cap on accepted iterations.
    pub max_iterations: usize,
    /// Hard cap on residual evaluations, those of a differenced Jacobian
    /// included. Only trust-region steps may pass it, by the differences of
    /// one Jacobian.
    pub max_evals: usize,
    pub ftol: Scalar,
    pub xtol: Scalar,
    pub gtol: Scalar,
    pub lambda_init: Scalar,
    pub lambda_up: Scalar,
    pub lambda_down: Scalar,
    pub damping: LmDamping,
    /// Also test the angle between the residual and the Jacobian's columns.
    pub gtol_scale_invariant: bool,
    pub jacobian: JacobianMode,
    pub backend: OptimizerBackend,
}

impl Default for JacobianMode {
    fn default() -> (r: Self)
        ensures
            r == JacobianMode::Analytic,
    {
        JacobianMode::Analytic
    }
}

impl Default for LmDamping {
    fn default() -> (r: Self)
        ensures
            r == LmDamping::GainRatio,
    {
        LmDamping::GainRatio
    }
}

/// The standard settings.
pub open spec fn default_config() -> LmConfig {
    LmConfig {
        max_iterations: 200,
        max_evals: 100_000,
        ftol: Scalar { bits: DEFAULT_TOL_BITS },
        xtol: Scalar { bits: DEFAULT_TOL_BITS },
        gtol: Scalar { bits: DEFAULT_GTOL_BITS },
        lambda_init: Scalar { bits: DEFAULT_LAMBDA_BITS },
        lambda_up: Scalar { bits: DEFAULT_UP_BITS },
        lambda_down: Scalar { bits: DEFAULT_DOWN_BITS },
        damping: LmDamping::GainRatio,
        gtol_scale_invariant: true,
        jacobian: JacobianMode::Analytic,
        backend: OptimizerBackend::BuiltinLm,
    }
}

impl Default for LmConfig {
    fn default() -> (r: Self)
        ensures
            r == default_config(),
    {
        LmConfig {
            max_iterations: 200,
            max_evals: 100_000,
            ftol: Scalar::from_bits(DEFAULT_TOL_BITS),
            xtol: Scalar::from_bits(DEFAULT_TOL_BITS),
            gtol: Scalar::from_bits(DEFAULT_GTOL_BITS),
            lambda_init: Scalar::from_bits(DEFAULT_LAMBDA_BITS),
            lambda_up: Scalar::from_bits(DEFAULT_UP_BITS),
            lambda_down: Scalar::from_bits(DEFAULT_DOWN_BITS),
            damping: LmDamping::GainRatio,
            gtol_scale_invariant: true,
            jacobian: JacobianMode::Analytic,
            backend: OptimizerBackend::BuiltinLm,
        }
    }
}

/// Why a run ended.
#[derive(Clone, Copy, Debug, PartialEq, Eq, Structural)]
pub enum LmTermination {
    /// The point is stationary.
    Gradient,
    /// The step was below the step tolerance.
    Step,
    /// The cost was below the cost tolerance.
    Cost,
    /// A cap was reached.
    MaxIterations,
    /// No acceptable step was found.
    Stalled,
}

/// What a run found.
#[derive(Debug)]
pub struct LmResult {
    pub x: Vec<Scalar>,
    pub cost: Scalar,
    pub iterations: usize,
    pub evals: usize,
    pub termination: LmTermination,
    /// Obtained over predicted reduction of the last accepted step; NaN if
    /// there was none.
    pub gain_ratio: Scalar,
    /// How many Jacobians the analytic source supplied.
    pub analytic_jacobians: usize,
}

/// Why a run was refused or given up.
#[derive(Debug)]
pub enum LmFault {
    NoParameters,
    BoundLength,
    /// The starting point leaves its interval.
    StartOutside { index: usize, x: Scalar, lo: Scalar, hi: Scalar },
    BoundsCrossed { index: usize },
    BoundNotFinite { index: usize, lo: Scalar, hi: Scalar },
    NoResiduals,
    /// The probes of a differenced Jacobian differ in length.
    Inconsistent,
    /// The residual vector changed its length.
    ResidualLength { expected: usize, found: usize },
    /// The analytic Jacobian does not have one row per residual.
    JacobianShape { rows: usize, entries: usize, residuals: usize },
    /// The residuals or the Jacobian source failed, in their own words.
    Failed { reason: String },
}

/// An analytic Jacobian that a run can ask for in place of differences.
pub trait JacobianSource {
    /// The number of rows and the entries, row by row, at `x`; `None` if this
    /// source has nothing for `x`.
    fn fill(&self, x: &Vec<Scalar>) -> (r: Result<Option<(usize, Vec<Scalar>)>, String>);
}

/// A source with nothing to offer.
pub struct NoJacobian;

impl JacobianSource for NoJacobian {
    fn fill(&self, x: &Vec<Scalar>) -> (r: Result<Option<(usize, Vec<Scalar>)>, String>)
        ensures
            r == Ok::<Option<(usize, Vec<Scalar>)>, String>(None),
    {
        Ok(None)
    }
}

/// `r` is an answer of the source at the point with these entries.
pub open spec fn filled<J: JacobianSource>(
    src: J,
    x: Seq<Scalar>,
    r: Result<Option<(usize, Vec<Scalar>)>, String>,
) -> bool {
    exists|xv: Vec<Scalar>| xv@ == x && #[trigger] call_ensures(J::fill, (&src, &xv), r)
}

/// `r` is an answer of the residuals at the point with these entries.
pub open spec fn evaluated<F: Fn(&Vec<Scalar>) -> Result<Vec<Scalar>, String>>(
    f: F,
    x: Seq<Scalar>,
    r: Result<Vec<Scalar>, String>,
) -> bool {
    exists|xv: Vec<Scalar>| xv@ == x && #[trigger] call_ensures(f, (&xv,), r)
}

/// The residuals can be asked anywhere.
pub open spec fn askable<F: Fn(&Vec<Scalar>) -> Result<Vec<Scalar>, String>>(f: F) -> bool {
    forall|x: &Vec<Scalar>| #[trigger] call_requires(f, (x,))
}

/// Asks the residuals.
pub fn evaluate<F: Fn(&Vec<Scalar>) -> Result<Vec<Scalar>, String>>(
    f: &F,
    x: &Vec<Scalar>,
) -> (r: Result<Vec<Scalar>, String>)
    requires
        askable(*f),
    ensures
        evaluated(*f, x@, r),
{
    let r: Result<Vec<Scalar>, String> = f(x);
    assert(call_ensures(*f, (x,), r));
    r
}

/// Asks a source.
pub fn ask<J: JacobianSource>(src: &J, x: &Vec<Scalar>) -> (r: Result<
    Option<(usize, Vec<Scalar>)>,
    String,
>)
    ensures
        filled(*src, x@, r),
{
    let r: Result<Option<(usize, Vec<Scalar>)>, String> = src.fill(x);
    assert(call_ensures(J::fill, (src, x), r));
    r
}

} // verus!
