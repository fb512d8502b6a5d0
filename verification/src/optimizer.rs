//! Which least-squares solver runs, and on what problem.
use crate::numeric::Numeric;
use crate::scalar::Scalar;
use crate::text;
use crate::text::{debug_text, same_text};
use crate::thick_opt;
use crate::thick_opt::driver;
use crate::thick_opt::driver::levenberg_marquardt_with;
use crate::thick_opt::{JacobianSource, LmConfig, LmFault, LmResult, LmTermination};
use crate::trf;
use crate::trf::driver::trust_region_reflective;
use vstd::prelude::*;
use vstd::string::*;

pub mod coordinates;
pub mod interval;

verus! {

/// Which least-squares solver runs. A backend exists whether or not this
/// build can run it.
#[derive(Clone, Copy, Debug, PartialEq, Eq, Structural)]
pub enum OptimizerBackend {
    /// The bounded Levenberg-Marquardt of this crate.
    BuiltinLm,
    /// The reference Levenberg-Marquardt, which knows no bounds.
    MinpackLm,
    /// Trust-region reflective.
    Trf,
}

impl Default for OptimizerBackend {
    fn default() -> (r: Self)
        ensures
            r == OptimizerBackend::BuiltinLm,
    {
        OptimizerBackend::BuiltinLm
    }
}

impl OptimizerBackend {
    /// The name this backend answers to.
    pub open spec fn name(self) -> Seq<char> {
        match self {
            OptimizerBackend::BuiltinLm => "builtin"@,
            OptimizerBackend::MinpackLm => "minpack_lm"@,
            OptimizerBackend::Trf => "trf"@,
        }
    }

    /// The name this backend answers to.
    pub fn as_str(self) -> (r: &'static str)
        ensures
            r@ == self.name(),
    {
        match self {
            OptimizerBackend::BuiltinLm => "builtin",
            OptimizerBackend::MinpackLm => "minpack_lm",
            OptimizerBackend::Trf => "trf",
        }
    }

    /// The backend of a name, or a message that lists the names.
    pub fn parse(s: &str) -> (r: Result<Self, String>)
        ensures
            forall|b: OptimizerBackend|
                r == Ok::<OptimizerBackend, String>(b) <==> s@ == #[trigger] b.name(),
            r matches Err(e) ==> e@ == unknown_text(s@),
    {
        proof {
            names_differ(OptimizerBackend::BuiltinLm, OptimizerBackend::MinpackLm);
            names_differ(OptimizerBackend::BuiltinLm, OptimizerBackend::Trf);
            names_differ(OptimizerBackend::MinpackLm, OptimizerBackend::Trf);
        }
        if same_text(s, "builtin") {
            Ok(OptimizerBackend::BuiltinLm)
        } else if same_text(s, "minpack_lm") {
            Ok(OptimizerBackend::MinpackLm)
        } else if same_text(s, "trf") {
            Ok(OptimizerBackend::Trf)
        } else {
            Err(
                String::from_str("unknown optimizer backend ").concat(
                    debug_text(s).as_str(),
                ).concat(" (expected one of: builtin, minpack_lm, trf)"),
            )
        }
    }

    /// This build can run the backend.
    pub open spec fn available(self) -> bool {
        self != OptimizerBackend::MinpackLm
    }

    /// Whether this build can run it.
    pub fn is_available(self) -> (r: bool)
        ensures
            r == self.available(),
    {
        match self {
            OptimizerBackend::BuiltinLm => true,
            OptimizerBackend::MinpackLm => false,
            OptimizerBackend::Trf => true,
        }
    }

    /// Whether the backend honours bounds by itself; the others run on an
    /// interior map and end strictly inside the box.
    pub fn bounds_are_native(self) -> (r: bool)
        ensures
            r == (self == OptimizerBackend::BuiltinLm || self == OptimizerBackend::Trf),
    {
        match self {
            OptimizerBackend::BuiltinLm => true,
            OptimizerBackend::MinpackLm => false,
            OptimizerBackend::Trf => true,
        }
    }

    /// The name of the feature that supplies the backend.
    pub open spec fn feature_name(self) -> Option<Seq<char>> {
        match self {
            OptimizerBackend::BuiltinLm => None,
            OptimizerBackend::MinpackLm => Some("opt-minpack-lm"@),
            OptimizerBackend::Trf => None,
        }
    }

    /// The feature that supplies this backend, if it takes one.
    pub fn feature(self) -> (r: Option<&'static str>)
        ensures
            match r {
                Some(f) => self.feature_name() == Some(f@),
                None => self.feature_name() is None,
            },
    {
        match self {
            OptimizerBackend::BuiltinLm => None,
            OptimizerBackend::MinpackLm => Some("opt-minpack-lm"),
            OptimizerBackend::Trf => None,
        }
    }

    /// What to tell a caller who selected a backend that is not there.
    pub fn unavailable(self) -> (r: String)
        ensures
            r@ == unavailable_text(self),
    {
        let head: String = String::from_str("optimizer backend ").concat(
            debug_text(self.as_str()).as_str(),
        );
        match self.feature() {
            Some(f) => head.concat(" is not compiled in — rebuild with `--features ").concat(
                f,
            ).concat("` (maturin: `maturin develop --release --features ").concat(f).concat(
                "`)",
            ),
            None => head.concat(" is unavailable"),
        }
    }
}

/// The message for an unknown name.
pub open spec fn unknown_text(s: Seq<char>) -> Seq<char> {
    "unknown optimizer backend "@ + text::quoted(s)
        + " (expected one of: builtin, minpack_lm, trf)"@
}

/// The message for a backend that is not there: how to get it, if there is a
/// way.
pub open spec fn unavailable_text(b: OptimizerBackend) -> Seq<char> {
    let head = "optimizer backend "@ + text::quoted(b.name());
    match b.feature_name() {
        Some(f) => head + " is not compiled in — rebuild with `--features "@ + f
            + "` (maturin: `maturin develop --release --features "@ + f + "`)"@,
        None => head + " is unavailable"@,
    }
}

/// No two backends share a name, so every name leads back to its backend.
pub proof fn names_differ(a: OptimizerBackend, b: OptimizerBackend)
    ensures
        a.name() == b.name() ==> a == b,
{
    reveal_strlit("builtin");
    reveal_strlit("minpack_lm");
    reveal_strlit("trf");
    assert("builtin"@.len() == 7);
    assert("minpack_lm"@.len() == 10);
    assert("trf"@.len() == 3);
}

/// Every backend, in the order of declaration.
pub fn all_backends() -> (r: Vec<OptimizerBackend>)
    ensures
        r@ == seq![
            OptimizerBackend::BuiltinLm,
            OptimizerBackend::MinpackLm,
            OptimizerBackend::Trf,
        ],
{
    let mut out: Vec<OptimizerBackend> = Vec::new();
    out.push(OptimizerBackend::BuiltinLm);
    out.push(OptimizerBackend::MinpackLm);
    out.push(OptimizerBackend::Trf);
    out
}

/// The names among the first `k` backends that this build can run.
pub open spec fn available_names(bs: Seq<OptimizerBackend>, k: int) -> Seq<Seq<char>>
    decreases k,
{
    if k <= 0 {
        seq![]
    } else if bs[k - 1].available() {
        available_names(bs, k - 1).push(bs[k - 1].name())
    } else {
        available_names(bs, k - 1)
    }
}

/// The texts themselves.
pub open spec fn texts(xs: Seq<&'static str>) -> Seq<Seq<char>> {
    xs.map_values(|x: &'static str| x@)
}

/// The names that this build can run.
pub fn available_backends() -> (r: Vec<&'static str>)
    ensures
        texts(r@) == available_names(
            seq![
                OptimizerBackend::BuiltinLm,
                OptimizerBackend::MinpackLm,
                OptimizerBackend::Trf,
            ],
            3,
        ),
{
    let all: Vec<OptimizerBackend> = all_backends();
    let mut out: Vec<&'static str> = Vec::new();
    assert(texts(out@) =~= available_names(all@, 0));
    let mut i: usize = 0;
    while i < all.len()
        invariant
            i <= all.len(),
            texts(out@) == available_names(all@, i as int),
        decreases all.len() - i,
    {
        if all[i].is_available() {
            let ghost before = texts(out@);
            let name: &'static str = all[i].as_str();
            out.push(name);
            assert(texts(out@) =~= before.push(name@));
        }
        i += 1;
    }
    out
}

/// What every backend returns.
#[derive(Debug)]
pub struct OptimizerResult {
    pub x: Vec<Scalar>,
    pub cost: Scalar,
    pub iterations: usize,
    pub evals: usize,
    pub termination: LmTermination,
    pub gain_ratio: Scalar,
    pub analytic_jacobians: usize,
    /// Which backend produced this.
    pub backend: OptimizerBackend,
}

impl OptimizerResult {
    /// This is `r` as the backend's answer.
    pub open spec fn carries(&self, r: LmResult, backend: OptimizerBackend) -> bool {
        &&& self.x == r.x
        &&& self.cost == r.cost
        &&& self.iterations == r.iterations
        &&& self.evals == r.evals
        &&& self.termination == r.termination
        &&& self.gain_ratio == r.gain_ratio
        &&& self.analytic_jacobians == r.analytic_jacobians
        &&& self.backend == backend
    }

    /// Labels a solver's result with its backend.
    pub fn from_lm(r: LmResult, backend: OptimizerBackend) -> (o: Self)
        ensures
            o.carries(r, backend),
    {
        OptimizerResult {
            x: r.x,
            cost: r.cost,
            iterations: r.iterations,
            evals: r.evals,
            termination: r.termination,
            gain_ratio: r.gain_ratio,
            analytic_jacobians: r.analytic_jacobians,
            backend,
        }
    }
}

/// Why no backend answered.
#[derive(Debug)]
pub enum OptimizerFault {
    /// The backend is not there.
    Unavailable { message: String },
    /// The solver refused or gave up.
    Solver { fault: LmFault },
}

/// `out` is the backend's answer to a solver's result.
pub open spec fn labelled(
    got: Result<LmResult, LmFault>,
    backend: OptimizerBackend,
    out: Result<OptimizerResult, OptimizerFault>,
) -> bool {
    match got {
        Ok(r) => out matches Ok(o) && o.carries(r, backend),
        Err(fault) => out == Err::<OptimizerResult, OptimizerFault>(
            OptimizerFault::Solver { fault },
        ),
    }
}

fn label(got: Result<LmResult, LmFault>, backend: OptimizerBackend) -> (out: Result<
    OptimizerResult,
    OptimizerFault,
>)
    ensures
        labelled(got, backend, out),
{
    match got {
        Ok(r) => Ok(OptimizerResult::from_lm(r, backend)),
        Err(fault) => Err(OptimizerFault::Solver { fault }),
    }
}

/// `out` is a possible answer of the configured backend: that of its solver,
/// and never that of another.
pub open spec fn answers<
    A: Numeric,
    F: Fn(&Vec<Scalar>) -> Result<Vec<Scalar>, String>,
    J: JacobianSource,
>(
    num: A,
    f: F,
    src: Option<&J>,
    cfg: LmConfig,
    x0: Seq<Scalar>,
    lo: Seq<Scalar>,
    hi: Seq<Scalar>,
    out: Result<OptimizerResult, OptimizerFault>,
) -> bool {
    match cfg.backend {
        OptimizerBackend::BuiltinLm => exists|got: Result<LmResult, LmFault>|
            {
                &&& #[trigger] driver::minimizes(num, f, src, cfg, x0, lo, hi, got)
                &&& labelled(got, cfg.backend, out)
            },
        OptimizerBackend::Trf => exists|got: Result<LmResult, LmFault>|
            {
                &&& #[trigger] trf::driver::settles(num, f, src, cfg, x0, lo, hi, got)
                &&& labelled(got, cfg.backend, out)
            },
        OptimizerBackend::MinpackLm => out matches Err(OptimizerFault::Unavailable { message })
            && message@ == unavailable_text(cfg.backend),
    }
}

/// Minimizes the sum of the squared residuals over the box on the configured
/// backend; one that this build lacks is refused with a hint.
pub fn run_optimizer<
    A: Numeric,
    F: Fn(&Vec<Scalar>) -> Result<Vec<Scalar>, String>,
    J: JacobianSource,
>(
    num: &A,
    residuals: &F,
    jacobian: Option<&J>,
    x0: &Vec<Scalar>,
    lb: &Vec<Scalar>,
    ub: &Vec<Scalar>,
    cfg: &LmConfig,
) -> (out: Result<OptimizerResult, OptimizerFault>)
    requires
        num.sound(),
        thick_opt::askable(*residuals),
        x0@.len() < usize::MAX,
        cfg.backend is Trf ==> driver::roomy(*cfg, x0@.len() as int) && cfg.max_iterations + 2
            <= usize::MAX,
    ensures
        answers(*num, *residuals, jacobian, *cfg, x0@, lb@, ub@, out),
{
    let backend: OptimizerBackend = cfg.backend;
    if !backend.is_available() {
        return Err(OptimizerFault::Unavailable { message: backend.unavailable() });
    }
    match backend {
        OptimizerBackend::BuiltinLm => {
            let got: Result<LmResult, LmFault> = levenberg_marquardt_with(
                num,
                residuals,
                jacobian,
                x0,
                lb,
                ub,
                cfg,
            );
            assert(driver::minimizes(*num, *residuals, jacobian, *cfg, x0@, lb@, ub@, got));
            label(got, backend)
        },
        OptimizerBackend::Trf => {
            let got: Result<LmResult, LmFault> = trust_region_reflective(
                num,
                residuals,
                jacobian,
                x0,
                lb,
                ub,
                cfg,
            );
            assert(trf::driver::settles(*num, *residuals, jacobian, *cfg, x0@, lb@, ub@, got));
            label(got, backend)
        },
        OptimizerBackend::MinpackLm => Err(
            OptimizerFault::Unavailable { message: backend.unavailable() },
        ),
    }
}

/// How the reference solver says it ended.
#[derive(Debug)]
pub enum ReferenceEnd {
    User { what: String },
    Numerical { what: String },
    ResidualsZero,
    Orthogonal,
    Converged { ftol: bool, xtol: bool },
    NoImprovementPossible,
    LostPatience,
    NoParameters,
    NoResiduals,
    WrongDimensions { what: String },
}

/// What an end of the reference solver means here.
pub open spec fn meaning(end: ReferenceEnd) -> Result<LmTermination, Seq<char>> {
    match end {
        ReferenceEnd::Orthogonal => Ok(LmTermination::Gradient),
        ReferenceEnd::ResidualsZero => Ok(LmTermination::Cost),
        ReferenceEnd::Converged { ftol, xtol } => if xtol && !ftol {
            Ok(LmTermination::Step)
        } else {
            Ok(LmTermination::Cost)
        },
        ReferenceEnd::LostPatience => Ok(LmTermination::MaxIterations),
        ReferenceEnd::NoImprovementPossible => Ok(LmTermination::Stalled),
        ReferenceEnd::User { what } => Err(
            "minpack_lm: problem reported failure ("@ + what@ + ")"@,
        ),
        ReferenceEnd::Numerical { what } => Err("minpack_lm: non-finite value in "@ + what@),
        ReferenceEnd::WrongDimensions { what } => Err(
            "minpack_lm: inconsistent problem shape ("@ + what@ + ")"@,
        ),
        ReferenceEnd::NoParameters => Err("minpack_lm: empty parameter vector"@),
        ReferenceEnd::NoResiduals => Err("minpack_lm: empty residual vector"@),
    }
}

/// Maps an end of the reference solver; where it reports both tolerances the
/// cost test wins.
pub fn map_termination(end: ReferenceEnd) -> (r: Result<LmTermination, String>)
    ensures
        match r {
            Ok(t) => meaning(end) == Ok::<LmTermination, Seq<char>>(t),
            Err(e) => meaning(end) == Err::<LmTermination, Seq<char>>(e@),
        },
{
    match end {
        ReferenceEnd::Orthogonal => Ok(LmTermination::Gradient),
        ReferenceEnd::ResidualsZero => Ok(LmTermination::Cost),
        ReferenceEnd::Converged { ftol, xtol } => if xtol && !ftol {
            Ok(LmTermination::Step)
        } else {
            Ok(LmTermination::Cost)
        },
        ReferenceEnd::LostPatience => Ok(LmTermination::MaxIterations),
        ReferenceEnd::NoImprovementPossible => Ok(LmTermination::Stalled),
        ReferenceEnd::User { what } => Err(
            String::from_str("minpack_lm: problem reported failure (").concat(
                what.as_str(),
            ).concat(")"),
        ),
        ReferenceEnd::Numerical { what } => Err(
            String::from_str("minpack_lm: non-finite value in ").concat(what.as_str()),
        ),
        ReferenceEnd::WrongDimensions { what } => Err(
            String::from_str("minpack_lm: inconsistent problem shape (").concat(
                what.as_str(),
            ).concat(")"),
        ),
        ReferenceEnd::NoParameters => Err(
            String::from_str("minpack_lm: empty parameter vector"),
        ),
        ReferenceEnd::NoResiduals => Err(String::from_str("minpack_lm: empty residual vector")),
    }
}

} // verus!
