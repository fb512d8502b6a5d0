//! A run of the macro-loop to its end: the machine says what is to be done, and
//! the work that a caller hands in does it.
use crate::arith;
use crate::inflate;
use crate::inflate::{films_readable, inflate_design, InflateFault, InflateResult};
use crate::numeric;
use crate::numeric::Numeric;
use crate::pipeline;
use crate::pipeline::laws;
use crate::pipeline::machine;
use crate::pipeline::machine::{
    Action, Event, NeedlePipeline, PhaseView, PipelinePhaseResult, RunView, Stage,
};
use crate::pipeline::sweep;
use crate::pipeline::{PipelineConfig, PipelineFault};
use crate::scalar;
use crate::scalar::Scalar;
use crate::stagnation;
use crate::stagnation::{StagnationDetector, Watch};
use crate::structure;
use crate::structure::clamp::ClampReport;
use crate::structure::refusal;
use crate::structure::refusal::StackError;
use crate::structure::{DesignStack, LayerView};
use crate::text;
use vstd::prelude::*;
use vstd::string::*;

verus! {

/// The work on a design, and the arithmetic of the clamp passes.
pub struct Work<E, O, R, D, K, G, P, S, F> {
    /// The merit of a stack.
    pub evaluate: E,
    /// Optimizes the thicknesses of a stack and gives its merit.
    pub optimize: O,
    /// Hands over what the optimizer clamped since it was last asked.
    pub report: R,
    /// Runs the needle cycles with so many needles at most.
    pub needle: D,
    /// Runs the cleanup with this floor and so many removals at most; gives the
    /// merit after it and what it did.
    pub clean: K,
    /// Is shown the cycle, its phase and the detector; says whether to go on.
    pub goes_on: G,
    pub plus: P,
    pub scale: S,
    pub one_decimal: F,
}

/// Why a run came to no result.
#[derive(Debug)]
pub enum RunFault {
    /// It was refused before it began.
    Refused { refusal: PipelineFault },
    /// A piece of work failed.
    Work { reason: String },
    /// A clamp pass was refused.
    Clamp { error: StackError },
    /// An inflation failed.
    Inflation { fault: InflateFault },
    /// A film has no index at the reference wavelength of the inflation.
    NoIndex,
    /// The counts of the clamp reports are too large to add.
    Counts,
}

/// The message of a refused clamp pass.
pub open spec fn clamp_text<F: Fn(Scalar) -> String>(error: StackError, one_decimal: F) -> Seq<
    char,
> {
    match error {
        StackError::SpanAboveCeiling { d_nm, max_nm, .. } => refusal::refusal_text(
            error,
            text::shown(one_decimal, d_nm),
            text::shown(one_decimal, max_nm),
        ),
        _ => refusal::refusal_text(error, seq![], seq![]),
    }
}

/// The message of a fault, thicknesses with one decimal.
pub open spec fn run_text<F: Fn(Scalar) -> String, H: Fn(Scalar) -> String>(
    fault: RunFault,
    one_decimal: F,
    show: H,
) -> Seq<char> {
    match fault {
        RunFault::Refused { refusal } => pipeline::pipeline_text(refusal, one_decimal),
        RunFault::Work { reason } => reason@,
        RunFault::Clamp { error } => clamp_text(error, one_decimal),
        RunFault::Inflation { fault } => inflate::inflate_text(fault, show),
        RunFault::NoIndex => "a film has no index at the reference wavelength"@,
        RunFault::Counts => "the clamp reports are too long to add"@,
    }
}

impl RunFault {
    /// The message, thicknesses shown by `one_decimal`, other numbers by `show`.
    pub fn message<F: Fn(Scalar) -> String, H: Fn(Scalar) -> String>(
        &self,
        one_decimal: &F,
        show: &H,
    ) -> (r: String)
        requires
            text::shows(*one_decimal),
            text::shows(*show),
        ensures
            r@ == run_text(*self, *one_decimal, *show),
    {
        match self {
            RunFault::Refused { refusal } => refusal.message(one_decimal),
            RunFault::Work { reason } => reason.clone(),
            RunFault::Clamp { error } => error.message(one_decimal),
            RunFault::Inflation { fault } => fault.message(show),
            RunFault::NoIndex => String::from_str(
                "a film has no index at the reference wavelength",
            ),
            RunFault::Counts => String::from_str("the clamp reports are too long to add"),
        }
    }
}

/// The work takes every valid stack and gives valid stacks back.
pub open spec fn capable<
    N,
    C,
    E: Fn(&DesignStack) -> Result<Scalar, String>,
    O: Fn(DesignStack) -> (DesignStack, Result<Scalar, String>),
    R: Fn() -> Option<ClampReport>,
    D: Fn(DesignStack, usize) -> (DesignStack, Result<Vec<N>, String>),
    K: Fn(DesignStack, Scalar, Option<usize>) -> (DesignStack, Result<(Scalar, C), String>),
    G: Fn(usize, &PipelinePhaseResult<N, C>, &StagnationDetector) -> bool,
    P: Fn(Scalar, Scalar) -> Scalar,
    S: Fn(Scalar, Scalar, Scalar) -> Scalar,
    F: Fn(Scalar) -> String,
>(work: Work<E, O, R, D, K, G, P, S, F>) -> bool {
    &&& inflate::usable(work.evaluate, work.optimize)
    &&& call_requires(work.report, ())
    &&& forall|s: DesignStack, n: usize| s.wf() ==> #[trigger] call_requires(work.needle, (s, n))
    &&& forall|s: DesignStack, n: usize, out: (DesignStack, Result<Vec<N>, String>)|
        s.wf() && #[trigger] call_ensures(work.needle, (s, n), out) ==> out.0.wf()
    &&& forall|s: DesignStack, m: Scalar, n: Option<usize>|
        s.wf() ==> #[trigger] call_requires(work.clean, (s, m, n))
    &&& forall|
        s: DesignStack,
        m: Scalar,
        n: Option<usize>,
        out: (DesignStack, Result<(Scalar, C), String>),
    |
        s.wf() && #[trigger] call_ensures(work.clean, (s, m, n), out) ==> out.0.wf()
    &&& forall|c: usize, p: &PipelinePhaseResult<N, C>, d: &StagnationDetector| #[trigger]
        call_requires(work.goes_on, (c, p, d))
    &&& arith::accepts_pairs(work.plus)
    &&& forall|d: Scalar, b: Scalar, t: Scalar| #[trigger] call_requires(work.scale, (d, b, t))
    &&& forall|x: Scalar| #[trigger] call_requires(work.one_decimal, (x,))
}

/// `total` is the thickness of all rows; negative zero, the empty sum, where
/// there are none.
pub open spec fn measured<P: Fn(Scalar, Scalar) -> Scalar>(
    plus: P,
    rows: Seq<LayerView>,
    total: Scalar,
) -> bool {
    &&& rows.len() == 0 ==> total == (Scalar { bits: numeric::NEG_ZERO_BITS })
    &&& rows.len() > 0 ==> arith::folds(plus, structure::thicknesses(rows), total)
}

/// The needle cycles, run on a stack like `before`, gave this.
pub open spec fn needled<N, D: Fn(DesignStack, usize) -> (DesignStack, Result<Vec<N>, String>)>(
    needle: D,
    before: DesignStack,
    n: usize,
    out: (DesignStack, Result<Vec<N>, String>),
) -> bool {
    exists|s: DesignStack| #[trigger]
        call_ensures(needle, (s, n), out) && s.unchanged(&before)
}

/// The cleanup, run on a stack like `before`, gave this.
pub open spec fn cleaned<
    C,
    K: Fn(DesignStack, Scalar, Option<usize>) -> (DesignStack, Result<(Scalar, C), String>),
>(
    clean: K,
    before: DesignStack,
    min_nm: Scalar,
    most: Option<usize>,
    out: (DesignStack, Result<(Scalar, C), String>),
) -> bool {
    exists|s: DesignStack| #[trigger]
        call_ensures(clean, (s, min_nm, most), out) && s.unchanged(&before)
}

/// The caller was shown this phase with a detector that has seen these merits,
/// and gave this answer.
pub open spec fn shown<
    N,
    C,
    G: Fn(usize, &PipelinePhaseResult<N, C>, &StagnationDetector) -> bool,
>(goes_on: G, phase: PhaseView<N, C>, samples: Seq<Scalar>, w: Watch, go_on: bool) -> bool {
    exists|c: usize, p: PipelinePhaseResult<N, C>, d: StagnationDetector|
        {
            &&& #[trigger] call_ensures(goes_on, (c, &p, &d), go_on)
            &&& c == phase.macro_cycle
            &&& machine::phase_view(p) == phase
            &&& d.samples() == samples
            &&& d.watch() == w
        }
}

/// The action, done on `before`, gave this result and left `after`.
pub open spec fn performed<
    A: Numeric,
    N,
    C,
    E: Fn(&DesignStack) -> Result<Scalar, String>,
    O: Fn(DesignStack) -> (DesignStack, Result<Scalar, String>),
    R: Fn() -> Option<ClampReport>,
    D: Fn(DesignStack, usize) -> (DesignStack, Result<Vec<N>, String>),
    K: Fn(DesignStack, Scalar, Option<usize>) -> (DesignStack, Result<(Scalar, C), String>),
    G: Fn(usize, &PipelinePhaseResult<N, C>, &StagnationDetector) -> bool,
    P: Fn(Scalar, Scalar) -> Scalar,
    S: Fn(Scalar, Scalar, Scalar) -> Scalar,
    F: Fn(Scalar) -> String,
>(
    num: A,
    work: Work<E, O, R, D, K, G, P, S, F>,
    wavls: Seq<Scalar>,
    w: Watch,
    run: RunView<N, C>,
    action: Action,
    before: DesignStack,
    event: Event<N, C>,
    after: DesignStack,
) -> bool {
    match (action, event) {
        (Action::Measure, Event::Measured { layers, total }) => {
            &&& after == before
            &&& layers == before.span_seq().len()
            &&& measured(work.plus, before.rows(), total)
        },
        (Action::Evaluate, Event::Evaluated { mf }) => {
            &&& after == before
            &&& call_ensures(work.evaluate, (&before,), Ok(mf))
        },
        (Action::TakeReport, Event::Report { report }) => {
            &&& after == before
            &&& call_ensures(work.report, (), report)
        },
        (Action::Needle { max_needles }, Event::Needled { results }) => needled(
            work.needle,
            before,
            max_needles,
            (after, Ok(results)),
        ),
        (Action::Clean { min_nm, max_removals }, Event::Cleaned { mf, outcome }) => cleaned(
            work.clean,
            before,
            min_nm,
            max_removals,
            (after, Ok((mf, outcome))),
        ),
        (Action::Inflate { addon_qwot, reference_wl, max_layers }, Event::Inflated { result }) =>
            inflate::inflation_gives(
            num,
            work.evaluate,
            work.optimize,
            before,
            after,
            wavls,
            addon_qwot,
            reference_wl,
            max_layers,
            true,
            Ok(result),
        ),
        (Action::Optimize, Event::Optimized) => exists|mf: Scalar| #[trigger]
            inflate::optimized(work.optimize, before, before.rows(), (after, Ok(mf))),
        (Action::Sweep { min_nm, max_nm, clamp_up }, Event::Swept { clamp }) => sweep::sweep_gives(
            work.plus,
            work.scale,
            work.one_decimal,
            &before,
            &after,
            min_nm,
            max_nm,
            clamp_up,
            Ok(clamp),
        ),
        (Action::Notify, Event::Answered { go_on }) => {
            &&& after == before
            &&& shown(work.goes_on, run.phases.last(), run.samples, w, go_on)
        },
        _ => false,
    }
}

/// The action, done on `before`, failed and left `after`.
pub open spec fn failed<
    A: Numeric,
    N,
    C,
    E: Fn(&DesignStack) -> Result<Scalar, String>,
    O: Fn(DesignStack) -> (DesignStack, Result<Scalar, String>),
    R: Fn() -> Option<ClampReport>,
    D: Fn(DesignStack, usize) -> (DesignStack, Result<Vec<N>, String>),
    K: Fn(DesignStack, Scalar, Option<usize>) -> (DesignStack, Result<(Scalar, C), String>),
    G: Fn(usize, &PipelinePhaseResult<N, C>, &StagnationDetector) -> bool,
    P: Fn(Scalar, Scalar) -> Scalar,
    S: Fn(Scalar, Scalar, Scalar) -> Scalar,
    F: Fn(Scalar) -> String,
>(
    num: A,
    work: Work<E, O, R, D, K, G, P, S, F>,
    wavls: Seq<Scalar>,
    w: Watch,
    run: RunView<N, C>,
    action: Action,
    before: DesignStack,
    fault: RunFault,
    after: DesignStack,
) -> bool {
    match (action, fault) {
        (Action::Evaluate, RunFault::Work { reason }) => {
            &&& after == before
            &&& call_ensures(work.evaluate, (&before,), Err(reason))
        },
        (Action::Needle { max_needles }, RunFault::Work { reason }) => needled(
            work.needle,
            before,
            max_needles,
            (after, Err(reason)),
        ),
        (Action::Clean { min_nm, max_removals }, RunFault::Work { reason }) => cleaned(
            work.clean,
            before,
            min_nm,
            max_removals,
            (after, Err(reason)),
        ),
        (Action::Inflate { reference_wl, .. }, RunFault::NoIndex) => {
            &&& after == before
            &&& !inflate::all_readable(num, before.rows(), wavls, reference_wl)
        },
        (
            Action::Inflate { addon_qwot, reference_wl, max_layers },
            RunFault::Inflation { fault },
        ) => inflate::inflation_gives(
            num,
            work.evaluate,
            work.optimize,
            before,
            after,
            wavls,
            addon_qwot,
            reference_wl,
            max_layers,
            true,
            Err(fault),
        ),
        (Action::Optimize, RunFault::Work { reason }) => inflate::optimized(
            work.optimize,
            before,
            before.rows(),
            (after, Err(reason)),
        ),
        (Action::Sweep { min_nm, max_nm, clamp_up }, RunFault::Clamp { error }) =>
            sweep::sweep_gives(
            work.plus,
            work.scale,
            work.one_decimal,
            &before,
            &after,
            min_nm,
            max_nm,
            clamp_up,
            Err(error),
        ),
        (_, RunFault::Counts) => exists|event: Event<N, C>|
            {
                &&& #[trigger] performed(num, work, wavls, w, run, action, before, event, after)
                &&& !machine::counts_fit(run, event)
            },
        _ => false,
    }
}

/// Where a run stands after the first `n` results.
pub open spec fn run_after<A: Numeric, N, C>(
    num: A,
    cfg: PipelineConfig,
    w: Watch,
    events: Seq<Event<N, C>>,
    n: int,
) -> RunView<N, C>
    decreases n,
{
    if n <= 0 {
        machine::fresh::<N, C>(cfg)
    } else {
        machine::next(num, cfg, w, run_after(num, cfg, w, events, n - 1), events[n - 1])
    }
}

/// One step of a history: the result of the action that was due there.
pub open spec fn stepped<
    A: Numeric,
    N,
    C,
    E: Fn(&DesignStack) -> Result<Scalar, String>,
    O: Fn(DesignStack) -> (DesignStack, Result<Scalar, String>),
    R: Fn() -> Option<ClampReport>,
    D: Fn(DesignStack, usize) -> (DesignStack, Result<Vec<N>, String>),
    K: Fn(DesignStack, Scalar, Option<usize>) -> (DesignStack, Result<(Scalar, C), String>),
    G: Fn(usize, &PipelinePhaseResult<N, C>, &StagnationDetector) -> bool,
    P: Fn(Scalar, Scalar) -> Scalar,
    S: Fn(Scalar, Scalar, Scalar) -> Scalar,
    F: Fn(Scalar) -> String,
>(
    num: A,
    work: Work<E, O, R, D, K, G, P, S, F>,
    wavls: Seq<Scalar>,
    cfg: PipelineConfig,
    w: Watch,
    events: Seq<Event<N, C>>,
    stacks: Seq<DesignStack>,
    i: int,
) -> bool {
    let run = run_after(num, cfg, w, events, i);
    performed(
        num,
        work,
        wavls,
        w,
        run,
        machine::action_of(cfg, run.stage),
        stacks[i],
        events[i],
        stacks[i + 1],
    )
}

/// The history of a run: each action in its turn, done on the stack that the
/// one before left.
pub open spec fn history<
    A: Numeric,
    N,
    C,
    E: Fn(&DesignStack) -> Result<Scalar, String>,
    O: Fn(DesignStack) -> (DesignStack, Result<Scalar, String>),
    R: Fn() -> Option<ClampReport>,
    D: Fn(DesignStack, usize) -> (DesignStack, Result<Vec<N>, String>),
    K: Fn(DesignStack, Scalar, Option<usize>) -> (DesignStack, Result<(Scalar, C), String>),
    G: Fn(usize, &PipelinePhaseResult<N, C>, &StagnationDetector) -> bool,
    P: Fn(Scalar, Scalar) -> Scalar,
    S: Fn(Scalar, Scalar, Scalar) -> Scalar,
    F: Fn(Scalar) -> String,
>(
    num: A,
    work: Work<E, O, R, D, K, G, P, S, F>,
    wavls: Seq<Scalar>,
    cfg: PipelineConfig,
    w: Watch,
    start: DesignStack,
    events: Seq<Event<N, C>>,
    stacks: Seq<DesignStack>,
) -> bool {
    &&& stacks.len() == events.len() + 1
    &&& stacks[0] == start
    &&& forall|i: int|
        0 <= i < events.len() ==> #[trigger] stepped(
            num,
            work,
            wavls,
            cfg,
            w,
            events,
            stacks,
            i,
        )
}

proof fn run_after_same<A: Numeric, N, C>(
    num: A,
    cfg: PipelineConfig,
    w: Watch,
    a: Seq<Event<N, C>>,
    b: Seq<Event<N, C>>,
    n: int,
)
    requires
        n <= a.len(),
        n <= b.len(),
        forall|i: int| 0 <= i < n ==> a[i] == b[i],
    ensures
        run_after(num, cfg, w, a, n) == run_after(num, cfg, w, b, n),
    decreases n,
{
    if n > 0 {
        run_after_same(num, cfg, w, a, b, n - 1);
        assert(a[n - 1] == b[n - 1]);
    }
}

proof fn history_goes_on<
    A: Numeric,
    N,
    C,
    E: Fn(&DesignStack) -> Result<Scalar, String>,
    O: Fn(DesignStack) -> (DesignStack, Result<Scalar, String>),
    R: Fn() -> Option<ClampReport>,
    D: Fn(DesignStack, usize) -> (DesignStack, Result<Vec<N>, String>),
    K: Fn(DesignStack, Scalar, Option<usize>) -> (DesignStack, Result<(Scalar, C), String>),
    G: Fn(usize, &PipelinePhaseResult<N, C>, &StagnationDetector) -> bool,
    P: Fn(Scalar, Scalar) -> Scalar,
    S: Fn(Scalar, Scalar, Scalar) -> Scalar,
    F: Fn(Scalar) -> String,
>(
    num: A,
    work: Work<E, O, R, D, K, G, P, S, F>,
    wavls: Seq<Scalar>,
    cfg: PipelineConfig,
    w: Watch,
    start: DesignStack,
    events: Seq<Event<N, C>>,
    stacks: Seq<DesignStack>,
    event: Event<N, C>,
    after: DesignStack,
)
    requires
        history(num, work, wavls, cfg, w, start, events, stacks),
        ({
            let run = run_after(num, cfg, w, events, events.len() as int);
            performed(
                num,
                work,
                wavls,
                w,
                run,
                machine::action_of(cfg, run.stage),
                stacks.last(),
                event,
                after,
            )
        }),
    ensures
        history(num, work, wavls, cfg, w, start, events.push(event), stacks.push(after)),
        run_after(num, cfg, w, events.push(event), events.len() as int + 1) == machine::next(
            num,
            cfg,
            w,
            run_after(num, cfg, w, events, events.len() as int),
            event,
        ),
{
    let n = events.len() as int;
    let es = events.push(event);
    let ss = stacks.push(after);
    run_after_same(num, cfg, w, events, es, n);
    assert forall|i: int| 0 <= i < es.len() implies #[trigger] stepped(
        num,
        work,
        wavls,
        cfg,
        w,
        es,
        ss,
        i,
    ) by {
        run_after_same(num, cfg, w, events, es, i);
        if i < n {
            assert(stepped(num, work, wavls, cfg, w, events, stacks, i));
        }
    }
}

/// The bounds of the clamp passes are in order.
pub open spec fn bounded(cfg: PipelineConfig) -> bool {
    &&& scalar::at_most(Scalar::zero(), cfg.clamp_min_nm)
    &&& scalar::less(cfg.clamp_min_nm, cfg.clamp_max_nm)
}

/// Does what the machine asks for.
fn perform<
    A: Numeric,
    N,
    C,
    E: Fn(&DesignStack) -> Result<Scalar, String>,
    O: Fn(DesignStack) -> (DesignStack, Result<Scalar, String>),
    R: Fn() -> Option<ClampReport>,
    D: Fn(DesignStack, usize) -> (DesignStack, Result<Vec<N>, String>),
    K: Fn(DesignStack, Scalar, Option<usize>) -> (DesignStack, Result<(Scalar, C), String>),
    G: Fn(usize, &PipelinePhaseResult<N, C>, &StagnationDetector) -> bool,
    P: Fn(Scalar, Scalar) -> Scalar,
    S: Fn(Scalar, Scalar, Scalar) -> Scalar,
    F: Fn(Scalar) -> String,
>(
    num: &A,
    work: &Work<E, O, R, D, K, G, P, S, F>,
    wavls: &Vec<Scalar>,
    p: &NeedlePipeline<N, C>,
    stack: &mut DesignStack,
) -> (r: Result<Event<N, C>, RunFault>)
    requires
        num.sound(),
        capable(*work),
        old(stack).wf(),
        bounded(p.config()),
        !(p.state().stage is Done),
        machine::action_of(p.config(), p.state().stage) is Notify ==> p.state().phases.len() > 0,
    ensures
        final(stack).wf(),
        match r {
            Ok(event) => performed(
                *num,
                *work,
                wavls@,
                p.watch(),
                p.state(),
                machine::action_of(p.config(), p.state().stage),
                *old(stack),
                event,
                *final(stack),
            ),
            Err(fault) => failed(
                *num,
                *work,
                wavls@,
                p.watch(),
                p.state(),
                machine::action_of(p.config(), p.state().stage),
                *old(stack),
                fault,
                *final(stack),
            ),
        },
{
    let ghost before = *stack;
    match p.action() {
        Action::Measure => {
            let layers: usize = stack.spans().len();
            let total: Scalar = stack.total_thickness_nm(&work.plus);
            Ok(Event::Measured { layers, total })
        },
        Action::Evaluate => match (work.evaluate)(stack) {
            Ok(mf) => Ok(Event::Evaluated { mf }),
            Err(reason) => Err(RunFault::Work { reason }),
        },
        Action::TakeReport => {
            let report: Option<ClampReport> = (work.report)();
            Ok(Event::Report { report })
        },
        Action::Needle { max_needles } => {
            let mine: DesignStack = stack.cloned();
            let out: (DesignStack, Result<Vec<N>, String>) = (work.needle)(mine, max_needles);
            assert(needled(work.needle, before, max_needles, out));
            *stack = out.0;
            match out.1 {
                Ok(results) => Ok(Event::Needled { results }),
                Err(reason) => Err(RunFault::Work { reason }),
            }
        },
        Action::Clean { min_nm, max_removals } => {
            let mine: DesignStack = stack.cloned();
            let out: (DesignStack, Result<(Scalar, C), String>) = (work.clean)(
                mine,
                min_nm,
                max_removals,
            );
            assert(cleaned(work.clean, before, min_nm, max_removals, out));
            *stack = out.0;
            match out.1 {
                Ok((mf, outcome)) => Ok(Event::Cleaned { mf, outcome }),
                Err(reason) => Err(RunFault::Work { reason }),
            }
        },
        Action::Inflate { addon_qwot, reference_wl, max_layers } => {
            if !films_readable(num, stack, wavls, reference_wl) {
                return Err(RunFault::NoIndex);
            }
            let got: Result<InflateResult, InflateFault> = inflate_design(
                num,
                stack,
                wavls,
                addon_qwot,
                reference_wl,
                max_layers,
                true,
                &work.evaluate,
                &work.optimize,
            );
            match got {
                Ok(result) => Ok(Event::Inflated { result }),
                Err(fault) => Err(RunFault::Inflation { fault }),
            }
        },
        Action::Optimize => {
            let mine: DesignStack = stack.cloned();
            let out: (DesignStack, Result<Scalar, String>) = (work.optimize)(mine);
            assert(inflate::optimized(work.optimize, before, before.rows(), out));
            *stack = out.0;
            match out.1 {
                Ok(mf) => {
                    assert(inflate::optimized(
                        work.optimize,
                        before,
                        before.rows(),
                        (*stack, Ok(mf)),
                    ));
                    Ok(Event::Optimized)
                },
                Err(reason) => Err(RunFault::Work { reason }),
            }
        },
        Action::Sweep { min_nm, max_nm, clamp_up } => {
            match stack.sweep(
                min_nm,
                max_nm,
                clamp_up,
                &work.plus,
                &work.scale,
                &work.one_decimal,
            ) {
                Ok(clamp) => Ok(Event::Swept { clamp }),
                Err(error) => Err(RunFault::Clamp { error }),
            }
        },
        Action::Notify => {
            let phases: &Vec<PipelinePhaseResult<N, C>> = p.phases();
            let d: &StagnationDetector = p.detector();
            let last: &PipelinePhaseResult<N, C> = &phases[phases.len() - 1];
            let go_on: bool = (work.goes_on)(last.macro_cycle, last, d);
            proof {
                let shows = phases@.map_values(
                    |x: PipelinePhaseResult<N, C>| machine::phase_view(x),
                );
                assert(shows.last() == machine::phase_view(*last));
                assert(shown(work.goes_on, p.state().phases.last(), p.state().samples, p.watch(), go_on));
            }
            Ok(Event::Answered { go_on })
        },
        Action::Stop => Err(RunFault::Counts),
    }
}

/// The end of a run says what the work gives of the stack that is left: the
/// merit, the number of layers and the thickness.
pub open spec fn true_to<
    E: Fn(&DesignStack) -> Result<Scalar, String>,
    P: Fn(Scalar, Scalar) -> Scalar,
>(evaluate: E, plus: P, end: machine::EndView, stack: DesignStack) -> bool {
    &&& call_ensures(evaluate, (&stack,), Ok(end.final_mf))
    &&& end.final_layer_count == stack.span_seq().len()
    &&& measured(plus, stack.rows(), end.final_total_thickness_nm)
}

/// What is known of the last figures on the way to the end.
spec fn figures_stand<
    N,
    C,
    E: Fn(&DesignStack) -> Result<Scalar, String>,
    P: Fn(Scalar, Scalar) -> Scalar,
>(evaluate: E, plus: P, run: RunView<N, C>, stack: DesignStack) -> bool {
    match run.stage {
        Stage::FinalMeasure { mf, .. } => call_ensures(evaluate, (&stack,), Ok(mf)),
        Stage::FinalReport { mf, layers, total, .. } => {
            &&& call_ensures(evaluate, (&stack,), Ok(mf))
            &&& layers == stack.span_seq().len()
            &&& measured(plus, stack.rows(), total)
        },
        Stage::Done { .. } => run.end matches Some(end) && true_to(evaluate, plus, end, stack),
        _ => true,
    }
}

/// The detector settings of a run.
pub open spec fn watch_of(cfg: PipelineConfig) -> Watch {
    stagnation::effective(
        Watch {
            window: cfg.stagnation_window,
            gradient_tol: cfg.stagnation_gradient_tol,
            oscillation_ratio: cfg.stagnation_oscillation_ratio,
            divergence_count: cfg.stagnation_divergence_count,
        },
    )
}

/// What a run from its beginning to its end gives: the history led to this
/// state, and the run is over, or the next action failed.
pub open spec fn run_ends<
    A: Numeric,
    N,
    C,
    E: Fn(&DesignStack) -> Result<Scalar, String>,
    O: Fn(DesignStack) -> (DesignStack, Result<Scalar, String>),
    R: Fn() -> Option<ClampReport>,
    D: Fn(DesignStack, usize) -> (DesignStack, Result<Vec<N>, String>),
    K: Fn(DesignStack, Scalar, Option<usize>) -> (DesignStack, Result<(Scalar, C), String>),
    G: Fn(usize, &PipelinePhaseResult<N, C>, &StagnationDetector) -> bool,
    P: Fn(Scalar, Scalar) -> Scalar,
    S: Fn(Scalar, Scalar, Scalar) -> Scalar,
    F: Fn(Scalar) -> String,
>(
    num: A,
    work: Work<E, O, R, D, K, G, P, S, F>,
    wavls: Seq<Scalar>,
    cfg: PipelineConfig,
    w: Watch,
    before: DesignStack,
    after: DesignStack,
    state: RunView<N, C>,
    failure: Option<RunFault>,
) -> bool {
    &&& exists|events: Seq<Event<N, C>>, stacks: Seq<DesignStack>|
        {
            &&& #[trigger] history(num, work, wavls, cfg, w, before, events, stacks)
            &&& state == run_after(num, cfg, w, events, events.len() as int)
            &&& match failure {
                None => after == stacks.last(),
                Some(fault) => failed(
                    num,
                    work,
                    wavls,
                    w,
                    state,
                    machine::action_of(cfg, state.stage),
                    stacks.last(),
                    fault,
                    after,
                ),
            }
        }
    &&& failure is None <==> state.stage is Done
    &&& failure is None ==> (state.end matches Some(end) && true_to(
        work.evaluate,
        work.plus,
        end,
        after,
    ))
}

impl<N, C> NeedlePipeline<N, C> {
    /// Runs the macro-loop on a stack from its beginning to its end: every
    /// action in its turn, on the stack as the one before left it, until the
    /// run is over or a piece of work fails. The final figures are those of
    /// the stack that is left.
    pub fn run<
        A: Numeric,
        E: Fn(&DesignStack) -> Result<Scalar, String>,
        O: Fn(DesignStack) -> (DesignStack, Result<Scalar, String>),
        R: Fn() -> Option<ClampReport>,
        D: Fn(DesignStack, usize) -> (DesignStack, Result<Vec<N>, String>),
        K: Fn(DesignStack, Scalar, Option<usize>) -> (DesignStack, Result<(Scalar, C), String>),
        G: Fn(usize, &PipelinePhaseResult<N, C>, &StagnationDetector) -> bool,
        P: Fn(Scalar, Scalar) -> Scalar,
        S: Fn(Scalar, Scalar, Scalar) -> Scalar,
        F: Fn(Scalar) -> String,
    >(
        &mut self,
        num: &A,
        stack: &mut DesignStack,
        wavls: &Vec<Scalar>,
        work: &Work<E, O, R, D, K, G, P, S, F>,
    ) -> (r: Result<(), RunFault>)
        requires
            num.sound(),
            old(self).wf(),
            bounded(old(self).config()),
            old(stack).wf(),
            capable(*work),
        ensures
            final(self).wf(),
            final(self).config() == old(self).config(),
            final(self).watch() == old(self).watch(),
            final(stack).wf(),
            run_ends(
                *num,
                *work,
                wavls@,
                old(self).config(),
                old(self).watch(),
                *old(stack),
                *final(stack),
                final(self).state(),
                match r {
                    Ok(_) => None,
                    Err(fault) => Some(fault),
                },
            ),
    {
        let ghost cfg = self.config();
        let ghost w = self.watch();
        let ghost start = *stack;
        self.restart();
        let ghost mut events: Seq<Event<N, C>> = seq![];
        let ghost mut stacks: Seq<DesignStack> = seq![start];
        proof {
            laws::a_fresh_run_keeps_its_books::<N, C>(cfg);
        }
        loop
            invariant
                num.sound(),
                stack.wf(),
                bounded(cfg),
                capable(*work),
                cfg == old(self).config(),
                w == old(self).watch(),
                start == *old(stack),
                self.wf(),
                self.config() == cfg,
                self.watch() == w,
                self.state() == run_after(*num, cfg, w, events, events.len() as int),
                laws::books_kept(cfg, self.state()),
                machine::action_of(cfg, self.state().stage) is Notify ==> self.state().phases.len()
                    > 0,
                figures_stand(work.evaluate, work.plus, self.state(), *stack),
                history(*num, *work, wavls@, cfg, w, start, events, stacks),
                stacks.last() == *stack,
            ensures
                self.state().stage is Done,
            decreases laws::steps_left(cfg, self.state()),
        {
            match self.action() {
                Action::Stop => {
                    break;
                },
                _ => {},
            }
            let ghost state = self.state();
            let event: Event<N, C> = match perform(num, work, wavls, self, stack) {
                Ok(e) => e,
                Err(fault) => {
                    assert(history(*num, *work, wavls@, cfg, w, start, events, stacks));
                    return Err(fault);
                },
            };
            if !self.accepts(&event) {
                proof {
                    assert(!machine::counts_fit(state, event));
                    assert(history(*num, *work, wavls@, cfg, w, start, events, stacks));
                }
                return Err(RunFault::Counts);
            }
            proof {
                history_goes_on(
                    *num,
                    *work,
                    wavls@,
                    cfg,
                    w,
                    start,
                    events,
                    stacks,
                    event,
                    *stack,
                );
                laws::every_step_keeps_the_books(*num, cfg, w, state, event);
                laws::every_step_leaves_fewer(*num, cfg, w, state, event);
                laws::each_phase_is_shown_once(*num, cfg, w, state, event);
                laws::there_is_one_way_out(*num, cfg, w, state, event);
                events = events.push(event);
                stacks = stacks.push(*stack);
            }
            self.advance(num, event);
        }
        assert(history(*num, *work, wavls@, cfg, w, start, events, stacks));
        Ok(())
    }
}

/// What a run on a stack gives: refused as it is, with nothing changed, or run
/// from its beginning to its end.
pub open spec fn run_gives<
    A: Numeric,
    N,
    C,
    E: Fn(&DesignStack) -> Result<Scalar, String>,
    O: Fn(DesignStack) -> (DesignStack, Result<Scalar, String>),
    R: Fn() -> Option<ClampReport>,
    D: Fn(DesignStack, usize) -> (DesignStack, Result<Vec<N>, String>),
    K: Fn(DesignStack, Scalar, Option<usize>) -> (DesignStack, Result<(Scalar, C), String>),
    G: Fn(usize, &PipelinePhaseResult<N, C>, &StagnationDetector) -> bool,
    P: Fn(Scalar, Scalar) -> Scalar,
    S: Fn(Scalar, Scalar, Scalar) -> Scalar,
    F: Fn(Scalar) -> String,
>(
    num: A,
    work: Work<E, O, R, D, K, G, P, S, F>,
    wavls: Seq<Scalar>,
    cfg: PipelineConfig,
    before: DesignStack,
    after: DesignStack,
    r: Result<NeedlePipeline<N, C>, RunFault>,
) -> bool {
    let rows = before.rows();
    let spans = before.span_seq();
    let k = pipeline::first_pinned(num, rows, spans, cfg.clamp_max_nm, 0);
    let w = watch_of(cfg);
    if k < spans.len() {
        &&& r matches Err(RunFault::Refused { refusal: PipelineFault::PinnedSpan {
            material,
            d_nm,
            max_nm,
        } }) && material@ == rows[spans[k].start as int].material && d_nm
            == pipeline::span_total(num, rows, spans[k]) && max_nm == cfg.clamp_max_nm
        &&& after == before
    } else if pipeline::conflicting(cfg) {
        &&& r matches Err(RunFault::Refused { refusal: PipelineFault::ClampUpAlways { needles } })
            && needles == cfg.needles_per_cycle
        &&& after == before
    } else {
        match r {
            Ok(p) => {
                &&& p.wf()
                &&& p.config() == cfg
                &&& p.watch() == w
                &&& run_ends(num, work, wavls, cfg, w, before, after, p.state(), None)
            },
            Err(fault) => exists|state: RunView<N, C>| #[trigger]
                run_ends(num, work, wavls, cfg, w, before, after, state, Some(fault)),
        }
    }
}

/// Starts a run on a stack and runs it to its end.
pub fn run_pipeline<
    A: Numeric,
    N,
    C,
    E: Fn(&DesignStack) -> Result<Scalar, String>,
    O: Fn(DesignStack) -> (DesignStack, Result<Scalar, String>),
    R: Fn() -> Option<ClampReport>,
    D: Fn(DesignStack, usize) -> (DesignStack, Result<Vec<N>, String>),
    K: Fn(DesignStack, Scalar, Option<usize>) -> (DesignStack, Result<(Scalar, C), String>),
    G: Fn(usize, &PipelinePhaseResult<N, C>, &StagnationDetector) -> bool,
    P: Fn(Scalar, Scalar) -> Scalar,
    S: Fn(Scalar, Scalar, Scalar) -> Scalar,
    F: Fn(Scalar) -> String,
>(
    num: &A,
    stack: &mut DesignStack,
    cfg: PipelineConfig,
    wavls: &Vec<Scalar>,
    work: &Work<E, O, R, D, K, G, P, S, F>,
) -> (r: Result<NeedlePipeline<N, C>, RunFault>)
    requires
        num.sound(),
        old(stack).wf(),
        bounded(cfg),
        capable(*work),
    ensures
        final(stack).wf(),
        run_gives(*num, *work, wavls@, cfg, *old(stack), *final(stack), r),
{
    match NeedlePipeline::new(num, stack, cfg) {
        Ok(p) => {
            let mut p: NeedlePipeline<N, C> = p;
            match p.run(num, stack, wavls, work) {
                Ok(_) => Ok(p),
                Err(fault) => {
                    assert(run_ends(
                        *num,
                        *work,
                        wavls@,
                        cfg,
                        watch_of(cfg),
                        *old(stack),
                        *stack,
                        p.state(),
                        Some(fault),
                    ));
                    Err(fault)
                },
            }
        },
        Err(refusal) => Err(RunFault::Refused { refusal }),
    }
}

} // verus!
