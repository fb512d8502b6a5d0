//! The macro-loop as a machine: each piece of work is an action, its result an
//! event, and what comes next is decided here.
use crate::inflate::InflateResult;
use crate::numeric::Numeric;
use crate::pipeline;
use crate::pipeline::{check_run, PipelineConfig, PipelineFault};
use crate::scalar;
use crate::scalar::Scalar;
use crate::stagnation;
use crate::stagnation::{StagnationDetector, TerminationReason, Watch};
use crate::structure::clamp::ClampReport;
use crate::structure::DesignStack;
use crate::text;
use vstd::prelude::*;

verus! {

/// Work to be done on the stack, or a question to be answered.
#[derive(Clone, Copy, Debug, PartialEq, Eq, Structural)]
pub enum Action {
    /// Count the physical layers and add up the thickness.
    Measure,
    /// Evaluate the merit.
    Evaluate,
    /// Fetch and clear the clamp report of the optimizer.
    TakeReport,
    /// Run the needle pass with this many needles at most.
    Needle { max_needles: usize },
    /// Run the cleanup, which optimizes again.
    Clean { min_nm: Scalar, max_removals: Option<usize> },
    /// Run the inflation, which optimizes again.
    Inflate { addon_qwot: Scalar, reference_wl: Scalar, max_layers: Option<usize> },
    /// Optimize the thicknesses.
    Optimize,
    /// Run a clamp pass; `clamp_up` tells that thin films are raised.
    Sweep { min_nm: Scalar, max_nm: Scalar, clamp_up: bool },
    /// Show the last phase to the caller, who may stop the run.
    Notify,
    /// Nothing: the run is over.
    Stop,
}

/// The result of an action: `N` is what one needle cycle gives, `C` what a
/// cleanup gives.
#[derive(Debug)]
pub enum Event<N, C> {
    Measured { layers: usize, total: Scalar },
    Evaluated { mf: Scalar },
    Report { report: Option<ClampReport> },
    /// The needle cycles in their order.
    Needled { results: Vec<N> },
    /// The cleanup and the merit after it.
    Cleaned { mf: Scalar, outcome: C },
    Inflated { result: InflateResult },
    Optimized,
    Swept { clamp: ClampReport },
    Answered { go_on: bool },
}

/// Where a run stands: what it is waiting for.
#[derive(Clone, Copy, Debug)]
pub enum Stage {
    Preflight,
    PreflightMerit,
    Opening,
    Needling,
    NeedleMerit,
    NeedleBudget { mf: Scalar },
    NeedleBudgetMerit { mf: Scalar, layers: usize, total: Scalar },
    /// A budget is used up after the needle pass: the phase ends here.
    EarlyReport { mf: Scalar, layers: usize, total: Scalar, reason: TerminationReason },
    EarlyNotify { reason: TerminationReason },
    Cleaning { mf: Scalar },
    CleanSweep { mf: Scalar, mf_cleaned: Scalar },
    Inflating { mf: Scalar, cleaned: Option<Scalar> },
    InflateSweep { mf: Scalar, cleaned: Option<Scalar>, result: InflateResult },
    Recording { mf: Scalar, cleaned: Option<Scalar>, inflated: Option<InflateResult> },
    RecordReport {
        mf: Scalar,
        cleaned: Option<Scalar>,
        inflated: Option<InflateResult>,
        layers: usize,
        total: Scalar,
    },
    Notifying,
    PostBudget,
    PostBudgetMerit,
    /// The loop is over; `stuck` tells that the detector ended it.
    Finishing { reason: TerminationReason, stuck: bool },
    FinalSweep { reason: TerminationReason, stuck: bool },
    FinalMerit { reason: TerminationReason, stuck: bool },
    FinalMeasure { reason: TerminationReason, stuck: bool, mf: Scalar },
    FinalReport {
        reason: TerminationReason,
        stuck: bool,
        mf: Scalar,
        layers: usize,
        total: Scalar,
    },
    Done { reason: TerminationReason, stuck: bool },
}

/// Record of one macro-cycle.
#[derive(Debug)]
pub struct PipelinePhaseResult<N, C> {
    pub macro_cycle: usize,
    pub mf_after_needle: Scalar,
    pub mf_after_cleanup: Option<Scalar>,
    pub mf_after_inflate: Option<Scalar>,
    pub mf_end: Scalar,
    pub layer_count: usize,
    pub total_thickness_nm: Scalar,
    pub needle_results: Vec<N>,
    pub cleanup_result: Option<C>,
    pub inflate_result: Option<InflateResult>,
    /// What the clamp passes of the phase did; none if they did nothing.
    pub clamp_report: Option<ClampReport>,
}

/// The end of a run.
#[derive(Debug)]
pub struct PipelineEnd {
    pub final_mf: Scalar,
    pub final_layer_count: usize,
    pub final_total_thickness_nm: Scalar,
    /// What the last clamp passes did; none if they did nothing.
    pub final_clamp_report: Option<ClampReport>,
}

/// All that a run gave.
#[derive(Debug)]
pub struct PipelineResult<N, C> {
    pub phases: Vec<PipelinePhaseResult<N, C>>,
    pub termination: TerminationReason,
    pub final_mf: Scalar,
    pub final_layer_count: usize,
    pub final_total_thickness_nm: Scalar,
    /// The detector's state, where it ended the run.
    pub stagnation_detail: Option<String>,
    pub final_clamp_report: Option<ClampReport>,
}

/// What a clamp report holds.
#[verifier::ext_equal]
pub struct ReportView {
    pub removed: Seq<String>,
    pub capped: int,
    pub rows: int,
}

pub open spec fn report_view(r: ClampReport) -> ReportView {
    ReportView {
        removed: r.spans_removed@,
        capped: r.spans_capped as int,
        rows: r.rows_removed as int,
    }
}

/// A report on nothing.
pub open spec fn blank() -> ReportView {
    ReportView { removed: seq![], capped: 0, rows: 0 }
}

/// A fetched report; a missing one is blank.
pub open spec fn fetched(r: Option<ClampReport>) -> ReportView {
    match r {
        Some(c) => report_view(c),
        None => blank(),
    }
}

/// Two reports together.
pub open spec fn together(a: ReportView, b: ReportView) -> ReportView {
    ReportView { removed: a.removed + b.removed, capped: a.capped + b.capped, rows: a.rows + b.rows }
}

/// A report, or none if it is on nothing.
pub open spec fn worth_telling(r: ReportView) -> Option<ReportView> {
    if r.removed.len() == 0 && r.capped == 0 && r.rows == 0 {
        None
    } else {
        Some(r)
    }
}

/// What a phase holds.
#[verifier::ext_equal]
pub struct PhaseView<N, C> {
    pub macro_cycle: int,
    pub mf_after_needle: Scalar,
    pub mf_after_cleanup: Option<Scalar>,
    pub mf_after_inflate: Option<Scalar>,
    pub mf_end: Scalar,
    pub layer_count: usize,
    pub total_thickness_nm: Scalar,
    pub needle_results: Seq<N>,
    pub cleanup_result: Option<C>,
    pub inflate_result: Option<InflateResult>,
    pub clamp_report: Option<ReportView>,
}

pub open spec fn told(r: Option<ClampReport>) -> Option<ReportView> {
    match r {
        Some(c) => Some(report_view(c)),
        None => None,
    }
}

pub open spec fn phase_view<N, C>(p: PipelinePhaseResult<N, C>) -> PhaseView<N, C> {
    PhaseView {
        macro_cycle: p.macro_cycle as int,
        mf_after_needle: p.mf_after_needle,
        mf_after_cleanup: p.mf_after_cleanup,
        mf_after_inflate: p.mf_after_inflate,
        mf_end: p.mf_end,
        layer_count: p.layer_count,
        total_thickness_nm: p.total_thickness_nm,
        needle_results: p.needle_results@,
        cleanup_result: p.cleanup_result,
        inflate_result: p.inflate_result,
        clamp_report: told(p.clamp_report),
    }
}

/// What a run's end holds.
#[verifier::ext_equal]
pub struct EndView {
    pub final_mf: Scalar,
    pub final_layer_count: usize,
    pub final_total_thickness_nm: Scalar,
    pub final_clamp_report: Option<ReportView>,
}

pub open spec fn end_view(e: Option<PipelineEnd>) -> Option<EndView> {
    match e {
        Some(e) => Some(
            EndView {
                final_mf: e.final_mf,
                final_layer_count: e.final_layer_count,
                final_total_thickness_nm: e.final_total_thickness_nm,
                final_clamp_report: told(e.final_clamp_report),
            },
        ),
        None => None,
    }
}

/// A run.
#[verifier::ext_equal]
pub struct RunView<N, C> {
    pub stage: Stage,
    pub cycle: int,
    pub samples: Seq<Scalar>,
    pub phases: Seq<PhaseView<N, C>>,
    /// What the needle cycles and the cleanup of this phase gave.
    pub needled: Seq<N>,
    pub cleanup: Option<C>,
    pub report: ReportView,
    pub end: Option<EndView>,
}

// ---------------------------------------------------------------------------
// Budgets
// ---------------------------------------------------------------------------
/// A used-up budget that shows without a merit: layers before thickness.
pub open spec fn size_budget(cfg: PipelineConfig, layers: usize, total: Scalar) -> Option<
    TerminationReason,
> {
    if layers >= cfg.max_film_layers {
        Some(TerminationReason::LayerBudgetReached)
    } else if scalar::at_most(cfg.max_total_thickness_nm, total) {
        Some(TerminationReason::ThicknessBudgetReached)
    } else {
        None
    }
}

/// A merit counts only where a positive one is aimed at.
pub open spec fn aims(cfg: PipelineConfig) -> bool {
    scalar::less(Scalar::zero(), cfg.merit_target)
}

/// A merit that is good enough.
pub open spec fn merit_budget(cfg: PipelineConfig, mf: Scalar) -> Option<TerminationReason> {
    if scalar::at_most(mf, cfg.merit_target) {
        Some(TerminationReason::MeritTargetReached)
    } else {
        None
    }
}

/// Finds a used-up budget that shows without a merit.
pub fn check_size(cfg: &PipelineConfig, layers: usize, total: Scalar) -> (r: Option<
    TerminationReason,
>)
    ensures
        r == size_budget(*cfg, layers, total),
{
    if layers >= cfg.max_film_layers {
        Some(TerminationReason::LayerBudgetReached)
    } else if total.ge(cfg.max_total_thickness_nm) {
        Some(TerminationReason::ThicknessBudgetReached)
    } else {
        None
    }
}

/// Whether the merit is to be evaluated for the budget.
pub fn wants_merit(cfg: &PipelineConfig) -> (r: bool)
    ensures
        r == aims(*cfg),
{
    cfg.merit_target.gt(Scalar::zero())
}

/// Whether a merit is good enough.
pub fn check_merit(cfg: &PipelineConfig, mf: Scalar) -> (r: Option<TerminationReason>)
    ensures
        r == merit_budget(*cfg, mf),
{
    if mf.le(cfg.merit_target) {
        Some(TerminationReason::MeritTargetReached)
    } else {
        None
    }
}

// ---------------------------------------------------------------------------
// Steps
// ---------------------------------------------------------------------------
/// A clamp pass, the last of the run or not.
pub open spec fn sweep(cfg: PipelineConfig, last: bool) -> Action {
    Action::Sweep {
        min_nm: cfg.clamp_min_nm,
        max_nm: cfg.clamp_max_nm,
        clamp_up: cfg.thin_layer_policy.raises(last),
    }
}

/// The action a stage asks for.
pub open spec fn action_of(cfg: PipelineConfig, s: Stage) -> Action {
    match s {
        Stage::Preflight | Stage::NeedleBudget { .. } | Stage::PostBudget => Action::Measure,
        Stage::Recording { .. } | Stage::FinalMeasure { .. } => Action::Measure,
        Stage::PreflightMerit | Stage::NeedleMerit | Stage::NeedleBudgetMerit { .. } =>
            Action::Evaluate,
        Stage::PostBudgetMerit | Stage::FinalMerit { .. } => Action::Evaluate,
        Stage::Opening | Stage::EarlyReport { .. } | Stage::RecordReport { .. } =>
            Action::TakeReport,
        Stage::FinalReport { .. } => Action::TakeReport,
        Stage::Needling => Action::Needle { max_needles: cfg.needles_per_cycle },
        Stage::EarlyNotify { .. } | Stage::Notifying => Action::Notify,
        Stage::Cleaning { .. } => Action::Clean {
            min_nm: cfg.cleanup_floor(),
            max_removals: cfg.cleanup_max_removals,
        },
        Stage::Inflating { .. } => Action::Inflate {
            addon_qwot: cfg.inflate_addon_qwot,
            reference_wl: cfg.inflate_reference_wl,
            max_layers: cfg.inflate_max_layers,
        },
        Stage::CleanSweep { .. } | Stage::InflateSweep { .. } => sweep(cfg, false),
        Stage::Finishing { .. } => Action::Optimize,
        Stage::FinalSweep { .. } => sweep(cfg, true),
        Stage::Done { .. } => Action::Stop,
    }
}

/// The event is the result of the action.
pub open spec fn answers<N, C>(a: Action, e: Event<N, C>) -> bool {
    match a {
        Action::Measure => e is Measured,
        Action::Evaluate => e is Evaluated,
        Action::TakeReport => e is Report,
        Action::Needle { .. } => e is Needled,
        Action::Clean { .. } => e is Cleaned,
        Action::Inflate { .. } => e is Inflated,
        Action::Optimize => e is Optimized,
        Action::Sweep { .. } => e is Swept,
        Action::Notify => e is Answered,
        Action::Stop => false,
    }
}

/// The next cycle, or the end where there is none left.
pub open spec fn onward<N, C>(cfg: PipelineConfig, r: RunView<N, C>) -> RunView<N, C> {
    if r.cycle < cfg.max_macro_cycles {
        RunView { stage: Stage::Preflight, cycle: r.cycle + 1, ..r }
    } else {
        over(r, TerminationReason::MaxIterationsReached, false)
    }
}

/// The loop is over.
pub open spec fn over<N, C>(r: RunView<N, C>, reason: TerminationReason, stuck: bool) -> RunView<N, C> {
    RunView { stage: Stage::Finishing { reason, stuck }, ..r }
}

/// After a needle pass within the budgets.
pub open spec fn after_needle(cfg: PipelineConfig, mf: Scalar) -> Stage {
    if cfg.enable_cleanup {
        Stage::Cleaning { mf }
    } else {
        after_cleanup(cfg, mf, None)
    }
}

/// After the cleanup, if there is one.
pub open spec fn after_cleanup(
    cfg: PipelineConfig,
    mf: Scalar,
    cleaned: Option<Scalar>,
) -> Stage {
    if cfg.enable_inflate {
        Stage::Inflating { mf, cleaned }
    } else {
        Stage::Recording { mf, cleaned, inflated: None }
    }
}

/// The merit at the end of a phase: the last one there is.
pub open spec fn mf_at_end(
    mf: Scalar,
    cleaned: Option<Scalar>,
    inflated: Option<InflateResult>,
) -> Scalar {
    match inflated {
        Some(i) => i.merit_after,
        None => match cleaned {
            Some(m) => m,
            None => mf,
        },
    }
}

/// The merit after an inflation, if there was one.
pub open spec fn merit_of(inflated: Option<InflateResult>) -> Option<Scalar> {
    match inflated {
        Some(i) => Some(i.merit_after),
        None => None,
    }
}

/// A phase recorded; what it held is given away.
pub open spec fn recorded<N, C>(r: RunView<N, C>, p: PhaseView<N, C>, stage: Stage) -> RunView<
    N,
    C,
> {
    RunView {
        stage,
        phases: r.phases.push(p),
        samples: r.samples.push(p.mf_end),
        needled: seq![],
        cleanup: None,
        ..r
    }
}

/// What follows when an action has its result.
pub open spec fn next<A: Numeric, N, C>(
    num: A,
    cfg: PipelineConfig,
    w: Watch,
    r: RunView<N, C>,
    e: Event<N, C>,
) -> RunView<N, C> {
    match (r.stage, e) {
        (Stage::Preflight, Event::Measured { layers, total }) => match size_budget(
            cfg,
            layers,
            total,
        ) {
            Some(reason) => over(r, reason, false),
            None => RunView {
                stage: if aims(cfg) {
                    Stage::PreflightMerit
                } else {
                    Stage::Opening
                },
                ..r
            },
        },
        (Stage::PreflightMerit, Event::Evaluated { mf }) => match merit_budget(cfg, mf) {
            Some(reason) => over(r, reason, false),
            None => RunView { stage: Stage::Opening, ..r },
        },
        (Stage::Opening, Event::Report { report }) => RunView {
            stage: Stage::Needling,
            report: fetched(report),
            ..r
        },
        (Stage::Needling, Event::Needled { results }) => RunView {
            stage: Stage::NeedleMerit,
            needled: results@,
            ..r
        },
        (Stage::NeedleMerit, Event::Evaluated { mf }) => RunView {
            stage: Stage::NeedleBudget { mf },
            ..r
        },
        (Stage::NeedleBudget { mf }, Event::Measured { layers, total }) => RunView {
            stage: match size_budget(cfg, layers, total) {
                Some(reason) => Stage::EarlyReport { mf, layers, total, reason },
                None => if aims(cfg) {
                    Stage::NeedleBudgetMerit { mf, layers, total }
                } else {
                    after_needle(cfg, mf)
                },
            },
            ..r
        },
        (Stage::NeedleBudgetMerit { mf, layers, total }, Event::Evaluated { mf: now }) => RunView {
            stage: match merit_budget(cfg, now) {
                Some(reason) => Stage::EarlyReport { mf, layers, total, reason },
                None => after_needle(cfg, mf),
            },
            ..r
        },
        (Stage::EarlyReport { mf, layers, total, reason }, Event::Report { report }) => recorded(
            r,
            PhaseView {
                macro_cycle: r.cycle,
                mf_after_needle: mf,
                mf_after_cleanup: None,
                mf_after_inflate: None,
                mf_end: mf,
                layer_count: layers,
                total_thickness_nm: total,
                needle_results: r.needled,
                cleanup_result: None,
                inflate_result: None,
                clamp_report: worth_telling(fetched(report)),
            },
            Stage::EarlyNotify { reason },
        ),
        (Stage::EarlyNotify { reason }, Event::Answered { go_on }) => over(
            r,
            if go_on {
                reason
            } else {
                TerminationReason::UserAbort
            },
            false,
        ),
        (Stage::Cleaning { mf }, Event::Cleaned { mf: mf_cleaned, outcome }) => RunView {
            stage: Stage::CleanSweep { mf, mf_cleaned },
            cleanup: Some(outcome),
            ..r
        },
        (Stage::CleanSweep { mf, mf_cleaned }, Event::Swept { clamp }) => RunView {
            stage: after_cleanup(cfg, mf, Some(mf_cleaned)),
            report: together(r.report, report_view(clamp)),
            ..r
        },
        (Stage::Inflating { mf, cleaned }, Event::Inflated { result }) => RunView {
            stage: Stage::InflateSweep { mf, cleaned, result },
            ..r
        },
        (Stage::InflateSweep { mf, cleaned, result }, Event::Swept { clamp }) => RunView {
            stage: Stage::Recording { mf, cleaned, inflated: Some(result) },
            report: together(r.report, report_view(clamp)),
            ..r
        },
        (Stage::Recording { mf, cleaned, inflated }, Event::Measured { layers, total }) => RunView {
            stage: Stage::RecordReport { mf, cleaned, inflated, layers, total },
            ..r
        },
        (
            Stage::RecordReport { mf, cleaned, inflated, layers, total },
            Event::Report { report },
        ) => recorded(
            RunView { report: blank(), ..r },
            PhaseView {
                macro_cycle: r.cycle,
                mf_after_needle: mf,
                mf_after_cleanup: cleaned,
                mf_after_inflate: merit_of(inflated),
                mf_end: mf_at_end(mf, cleaned, inflated),
                layer_count: layers,
                total_thickness_nm: total,
                needle_results: r.needled,
                cleanup_result: r.cleanup,
                inflate_result: inflated,
                clamp_report: worth_telling(together(r.report, fetched(report))),
            },
            Stage::Notifying,
        ),
        (Stage::Notifying, Event::Answered { go_on }) => if !go_on {
            over(r, TerminationReason::UserAbort, false)
        } else {
            match stagnation::verdict(num, r.samples, w) {
                Some(reason) => over(r, reason, true),
                None => RunView { stage: Stage::PostBudget, ..r },
            }
        },
        (Stage::PostBudget, Event::Measured { layers, total }) => match size_budget(
            cfg,
            layers,
            total,
        ) {
            Some(reason) => over(r, reason, false),
            None => if aims(cfg) {
                RunView { stage: Stage::PostBudgetMerit, ..r }
            } else {
                onward(cfg, r)
            },
        },
        (Stage::PostBudgetMerit, Event::Evaluated { mf }) => match merit_budget(cfg, mf) {
            Some(reason) => over(r, reason, false),
            None => onward(cfg, r),
        },
        (Stage::Finishing { reason, stuck }, Event::Optimized) => RunView {
            stage: Stage::FinalSweep { reason, stuck },
            ..r
        },
        (Stage::FinalSweep { reason, stuck }, Event::Swept { clamp }) => RunView {
            stage: Stage::FinalMerit { reason, stuck },
            report: report_view(clamp),
            ..r
        },
        (Stage::FinalMerit { reason, stuck }, Event::Evaluated { mf }) => RunView {
            stage: Stage::FinalMeasure { reason, stuck, mf },
            ..r
        },
        (Stage::FinalMeasure { reason, stuck, mf }, Event::Measured { layers, total }) => RunView {
            stage: Stage::FinalReport { reason, stuck, mf, layers, total },
            ..r
        },
        (
            Stage::FinalReport { reason, stuck, mf, layers, total },
            Event::Report { report },
        ) => RunView {
            stage: Stage::Done { reason, stuck },
            report: blank(),
            end: Some(
                EndView {
                    final_mf: mf,
                    final_layer_count: layers,
                    final_total_thickness_nm: total,
                    final_clamp_report: worth_telling(together(fetched(report), r.report)),
                },
            ),
            ..r
        },
        _ => r,
    }
}

/// The counts of a report still fit a machine word after this event.
pub open spec fn counts_fit<N, C>(r: RunView<N, C>, e: Event<N, C>) -> bool {
    let fits = |a: ReportView, b: ReportView|
        a.capped + b.capped <= usize::MAX && a.rows + b.rows <= usize::MAX;
    match (r.stage, e) {
        (Stage::CleanSweep { .. }, Event::Swept { clamp }) => fits(r.report, report_view(clamp)),
        (Stage::InflateSweep { .. }, Event::Swept { clamp }) => fits(
            r.report,
            report_view(clamp),
        ),
        (Stage::RecordReport { .. }, Event::Report { report }) => fits(r.report, fetched(report)),
        (Stage::FinalReport { .. }, Event::Report { report }) => fits(r.report, fetched(report)),
        _ => true,
    }
}

/// Why the loop ended, and whether the detector ended it.
pub open spec fn ending(s: Stage) -> Option<(TerminationReason, bool)> {
    match s {
        Stage::Finishing { reason, stuck } => Some((reason, stuck)),
        Stage::FinalSweep { reason, stuck } => Some((reason, stuck)),
        Stage::FinalMerit { reason, stuck } => Some((reason, stuck)),
        Stage::FinalMeasure { reason, stuck, .. } => Some((reason, stuck)),
        Stage::FinalReport { reason, stuck, .. } => Some((reason, stuck)),
        Stage::Done { reason, stuck } => Some((reason, stuck)),
        _ => None,
    }
}

/// A run of the macro-loop.
#[derive(Debug)]
pub struct NeedlePipeline<N, C> {
    cfg: PipelineConfig,
    detector: StagnationDetector,
    stage: Stage,
    cycle: usize,
    phases: Vec<PipelinePhaseResult<N, C>>,
    needled: Vec<N>,
    cleanup: Option<C>,
    report: ClampReport,
    end: Option<PipelineEnd>,
}

fn or_blank(r: Option<ClampReport>) -> (c: ClampReport)
    ensures
        report_view(c) == fetched(r),
{
    match r {
        Some(c) => c,
        None => {
            let c: ClampReport = ClampReport::default();
            assert(c.spans_removed@ =~= seq![]);
            c
        },
    }
}

fn addable(a: &ClampReport, b: &ClampReport) -> (r: bool)
    ensures
        r == (a.spans_capped + b.spans_capped <= usize::MAX && a.rows_removed + b.rows_removed
            <= usize::MAX),
{
    b.spans_capped <= usize::MAX - a.spans_capped && b.rows_removed <= usize::MAX - a.rows_removed
}

fn joined(a: ClampReport, b: ClampReport) -> (c: ClampReport)
    requires
        a.spans_capped + b.spans_capped <= usize::MAX,
        a.rows_removed + b.rows_removed <= usize::MAX,
    ensures
        report_view(c) == together(report_view(a), report_view(b)),
{
    let mut c: ClampReport = a;
    c.merge(b);
    c
}

fn tell(c: ClampReport) -> (r: Option<ClampReport>)
    ensures
        told(r) == worth_telling(report_view(c)),
{
    if c.is_empty() {
        None
    } else {
        Some(c)
    }
}

impl<N, C> NeedlePipeline<N, C> {
    pub closed spec fn config(&self) -> PipelineConfig {
        self.cfg
    }

    pub closed spec fn watch(&self) -> Watch {
        self.detector.watch()
    }

    pub closed spec fn state(&self) -> RunView<N, C> {
        RunView {
            stage: self.stage,
            cycle: self.cycle as int,
            samples: self.detector.samples(),
            phases: self.phases@.map_values(|p: PipelinePhaseResult<N, C>| phase_view(p)),
            needled: self.needled@,
            cleanup: self.cleanup,
            report: report_view(self.report),
            end: end_view(self.end),
        }
    }

    /// The detector's window can be filled.
    pub closed spec fn wf(&self) -> bool {
        self.detector.watch().window >= 2
    }

    /// Starts a run on a stack, unless it is refused.
    pub fn new<A: Numeric>(num: &A, stack: &DesignStack, cfg: PipelineConfig) -> (r: Result<
        Self,
        PipelineFault,
    >)
        requires
            num.sound(),
            stack.wf(),
        ensures
            ({
                let rows = stack.rows();
                let spans = stack.span_seq();
                let k = pipeline::first_pinned(*num, rows, spans, cfg.clamp_max_nm, 0);
                match r {
                    Ok(p) => {
                        &&& k == spans.len()
                        &&& !pipeline::conflicting(cfg)
                        &&& p.wf()
                        &&& p.config() == cfg
                        &&& p.watch() == stagnation::effective(
                            Watch {
                                window: cfg.stagnation_window,
                                gradient_tol: cfg.stagnation_gradient_tol,
                                oscillation_ratio: cfg.stagnation_oscillation_ratio,
                                divergence_count: cfg.stagnation_divergence_count,
                            },
                        )
                        &&& p.state() == fresh::<N, C>(cfg)
                    },
                    Err(PipelineFault::PinnedSpan { material, d_nm, max_nm }) => {
                        &&& k < spans.len()
                        &&& material@ == rows[spans[k].start as int].material
                        &&& d_nm == pipeline::span_total(*num, rows, spans[k])
                        &&& max_nm == cfg.clamp_max_nm
                    },
                    Err(PipelineFault::ClampUpAlways { needles }) => {
                        &&& k == spans.len()
                        &&& pipeline::conflicting(cfg)
                        &&& needles == cfg.needles_per_cycle
                    },
                }
            }),
    {
        proof {
            first_pinned_bounds(*num, stack.rows(), stack.span_seq(), cfg.clamp_max_nm, 0);
        }
        match check_run(num, stack, &cfg) {
            Some(fault) => Err(fault),
            None => {
                let detector: StagnationDetector = StagnationDetector::new(
                    cfg.stagnation_window,
                    cfg.stagnation_gradient_tol,
                    cfg.stagnation_oscillation_ratio,
                    cfg.stagnation_divergence_count,
                );
                let mut p: NeedlePipeline<N, C> = NeedlePipeline {
                    cfg,
                    detector,
                    stage: Stage::Preflight,
                    cycle: 0,
                    phases: Vec::new(),
                    needled: Vec::new(),
                    cleanup: None,
                    report: or_blank(None),
                    end: None,
                };
                p.go_on();
                assert(p.state() =~= fresh::<N, C>(cfg));
                Ok(p)
            },
        }
    }

    /// Forgets all that happened, to run again.
    pub fn restart(&mut self)
        requires
            old(self).wf(),
        ensures
            final(self).wf(),
            final(self).config() == old(self).config(),
            final(self).watch() == old(self).watch(),
            final(self).state() == fresh::<N, C>(old(self).config()),
    {
        self.detector.reset();
        self.phases = Vec::new();
        self.needled = Vec::new();
        self.cleanup = None;
        self.report = or_blank(None);
        self.end = None;
        self.cycle = 0;
        self.go_on();
        assert(self.state() =~= fresh::<N, C>(old(self).config()));
    }

    /// Enters the next cycle, or ends the loop.
    fn go_on(&mut self)
        requires
            old(self).wf(),
        ensures
            final(self).wf(),
            final(self).config() == old(self).config(),
            final(self).watch() == old(self).watch(),
            final(self).state() == onward(old(self).config(), old(self).state()),
    {
        if self.cycle < self.cfg.max_macro_cycles {
            self.cycle = self.cycle + 1;
            self.stage = Stage::Preflight;
        } else {
            self.stage = Stage::Finishing {
                reason: TerminationReason::MaxIterationsReached,
                stuck: false,
            };
        }
    }

    fn clamp_pass(&self, last: bool) -> (r: Action)
        ensures
            r == sweep(self.config(), last),
    {
        Action::Sweep {
            min_nm: self.cfg.clamp_min_nm,
            max_nm: self.cfg.clamp_max_nm,
            clamp_up: self.cfg.thin_layer_policy.clamps_up(last),
        }
    }

    /// What is to be done now.
    pub fn action(&self) -> (r: Action)
        ensures
            r == action_of(self.config(), self.state().stage),
    {
        match self.stage {
            Stage::Preflight | Stage::NeedleBudget { .. } | Stage::PostBudget => Action::Measure,
            Stage::Recording { .. } | Stage::FinalMeasure { .. } => Action::Measure,
            Stage::PreflightMerit | Stage::NeedleMerit | Stage::NeedleBudgetMerit { .. } =>
                Action::Evaluate,
            Stage::PostBudgetMerit | Stage::FinalMerit { .. } => Action::Evaluate,
            Stage::Opening | Stage::EarlyReport { .. } | Stage::RecordReport { .. } =>
                Action::TakeReport,
            Stage::FinalReport { .. } => Action::TakeReport,
            Stage::Needling => Action::Needle { max_needles: self.cfg.needles_per_cycle },
            Stage::EarlyNotify { .. } | Stage::Notifying => Action::Notify,
            Stage::Cleaning { .. } => Action::Clean {
                min_nm: match self.cfg.cleanup_min_nm {
                    Some(m) => m,
                    None => self.cfg.clamp_min_nm,
                },
                max_removals: self.cfg.cleanup_max_removals,
            },
            Stage::Inflating { .. } => Action::Inflate {
                addon_qwot: self.cfg.inflate_addon_qwot,
                reference_wl: self.cfg.inflate_reference_wl,
                max_layers: self.cfg.inflate_max_layers,
            },
            Stage::CleanSweep { .. } | Stage::InflateSweep { .. } => self.clamp_pass(false),
            Stage::Finishing { .. } => Action::Optimize,
            Stage::FinalSweep { .. } => self.clamp_pass(true),
            Stage::Done { .. } => Action::Stop,
        }
    }

    /// The phases so far.
    pub fn phases(&self) -> (r: &Vec<PipelinePhaseResult<N, C>>)
        ensures
            r@.map_values(|p: PipelinePhaseResult<N, C>| phase_view(p)) == self.state().phases,
    {
        &self.phases
    }

    /// The detector.
    pub fn detector(&self) -> (r: &StagnationDetector)
        ensures
            r.samples() == self.state().samples,
            r.watch() == self.watch(),
    {
        &self.detector
    }

    /// Why the loop ended, and whether the detector ended it; none while it
    /// goes on.
    pub fn termination(&self) -> (r: Option<(TerminationReason, bool)>)
        ensures
            r == ending(self.state().stage),
    {
        match self.stage {
            Stage::Finishing { reason, stuck } => Some((reason, stuck)),
            Stage::FinalSweep { reason, stuck } => Some((reason, stuck)),
            Stage::FinalMerit { reason, stuck } => Some((reason, stuck)),
            Stage::FinalMeasure { reason, stuck, .. } => Some((reason, stuck)),
            Stage::FinalReport { reason, stuck, .. } => Some((reason, stuck)),
            Stage::Done { reason, stuck } => Some((reason, stuck)),
            _ => None,
        }
    }

    /// The end of the run, once it is over.
    pub fn end(&self) -> (r: Option<&PipelineEnd>)
        ensures
            match r {
                Some(e) => end_view(Some(*e)) == self.state().end,
                None => self.state().end is None,
            },
    {
        match &self.end {
            Some(e) => Some(e),
            None => None,
        }
    }

    /// All that the run gave, once it is over.
    pub fn into_result<A: Numeric, S: Fn(Scalar) -> String, W: Fn(Scalar) -> String>(
        self,
        num: &A,
        signed: &S,
        whole: &W,
    ) -> (r: Option<PipelineResult<N, C>>)
        requires
            num.sound(),
            text::shows(*signed),
            text::shows(*whole),
        ensures
            match r {
                Some(p) => {
                    let run = self.state();
                    &&& run.stage == (Stage::Done {
                        reason: p.termination,
                        stuck: p.stagnation_detail is Some,
                    })
                    &&& run.end == Some(
                        EndView {
                            final_mf: p.final_mf,
                            final_layer_count: p.final_layer_count,
                            final_total_thickness_nm: p.final_total_thickness_nm,
                            final_clamp_report: told(p.final_clamp_report),
                        },
                    )
                    &&& p.phases@.map_values(|x: PipelinePhaseResult<N, C>| phase_view(x)) == run.phases
                    &&& p.stagnation_detail matches Some(words) ==> words@
                        == stagnation::summary_text(
                        *num,
                        *signed,
                        *whole,
                        run.samples,
                        self.watch().window,
                    )
                },
                None => !(self.state().stage is Done) || self.state().end is None,
            },
    {
        let (termination, stuck) = match self.stage {
            Stage::Done { reason, stuck } => (reason, stuck),
            _ => {
                return None;
            },
        };
        let stagnation_detail: Option<String> = if stuck {
            Some(self.detector.summary(num, signed, whole))
        } else {
            None
        };
        match self.end {
            Some(e) => Some(
                PipelineResult {
                    phases: self.phases,
                    termination,
                    final_mf: e.final_mf,
                    final_layer_count: e.final_layer_count,
                    final_total_thickness_nm: e.final_total_thickness_nm,
                    stagnation_detail,
                    final_clamp_report: e.final_clamp_report,
                },
            ),
            None => None,
        }
    }

    /// Gives the report away and keeps a blank one.
    fn hand_over_report(&mut self) -> (r: ClampReport)
        requires
            old(self).wf(),
        ensures
            final(self).wf(),
            final(self).config() == old(self).config(),
            final(self).watch() == old(self).watch(),
            final(self).state() == (RunView { report: blank(), ..old(self).state() }),
            report_view(r) == old(self).state().report,
    {
        let mut out: ClampReport = or_blank(None);
        std::mem::swap(&mut out, &mut self.report);
        out
    }

    /// Gives the needle results away.
    fn hand_over_needles(&mut self) -> (r: Vec<N>)
        requires
            old(self).wf(),
        ensures
            final(self).wf(),
            final(self).config() == old(self).config(),
            final(self).watch() == old(self).watch(),
            final(self).state() == (RunView { needled: seq![], ..old(self).state() }),
            r@ == old(self).state().needled,
    {
        let mut out: Vec<N> = Vec::new();
        std::mem::swap(&mut out, &mut self.needled);
        assert(self.state() =~= (RunView { needled: seq![], ..old(self).state() }));
        out
    }

    /// Records a phase and its merit.
    fn add_phase(&mut self, p: PipelinePhaseResult<N, C>, stage: Stage)
        requires
            old(self).wf(),
            old(self).state().needled.len() == 0,
            old(self).state().cleanup is None,
        ensures
            final(self).wf(),
            final(self).config() == old(self).config(),
            final(self).watch() == old(self).watch(),
            final(self).state() == recorded(old(self).state(), phase_view(p), stage),
    {
        let ghost before = self.state().phases;
        self.detector.record(p.mf_end);
        self.phases.push(p);
        self.stage = stage;
        assert(self.state().phases =~= before.push(phase_view(p)));
        assert(self.state().needled =~= seq![]);
    }

    fn after_needle_pass(&self, mf: Scalar) -> (r: Stage)
        ensures
            r == after_needle(self.config(), mf),
    {
        if self.cfg.enable_cleanup {
            Stage::Cleaning { mf }
        } else {
            self.after_clean(mf, None)
        }
    }

    fn after_clean(&self, mf: Scalar, cleaned: Option<Scalar>) -> (r: Stage)
        ensures
            r == after_cleanup(self.config(), mf, cleaned),
    {
        if self.cfg.enable_inflate {
            Stage::Inflating { mf, cleaned }
        } else {
            Stage::Recording { mf, cleaned, inflated: None }
        }
    }

    /// Whether the event is the result of the action and its counts can be
    /// added.
    pub fn accepts(&self, event: &Event<N, C>) -> (r: bool)
        ensures
            r == (answers(action_of(self.config(), self.state().stage), *event) && counts_fit(
                self.state(),
                *event,
            )),
    {
        let answered: bool = match (self.action(), event) {
            (Action::Measure, Event::Measured { .. }) => true,
            (Action::Evaluate, Event::Evaluated { .. }) => true,
            (Action::TakeReport, Event::Report { .. }) => true,
            (Action::Needle { .. }, Event::Needled { .. }) => true,
            (Action::Clean { .. }, Event::Cleaned { .. }) => true,
            (Action::Inflate { .. }, Event::Inflated { .. }) => true,
            (Action::Optimize, Event::Optimized) => true,
            (Action::Sweep { .. }, Event::Swept { .. }) => true,
            (Action::Notify, Event::Answered { .. }) => true,
            _ => false,
        };
        let fits: bool = match (&self.stage, event) {
            (Stage::CleanSweep { .. }, Event::Swept { clamp }) => addable(&self.report, clamp),
            (Stage::InflateSweep { .. }, Event::Swept { clamp }) => addable(&self.report, clamp),
            (Stage::RecordReport { .. }, Event::Report { report: Some(c) }) => addable(
                &self.report,
                c,
            ),
            (Stage::FinalReport { .. }, Event::Report { report: Some(c) }) => addable(
                &self.report,
                c,
            ),
            _ => true,
        };
        answered && fits
    }

    /// Takes the result of the action and decides what comes next.
    pub fn advance<A: Numeric>(&mut self, num: &A, event: Event<N, C>)
        requires
            num.sound(),
            old(self).wf(),
            answers(action_of(old(self).config(), old(self).state().stage), event),
            counts_fit(old(self).state(), event),
        ensures
            final(self).wf(),
            final(self).config() == old(self).config(),
            final(self).watch() == old(self).watch(),
            final(self).state() == next(
                *num,
                old(self).config(),
                old(self).watch(),
                old(self).state(),
                event,
            ),
    {
        let ghost r0 = self.state();
        match (self.stage, event) {
            (Stage::Preflight, Event::Measured { layers, total }) => {
                self.stage = match check_size(&self.cfg, layers, total) {
                    Some(reason) => Stage::Finishing { reason, stuck: false },
                    None => if wants_merit(&self.cfg) {
                        Stage::PreflightMerit
                    } else {
                        Stage::Opening
                    },
                };
            },
            (Stage::PreflightMerit, Event::Evaluated { mf }) => {
                self.stage = match check_merit(&self.cfg, mf) {
                    Some(reason) => Stage::Finishing { reason, stuck: false },
                    None => Stage::Opening,
                };
            },
            (Stage::Opening, Event::Report { report }) => {
                self.report = or_blank(report);
                self.stage = Stage::Needling;
            },
            (Stage::Needling, Event::Needled { results }) => {
                self.needled = results;
                self.stage = Stage::NeedleMerit;
            },
            (Stage::NeedleMerit, Event::Evaluated { mf }) => {
                self.stage = Stage::NeedleBudget { mf };
            },
            (Stage::NeedleBudget { mf }, Event::Measured { layers, total }) => {
                self.stage = match check_size(&self.cfg, layers, total) {
                    Some(reason) => Stage::EarlyReport { mf, layers, total, reason },
                    None => if wants_merit(&self.cfg) {
                        Stage::NeedleBudgetMerit { mf, layers, total }
                    } else {
                        self.after_needle_pass(mf)
                    },
                };
            },
            (Stage::NeedleBudgetMerit { mf, layers, total }, Event::Evaluated { mf: now }) => {
                self.stage = match check_merit(&self.cfg, now) {
                    Some(reason) => Stage::EarlyReport { mf, layers, total, reason },
                    None => self.after_needle_pass(mf),
                };
            },
            (Stage::EarlyReport { mf, layers, total, reason }, Event::Report { report }) => {
                let p: PipelinePhaseResult<N, C> = PipelinePhaseResult {
                    macro_cycle: self.cycle,
                    mf_after_needle: mf,
                    mf_after_cleanup: None,
                    mf_after_inflate: None,
                    mf_end: mf,
                    layer_count: layers,
                    total_thickness_nm: total,
                    needle_results: self.hand_over_needles(),
                    cleanup_result: None,
                    inflate_result: None,
                    clamp_report: tell(or_blank(report)),
                };
                self.cleanup = None;
                self.add_phase(p, Stage::EarlyNotify { reason });
            },
            (Stage::EarlyNotify { reason }, Event::Answered { go_on }) => {
                let reason: TerminationReason = if go_on {
                    reason
                } else {
                    TerminationReason::UserAbort
                };
                self.stage = Stage::Finishing { reason, stuck: false };
            },
            (Stage::Cleaning { mf }, Event::Cleaned { mf: mf_cleaned, outcome }) => {
                self.cleanup = Some(outcome);
                self.stage = Stage::CleanSweep { mf, mf_cleaned };
            },
            (Stage::CleanSweep { mf, mf_cleaned }, Event::Swept { clamp }) => {
                self.report.merge(clamp);
                self.stage = self.after_clean(mf, Some(mf_cleaned));
            },
            (Stage::Inflating { mf, cleaned }, Event::Inflated { result }) => {
                self.stage = Stage::InflateSweep { mf, cleaned, result };
            },
            (Stage::InflateSweep { mf, cleaned, result }, Event::Swept { clamp }) => {
                self.report.merge(clamp);
                self.stage = Stage::Recording { mf, cleaned, inflated: Some(result) };
            },
            (Stage::Recording { mf, cleaned, inflated }, Event::Measured { layers, total }) => {
                self.stage = Stage::RecordReport { mf, cleaned, inflated, layers, total };
            },
            (
                Stage::RecordReport { mf, cleaned, inflated, layers, total },
                Event::Report { report },
            ) => {
                let after_inflate: Option<Scalar> = match inflated {
                    Some(i) => Some(i.merit_after),
                    None => None,
                };
                let mf_end: Scalar = match after_inflate {
                    Some(m) => m,
                    None => match cleaned {
                        Some(m) => m,
                        None => mf,
                    },
                };
                let late: ClampReport = or_blank(report);
                let told_so_far: ClampReport = self.hand_over_report();
                let p: PipelinePhaseResult<N, C> = PipelinePhaseResult {
                    macro_cycle: self.cycle,
                    mf_after_needle: mf,
                    mf_after_cleanup: cleaned,
                    mf_after_inflate: after_inflate,
                    mf_end,
                    layer_count: layers,
                    total_thickness_nm: total,
                    needle_results: self.hand_over_needles(),
                    cleanup_result: self.cleanup.take(),
                    inflate_result: inflated,
                    clamp_report: tell(joined(told_so_far, late)),
                };
                self.add_phase(p, Stage::Notifying);
            },
            (Stage::Notifying, Event::Answered { go_on }) => {
                if !go_on {
                    self.stage = Stage::Finishing {
                        reason: TerminationReason::UserAbort,
                        stuck: false,
                    };
                } else {
                    self.stage = match self.detector.check(num) {
                        Some(reason) => Stage::Finishing { reason, stuck: true },
                        None => Stage::PostBudget,
                    };
                }
            },
            (Stage::PostBudget, Event::Measured { layers, total }) => {
                match check_size(&self.cfg, layers, total) {
                    Some(reason) => {
                        self.stage = Stage::Finishing { reason, stuck: false };
                    },
                    None => {
                        if wants_merit(&self.cfg) {
                            self.stage = Stage::PostBudgetMerit;
                        } else {
                            self.go_on();
                        }
                    },
                }
            },
            (Stage::PostBudgetMerit, Event::Evaluated { mf }) => {
                match check_merit(&self.cfg, mf) {
                    Some(reason) => {
                        self.stage = Stage::Finishing { reason, stuck: false };
                    },
                    None => {
                        self.go_on();
                    },
                }
            },
            (Stage::Finishing { reason, stuck }, Event::Optimized) => {
                self.stage = Stage::FinalSweep { reason, stuck };
            },
            (Stage::FinalSweep { reason, stuck }, Event::Swept { clamp }) => {
                self.report = clamp;
                self.stage = Stage::FinalMerit { reason, stuck };
            },
            (Stage::FinalMerit { reason, stuck }, Event::Evaluated { mf }) => {
                self.stage = Stage::FinalMeasure { reason, stuck, mf };
            },
            (Stage::FinalMeasure { reason, stuck, mf }, Event::Measured { layers, total }) => {
                self.stage = Stage::FinalReport { reason, stuck, mf, layers, total };
            },
            (
                Stage::FinalReport { reason, stuck, mf, layers, total },
                Event::Report { report },
            ) => {
                let swept: ClampReport = self.hand_over_report();
                self.end = Some(
                    PipelineEnd {
                        final_mf: mf,
                        final_layer_count: layers,
                        final_total_thickness_nm: total,
                        final_clamp_report: tell(joined(or_blank(report), swept)),
                    },
                );
                self.stage = Stage::Done { reason, stuck };
            },
            _ => {},
        }
        assert(self.state() =~= next(*num, old(self).config(), old(self).watch(), r0, event));
    }
}

/// A run that has just begun.
pub open spec fn fresh<N, C>(cfg: PipelineConfig) -> RunView<N, C> {
    onward(
        cfg,
        RunView {
            stage: Stage::Preflight,
            cycle: 0,
            samples: seq![],
            phases: seq![],
            needled: seq![],
            cleanup: None,
            report: blank(),
            end: None,
        },
    )
}

proof fn first_pinned_bounds<A: Numeric>(
    num: A,
    rows: Seq<crate::structure::LayerView>,
    spans: Seq<crate::structure::span::Span>,
    max_nm: Scalar,
    k: int,
)
    requires
        0 <= k,
    ensures
        pipeline::first_pinned(num, rows, spans, max_nm, k) <= spans.len(),
    decreases spans.len() - k,
{
    if k < spans.len() {
        first_pinned_bounds(num, rows, spans, max_nm, k + 1);
    }
}

} // verus!
