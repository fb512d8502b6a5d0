//! What holds of every run of the macro-loop.
use crate::numeric::Numeric;
use crate::pipeline::machine;
use crate::pipeline::machine::{EndView, Event, RunView, Stage};
use crate::pipeline::PipelineConfig;
use crate::scalar;
use crate::scalar::Scalar;
use crate::stagnation::{TerminationReason, Watch};
use crate::structure::clamp::ClampReport;
use vstd::prelude::*;

verus! {

/// The phase of the current cycle is not recorded yet.
pub open spec fn unrecorded(s: Stage) -> bool {
    match s {
        Stage::Preflight | Stage::PreflightMerit | Stage::Opening | Stage::Needling => true,
        Stage::NeedleMerit | Stage::NeedleBudget { .. } => true,
        Stage::NeedleBudgetMerit { .. } | Stage::EarlyReport { .. } => true,
        Stage::Cleaning { .. } | Stage::CleanSweep { .. } => true,
        Stage::Inflating { .. } | Stage::InflateSweep { .. } => true,
        Stage::Recording { .. } | Stage::RecordReport { .. } => true,
        _ => false,
    }
}

/// The loop is over.
pub open spec fn ended(s: Stage) -> bool {
    machine::ending(s) is Some
}

/// There is one phase per completed cycle, numbered from one, and the detector
/// has seen the merit at the end of each.
pub open spec fn books_kept<N, C>(cfg: PipelineConfig, r: RunView<N, C>) -> bool {
    &&& 0 <= r.cycle <= cfg.max_macro_cycles
    &&& unrecorded(r.stage) ==> r.phases.len() == r.cycle - 1
    &&& !unrecorded(r.stage) && !ended(r.stage) ==> r.phases.len() == r.cycle
    &&& r.cycle - 1 <= r.phases.len() <= r.cycle
    &&& forall|i: int| 0 <= i < r.phases.len() ==> (#[trigger] r.phases[i]).macro_cycle == i + 1
    &&& r.samples == r.phases.map_values(|p: machine::PhaseView<N, C>| p.mf_end)
    &&& r.end is Some <==> r.stage is Done
}

/// A run starts with its books in order.
pub proof fn a_fresh_run_keeps_its_books<N, C>(cfg: PipelineConfig)
    ensures
        books_kept(cfg, machine::fresh::<N, C>(cfg)),
{
    let r = machine::fresh::<N, C>(cfg);
    assert(r.samples =~= r.phases.map_values(|p: machine::PhaseView<N, C>| p.mf_end));
}

/// Every step keeps the books in order.
pub proof fn every_step_keeps_the_books<A: Numeric, N, C>(
    num: A,
    cfg: PipelineConfig,
    w: Watch,
    r: RunView<N, C>,
    e: Event<N, C>,
)
    requires
        books_kept(cfg, r),
        machine::answers(machine::action_of(cfg, r.stage), e),
    ensures
        books_kept(cfg, machine::next(num, cfg, w, r, e)),
        machine::next(num, cfg, w, r, e).phases.len() <= cfg.max_macro_cycles,
{
    let n = machine::next(num, cfg, w, r, e);
    assert(n.samples =~= n.phases.map_values(|p: machine::PhaseView<N, C>| p.mf_end));
}

/// How far a stage is from the end of its cycle, at most.
pub open spec fn stages_left(s: Stage) -> int {
    match s {
        Stage::Preflight => 21,
        Stage::PreflightMerit => 20,
        Stage::Opening => 19,
        Stage::Needling => 18,
        Stage::NeedleMerit => 17,
        Stage::NeedleBudget { .. } => 16,
        Stage::NeedleBudgetMerit { .. } => 15,
        Stage::Cleaning { .. } => 14,
        Stage::CleanSweep { .. } => 13,
        Stage::Inflating { .. } => 12,
        Stage::InflateSweep { .. } => 11,
        Stage::Recording { .. } => 10,
        Stage::RecordReport { .. } => 9,
        Stage::EarlyReport { .. } => 9,
        Stage::EarlyNotify { .. } => 8,
        Stage::Notifying => 8,
        Stage::PostBudget => 7,
        Stage::PostBudgetMerit => 6,
        Stage::Finishing { .. } => 5,
        Stage::FinalSweep { .. } => 4,
        Stage::FinalMerit { .. } => 3,
        Stage::FinalMeasure { .. } => 2,
        Stage::FinalReport { .. } => 1,
        Stage::Done { .. } => 0,
    }
}

/// How many steps are left, at most.
pub open spec fn steps_left<N, C>(cfg: PipelineConfig, r: RunView<N, C>) -> int {
    if ended(r.stage) {
        stages_left(r.stage)
    } else {
        (cfg.max_macro_cycles - r.cycle) * 22 + stages_left(r.stage)
    }
}

/// Every run ends: each step leaves fewer to go.
pub proof fn every_step_leaves_fewer<A: Numeric, N, C>(
    num: A,
    cfg: PipelineConfig,
    w: Watch,
    r: RunView<N, C>,
    e: Event<N, C>,
)
    requires
        books_kept(cfg, r),
        machine::answers(machine::action_of(cfg, r.stage), e),
    ensures
        0 <= steps_left(cfg, machine::next(num, cfg, w, r, e)) < steps_left(cfg, r),
{
}

/// A caller who stops the run gets that as the reason, whatever else is due.
pub proof fn a_stopped_run_says_so<A: Numeric, N, C>(num: A, cfg: PipelineConfig, w: Watch, r: RunView<N, C>)
    requires
        r.stage is Notifying || r.stage is EarlyNotify,
    ensures
        machine::next(num, cfg, w, r, (Event::Answered { go_on: false })).stage == (
        Stage::Finishing { reason: TerminationReason::UserAbort, stuck: false }),
{
}

/// A loop that ended for a reason ends the run for that reason, with the
/// phases there are.
pub proof fn the_reason_stays<A: Numeric, N, C>(
    num: A,
    cfg: PipelineConfig,
    w: Watch,
    r: RunView<N, C>,
    e: Event<N, C>,
)
    requires
        ended(r.stage),
        machine::answers(machine::action_of(cfg, r.stage), e),
    ensures
        machine::ending(machine::next(num, cfg, w, r, e).stage) == machine::ending(r.stage),
        machine::next(num, cfg, w, r, e).phases == r.phases,
        machine::next(num, cfg, w, r, e).samples == r.samples,
{
}

/// The caller is shown every phase once, right after it was recorded: a step
/// that records a phase asks the caller next, and no other step does.
pub proof fn each_phase_is_shown_once<A: Numeric, N, C>(
    num: A,
    cfg: PipelineConfig,
    w: Watch,
    r: RunView<N, C>,
    e: Event<N, C>,
)
    requires
        machine::answers(machine::action_of(cfg, r.stage), e),
    ensures
        ({
            let n = machine::next(num, cfg, w, r, e);
            &&& machine::action_of(cfg, n.stage) is Notify <==> n.phases.len() == r.phases.len()
                + 1
            &&& n.phases.len() == r.phases.len() || n.phases.drop_last() == r.phases
        }),
{
    let n = machine::next(num, cfg, w, r, e);
    if n.phases.len() == r.phases.len() + 1 {
        assert(n.phases.drop_last() =~= r.phases);
    }
}

/// The loop ends with one optimization and one clamp pass, the last, which
/// raises thin films where the policy says so; the merit, the layers and the
/// thickness of the result are those found after that pass, and nothing
/// changes the stack in between.
pub proof fn the_end_is_taken_after_the_last_sweep<A: Numeric, N, C>(
    num: A,
    cfg: PipelineConfig,
    w: Watch,
    r: RunView<N, C>,
    swept: ClampReport,
    mf: Scalar,
    layers: usize,
    total: Scalar,
    late: Option<ClampReport>,
)
    requires
        r.stage is Finishing,
    ensures
        ({
            let a = machine::next(num, cfg, w, r, Event::Optimized);
            let b = machine::next(num, cfg, w, a, (Event::Swept { clamp: swept }));
            let c = machine::next(num, cfg, w, b, (Event::Evaluated { mf }));
            let d = machine::next(num, cfg, w, c, (Event::Measured { layers, total }));
            let z = machine::next(num, cfg, w, d, (Event::Report { report: late }));
            &&& machine::action_of(cfg, r.stage) is Optimize
            &&& machine::action_of(cfg, a.stage) == machine::sweep(cfg, true)
            &&& machine::action_of(cfg, b.stage) is Evaluate
            &&& machine::action_of(cfg, c.stage) is Measure
            &&& machine::action_of(cfg, d.stage) is TakeReport
            &&& machine::action_of(cfg, z.stage) is Stop
            &&& z.phases == r.phases
            &&& z.end == Some(
                EndView {
                    final_mf: mf,
                    final_layer_count: layers,
                    final_total_thickness_nm: total,
                    final_clamp_report: machine::worth_telling(
                        machine::together(machine::fetched(late), machine::report_view(swept)),
                    ),
                },
            )
        }),
{
}

/// A run is over only at the end of that way.
pub proof fn there_is_one_way_out<A: Numeric, N, C>(
    num: A,
    cfg: PipelineConfig,
    w: Watch,
    r: RunView<N, C>,
    e: Event<N, C>,
)
    requires
        machine::answers(machine::action_of(cfg, r.stage), e),
    ensures
        ({
            let n = machine::next(num, cfg, w, r, e);
            &&& n.stage is Done ==> r.stage is FinalReport
            &&& n.stage is FinalReport ==> r.stage is FinalMeasure
            &&& n.stage is FinalMeasure ==> r.stage is FinalMerit
            &&& n.stage is FinalMerit ==> r.stage is FinalSweep
            &&& n.stage is FinalSweep ==> r.stage is Finishing
        }),
{
}

/// A clamp pass inside the loop raises thin films only where the policy always
/// does, and every cleanup and every inflation is followed by one.
pub proof fn work_is_swept<A: Numeric, N, C>(
    num: A,
    cfg: PipelineConfig,
    w: Watch,
    r: RunView<N, C>,
    e: Event<N, C>,
)
    requires
        machine::answers(machine::action_of(cfg, r.stage), e),
        machine::action_of(cfg, r.stage) is Clean || machine::action_of(cfg, r.stage) is Inflate,
    ensures
        machine::action_of(cfg, machine::next(num, cfg, w, r, e).stage) == machine::sweep(
            cfg,
            false,
        ),
        machine::sweep(cfg, false)->clamp_up == (cfg.thin_layer_policy is ClampUpAlways),
{
}

/// A budget that is used up at the start ends the run before any work.
pub proof fn a_spent_budget_starts_nothing<A: Numeric, N, C>(
    num: A,
    cfg: PipelineConfig,
    w: Watch,
    layers: usize,
    total: Scalar,
)
    requires
        cfg.max_macro_cycles > 0,
        layers >= cfg.max_film_layers || scalar::at_most(cfg.max_total_thickness_nm, total),
    ensures
        ({
            let n = machine::next(
                num,
                cfg,
                w,
                machine::fresh::<N, C>(cfg),
                (Event::Measured { layers, total }),
            );
            &&& n.stage is Finishing
            &&& n.phases.len() == 0
        }),
{
}

/// The layer budget is named before the thickness budget.
pub proof fn layers_come_before_thickness(cfg: PipelineConfig, layers: usize, total: Scalar)
    requires
        layers >= cfg.max_film_layers,
    ensures
        machine::size_budget(cfg, layers, total) == Some(TerminationReason::LayerBudgetReached),
{
}

} // verus!
