use navette::numeric::{Arith, Numeric};
use navette::scalar::Scalar;

fn s(x: f64) -> Scalar {
    Scalar::from_bits(x.to_bits())
}

#[allow(dead_code)]
fn f(x: Scalar) -> f64 {
    f64::from_bits(x.to_bits())
}

#[allow(dead_code)]
fn sv(v: &[f64]) -> Vec<Scalar> {
    v.iter().map(|x| s(*x)).collect()
}

#[allow(dead_code)]
fn fv(v: &[Scalar]) -> Vec<f64> {
    v.iter().map(|x| f(*x)).collect()
}

#[allow(dead_code)]
fn num() -> impl Numeric {
    Arith {
        plus: |a, b| s(f(a) + f(b)),
        minus: |a, b| s(f(a) - f(b)),
        times: |a, b| s(f(a) * f(b)),
        over: |a, b| s(f(a) / f(b)),
        root: |a| s(f(a).sqrt()),
        count: |n: usize| s(n as f64),
    }
}

use navette::inflate::inflate_design;
use navette::merit::spec::{MeritKey, MeritSpec, MeritTarget};
use navette::merit::{ConstraintKind, CurveId, SimTransform};
use navette::optics::{Optics, Physics};
use navette::pipeline::spectral::SpectralInputs;
use navette::pipeline::machine::{Action, Event, NeedlePipeline, PipelineEnd, PipelinePhaseResult};
use navette::pipeline::run::{run_pipeline, RunFault, Work};
use navette::pipeline::{PipelineConfig, PipelineFault, ThinLayerPolicy};
use navette::stagnation::{StagnationDetector, TerminationReason};
use navette::structure::clamp::ClampReport;
use navette::structure::design::{DesignLayer, DesignWarning, Expansion, Gradient};
use navette::structure::nk_table::NkTable;
use navette::structure::span::Span;
use navette::structure::{DesignStack, LayerSpec};

use std::cell::RefCell;

const NW: usize = 3;

/// A needle cycle says how many needles it was allowed, a cleanup its floor.
type Pipeline = NeedlePipeline<usize, f64>;
type Phase = PipelinePhaseResult<usize, f64>;

fn one_decimal(x: Scalar) -> String {
    format!("{:.1}", f(x))
}

fn end_layer(name: &str, n: f64) -> LayerSpec {
    let mut l = LayerSpec::constant(name, s(n), s(0.0), s(0.0), NW);
    l.optimize = false;
    l
}

fn air() -> LayerSpec {
    end_layer("air", 1.0)
}

fn sub() -> LayerSpec {
    end_layer("sub", 1.52)
}

fn one_film() -> DesignStack {
    let h = LayerSpec::constant("H", s(2.35), s(0.0), s(100.0), NW);
    DesignStack::with_films(air(), sub(), vec![h]).unwrap()
}

fn usual() -> PipelineConfig {
    PipelineConfig {
        max_macro_cycles: 5,
        max_film_layers: 40,
        max_total_thickness_nm: s(10_000.0),
        merit_target: s(0.0),
        needles_per_cycle: 3,
        enable_cleanup: true,
        cleanup_min_nm: None,
        cleanup_max_removals: None,
        enable_inflate: false,
        inflate_addon_qwot: s(1.0),
        inflate_reference_wl: s(500.0),
        inflate_max_layers: None,
        clamp_min_nm: s(2.0),
        clamp_max_nm: s(1000.0),
        thin_layer_policy: ThinLayerPolicy::Remove,
        stagnation_window: 5,
        stagnation_gradient_tol: s(1e-4),
        stagnation_oscillation_ratio: s(0.75),
        stagnation_divergence_count: 3,
    }
}

/// What the run asks of the design it works on.
trait Ctx {
    fn evaluate(&self, st: &DesignStack) -> f64;
    fn optimize(&mut self, st: &mut DesignStack);
}

/// The merit is always 2.5 and the optimizer does nothing.
struct FlatCtx;

impl Ctx for FlatCtx {
    fn evaluate(&self, _: &DesignStack) -> f64 {
        2.5
    }

    fn optimize(&mut self, _: &mut DesignStack) {}
}

struct Outcome {
    termination: TerminationReason,
    stuck: bool,
    phases: Vec<Phase>,
    end: PipelineEnd,
}

fn copied(r: &Option<ClampReport>) -> Option<ClampReport> {
    r.as_ref().map(|r| ClampReport {
        spans_removed: r.spans_removed.clone(),
        spans_capped: r.spans_capped,
        rows_removed: r.rows_removed,
    })
}

fn plus(a: Scalar, b: Scalar) -> Scalar {
    s(f(a) + f(b))
}

fn scale(d: Scalar, bound: Scalar, total: Scalar) -> Scalar {
    s(f(d) * (f(bound) / f(total)))
}

/// Performs the actions of a run until it stops and keeps a list of them. The
/// needle pass inserts nothing; it optimises once.
fn drive_listed(
    p: &mut Pipeline,
    st: &mut DesignStack,
    ctx: &mut dyn Ctx,
    go_on: bool,
    list: &mut Vec<Action>,
) -> Outcome {
    loop {
        let action = p.action();
        list.push(action);
        let event = match action {
            Action::Measure => Event::Measured {
                layers: st.spans().len(),
                total: st.total_thickness_nm(&plus),
            },
            Action::Evaluate => Event::Evaluated { mf: s(ctx.evaluate(st)) },
            Action::TakeReport => Event::Report { report: None },
            Action::Needle { max_needles } => {
                ctx.optimize(st);
                Event::Needled { results: vec![max_needles] }
            }
            Action::Clean { min_nm, .. } => {
                Event::Cleaned { mf: s(ctx.evaluate(st)), outcome: f(min_nm) }
            }
            Action::Inflate { addon_qwot, reference_wl, max_layers } => {
                let result = inflate_design(
                    &num(),
                    st,
                    &sv(&[500.0; NW]),
                    addon_qwot,
                    reference_wl,
                    max_layers,
                    false,
                    &|st: &DesignStack| Ok(s(ctx.evaluate(st))),
                    &|st: DesignStack| (st, Ok(s(0.0))),
                );
                Event::Inflated { result: result.ok().unwrap() }
            }
            Action::Optimize => {
                ctx.optimize(st);
                Event::Optimized
            }
            Action::Sweep { min_nm, max_nm, clamp_up } => {
                let clamp = st.sweep(min_nm, max_nm, clamp_up, &plus, &scale, &one_decimal);
                Event::Swept { clamp: clamp.ok().expect("the sweep succeeds") }
            }
            Action::Notify => Event::Answered { go_on },
            Action::Stop => break,
        };
        assert!(p.accepts(&event));
        p.advance(&num(), event);
    }
    outcome(p)
}

fn outcome(p: &Pipeline) -> Outcome {
    let (termination, stuck) = p.termination().unwrap();
    let e = p.end().unwrap();
    Outcome {
        termination,
        stuck,
        phases: p
            .phases()
            .iter()
            .map(|x| Phase {
                macro_cycle: x.macro_cycle,
                mf_after_needle: x.mf_after_needle,
                mf_after_cleanup: x.mf_after_cleanup,
                mf_after_inflate: x.mf_after_inflate,
                mf_end: x.mf_end,
                layer_count: x.layer_count,
                total_thickness_nm: x.total_thickness_nm,
                needle_results: x.needle_results.clone(),
                cleanup_result: x.cleanup_result,
                inflate_result: x.inflate_result,
                clamp_report: copied(&x.clamp_report),
            })
            .collect(),
        end: PipelineEnd {
            final_mf: e.final_mf,
            final_layer_count: e.final_layer_count,
            final_total_thickness_nm: e.final_total_thickness_nm,
            final_clamp_report: copied(&e.final_clamp_report),
        },
    }
}

/// Runs to the end. The needle pass inserts nothing; it optimises once.
fn drive(p: &mut Pipeline, st: &mut DesignStack, ctx: &mut dyn Ctx, go_on: bool) -> Outcome {
    let ctx = RefCell::new(ctx);
    let work = Work {
        evaluate: |st: &DesignStack| -> Result<Scalar, String> { Ok(s(ctx.borrow().evaluate(st))) },
        optimize: |mut st: DesignStack| -> (DesignStack, Result<Scalar, String>) {
            ctx.borrow_mut().optimize(&mut st);
            let mf = ctx.borrow().evaluate(&st);
            (st, Ok(s(mf)))
        },
        report: || -> Option<ClampReport> { None },
        needle: |mut st: DesignStack, n: usize| -> (DesignStack, Result<Vec<usize>, String>) {
            ctx.borrow_mut().optimize(&mut st);
            (st, Ok(vec![n]))
        },
        clean: |st: DesignStack,
                min: Scalar,
                _: Option<usize>|
         -> (DesignStack, Result<(Scalar, f64), String>) {
            let mf = ctx.borrow().evaluate(&st);
            (st, Ok((s(mf), f(min))))
        },
        goes_on: |_: usize, _: &Phase, _: &StagnationDetector| go_on,
        plus,
        scale,
        one_decimal,
    };
    p.run(&num(), st, &sv(&[500.0; NW]), &work).ok().expect("the run ends");
    outcome(p)
}

fn run_on(mut st: DesignStack, cfg: PipelineConfig, ctx: &mut dyn Ctx, go_on: bool) -> Outcome {
    let Ok(mut p) = Pipeline::new(&num(), &st, cfg) else {
        panic!("refused")
    };
    drive(&mut p, &mut st, ctx, go_on)
}

fn refusal(st: &DesignStack, cfg: PipelineConfig) -> Option<String> {
    match Pipeline::new(&num(), st, cfg) {
        Ok(_) => None,
        Err(e) => Some(e.message(&one_decimal)),
    }
}

/// One film of `rows` equal slices, pinned where it is background.
fn graded(total: f64, rows: usize, background: bool) -> (DesignStack, Vec<DesignWarning>) {
    let mut nk = NkTable::new();
    nk.insert("TiO2", vec![(s(2.35), s(0.0)); NW]);
    let films = vec![DesignLayer {
        material: "TiO2".to_string(),
        thickness: s(total),
        optimize: true,
        needle: true,
        inhomogen: background,
        gradient: None,
    }];
    let bg: Vec<String> = if background { vec!["TiO2".to_string()] } else { Vec::new() };
    let expand = |films: &Vec<DesignLayer>, nk: &NkTable| -> Result<Expansion, String> {
        let row = nk.get(&films[0].material).unwrap();
        Ok(Expansion {
            nk: vec![row.clone(); rows],
            thicknesses: vec![s(total / rows as f64); rows],
            incoherent: vec![false; rows],
            rough_types: vec![0; rows],
            rough_vals: vec![s(0.0); rows],
            spans: vec![Span { start: 0, end: rows, logical: 0, slice: false, bulk_start: 0 }],
        })
    };
    DesignStack::from_design(
        air(),
        sub(),
        &films,
        &nk,
        NW,
        &bg,
        &|_: &Vec<(Scalar, Scalar)>| None,
        &|_: &Gradient| None,
        &|_: &Gradient, d: Scalar| d,
        &|_: &Gradient, a: &Vec<(Scalar, Scalar)>, _: &Vec<(Scalar, Scalar)>, _: Scalar| a.clone(),
        &expand,
    )
    .ok()
    .unwrap()
}

#[test]
fn max_macro_cycles_is_default_termination() {
    let res = run_on(
        one_film(),
        PipelineConfig { max_macro_cycles: 2, ..usual() },
        &mut FlatCtx,
        true,
    );
    assert_eq!(res.termination, TerminationReason::MaxIterationsReached);
    assert_eq!(res.phases.len(), 2);
    assert!((f(res.end.final_mf) - 2.5).abs() < 1e-12);
}

#[test]
fn layer_budget_fires_preflight() {
    let cfg = PipelineConfig { max_macro_cycles: 5, max_film_layers: 1, ..usual() };
    let res = run_on(one_film(), cfg, &mut FlatCtx, true);
    assert_eq!(res.termination, TerminationReason::LayerBudgetReached);
    assert!(res.phases.is_empty());
}

#[test]
fn merit_target_fires_preflight() {
    let cfg = PipelineConfig { max_macro_cycles: 5, merit_target: s(3.0), ..usual() };
    let res = run_on(one_film(), cfg, &mut FlatCtx, true);
    assert_eq!(res.termination, TerminationReason::MeritTargetReached);
    assert!(res.phases.is_empty());
}

#[test]
fn thickness_budget_fires() {
    let cfg = PipelineConfig { max_total_thickness_nm: s(50.0), ..usual() };
    let res = run_on(one_film(), cfg, &mut FlatCtx, true);
    assert_eq!(res.termination, TerminationReason::ThicknessBudgetReached);
}

#[test]
fn callback_error_aborts_as_user_abort() {
    let cfg =
        PipelineConfig { enable_cleanup: false, stagnation_window: usize::MAX, ..usual() };
    let res = run_on(one_film(), cfg, &mut FlatCtx, false);
    assert_eq!(res.termination, TerminationReason::UserAbort);
}

#[test]
fn plateau_terminates_flat_trajectory() {
    let cfg = PipelineConfig {
        enable_cleanup: false,
        stagnation_window: 2,
        max_macro_cycles: 10,
        ..usual()
    };
    let res = run_on(one_film(), cfg, &mut FlatCtx, true);
    assert_eq!(res.termination, TerminationReason::StagnationPlateau);
    assert!(res.stuck);
    assert_eq!(res.phases.len(), 2);
}

#[test]
fn final_optimize_and_clamp_run_after_loop() {
    struct CountingCtx {
        opt_calls: usize,
    }
    impl Ctx for CountingCtx {
        fn evaluate(&self, _: &DesignStack) -> f64 {
            1.0
        }
        fn optimize(&mut self, st: &mut DesignStack) {
            self.opt_calls += 1;
            st.set_thickness(0, s(5000.0)).ok().unwrap();
        }
    }
    let cfg = PipelineConfig {
        clamp_max_nm: s(800.0),
        max_macro_cycles: 1,
        enable_cleanup: false,
        stagnation_window: usize::MAX,
        ..usual()
    };
    let mut ctx = CountingCtx { opt_calls: 0 };
    let res = run_on(one_film(), cfg, &mut ctx, true);
    assert!(ctx.opt_calls >= 2);
    assert!(f(res.end.final_total_thickness_nm) <= 800.0);
}

#[test]
fn f02_budget_counts_spans_not_rows() {
    let (stack, _) = graded(1000.0, 57, true);
    assert_eq!(stack.films().len(), 57);
    assert_eq!(stack.spans().len(), 1);
    let cfg = PipelineConfig {
        max_macro_cycles: 1,
        max_film_layers: 40,
        clamp_max_nm: s(1500.0),
        max_total_thickness_nm: s(10_000.0),
        stagnation_window: usize::MAX,
        ..usual()
    };
    let res = run_on(stack, cfg, &mut FlatCtx, true);
    assert_eq!(res.termination, TerminationReason::MaxIterationsReached);
    assert_eq!(res.phases.len(), 1);
    assert_eq!(res.phases[0].layer_count, 1);
    assert_eq!(res.end.final_layer_count, 1);
}

#[test]
fn f02_new_refuses_pinned_span_above_the_ceiling() {
    let (stack, _) = graded(1000.0, 57, true);
    let err = refusal(&stack, PipelineConfig { clamp_max_nm: s(300.0), ..usual() }).unwrap();
    assert!(err.contains("'TiO2'"), "{err}");
    assert!(err.contains("1000.0"), "{err}");
    assert!(err.contains("300.0"), "{err}");
    let cfg = PipelineConfig {
        clamp_max_nm: s(1500.0),
        max_total_thickness_nm: s(10_000.0),
        ..usual()
    };
    assert!(refusal(&stack, cfg).is_none());
}

#[test]
fn f16_new_builds_scalable_span_above_the_ceiling() {
    let (stack, warns) = graded(1000.0, 57, false);
    assert!(warns.is_empty());
    assert_eq!(stack.films().len(), 57);
    assert!(stack.span_is_scalable(&stack.spans()[0]));
    assert!(refusal(&stack, PipelineConfig { clamp_max_nm: s(300.0), ..usual() }).is_none());
}

#[test]
fn f02_clamp_report_present_only_when_something_happened() {
    let mut pinned = LayerSpec::constant("H", s(2.35), s(0.0), s(100.0), NW);
    pinned.optimize = false;
    pinned.needle = false;
    let cfg = PipelineConfig {
        max_macro_cycles: 1,
        enable_inflate: false,
        clamp_min_nm: s(200.0),
        stagnation_window: usize::MAX,
        ..usual()
    };
    let stack = DesignStack::with_films(air(), sub(), vec![pinned]).unwrap();
    let res = run_on(stack, cfg, &mut FlatCtx, true);
    let rep = res.phases[0].clamp_report.as_ref().unwrap();
    assert_eq!(rep.spans_removed, vec!["H (100.0 nm)".to_string()]);
    assert_eq!(rep.rows_removed, 1);
    assert!(res.end.final_clamp_report.is_none());

    let cfg = PipelineConfig {
        max_macro_cycles: 1,
        enable_inflate: false,
        stagnation_window: usize::MAX,
        ..usual()
    };
    let res = run_on(one_film(), cfg, &mut FlatCtx, true);
    assert!(res.phases[0].clamp_report.is_none());
    assert!(res.end.final_clamp_report.is_none());
}

struct ThinningCtx;

impl Ctx for ThinningCtx {
    fn evaluate(&self, _: &DesignStack) -> f64 {
        1.0
    }

    fn optimize(&mut self, st: &mut DesignStack) {
        st.set_thickness(0, s(0.8)).ok().unwrap();
    }
}

#[test]
fn f03_clamp_up_final_lands_the_film_on_the_floor() {
    for (policy, want_count, want_d) in
        [("remove", 0usize, None), ("clamp_up_final", 1usize, Some(2.0))]
    {
        let cfg = PipelineConfig {
            max_macro_cycles: 1,
            enable_cleanup: false,
            needles_per_cycle: 0,
            stagnation_window: usize::MAX,
            thin_layer_policy: ThinLayerPolicy::parse(policy).unwrap(),
            ..usual()
        };
        let mut st = one_film();
        let Ok(mut p) = Pipeline::new(&num(), &st, cfg) else {
            panic!("refused")
        };
        let res = drive(&mut p, &mut st, &mut ThinningCtx, true);
        assert_eq!(res.end.final_layer_count, want_count, "policy {policy}");
        if let Some(d) = want_d {
            assert!((f(st.films()[0].d_nm) - d as f64).abs() < 1e-12);
        }
        if want_count == 1 {
            assert_eq!(f(res.end.final_mf), ThinningCtx.evaluate(&st));
        }
    }
}

#[test]
fn f03_clamp_up_always_is_refused_alongside_needles() {
    let cfg = PipelineConfig {
        thin_layer_policy: ThinLayerPolicy::ClampUpAlways,
        needles_per_cycle: 3,
        ..usual()
    };
    let err = refusal(&one_film(), cfg).unwrap();
    assert!(err.contains("clamp_up_always"), "{err}");
    assert!(err.contains("needles_per_cycle = 3"), "{err}");
    assert!(err.contains("clamp_up_final"), "{err}");
    let cfg = PipelineConfig { needles_per_cycle: 0, ..cfg };
    assert!(refusal(&one_film(), cfg).is_none());
}

#[test]
fn f03_thin_graded_span_is_removed_whole_under_clamp_up_too() {
    let (mut stack, _) = graded(5.0, 4, true);
    assert_eq!(stack.spans().len(), 1);
    let rep = stack.clamp_all(s(6.0), s(1000.0), true, &plus, &one_decimal).ok().unwrap();
    assert_eq!(rep.spans_removed.len(), 1);
    assert_eq!(rep.rows_removed, 4);
    assert!(stack.films().is_empty());
}

#[test]
fn a_run_can_be_started_again() {
    let cfg = PipelineConfig { max_macro_cycles: 2, ..usual() };
    let mut st = one_film();
    let Ok(mut p) = Pipeline::new(&num(), &st, cfg) else {
        panic!("refused")
    };
    let first = drive(&mut p, &mut st, &mut FlatCtx, true);
    p.restart();
    assert!(p.phases().is_empty());
    assert_eq!(p.detector().count(), 0);
    assert!(p.termination().is_none());
    assert!(p.end().is_none());
    let again = drive(&mut p, &mut st, &mut FlatCtx, true);
    assert_eq!(first.phases.len(), again.phases.len());
}

#[test]
fn a_run_of_no_cycles_only_finishes() {
    let cfg = PipelineConfig { max_macro_cycles: 0, ..usual() };
    let res = run_on(one_film(), cfg, &mut FlatCtx, true);
    assert_eq!(res.termination, TerminationReason::MaxIterationsReached);
    assert!(!res.stuck);
    assert!(res.phases.is_empty());
}

#[test]
fn the_pinned_span_refusal_carries_its_numbers() {
    let (stack, _) = graded(1024.0, 8, true);
    match Pipeline::new(&num(), &stack, PipelineConfig { clamp_max_nm: s(300.0), ..usual() }) {
        Err(PipelineFault::PinnedSpan { material, d_nm, max_nm }) => {
            assert_eq!(material, "TiO2");
            assert_eq!(f(d_nm), 1024.0);
            assert_eq!(f(max_nm), 300.0);
        }
        _ => panic!("a refusal was expected"),
    }
}


#[allow(dead_code)]
fn physics() -> impl Optics {
    Physics {
        log10: |x: Scalar| s(f(x).log10()),
        round: |x: Scalar| s(f(x).round()),
        sine: |a: Scalar| s(f(a).to_radians().sin()),
        turn: |x: Scalar| (s(f(x).cos()), s(-f(x).sin())),
        arg: |re: Scalar, im: Scalar| s(f(im).atan2(f(re))),
        reference_phase: |wl: Scalar, n: Scalar, angle: Scalar, d: Scalar, passes: Scalar| {
            let turn = 2.0 * std::f64::consts::PI;
            s(f(passes) * turn * f(n) * f(d) * f(angle).to_radians().cos() / f(wl))
        },
        reference_wavenumber: |wl: Scalar, n: Scalar, angle: Scalar| {
            let turn = 2.0 * std::f64::consts::PI;
            s(turn * f(n) * f(angle).to_radians().cos() / f(wl))
        },
    }
}

fn reflectance(transform: SimTransform) -> MeritSpec {
    let mut spec = MeritSpec::new();
    spec.add_key(MeritKey { angle: s(30.0), curve: CurveId::Rs });
    spec.add_target(MeritTarget {
        key_idx: 0,
        wavelengths: sv(&[500.0]),
        kind: ConstraintKind::Above,
        transform,
        norm_factor: s(1.0),
        normalized_targets: sv(&[0.5]),
        tolerances: sv(&[0.1]),
        band: Vec::new(),
        phase: false,
        differential_passes: None,
        integral: false,
        weight: s(1.0),
        count_norm: None,
    })
    .ok()
    .unwrap();
    spec
}

#[test]
fn a_spectral_problem_is_folded_without_a_simulation() {
    let angles = sv(&[0.0, 30.0]);
    let wavls = sv(&[400.0, 500.0]);
    let r = SpectralInputs::from_spec(
        &num(),
        &physics(),
        reflectance(SimTransform::Linear),
        angles.clone(),
        wavls.clone(),
    )
    .ok()
    .unwrap();
    assert_eq!(fv(&r.wavls), vec![400.0, 500.0]);
    assert!((f(r.sin_theta[1]) - 0.5).abs() < 1e-15);
    assert_eq!(fv(&r.fold.r.1)[..3], [0.0, 0.0, 0.0]);
    assert!((f(r.fold.r.1[3]) - 100.0).abs() < 1e-9);
    assert!((f(r.fold.r.0[3]) - 0.5).abs() < 1e-14);
    assert_eq!(r.spec.target_count(), 1);
    let e = SpectralInputs::from_spec(
        &num(),
        &physics(),
        reflectance(SimTransform::Log),
        angles,
        wavls,
    )
    .err()
    .unwrap();
    assert_eq!(e.message(), "needle pass requires linear-normalized targets; got Log");
}

#[test]
fn a_finished_run_gives_all_it_has() {
    let signed = |x: Scalar| format!("{:+.2e}", f(x));
    let whole = |x: Scalar| format!("{:.0}", f(x));
    let mut st = one_film();
    let mut cfg = usual();
    cfg.max_macro_cycles = 20;
    let Ok(mut p) = Pipeline::new(&num(), &st, cfg) else {
        panic!("refused")
    };
    let out = drive(&mut p, &mut st, &mut FlatCtx, true);
    assert!(out.stuck);
    let r = p.into_result(&num(), &signed, &whole).unwrap();
    assert_eq!(r.termination, out.termination);
    assert_eq!(r.phases.len(), out.phases.len());
    assert_eq!(f(r.final_mf), 2.5);
    assert_eq!(r.final_layer_count, 1);
    assert_eq!(f(r.final_total_thickness_nm), 100.0);
    assert!(r.final_clamp_report.is_none());
    let words = r.stagnation_detail.unwrap();
    assert!(words.starts_with("StagnationDetector(samples=5, gradient=+0.00e0"), "{words}");
    let Ok(p) = Pipeline::new(&num(), &one_film(), usual()) else {
        panic!("refused")
    };
    assert!(p.into_result(&num(), &signed, &whole).is_none());
}

#[test]
fn the_actions_come_in_their_order() {
    let cfg = PipelineConfig {
        max_macro_cycles: 1,
        needles_per_cycle: 4,
        merit_target: s(1.0),
        cleanup_max_removals: Some(2),
        enable_inflate: true,
        inflate_max_layers: Some(1),
        thin_layer_policy: ThinLayerPolicy::ClampUpFinal,
        ..usual()
    };
    let mut st = one_film();
    let Ok(mut p) = Pipeline::new(&num(), &st, cfg) else {
        panic!("refused")
    };
    let mut list = Vec::new();
    let res = drive_listed(&mut p, &mut st, &mut FlatCtx, true, &mut list);
    let sweep = |clamp_up| Action::Sweep { min_nm: s(2.0), max_nm: s(1000.0), clamp_up };
    assert_eq!(
        list,
        vec![
            Action::Measure,
            Action::Evaluate,
            Action::TakeReport,
            Action::Needle { max_needles: 4 },
            Action::Evaluate,
            Action::Measure,
            Action::Evaluate,
            Action::Clean { min_nm: s(2.0), max_removals: Some(2) },
            sweep(false),
            Action::Inflate {
                addon_qwot: s(1.0),
                reference_wl: s(500.0),
                max_layers: Some(1),
            },
            sweep(false),
            Action::Measure,
            Action::TakeReport,
            Action::Notify,
            Action::Measure,
            Action::Evaluate,
            Action::Optimize,
            sweep(true),
            Action::Evaluate,
            Action::Measure,
            Action::TakeReport,
            Action::Stop,
        ]
    );
    // A quarter wave of 500 nm in an index of 2.35 was added.
    let inflated = res.phases[0].inflate_result.unwrap();
    assert!((f(inflated.total_thickness_after) - 100.0 - 500.0 / 9.4).abs() < 1e-9);
    assert_eq!(res.phases[0].mf_after_inflate.map(f), Some(2.5));
    assert_eq!(f(res.phases[0].total_thickness_nm), f(inflated.total_thickness_after));
    // A floor of its own for the cleanup.
    let cfg = PipelineConfig { cleanup_min_nm: Some(s(7.0)), ..cfg };
    let mut st = one_film();
    let Ok(mut p) = Pipeline::new(&num(), &st, cfg) else {
        panic!("refused")
    };
    let mut list = Vec::new();
    drive_listed(&mut p, &mut st, &mut FlatCtx, true, &mut list);
    assert!(list.contains(&Action::Clean { min_nm: s(7.0), max_removals: Some(2) }));
}

#[test]
fn a_scalable_profile_is_scaled_to_the_bounds() {
    let base = PipelineConfig {
        max_macro_cycles: 1,
        enable_cleanup: false,
        needles_per_cycle: 0,
        stagnation_window: usize::MAX,
        ..usual()
    };
    // Above the ceiling the whole profile comes down; that counts as capped.
    let (mut st, _) = graded(1024.0, 8, false);
    let cfg = PipelineConfig { clamp_max_nm: s(256.0), ..base };
    let Ok(mut p) = Pipeline::new(&num(), &st, cfg) else {
        panic!("refused")
    };
    let res = drive(&mut p, &mut st, &mut FlatCtx, true);
    assert_eq!(fv(&st.films().iter().map(|l| l.d_nm).collect::<Vec<_>>()), vec![32.0; 8]);
    assert_eq!(res.end.final_clamp_report.unwrap().spans_capped, 1);
    // Below the floor it goes up where thin films are raised, else it leaves.
    for (policy, left) in
        [(ThinLayerPolicy::ClampUpFinal, vec![2.0; 4]), (ThinLayerPolicy::Remove, vec![])]
    {
        let (mut st, _) = graded(4.0, 4, false);
        let cfg = PipelineConfig { clamp_min_nm: s(8.0), thin_layer_policy: policy, ..base };
        let Ok(mut p) = Pipeline::new(&num(), &st, cfg) else {
            panic!("refused")
        };
        let res = drive(&mut p, &mut st, &mut FlatCtx, true);
        assert_eq!(fv(&st.films().iter().map(|l| l.d_nm).collect::<Vec<_>>()), left);
        assert_eq!(res.end.final_clamp_report.is_some(), left.is_empty());
    }
    // A pinned profile is refused, and nothing changes.
    let (mut st, _) = graded(1024.0, 8, true);
    let e = st.clamp_all_policy(
        s(2.0),
        s(256.0),
        ThinLayerPolicy::ClampUpAlways,
        true,
        &plus,
        &scale,
        &one_decimal,
    );
    assert!(e.is_err());
    assert_eq!(f(st.total_thickness_nm(&plus)), 1024.0);
}

#[test]
fn only_the_result_of_the_action_is_taken() {
    let Ok(p) = Pipeline::new(&num(), &one_film(), usual()) else {
        panic!("refused")
    };
    assert_eq!(p.action(), Action::Measure);
    assert!(p.accepts(&Event::Measured { layers: 1, total: s(100.0) }));
    assert!(!p.accepts(&Event::Evaluated { mf: s(1.0) }));
    assert!(!p.accepts(&Event::Needled { results: Vec::new() }));
}

#[test]
fn a_phase_holds_what_its_work_gave() {
    let cfg = PipelineConfig {
        max_macro_cycles: 2,
        needles_per_cycle: 4,
        cleanup_min_nm: Some(s(7.0)),
        ..usual()
    };
    let res = run_on(one_film(), cfg, &mut FlatCtx, true);
    assert_eq!(res.phases.len(), 2);
    for p in &res.phases {
        assert_eq!(p.needle_results, vec![4]);
        assert_eq!(p.cleanup_result, Some(7.0));
    }
    // No cleanup, no result of one.
    let res = run_on(one_film(), PipelineConfig { enable_cleanup: false, ..cfg }, &mut FlatCtx, true);
    assert_eq!(res.phases[0].cleanup_result, None);
    // A phase that a budget cuts short keeps its needles.
    struct Growing;
    impl Ctx for Growing {
        fn evaluate(&self, _: &DesignStack) -> f64 {
            1.0
        }
        fn optimize(&mut self, st: &mut DesignStack) {
            st.set_thickness(0, s(600.0)).ok().unwrap();
        }
    }
    let cfg = PipelineConfig { max_total_thickness_nm: s(500.0), ..cfg };
    let res = run_on(one_film(), cfg, &mut Growing, true);
    assert_eq!(res.termination, TerminationReason::ThicknessBudgetReached);
    assert_eq!(res.phases.len(), 1);
    assert_eq!(res.phases[0].needle_results, vec![4]);
    assert_eq!(res.phases[0].cleanup_result, None);
}

/// Work that goes well but for what `fails` names.
fn run_failing(cfg: PipelineConfig, fails: &str, st: &mut DesignStack) -> Result<f64, RunFault> {
    let no = |what: &str| if fails == what { Err(format!("no {what}")) } else { Ok(()) };
    let work = Work {
        evaluate: |st: &DesignStack| -> Result<Scalar, String> {
            no("merit").map(|_| st.total_thickness_nm(&plus))
        },
        optimize: |st: DesignStack| -> (DesignStack, Result<Scalar, String>) {
            (st, no("optimum").map(|_| s(0.5)))
        },
        report: || -> Option<ClampReport> { None },
        needle: |st: DesignStack, _: usize| -> (DesignStack, Result<Vec<usize>, String>) {
            (st, no("needle").map(|_| Vec::new()))
        },
        clean: |st: DesignStack,
                _: Scalar,
                _: Option<usize>|
         -> (DesignStack, Result<(Scalar, f64), String>) {
            (st, no("cleanup").map(|_| (s(0.5), 0.0)))
        },
        goes_on: |_: usize, _: &Phase, _: &StagnationDetector| true,
        plus,
        scale,
        one_decimal,
    };
    run_pipeline(&num(), st, cfg, &sv(&[500.0; NW]), &work).map(|p| f(p.end().unwrap().final_mf))
}

#[test]
fn a_run_ends_with_the_figures_of_its_stack_or_a_fault() {
    let words = |e: RunFault| e.message(&one_decimal, &one_decimal);
    let cfg = PipelineConfig { max_macro_cycles: 1, enable_inflate: true, ..usual() };
    let mut st = one_film();
    let mf = run_failing(cfg, "", &mut st).ok().unwrap();
    assert_eq!(mf, f(st.total_thickness_nm(&plus)));
    assert!((mf - 100.0 - 500.0 / 9.4).abs() < 1e-9);
    for what in ["merit", "optimum", "needle", "cleanup"] {
        let e = run_failing(cfg, what, &mut one_film()).err().unwrap();
        assert_eq!(words(e), format!("no {what}"));
    }
    // A refusal before the run.
    let always =
        PipelineConfig { thin_layer_policy: ThinLayerPolicy::ClampUpAlways, ..cfg };
    let e = run_failing(always, "", &mut one_film()).err().unwrap();
    assert!(words(e).contains("clamp_up_always"));
    // An index that is not positive, and one that is not there.
    let film = |n: f64, nw: usize| LayerSpec::constant("H", s(n), s(0.0), s(100.0), nw);
    let mut st = DesignStack::with_films(air(), sub(), vec![film(-1.0, NW)]).unwrap();
    let e = run_failing(cfg, "", &mut st).err().unwrap();
    assert!(words(e).contains("non-positive"));
}
