use navette::numeric::{Arith, Numeric};
use navette::scalar::Scalar;

fn s(x: f64) -> Scalar {
    Scalar::from_bits(x.to_bits())
}

#[allow(dead_code)]
fn f(x: Scalar) -> f64 {
    f64::from_bits(x.to_bits())
}

#[allow(dead_code)]
fn sv(v: &[f64]) -> Vec<Scalar> {
    v.iter().map(|x| s(*x)).collect()
}

#[allow(dead_code)]
fn fv(v: &[Scalar]) -> Vec<f64> {
    v.iter().map(|x| f(*x)).collect()
}

#[allow(dead_code)]
fn num() -> impl Numeric {
    Arith {
        plus: |a, b| s(f(a) + f(b)),
        minus: |a, b| s(f(a) - f(b)),
        times: |a, b| s(f(a) * f(b)),
        over: |a, b| s(f(a) / f(b)),
        root: |a| s(f(a).sqrt()),
        count: |n: usize| s(n as f64),
    }
}

use navette::optics::{Optics, Physics};

#[allow(dead_code)]
fn physics() -> impl Optics {
    Physics {
        log10: |x: Scalar| s(f(x).log10()),
        round: |x: Scalar| s(f(x).round()),
        sine: |a: Scalar| s(f(a).to_radians().sin()),
        turn: |x: Scalar| (s(f(x).cos()), s(-f(x).sin())),
        arg: |re: Scalar, im: Scalar| s(f(im).atan2(f(re))),
        reference_phase: |wl: Scalar, n: Scalar, angle: Scalar, d: Scalar, passes: Scalar| {
            let turn = 2.0 * std::f64::consts::PI;
            s(f(passes) * turn * f(n) * f(d) * f(angle).to_radians().cos() / f(wl))
        },
        reference_wavenumber: |wl: Scalar, n: Scalar, angle: Scalar| {
            let turn = 2.0 * std::f64::consts::PI;
            s(turn * f(n) * f(angle).to_radians().cos() / f(wl))
        },
    }
}
use navette::merit::sim::SimCurves;
use navette::merit::spec::{ColorDemand, MeritKey, MeritSpec, MeritTarget};
use navette::merit::{ConstraintKind, CurveId, SimTransform};
use navette::needle_pass::buckets::{build_needle_targets, NeedleTargets};
use navette::needle_pass::fold::NeedleFault;
use navette::needle_pass::interp::interp_clamped;
use navette::needle_pass::scan::{
    needle_pass_scan, run_needle_pass, Kernel, NeedlePassInput, NeedlePassResult, ScanFault,
};
use navette::needle_pass::point::{Drive, PointInputs};
use navette::needle_pass::sites::{build_scan_sites, ScanSite};
use navette::structure::span::Span;
use navette::structure::LayerSpec;
use std::f64::consts::{PI, TAU};

const NW: usize = 6;
const NL: usize = 5;
const TEST_WAVLS: [f64; NW] = [400.0, 500.0, 600.0, 700.0, 800.0, 900.0];

fn plus(a: Scalar, b: Scalar) -> Scalar {
    s(f(a) + f(b))
}

fn steps(d: Scalar, step: Scalar) -> i32 {
    (f(d) / f(step)) as i32
}

fn multiple(k: i32, step: Scalar) -> Scalar {
    s(k as f64 * f(step))
}

fn no_color(_: usize, _: usize) -> Result<Vec<(usize, Scalar)>, String> {
    Ok(Vec::new())
}

fn fold_of(
    spec: &MeritSpec,
    wavs: &[f64],
    sim: Option<&SimCurves>,
) -> Result<NeedleTargets, NeedleFault> {
    build_needle_targets(&num(), &physics(), &no_color, spec, &sv(&[0.0]), &sv(wavs), sim)
}

fn merit(spec: &MeritSpec, sim: &SimCurves) -> f64 {
    f(spec.merit(&num(), &physics(), &|_, _| None, sim, s(1e6)))
}

fn sites_of(films: &Vec<LayerSpec>, step: f64) -> Vec<ScanSite> {
    build_scan_sites(films, &Vec::new(), s(step), &steps, &multiple, &plus)
}

fn film(name: &str, n: f64, d: f64) -> LayerSpec {
    LayerSpec::constant(name, s(n), s(0.0), s(d), NW)
}

/// air | H(40) L(30) H(50) | substrate
struct Stack {
    cache: Vec<Scalar>,
    thicknesses: Vec<Scalar>,
    rough_types: Vec<i32>,
    rough_vals: Vec<Scalar>,
    wavls: Vec<Scalar>,
    sin_theta: Vec<Scalar>,
    needle_n: Vec<(Scalar, Scalar)>,
}

fn test_stack() -> Stack {
    let n_re = [1.0, 2.35, 1.46, 2.35, 1.52];
    let mut cache = Vec::new();
    for _ in 0..NW {
        for n in n_re {
            cache.push(s(n));
            cache.push(s(0.0));
        }
    }
    Stack {
        cache,
        thicknesses: sv(&[0.0, 40.0, 30.0, 50.0, 0.0]),
        rough_types: vec![0; NL],
        rough_vals: sv(&[0.0; NL]),
        wavls: sv(&TEST_WAVLS),
        sin_theta: sv(&[0.0]),
        needle_n: vec![(s(1.46), s(0.0)); NW],
    }
}

fn test_films() -> Vec<LayerSpec> {
    vec![film("H", 2.35, 40.0), film("L", 1.46, 30.0), film("H", 2.35, 50.0)]
}

fn pass_input<'a>(st: &'a Stack, fold: &'a NeedleTargets) -> NeedlePassInput<'a> {
    NeedlePassInput {
        n_stack_cache: &st.cache,
        thicknesses: &st.thicknesses,
        rough_types: &st.rough_types,
        rough_vals: &st.rough_vals,
        n_layers: NL,
        wavls: &st.wavls,
        sin_theta: &st.sin_theta,
        fold,
        needle_n_per_wav: &st.needle_n,
        start_idx: 0,
        end_idx: NL - 1,
        calc_s: true,
        calc_p: false,
    }
}

fn zero_pair() -> (Vec<Scalar>, Vec<Scalar>) {
    (sv(&[0.0; NW]), sv(&[0.0; NW]))
}

fn fold_r(targets: &[f64], weights: &[f64]) -> NeedleTargets {
    NeedleTargets {
        r: (sv(targets), sv(weights)),
        t: zero_pair(),
        a: zero_pair(),
        rb: zero_pair(),
        tb: zero_pair(),
        ab: zero_pair(),
        phi: vec![zero_pair(), zero_pair(), zero_pair(), zero_pair()],
        phi_gain_shift: sv(&[0.0; 4]),
        grad_r: sv(&[0.0; NW]),
        grad_t: sv(&[0.0; NW]),
    }
}

/// A response at normal incidence: both polarizations answer alike, and a
/// gradient rides the reflection response.
fn kernel_of() -> impl Fn(&PointInputs, Drive) -> Vec<Scalar> {
    |p: &PointInputs, d: Drive| {
        let drive = match d.kernel {
            Kernel::R => f(d.weight) * (0.25 - f(d.target.unwrap())),
            Kernel::GradR | Kernel::GradT => f(d.weight),
            _ => 0.0,
        };
        p.depths
            .iter()
            .map(|z| s(drive * (f(*z) * 2.0 * TAU / f(p.wavelength)).cos()))
            .collect()
    }
}

fn scan(
    st: &Stack,
    fold: &NeedleTargets,
    sites: &Vec<ScanSite>,
    calc_s: bool,
    calc_p: bool,
) -> Result<NeedlePassResult, ScanFault> {
    let mut inp = pass_input(st, fold);
    inp.calc_s = calc_s;
    inp.calc_p = calc_p;
    needle_pass_scan(&inp, sites, &kernel_of(), &plus)
}

#[test]
fn scan_sites_mirror_python_loop() {
    let mut x = film("X", 1.0, 7.0);
    x.needle = false;
    let films = vec![film("H", 2.35, 10.0), x, film("L", 1.46, 5.0)];
    let got: Vec<(usize, f64, f64)> = sites_of(&films, 2.0)
        .iter()
        .map(|z| (z.film_idx, f(z.depth_into_layer_nm), f(z.z_nm)))
        .collect();
    assert_eq!(
        got,
        vec![
            (0, 2.0, 2.0),
            (0, 4.0, 4.0),
            (0, 6.0, 6.0),
            (0, 8.0, 8.0),
            (2, 2.0, 19.0),
        ]
    );
}

#[test]
fn dual_pol_equals_sum_of_branches() {
    let st = test_stack();
    let fold = fold_r(&[0.02; NW], &[50.0; NW]);
    let films = test_films();
    let run = |calc_s: bool, calc_p: bool| {
        let mut inp = pass_input(&st, &fold);
        inp.calc_s = calc_s;
        inp.calc_p = calc_p;
        run_needle_pass(
            &inp,
            &films,
            &Vec::new(),
            s(3.0),
            &steps,
            &multiple,
            &kernel_of(),
            &plus,
        )
        .ok()
        .unwrap()
    };
    let s_only = run(true, false);
    let p_only = run(false, true);
    let both = run(true, true);
    assert!(!both.p_profile.is_empty());
    for i in 0..both.p_profile.len() {
        let sum = f(s_only.p_profile[i]) + f(p_only.p_profile[i]);
        assert!((f(both.p_profile[i]) - sum).abs() < 1e-9 * sum.abs().max(1e-30) + 1e-18);
    }
    assert!(s_only.best().is_some());
}

#[test]
fn best_selects_most_negative_site() {
    let st = test_stack();
    let fold = fold_r(&[0.01; NW], &[200.0; NW]);
    let films = test_films();
    let res = run_needle_pass(
        &pass_input(&st, &fold),
        &films,
        &Vec::new(),
        s(2.0),
        &steps,
        &multiple,
        &kernel_of(),
        &plus,
    )
    .ok()
    .unwrap();
    let (site, p) = res.best().expect("expected an improving site");
    let p = f(p);
    assert!(p < 0.0);
    assert_eq!(p, fv(&res.p_profile).iter().cloned().fold(f64::INFINITY, f64::min));
    let film_top: f64 = films[..site.film_idx].iter().map(|l| f(l.d_nm)).sum();
    let depth = f(site.depth_into_layer_nm);
    assert!(depth > 0.0 && depth < f(films[site.film_idx].d_nm));
    assert!((f(site.z_nm) - (film_top + depth)).abs() < 1e-12);
}

#[test]
fn a_kernel_is_asked_with_the_inputs_of_its_point() {
    let mut st = test_stack();
    st.sin_theta = sv(&[0.0, 0.5]);
    for (i, x) in st.cache.iter_mut().enumerate() {
        *x = s(i as f64);
    }
    for (i, n) in st.needle_n.iter_mut().enumerate() {
        *n = (s(1.0 + i as f64), s(-(i as f64)));
    }
    let zeros = || (sv(&[0.0; 2 * NW]), sv(&[0.0; 2 * NW]));
    let mut fold = NeedleTargets {
        r: zeros(),
        t: zeros(),
        a: zeros(),
        rb: zeros(),
        tb: zeros(),
        ab: zeros(),
        phi: vec![zeros(), zeros()],
        phi_gain_shift: sv(&[0.0; 2]),
        grad_r: zeros().0,
        grad_t: zeros().0,
    };
    // Point 8 is the second angle at the third wavelength.
    let k = NW + 2;
    (fold.t.0[k], fold.t.1[k]) = (s(0.7), s(3.0));
    fold.grad_r[k] = s(-2.0);
    (fold.phi[1].0[k], fold.phi[1].1[k]) = (s(0.1), s(4.0));
    let mut inp = pass_input(&st, &fold);
    inp.calc_p = true;
    let sites = sites_of(&test_films(), 10.0);
    let seen = std::cell::RefCell::new(Vec::new());
    let kernel = |p: &PointInputs, d: Drive| {
        let indices: Vec<(f64, f64)> = p.indices.iter().map(|n| (f(n.0), f(n.1))).collect();
        let base = (2 * NL * 2) as f64;
        let wanted: Vec<(f64, f64)> =
            (0..NL).map(|l| (base + 2.0 * l as f64, base + 2.0 * l as f64 + 1.0)).collect();
        assert_eq!(indices, wanted);
        assert_eq!((f(p.wavelength), f(p.sin_theta)), (600.0, 0.5));
        assert_eq!((f(p.needle.0), f(p.needle.1)), (3.0, -2.0));
        assert_eq!(fv(&p.thicknesses), vec![0.0, 40.0, 30.0, 50.0, 0.0]);
        assert_eq!((p.rough_types.len(), p.rough_vals.len()), (NL, NL));
        assert_eq!((p.start_idx, p.end_idx), (0, NL - 1));
        assert_eq!(fv(&p.depths), sites.iter().map(|z| f(z.z_nm)).collect::<Vec<f64>>());
        seen.borrow_mut().push((p.branch, d.kernel, d.target.map(f), f(d.weight)));
        vec![s(1.0); p.depths.len()]
    };
    let res = needle_pass_scan(&inp, &sites, &kernel, &plus).ok().unwrap();
    let phi = Kernel::Phi { ch: 1 };
    assert_eq!(
        *seen.borrow(),
        vec![
            (0, Kernel::T, Some(0.7), 3.0),
            (0, Kernel::GradR, None, -2.0),
            (0, phi, Some(0.1), 4.0),
            (1, Kernel::T, Some(0.7), 3.0),
            (1, Kernel::GradR, None, -2.0),
            (1, phi, Some(0.1), 4.0),
        ]
    );
    assert_eq!(fv(&res.p_profile), vec![6.0; sites.len()]);
}

// -- build_needle_targets -----------------------------------------------

fn plain(
    key_idx: u32,
    wl: &[f64],
    norm_targets: &[f64],
    tols: &[f64],
    band: &[f64],
    nf: f64,
    kind: ConstraintKind,
) -> MeritTarget {
    MeritTarget {
        key_idx,
        wavelengths: sv(wl),
        kind,
        transform: SimTransform::Linear,
        norm_factor: s(nf),
        normalized_targets: sv(norm_targets),
        tolerances: sv(tols),
        band: sv(band),
        phase: false,
        differential_passes: None,
        integral: false,
        weight: s(1.0),
        count_norm: None,
    }
}

fn spec_of(angle: f64, curve: CurveId, t: MeritTarget) -> MeritSpec {
    let mut spec = MeritSpec::new();
    spec.add_key(MeritKey { angle: s(angle), curve });
    spec.add_target(t).ok().unwrap();
    spec
}

fn spec_banded(
    curve: CurveId,
    wl: &[f64],
    norm_targets: &[f64],
    tols: &[f64],
    band: &[f64],
    nf: f64,
    kind: ConstraintKind,
) -> MeritSpec {
    spec_of(0.0, curve, plain(0, wl, norm_targets, tols, band, nf, kind))
}

fn spec_single(
    curve: CurveId,
    wl: &[f64],
    norm_targets: &[f64],
    tols: &[f64],
    nf: f64,
    kind: ConstraintKind,
) -> MeritSpec {
    spec_banded(curve, wl, norm_targets, tols, &[], nf, kind)
}

fn phase_target(wl: &[f64], targets: &[f64], tol: f64) -> MeritTarget {
    MeritTarget {
        transform: SimTransform::Phase,
        phase: true,
        ..plain(
            0,
            wl,
            targets,
            &vec![tol; wl.len()],
            &[],
            1.0,
            ConstraintKind::Exact,
        )
    }
}

fn sim_single(wl: f64, curve: CurveId, val: f64) -> SimCurves {
    let mut sim = SimCurves::new(sv(&[0.0]), sv(&[wl]));
    sim.set_curve(curve, sv(&[val])).ok().unwrap();
    sim
}

fn sim_phase(wl: &[f64], d: f64) -> SimCurves {
    let mut sim = SimCurves::new(sv(&[0.0]), sv(wl));
    sim.total_d = s(d);
    sim.n_front_re = s(1.0);
    sim.n_back_re = s(1.0);
    let z = (s(0.7 * 0.3f64.cos()), s(0.7 * 0.3f64.sin()));
    sim.set_complex(CurveId::Ts, vec![z; wl.len()]).ok().unwrap();
    sim
}

fn ref_of(wl: f64) -> f64 {
    TAU * 100.0 / wl
}

#[test]
fn phi_gain_shift_matches_fd() {
    let tgt: Vec<f64> = [400.0, 500.0].iter().map(|&w| 0.3 - ref_of(w) + 0.01).collect();
    let spec = spec_of(
        0.0,
        CurveId::Ts,
        MeritTarget {
            differential_passes: Some(s(1.0)),
            ..phase_target(&[400.0, 500.0], &tgt, 0.05)
        },
    );
    let mk_sim = |d: f64| sim_phase(&[400.0, 500.0], d);
    let nt = fold_of(&spec, &[400.0, 500.0], Some(&mk_sim(100.0))).ok().unwrap();
    let expect = 8.0 * (TAU / 400.0 + TAU / 500.0);
    let shift = fv(&nt.phi_gain_shift);
    assert!((shift[2] - expect).abs() < 1e-9, "shift={} expect={}", shift[2], expect);
    assert!(shift[0] == 0.0 && shift[1] == 0.0 && shift[3] == 0.0);
    let h = 1e-3;
    let m_hi = merit(&spec, &mk_sim(100.0 + h));
    let m_lo = merit(&spec, &mk_sim(100.0 - h));
    let fd = (m_hi - m_lo) / (2.0 * h);
    assert!((fd - expect).abs() < 1e-6, "fd={fd} expect={expect}");
    assert!((shift[2] - fd).abs() < 1e-6);
    assert!((merit(&spec, &mk_sim(100.0)) - 0.08).abs() < 1e-12);
    assert!((ref_of(400.0) - PI / 2.0).abs() < 1e-15);
}

#[test]
fn fold_applies_weight_and_count() {
    let spec = spec_of(
        0.0,
        CurveId::Rs,
        MeritTarget {
            weight: s(3.0),
            count_norm: Some(s(2.0)),
            ..plain(0, &[400.0], &[0.5], &[0.1], &[], 1.0, ConstraintKind::Exact)
        },
    );
    let nt = fold_of(&spec, &[400.0], None).ok().unwrap();
    assert!((f(nt.r.1[0]) - 150.0).abs() < 1e-9);
    assert!((f(nt.r.0[0]) - 0.5).abs() < 1e-14);
    let pspec = spec_of(
        0.0,
        CurveId::Ts,
        MeritTarget {
            differential_passes: Some(s(1.0)),
            weight: s(2.0),
            ..phase_target(&[400.0], &[0.3 - ref_of(400.0) + 0.01], 0.05)
        },
    );
    let pnt = fold_of(&pspec, &[400.0], Some(&sim_phase(&[400.0], 100.0))).ok().unwrap();
    let expect = -2.0 * (TAU / 400.0) * 800.0 * (-0.01);
    assert!((f(pnt.phi_gain_shift[2]) - expect).abs() < 1e-9);
}

const BAND: [f64; 3] = [400.0, 500.0, 600.0];

fn spec_integral(kind: ConstraintKind) -> MeritSpec {
    spec_of(
        0.0,
        CurveId::Rs,
        MeritTarget {
            integral: true,
            ..plain(0, &BAND, &[0.5; 3], &[0.1; 3], &[], 1.0, kind)
        },
    )
}

fn sim_rs(vals: [f64; 3]) -> SimCurves {
    let mut sim = SimCurves::new(sv(&[0.0]), sv(&BAND));
    sim.set_curve(CurveId::Rs, sv(&vals)).ok().unwrap();
    sim
}

#[test]
fn integral_fold_uniform_gradient() {
    let spec = spec_integral(ConstraintKind::Exact);
    let sim = sim_rs([0.7, 0.6, 0.5]);
    let nt = fold_of(&spec, &BAND, Some(&sim)).ok().unwrap();
    let g = 2.0 * 100.0 * 0.1 / 3.0;
    let (t, w) = (fv(&nt.r.0), fv(&nt.r.1));
    for i in 0..3 {
        assert!((w[i] - 100.0 / 9.0).abs() < 1e-9, "w[{}]={}", i, w[i]);
        let here = [0.7, 0.6, 0.5][i];
        assert!((t[i] - (here - 0.3)).abs() < 1e-12, "t[{}]={}", i, t[i]);
        let gi = 2.0 * w[i] * (here - t[i]);
        assert!((gi - g).abs() < 1e-9, "g[{i}]={gi} expect={g}");
    }
    let h = 1e-6;
    let m_hi = merit(&spec, &sim_rs([0.7 + h, 0.6 + h, 0.5 + h]));
    let m_lo = merit(&spec, &sim_rs([0.7 - h, 0.6 - h, 0.5 - h]));
    let fd = (m_hi - m_lo) / (2.0 * h);
    assert!((fd - 3.0 * g).abs() < 1e-6, "fd={fd} expect={}", 3.0 * g);
}

#[test]
fn integral_range_skips_inband_mean() {
    let spec = spec_integral(ConstraintKind::Range);
    let nt = fold_of(&spec, &BAND, Some(&sim_rs([0.54, 0.54, 0.54]))).ok().unwrap();
    assert!(fv(&nt.r.1).iter().all(|&w| w == 0.0));
    let nt2 = fold_of(&spec, &BAND, Some(&sim_rs([0.7, 0.7, 0.7]))).ok().unwrap();
    for i in 0..3 {
        assert!((f(nt2.r.1[i]) - 100.0 / 9.0).abs() < 1e-9);
        assert!((f(nt2.r.0[i]) - 0.4).abs() < 1e-12);
    }
}

#[test]
fn targets_builder_linear_fold_exact() {
    let nf = 4.0f64 / 3.0;
    let spec = spec_single(
        CurveId::Rs,
        &[400.0, 500.0],
        &[0.5 * nf, 1.0 * nf],
        &[0.01, 0.02],
        nf,
        ConstraintKind::Exact,
    );
    let (tgt, wgt) = fold_of(&spec, &[400.0, 500.0, 600.0], None).ok().unwrap().r;
    let (tgt, wgt) = (fv(&tgt), fv(&wgt));
    assert_eq!(tgt.len(), 3);
    assert!((tgt[0] - 0.5).abs() < 1e-14);
    assert!((tgt[1] - 1.0).abs() < 1e-14);
    assert_eq!(tgt[2], 0.0);
    assert_eq!(wgt[2], 0.0);
    assert!((wgt[0] - nf * nf / (0.01 * 0.01)).abs() < 1e-9);
    assert!((wgt[1] - nf * nf / (0.02 * 0.02)).abs() < 1e-6);
}

#[test]
fn targets_builder_exact_overlap_fold() {
    let mut spec = MeritSpec::new();
    spec.add_key(MeritKey { angle: s(0.0), curve: CurveId::Rp });
    let mk = |norm_t: f64, tol: f64, nf: f64| {
        plain(0, &[500.0], &[norm_t], &[tol], &[], nf, ConstraintKind::Exact)
    };
    let (nfa, nfb) = (2.0_f64, 3.0_f64);
    spec.add_target(mk(0.4 * nfa, 0.1, nfa)).ok().unwrap();
    spec.add_target(mk(0.6 * nfb, 0.2, nfb)).ok().unwrap();
    let (tgt, wgt) = fold_of(&spec, &[500.0], None).ok().unwrap().r;
    let wa = nfa * nfa / 0.01;
    let wb = nfb * nfb / 0.04;
    let expect_t = (wa * 0.4 + wb * 0.6) / (wa + wb);
    assert!((f(tgt[0]) - expect_t).abs() < 1e-12);
    assert!((f(wgt[0]) - (wa + wb)).abs() < 1e-9);
}

#[test]
fn targets_builder_above_masking_uses_current_sim() {
    let spec = spec_single(CurveId::Ru, &[400.0], &[0.5], &[0.1], 1.0, ConstraintKind::Above);
    let sim = sim_single(400.0, CurveId::Ru, 0.7);
    let (tgt, wgt) = fold_of(&spec, &[400.0], Some(&sim)).ok().unwrap().r;
    assert_eq!(f(wgt[0]), 0.0);
    assert_eq!(f(tgt[0]), 0.0);
    let sim = sim_single(400.0, CurveId::Ru, 0.3);
    let (tgt, wgt) = fold_of(&spec, &[400.0], Some(&sim)).ok().unwrap().r;
    assert!(f(wgt[0]) > 0.0);
    assert!((f(tgt[0]) - 0.5).abs() < 1e-14);
}

fn only(spec: &MeritSpec, sim: Option<f64>) -> (f64, f64) {
    let sim = sim.map(|v| sim_single(400.0, CurveId::Rs, v));
    let (t, w) = fold_of(spec, &[400.0], sim.as_ref()).ok().unwrap().r;
    (f(t[0]), f(w[0]))
}

#[test]
fn targets_builder_range_folds_to_edge_or_masks() {
    let kind = ConstraintKind::Range;
    let spec = spec_banded(CurveId::Rs, &[400.0], &[0.5], &[0.1], &[0.05], 1.0, kind);
    assert_eq!(only(&spec, Some(0.52)).1, 0.0);
    let (t, w) = only(&spec, Some(0.6));
    assert!((t - 0.55).abs() < 1e-14);
    assert!((w - 100.0).abs() < 1e-9);
    let (t, w) = only(&spec, Some(0.3));
    assert!((t - 0.45).abs() < 1e-14);
    assert!((w - 100.0).abs() < 1e-9);
    let (t, w) = only(&spec, None);
    assert!((t - 0.5).abs() < 1e-14);
    assert!((w - 100.0).abs() < 1e-9);
}

#[test]
fn targets_builder_centerband_reduced_weight_inside() {
    let kind = ConstraintKind::CenterBand;
    let spec = spec_banded(CurveId::Rs, &[400.0], &[0.5], &[0.1], &[0.05], 1.0, kind);
    let (t, w) = only(&spec, Some(0.52));
    assert!((t - 0.5).abs() < 1e-14);
    assert!((w - 400.0).abs() < 1e-9);
    let (t, w) = only(&spec, Some(0.6));
    assert!((t - 0.55).abs() < 1e-14);
    assert!((w - 100.0).abs() < 1e-9);
}

#[test]
fn targets_builder_transmission_folds_to_t_bucket() {
    let spec = spec_single(CurveId::Ts, &[400.0], &[0.3], &[0.1], 1.0, ConstraintKind::Exact);
    let nt = fold_of(&spec, &[400.0], None).ok().unwrap();
    assert!((f(nt.t.0[0]) - 0.3).abs() < 1e-14);
    assert!((f(nt.t.1[0]) - 100.0).abs() < 1e-9);
    assert_eq!(f(nt.r.1[0]), 0.0);
    assert_eq!(f(nt.a.1[0]), 0.0);
}

#[test]
fn targets_builder_absorption_folds_from_companions() {
    let spec = spec_single(CurveId::As, &[400.0], &[0.2], &[0.1], 1.0, ConstraintKind::Exact);
    let mut sim = sim_single(400.0, CurveId::Rs, 0.6);
    sim.set_curve(CurveId::Ts, sv(&[0.3])).ok().unwrap();
    let nt = fold_of(&spec, &[400.0], Some(&sim)).ok().unwrap();
    assert!((f(nt.a.0[0]) - 0.2).abs() < 1e-14);
    assert!((f(nt.a.1[0]) - 100.0).abs() < 1e-9);
    assert_eq!(f(nt.r.1[0]), 0.0);
    let spec2 = spec_single(CurveId::As, &[400.0], &[0.05], &[0.1], 1.0, ConstraintKind::Above);
    let nt2 = fold_of(&spec2, &[400.0], Some(&sim)).ok().unwrap();
    assert_eq!(f(nt2.a.1[0]), 0.0);
}

#[test]
fn targets_builder_back_buckets() {
    let spec = spec_single(CurveId::RBs, &[400.0], &[0.4], &[0.1], 1.0, ConstraintKind::Exact);
    let nt = fold_of(&spec, &[400.0], None).ok().unwrap();
    assert!((f(nt.rb.0[0]) - 0.4).abs() < 1e-14);
    assert!((f(nt.rb.1[0]) - 100.0).abs() < 1e-9);
    assert_eq!(f(nt.r.1[0]), 0.0);
}

#[test]
fn targets_builder_phase_channel_pairs() {
    for (curve, ch) in [(CurveId::Rs, 0), (CurveId::Ts, 2)] {
        let spec = spec_of(0.0, curve, phase_target(&[400.0], &[1.0], 0.1));
        let nt = fold_of(&spec, &[400.0], None).ok().unwrap();
        assert!((f(nt.phi[ch].0[0]) - 1.0).abs() < 1e-14);
        assert!((f(nt.phi[ch].1[0]) - 100.0).abs() < 1e-9);
        for (i, pair) in nt.phi.iter().enumerate() {
            if i != ch {
                assert_eq!(f(pair.1[0]), 0.0);
            }
        }
    }
    let mut tgt = phase_target(&[400.0], &[1.0], 0.1);
    tgt.transform = SimTransform::Log;
    let spec_log = spec_of(0.0, CurveId::Rs, tgt);
    let e = fold_of(&spec_log, &[400.0], None).err().unwrap();
    assert_eq!(e.message(), "phase demands need linear/phase normalization; got Log");
}

#[test]
fn targets_builder_rejects_log() {
    let mut t = plain(0, &[400.0], &[1.0], &[0.01], &[], 1.0, ConstraintKind::Exact);
    t.transform = SimTransform::Log;
    let spec_log = spec_of(0.0, CurveId::Rs, t);
    let e = fold_of(&spec_log, &[400.0], None).err().unwrap();
    assert_eq!(e.message(), "needle pass requires linear-normalized targets; got Log");
}

#[test]
fn interp_clamped_edges() {
    let xs = sv(&[1.0, 2.0, 3.0]);
    let ys = sv(&[10.0, 20.0, 30.0]);
    let at = |x: f64| f(interp_clamped(&num(), &xs, &ys, s(x)));
    assert_eq!(at(0.5), 10.0);
    assert_eq!(at(9.0), 30.0);
    assert!((at(2.5) - 25.0).abs() < 1e-14);
}

#[test]
fn needle_pass_invalid_inputs_rejected() {
    let st = test_stack();
    let fold = fold_r(&[0.0; NW], &[1.0; NW]);
    let films = vec![film("H", 2.35, 40.0)];
    let run = |inp: &NeedlePassInput, fold: &NeedleTargets| {
        run_needle_pass(
            inp,
            &films,
            &Vec::new(),
            s(2.0),
            &steps,
            &multiple,
            &kernel_of(),
            &plus,
        )
    };
    let mut inp = pass_input(&st, &fold);
    inp.calc_s = false;
    inp.calc_p = false;
    let e = run(&inp, &fold).err().unwrap();
    assert_eq!(e.message(), "no polarization branch enabled");
    let bad_fold = fold_r(&[0.0], &[1.0; NW]);
    let e = run(&pass_input(&st, &bad_fold), &bad_fold).err().unwrap();
    assert_eq!(e.message(), "fold buckets must be angle-major na*nw");
}

// -- color --------------------------------------------------------------

fn color_spec(curve: CurveId) -> MeritSpec {
    let mut spec = MeritSpec::new();
    let k = spec.add_key(MeritKey { angle: s(0.0), curve });
    spec.add_color_demand(ColorDemand { key_idx: k as u32, id: 0 }).ok().unwrap();
    spec
}

fn color_sim(level: f64) -> SimCurves {
    let mut sim = SimCurves::new(sv(&[0.0]), sv(&TEST_WAVLS));
    for curve in [CurveId::Rs, CurveId::Rp, CurveId::Ru] {
        sim.set_curve(curve, sv(&[level; NW])).ok().unwrap();
    }
    sim
}

/// A color response that covers every simulated point.
fn covered(_: usize, _: usize) -> Result<Vec<(usize, Scalar)>, String> {
    Ok((0..NW).map(|j| (j, s(0.3 - 0.7 * j as f64))).collect())
}

fn color_fold(spec: &MeritSpec, sim: Option<&SimCurves>) -> NeedleTargets {
    build_needle_targets(
        &num(),
        &physics(),
        &covered,
        spec,
        &sv(&[0.0]),
        &sv(&TEST_WAVLS),
        sim,
    )
    .ok()
    .unwrap()
}

#[test]
fn color_fold_deposits_half_for_u_and_skips() {
    let spec = color_spec(CurveId::Ru);
    let sim = color_sim(0.5);
    let fold = color_fold(&spec, Some(&sim));
    let pts = covered(0, 0).unwrap();
    assert_eq!(pts.len(), NW);
    for (j, (idx, g)) in pts.iter().enumerate() {
        assert_eq!(*idx, j);
        assert_eq!(f(fold.grad_r[j]), 0.5 * f(*g));
    }
    assert!(fv(&fold.grad_t).iter().all(|&v| v == 0.0));
    assert!(fv(&fold.r.1).iter().all(|&v| v == 0.0));
    let bare = color_fold(&spec, None);
    assert!(fv(&bare.grad_r).iter().all(|&v| v == 0.0));
    let mut noru = SimCurves::new(sv(&[0.0]), sv(&TEST_WAVLS));
    noru.set_curve(CurveId::Rs, sv(&[0.5; NW])).ok().unwrap();
    let skipped = color_fold(&spec, Some(&noru));
    assert!(fv(&skipped.grad_r).iter().all(|&v| v == 0.0));
}

#[test]
fn a_color_failure_names_its_curve() {
    let fails = |_: usize, _: usize| Err("no overlap".to_string());
    let e = build_needle_targets(
        &num(),
        &physics(),
        &fails,
        &color_spec(CurveId::Rs),
        &sv(&[0.0]),
        &sv(&TEST_WAVLS),
        Some(&color_sim(0.5)),
    )
    .err()
    .unwrap();
    assert_eq!(e.message(), "color fold (Rs): no overlap");
}

#[test]
fn u_curve_half_is_sum_of_single_branch_halves() {
    let sim = color_sim(0.5);
    let st = test_stack();
    let films = test_films();
    let run = |spec: &MeritSpec, calc_s: bool, calc_p: bool| {
        let fold = color_fold(spec, Some(&sim));
        let sites = sites_of(&films, 3.0);
        fv(&scan(&st, &fold, &sites, calc_s, calc_p).ok().unwrap().p_profile)
    };
    let p_u = run(&color_spec(CurveId::Ru), true, true);
    let p_s = run(&color_spec(CurveId::Rs), true, false);
    let p_p = run(&color_spec(CurveId::Rp), false, true);
    assert_eq!(p_u.len(), p_s.len());
    assert_eq!(p_u.len(), p_p.len());
    assert!(!p_u.iter().all(|&v| v == 0.0));
    for i in 0..p_u.len() {
        assert_eq!(p_u[i], (p_s[i] + p_p[i]) / 2.0, "site {i}");
    }
}

#[test]
fn grad_buckets_add_across_branches_bitwise() {
    let sim = color_sim(0.5);
    let fold = color_fold(&color_spec(CurveId::Ru), Some(&sim));
    let st = test_stack();
    let sites = sites_of(&vec![film("H", 2.35, 40.0)], 3.0);
    assert!(!sites.is_empty());
    let run = |calc_s: bool, calc_p: bool| {
        fv(&scan(&st, &fold, &sites, calc_s, calc_p).ok().unwrap().p_profile)
    };
    let both = run(true, true);
    let only_s = run(true, false);
    let only_p = run(false, true);
    for i in 0..both.len() {
        assert_eq!(both[i], only_s[i] + only_p[i], "site {i}");
    }
}

#[test]
fn grad_free_fold_is_bitwise_inert() {
    let spec = spec_of(
        0.0,
        CurveId::Rs,
        MeritTarget {
            weight: s(50.0),
            ..plain(
                0,
                &TEST_WAVLS,
                &[0.02; NW],
                &[0.01; NW],
                &[],
                1.0,
                ConstraintKind::Exact,
            )
        },
    );
    let fold = fold_of(&spec, &TEST_WAVLS, None).ok().unwrap();
    assert!(fv(&fold.grad_r).iter().all(|&v| v == 0.0));
    assert!(fv(&fold.grad_t).iter().all(|&v| v == 0.0));
    let st = test_stack();
    let sites = sites_of(&vec![film("H", 2.35, 40.0)], 3.0);
    let via_fold = scan(&st, &fold, &sites, true, false).ok().unwrap().p_profile;
    let manual = fold_r(&fv(&fold.r.0), &fv(&fold.r.1));
    let via_manual = scan(&st, &manual, &sites, true, false).ok().unwrap().p_profile;
    assert!(!via_fold.is_empty());
    assert_eq!(fv(&via_fold), fv(&via_manual));
}

#[test]
fn every_fault_of_a_sweep_has_its_input() {
    let st = test_stack();
    let fold = fold_r(&[0.1; NW], &[1.0; NW]);
    let sites = sites_of(&test_films(), 5.0);
    let fault = |inp: &NeedlePassInput| {
        needle_pass_scan(inp, &sites, &kernel_of(), &plus).err().map(|e| e.message())
    };
    let none: Vec<Scalar> = Vec::new();
    let short: Vec<(Scalar, Scalar)> = Vec::new();
    let mut grads = fold_r(&[0.1; NW], &[1.0; NW]);
    grads.grad_t.truncate(2);
    let words = |e: Option<String>| e.unwrap();
    assert_eq!(
        words(fault(&NeedlePassInput { wavls: &none, ..pass_input(&st, &fold) })),
        "empty spectral/angular grid"
    );
    assert_eq!(
        words(fault(&NeedlePassInput { n_stack_cache: &none, ..pass_input(&st, &fold) })),
        "n_stack_cache layout mismatch"
    );
    assert_eq!(
        words(fault(&NeedlePassInput { rough_vals: &none, ..pass_input(&st, &fold) })),
        "per-layer array length mismatch"
    );
    assert_eq!(
        words(fault(&pass_input(&st, &grads))),
        "fold grad buckets must be angle-major na*nw"
    );
    assert_eq!(
        words(fault(&NeedlePassInput { needle_n_per_wav: &short, ..pass_input(&st, &fold) })),
        "needle_n_per_wav must have one index per wavelength"
    );
    assert_eq!(
        words(fault(&NeedlePassInput { end_idx: NL, ..pass_input(&st, &fold) })),
        "invalid block range"
    );
    assert_eq!(
        words(fault(&NeedlePassInput { end_idx: 1, ..pass_input(&st, &fold) })),
        "block must contain at least one host layer"
    );
    assert!(fault(&pass_input(&st, &fold)).is_none());
}

#[test]
fn graded_spans_host_no_site() {
    let films = vec![film("G", 2.0, 10.0), film("G", 2.1, 10.0), film("L", 1.46, 10.0)];
    let spans = vec![
        Span { start: 0, end: 2, logical: 0, slice: false, bulk_start: 0 },
        Span { start: 2, end: 3, logical: 1, slice: false, bulk_start: 2 },
    ];
    let sites = build_scan_sites(&films, &spans, s(4.0), &steps, &multiple, &plus);
    assert!(sites.iter().all(|z| z.film_idx == 2));
    assert!(!sites.is_empty());
    assert_eq!(f(sites[0].z_nm), 24.0);
}

#[test]
fn a_mean_folds_by_its_kind() {
    let near = |got: &[Scalar], want: [f64; 3]| {
        fv(got).iter().zip(want).all(|(g, w)| (g - w).abs() < 1e-9)
    };
    let above = spec_integral(ConstraintKind::Above);
    let met = fold_of(&above, &BAND, Some(&sim_rs([0.7, 0.7, 0.2]))).ok().unwrap();
    assert!(near(&met.r.1, [0.0; 3]));
    let short = fold_of(&above, &BAND, Some(&sim_rs([0.5, 0.4, 0.3]))).ok().unwrap();
    assert!(near(&short.r.1, [100.0 / 9.0; 3]));
    assert!(near(&short.r.0, [0.8, 0.7, 0.6]));
    let below = spec_integral(ConstraintKind::Below);
    let met = fold_of(&below, &BAND, Some(&sim_rs([0.5, 0.4, 0.3]))).ok().unwrap();
    assert!(near(&met.r.1, [0.0; 3]));
    let bare = fold_of(&below, &BAND, None).ok().unwrap();
    assert!(near(&bare.r.0, [0.5; 3]));
    assert!(near(&bare.r.1, [100.0 / 9.0; 3]));
    let soft = spec_of(
        0.0,
        CurveId::Rs,
        MeritTarget {
            integral: true,
            ..plain(0, &BAND, &[0.5; 3], &[0.1; 3], &[0.05; 3], 1.0, ConstraintKind::CenterBand)
        },
    );
    let inside = fold_of(&soft, &BAND, Some(&sim_rs([0.54, 0.52, 0.5]))).ok().unwrap();
    assert!(near(&inside.r.1, [400.0 / 9.0; 3]));
    assert!(near(&inside.r.0, [0.48, 0.46, 0.44]));
    let outside = fold_of(&soft, &BAND, Some(&sim_rs([0.6, 0.6, 0.6]))).ok().unwrap();
    assert!(near(&outside.r.1, [100.0 / 9.0; 3]));
    assert!(near(&outside.r.0, [0.45; 3]));
}

#[test]
fn a_differential_mean_shifts_the_gain() {
    let wl = [400.0, 500.0];
    let tgt: Vec<f64> = wl.iter().map(|&w| 0.3 - ref_of(w) + 0.01).collect();
    let spec = spec_of(
        0.0,
        CurveId::Ts,
        MeritTarget {
            differential_passes: Some(s(1.0)),
            integral: true,
            ..phase_target(&wl, &tgt, 0.05)
        },
    );
    let nt = fold_of(&spec, &wl, Some(&sim_phase(&wl, 100.0))).ok().unwrap();
    let expect = 4.0 * (TAU / 400.0 + TAU / 500.0);
    assert!((f(nt.phi_gain_shift[2]) - expect).abs() < 1e-9);
    let h = 1e-3;
    let m_hi = merit(&spec, &sim_phase(&wl, 100.0 + h));
    let m_lo = merit(&spec, &sim_phase(&wl, 100.0 - h));
    assert!(((m_hi - m_lo) / (2.0 * h) - expect).abs() < 1e-6);
    let bare = fold_of(&spec, &wl, None).ok().unwrap();
    assert!(fv(&bare.phi_gain_shift).iter().all(|&v| v == 0.0));
}

#[test]
fn pointwise_demands_fold_by_their_kind() {
    let exact = spec_single(CurveId::Rs, &[400.0], &[0.5], &[0.1], 1.0, ConstraintKind::Exact);
    assert_eq!(only(&exact, Some(0.9)).0, 0.5);
    let below = spec_single(CurveId::Rs, &[400.0], &[0.5], &[0.1], 1.0, ConstraintKind::Below);
    assert_eq!(only(&below, Some(0.5)).1, 0.0);
    assert!((only(&below, Some(0.6)).1 - 100.0).abs() < 1e-9);
    let bare = spec_single(CurveId::Rs, &[400.0], &[0.5], &[0.1], 1.0, ConstraintKind::Range);
    assert_eq!(only(&bare, Some(0.59)).1, 0.0);
    assert!((only(&bare, Some(0.7)).0 - 0.6).abs() < 1e-14);
    let soft =
        spec_single(CurveId::Rs, &[400.0], &[0.5], &[0.1], 1.0, ConstraintKind::CenterBand);
    assert!((only(&soft, Some(0.7)).0 - 0.5).abs() < 1e-14);
    assert!((only(&soft, Some(0.7)).1 - 100.0).abs() < 1e-9);
}

#[test]
fn a_simulation_without_the_row_folds_as_none() {
    let kind = ConstraintKind::Range;
    let spec = spec_banded(CurveId::Rs, &[400.0], &[0.5], &[0.1], &[0.05], 1.0, kind);
    let bare = fold_of(&spec, &[400.0], None).ok().unwrap().r;
    // No angle at all, and a wavelength that is no number: neither is read.
    for sim in [
        SimCurves::new(vec![], sv(&[400.0])),
        SimCurves::new(sv(&[0.0]), sv(&[f64::NAN])),
    ] {
        let read = fold_of(&spec, &[400.0], Some(&sim)).ok().unwrap().r;
        assert_eq!((fv(&read.0), fv(&read.1)), (fv(&bare.0), fv(&bare.1)));
    }
}
