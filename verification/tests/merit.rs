use navette::numeric::{Arith, Numeric};
use navette::scalar::Scalar;

fn s(x: f64) -> Scalar {
    Scalar::from_bits(x.to_bits())
}

#[allow(dead_code)]
fn f(x: Scalar) -> f64 {
    f64::from_bits(x.to_bits())
}

#[allow(dead_code)]
fn sv(v: &[f64]) -> Vec<Scalar> {
    v.iter().map(|x| s(*x)).collect()
}

#[allow(dead_code)]
fn fv(v: &[Scalar]) -> Vec<f64> {
    v.iter().map(|x| f(*x)).collect()
}

#[allow(dead_code)]
fn num() -> impl Numeric {
    Arith {
        plus: |a, b| s(f(a) + f(b)),
        minus: |a, b| s(f(a) - f(b)),
        times: |a, b| s(f(a) * f(b)),
        over: |a, b| s(f(a) / f(b)),
        root: |a| s(f(a).sqrt()),
        count: |n: usize| s(n as f64),
    }
}

use navette::optics::{Optics, Physics};

#[allow(dead_code)]
fn physics() -> impl Optics {
    Physics {
        log10: |x: Scalar| s(f(x).log10()),
        round: |x: Scalar| s(f(x).round()),
        sine: |a: Scalar| s(f(a).to_radians().sin()),
        turn: |x: Scalar| (s(f(x).cos()), s(-f(x).sin())),
        arg: |re: Scalar, im: Scalar| s(f(im).atan2(f(re))),
        reference_phase: |wl: Scalar, n: Scalar, angle: Scalar, d: Scalar, passes: Scalar| {
            let turn = 2.0 * std::f64::consts::PI;
            s(f(passes) * turn * f(n) * f(d) * f(angle).to_radians().cos() / f(wl))
        },
        reference_wavenumber: |wl: Scalar, n: Scalar, angle: Scalar| {
            let turn = 2.0 * std::f64::consts::PI;
            s(turn * f(n) * f(angle).to_radians().cos() / f(wl))
        },
    }
}
use navette::merit::residuals::{reference_rotation, rotate_rows};
use navette::merit::sensitivity::MeritSensitivity;
use navette::merit::sim::{RowError, SimCurves};
use navette::merit::spec::{ColorDemand, MeritKey, MeritSpec, MeritTarget};
use navette::merit::{ConstraintKind, CurveId, SimTransform};
use std::f64::consts::PI;

const NW: usize = 5;

fn no_color(_: usize, _: usize) -> Option<Scalar> {
    None
}

fn merit(spec: &MeritSpec, sim: &SimCurves, penalty: f64) -> f64 {
    f(spec.merit(&num(), &physics(), &no_color, sim, s(penalty)))
}

fn residuals(spec: &MeritSpec, sim: &SimCurves) -> Result<Vec<f64>, CurveId> {
    let mut out = Vec::new();
    spec.residuals(&num(), &physics(), &no_color, sim, &mut out)?;
    Ok(fv(&out))
}

fn empty_sim() -> SimCurves {
    SimCurves::new(
        sv(&[0.0]),
        (0..NW).map(|i| s(400.0 + 100.0 * i as f64)).collect(),
    )
}

fn put(sim: &mut SimCurves, id: CurveId, vals: &[f64]) {
    sim.set_curve(id, sv(vals)).ok().unwrap();
}

fn sim_one_angle(vals: &[f64; NW]) -> SimCurves {
    let mut sim = empty_sim();
    put(&mut sim, CurveId::Rs, vals);
    sim
}

fn key(spec: &mut MeritSpec, angle: f64, curve: CurveId) -> u32 {
    spec.add_key(MeritKey { angle: s(angle), curve }) as u32
}

fn entry(
    key_idx: u32,
    wl: Vec<f64>,
    targets: Vec<f64>,
    tols: Vec<f64>,
    kind: ConstraintKind,
    transform: SimTransform,
    norm_factor: f64,
) -> MeritTarget {
    entry_banded(key_idx, wl, targets, tols, vec![], kind, transform, norm_factor)
}

#[allow(clippy::too_many_arguments)]
fn entry_banded(
    key_idx: u32,
    wl: Vec<f64>,
    targets: Vec<f64>,
    tols: Vec<f64>,
    band: Vec<f64>,
    kind: ConstraintKind,
    transform: SimTransform,
    norm_factor: f64,
) -> MeritTarget {
    MeritTarget {
        key_idx,
        wavelengths: sv(&wl),
        kind,
        transform,
        norm_factor: s(norm_factor),
        normalized_targets: sv(&targets),
        tolerances: sv(&tols),
        band: sv(&band),
        phase: false,
        differential_passes: None,
        integral: false,
        weight: s(1.0),
        count_norm: None,
    }
}

fn entry_phase(
    key_idx: u32,
    wl: Vec<f64>,
    targets: Vec<f64>,
    tols: Vec<f64>,
    kind: ConstraintKind,
    transform: SimTransform,
    norm_factor: f64,
) -> MeritTarget {
    MeritTarget {
        phase: true,
        ..entry(key_idx, wl, targets, tols, kind, transform, norm_factor)
    }
}

fn one_target(curve: CurveId, make: impl FnOnce(u32) -> MeritTarget) -> MeritSpec {
    let mut spec = MeritSpec::new();
    let k = key(&mut spec, 0.0, curve);
    spec.add_target(make(k)).ok().unwrap();
    spec
}

#[test]
fn linear_fold_exact_zero() {
    let nf = 1.0 / 0.75;
    let spec = one_target(CurveId::Rs, |k| {
        entry(
            k,
            vec![400.0, 500.0],
            vec![0.5 * nf, 1.0 * nf],
            vec![0.01, 0.01],
            ConstraintKind::Exact,
            SimTransform::Linear,
            nf,
        )
    });
    assert_eq!(merit(&spec, &sim_one_angle(&[0.5, 1.0, 0.9, 0.8, 0.7]), 1e6), 0.0);
}

#[test]
fn exact_residual_hand_computed() {
    let spec = one_target(CurveId::Rs, |k| {
        entry(
            k,
            vec![400.0],
            vec![0.5],
            vec![0.1],
            ConstraintKind::Exact,
            SimTransform::Linear,
            1.0,
        )
    });
    assert!((merit(&spec, &sim_one_angle(&[0.55, 0., 0., 0., 0.]), 1e6) - 0.25).abs() < 1e-14);
}

#[test]
fn above_below_activation() {
    let mk = |kind| {
        one_target(CurveId::Rs, |k| {
            entry(k, vec![400.0], vec![0.5], vec![0.1], kind, SimTransform::Linear, 1.0)
        })
    };
    let above = mk(ConstraintKind::Above);
    let below = mk(ConstraintKind::Below);
    let sim_hi = sim_one_angle(&[0.6, 0., 0., 0., 0.]);
    let sim_lo = sim_one_angle(&[0.3, 0., 0., 0., 0.]);
    assert_eq!(merit(&above, &sim_hi, 0.0), 0.0);
    assert!((merit(&above, &sim_lo, 0.0) - 4.0).abs() < 1e-14);
    assert_eq!(merit(&below, &sim_lo, 0.0), 0.0);
    assert!((merit(&below, &sim_hi, 0.0) - 1.0).abs() < 1e-14);
}

#[test]
fn residual_vector_zeros_inactive_but_fixed_length() {
    let spec = one_target(CurveId::Rs, |k| {
        entry(
            k,
            vec![400.0, 500.0],
            vec![0.5, 0.5],
            vec![0.1, 0.1],
            ConstraintKind::Above,
            SimTransform::Linear,
            1.0,
        )
    });
    let out = residuals(&spec, &sim_one_angle(&[0.6, 0.3, 0., 0., 0.])).unwrap();
    assert_eq!(out.len(), 2);
    assert_eq!(out[0], 0.0);
    assert!((out[1] - (-2.0)).abs() < 1e-14);
    assert_eq!(spec.n_residuals(), 2);
}

#[test]
fn log_transform_matches_register_metadata() {
    let targets = [0.01_f64, 1.0];
    let log_sum: f64 = targets.iter().map(|v| v.max(1e-12).log10().abs()).sum();
    let avg = log_sum / 2.0;
    let nf = 1.0 / avg.max(1e-12);
    let spec = one_target(CurveId::Rs, |k| {
        entry(
            k,
            vec![400.0],
            vec![targets[0].max(1e-12).log10() * nf],
            vec![0.05],
            ConstraintKind::Exact,
            SimTransform::Log,
            nf,
        )
    });
    assert!(merit(&spec, &sim_one_angle(&[0.01, 0., 0., 0., 0.]), 0.0).abs() < 1e-14);
    let expect = (1.0 * nf / 0.05).powi(2);
    let sim10 = sim_one_angle(&[0.1, 0., 0., 0., 0.]);
    assert!((merit(&spec, &sim10, 0.0) - expect).abs() < 1e-9 * expect);
}

#[test]
fn phase_wrap_no_trig() {
    let spec = one_target(CurveId::Rs, |k| {
        entry(
            k,
            vec![400.0],
            vec![0.0],
            vec![1.0],
            ConstraintKind::Exact,
            SimTransform::Phase,
            1.0,
        )
    });
    let sim = sim_one_angle(&[PI + 0.1, 0., 0., 0., 0.]);
    let expect = (PI - 0.1).powi(2);
    assert!((merit(&spec, &sim, 0.0) - expect).abs() < 1e-12);
}

#[test]
fn misaligned_interpolation_two_pointer() {
    let spec = one_target(CurveId::Rs, |k| {
        entry(
            k,
            vec![450.0, 550.0],
            vec![0.5, 1.5],
            vec![1.0, 1.0],
            ConstraintKind::Exact,
            SimTransform::Linear,
            1.0,
        )
    });
    assert!(merit(&spec, &sim_one_angle(&[0.0, 1.0, 2.0, 3.0, 4.0]), 0.0).abs() < 1e-14);
}

fn plain(k: u32, wl: f64, target: f64, tol: f64) -> MeritTarget {
    entry(
        k,
        vec![wl],
        vec![target],
        vec![tol],
        ConstraintKind::Exact,
        SimTransform::Linear,
        1.0,
    )
}

#[test]
fn extrapolation_clamps_and_overlap_skips() {
    let mut spec = MeritSpec::new();
    let k = key(&mut spec, 0.0, CurveId::Rs);
    spec.add_target(plain(k, 350.0, 0.3, 1.0)).ok().unwrap();
    spec.add_target(plain(k, 900.0, 0.0, 1.0)).ok().unwrap();
    assert_eq!(merit(&spec, &sim_one_angle(&[0.3, 0., 0., 0., 0.]), 0.0), 0.0);
    assert_eq!(spec.n_residuals(), 2);
}

#[test]
fn missing_curve_penalty_once_per_key() {
    let mut spec = MeritSpec::new();
    let k = key(&mut spec, 0.0, CurveId::Tp);
    spec.add_target(plain(k, 400.0, 0.0, 1.0)).ok().unwrap();
    spec.add_target(plain(k, 500.0, 0.0, 1.0)).ok().unwrap();
    let k2 = key(&mut spec, 0.0, CurveId::Rs);
    spec.add_target(plain(k2, 400.0, 0.0, 1.0)).ok().unwrap();
    let sim = sim_one_angle(&[0.0, 0., 0., 0., 0.]);
    assert_eq!(merit(&spec, &sim, 123.0), 123.0);
    assert!(matches!(residuals(&spec, &sim), Err(CurveId::Tp)));
}

#[test]
fn angle_row_argmin_semantics() {
    let mut sim = SimCurves::new(sv(&[0.0, 30.0, 60.0]), sv(&[500.0]));
    put(&mut sim, CurveId::Ru, &[10.0, 20.0, 30.0]);
    let mut spec = MeritSpec::new();
    let k = key(&mut spec, 25.0, CurveId::Ru);
    spec.add_target(plain(k, 500.0, 20.0, 0.5)).ok().unwrap();
    let out = residuals(&spec, &sim).unwrap();
    assert_eq!(out.len(), 1);
    assert!(out[0].abs() < 1e-14);
}

#[test]
fn aligned_fast_path_agrees_with_interp_path() {
    let vals = [0.31, 0.52, 0.66, 0.71, 0.90];
    let spec_a = one_target(CurveId::Rs, |k| plain(k, 500.0, 0.42, 0.07));
    let r_aligned = residuals(&spec_a, &sim_one_angle(&vals)).unwrap()[0];
    let mut shifted = SimCurves::new(
        sv(&[0.0]),
        (0..NW).map(|i| s(400.0 + 100.0 * i as f64 + 1e-11 * i as f64)).collect(),
    );
    put(&mut shifted, CurveId::Rs, &vals);
    let spec_u = one_target(CurveId::Rs, |k| plain(k, 500.0 + 1e-11, 0.42, 0.07));
    let r_interp = residuals(&spec_u, &shifted).unwrap()[0];
    assert!((r_aligned - r_interp).abs() < 1e-9);
}

fn banded(band: Vec<f64>, kind: ConstraintKind) -> MeritSpec {
    one_target(CurveId::Rs, |k| {
        entry_banded(
            k,
            vec![400.0],
            vec![0.5],
            vec![0.1],
            band,
            kind,
            SimTransform::Linear,
            1.0,
        )
    })
}

fn at(x: f64) -> SimCurves {
    sim_one_angle(&[x, 0., 0., 0., 0.])
}

#[test]
fn range_box_dead_band() {
    let spec = banded(vec![0.05], ConstraintKind::Range);
    assert_eq!(merit(&spec, &at(0.5), 0.0), 0.0);
    assert_eq!(merit(&spec, &at(0.53), 0.0), 0.0);
    assert!((merit(&spec, &at(0.6), 0.0) - 0.25).abs() < 1e-14);
    let bare = banded(vec![], ConstraintKind::Range);
    assert_eq!(merit(&bare, &at(0.55), 0.0), 0.0);
    assert!((merit(&bare, &at(0.7), 0.0) - 1.0).abs() < 1e-14);
}

#[test]
fn centerband_soft_box() {
    let spec = banded(vec![0.05], ConstraintKind::CenterBand);
    assert_eq!(merit(&spec, &at(0.5), 0.0), 0.0);
    assert!((merit(&spec, &at(0.52), 0.0) - 0.16).abs() < 1e-14);
    assert!((merit(&spec, &at(0.55), 0.0) - 1.0).abs() < 1e-14);
    assert!((merit(&spec, &at(0.6), 0.0) - 1.25).abs() < 1e-14);
    let bare = banded(vec![], ConstraintKind::CenterBand);
    assert!((merit(&bare, &at(0.6), 0.0) - 1.0).abs() < 1e-14);
}

#[test]
fn merit_two_keys_no_double_count() {
    let mut spec = MeritSpec::new();
    let k0 = key(&mut spec, 0.0, CurveId::Rs);
    spec.add_target(plain(k0, 400.0, 0.5, 0.1)).ok().unwrap();
    let k1 = key(&mut spec, 0.0, CurveId::Rp);
    spec.add_target(plain(k1, 400.0, 0.5, 0.1)).ok().unwrap();
    let mut sim = at(0.6);
    put(&mut sim, CurveId::Rp, &[0.6, 0., 0., 0., 0.]);
    assert!((merit(&spec, &sim, 1e6) - 2.0).abs() < 1e-14);
}

#[test]
fn absorption_derived_from_companions() {
    let spec = one_target(CurveId::As, |k| plain(k, 400.0, 0.1, 0.05));
    let mut sim = empty_sim();
    put(&mut sim, CurveId::Rs, &[0.6, 0., 0., 0., 0.]);
    put(&mut sim, CurveId::Ts, &[0.3, 0., 0., 0., 0.]);
    assert!(merit(&spec, &sim, 1e6) < 1e-28);
    let out = residuals(&spec, &sim).unwrap();
    assert_eq!(out.len(), 1);
    assert!(out[0].abs() < 1e-14);
    let mut sim = empty_sim();
    put(&mut sim, CurveId::Rs, &[0.6, 0., 0., 0., 0.]);
    assert_eq!(merit(&spec, &sim, 123.0), 123.0);
    assert!(matches!(residuals(&spec, &sim), Err(CurveId::As)));
    let spec_u = one_target(CurveId::Au, |k| plain(k, 400.0, 0.2, 0.1));
    put(&mut sim, CurveId::Ru, &[0.5, 0., 0., 0., 0.]);
    put(&mut sim, CurveId::Tu, &[0.3, 0., 0., 0., 0.]);
    assert!(merit(&spec_u, &sim, 1e6) < 1e-28);
    let mut sim = empty_sim();
    put(&mut sim, CurveId::Tu, &[0.3, 0., 0., 0., 0.]);
    assert!(matches!(residuals(&spec_u, &sim), Err(CurveId::Au)));
}

fn polar(r: f64, a: f64) -> (Scalar, Scalar) {
    (s(r * a.cos()), s(r * a.sin()))
}

fn first_only(z: (Scalar, Scalar)) -> Vec<(Scalar, Scalar)> {
    let mut v = vec![(s(0.0), s(0.0)); NW];
    v[0] = z;
    v
}

#[test]
fn phase_demand_samples_argument() {
    let spec = one_target(CurveId::Rs, |k| {
        entry_phase(
            k,
            vec![400.0],
            vec![0.3],
            vec![0.05],
            ConstraintKind::Exact,
            SimTransform::Linear,
            1.0,
        )
    });
    let mut sim = empty_sim();
    sim.set_complex(CurveId::Rs, first_only(polar(0.5, 0.3))).ok().unwrap();
    assert!(merit(&spec, &sim, 1e6) < 1e-28);
    let bare = empty_sim();
    assert_eq!(merit(&spec, &bare, 123.0), 123.0);
    assert!(matches!(residuals(&spec, &bare), Err(CurveId::Rs)));
}

#[test]
fn phase_demand_wraps_in_phase_mode() {
    let spec = one_target(CurveId::Ts, |k| {
        entry_phase(
            k,
            vec![400.0],
            vec![0.3],
            vec![0.05],
            ConstraintKind::Exact,
            SimTransform::Phase,
            1.0,
        )
    });
    let mut sim = empty_sim();
    let z = polar(0.7, 0.3 - 0.01 + std::f64::consts::TAU);
    sim.set_complex(CurveId::Ts, first_only(z)).ok().unwrap();
    assert!((merit(&spec, &sim, 1e6) - 0.04).abs() < 1e-12);
}

#[test]
fn phase_on_absorption_rejected() {
    let mut spec = MeritSpec::new();
    for curve in [CurveId::As, CurveId::Ru] {
        let k = key(&mut spec, 0.0, curve);
        let t = entry_phase(
            k,
            vec![400.0],
            vec![0.0],
            vec![0.1],
            ConstraintKind::Exact,
            SimTransform::Linear,
            1.0,
        );
        assert!(spec.add_target(t).is_err());
    }
}

fn entry_pd(k: u32, target: f64, passes: f64) -> MeritTarget {
    MeritTarget {
        differential_passes: Some(s(passes)),
        ..entry_phase(
            k,
            vec![400.0],
            vec![target],
            vec![0.05],
            ConstraintKind::Exact,
            SimTransform::Phase,
            1.0,
        )
    }
}

fn sim_pd() -> SimCurves {
    let mut sim = empty_sim();
    sim.total_d = s(100.0);
    sim.n_front_re = s(1.0);
    sim.n_back_re = s(1.0);
    sim.set_complex(CurveId::Ts, first_only(polar(0.7, 0.3))).ok().unwrap();
    sim
}

#[test]
fn differential_phase_subtracts_reference() {
    let delta = 0.3 - PI / 2.0;
    let spec = one_target(CurveId::Ts, |k| entry_pd(k, delta, 1.0));
    assert!(spec.uses_phase() && spec.uses_differential());
    let sim = sim_pd();
    assert!(merit(&spec, &sim, 1e6) < 1e-28);
    let abs_spec = one_target(CurveId::Ts, |k| MeritTarget {
        differential_passes: None,
        ..entry_pd(k, delta, 1.0)
    });
    let m_abs = merit(&abs_spec, &sim, 1e6);
    let expect = ((0.3 - delta) / 0.05).powi(2);
    assert!((m_abs - expect).abs() < 1e-9, "m_abs={m_abs} expect={expect}");
}

#[test]
fn differential_phase_zero_d_is_absolute() {
    let spec = one_target(CurveId::Ts, |k| entry_pd(k, 0.3, 1.0));
    let mut sim = sim_pd();
    sim.total_d = s(0.0);
    assert!(merit(&spec, &sim, 1e6) < 1e-28);
}

#[test]
fn differential_phase_passes_scale() {
    let spec = one_target(CurveId::Ts, |k| entry_pd(k, 0.3 - PI, 2.0));
    assert!(merit(&spec, &sim_pd(), 1e6) < 1e-28);
}

#[test]
fn differential_validation() {
    let mut spec = MeritSpec::new();
    let k = key(&mut spec, 0.0, CurveId::Ts);
    let mut t = plain(k, 400.0, 0.0, 0.1);
    t.differential_passes = Some(s(1.0));
    assert!(spec.add_target(t).is_err());
    for bad in [-1.0, f64::NAN, f64::INFINITY] {
        assert!(spec.add_target(entry_pd(k, 0.0, bad)).is_err(), "passes={bad}");
    }
}

#[test]
fn weight_and_count_scale_merit() {
    let mk = |weight: f64, count: Option<f64>| {
        one_target(CurveId::Rs, |k| MeritTarget {
            weight: s(weight),
            count_norm: count.map(s),
            ..entry(
                k,
                vec![400.0, 500.0],
                vec![0.5, 0.5],
                vec![0.1, 0.1],
                ConstraintKind::Exact,
                SimTransform::Linear,
                1.0,
            )
        })
    };
    let sim = sim_one_angle(&[0.6, 0.4, 0.0, 0.0, 0.0]);
    assert!((merit(&mk(1.0, None), &sim, 1e6) - 2.0).abs() < 1e-12);
    let sw = mk(2.0, None);
    assert!((merit(&sw, &sim, 1e6) - 4.0).abs() < 1e-12);
    let out = residuals(&sw, &sim).unwrap();
    assert!((out[0].abs() - 2.0f64.sqrt()).abs() < 1e-12);
    assert!((merit(&mk(1.0, Some(2.0)), &sim, 1e6) - 1.0).abs() < 1e-12);
    assert!((merit(&mk(3.0, Some(2.0)), &sim, 1e6) - 3.0).abs() < 1e-12);
    for (w, c) in [(-1.0, None), (f64::NAN, None), (1.0, Some(0.0)), (1.0, Some(-2.0))] {
        let mut sx = MeritSpec::new();
        let kx = key(&mut sx, 0.0, CurveId::Rs);
        let tx = MeritTarget {
            weight: s(w),
            count_norm: c.map(s),
            ..plain(kx, 400.0, 0.5, 0.1)
        };
        assert!(sx.add_target(tx).is_err(), "w={w} c={c:?}");
    }
}

fn entry_integral(k: u32, kind: ConstraintKind) -> MeritTarget {
    MeritTarget {
        integral: true,
        ..entry(
            k,
            vec![400.0, 500.0, 600.0],
            vec![0.5, 0.5, 0.5],
            vec![0.1, 0.1, 0.1],
            kind,
            SimTransform::Linear,
            1.0,
        )
    }
}

#[test]
fn integral_mean_single_residual() {
    let spec = one_target(CurveId::Rs, |k| entry_integral(k, ConstraintKind::Exact));
    let sim = sim_one_angle(&[0.6, 0.5, 0.4, 0.0, 0.0]);
    assert!(merit(&spec, &sim, 1e6) < 1e-28);
    assert_eq!(residuals(&spec, &sim).unwrap().len(), 1);
    let sim2 = sim_one_angle(&[0.7, 0.6, 0.5, 0.0, 0.0]);
    assert!((merit(&spec, &sim2, 1e6) - 1.0).abs() < 1e-12);
}

#[test]
fn integral_kinds_mask_the_mean() {
    let spec = one_target(CurveId::Rs, |k| entry_integral(k, ConstraintKind::Above));
    assert!(merit(&spec, &sim_one_angle(&[0.7, 0.7, 0.4, 0.0, 0.0]), 1e6) < 1e-28);
    let sim_lo = sim_one_angle(&[0.4, 0.4, 0.4, 0.0, 0.0]);
    assert!((merit(&spec, &sim_lo, 1e6) - 1.0).abs() < 1e-12);
    let spec_r = one_target(CurveId::Rs, |k| MeritTarget {
        band: sv(&[0.05, 0.05, 0.05]),
        ..entry_integral(k, ConstraintKind::Range)
    });
    assert!(merit(&spec_r, &sim_one_angle(&[0.54, 0.54, 0.54, 0.0, 0.0]), 1e6) < 1e-28);
    let sim_out = sim_one_angle(&[0.6, 0.6, 0.6, 0.0, 0.0]);
    assert!((merit(&spec_r, &sim_out, 1e6) - 0.25).abs() < 1e-12);
}

#[test]
fn integral_rejects_count_norm() {
    let mut spec = MeritSpec::new();
    let k = key(&mut spec, 0.0, CurveId::Rs);
    let mut t = entry_integral(k, ConstraintKind::Exact);
    t.count_norm = Some(s(3.0));
    assert!(spec.add_target(t).is_err());
}

#[test]
fn back_intensity_and_absorption() {
    let mut spec = MeritSpec::new();
    let kr = key(&mut spec, 0.0, CurveId::RBs);
    spec.add_target(plain(kr, 400.0, 0.4, 0.05)).ok().unwrap();
    let ka = key(&mut spec, 0.0, CurveId::ABs);
    spec.add_target(plain(ka, 400.0, 0.1, 0.05)).ok().unwrap();
    let mut sim = empty_sim();
    put(&mut sim, CurveId::RBs, &[0.4, 0., 0., 0., 0.]);
    put(&mut sim, CurveId::TBs, &[0.5, 0., 0., 0., 0.]);
    assert!(merit(&spec, &sim, 1e6) < 1e-28);
}

#[test]
fn band_length_mismatch_rejected() {
    let mut spec = MeritSpec::new();
    let k = key(&mut spec, 0.0, CurveId::Rs);
    let t = entry_banded(
        k,
        vec![400.0],
        vec![0.0],
        vec![1.0],
        vec![0.1, 0.2],
        ConstraintKind::Range,
        SimTransform::Linear,
        1.0,
    );
    assert!(spec.add_target(t).is_err());
}

fn rotation(wl: &[f64], angle: f64, n: f64, d: f64, passes: f64) -> Vec<(Scalar, Scalar)> {
    reference_rotation(&physics(), &sv(wl), s(angle), s(n), s(d), s(passes))
}

#[test]
fn rotation_kernel_values() {
    let rot = rotation(&[1000.0], 0.0, 1.0, 250.0, 1.0);
    assert!((f(rot[0].0) - 0.0).abs() < 1e-15);
    assert!((f(rot[0].1) + 1.0).abs() < 1e-15);
    let mut rows = vec![(s(1.0), s(0.0)); 3];
    rotate_rows(&num(), &mut rows, &rot).ok().unwrap();
    assert!((f(rows[0].1) + 1.0).abs() < 1e-15);
    rows.truncate(2);
    assert!(rotate_rows(&num(), &mut rows, &rot).is_ok());
    let mut bad = vec![(s(1.0), s(0.0)); 2];
    let rot2 = rotation(&[1000.0, 500.0, 250.0], 0.0, 1.0, 0.0, 1.0);
    let e = rotate_rows(&num(), &mut bad, &rot2).err().unwrap();
    assert_eq!(e.message(), "rotate_rows: 2 entries not a multiple of 3 wavelengths.");
}

#[test]
fn curve_setters_validate() {
    let mut sim = SimCurves::new(sv(&[0.0]), sv(&[500.0, 600.0]));
    assert!(sim.set_curve(CurveId::Rs, sv(&[0.1, 0.2])).is_ok());
    assert!(sim.set_curve(CurveId::Rs, sv(&[0.1])).is_err());
    assert!(sim.set_curve(CurveId::As, sv(&[0.1, 0.2])).is_err());
    assert!(sim.set_complex(CurveId::Rs, vec![(s(1.0), s(0.0)); 2]).is_ok());
    assert!(sim.set_complex(CurveId::Ru, vec![(s(1.0), s(0.0)); 2]).is_err());
    let words = |r: Result<(), RowError>| r.err().unwrap().message();
    assert_eq!(
        words(sim.set_curve(CurveId::As, sv(&[0.1, 0.2]))),
        "absorption id 'As': absorptance derives from companions, nothing to store"
    );
    assert_eq!(
        words(sim.set_curve(CurveId::Rs, sv(&[0.1]))),
        "curve 'Rs': 1 entries != 2 grid points."
    );
    let pair = |n: usize| vec![(s(1.0), s(0.0)); n];
    assert_eq!(
        words(sim.set_complex(CurveId::Rs, pair(3))),
        "complex curve 'Rs': 3 entries != 2 grid points."
    );
    assert_eq!(
        words(sim.set_complex(CurveId::Ru, pair(2))),
        "complex row for 'Ru': phase needs s/p R/T keys"
    );
    assert_eq!(
        words(sim.set_complex(CurveId::TBu, pair(2))),
        "complex row for 'TBu': back-phase needs s/p keys"
    );
}

#[test]
fn length_mismatch_and_bad_key_rejected() {
    let mut spec = MeritSpec::new();
    key(&mut spec, 0.0, CurveId::Rs);
    let t = entry(
        0,
        vec![400.0],
        vec![0.0, 0.0],
        vec![1.0],
        ConstraintKind::Exact,
        SimTransform::Linear,
        1.0,
    );
    assert!(spec.add_target(t).is_err());
    assert!(spec.add_target(plain(7, 400.0, 0.0, 1.0)).is_err());
}

#[test]
fn color_missing_curve_takes_one_penalty() {
    let mut spec = MeritSpec::new();
    let k = key(&mut spec, 0.0, CurveId::Rs);
    spec.add_color_demand(ColorDemand { key_idx: k, id: 0 }).ok().unwrap();
    spec.add_target(plain(0, 400.0, 0.5, 0.01)).ok().unwrap();
    assert_eq!(spec.n_residuals(), 1 + 1);
    let full = sim_one_angle(&[0.5; NW]);
    let color = |_: usize, _: usize| Some(s(0.25));
    assert!(f(spec.merit(&num(), &physics(), &color, &full, s(1e6))).is_finite());
    let mut out = Vec::new();
    assert!(spec.residuals(&num(), &physics(), &color, &full, &mut out).is_ok());
    assert_eq!(out.len(), 2);
    assert_eq!(f(out[1]), 0.25);
    let empty = empty_sim();
    assert_eq!(f(spec.merit(&num(), &physics(), &color, &empty, s(1e6))), 1e6);
    assert_eq!(
        spec.residuals(&num(), &physics(), &color, &empty, &mut out).unwrap_err(),
        CurveId::Rs
    );
}

// ---------------------------------------------------------------------------
// Sensitivity
// ---------------------------------------------------------------------------

const SW: usize = 9;
const SA: usize = 2;

fn swl() -> Vec<f64> {
    (0..SW).map(|i| 500.0 + 25.0 * i as f64).collect()
}

fn sim_of(rs: &[f64], ts: &[f64]) -> SimCurves {
    let mut sim = SimCurves::new(sv(&[0.0, 30.0]), sv(&swl()));
    sim.total_d = s(400.0);
    sim.n_back_re = s(1.52);
    put(&mut sim, CurveId::Rs, rs);
    put(&mut sim, CurveId::Ts, ts);
    sim
}

fn base_sim() -> SimCurves {
    let rs: Vec<f64> = (0..SA * SW).map(|k| 0.08 + 0.05 * ((k as f64) * 0.7).sin()).collect();
    let ts: Vec<f64> = (0..SA * SW).map(|k| 0.80 + 0.04 * ((k as f64) * 0.4).cos()).collect();
    sim_of(&rs, &ts)
}

fn target(
    key_idx: u32,
    grid: Vec<f64>,
    kind: ConstraintKind,
    transform: SimTransform,
    integral: bool,
    weight: f64,
) -> MeritTarget {
    let n = grid.len();
    MeritTarget {
        integral,
        weight: s(weight),
        ..entry_banded(
            key_idx,
            grid,
            vec![0.05; n],
            vec![0.02; n],
            vec![0.01; n],
            kind,
            transform,
            1.0,
        )
    }
}

fn bumped(base: &SimCurves, curve: CurveId, flat: usize, h: f64) -> SimCurves {
    let mut rs = fv(base.curve(CurveId::Rs).unwrap());
    let mut ts = fv(base.curve(CurveId::Ts).unwrap());
    match curve {
        CurveId::Rs => rs[flat] += h,
        CurveId::Ts => ts[flat] += h,
        other => panic!("unexpected curve {other:?}"),
    }
    sim_of(&rs, &ts)
}

fn fd_column(spec: &MeritSpec, sim: &SimCurves, curve: CurveId, flat: usize) -> Vec<f64> {
    let h = 1e-7;
    let plus = residuals(spec, &bumped(sim, curve, flat, h)).unwrap();
    let minus = residuals(spec, &bumped(sim, curve, flat, -h)).unwrap();
    plus.iter().zip(&minus).map(|(p, m)| (p - m) / (2.0 * h)).collect()
}

fn analytic_column(s: &MeritSensitivity, curve: CurveId, flat: usize) -> Vec<f64> {
    s.rows
        .iter()
        .map(|terms| {
            terms
                .iter()
                .filter(|t| t.curve == curve && t.angle_row * SW + t.wavelength == flat)
                .map(|t| f(t.d_residual))
                .sum()
        })
        .collect()
}

fn sensitivity(spec: &MeritSpec, sim: &SimCurves) -> Result<MeritSensitivity, CurveId> {
    spec.curve_sensitivity(&num(), &physics(), sim)
}

fn compare(spec: &MeritSpec, sim: &SimCurves, tol: f64, label: &str) {
    let sens = sensitivity(spec, sim).unwrap();
    assert_eq!(sens.rows.len(), residuals(spec, sim).unwrap().len(), "{label}: row count");
    assert!(sens.is_complete(), "{label}: uncovered {:?}", sens.uncovered);
    let mut checked = 0usize;
    for curve in [CurveId::Rs, CurveId::Ts] {
        for flat in 0..SA * SW {
            let fd = fd_column(spec, sim, curve, flat);
            let an = analytic_column(&sens, curve, flat);
            let scale = fd.iter().fold(1.0f64, |a, v| a.max(v.abs()));
            for (i, (a, g)) in an.iter().zip(&fd).enumerate() {
                let dev = (a - g).abs() / scale;
                assert!(dev < tol, "{label}: row {i}, {curve:?}[{flat}]: {a} vs {g}");
                if g.abs() > 1e-9 {
                    checked += 1;
                }
            }
        }
    }
    assert!(checked > 0, "{label}: every finite difference was zero");
}

#[test]
fn sensitivity_is_a_finite_difference_of_residuals() {
    for kind in [
        ConstraintKind::Exact,
        ConstraintKind::Above,
        ConstraintKind::Below,
        ConstraintKind::Range,
        ConstraintKind::CenterBand,
    ] {
        for transform in [SimTransform::Linear, SimTransform::Log] {
            let mut spec = MeritSpec::new();
            let k = key(&mut spec, 30.0, CurveId::Rs);
            let mut t = target(k, swl(), kind, transform, false, 1.7);
            let level = if transform == SimTransform::Log { 0.08f64.log10() } else { 0.08 };
            t.normalized_targets = sv(&[level; SW]);
            spec.add_target(t).ok().unwrap();
            compare(&spec, &base_sim(), 1e-6, &format!("{kind:?}/{transform:?}"));
        }
    }
}

#[test]
fn sensitivity_covers_the_integral_mean_row() {
    let spec = one_target(CurveId::Rs, |k| {
        target(k, swl(), ConstraintKind::Exact, SimTransform::Linear, true, 3.0)
    });
    assert_eq!(spec.n_residuals(), 1);
    compare(&spec, &base_sim(), 1e-6, "integral/Exact");
}

#[test]
fn sensitivity_covers_absorption_through_both_companions() {
    let mut spec = MeritSpec::new();
    let k = key(&mut spec, 30.0, CurveId::As);
    spec.add_target(target(
        k,
        swl(),
        ConstraintKind::Exact,
        SimTransform::Linear,
        false,
        1.0,
    ))
    .ok()
    .unwrap();
    let sim = base_sim();
    compare(&spec, &sim, 1e-6, "absorption");
    let sens = sensitivity(&spec, &sim).unwrap();
    let curves: Vec<CurveId> = sens.rows[0].iter().map(|t| t.curve).collect();
    assert!(curves.contains(&CurveId::Rs) && curves.contains(&CurveId::Ts));
    assert!(sens.rows[0].iter().all(|t| f(t.d_residual) < 0.0));
}

#[test]
fn sensitivity_covers_an_interpolated_target_grid() {
    let grid: Vec<f64> = (0..7).map(|i| 512.0 + 31.0 * i as f64).collect();
    let sim = base_sim();
    for transform in [SimTransform::Linear, SimTransform::Log] {
        let spec = one_target(CurveId::Rs, |k| {
            let mut t = target(k, grid.clone(), ConstraintKind::Exact, transform, false, 1.0);
            if transform == SimTransform::Log {
                t.normalized_targets = sv(&vec![0.08f64.log10(); grid.len()]);
            }
            t
        });
        compare(&spec, &sim, 1e-6, &format!("interpolated/{transform:?}"));
        let sens = sensitivity(&spec, &sim).unwrap();
        assert!(sens.rows.iter().any(|r| r.len() == 2));
    }
}

#[test]
fn sensitivity_covers_several_keys_targets_and_angles_at_once() {
    let mut spec = MeritSpec::new();
    let k0 = key(&mut spec, 0.0, CurveId::Rs);
    let k1 = key(&mut spec, 30.0, CurveId::Ts);
    let lin = SimTransform::Linear;
    for t in [
        target(k0, swl(), ConstraintKind::Exact, lin, false, 1.0),
        target(k0, swl()[2..6].to_vec(), ConstraintKind::Below, lin, true, 2.5),
        target(k1, swl(), ConstraintKind::CenterBand, lin, false, 0.4),
    ] {
        spec.add_target(t).ok().unwrap();
    }
    compare(&spec, &base_sim(), 1e-6, "multi-key");
}

#[test]
fn a_target_grid_that_misses_the_simulation_contributes_no_rows() {
    let mut spec = MeritSpec::new();
    let k = key(&mut spec, 0.0, CurveId::Rs);
    let lin = SimTransform::Linear;
    for t in [
        target(k, vec![1200.0, 1300.0], ConstraintKind::Exact, lin, false, 1.0),
        target(k, swl(), ConstraintKind::Exact, lin, false, 1.0),
    ] {
        spec.add_target(t).ok().unwrap();
    }
    let sim = base_sim();
    let sens = sensitivity(&spec, &sim).unwrap();
    assert_eq!(sens.rows.len(), residuals(&spec, &sim).unwrap().len());
    compare(&spec, &sim, 1e-6, "grid-miss");
}

#[test]
fn a_phase_target_is_reported_uncovered_not_zero() {
    let spec = one_target(CurveId::Rs, |k| MeritTarget {
        phase: true,
        ..target(k, swl(), ConstraintKind::Exact, SimTransform::Phase, false, 1.0)
    });
    let mut sim = base_sim();
    let cplx: Vec<(Scalar, Scalar)> = (0..SA * SW)
        .map(|k| {
            let x = k as f64;
            (s(0.3 * (x * 0.3).cos()), s(0.2 * (x * 0.5).sin()))
        })
        .collect();
    sim.set_complex(CurveId::Rs, cplx).ok().unwrap();
    let sens = sensitivity(&spec, &sim).unwrap();
    assert!(!sens.is_complete());
    assert_eq!(sens.uncovered.len(), SW);
    assert_eq!(sens.rows.len(), spec.n_residuals());
    assert!(sens.rows.iter().all(|r| r.is_empty()));
}

#[test]
fn a_missing_curve_errors_where_the_residual_pass_errors() {
    let spec = one_target(CurveId::Rp, |k| {
        target(k, swl(), ConstraintKind::Exact, SimTransform::Linear, false, 1.0)
    });
    let sim = base_sim();
    assert_eq!(residuals(&spec, &sim).unwrap_err(), CurveId::Rp);
    assert_eq!(sensitivity(&spec, &sim).unwrap_err(), CurveId::Rp);
}

#[test]
fn the_weight_and_count_normalization_ride_through() {
    let build = |weight: f64, count: Option<f64>| {
        one_target(CurveId::Rs, |k| MeritTarget {
            count_norm: count.map(s),
            ..target(k, swl(), ConstraintKind::Exact, SimTransform::Linear, false, weight)
        })
    };
    let sim = base_sim();
    let a = sensitivity(&build(1.0, None), &sim).unwrap();
    let b = sensitivity(&build(9.0, Some(4.0)), &sim).unwrap();
    let ratio = (9.0f64 / 4.0).sqrt();
    for (ra, rb) in a.rows.iter().zip(&b.rows) {
        for (ta, tb) in ra.iter().zip(rb) {
            let (x, y) = (f(ta.d_residual), f(tb.d_residual));
            assert!((y - x * ratio).abs() <= 1e-14 * y.abs().max(1.0), "{y} vs {}", x * ratio);
        }
    }
    compare(&build(9.0, Some(4.0)), &sim, 1e-6, "weighted");
}

#[test]
fn an_inactive_constraint_has_no_terms_at_all() {
    let spec = one_target(CurveId::Rs, |k| MeritTarget {
        normalized_targets: sv(&[10.0; SW]),
        ..target(k, swl(), ConstraintKind::Below, SimTransform::Linear, false, 1.0)
    });
    let sim = base_sim();
    let sens = sensitivity(&spec, &sim).unwrap();
    assert!(sens.is_complete());
    assert!(sens.rows.iter().all(|r| r.is_empty()), "{:?}", sens.rows);
    assert!(residuals(&spec, &sim).unwrap().iter().all(|v| *v == 0.0));
}

#[test]
fn the_refusals_of_a_target_read_as_they_should() {
    let show = |x: Scalar| format!("{}", f(x));
    let mut spec = MeritSpec::new();
    let k = key(&mut spec, 0.0, CurveId::Ts);
    let mut t = plain(k, 400.0, 0.0, 0.1);
    t.weight = s(-1.0);
    let e = spec.add_target(t).err().unwrap().message(&show);
    assert!(e.contains("-1"), "{e}");
    let e = spec.add_color_demand(ColorDemand { key_idx: 4, id: 0 }).err().unwrap();
    assert_eq!(e.message(&show), "key_idx 4 out of range (1 keys registered)");
}

#[test]
fn the_merit_is_the_squared_rows_and_a_penalty_per_missing_group() {
    let mut spec = MeritSpec::new();
    for curve in [CurveId::Rs, CurveId::Tp, CurveId::Rp] {
        let k = key(&mut spec, 0.0, curve);
        spec.add_target(plain(k, 500.0, 0.25, 0.5)).ok().unwrap();
        spec.add_target(plain(k, 600.0, 0.75, 0.25)).ok().unwrap();
    }
    let mut sim = SimCurves::new(sv(&[0.0]), sv(&[500.0, 600.0]));
    put(&mut sim, CurveId::Rs, &[0.5, 0.5]);
    put(&mut sim, CurveId::Rp, &[1.0, 1.0]);
    // Rows of the first and the last group; the middle one lacks its curve.
    let rows = [0.25 / 0.5, -0.25 / 0.25, 0.75 / 0.5, 0.25 / 0.25];
    let squares: f64 = rows.iter().map(|r| r * r).sum();
    assert_eq!(merit(&spec, &sim, 100.0), squares + 100.0);
    assert_eq!(residuals(&spec, &sim).err(), Some(CurveId::Tp));
    assert_eq!(sensitivity(&spec, &sim).err(), Some(CurveId::Tp));
    put(&mut sim, CurveId::Tp, &[0.25, 0.75]);
    let all = residuals(&spec, &sim).ok().unwrap();
    assert_eq!(all, vec![0.5, -1.0, 0.0, 0.0, 1.5, 1.0]);
    assert_eq!(merit(&spec, &sim, 100.0), all.iter().map(|r| r * r).sum::<f64>());
}
