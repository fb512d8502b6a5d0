use navette::numeric::{Arith, Numeric};
use navette::scalar::Scalar;

fn s(x: f64) -> Scalar {
    Scalar::from_bits(x.to_bits())
}

fn f(x: Scalar) -> f64 {
    f64::from_bits(x.to_bits())
}

fn sv(v: &[f64]) -> Vec<Scalar> {
    v.iter().map(|x| s(*x)).collect()
}

fn fv(v: &[Scalar]) -> Vec<f64> {
    v.iter().map(|x| f(*x)).collect()
}

fn num() -> impl Numeric {
    Arith {
        plus: |a, b| s(f(a) + f(b)),
        minus: |a, b| s(f(a) - f(b)),
        times: |a, b| s(f(a) * f(b)),
        over: |a, b| s(f(a) / f(b)),
        root: |a| s(f(a).sqrt()),
        count: |n: usize| s(n as f64),
    }
}

use navette::linalg::normal::normal_equation_step;
use navette::linalg::{householder_qr, solve_damped, upper_triangle};
use navette::thick_opt::driver::{levenberg_marquardt, levenberg_marquardt_with};
use navette::thick_opt::fault::Solver;
use navette::thick_opt::model::{ftol_converged, gradient_cosine, predicted_reduction};
use navette::thick_opt::{
    JacobianSource, LmConfig, LmDamping, LmFault, LmTermination, NoJacobian,
};
use std::cell::Cell;

fn show(x: Scalar) -> String {
    format!("{}", f(x))
}

struct Fit {
    x: Vec<f64>,
    cost: f64,
    iterations: usize,
    evals: usize,
    termination: LmTermination,
    gain_ratio: f64,
    analytic_jacobians: usize,
}

fn lm_with<J: JacobianSource>(
    g: &dyn Fn(&[f64]) -> Result<Vec<f64>, String>,
    src: Option<&J>,
    x0: &[f64],
    lb: &[f64],
    ub: &[f64],
    cfg: &LmConfig,
) -> Result<Fit, LmFault> {
    let residuals = |x: &Vec<Scalar>| g(&fv(x)).map(|v| sv(&v));
    levenberg_marquardt_with(&num(), &residuals, src, &sv(x0), &sv(lb), &sv(ub), cfg).map(|r| Fit {
        x: fv(&r.x),
        cost: f(r.cost),
        iterations: r.iterations,
        evals: r.evals,
        termination: r.termination,
        gain_ratio: f(r.gain_ratio),
        analytic_jacobians: r.analytic_jacobians,
    })
}

fn lm(
    g: &dyn Fn(&[f64]) -> Result<Vec<f64>, String>,
    x0: &[f64],
    lb: &[f64],
    ub: &[f64],
    cfg: &LmConfig,
) -> Result<Fit, LmFault> {
    let residuals = |x: &Vec<Scalar>| g(&fv(x)).map(|v| sv(&v));
    levenberg_marquardt(&num(), &residuals, &sv(x0), &sv(lb), &sv(ub), cfg).map(|r| Fit {
        x: fv(&r.x),
        cost: f(r.cost),
        iterations: r.iterations,
        evals: r.evals,
        termination: r.termination,
        gain_ratio: f(r.gain_ratio),
        analytic_jacobians: r.analytic_jacobians,
    })
}

fn cfg_fast() -> LmConfig {
    LmConfig { max_iterations: 200, ..LmConfig::default() }
}

fn cfg_precise() -> LmConfig {
    LmConfig {
        max_iterations: 500,
        ftol: s(1e-16),
        xtol: s(1e-16),
        gtol: s(1e-14),
        ..LmConfig::default()
    }
}

fn grid(flat: &[f64], n: usize) -> Vec<Vec<Scalar>> {
    flat.chunks(n).map(sv).collect()
}

#[test]
fn linear_least_squares_exact_recovery() {
    let xs = [0.0_f64, 1.0, 2.0, 3.0, 4.0];
    let ys = [-1.0, 1.0, 3.0, 5.0, 7.0];
    let g = |x: &[f64]| -> Result<Vec<f64>, String> {
        Ok(xs.iter().zip(&ys).map(|(xi, yi)| x[0] * xi + x[1] - yi).collect())
    };
    let res = lm(&g, &[0.0, 0.0], &[-100., -100.], &[100., 100.], &cfg_precise()).unwrap();
    assert!((res.x[0] - 2.0).abs() < 1e-8, "slope {:?}", res.x);
    assert!((res.x[1] + 1.0).abs() < 1e-8, "intercept {:?}", res.x);
    assert!(res.cost < 1e-18, "cost {}", res.cost);
}

#[test]
fn exponential_fit_nonlinear() {
    let ts = [0.0_f64, 0.5, 1.0, 1.5, 2.0, 3.0];
    let ys: Vec<f64> = ts.iter().map(|&t| 2.0 * (-0.5 * t).exp()).collect();
    let g = move |x: &[f64]| -> Result<Vec<f64>, String> {
        Ok(ts.iter().zip(&ys).map(|(&t, &y)| x[0] * (-x[1] * t).exp() - y).collect())
    };
    let res = lm(&g, &[1.0, 1.0], &[-10., -10.], &[10., 10.], &cfg_fast()).unwrap();
    assert!((res.x[0] - 2.0).abs() < 1e-6, "a {:?}", res.x);
    assert!((res.x[1] - 0.5).abs() < 1e-6, "b {:?}", res.x);
    assert!(res.cost < 1e-20);
}

#[test]
fn bounds_respected_optimum_at_boundary() {
    let g = |x: &[f64]| -> Result<Vec<f64>, String> { Ok(vec![x[0] - 5.0]) };
    let res = lm(&g, &[0.0], &[-10.0], &[3.0], &cfg_fast()).unwrap();
    assert!((res.x[0] - 3.0).abs() < 1e-9, "x {:?}", res.x);
    assert!((res.cost - 4.0).abs() < 1e-9);
    let res_lo = lm(&g, &[8.0], &[7.0], &[20.0], &cfg_fast()).unwrap();
    assert!((res_lo.x[0] - 7.0).abs() < 1e-9);
}

#[test]
fn box_constrained_corner_optimum_two_params() {
    let g = |x: &[f64]| -> Result<Vec<f64>, String> { Ok(vec![x[0] - 2.0, x[1] - 3.0]) };
    let res = lm(&g, &[10.0, 10.0], &[2.5, 3.5], &[100.0, 100.0], &cfg_fast()).unwrap();
    assert!((res.x[0] - 2.5).abs() < 1e-9, "x {:?}", res.x);
    assert!((res.x[1] - 3.5).abs() < 1e-9, "y {:?}", res.x);
    assert!((res.cost - 0.5).abs() < 1e-9);
}

#[test]
fn mixed_interior_and_bound_variables() {
    let g = |x: &[f64]| -> Result<Vec<f64>, String> { Ok(vec![x[0] - 1.0, x[1]]) };
    let res = lm(&g, &[5.0, 0.0], &[-50.0, -50.0], &[50.0, 2.0], &cfg_fast()).unwrap();
    assert!((res.x[0] - 1.0).abs() < 1e-9);
    assert!((res.x[1]).abs() < 1e-9);
}

#[test]
fn residual_error_propagates() {
    let g = |_x: &[f64]| -> Result<Vec<f64>, String> { Err("solver blew up".into()) };
    let err = lm(&g, &[0.0], &[-1.0], &[1.0], &LmConfig::default());
    assert!(err.is_err());
    assert_eq!(
        err.err().unwrap().message(Solver::LevenbergMarquardt, &show),
        "solver blew up"
    );
}

#[test]
fn max_iterations_respected() {
    let g = |x: &[f64]| -> Result<Vec<f64>, String> {
        Ok(vec![1e3 * (x[0] - 1.0), x[0] * x[0] - 1.0])
    };
    let cfg = LmConfig { max_iterations: 3, ..LmConfig::default() };
    let res = lm(&g, &[0.0], &[-10.0], &[10.0], &cfg).unwrap();
    assert!(res.iterations <= 3);
    assert!(matches!(
        res.termination,
        LmTermination::MaxIterations
            | LmTermination::Step
            | LmTermination::Stalled
            | LmTermination::Gradient
    ));
}

#[test]
fn evaluations_stay_within_the_cap() {
    let g = |x: &[f64]| -> Result<Vec<f64>, String> {
        Ok(vec![x[0] - 3.0, x[0] * x[1] - 2.0, x[1].exp() - 2.0])
    };
    for cap in 1..40 {
        let calls = Cell::new(0);
        let counted = |x: &[f64]| {
            calls.set(calls.get() + 1);
            g(x)
        };
        let cfg = LmConfig { max_evals: cap, ..cfg_precise() };
        let res = lm(&counted, &[0.5, 0.5], &[-9.0, -9.0], &[9.0, 9.0], &cfg).unwrap();
        assert!(res.evals <= cap, "{} of {cap}", res.evals);
        assert_eq!(calls.get(), res.evals);
        if cap < 5 {
            // The differences of two parameters are not affordable.
            assert_eq!((res.evals, res.iterations), (1, 0));
            assert_eq!(res.x, vec![0.5, 0.5]);
            assert!(matches!(res.termination, LmTermination::MaxIterations));
        }
    }
}

#[test]
fn x0_outside_bounds_rejected() {
    let g = |x: &[f64]| -> Result<Vec<f64>, String> { Ok(vec![x[0]]) };
    let e = lm(&g, &[99.0], &[0.0], &[10.0], &cfg_fast()).err().unwrap();
    assert_eq!(
        e.message(Solver::LevenbergMarquardt, &show),
        "levenberg_marquardt: x0[0]=99 outside [0, 10]"
    );
    let res = lm(&g, &[10.0], &[0.0], &[10.0], &cfg_fast()).unwrap();
    assert!(res.x[0].abs() < 1e-4, "x {:?}", res.x);
}

#[test]
fn thick_opt_invalid_inputs_rejected() {
    let g = |_x: &[f64]| -> Result<Vec<f64>, String> { Ok(vec![]) };
    assert!(lm(&g, &[], &[], &[], &LmConfig::default()).is_err());
    assert!(lm(&g, &[0.0], &[1.0], &[-1.0], &LmConfig::default()).is_err());
}

#[test]
fn fixed_residual_length_enforced() {
    let flip = Cell::new(false);
    let g = |x: &[f64]| -> Result<Vec<f64>, String> {
        let mut out = vec![x[0]];
        if flip.get() {
            out.push(0.0);
        }
        Ok(out)
    };
    let res = lm(&g, &[1.0], &[-1.0], &[1.0], &cfg_fast());
    assert!(res.is_ok());
}

#[test]
fn a_changed_residual_length_is_detected() {
    let calls = Cell::new(0usize);
    let g = |x: &[f64]| -> Result<Vec<f64>, String> {
        calls.set(calls.get() + 1);
        let mut out = vec![x[0], 1.0];
        if calls.get() > 3 {
            out.push(0.0);
        }
        Ok(out)
    };
    assert!(lm(&g, &[1.0], &[-1.0], &[1.0], &cfg_fast()).is_err());
}

fn lcg(seed: &mut u64) -> f64 {
    *seed = seed.wrapping_mul(6364136223846793005).wrapping_add(1442695040888963407);
    ((*seed >> 11) as f64) / ((1u64 << 53) as f64) - 0.5
}

fn step_inputs(jac: &[f64], r: &[f64], m: usize, n: usize) -> (Vec<f64>, Vec<f64>) {
    let mut jtr = vec![0.0; n];
    let mut col_sq = vec![0.0_f64; n];
    for i in 0..m {
        for j in 0..n {
            jtr[j] += jac[i * n + j] * r[i];
            col_sq[j] += jac[i * n + j] * jac[i * n + j];
        }
    }
    let d_scale = col_sq.iter().map(|c| c.max(1e-14).sqrt()).collect();
    (jtr, d_scale)
}

fn qr_step(jac: &[f64], r: &[f64], d_scale: &[f64], lambda: f64, n: usize) -> Vec<f64> {
    let (h, c) = householder_qr(&num(), grid(jac, n), sv(r), n).expect("QR of a full-rank J");
    let r_tri = upper_triangle(&h, n);
    let diag: Vec<f64> = d_scale.iter().map(|d| lambda.sqrt() * d).collect();
    fv(&solve_damped(&num(), &r_tri, &c[..n].to_vec(), &sv(&diag)).expect("damped solve"))
}

fn normal_step(jac: &[f64], jtr: &[f64], d: &[f64], lambda: f64, n: usize) -> Vec<f64> {
    fv(&normal_equation_step(&num(), &grid(jac, n), &sv(jtr), &sv(d), s(lambda))
        .expect("normal solve"))
}

fn step_objective(
    jac: &[f64],
    r: &[f64],
    d_scale: &[f64],
    lambda: f64,
    step: &[f64],
    m: usize,
    n: usize,
) -> f64 {
    let mut acc = 0.0;
    for i in 0..m {
        let mut t = r[i];
        for j in 0..n {
            t += jac[i * n + j] * step[j];
        }
        acc += t * t;
    }
    for j in 0..n {
        let dj = d_scale[j] * step[j];
        acc += lambda * dj * dj;
    }
    acc
}

#[test]
fn qr_step_reproduces_the_normal_equation_step_when_well_conditioned() {
    let (m, n) = (40usize, 5usize);
    let mut seed = 0x5EED_1234u64;
    let jac: Vec<f64> = (0..m * n).map(|_| lcg(&mut seed)).collect();
    let r: Vec<f64> = (0..m).map(|_| lcg(&mut seed)).collect();
    let (jtr, d_scale) = step_inputs(&jac, &r, m, n);
    for &lambda in &[1e-6, 1e-3, 1.0, 1e3] {
        let qr = qr_step(&jac, &r, &d_scale, lambda, n);
        let normal = normal_step(&jac, &jtr, &d_scale, lambda, n);
        let scale = qr.iter().fold(0.0f64, |a, v| a.max(v.abs()));
        assert!(scale > 0.0, "lambda={lambda}: degenerate test, step is exactly zero");
        let dev = qr.iter().zip(&normal).fold(0.0f64, |a, (p, q)| a.max((p - q).abs()));
        assert!(dev / scale < 1e-8, "lambda={lambda}: rel dev {}", dev / scale);
    }
    let lightly_damped = qr_step(&jac, &r, &d_scale, 1e-6, n);
    assert!(lightly_damped.iter().fold(0.0f64, |a, v| a.max(v.abs())) > 1e-2);
}

#[test]
fn qr_step_beats_the_normal_equations_when_the_columns_are_correlated() {
    let (m, n) = (40usize, 14usize);
    let mut jac = vec![0.0; m * n];
    for i in 0..m {
        let t = i as f64 / (m - 1) as f64;
        let mut p = 1.0;
        for j in 0..n {
            jac[i * n + j] = p;
            p *= t;
        }
    }
    let mut seed = 0xC0FFEEu64;
    let r: Vec<f64> = (0..m).map(|_| lcg(&mut seed)).collect();
    let (jtr, d_scale) = step_inputs(&jac, &r, m, n);
    let lambda = 1e-16;
    let qr = qr_step(&jac, &r, &d_scale, lambda, n);
    let normal = normal_step(&jac, &jtr, &d_scale, lambda, n);
    let o_qr = step_objective(&jac, &r, &d_scale, lambda, &qr, m, n);
    let o_normal = step_objective(&jac, &r, &d_scale, lambda, &normal, m, n);
    assert!(o_qr <= o_normal, "QR step {o_qr} is worse than normal {o_normal}");
    assert!(
        o_qr < o_normal * (1.0 - 1e-4),
        "no measurable advantage: qr={o_qr} normal={o_normal}"
    );
}

#[test]
fn a_clipped_step_is_scored_by_its_own_prediction() {
    let (m, n) = (12usize, 3usize);
    let mut seed = 0xBEEF_0001u64;
    let jac: Vec<f64> = (0..m * n).map(|_| lcg(&mut seed)).collect();
    let r: Vec<f64> = (0..m).map(|_| lcg(&mut seed)).collect();
    let (jtr, d_scale) = step_inputs(&jac, &r, m, n);
    let full = qr_step(&jac, &r, &d_scale, 1e-3, n);
    let mut clipped = full.clone();
    clipped[1] = 0.0;
    let pred = |st: &[f64]| f(predicted_reduction(&num(), &grid(&jac, n), &sv(&jtr), &sv(st)));
    let p_full = pred(&full);
    let p_clip = pred(&clipped);
    assert!(p_full > 0.0, "the LM step must predict a reduction: {p_full}");
    assert!(p_clip < p_full, "full={p_full} clipped={p_clip}");
    assert!(p_clip > 0.0, "the surviving components still descend: {p_clip}");
    let mut cost0 = 0.0;
    let mut cost1 = 0.0;
    for i in 0..m {
        let mut t = 0.0;
        for j in 0..n {
            t += jac[i * n + j] * clipped[j];
        }
        cost0 += r[i] * r[i];
        cost1 += (r[i] + t) * (r[i] + t);
    }
    assert!(cost1 < cost0, "clipped step does not reduce the model cost");
}

#[test]
fn bound_active_run_still_converges_to_the_boundary_optimum() {
    let g = |x: &[f64]| -> Result<Vec<f64>, String> {
        Ok(vec![x[0] - 5.0, x[1] + 5.0, 0.25 * (x[0] - x[1])])
    };
    let res = lm(&g, &[0.5, 0.5], &[0.0, 0.0], &[1.0, 1.0], &cfg_precise()).expect("bounded run");
    assert!((res.x[0] - 1.0).abs() < 1e-9, "x0 = {}", res.x[0]);
    assert!((res.x[1] - 0.0).abs() < 1e-9, "x1 = {}", res.x[1]);
    assert!((res.cost - 41.0625).abs() < 1e-9, "cost = {}", res.cost);
}

#[test]
fn gain_ratio_and_the_fixed_ladder_find_the_same_optimum() {
    let xs = [0.0_f64, 0.5, 1.0, 1.5, 2.0, 2.5, 3.0];
    let ys: Vec<f64> = xs.iter().map(|t| 2.5 * (-0.7 * t).exp()).collect();
    let g = |x: &[f64]| -> Result<Vec<f64>, String> {
        Ok(xs.iter().zip(&ys).map(|(&t, &y)| x[0] * (-x[1] * t).exp() - y).collect())
    };
    let run = |damping| {
        lm(&g, &[1.0, 0.2], &[0.1, 0.1], &[10.0, 5.0], &LmConfig { damping, ..cfg_precise() })
            .expect("run")
    };
    let gain = run(LmDamping::GainRatio);
    let fixed = run(LmDamping::Fixed);
    assert!(
        (gain.x[0] - 2.5).abs() < 1e-6 && (gain.x[1] - 0.7).abs() < 1e-6,
        "gain-ratio optimum {:?}",
        gain.x
    );
    assert!(
        (gain.x[0] - fixed.x[0]).abs() < 1e-6 && (gain.x[1] - fixed.x[1]).abs() < 1e-6,
        "{:?} vs {:?}",
        gain.x,
        fixed.x
    );
}

fn cosine(jtr: &[f64], col_sq: &[f64], r_norm: f64) -> f64 {
    f(gradient_cosine(&num(), &sv(jtr), &sv(col_sq), s(r_norm)))
}

#[test]
fn the_gradient_cosine_does_not_move_when_a_column_is_rescaled() {
    let col_sq = [4.0_f64, 9.0, 1.0];
    let jtr = [0.02_f64, 0.3, 0.005];
    let r_norm = 5.0;
    let base = cosine(&jtr, &col_sq, r_norm);
    let scaled_cs = [4.0_f64, 9.0 * 1e6, 1.0];
    let scaled_g = [0.02_f64, 0.3 * 1e3, 0.005];
    let scaled = cosine(&scaled_g, &scaled_cs, r_norm);
    assert!((base - scaled).abs() <= 1e-15 * base, "{base} vs {scaled}");
    let inf_base = jtr.iter().fold(0.0f64, |a, v| a.max(v.abs()));
    let inf_scaled = scaled_g.iter().fold(0.0f64, |a, v| a.max(v.abs()));
    assert!(inf_scaled > inf_base * 100.0, "the contrast this test exists for is gone");
}

#[test]
fn the_gradient_cosine_handles_the_degenerate_inputs() {
    assert_eq!(cosine(&[1.0, 2.0], &[1.0, 1.0], 0.0), 0.0);
    assert_eq!(cosine(&[1.0, 2.0], &[1.0, 1.0], f64::NAN), 0.0);
    assert_eq!(cosine(&[5.0, 0.0], &[0.0, 4.0], 1.0), 0.0);
}

#[test]
fn a_badly_scaled_problem_converges_to_the_same_fit_either_way() {
    let xs = [0.0_f64, 1.0, 2.0, 3.0, 4.0, 5.0];
    let ys = [1.0_f64, 3.1, 4.9, 7.2, 8.9, 11.1];
    let scale = 1e4;
    let plain = |x: &[f64]| -> Result<Vec<f64>, String> {
        Ok(xs.iter().zip(&ys).map(|(&t, &y)| x[0] * t + x[1] - y).collect())
    };
    let scaled = |x: &[f64]| -> Result<Vec<f64>, String> {
        Ok(xs.iter().zip(&ys).map(|(&t, &y)| (x[0] / scale) * t + x[1] - y).collect())
    };
    for invariant in [true, false] {
        let cfg = LmConfig { gtol_scale_invariant: invariant, ..cfg_precise() };
        let a = lm(&plain, &[0.0, 0.0], &[-1e3, -1e3], &[1e3, 1e3], &cfg).expect("plain");
        let b = lm(&scaled, &[0.0, 0.0], &[-1e7, -1e7], &[1e7, 1e7], &cfg).expect("scaled");
        assert!((a.x[0] - b.x[0] / scale).abs() < 1e-6, "invariant={invariant}");
        assert!((a.x[1] - b.x[1]).abs() < 1e-6, "invariant={invariant}");
        assert!((a.cost - b.cost).abs() / a.cost < 1e-9, "invariant={invariant}");
    }
}

#[test]
fn the_scale_invariant_gradient_test_can_be_switched_off() {
    let xs = [0.0_f64, 1.0, 2.0, 3.0];
    let g = |x: &[f64]| -> Result<Vec<f64>, String> {
        Ok(xs.iter().map(|&t| x[0] * t + x[1] - (2.0 * t - 1.0)).collect())
    };
    for invariant in [true, false] {
        let cfg = LmConfig { gtol_scale_invariant: invariant, ..cfg_precise() };
        let res = lm(&g, &[0.0, 0.0], &[-10.0, -10.0], &[10.0, 10.0], &cfg).expect("run");
        assert!(
            (res.x[0] - 2.0).abs() < 1e-8 && (res.x[1] + 1.0).abs() < 1e-8,
            "invariant={invariant}: {:?}",
            res.x
        );
    }
}

#[test]
fn ftol_needs_both_reductions_not_just_the_one_that_happened() {
    let ftol = 1e-6;
    let conv = |a: f64, p: f64| ftol_converged(s(a), s(p), s(ftol));
    assert!(conv(1e-9, 1e-9));
    assert!(!conv(1e-9, 1e-2));
    assert!(!conv(1e-2, 1e-9));
    assert!(!conv(1e-2, 1e-2));
    assert!(!conv(1e-9, -1e-9));
    assert!(!conv(ftol, 0.0));
    assert!(!conv(0.0, ftol));
}

#[test]
fn a_clamped_step_reports_the_gain_ratio_of_the_step_it_took() {
    let ts = [0.0_f64, 1.0, 2.0, 3.0, 4.0];
    let g = |x: &[f64]| -> Result<Vec<f64>, String> {
        Ok(ts.iter().map(|&t| x[0] * t + x[1] - (100.0 * t - 50.0)).collect())
    };
    let res = lm(&g, &[0.5, 0.5], &[0.0, 0.0], &[1.0, 1.0], &cfg_precise()).expect("clamped run");
    assert_eq!(res.x, vec![1.0, 1.0], "the corner nearest the optimum");
    assert!((res.gain_ratio - 1.0).abs() < 1e-6, "rho = {}", res.gain_ratio);
}

#[test]
fn the_gain_ratio_is_nan_when_nothing_was_accepted() {
    let g = |x: &[f64]| -> Result<Vec<f64>, String> { Ok(vec![x[0], x[1]]) };
    let res = lm(&g, &[0.0, 0.0], &[-1.0, -1.0], &[1.0, 1.0], &cfg_fast()).expect("run");
    assert_eq!(res.termination, LmTermination::Gradient);
    assert!(res.gain_ratio.is_nan(), "gain_ratio = {}", res.gain_ratio);
}

#[test]
fn householder_qr_refuses_a_zero_or_non_finite_column() {
    let qr = |a: &[f64], b: &[f64], n: usize| householder_qr(&num(), grid(a, n), sv(b), n);
    assert!(qr(&[1.0, 0.0, 2.0, 0.0, 3.0, 0.0], &[1.0, 1.0, 1.0], 2).is_err());
    assert!(qr(&[1.0, f64::NAN, 2.0, 1.0, 3.0, 1.0], &[1.0, 1.0, 1.0], 2).is_err());
    assert!(
        qr(&[1.0, 1.0], &[1.0], 2).is_err(),
        "fewer rows than columns is not a factorable system"
    );
}

#[test]
fn thick_opt_a_rank_deficient_jacobian_still_produces_a_step() {
    let g = |x: &[f64]| -> Result<Vec<f64>, String> {
        Ok((0..6).map(|t| (x[0] + x[1]) * t as f64 - 3.0 * t as f64).collect())
    };
    let res =
        lm(&g, &[0.0, 0.0], &[-10.0, -10.0], &[10.0, 10.0], &cfg_fast()).expect("degenerate run");
    assert!(
        (res.x[0] + res.x[1] - 3.0).abs() < 1e-6,
        "sum {} should reach 3",
        res.x[0] + res.x[1]
    );
}

const A: [f64; 10] = [1.0, 0.9, 0.8, 0.7, 0.6, 0.5, 0.4, 0.3, 0.2, 0.1];
const B: [f64; 10] = [0.1, 0.25, 0.4, 0.55, 0.7, 0.85, 1.0, 1.15, 1.3, 1.45];

fn y_of(x: &[f64]) -> Vec<f64> {
    (0..10).map(|i| A[i] * x[0] + B[i] * x[1] * x[1]).collect()
}

fn problem(y: Vec<f64>) -> impl Fn(&[f64]) -> Result<Vec<f64>, String> {
    move |x: &[f64]| Ok((0..10).map(|i| A[i] * x[0] + B[i] * x[1] * x[1] - y[i]).collect())
}

struct Exact;
impl JacobianSource for Exact {
    fn fill(&self, x: &Vec<Scalar>) -> Result<Option<(usize, Vec<Scalar>)>, String> {
        let x = fv(x);
        let mut jac = Vec::new();
        for i in 0..10 {
            jac.push(s(A[i]));
            jac.push(s(2.0 * B[i] * x[1]));
        }
        Ok(Some((10, jac)))
    }
}

struct Declines;
impl JacobianSource for Declines {
    fn fill(&self, _x: &Vec<Scalar>) -> Result<Option<(usize, Vec<Scalar>)>, String> {
        Ok(None)
    }
}

struct WrongShape;
impl JacobianSource for WrongShape {
    fn fill(&self, _x: &Vec<Scalar>) -> Result<Option<(usize, Vec<Scalar>)>, String> {
        Ok(Some((7, vec![s(0.5); 14])))
    }
}

struct Explodes;
impl JacobianSource for Explodes {
    fn fill(&self, _x: &Vec<Scalar>) -> Result<Option<(usize, Vec<Scalar>)>, String> {
        Err("no deposits for this stack".into())
    }
}

fn attempt<J: JacobianSource>(src: Option<&J>) -> Result<Fit, LmFault> {
    let g = problem(y_of(&[3.0, 1.6]));
    lm_with(&g, src, &[0.5, 0.4], &[-10.0, -10.0], &[10.0, 10.0], &LmConfig::default())
}

#[test]
fn an_exact_jacobian_and_a_differenced_one_reach_the_same_optimum() {
    let a = attempt(Some(&Exact)).unwrap();
    let b = attempt(None::<&NoJacobian>).unwrap();
    assert!(a.analytic_jacobians >= a.iterations);
    assert_eq!(b.analytic_jacobians, 0);
    for j in 0..2 {
        assert!((a.x[j] - b.x[j]).abs() < 1e-6, "{:?} vs {:?}", a.x, b.x);
    }
    assert!(a.cost < 1e-18 && b.cost < 1e-18, "{} / {}", a.cost, b.cost);
    assert!(
        b.evals >= a.evals + 4 * a.analytic_jacobians,
        "analytic {} evals / {} jacobians, differenced {} evals",
        a.evals,
        a.analytic_jacobians,
        b.evals
    );
}

#[test]
fn a_source_that_declines_leaves_the_run_exactly_as_it_was() {
    let a = attempt(Some(&Declines)).unwrap();
    let b = attempt(None::<&NoJacobian>).unwrap();
    assert_eq!(a.analytic_jacobians, 0);
    assert_eq!(a.evals, b.evals);
    assert_eq!(a.iterations, b.iterations);
    for j in 0..2 {
        assert_eq!(a.x[j].to_bits(), b.x[j].to_bits());
    }
}

#[test]
fn a_jacobian_of_the_wrong_shape_is_refused_not_used() {
    let err = attempt(Some(&WrongShape)).err().unwrap();
    let text = err.message(Solver::LevenbergMarquardt, &show);
    assert!(text.contains("analytic jacobian"), "{text}");
}

#[test]
fn a_source_that_errors_aborts_rather_than_quietly_differencing() {
    let err = attempt(Some(&Explodes)).err().unwrap();
    assert_eq!(
        err.message(Solver::LevenbergMarquardt, &show),
        "no deposits for this stack"
    );
}

#[test]
fn the_plain_entry_point_asks_for_no_jacobian_at_all() {
    let g = problem(y_of(&[3.0, 1.6]));
    let r = lm(&g, &[0.5, 0.4], &[-10.0, -10.0], &[10.0, 10.0], &LmConfig::default()).unwrap();
    assert_eq!(r.analytic_jacobians, 0);
}

#[test]
fn a_run_never_ends_worse_than_it_began() {
    let g = |x: &[f64]| -> Result<Vec<f64>, String> {
        Ok(vec![10.0 * (x[1] - x[0] * x[0]), 1.0 - x[0]])
    };
    let r = lm(&g, &[-1.2, 1.0], &[-2.0, -2.0], &[0.5, 2.0], &cfg_fast()).unwrap();
    let start: f64 = g(&[-1.2, 1.0]).unwrap().iter().map(|v| v * v).sum();
    assert!(r.cost <= start);
    assert!(r.x[0] >= -2.0 && r.x[0] <= 0.5 && r.x[1] >= -2.0 && r.x[1] <= 2.0);
}
