use navette::numeric::{Arith, Numeric};
use navette::scalar::Scalar;

fn s(x: f64) -> Scalar {
    Scalar::from_bits(x.to_bits())
}

fn f(x: Scalar) -> f64 {
    f64::from_bits(x.to_bits())
}

fn sv(v: &[f64]) -> Vec<Scalar> {
    v.iter().map(|x| s(*x)).collect()
}

fn fv(v: &[Scalar]) -> Vec<f64> {
    v.iter().map(|x| f(*x)).collect()
}

fn num() -> impl Numeric {
    Arith {
        plus: |a, b| s(f(a) + f(b)),
        minus: |a, b| s(f(a) - f(b)),
        times: |a, b| s(f(a) * f(b)),
        over: |a, b| s(f(a) / f(b)),
        root: |a| s(f(a).sqrt()),
        count: |n: usize| s(n as f64),
    }
}

use navette::linalg::{householder_qr, upper_triangle};
use navette::thick_opt::fault::Solver;
use navette::thick_opt::model::jt_times;
use navette::thick_opt::{
    JacobianSource, LmConfig, LmFault, LmResult, LmTermination, NoJacobian,
};
use navette::trf::driver::trust_region_reflective;
use navette::trf::geometry::{
    cl_scaling_vector, find_active_constraints, in_bounds, make_strictly_feasible, next_toward,
    step_size_to_bound,
};
use navette::trf::quadratic::{
    build_quadratic_1d, check_termination, evaluate_quadratic, intersect_trust_region,
    minimize_quadratic_1d, update_tr_radius,
};
use navette::trf::subproblem::{damped_step, solve_lsq_trust_region};
use std::cell::RefCell;

fn show(x: Scalar) -> String {
    format!("{}", f(x))
}

fn cfg() -> LmConfig {
    LmConfig {
        ftol: s(1e-14),
        xtol: s(1e-14),
        gtol: s(1e-14),
        max_iterations: 500,
        max_evals: 200_000,
        ..Default::default()
    }
}

fn trf<J: JacobianSource>(
    g: &dyn Fn(&[f64]) -> Result<Vec<f64>, String>,
    src: Option<&J>,
    x0: &[f64],
    lb: &[f64],
    ub: &[f64],
    cfg: &LmConfig,
) -> Result<LmResult, LmFault> {
    let residuals = |x: &Vec<Scalar>| g(&fv(x)).map(|v| sv(&v));
    trust_region_reflective(&num(), &residuals, src, &sv(x0), &sv(lb), &sv(ub), cfg)
}

fn run(
    g: &dyn Fn(&[f64]) -> Result<Vec<f64>, String>,
    x0: &[f64],
    lb: &[f64],
    ub: &[f64],
) -> (Vec<f64>, f64) {
    let r = trf(g, None::<&NoJacobian>, x0, lb, ub, &cfg()).unwrap();
    (fv(&r.x), f(r.cost))
}

fn grid(flat: &[f64], n: usize) -> Vec<Vec<Scalar>> {
    flat.chunks(n).map(sv).collect()
}

fn norm(v: &[f64]) -> f64 {
    v.iter().map(|x| x * x).sum::<f64>().sqrt()
}

#[test]
fn cl_scaling_measures_the_bound_the_antigradient_points_at() {
    let x = [2.0, 2.0, 2.0];
    let g = [-1.0, 1.0, 0.0];
    let lb = [0.0, 0.0, 0.0];
    let ub = [10.0, 10.0, 10.0];
    let (v, dv) = cl_scaling_vector(&num(), &sv(&x), &sv(&g), &sv(&lb), &sv(&ub));
    assert_eq!(fv(&v), vec![8.0, 2.0, 1.0]);
    assert_eq!(fv(&dv), vec![-1.0, 1.0, 0.0]);
}

#[test]
fn the_curvature_diagonal_is_never_negative() {
    let x = sv(&[1.0, 1.0]);
    let ub = sv(&[5.0, 5.0]);
    let lb = sv(&[-5.0, -5.0]);
    for g in [[-3.0, 2.0], [2.0, -7.0], [0.0, 0.0], [-1.0, -1.0]] {
        let (_, dv) = cl_scaling_vector(&num(), &x, &sv(&g), &lb, &ub);
        for k in 0..2 {
            assert!(g[k] * f(dv[k]) >= 0.0, "C[{k}] < 0 for g = {g:?}");
        }
    }
}

#[test]
fn step_size_to_bound_reports_the_first_bound_and_who_hit_it() {
    let (t, hits) = step_size_to_bound(
        &num(),
        &sv(&[1.0, 1.0]),
        &sv(&[1.0, 4.0]),
        &sv(&[0.0, 0.0]),
        &sv(&[3.0, 3.0]),
    );
    assert!((f(t) - 0.5).abs() < 1e-15);
    assert_eq!(hits, vec![false, true]);
}

#[test]
fn a_zero_component_never_hits_a_bound() {
    let (t, hits) = step_size_to_bound(
        &num(),
        &sv(&[1.0, 1.0]),
        &sv(&[0.0, 1.0]),
        &sv(&[0.0, 0.0]),
        &sv(&[3.0, 3.0]),
    );
    assert!((f(t) - 2.0).abs() < 1e-15);
    assert_eq!(hits, vec![false, true]);
}

#[test]
fn make_strictly_feasible_leaves_a_bound_by_one_ulp_and_no_more() {
    let out = fv(&make_strictly_feasible(
        &num(),
        &sv(&[0.0, 1.0]),
        &sv(&[0.0, 0.0]),
        &sv(&[1.0, 1.0]),
        s(0.0),
    ));
    assert!(out[0] > 0.0 && out[0] < 1e-300, "{}", out[0]);
    assert!(out[1] < 1.0 && out[1] > 1.0 - 1e-15, "{}", out[1]);
}

#[test]
fn a_box_with_no_interior_collapses_to_its_midpoint() {
    let four = sv(&[4.0]);
    let out = make_strictly_feasible(&num(), &four, &four, &four, s(1e-10));
    assert_eq!(fv(&out), vec![4.0]);
}

#[test]
fn intersect_trust_region_finds_the_two_crossings() {
    let hit = |x: &[f64], d: &[f64]| intersect_trust_region(&num(), &sv(x), &sv(d), s(2.0));
    let (t1, t2) = hit(&[0.0, 0.0], &[1.0, 0.0]).unwrap();
    assert!((f(t1) + 2.0).abs() < 1e-14);
    assert!((f(t2) - 2.0).abs() < 1e-14);
    assert!(hit(&[3.0, 0.0], &[1.0, 0.0]).is_none());
    assert!(hit(&[0.0, 0.0], &[0.0, 0.0]).is_none());
}

#[test]
fn minimize_quadratic_1d_takes_the_interior_vertex_only_when_it_is_inside() {
    let min = |a: f64, b: f64, lo: f64, hi: f64| {
        let (t, y) = minimize_quadratic_1d(&num(), s(a), s(b), s(lo), s(hi), s(0.0));
        (f(t), f(y))
    };
    let (t, y) = min(1.0, -2.0, -5.0, 5.0);
    assert!((t - 1.0).abs() < 1e-15);
    assert!((y + 1.0).abs() < 1e-15);
    let (t, _) = min(1.0, -2.0, 2.0, 5.0);
    assert!((t - 2.0).abs() < 1e-15);
    let (t, _) = min(0.0, -1.0, 0.0, 3.0);
    assert!((t - 3.0).abs() < 1e-15);
}

#[test]
fn build_quadratic_1d_agrees_with_evaluating_the_model() {
    let n = 2usize;
    let jh = grid(&[1.0, 2.0, 0.5, -1.0, 3.0, 0.25], n);
    let g_h = sv(&[0.3, -0.7]);
    let diag = sv(&[0.5, 1.5]);
    let d = [0.4, -0.9];
    let d0 = [0.1, 0.2];
    let (a, b, c) = build_quadratic_1d(&num(), &jh, &g_h, &sv(&d), &diag, Some(&sv(&d0)));
    for t in [-1.0, -0.25, 0.0, 0.6, 2.0] {
        let comb: Vec<f64> = (0..n).map(|k| d0[k] + t * d[k]).collect();
        let direct = f(evaluate_quadratic(&num(), &jh, &g_h, &sv(&comb), &diag));
        let poly = f(a) * t * t + f(b) * t + f(c);
        assert!((direct - poly).abs() < 1e-12, "t = {t}: {direct} vs {poly}");
    }
}

#[test]
fn update_tr_radius_shrinks_on_a_bad_step_and_grows_only_at_the_boundary() {
    let up = |delta: f64, a: f64, p: f64, n: f64, hit: bool| {
        let (d, r) = update_tr_radius(&num(), s(delta), s(a), s(p), s(n), hit);
        (f(d), f(r))
    };
    let (d, r) = up(10.0, 0.1, 10.0, 4.0, true);
    assert!((d - 1.0).abs() < 1e-15);
    assert!(r < 0.25);
    let (d, _) = up(10.0, 9.0, 10.0, 1.0, false);
    assert!((d - 10.0).abs() < 1e-15);
    let (d, _) = up(10.0, 9.0, 10.0, 9.9, true);
    assert!((d - 20.0).abs() < 1e-15);
    let (_, r) = up(10.0, 1.0, -1.0, 1.0, true);
    assert_eq!(r, 0.0);
}

#[test]
fn the_cost_test_ignores_a_step_that_badly_undershot_its_promise() {
    let check = |ratio: f64| {
        check_termination(
            &num(),
            s(1e-12),
            s(1.0),
            s(10.0),
            s(1.0),
            s(ratio),
            s(1e-8),
            s(1e-8),
        )
    };
    assert_eq!(check(0.9), Some(LmTermination::Cost));
    assert_eq!(check(0.1), None);
}

fn factor(b_mat: &[f64], rhs: &[f64], n: usize) -> (Vec<Vec<Scalar>>, Vec<Scalar>) {
    let (h, c) = householder_qr(&num(), grid(b_mat, n), sv(rhs), n).unwrap();
    (upper_triangle(&h, n), c[..n].to_vec())
}

fn btf(b_mat: &[f64], g: &[f64], n: usize) -> Vec<f64> {
    fv(&jt_times(&num(), &grid(b_mat, n), &sv(g), n))
}

#[test]
fn the_damped_step_solves_the_normal_equations_it_claims_to() {
    let (rows, n) = (4usize, 2usize);
    let b_mat = [1.0, 0.5, 2.0, -1.0, 0.25, 3.0, -0.75, 0.5];
    let g = [0.3, -1.2, 0.8, 0.1];
    let (r, qtf) = factor(&b_mat, &g, n);
    let btf = btf(&b_mat, &g, n);
    for alpha in [0.0, 1e-6, 0.3, 7.0, 1e4] {
        let (p, p_norm, q_norm) = damped_step(&num(), &r, &qtf, n, s(alpha)).unwrap();
        let p = fv(&p);
        for k in 0..n {
            let mut lhs = alpha * p[k];
            for j in 0..n {
                let bjk: f64 = (0..rows).map(|i| b_mat[i * n + j] * b_mat[i * n + k]).sum();
                lhs += bjk * p[j];
            }
            assert!((lhs + btf[k]).abs() < 1e-9, "alpha = {alpha}, row {k}");
        }
        assert!((f(p_norm) - norm(&p)).abs() < 1e-12);
        assert!(f(q_norm) > 0.0);
    }
}

#[test]
fn the_derivative_the_secular_equation_uses_is_the_real_one() {
    let n = 3usize;
    let b_mat = [
        1.0, 0.5, 0.2, 2.0, -1.0, 0.3, 0.25, 3.0, -0.1, -0.75, 0.5, 1.5, 0.4, 0.9, -2.0,
    ];
    let g = [0.3, -1.2, 0.8, 0.1, -0.4];
    let (r, qtf) = factor(&b_mat, &g, n);
    let alpha = 0.7;
    let h = 1e-6;
    let at = |a: f64| {
        let (_, p, q) = damped_step(&num(), &r, &qtf, n, s(a)).unwrap();
        (f(p), f(q))
    };
    let (p_norm, q_norm) = at(alpha);
    let (up, _) = at(alpha + h);
    let (dn, _) = at(alpha - h);
    let fd = (up - dn) / (2.0 * h);
    let analytic = -(q_norm * q_norm) / p_norm;
    assert!((fd - analytic).abs() < 1e-6 * analytic.abs().max(1.0), "{fd} vs {analytic}");
}

fn subproblem(b_mat: &[f64], g: &[f64], rows: usize, n: usize, delta: f64) -> (Vec<f64>, f64) {
    let (r, qtf) = factor(b_mat, g, n);
    let g_norm = norm(&btf(b_mat, g, n));
    let (p, alpha) =
        solve_lsq_trust_region(&num(), &r, &qtf, rows, n, s(g_norm), s(delta), s(0.0)).unwrap();
    (fv(&p), f(alpha))
}

#[test]
fn the_subproblem_returns_the_gauss_newton_step_when_it_fits() {
    let b_mat = [1.0, 0.0, 0.0, 1.0, 0.0, 0.0, 0.0, 0.0];
    let (p, alpha) = subproblem(&b_mat, &[0.5, -0.25, 0.0, 0.0], 4, 2, 10.0);
    assert_eq!(alpha, 0.0);
    assert!((p[0] + 0.5).abs() < 1e-12 && (p[1] - 0.25).abs() < 1e-12, "{p:?}");
}

#[test]
fn a_constrained_subproblem_lands_on_the_boundary() {
    let b_mat = [1.0, 0.0, 0.0, 1.0, 0.0, 0.0, 0.0, 0.0];
    let g = [5.0, -3.0, 0.0, 0.0];
    let (p, alpha) = subproblem(&b_mat, &g, 4, 2, 1.0);
    assert!(alpha > 0.0);
    assert!((norm(&p) - 1.0).abs() < 1e-12, "|p| = {}", norm(&p));
    let grad = btf(&b_mat, &g, 2);
    assert!(p.iter().zip(&grad).map(|(a, b)| a * b).sum::<f64>() < 0.0);
}

#[test]
fn a_linear_problem_is_solved_exactly() {
    let xs = [0.0, 1.0, 2.0, 3.0, 4.0];
    let ys = [-1.0, 1.0, 3.0, 5.0, 7.0];
    let g = |p: &[f64]| -> Result<Vec<f64>, String> {
        Ok((0..5).map(|i| p[0] * xs[i] + p[1] - ys[i]).collect())
    };
    let (x, cost) = run(&g, &[0.0, 0.0], &[-1e3, -1e3], &[1e3, 1e3]);
    assert!((x[0] - 2.0).abs() < 1e-7, "{x:?}");
    assert!((x[1] + 1.0).abs() < 1e-7, "{x:?}");
    assert!(cost < 1e-14, "{cost}");
}

#[test]
fn a_nonlinear_fit_recovers_its_parameters() {
    let ts: Vec<f64> = (0..7).map(|i| i as f64 * 0.5).collect();
    let obs: Vec<f64> = ts.iter().map(|t| 2.5 * (-0.7 * t).exp()).collect();
    let g = |p: &[f64]| -> Result<Vec<f64>, String> {
        Ok(ts.iter().zip(&obs).map(|(t, o)| p[0] * (-p[1] * t).exp() - o).collect())
    };
    let (x, _) = run(&g, &[1.0, 0.2], &[0.1, 0.1], &[10.0, 5.0]);
    assert!((x[0] - 2.5).abs() < 1e-5, "{x:?}");
    assert!((x[1] - 0.7).abs() < 1e-5, "{x:?}");
}

#[test]
fn a_boundary_optimum_is_reached_to_the_last_ulp() {
    let g = |p: &[f64]| -> Result<Vec<f64>, String> {
        Ok(vec![p[0] - 5.0, p[1] + 5.0, 0.25 * (p[0] - p[1])])
    };
    let (x, _) = run(&g, &[0.5, 0.5], &[0.0, 0.0], &[1.0, 1.0]);
    assert!((x[0] - 1.0).abs() < 1e-9, "{x:?}");
    assert!(x[1].abs() < 1e-9, "{x:?}");
    assert!(x[0] < 1.0 && x[1] > 0.0, "{x:?} touches a bound");
}

#[test]
fn every_iterate_stays_inside_the_box() {
    let seen: RefCell<Vec<Vec<f64>>> = RefCell::new(Vec::new());
    let lb = [0.0, 0.0];
    let ub = [1.0, 1.0];
    let g = |p: &[f64]| -> Result<Vec<f64>, String> {
        seen.borrow_mut().push(p.to_vec());
        Ok(vec![p[0] - 5.0, p[1] + 5.0])
    };
    trf(
        &g,
        None::<&NoJacobian>,
        &[0.5, 0.5],
        &lb,
        &ub,
        &LmConfig { max_iterations: 20, ..cfg() },
    )
    .unwrap();
    for p in seen.borrow().iter() {
        for k in 0..2 {
            assert!(
                p[k] > lb[k] - 1e-4 && p[k] < ub[k] + 1e-4,
                "evaluated at {p:?}, far outside [{lb:?}, {ub:?}]"
            );
        }
    }
}

#[test]
fn the_reflection_beats_stopping_at_the_bound() {
    let g = |p: &[f64]| -> Result<Vec<f64>, String> {
        Ok(vec![10.0 * (p[1] - p[0] * p[0]), 1.0 - p[0]])
    };
    let (x, cost) = run(&g, &[-1.2, 1.0], &[-2.0, -2.0], &[1.0, 1.0]);
    assert!(cost < 1e-12, "cost {cost} at {x:?}");
}

#[test]
fn trf_a_rank_deficient_jacobian_still_produces_a_step() {
    let ds: Vec<f64> = (0..6).map(|i| i as f64).collect();
    let g = |p: &[f64]| -> Result<Vec<f64>, String> {
        Ok(ds.iter().map(|d| (p[0] + p[1]) * d - 3.0 * d).collect())
    };
    let (x, _) = run(&g, &[0.0, 0.0], &[-10.0, -10.0], &[10.0, 10.0]);
    assert!((x[0] + x[1] - 3.0).abs() < 1e-6, "{x:?}");
}

#[test]
fn a_parameter_with_no_effect_does_not_break_the_factorization() {
    let g = |p: &[f64]| -> Result<Vec<f64>, String> { Ok(vec![p[0] - 2.0, 0.5 * (p[0] - 2.0)]) };
    let (x, cost) = run(&g, &[0.0, 0.5], &[-5.0, -5.0], &[5.0, 5.0]);
    assert!((x[0] - 2.0).abs() < 1e-7, "{x:?}");
    assert!(cost < 1e-12);
}

#[test]
fn the_result_is_reported_in_this_crates_cost_convention() {
    let g = |_p: &[f64]| -> Result<Vec<f64>, String> { Ok(vec![3.0, 4.0]) };
    let (_, cost) = run(&g, &[1.0], &[0.0], &[2.0]);
    assert!((cost - 25.0).abs() < 1e-12, "{cost}");
}

struct Linear;
impl JacobianSource for Linear {
    fn fill(&self, _x: &Vec<Scalar>) -> Result<Option<(usize, Vec<Scalar>)>, String> {
        Ok(Some((2, sv(&[1.0, 0.0, 0.0, 2.0]))))
    }
}

struct Declines;
impl JacobianSource for Declines {
    fn fill(&self, _x: &Vec<Scalar>) -> Result<Option<(usize, Vec<Scalar>)>, String> {
        Ok(None)
    }
}

#[test]
fn an_analytic_jacobian_is_used_and_counted() {
    let g = |p: &[f64]| -> Result<Vec<f64>, String> { Ok(vec![p[0] - 1.0, 2.0 * p[1] + 3.0]) };
    let r = trf(&g, Some(&Linear), &[0.0, 0.0], &[-5.0, -5.0], &[5.0, 5.0], &cfg()).unwrap();
    assert!(r.analytic_jacobians > 0);
    let x = fv(&r.x);
    assert!((x[0] - 1.0).abs() < 1e-9 && (x[1] + 1.5).abs() < 1e-9, "{x:?}");
}

#[test]
fn a_declining_jacobian_source_falls_back_to_differences() {
    let g = |p: &[f64]| -> Result<Vec<f64>, String> { Ok(vec![p[0] - 1.0]) };
    let r = trf(&g, Some(&Declines), &[0.0], &[-5.0], &[5.0], &cfg()).unwrap();
    assert_eq!(r.analytic_jacobians, 0);
    assert!((f(r.x[0]) - 1.0).abs() < 1e-9);
}

#[test]
fn the_inputs_are_checked_before_anything_is_evaluated() {
    let g = |_p: &[f64]| -> Result<Vec<f64>, String> { Ok(vec![1.0]) };
    let c = cfg();
    let go = |x: &[f64], lb: &[f64], ub: &[f64]| trf(&g, None::<&NoJacobian>, x, lb, ub, &c);
    assert!(go(&[], &[], &[]).is_err());
    assert!(go(&[0.0], &[0.0], &[]).is_err());
    let e = go(&[5.0], &[0.0], &[1.0]).unwrap_err().message(Solver::TrustRegion, &show);
    assert!(e.contains("outside"), "{e}");
    let e = go(&[0.5], &[0.0], &[f64::INFINITY]).unwrap_err().message(Solver::TrustRegion, &show);
    assert!(e.contains("not finite"), "{e}");
}

#[test]
fn the_eval_budget_is_honoured() {
    let g = |p: &[f64]| -> Result<Vec<f64>, String> {
        Ok(vec![10.0 * (p[1] - p[0] * p[0]), 1.0 - p[0]])
    };
    let r = trf(
        &g,
        None::<&NoJacobian>,
        &[-1.2, 1.0],
        &[-5.0, -5.0],
        &[5.0, 5.0],
        &LmConfig { max_evals: 12, ..cfg() },
    )
    .unwrap();
    assert!(r.evals <= 12 + 2 * 2 + 1, "{}", r.evals);
    assert_eq!(r.termination, LmTermination::MaxIterations);
}

#[test]
fn a_residual_error_is_propagated_rather_than_reported_as_no_progress() {
    let g = |_p: &[f64]| -> Result<Vec<f64>, String> {
        Err("the merit spec is missing a curve".into())
    };
    let e = trf(&g, None::<&NoJacobian>, &[0.5], &[0.0], &[1.0], &cfg()).unwrap_err();
    let e = e.message(Solver::TrustRegion, &show);
    assert!(e.contains("missing a curve"), "{e}");
}

#[test]
fn a_non_finite_residual_shrinks_the_region_instead_of_failing() {
    let g = |p: &[f64]| -> Result<Vec<f64>, String> {
        Ok(vec![if p[0] > 1.0 { f64::NAN } else { p[0] - 0.5 }, 0.0])
    };
    let (x, _) = run(&g, &[0.0], &[-2.0], &[4.0]);
    assert!(x[0].is_finite(), "{x:?}");
    assert!((x[0] - 0.5).abs() < 1e-6, "{x:?}");
}

#[test]
fn active_constraints_are_told_by_their_side() {
    let a = find_active_constraints(
        &num(),
        &sv(&[0.0, 0.5, 1.0]),
        &sv(&[0.0, 0.0, 0.0]),
        &sv(&[1.0, 1.0, 1.0]),
        s(0.0),
    );
    assert_eq!(a, vec![-1, 0, 1]);
    assert!(in_bounds(&sv(&[0.0]), &sv(&[0.0]), &sv(&[1.0])));
    assert!(!in_bounds(&sv(&[1.5]), &sv(&[0.0]), &sv(&[1.0])));
}

#[test]
fn the_next_double_toward_a_point() {
    assert_eq!(f(next_toward(s(1.0), s(2.0))), 1.0 + f64::EPSILON);
    assert_eq!(f(next_toward(s(1.0), s(0.0))), 1.0 - f64::EPSILON / 2.0);
    assert_eq!(f(next_toward(s(0.0), s(-1.0))), -f64::from_bits(1));
}
