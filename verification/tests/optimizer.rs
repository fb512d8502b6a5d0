use navette::numeric::{Arith, Numeric};
use navette::scalar::Scalar;

fn s(x: f64) -> Scalar {
    Scalar::from_bits(x.to_bits())
}

fn f(x: Scalar) -> f64 {
    f64::from_bits(x.to_bits())
}

fn sv(v: &[f64]) -> Vec<Scalar> {
    v.iter().map(|x| s(*x)).collect()
}

fn fv(v: &[Scalar]) -> Vec<f64> {
    v.iter().map(|x| f(*x)).collect()
}

fn num() -> impl Numeric {
    Arith {
        plus: |a, b| s(f(a) + f(b)),
        minus: |a, b| s(f(a) - f(b)),
        times: |a, b| s(f(a) * f(b)),
        over: |a, b| s(f(a) / f(b)),
        root: |a| s(f(a).sqrt()),
        count: |n: usize| s(n as f64),
    }
}

use navette::optimizer::interval::{IntervalFault, IntervalMap};
use navette::optimizer::{
    available_backends, map_termination, run_optimizer, OptimizerBackend, OptimizerFault,
    ReferenceEnd,
};
use navette::thick_opt::difference::{build_jacobian, Differenced};
use navette::thick_opt::driver::levenberg_marquardt_with;
use navette::thick_opt::{JacobianSource, LmConfig, LmTermination, NoJacobian};

fn show(x: Scalar) -> String {
    format!("{}", f(x))
}

/// r_i(x) = a_i x_0 + b_i x_1 - y_i with a unique interior optimum at (1, -2).
fn linear(x: &Vec<Scalar>) -> Result<Vec<Scalar>, String> {
    let x = fv(x);
    let mut out = Vec::new();
    for i in 0..6 {
        let a = 1.0 + i as f64;
        let b = 2.0 - 0.3 * i as f64;
        let y = a * 1.0 + b * -2.0;
        out.push(s(a * x[0] + b * x[1] - y));
    }
    Ok(out)
}

struct LinearJac;

impl JacobianSource for LinearJac {
    fn fill(&self, _x: &Vec<Scalar>) -> Result<Option<(usize, Vec<Scalar>)>, String> {
        let mut jac = Vec::new();
        for i in 0..6 {
            jac.push(s(1.0 + i as f64));
            jac.push(s(2.0 - 0.3 * i as f64));
        }
        Ok(Some((6, jac)))
    }
}

fn tanh(x: Scalar) -> Scalar {
    s(f(x).tanh())
}

fn atanh(x: Scalar) -> Scalar {
    s(f(x).atanh())
}

fn cosh(x: Scalar) -> Scalar {
    s(f(x).cosh())
}

fn map(lb: &[f64], ub: &[f64]) -> IntervalMap {
    IntervalMap::new(&num(), &sv(lb), &sv(ub)).unwrap()
}

fn bounded(m: &IntervalMap, u: &[f64]) -> Vec<f64> {
    fv(&m.to_bounded(&num(), &tanh, &sv(u)))
}

fn unbounded(m: &IntervalMap, x: &[f64]) -> Vec<f64> {
    fv(&m.to_unbounded(&num(), &atanh, &sv(x)))
}

#[test]
fn every_backend_name_round_trips() {
    for b in [OptimizerBackend::BuiltinLm, OptimizerBackend::MinpackLm] {
        assert_eq!(OptimizerBackend::parse(b.as_str()), Ok(b));
    }
}

#[test]
fn the_available_list_always_contains_the_default_and_only_real_entries() {
    let av = available_backends();
    assert!(av.contains(&"builtin"));
    for name in &av {
        assert!(OptimizerBackend::parse(name).unwrap().is_available(), "{name}");
    }
    assert_eq!(av.contains(&"minpack_lm"), false);
}

#[test]
fn an_unknown_backend_name_lists_the_known_ones() {
    let e = OptimizerBackend::parse("scipy").unwrap_err();
    assert!(e.contains("builtin") && e.contains("minpack_lm"), "got: {e}");
    assert!(e.contains("\"scipy\""), "got: {e}");
}

#[test]
fn a_missing_backend_says_how_to_get_it_rather_than_falling_back() {
    let b = OptimizerBackend::MinpackLm;
    let msg = b.unavailable();
    assert!(msg.contains("opt-minpack-lm"), "got: {msg}");
    if !b.is_available() {
        let cfg = LmConfig { backend: b, ..Default::default() };
        let err = run_optimizer(
            &num(),
            &linear,
            None::<&NoJacobian>,
            &sv(&[0.0, 0.0]),
            &sv(&[-5.0, -5.0]),
            &sv(&[5.0, 5.0]),
            &cfg,
        )
        .unwrap_err();
        match err {
            OptimizerFault::Unavailable { message } => {
                assert!(message.contains("opt-minpack-lm"), "got: {message}")
            }
            OptimizerFault::Solver { .. } => panic!("ran"),
        }
    }
}

#[test]
fn the_interval_map_round_trips_interior_points() {
    let m = map(&[0.0, -3.0], &[100.0, 7.0]);
    let x = [12.5, 2.25];
    let back = bounded(&m, &unbounded(&m, &x));
    for (a, b) in back.iter().zip(x.iter()) {
        assert!((a - b).abs() < 1e-12, "{a} vs {b}");
    }
}

#[test]
fn a_point_on_the_bound_maps_to_a_finite_u_just_inside() {
    let m = map(&[0.0], &[100.0]);
    for &x in &[0.0, 100.0] {
        let u = unbounded(&m, &[x]);
        assert!(u[0].is_finite(), "u = {} at x = {x}", u[0]);
        let back = bounded(&m, &u)[0];
        assert!(back > 0.0 && back < 100.0, "x={x} came back as {back}");
        assert!((back - x).abs() < 1e-9, "x={x} came back as {back}");
    }
}

#[test]
fn the_map_never_leaves_the_box_however_large_u_is() {
    let m = map(&[2.0], &[5.0]);
    for &u in &[-1e6, -40.0, 0.0, 40.0, 1e6] {
        let x = bounded(&m, &[u])[0];
        assert!((2.0..=5.0).contains(&x), "u={u} gave x={x}");
    }
}

#[test]
fn the_slope_is_the_derivative_of_the_map() {
    let m = map(&[0.0, -1.0], &[10.0, 1.0]);
    for &u in &[-2.0, -0.3, 0.0, 0.7, 3.0] {
        for k in 0..2 {
            let h = 1e-6;
            let mut up = vec![0.0; 2];
            let mut um = vec![0.0; 2];
            up[k] = u + h;
            um[k] = u - h;
            let fd = (bounded(&m, &up)[k] - bounded(&m, &um)[k]) / (2.0 * h);
            let an = f(m.slope(&num(), &cosh, k, s(u)));
            assert!((fd - an).abs() < 1e-6 * an.abs().max(1e-3), "k={k} u={u}: {fd} vs {an}");
        }
    }
}

#[test]
fn a_degenerate_interval_pins_its_parameter() {
    let m = map(&[4.0], &[4.0]);
    assert_eq!(unbounded(&m, &[4.0]), vec![0.0]);
    assert_eq!(bounded(&m, &[123.0]), vec![4.0]);
    assert_eq!(f(m.slope(&num(), &cosh, 0, s(123.0))), 0.0);
}

#[test]
fn an_infinite_bound_is_refused_with_the_reason() {
    let e = IntervalMap::new(&num(), &sv(&[0.0]), &sv(&[f64::INFINITY])).unwrap_err();
    let text = e.message(&show);
    assert!(text.contains("finite"), "got: {text}");
}

#[test]
fn crossed_and_unequal_bounds_are_refused() {
    let e = IntervalMap::new(&num(), &sv(&[0.0, 2.0]), &sv(&[1.0, 1.0])).unwrap_err();
    assert_eq!(e, IntervalFault::Crossed { index: 1 });
    assert_eq!(e.message(&show), "IntervalMap: lb[1] > ub[1]");
    let e = IntervalMap::new(&num(), &sv(&[0.0]), &sv(&[1.0, 1.0])).unwrap_err();
    assert_eq!(e.message(&show), "IntervalMap: bound length mismatch");
}

#[test]
fn the_mapped_jacobian_is_the_chain_rule() {
    let m = map(&[-4.0, -4.0], &[4.0, 4.0]);
    let u = sv(&[0.4, -0.9]);
    let x = m.to_bounded(&num(), &tanh, &u);
    let (rows, flat) = LinearJac.fill(&x).unwrap().unwrap();
    assert_eq!(rows, 6);
    let jac = m.chain_rule(&num(), &cosh, &u, &flat);
    let ru = |u: &Vec<Scalar>| linear(&m.to_bounded(&num(), &tanh, u));
    let fd: Vec<Scalar> = match build_jacobian(&num(), &ru, &u) {
        Differenced::Rows { rows } => rows.iter().flatten().copied().collect(),
        Differenced::Fault { .. } => panic!("differencing failed"),
    };
    assert_eq!(jac.len(), fd.len());
    for (a, b) in fv(&jac).iter().zip(fv(&fd).iter()) {
        assert!((a - b).abs() < 1e-6 * a.abs().max(1.0), "{a} vs {b}");
    }
}

#[test]
fn the_builtin_backend_is_the_default_and_is_the_lm_itself() {
    let cfg = LmConfig::default();
    assert_eq!(cfg.backend, OptimizerBackend::BuiltinLm);
    let x0 = sv(&[0.0, 0.0]);
    let lb = sv(&[-5.0, -5.0]);
    let ub = sv(&[5.0, 5.0]);
    let direct =
        levenberg_marquardt_with(&num(), &linear, Some(&LinearJac), &x0, &lb, &ub, &cfg).unwrap();
    let via = run_optimizer(&num(), &linear, Some(&LinearJac), &x0, &lb, &ub, &cfg).unwrap();
    assert_eq!(via.backend, OptimizerBackend::BuiltinLm);
    assert_eq!(via.x, direct.x);
    assert_eq!(via.cost, direct.cost);
    assert_eq!(via.evals, direct.evals);
    assert_eq!(via.iterations, direct.iterations);
}

#[test]
fn backends_know_their_bounds_and_features() {
    assert!(OptimizerBackend::BuiltinLm.bounds_are_native());
    assert!(!OptimizerBackend::MinpackLm.bounds_are_native());
    assert!(OptimizerBackend::Trf.bounds_are_native());
    assert_eq!(OptimizerBackend::BuiltinLm.feature(), None);
    assert_eq!(OptimizerBackend::MinpackLm.feature(), Some("opt-minpack-lm"));
    assert_eq!(OptimizerBackend::parse("trf"), Ok(OptimizerBackend::Trf));
}

#[test]
fn reference_ends_have_their_meaning() {
    assert_eq!(map_termination(ReferenceEnd::Orthogonal), Ok(LmTermination::Gradient));
    assert_eq!(map_termination(ReferenceEnd::ResidualsZero), Ok(LmTermination::Cost));
    assert_eq!(
        map_termination(ReferenceEnd::Converged { ftol: false, xtol: true }),
        Ok(LmTermination::Step)
    );
    assert!(map_termination(ReferenceEnd::NoParameters).is_err());
}

#[test]
fn the_trust_region_backend_is_dispatched() {
    let cfg = LmConfig { backend: OptimizerBackend::Trf, ..Default::default() };
    let r = run_optimizer(
        &num(),
        &linear,
        Some(&LinearJac),
        &sv(&[0.0, 0.0]),
        &sv(&[-5.0, -5.0]),
        &sv(&[5.0, 5.0]),
        &cfg,
    )
    .unwrap();
    assert_eq!(r.backend, OptimizerBackend::Trf);
    assert!((f(r.x[0]) - 1.0).abs() < 1e-6 && (f(r.x[1]) + 2.0).abs() < 1e-6);
}
