use navette::numeric::{Arith, Numeric};
use navette::scalar::Scalar;

fn s(x: f64) -> Scalar {
    Scalar::from_bits(x.to_bits())
}

#[allow(dead_code)]
fn f(x: Scalar) -> f64 {
    f64::from_bits(x.to_bits())
}

#[allow(dead_code)]
fn sv(v: &[f64]) -> Vec<Scalar> {
    v.iter().map(|x| s(*x)).collect()
}

#[allow(dead_code)]
fn fv(v: &[Scalar]) -> Vec<f64> {
    v.iter().map(|x| f(*x)).collect()
}

#[allow(dead_code)]
fn num() -> impl Numeric {
    Arith {
        plus: |a, b| s(f(a) + f(b)),
        minus: |a, b| s(f(a) - f(b)),
        times: |a, b| s(f(a) * f(b)),
        over: |a, b| s(f(a) / f(b)),
        root: |a| s(f(a).sqrt()),
        count: |n: usize| s(n as f64),
    }
}

use navette::inflate::{
    choose_films, inflate_design, qwot_nm, qwot_to_thickness, round_half_even, round_to_qwot,
    thickness_to_qwot, InflateFault,
};
use navette::structure::{DesignStack, LayerSpec};
use std::cell::Cell;

const NW: usize = 8;

fn show(x: Scalar) -> String {
    format!("{}", f(x))
}

fn end(name: &str, n: f64) -> LayerSpec {
    let mut l = LayerSpec::constant(name, s(n), s(0.0), s(0.0), NW);
    l.optimize = false;
    l.needle = false;
    l
}

fn film(name: &str, n_re: f64, d: f64) -> LayerSpec {
    LayerSpec::constant(name, s(n_re), s(0.0), s(d), NW)
}

fn stack(films: Vec<LayerSpec>) -> DesignStack {
    DesignStack::with_films(end("air", 1.0), end("sub", 1.52), films).unwrap()
}

fn wavls() -> Vec<Scalar> {
    (0..NW).map(|i| s(400.0 + 50.0 * i as f64)).collect()
}

fn thick(st: &DesignStack, i: usize) -> f64 {
    f(st.films()[i].d_nm)
}

/// Quadratic merit against slot targets, and an optimizer that reaches them.
struct Mock {
    targets: Vec<f64>,
    n_opt_calls: Cell<usize>,
}

impl Mock {
    fn new(targets: Vec<f64>) -> Mock {
        Mock { targets, n_opt_calls: Cell::new(0) }
    }

    fn merit(&self, st: &DesignStack) -> Result<Scalar, String> {
        Ok(s(st
            .films()
            .iter()
            .zip(&self.targets)
            .map(|(l, t)| (f(l.d_nm) - t).powi(2))
            .sum()))
    }

    fn optimize(&self, st: DesignStack) -> (DesignStack, Result<Scalar, String>) {
        let mut st = st;
        self.n_opt_calls.set(self.n_opt_calls.get() + 1);
        for i in 0..st.films().len() {
            if st.films()[i].optimize && i < self.targets.len() {
                st.set_thickness(i, s(self.targets[i])).unwrap();
            }
        }
        let m = self.merit(&st);
        (st, m)
    }
}

fn away(x: Scalar) -> Scalar {
    s(f(x).round())
}

fn cut(x: Scalar) -> Scalar {
    s(f(x).trunc())
}

fn rest(a: Scalar, b: Scalar) -> Scalar {
    s(f(a) % f(b))
}

fn even(x: f64) -> f64 {
    f(round_half_even(&num(), &away, &cut, &rest, s(x)))
}

fn round(
    m: &Mock,
    st: &mut DesignStack,
    resolution: f64,
    reoptimize: bool,
) -> Result<Scalar, InflateFault> {
    round_to_qwot(
        &num(),
        &away,
        &cut,
        &rest,
        st,
        &wavls(),
        s(550.0),
        s(resolution),
        reoptimize,
        &|st: &DesignStack| m.merit(st),
        &|st: DesignStack| m.optimize(st),
    )
}

#[test]
fn qwot_nm_nearest_grid_point_and_value() {
    let h = film("H", 2.35, 100.0);
    let q = f(qwot_nm(&num(), &h.nk, &wavls(), s(550.0)).unwrap());
    assert!((q - 550.0 / 9.4).abs() < 1e-12);
    let bad = film("X", 0.0, 10.0);
    let e = qwot_nm(&num(), &bad.nk, &wavls(), s(550.0)).unwrap_err();
    assert_eq!(e.message(&show), "material has non-positive n=0 at \u{3bb}=550 nm");
}

#[test]
fn qwot_conversions_roundtrip() {
    let q = 550.0 / 9.4;
    assert!((f(thickness_to_qwot(&num(), s(117.02), s(q))) - 117.02 / q).abs() < 1e-14);
    assert!((f(qwot_to_thickness(&num(), s(2.0), s(q))) - 2.0 * q).abs() < 1e-14);
}

#[test]
fn inflate_top_k_scoring_and_delta() {
    let mut st = stack(vec![film("A", 2.35, 30.0), film("B", 1.46, 30.0), film("C", 2.35, 30.0)]);
    let m = Mock::new(vec![40.0, 40.0, 30.0]);
    let res = inflate_design(
        &num(),
        &mut st,
        &wavls(),
        s(1.0),
        s(550.0),
        Some(1),
        true,
        &|st: &DesignStack| m.merit(st),
        &|st: DesignStack| m.optimize(st),
    )
    .unwrap();
    assert!((f(res.total_thickness_before) - 90.0).abs() < 1e-12);
    assert!((f(res.total_thickness_after) - 110.0).abs() < 1e-12);
    assert_eq!(m.n_opt_calls.get(), 1);
    assert_eq!(res.layer_count, 3);
}

#[test]
fn only_the_film_with_the_lowest_trial_merit_is_inflated() {
    let mut st = stack(vec![film("A", 2.35, 30.0), film("B", 1.46, 30.0), film("C", 2.35, 30.0)]);
    let m = Mock::new(vec![40.0, 40.0, 30.0]);
    inflate_design(
        &num(),
        &mut st,
        &wavls(),
        s(1.0),
        s(550.0),
        Some(1),
        false,
        &|st: &DesignStack| m.merit(st),
        &|st: DesignStack| m.optimize(st),
    )
    .unwrap();
    // A ends nearest to its target, so A is the one.
    assert!((thick(&st, 0) - (30.0 + 550.0 / 9.4)).abs() < 1e-12);
    assert_eq!(thick(&st, 1), 30.0);
    assert_eq!(thick(&st, 2), 30.0);
}

#[test]
fn inflate_applies_selected_delta_without_reopt() {
    let mut st = stack(vec![film("A", 2.35, 30.0), film("B", 1.46, 20.0)]);
    let m = Mock::new(vec![0.0; 2]);
    let res = inflate_design(
        &num(),
        &mut st,
        &wavls(),
        s(0.5),
        s(550.0),
        None,
        false,
        &|st: &DesignStack| m.merit(st),
        &|st: DesignStack| m.optimize(st),
    )
    .unwrap();
    let d_a = 0.5 * (550.0 / 9.4);
    let d_b = 0.5 * (550.0 / 5.84);
    assert!((thick(&st, 0) - (30.0 + d_a)).abs() < 1e-12);
    assert!((thick(&st, 1) - (20.0 + d_b)).abs() < 1e-12);
    assert_eq!(m.n_opt_calls.get(), 0);
    assert!((f(res.merit_after) - f(res.merit_before).abs()).abs() >= 0.0);
}

#[test]
fn inflate_negative_addon_clamps_at_zero() {
    let mut st = stack(vec![film("A", 2.35, 10.0)]);
    let m = Mock::new(vec![0.0]);
    inflate_design(
        &num(),
        &mut st,
        &wavls(),
        s(-1.0),
        s(550.0),
        None,
        false,
        &|st: &DesignStack| m.merit(st),
        &|st: DesignStack| m.optimize(st),
    )
    .unwrap();
    assert!((thick(&st, 0) - 0.0).abs() < 1e-12);
}

#[test]
fn round_to_qwot_snapping_and_minimum_one_step() {
    let q = 550.0 / 9.4;
    let mut st = stack(vec![film("H", 2.35, 100.0), film("L", 2.35, 5.0)]);
    round(&Mock::new(vec![0.0; 2]), &mut st, 1.0, false).unwrap();
    assert!((thick(&st, 0) - 2.0 * q).abs() < 1e-10);
    assert!((thick(&st, 1) - q).abs() < 1e-10);
}

#[test]
fn round_uses_bankers_rounding_at_exact_halves() {
    assert_eq!(even(2.5), 2.0);
    assert_eq!(even(3.5), 4.0);
    assert_eq!(even(1.7), 2.0);
    assert_eq!(even(-2.5), -2.0);
    let q2 = 550.0 / (4.0 * 2.2);
    let mut st = stack(vec![film("H", 2.2, 2.5 * q2)]);
    round(&Mock::new(vec![0.0]), &mut st, 1.0, false).unwrap();
    assert!((thick(&st, 0) - 2.0 * q2).abs() < 1e-10);
}

#[test]
fn round_rejects_nonpositive_resolution() {
    let mut st = stack(vec![film("H", 2.35, 50.0)]);
    let m = Mock::new(vec![0.0]);
    let e = round(&m, &mut st, 0.0, false).unwrap_err();
    assert_eq!(e.message(&show), "resolution must be positive, got 0");
    assert!(round(&m, &mut st, -1.0, false).is_err());
}

#[test]
fn a_failing_evaluation_is_passed_on() {
    let mut st = stack(vec![film("A", 2.35, 30.0)]);
    let e = inflate_design(
        &num(),
        &mut st,
        &wavls(),
        s(1.0),
        s(550.0),
        None,
        true,
        &|_: &DesignStack| Err("no simulator".to_string()),
        &|st: DesignStack| (st, Ok(s(0.0))),
    )
    .unwrap_err();
    assert_eq!(e.message(&show), "no simulator");
    assert_eq!(thick(&st, 0), 30.0);
}

#[test]
fn ties_keep_the_film_order() {
    assert_eq!(choose_films(&sv(&[3.0, 1.0, 1.0, 2.0]), Some(3), 4), vec![1, 2, 3]);
    assert_eq!(choose_films(&sv(&[]), Some(4), 4), vec![0, 1, 2, 3]);
}

#[test]
fn a_failed_inflation_leaves_what_it_had_done() {
    let fresh = || stack(vec![film("A", 2.35, 30.0), film("B", 1.46, 30.0)]);
    let d = |st: &DesignStack| st.films().iter().map(|l| f(l.d_nm)).collect::<Vec<f64>>();
    let run = |st: &mut DesignStack, fail_at: usize, max: Option<usize>, reoptimize: bool| {
        let calls = Cell::new(0);
        let e = inflate_design(
            &num(),
            st,
            &wavls(),
            s(1.0),
            s(550.0),
            max,
            reoptimize,
            &|_: &DesignStack| {
                calls.set(calls.get() + 1);
                if calls.get() == fail_at { Err("no merit".to_string()) } else { Ok(s(1.0)) }
            },
            &|mut st: DesignStack| {
                st.set_thickness(0, s(7.0)).unwrap();
                (st, Err("no optimum".to_string()))
            },
        )
        .err()
        .unwrap();
        e.message(&show)
    };
    // The first evaluation, then a trial: nothing has changed.
    for fail_at in [1, 2, 3] {
        let mut st = fresh();
        assert_eq!(run(&mut st, fail_at, Some(1), true), "no merit");
        assert_eq!(d(&st), vec![30.0, 30.0]);
    }
    // The last evaluation: the films are inflated.
    let mut st = fresh();
    assert_eq!(run(&mut st, 2, None, false), "no merit");
    assert!(d(&st).iter().all(|x| *x > 80.0));
    // The optimizer: what it left stays.
    let mut st = fresh();
    assert_eq!(run(&mut st, 9, None, true), "no optimum");
    assert_eq!(d(&st)[0], 7.0);
    assert!(d(&st)[1] > 80.0);
}
