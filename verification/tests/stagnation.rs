use navette::numeric::{Arith, Numeric};
use navette::scalar::Scalar;

fn s(x: f64) -> Scalar {
    Scalar::from_bits(x.to_bits())
}

#[allow(dead_code)]
fn f(x: Scalar) -> f64 {
    f64::from_bits(x.to_bits())
}

#[allow(dead_code)]
fn sv(v: &[f64]) -> Vec<Scalar> {
    v.iter().map(|x| s(*x)).collect()
}

#[allow(dead_code)]
fn fv(v: &[Scalar]) -> Vec<f64> {
    v.iter().map(|x| f(*x)).collect()
}

#[allow(dead_code)]
fn num() -> impl Numeric {
    Arith {
        plus: |a, b| s(f(a) + f(b)),
        minus: |a, b| s(f(a) - f(b)),
        times: |a, b| s(f(a) * f(b)),
        over: |a, b| s(f(a) / f(b)),
        root: |a| s(f(a).sqrt()),
        count: |n: usize| s(n as f64),
    }
}

use navette::stagnation::{StagnationDetector, TerminationReason};

fn det() -> StagnationDetector {
    StagnationDetector::new(5, s(1e-4), s(0.75), 3)
}

fn filled(v: &[f64]) -> StagnationDetector {
    let mut d = det();
    for x in v {
        d.record(s(*x));
    }
    d
}

fn gradient(d: &StagnationDetector) -> f64 {
    f(d.normalised_gradient(&num()))
}

fn oscillation(d: &StagnationDetector) -> f64 {
    f(d.oscillation_fraction(&num()))
}

#[test]
fn gradient_linear_decrease_hand_computed() {
    let d = filled(&[10.0, 8.0, 6.0, 4.0, 2.0]);
    assert!((gradient(&d) - (-1.0 / 3.0)).abs() < 1e-12);
}

#[test]
fn gradient_edge_cases_match_python() {
    let mut d = det();
    assert_eq!(gradient(&d), f64::NEG_INFINITY);
    d.record(s(5.0));
    assert_eq!(gradient(&d), f64::NEG_INFINITY);
    d.record(s(5.0));
    assert_eq!(gradient(&d), 0.0);
    d.reset();
    d.record(s(-1.0));
    d.record(s(0.0));
    d.record(s(1.0));
    assert_eq!(gradient(&d), 0.0);
}

#[test]
fn oscillation_fraction_alternations() {
    assert_eq!(oscillation(&det()), 0.0);
    let d = filled(&[1.0, 3.0, 0.5, 2.5, 0.7]);
    assert!((oscillation(&d) - 1.0).abs() < 1e-12);
    let d = filled(&[1.0, 2.0, 3.0, 4.0, 5.0]);
    assert!((oscillation(&d) - 0.0).abs() < 1e-12);
}

#[test]
fn oscillation_ignores_zero_deltas() {
    let d = filled(&[1.0, 1.0, 3.0, 3.0, 0.5]);
    assert!((oscillation(&d) - 1.0).abs() < 1e-12);
}

#[test]
fn consecutive_increases_counts_flat_as_increase() {
    let mut d = filled(&[5.0, 4.0, 3.0]);
    assert_eq!(d.consecutive_increases(), 0);
    d.record(s(3.5));
    assert_eq!(d.consecutive_increases(), 1);
    d.record(s(3.5));
    assert_eq!(d.consecutive_increases(), 2);
}

#[test]
fn check_requires_full_window() {
    let d = filled(&[9.0, 9.0, 9.0]);
    assert!(d.check(&num()).is_none());
}

#[test]
fn check_detects_divergence_first() {
    let d = filled(&[10.0, 11.0, 12.0, 13.0, 14.0]);
    assert_eq!(d.check(&num()), Some(TerminationReason::StagnationDivergence));
}

#[test]
fn check_detects_oscillation() {
    let d = filled(&[10.0, 14.0, 10.0, 14.0, 10.0]);
    assert_eq!(d.check(&num()), Some(TerminationReason::StagnationOscillation));
}

#[test]
fn flat_and_rising_series_diverge_first_python_faithful() {
    let d = filled(&[5.0, 5.0, 5.0, 5.0, 5.0]);
    assert_eq!(d.check(&num()), Some(TerminationReason::StagnationDivergence));
    let mut d_up = det();
    for i in 0..5 {
        d_up.record(s(50.0 + 1e-6 * i as f64));
    }
    assert_eq!(d_up.check(&num()), Some(TerminationReason::StagnationDivergence));
}

#[test]
fn check_detects_plateau_on_slow_improvement() {
    let mut d = det();
    for i in 0..5 {
        d.record(s(50.0 - 1e-6 * i as f64));
    }
    assert_eq!(d.check(&num()), Some(TerminationReason::StagnationPlateau));
    let d2 = filled(&[100.0, 90.0, 80.0, 70.0, 60.0]);
    assert_eq!(d2.check(&num()), None);
}

#[test]
fn windows_and_streaks_are_at_least_two() {
    let mut d = StagnationDetector::from_params(0, s(1e-4), s(0.75), 0);
    d.record(s(3.0));
    assert_eq!(d.check(&num()), None);
    d.record(s(3.0));
    assert_eq!(d.count(), 2);
    assert_eq!(fv(d.history()), vec![3.0, 3.0]);
    assert_eq!(d.check(&num()), Some(TerminationReason::StagnationPlateau));
    d.record(s(3.0));
    assert_eq!(d.check(&num()), Some(TerminationReason::StagnationDivergence));
}

fn summary(d: &StagnationDetector) -> String {
    d.summary(
        &num(),
        &|x: Scalar| format!("{:+.2e}", f(x)),
        &|x: Scalar| format!("{:.0}", f(x)),
    )
}

#[test]
fn summary_format_smoke() {
    let mut d = det();
    d.record(s(1.0));
    let text = summary(&d);
    assert!(text.contains("samples=1"));
    assert!(text.contains("consecutive_up=0"));
}

#[test]
fn summary_shows_all_figures() {
    let d = filled(&[1.0, 2.0, 1.0, 2.0, 1.0]);
    assert_eq!(
        summary(&d),
        "StagnationDetector(samples=5, gradient=+0.00e0, oscillation=100%, consecutive_up=0)"
    );
    let d = filled(&[10.0, 8.0, 6.0, 4.0, 2.0]);
    assert_eq!(
        summary(&d),
        "StagnationDetector(samples=5, gradient=-3.33e-1, oscillation=0%, consecutive_up=0)"
    );
}
