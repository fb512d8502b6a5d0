use navette::numeric::{Arith, Numeric};
use navette::scalar::Scalar;

fn s(x: f64) -> Scalar {
    Scalar::from_bits(x.to_bits())
}

#[allow(dead_code)]
fn f(x: Scalar) -> f64 {
    f64::from_bits(x.to_bits())
}

#[allow(dead_code)]
fn sv(v: &[f64]) -> Vec<Scalar> {
    v.iter().map(|x| s(*x)).collect()
}

#[allow(dead_code)]
fn fv(v: &[Scalar]) -> Vec<f64> {
    v.iter().map(|x| f(*x)).collect()
}

#[allow(dead_code)]
fn num() -> impl Numeric {
    Arith {
        plus: |a, b| s(f(a) + f(b)),
        minus: |a, b| s(f(a) - f(b)),
        times: |a, b| s(f(a) * f(b)),
        over: |a, b| s(f(a) / f(b)),
        root: |a| s(f(a).sqrt()),
        count: |n: usize| s(n as f64),
    }
}

use navette::nearest::nearest_index;
use navette::sorting::{sort_positions, sorted_values};
use navette::text::{decimal_text, same_text};

/// Zeros, subnormals, ordinary numbers, extremes, infinities and no numbers.
fn samples() -> Vec<f64> {
    let tiny = f64::from_bits(1);
    let mut v = vec![
        0.0,
        tiny,
        f64::MIN_POSITIVE,
        1e-12,
        0.5,
        1.0,
        1.0 + f64::EPSILON,
        3.75,
        1e12,
        f64::MAX,
        f64::INFINITY,
        f64::NAN,
    ];
    let negative: Vec<f64> = v.iter().map(|x| -x).collect();
    v.extend(negative);
    v
}

#[test]
fn comparisons_agree_with_the_doubles() {
    for a in samples() {
        for b in samples() {
            let (x, y) = (s(a), s(b));
            assert_eq!(x.lt(y), a < b, "{a} < {b}");
            assert_eq!(x.le(y), a <= b, "{a} <= {b}");
            assert_eq!(x.gt(y), a > b, "{a} > {b}");
            assert_eq!(x.ge(y), a >= b, "{a} >= {b}");
            assert_eq!(x.same_value(y), a == b, "{a} == {b}");
            assert_eq!(x.precedes(y), a.total_cmp(&b).is_lt(), "{a} before {b}");
        }
    }
}

#[test]
fn signs_and_sizes_agree_with_the_doubles() {
    for a in samples() {
        let x = s(a);
        assert_eq!(x.is_nan(), a.is_nan());
        assert_eq!(x.is_finite(), a.is_finite());
        assert_eq!(x.abs().to_bits(), a.abs().to_bits());
        assert_eq!(x.neg().to_bits(), (-a).to_bits());
        for b in samples() {
            assert_eq!(x.copysign(s(b)).to_bits(), a.copysign(b).to_bits());
        }
    }
}

#[test]
fn smaller_larger_and_clamped_agree_with_the_doubles() {
    for a in samples() {
        for b in samples() {
            let (lo, hi) = (f(s(a).min(s(b))), f(s(a).max(s(b))));
            assert!(lo == a.min(b) || (lo.is_nan() && a.min(b).is_nan()), "{a} {b}");
            assert!(hi == a.max(b) || (hi.is_nan() && a.max(b).is_nan()), "{a} {b}");
        }
    }
    for (x, want) in [(-2.0, -1.0), (0.25, 0.25), (7.0, 3.0)] {
        assert_eq!(f(s(x).clamp(s(-1.0), s(3.0))), want);
    }
    assert!(f(s(f64::NAN).clamp(s(-1.0), s(3.0))).is_nan());
}

#[test]
fn neighbours_are_adjacent() {
    assert_eq!(f(s(1.0).next_up()), 1.0 + f64::EPSILON);
    assert_eq!(f(s(1.0).next_down()), 1.0 - f64::EPSILON / 2.0);
    assert_eq!(f(s(0.0).next_up()), f64::from_bits(1));
    assert_eq!(f(s(0.0).next_down()), -f64::from_bits(1));
    assert_eq!(f(s(f64::MAX).next_up()), f64::INFINITY);
    assert_eq!(f(s(f64::INFINITY).next_up()), f64::INFINITY);
    for a in samples() {
        if a.is_finite() {
            assert!(f(s(a).next_up()) > a);
            assert!(f(s(a).next_down()) < a);
            assert_eq!(f(s(a).next_up().next_down()), a);
        }
    }
}

#[test]
fn the_first_of_the_nearest_is_taken() {
    let at = |xs: &[f64], x: f64| nearest_index(&num(), &sv(xs), s(x));
    assert_eq!(at(&[0.0, 30.0, 60.0], 25.0), 1);
    assert_eq!(at(&[0.0, 30.0, 60.0], 15.0), 0);
    assert_eq!(at(&[0.0, 30.0, 60.0], 1e9), 2);
    assert_eq!(at(&[10.0, 10.0], 10.0), 0);
    assert_eq!(at(&[1.0, 2.0], f64::NAN), 0);
}

#[test]
fn sorting_is_stable_and_complete() {
    let v = sv(&[3.0, 1.0, 2.0, 1.0, -5.0]);
    assert_eq!(sort_positions(&v), vec![4, 1, 3, 2, 0]);
    assert_eq!(fv(&sorted_values(&v)), vec![-5.0, 1.0, 1.0, 2.0, 3.0]);
    assert!(sort_positions(&Vec::new()).is_empty());
}

#[test]
fn numbers_print_in_decimal() {
    for n in [0u64, 7, 10, 99, 100, 4096, u64::MAX] {
        assert_eq!(decimal_text(n), format!("{n}"));
    }
    assert!(same_text("abc", "abc"));
    assert!(!same_text("abc", "abd"));
    assert!(!same_text("abc", "ab"));
}
