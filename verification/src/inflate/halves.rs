//! Rounding to whole numbers of steps: the nearest one, and of two equally
//! near the even one.
use crate::inflate::{half_even, snapped};
use crate::numeric;
use crate::numeric::Numeric;
use crate::reading;
use crate::reading::{over, size, times, Reading};
use crate::scalar;
use crate::scalar::Scalar;
use vstd::prelude::*;

verus! {

/// `m` is a whole number nearest to `v`, the even one of two.
pub open spec fn nearest_even(v: real, m: int) -> bool {
    &&& size(v - (m as real)) * 2real <= 1real
    &&& size(v - (m as real)) * 2real == 1real ==> m % 2 == 0
}

/// `a` is a whole number nearest to `v`, the one away from zero of two.
pub open spec fn nearest_away(v: real, a: int) -> bool {
    &&& size(v - (a as real)) * 2real <= 1real
    &&& size(v - (a as real)) * 2real == 1real ==> size(a as real) > size(v)
}

/// `t` is `v` without its fraction.
pub open spec fn cut_off(v: real, t: int) -> bool {
    &&& size(v - (t as real)) < 1real
    &&& v >= 0real ==> 0real <= (t as real) <= v
    &&& v <= 0real ==> v <= (t as real) <= 0real
}

/// Rounding is to the nearest whole number, ties to the even one, where the
/// three functions it is made of do what they are called.
pub proof fn rounding_is_to_the_nearest_even<
    A: Numeric,
    R: Fn(Scalar) -> Scalar,
    T: Fn(Scalar) -> Scalar,
    M: Fn(Scalar, Scalar) -> Scalar,
>(num: A, k: Reading, round: R, trunc: T, rem: M, x: Scalar, a: int, t: int)
    requires
        reading::exact(num, k),
        x.finite(),
        x.negative() <==> k.of(x) < 0real,
        k.is(numeric::image_of(round, x), a as real),
        nearest_away(k.of(x), a),
        k.is(numeric::image_of(trunc, x), t as real),
        cut_off(k.of(x), t),
        k.holds(k.of(x) - (t as real)),
        k.holds((a as real) - 1real),
        k.holds((a as real) + 1real),
        ({
            let left = numeric::result_of(
                rem,
                numeric::image_of(round, x),
                Scalar { bits: 0x4000_0000_0000_0000 },
            );
            left.finite() && (k.of(left) == 0real <==> a % 2 == 0)
        }),
    ensures
        exists|m: int| #[trigger]
            nearest_even(k.of(x), m) && k.is(half_even(num, round, trunc, rem, x), m as real),
{
    let v = k.of(x);
    let zero = Scalar { bits: 0 };
    let one = Scalar { bits: 0x3FF0_0000_0000_0000 };
    let half = Scalar { bits: 0x3FE0_0000_0000_0000 };
    let two = Scalar { bits: 0x4000_0000_0000_0000 };
    let away = numeric::image_of(round, x);
    let cut = numeric::image_of(trunc, x);
    let part = num.difference(x, cut);
    assert(k.is(part, v - (t as real)));
    reading::order_reads(k, part, zero);
    reading::order_reads(k, scalar::absolute(part), half);
    let left = numeric::result_of(rem, away, two);
    reading::order_reads(k, left, zero);
    assert(k.of(scalar::negated(one)) == -k.of(one));
    assert(scalar::absolute(one) == one);
    whole_steps(v, a, t);
    let tie = size(v - (t as real)) * 2real == 1real;
    if tie && a % 2 != 0 {
        let m = if v < 0real {
            a + 1
        } else {
            a - 1
        };
        assert(m as real == (if v < 0real {
            (a as real) + 1real
        } else {
            (a as real) - 1real
        }));
        assert(nearest_even(v, m));
    } else {
        assert(nearest_even(v, a));
    }
}

proof fn whole_steps(v: real, a: int, t: int)
    requires
        nearest_away(v, a),
        cut_off(v, t),
    ensures
        size(v - (a as real)) * 2real == 1real ==> size(v - (t as real)) * 2real == 1real,
        size(v - (t as real)) * 2real == 1real ==> a == (if v < 0real {
            t - 1
        } else {
            t + 1
        }),
{
    let d = a - t;
    assert(d as real == (a as real) - (t as real));
    if size(v - (a as real)) * 2real == 1real {
        assert(-2 < d < 2);
    }
    if size(v - (t as real)) * 2real == 1real {
        assert(-2 < d < 2);
    }
}

/// A snapped thickness is the rounded number of steps, one step at least.
pub proof fn a_snapped_thickness_is_whole_steps<
    A: Numeric,
    R: Fn(Scalar) -> Scalar,
    T: Fn(Scalar) -> Scalar,
    M: Fn(Scalar, Scalar) -> Scalar,
>(num: A, k: Reading, round: R, trunc: T, rem: M, d: Scalar, step: Scalar)
    requires
        reading::exact(num, k),
        d.finite() && step.finite(),
        k.of(step) > 0real,
        k.holds(over(k.of(d), k.of(step))),
        ({
            let m = half_even(num, round, trunc, rem, num.quotient(d, step));
            m.finite() && k.holds(times(k.of(m), k.of(step)))
        }),
    ensures
        ({
            let steps = num.quotient(d, step);
            let m = half_even(num, round, trunc, rem, steps);
            let r = k.of(snapped(num, round, trunc, rem, d, step));
            &&& times(k.of(steps), k.of(step)) == k.of(d)
            &&& r == (if times(k.of(m), k.of(step)) < k.of(step) {
                k.of(step)
            } else {
                times(k.of(m), k.of(step))
            })
        }),
{
    let steps = num.quotient(d, step);
    let m = half_even(num, round, trunc, rem, steps);
    reading::undone(k.of(d), k.of(step));
    let whole = num.product(m, step);
    assert(k.is(whole, times(k.of(m), k.of(step))));
    reading::order_reads(k, whole, step);
}

} // verus!
