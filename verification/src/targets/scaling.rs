//! Targets and simulated curves meet in one normalized space.
use crate::merit::formula;
use crate::numeric;
use crate::numeric::Numeric;
use crate::optics::Optics;
use crate::reading;
use crate::reading::{add_up, size, Reading};
use crate::scalar;
use crate::scalar::Scalar;
use crate::spectralweave::targetweaver;
use crate::spectralweave::targetweaver::ResolvedNormMode;
use crate::targets::compile;
use vstd::prelude::*;

verus! {

/// The logarithm that a target is normalized with is the one that a curve is
/// compared with.
pub open spec fn one_logarithm<O: Optics, L: Fn(Scalar) -> Scalar>(ph: O, log10: L) -> bool {
    forall|x: Scalar| #[trigger] ph.decadic(x) == numeric::image_of(log10, x)
}

/// A curve is compared with a target in the space of the target: the scaled
/// difference of a simulated value from a normalized target is the difference
/// of the two values, both normalized alike. A phase is not scaled and its
/// difference is wrapped; a complex demand's factor is neutral.
pub proof fn values_and_targets_are_scaled_alike<A: Numeric, O: Optics, L: Fn(Scalar) -> Scalar>(
    num: A,
    ph: O,
    log10: L,
    mode: ResolvedNormMode,
    factor: Scalar,
    raw: Scalar,
    v: Scalar,
)
    requires
        one_logarithm(ph, log10),
        mode is Complex ==> num.product(raw, factor) == raw,
    ensures
        ({
            let target = targetweaver::normalized_value(num, log10, mode, factor, v);
            let gap = formula::scaled_gap(
                num,
                ph,
                compile::transform_of(mode),
                factor,
                raw,
                target,
            );
            let apart = num.difference(
                targetweaver::normalized_value(num, log10, mode, factor, raw),
                target,
            );
            if mode is Phase {
                gap == formula::wrapped(num, ph, apart)
            } else {
                gap == apart
            }
        }),
{
}

/// A curve that meets its target has no gap: for every mode, factor and value,
/// the scaled difference is a number less itself.
pub proof fn a_curve_that_meets_its_target_has_no_gap<
    A: Numeric,
    O: Optics,
    L: Fn(Scalar) -> Scalar,
>(num: A, ph: O, log10: L, mode: ResolvedNormMode, factor: Scalar, v: Scalar)
    requires
        one_logarithm(ph, log10),
        mode is Complex ==> num.product(v, factor) == v,
    ensures
        ({
            let gap = formula::scaled_gap(
                num,
                ph,
                compile::transform_of(mode),
                factor,
                v,
                targetweaver::normalized_value(num, log10, mode, factor, v),
            );
            exists|x: Scalar|
                if mode is Phase {
                    gap == formula::wrapped(num, ph, #[trigger] num.difference(x, x))
                } else {
                    gap == num.difference(x, x)
                }
        }),
{
    let x = targetweaver::normalized_value(num, log10, mode, factor, v);
    values_and_targets_are_scaled_alike(num, ph, log10, mode, factor, v, v);
    let none = num.difference(x, x);
}

/// What a normalized value means: a linear one is the value times the factor,
/// a logarithmic one its decades times the factor, and a phase or a complex
/// value is left as it is.
pub proof fn a_normalized_value_is_scaled<A: Numeric, L: Fn(Scalar) -> Scalar>(
    num: A,
    k: Reading,
    log10: L,
    mode: ResolvedNormMode,
    factor: Scalar,
    v: Scalar,
)
    requires
        reading::faithful(num, k),
        factor.finite() && v.finite(),
        mode is Linear ==> k.holds(k.of(v) * k.of(factor)),
    ensures
        ({
            let r = targetweaver::normalized_value(num, log10, mode, factor, v);
            let floor = Scalar { bits: 0x3d71_9799_812d_ea11 };
            match mode {
                ResolvedNormMode::Linear => k.is(r, k.of(v) * k.of(factor)),
                ResolvedNormMode::Log => {
                    let decades = numeric::image_of(
                        log10,
                        if scalar::less(v, floor) {
                            floor
                        } else {
                            v
                        },
                    );
                    decades.finite() && k.holds(k.of(decades) * k.of(factor)) ==> k.is(
                        r,
                        k.of(decades) * k.of(factor),
                    )
                },
                _ => r == v,
            }
        }),
{
}

/// The edge of a band around a value: half the width above it, above the
/// floor of a logarithm.
pub open spec fn edge<A: Numeric>(num: A, mode: ResolvedNormMode, v: Scalar, b: Scalar) -> Scalar {
    let floor = Scalar { bits: 0x3d71_9799_812d_ea11 };
    num.sum(
        if mode is Log {
            scalar::greater(v, floor)
        } else {
            v
        },
        b,
    )
}

/// A half-width reaches from the normalized value to the normalized edge of
/// its band, and is zero without a band.
pub proof fn a_band_reaches_its_edge<A: Numeric, L: Fn(Scalar) -> Scalar>(
    num: A,
    k: Reading,
    log10: L,
    mode: ResolvedNormMode,
    factor: Scalar,
    v: Scalar,
    b: Scalar,
)
    requires
        reading::faithful(num, k),
        factor.finite() && v.finite() && b.finite(),
        k.of(factor) > 0real,
        k.of(b) >= 0real,
        mode is Phase || mode is Complex ==> k.of(factor) == 1real,
        k.holds(k.of(b) * k.of(factor)),
        k.holds(k.of(v) * k.of(factor)),
        k.holds(k.of(v) + k.of(b)),
        k.holds((k.of(v) + k.of(b)) * k.of(factor)),
        mode is Log ==> {
            let near = numeric::image_of(log10, targetweaver::lifted(v));
            let far = numeric::image_of(log10, targetweaver::lifted(edge(num, mode, v, b)));
            &&& near.finite() && far.finite()
            &&& k.holds(k.of(far) - k.of(near))
            &&& k.holds(size(k.of(far) - k.of(near)) * k.of(factor))
            &&& k.holds(k.of(near) * k.of(factor))
            &&& k.holds(k.of(far) * k.of(factor))
            &&& k.of(b) == 0real ==> far == near
        },
    ensures
        k.of(targetweaver::normalized_width(num, log10, mode, factor, v, b)) == size(
            k.of(
                targetweaver::normalized_value(num, log10, mode, factor, edge(num, mode, v, b)),
            ) - k.of(targetweaver::normalized_value(num, log10, mode, factor, v)),
        ),
{
    let zero = Scalar { bits: 0 };
    reading::order_reads(k, b, zero);
    let (x, w, f) = (k.of(v), k.of(b), k.of(factor));
    assert(w >= 0real && f > 0real ==> w * f >= 0real) by (nonlinear_arith);
    if mode is Log {
        let near = numeric::image_of(log10, targetweaver::lifted(v));
        let far = numeric::image_of(log10, targetweaver::lifted(edge(num, mode, v, b)));
        let apart = num.difference(far, near);
        reading::order_reads(k, apart, zero);
        apart_scaled(k.of(far), k.of(near), f);
    } else if mode is Linear {
        assert((x + w) * f - x * f == w * f) by (nonlinear_arith);
    } else {
        assert(w * 1real == w) by (nonlinear_arith);
    }
}

proof fn apart_scaled(a: real, b: real, f: real)
    requires
        f > 0real,
    ensures
        size(a - b) * f == size(a * f - b * f),
{
    let d = a - b;
    assert((a - b) * f == a * f - b * f) by (nonlinear_arith);
    assert(d < 0real && f > 0real ==> d * f < 0real) by (nonlinear_arith);
    assert(d >= 0real && f > 0real ==> d * f >= 0real) by (nonlinear_arith);
    assert((-d) * f == -(d * f)) by (nonlinear_arith);
}

/// The least and the greatest value bound the others, and are among them.
pub proof fn extremes_are_attained(vs: Seq<Scalar>, n: int)
    requires
        0 < n <= vs.len(),
        forall|i: int| 0 <= i < vs.len() ==> (#[trigger] vs[i]).finite(),
    ensures
        forall|i: int|
            0 <= i < n ==> scalar::at_most(targetweaver::least(vs, n), #[trigger] vs[i])
                && scalar::at_most(vs[i], targetweaver::greatest(vs, n)),
        targetweaver::least(vs, n).finite(),
        targetweaver::greatest(vs, n).finite(),
        exists|i: int|
            0 <= i < n && #[trigger] vs[i].key() == targetweaver::least(vs, n).key(),
        exists|i: int|
            0 <= i < n && #[trigger] vs[i].key() == targetweaver::greatest(vs, n).key(),
    decreases n,
{
    let last = vs[n - 1];
    assert(last.finite());
    if n > 1 {
        extremes_are_attained(vs, n - 1);
        let a = choose|i: int|
            0 <= i < n - 1 && #[trigger] vs[i].key() == targetweaver::least(vs, n - 1).key();
        let b = choose|i: int|
            0 <= i < n - 1 && #[trigger] vs[i].key() == targetweaver::greatest(vs, n - 1).key();
        assert(vs[a].key() == targetweaver::least(vs, n - 1).key());
        assert(vs[b].key() == targetweaver::greatest(vs, n - 1).key());
    } else {
        assert(targetweaver::least(vs, 0) == (Scalar { bits: 0x7FEF_FFFF_FFFF_FFFF }));
        assert(targetweaver::greatest(vs, 0) == (Scalar { bits: 0xFFEF_FFFF_FFFF_FFFF }));
    }
    assert(vs[n - 1].key() == last.key());
}

proof fn total_adds_up<A: Numeric>(num: A, k: Reading, vs: Seq<Scalar>, n: int)
    requires
        reading::faithful(num, k),
        reading::summable(k, vs),
        0 <= n <= vs.len(),
    ensures
        k.is(targetweaver::total(num, vs, n), add_up(k, vs, n)),
    decreases n,
{
    if n > 0 {
        total_adds_up(num, k, vs, n - 1);
        assert(vs[n - 1].finite());
        assert(k.holds(add_up(k, vs, n)));
    }
}

/// Left to the data, a curve is taken as a logarithm exactly where its least
/// value is positive and its greatest a hundred times that or more.
pub proof fn two_decades_make_a_logarithm<A: Numeric>(
    num: A,
    k: Reading,
    vs: Seq<Scalar>,
    name: Seq<char>,
)
    requires
        reading::faithful(num, k),
        vs.len() > 0,
        forall|i: int| 0 <= i < vs.len() ==> (#[trigger] vs[i]).finite(),
        name != "phase"@ && name != "complex"@ && name != "log"@ && name != "linear"@,
        ({
            let lo = k.of(targetweaver::least(vs, vs.len() as int));
            let hi = k.of(targetweaver::greatest(vs, vs.len() as int));
            lo > 0real ==> k.holds(hi / lo)
        }),
    ensures
        ({
            let lo = k.of(targetweaver::least(vs, vs.len() as int));
            let hi = k.of(targetweaver::greatest(vs, vs.len() as int));
            let mode = targetweaver::mode_for(num, vs, name);
            &&& mode is Log || mode is Linear
            &&& mode is Log <==> lo > 0real && hi >= 100real * lo
        }),
{
    let n = vs.len() as int;
    extremes_are_attained(vs, n);
    let los = targetweaver::least(vs, n);
    let his = targetweaver::greatest(vs, n);
    let (lo, hi) = (k.of(los), k.of(his));
    let zero = Scalar { bits: 0 };
    let hundred = Scalar { bits: 0x4059_0000_0000_0000 };
    reading::order_reads(k, zero, los);
    if lo > 0real {
        let q = num.quotient(his, los);
        assert(k.is(q, hi / lo));
        reading::order_reads(k, hundred, q);
        reading::over_and_back(hi, lo);
        let r = hi / lo;
        assert(lo > 0real && r >= 100real ==> r * lo >= 100real * lo) by (nonlinear_arith);
        assert(lo > 0real && r < 100real ==> r * lo < 100real * lo) by (nonlinear_arith);
    }
}

/// A linear factor brings the size of the mean to one; where the values
/// cancel, half the spread; and it is one where there is neither.
pub proof fn a_linear_factor_brings_to_one<A: Numeric>(num: A, k: Reading, vs: Seq<Scalar>)
    requires
        reading::faithful(num, k),
        reading::summable(k, vs),
        0 < vs.len() <= usize::MAX,
        k.holds(vs.len() as real),
        ({
            let n = vs.len() as int;
            let mean = add_up(k, vs, n) / (n as real);
            let spread = k.of(targetweaver::greatest(vs, n)) - k.of(targetweaver::least(vs, n));
            let cancel = k.of(Scalar { bits: 0x3e11_2e0b_e826_d695 });
            &&& k.holds(mean)
            &&& k.holds(spread)
            &&& k.holds(cancel * spread)
            &&& k.holds(spread / 2real)
            &&& mean != 0real ==> k.holds(1real / size(mean))
            &&& spread > 0real ==> k.holds(1real / (spread / 2real))
        }),
    ensures
        ({
            let n = vs.len() as int;
            let mean = add_up(k, vs, n) / (n as real);
            let spread = k.of(targetweaver::greatest(vs, n)) - k.of(targetweaver::least(vs, n));
            let cancel = k.of(Scalar { bits: 0x3e11_2e0b_e826_d695 });
            let f = k.of(targetweaver::linear_factor(num, vs));
            if size(mean) > cancel * spread {
                f * size(mean) == 1real
            } else if spread > 0real {
                f * spread == 2real
            } else {
                f == 1real
            }
        }),
{
    let n = vs.len() as int;
    let zero = Scalar { bits: 0 };
    let two = Scalar { bits: 0x4000_0000_0000_0000 };
    let cancels = Scalar { bits: 0x3e11_2e0b_e826_d695 };
    total_adds_up(num, k, vs, n);
    assert forall|i: int| 0 <= i < vs.len() implies (#[trigger] vs[i]).finite() by {}
    extremes_are_attained(vs, n);
    let los = targetweaver::least(vs, n);
    let his = targetweaver::greatest(vs, n);
    let means = num.quotient(targetweaver::total(num, vs, n), num.whole(n as usize));
    let mean = add_up(k, vs, n) / (n as real);
    assert(k.is(num.whole(n as usize), n as real));
    assert(k.is(means, mean));
    reading::order_reads(k, means, zero);
    let spreads = num.difference(his, los);
    let spread = k.of(his) - k.of(los);
    assert(k.is(spreads, spread));
    let limit = num.product(cancels, spreads);
    assert(k.is(limit, k.of(cancels) * spread));
    reading::order_reads(k, scalar::absolute(means), limit);
    reading::order_reads(k, zero, scalar::absolute(means));
    reading::order_reads(k, zero, cancels);
    reading::order_reads(k, los, his);
    assert(k.of(los) <= k.of(his)) by {
        assert(scalar::at_most(los, vs[0]) && scalar::at_most(vs[0], his));
    }
    let c = k.of(cancels);
    assert(c > 0real && spread >= 0real ==> c * spread >= 0real) by (nonlinear_arith);
    if size(mean) > c * spread {
        reading::over_and_back(1real, size(mean));
    } else {
        let halves = num.quotient(spreads, two);
        let half = spread / 2real;
        assert(k.is(halves, half));
        reading::order_reads(k, zero, halves);
        if spread > 0real {
            reading::over_and_back(1real, half);
            let f = 1real / half;
            assert(f * (half * 2real) == (f * half) * 2real) by (nonlinear_arith);
            assert(half * 2real == spread);
        }
    }
}

/// A logarithmic factor brings the mean size of the decades to one, where
/// that mean is not as good as zero.
pub proof fn a_logarithmic_factor_brings_to_one<A: Numeric, L: Fn(Scalar) -> Scalar>(
    num: A,
    k: Reading,
    log10: L,
    vs: Seq<Scalar>,
)
    requires
        reading::faithful(num, k),
        0 < vs.len() <= usize::MAX,
        k.holds(vs.len() as real),
        ({
            let n = vs.len() as int;
            let ls = targetweaver::log_sizes(log10, vs);
            let mean = add_up(k, ls, n) / (n as real);
            let spread = k.of(targetweaver::greatest(ls, n)) - k.of(targetweaver::least(ls, n));
            let tiny = k.of(Scalar { bits: 0x01a5_6e1f_c2f8_f359 });
            let cancel = k.of(Scalar { bits: 0x3e11_2e0b_e826_d695 });
            let wide = if spread < tiny {
                tiny
            } else {
                spread
            };
            &&& reading::summable(k, ls)
            &&& k.holds(mean)
            &&& k.holds(spread)
            &&& k.holds(cancel * wide)
            &&& tiny < 1real
            &&& mean > tiny ==> k.holds(1real / mean)
            &&& mean > cancel * wide ==> mean > tiny
        }),
    ensures
        ({
            let n = vs.len() as int;
            let ls = targetweaver::log_sizes(log10, vs);
            let mean = add_up(k, ls, n) / (n as real);
            let spread = k.of(targetweaver::greatest(ls, n)) - k.of(targetweaver::least(ls, n));
            let tiny = k.of(Scalar { bits: 0x01a5_6e1f_c2f8_f359 });
            let cancel = k.of(Scalar { bits: 0x3e11_2e0b_e826_d695 });
            let wide = if spread < tiny {
                tiny
            } else {
                spread
            };
            let f = k.of(targetweaver::log_factor(num, log10, vs));
            if mean > cancel * wide {
                f * mean == 1real
            } else {
                f == 1real
            }
        }),
{
    let n = vs.len() as int;
    let ls = targetweaver::log_sizes(log10, vs);
    let one = Scalar { bits: 0x3FF0_0000_0000_0000 };
    let tinys = Scalar { bits: 0x01a5_6e1f_c2f8_f359 };
    let cancels = Scalar { bits: 0x3e11_2e0b_e826_d695 };
    total_adds_up(num, k, ls, n);
    assert forall|i: int| 0 <= i < ls.len() implies (#[trigger] ls[i]).finite() by {}
    extremes_are_attained(ls, n);
    let los = targetweaver::least(ls, n);
    let his = targetweaver::greatest(ls, n);
    let means = num.quotient(targetweaver::total(num, ls, n), num.whole(n as usize));
    let mean = add_up(k, ls, n) / (n as real);
    assert(k.is(num.whole(n as usize), n as real));
    assert(k.is(means, mean));
    let spreads = num.difference(his, los);
    let spread = k.of(his) - k.of(los);
    assert(k.is(spreads, spread));
    reading::order_reads(k, spreads, tinys);
    let wides = scalar::greater(spreads, tinys);
    let limit = num.product(cancels, wides);
    assert(wides.finite());
    assert(k.of(limit) == k.of(cancels) * k.of(wides) && limit.finite());
    reading::order_reads(k, means, limit);
    reading::order_reads(k, one, tinys);
    reading::order_reads(k, means, tinys);
    reading::over_and_back(1real, 1real);
    assert(1real / 1real == 1real);
    let zero = Scalar { bits: 0 };
    reading::order_reads(k, zero, tinys);
    if mean > k.of(cancels) * k.of(wides) {
        reading::over_and_back(1real, mean);
    }
}

} // verus!
