//! What the formulas of the merit mean, over real numbers: where a demand is
//! met, how a residual moves with a simulated value, and that the slopes are
//! the slopes of the residuals.
use crate::merit::formula;
use crate::merit::spec::MeritTarget;
use crate::merit::{ConstraintKind, SimTransform};
use crate::numeric;
use crate::numeric::Numeric;
use crate::optics::Optics;
use crate::reading;
use crate::reading::{add_up, size, Reading};
use crate::scalar;
use crate::scalar::Scalar;
use vstd::prelude::*;

verus! {

/// A linear difference is the simulated value times the factor, less the
/// target.
pub proof fn a_linear_gap_is_scaled<A: Numeric, O: Optics>(
    num: A,
    ph: O,
    k: Reading,
    transform: SimTransform,
    factor: Scalar,
    raw: Scalar,
    target: Scalar,
)
    requires
        reading::faithful(num, k),
        transform is Linear || transform is Complex,
        factor.finite() && raw.finite() && target.finite(),
        k.holds(k.of(raw) * k.of(factor)),
        k.holds(k.of(raw) * k.of(factor) - k.of(target)),
    ensures
        k.is(
            formula::scaled_gap(num, ph, transform, factor, raw, target),
            k.of(raw) * k.of(factor) - k.of(target),
        ),
{
}

/// The slope is the slope of the gap: between any two simulated values, a
/// linear difference moves by the step times the slope, for every factor.
pub proof fn a_linear_gap_moves_by_its_slope<A: Numeric, O: Optics>(
    num: A,
    ph: O,
    k: Reading,
    transform: SimTransform,
    factor: Scalar,
    a: Scalar,
    b: Scalar,
    target: Scalar,
)
    requires
        reading::faithful(num, k),
        transform is Linear || transform is Complex,
        factor.finite() && a.finite() && b.finite() && target.finite(),
        k.holds(k.of(a) * k.of(factor)),
        k.holds(k.of(b) * k.of(factor)),
        k.holds(k.of(a) * k.of(factor) - k.of(target)),
        k.holds(k.of(b) * k.of(factor) - k.of(target)),
    ensures
        k.of(formula::scaled_gap(num, ph, transform, factor, b, target)) - k.of(
            formula::scaled_gap(num, ph, transform, factor, a, target),
        ) == (k.of(b) - k.of(a)) * k.of(formula::transform_slope(num, transform, a, factor)),
{
    let (x, y, f) = (k.of(a), k.of(b), k.of(factor));
    assert(y * f - x * f == (y - x) * f) by (nonlinear_arith);
}

/// A logarithmic difference is the decades of the simulated value times the
/// factor, less the target; it does not move at and below the floor, and
/// above it the slope times the value and the logarithm of ten is the factor.
pub proof fn a_logarithmic_gap_is_in_decades<A: Numeric, O: Optics>(
    num: A,
    ph: O,
    k: Reading,
    factor: Scalar,
    raw: Scalar,
    target: Scalar,
    ln_ten: real,
)
    requires
        reading::faithful(num, k),
        factor.finite() && raw.finite() && target.finite(),
        k.of(Scalar { bits: 0x4002_6BB1_BBB5_5516 }) == ln_ten,
        ln_ten > 0real,
        k.of(Scalar { bits: 0x3d71_9799_812d_ea11 }) > 0real,
    ensures
        ({
            let floor = Scalar { bits: 0x3d71_9799_812d_ea11 };
            let slope = formula::transform_slope(num, SimTransform::Log, raw, factor);
            let gap = formula::scaled_gap(num, ph, SimTransform::Log, factor, raw, target);
            if k.of(floor) < k.of(raw) {
                let decades = ph.decadic(raw);
                &&& (decades.finite() && k.holds(k.of(decades) * k.of(factor)) && k.holds(
                    k.of(decades) * k.of(factor) - k.of(target),
                )) ==> k.is(gap, k.of(decades) * k.of(factor) - k.of(target))
                &&& (k.holds(k.of(raw) * ln_ten) && k.holds(k.of(factor) / (k.of(raw) * ln_ten)))
                    ==> k.of(slope) * (k.of(raw) * ln_ten) == k.of(factor)
            } else {
                &&& gap == formula::scaled_gap(num, ph, SimTransform::Log, factor, floor, target)
                &&& k.is(slope, 0real)
            }
        }),
{
    let floor = Scalar { bits: 0x3d71_9799_812d_ea11 };
    reading::order_reads(k, floor, raw);
    reading::order_reads(k, raw, floor);
    reading::order_reads(k, floor, floor);
    if k.of(floor) < k.of(raw) {
        let d = k.of(raw) * ln_ten;
        assert(d > 0real) by (nonlinear_arith)
            requires
                d == k.of(raw) * ln_ten,
                k.of(raw) > 0real,
                ln_ten > 0real,
        ;
        reading::over_and_back(k.of(factor), d);
    } else {
        assert(scalar::greater(floor, floor) == floor);
        if k.of(raw) == k.of(floor) {
            assert(raw.key() == floor.key());
            assert(raw == floor);
        }
    }
}

/// A wrapped difference of phases is the difference less whole turns, and no
/// more than half a turn, where rounding goes to a nearest whole number.
pub proof fn a_wrapped_gap_is_the_same_phase<A: Numeric, O: Optics>(
    num: A,
    ph: O,
    k: Reading,
    d: Scalar,
    turns: int,
)
    requires
        reading::faithful(num, k),
        d.finite(),
        ({
            let turn = k.of(Scalar { bits: 0x4019_21FB_5444_2D18 });
            let exact = k.of(d) / turn;
            &&& turn > 0real
            &&& k.holds(exact)
            &&& forall|q: Scalar| #[trigger]
                k.is(q, exact) ==> k.is(ph.rounded(q), turns as real)
            &&& size(exact - turns as real) * 2real <= 1real
            &&& k.holds(turn * (turns as real))
            &&& k.holds(k.of(d) - turn * (turns as real))
        }),
    ensures
        ({
            let turn = k.of(Scalar { bits: 0x4019_21FB_5444_2D18 });
            let w = formula::wrapped(num, ph, d);
            &&& k.is(w, k.of(d) - turn * (turns as real))
            &&& size(k.of(w)) * 2real <= turn
        }),
{
    let bits = Scalar { bits: 0x4019_21FB_5444_2D18 };
    let turn = k.of(bits);
    let x = k.of(d);
    let m = turns as real;
    assert(k.is(num.quotient(d, bits), x / turn));
    reading::over_and_back(x, turn);
    let e = x / turn - m;
    assert(x - turn * m == turn * e) by (nonlinear_arith)
        requires
            (x / turn) * turn == x,
            e == x / turn - m,
    ;
    assert(-turn <= (turn * e) * 2real <= turn) by (nonlinear_arith)
        requires
            turn > 0real,
            -1real <= e * 2real <= 1real,
    ;
}

/// The sign of a difference.
proof fn sign_reads(k: Reading, d: Scalar)
    requires
        reading::readable(k),
        d.finite(),
    ensures
        formula::sign_of(d).finite(),
        k.of(d) > 0real ==> k.of(formula::sign_of(d)) == 1real,
        k.of(d) < 0real ==> k.of(formula::sign_of(d)) == -1real,
{
    let zero = Scalar { bits: 0 };
    let one = Scalar { bits: 0x3FF0_0000_0000_0000 };
    reading::order_reads(k, d, zero);
    reading::order_reads(k, zero, d);
    assert(k.of(scalar::negated(one)) == -k.of(one));
}

/// The half-width of the box of a demand.
pub open spec fn width(k: Reading, tol: Scalar, bw: Scalar) -> real {
    if k.of(bw) <= 0real {
        k.of(tol)
    } else {
        k.of(bw)
    }
}

/// A demand is met at a difference.
pub open spec fn met(kind: ConstraintKind, d: real, width: real) -> bool {
    match kind {
        ConstraintKind::Exact | ConstraintKind::CenterBand => d == 0real,
        ConstraintKind::Above => d >= 0real,
        ConstraintKind::Below => d <= 0real,
        ConstraintKind::Range => size(d) <= width,
    }
}

/// What a residual is, over real numbers: a violated demand's difference in
/// tolerances; for a box, the part of it that sticks out; inside a soft band,
/// the difference in half-widths.
pub open spec fn meaning(
    kind: ConstraintKind,
    d: real,
    tol: real,
    bw: real,
    r: real,
) -> bool {
    let half = if bw <= 0real {
        tol
    } else {
        bw
    };
    match kind {
        ConstraintKind::Exact => r * tol == d,
        ConstraintKind::Above => if d < 0real {
            r * tol == d
        } else {
            r == 0real
        },
        ConstraintKind::Below => if d > 0real {
            r * tol == d
        } else {
            r == 0real
        },
        ConstraintKind::Range => if size(d) <= half {
            r == 0real
        } else {
            r * tol == size(d) - half
        },
        ConstraintKind::CenterBand => if bw <= 0real {
            r * tol == d
        } else if size(d) <= bw {
            r * bw == d
        } else {
            // The excess in tolerances, and one, at right angles.
            r > 0real && (r * r - 1real) * (tol * tol) == (size(d) - bw) * (size(d) - bw)
        },
    }
}

/// The numbers that a residual meets on its way can be held; `root` is the
/// soft excess.
pub open spec fn comfortable(k: Reading, d: real, tol: real, bw: real, root: real) -> bool {
    let half = if bw <= 0real {
        tol
    } else {
        bw
    };
    let u = (size(d) - bw) / tol;
    &&& tol > 0real
    &&& k.holds(d / tol)
    &&& k.holds(1real / tol)
    &&& k.holds(-1real / tol)
    &&& bw > 0real ==> k.holds(d / bw) && k.holds(1real / bw)
    &&& k.holds(size(d) - half)
    &&& k.holds((size(d) - half) / tol)
    &&& bw > 0real && size(d) > bw ==> {
        &&& k.holds(size(d) - bw)
        &&& k.holds(u)
        &&& k.holds(u * u)
        &&& k.holds(u * u + 1real)
        &&& k.holds(root)
        &&& root > 0real
        &&& root * root == u * u + 1real
        &&& k.holds(-u)
        &&& k.holds(tol * root)
        &&& k.holds(u / (tol * root))
        &&& k.holds((-u) / (tol * root))
    }
}

/// A residual means what its kind says.
pub proof fn a_residual_means_its_kind<A: Numeric>(
    num: A,
    k: Reading,
    kind: ConstraintKind,
    d: Scalar,
    tol: Scalar,
    bw: Scalar,
    root: real,
)
    requires
        reading::faithful(num, k),
        d.finite() && tol.finite() && bw.finite(),
        comfortable(k, k.of(d), k.of(tol), k.of(bw), root),
    ensures
        formula::residual(num, kind, d, tol, bw).finite(),
        meaning(
            kind,
            k.of(d),
            k.of(tol),
            k.of(bw),
            k.of(formula::residual(num, kind, d, tol, bw)),
        ),
{
    let zero = Scalar { bits: 0 };
    let one = Scalar { bits: 0x3FF0_0000_0000_0000 };
    reading::order_reads(k, d, zero);
    reading::order_reads(k, zero, d);
    reading::order_reads(k, bw, zero);
    let m = scalar::absolute(d);
    reading::order_reads(k, m, bw);
    reading::order_reads(k, m, tol);
    let (x, t, b) = (k.of(d), k.of(tol), k.of(bw));
    reading::over_and_back(x, t);
    reading::over_and_back(size(x) - t, t);
    reading::over_and_back(size(x) - b, t);
    if b > 0real {
        reading::over_and_back(x, b);
    }
    if kind is CenterBand && b > 0real && size(x) > b {
        let u = (size(x) - b) / t;
        let e = size(x) - b;
        assert((root * root - 1real) * (t * t) == e * e) by (nonlinear_arith)
            requires
                root * root == u * u + 1real,
                u * t == e,
        ;
        let us = num.quotient(num.difference(m, bw), tol);
        assert(k.is(us, u));
        assert(k.is(num.product(us, us), u * u));
        assert(k.is(num.sum(num.product(us, us), one), u * u + 1real));
        assert(k.is(num.square_root(num.sum(num.product(us, us), one)), root));
    }
}

/// A residual vanishes exactly where the demand is met; that of a soft band
/// only at its centre.
pub proof fn a_residual_vanishes_where_it_is_met<A: Numeric>(
    num: A,
    k: Reading,
    kind: ConstraintKind,
    d: Scalar,
    tol: Scalar,
    bw: Scalar,
    root: real,
)
    requires
        reading::faithful(num, k),
        d.finite() && tol.finite() && bw.finite(),
        comfortable(k, k.of(d), k.of(tol), k.of(bw), root),
    ensures
        k.of(formula::residual(num, kind, d, tol, bw)) == 0real <==> met(
            kind,
            k.of(d),
            width(k, tol, bw),
        ),
{
    a_residual_means_its_kind(num, k, kind, d, tol, bw, root);
    let r = k.of(formula::residual(num, kind, d, tol, bw));
    let (x, t, b) = (k.of(d), k.of(tol), k.of(bw));
    assert(r == 0real ==> r * t == 0real && r * b == 0real) by (nonlinear_arith);
    assert(r * t == 0real && t > 0real ==> r == 0real) by (nonlinear_arith);
    assert(r * b == 0real && b > 0real ==> r == 0real) by (nonlinear_arith);
}

/// Two differences lie on one straight piece of a residual: both active on
/// the same side, or both inside a soft band.
pub open spec fn one_piece(kind: ConstraintKind, x: real, y: real, tol: real, bw: real) -> bool {
    let half = if bw <= 0real {
        tol
    } else {
        bw
    };
    match kind {
        ConstraintKind::Exact => true,
        ConstraintKind::Above => (x < 0real && y < 0real) || (x >= 0real && y >= 0real),
        ConstraintKind::Below => (x > 0real && y > 0real) || (x <= 0real && y <= 0real),
        ConstraintKind::Range => (x > half && y > half) || (x < -half && y < -half) || (size(x)
            <= half && size(y) <= half),
        ConstraintKind::CenterBand => bw <= 0real || (size(x) <= bw && size(y) <= bw),
    }
}

/// The slope of a residual is its slope: on one straight piece, the residual
/// moves by the step of the difference times the slope.
pub proof fn a_residual_moves_by_its_slope<A: Numeric>(
    num: A,
    k: Reading,
    kind: ConstraintKind,
    a: Scalar,
    b: Scalar,
    tol: Scalar,
    bw: Scalar,
    root_a: real,
    root_b: real,
)
    requires
        reading::faithful(num, k),
        a.finite() && b.finite() && tol.finite() && bw.finite(),
        comfortable(k, k.of(a), k.of(tol), k.of(bw), root_a),
        comfortable(k, k.of(b), k.of(tol), k.of(bw), root_b),
        one_piece(kind, k.of(a), k.of(b), k.of(tol), k.of(bw)),
    ensures
        formula::residual_slope(num, kind, a, tol, bw).finite(),
        k.of(formula::residual(num, kind, b, tol, bw)) - k.of(
            formula::residual(num, kind, a, tol, bw),
        ) == (k.of(b) - k.of(a)) * k.of(formula::residual_slope(num, kind, a, tol, bw)),
{
    a_residual_means_its_kind(num, k, kind, a, tol, bw, root_a);
    a_residual_means_its_kind(num, k, kind, b, tol, bw, root_b);
    let zero = Scalar { bits: 0 };
    reading::order_reads(k, a, zero);
    reading::order_reads(k, zero, a);
    reading::order_reads(k, bw, zero);
    let m = scalar::absolute(a);
    reading::order_reads(k, m, bw);
    reading::order_reads(k, m, tol);
    sign_reads(k, a);
    let (x, y, t, h) = (k.of(a), k.of(b), k.of(tol), k.of(bw));
    let ra = k.of(formula::residual(num, kind, a, tol, bw));
    let rb = k.of(formula::residual(num, kind, b, tol, bw));
    let s = k.of(formula::residual_slope(num, kind, a, tol, bw));
    reading::over_and_back(1real, t);
    reading::over_and_back(-1real, t);
    if h > 0real {
        reading::over_and_back(1real, h);
    }
    // In each piece the slope times the unit it is taken in is a sign.
    let unit = if kind is CenterBand && h > 0real {
        h
    } else {
        t
    };
    let e = s * unit;
    assert(s == 0real ==> e == 0real) by (nonlinear_arith)
        requires
            e == s * unit,
    ;
    assert(ra == 0real ==> ra * unit == 0real) by (nonlinear_arith);
    assert(rb == 0real ==> rb * unit == 0real) by (nonlinear_arith);
    assert(e == 0real || e == 1real || e == -1real);
    let step = y - x;
    assert(e == 0real ==> step * e == 0real) by (nonlinear_arith);
    assert(e == 1real ==> step * e == step) by (nonlinear_arith);
    assert(e == -1real ==> step * e == -step) by (nonlinear_arith);
    assert(rb * unit - ra * unit == (y - x) * e);
    assert(rb - ra == (y - x) * s) by (nonlinear_arith)
        requires
            rb * unit - ra * unit == (y - x) * e,
            e == s * unit,
            unit > 0real,
    ;
}

/// Outside a soft band the residual and its slope belong together: the
/// residual times its slope is half the slope of its square, the signed
/// excess over the squared tolerance.
pub proof fn a_soft_excess_and_its_slope<A: Numeric>(
    num: A,
    k: Reading,
    d: Scalar,
    tol: Scalar,
    bw: Scalar,
    root: real,
)
    requires
        reading::faithful(num, k),
        d.finite() && tol.finite() && bw.finite(),
        comfortable(k, k.of(d), k.of(tol), k.of(bw), root),
        0real < k.of(bw) < size(k.of(d)),
    ensures
        ({
            let r = k.of(formula::residual(num, ConstraintKind::CenterBand, d, tol, bw));
            let s = k.of(formula::residual_slope(num, ConstraintKind::CenterBand, d, tol, bw));
            (r * s) * (k.of(tol) * k.of(tol)) == reading::sign(k.of(d)) * (size(k.of(d)) - k.of(
                bw,
            ))
        }),
{
    let zero = Scalar { bits: 0 };
    let one = Scalar { bits: 0x3FF0_0000_0000_0000 };
    reading::order_reads(k, d, zero);
    reading::order_reads(k, zero, d);
    reading::order_reads(k, bw, zero);
    let m = scalar::absolute(d);
    reading::order_reads(k, m, bw);
    sign_reads(k, d);
    let (x, t, b) = (k.of(d), k.of(tol), k.of(bw));
    let u = (size(x) - b) / t;
    let e = size(x) - b;
    reading::over_and_back(e, t);
    let us = num.quotient(num.difference(m, bw), tol);
    assert(k.is(us, u));
    assert(k.is(num.product(us, us), u * u));
    assert(k.is(num.sum(num.product(us, us), one), u * u + 1real));
    let rs = num.square_root(num.sum(num.product(us, us), one));
    assert(k.is(rs, root));
    let sg = formula::sign_of(d);
    let up = if x < 0real {
        -u
    } else {
        u
    };
    assert(k.of(sg) * u == up) by (nonlinear_arith)
        requires
            (x > 0real && k.of(sg) == 1real) || (x < 0real && k.of(sg) == -1real),
            up == (if x < 0real {
                -u
            } else {
                u
            }),
    ;
    assert(k.is(num.product(sg, us), up));
    assert(k.is(num.product(tol, rs), t * root));
    let below = t * root;
    assert(below > 0real) by (nonlinear_arith)
        requires
            below == t * root,
            t > 0real,
            root > 0real,
    ;
    reading::over_and_back(up, below);
    let s = up / below;
    assert((root * s) * (t * t) == up * t) by (nonlinear_arith)
        requires
            s * below == up,
            below == t * root,
    ;
    assert(up * t == (if x < 0real {
        -e
    } else {
        e
    })) by (nonlinear_arith)
        requires
            u * t == e,
            up == (if x < 0real {
                -u
            } else {
                u
            }),
    ;
    assert(k.is(formula::residual(num, ConstraintKind::CenterBand, d, tol, bw), root));
    assert(k.is(formula::residual_slope(num, ConstraintKind::CenterBand, d, tol, bw), s));
    let turned = reading::sign(x);
    assert(turned * e == up * t) by (nonlinear_arith)
        requires
            (x < 0real && turned == -1real && up * t == -e) || (x >= 0real && turned == 1real
                && up * t == e),
    ;
}

/// The square of a frame's scale is its weight over its count.
pub proof fn a_scale_squares_to_the_weight<A: Numeric>(
    num: A,
    k: Reading,
    t: MeritTarget,
    root: real,
)
    requires
        reading::faithful(num, k),
        t.weight.finite(),
        t.count_norm matches Some(c) ==> c.finite() && k.of(c) > 0real,
        ({
            let n = match t.count_norm {
                Some(c) => k.of(c),
                None => 1real,
            };
            &&& k.holds(k.of(t.weight) / n)
            &&& root >= 0real && k.holds(root) && root * root == k.of(t.weight) / n
        }),
    ensures
        k.is(formula::frame_scale(num, t), root),
        t.count_norm matches Some(c) ==> (root * root) * k.of(c) == k.of(t.weight),
        t.count_norm is None ==> root * root == k.of(t.weight),
{
    let n = match t.count_norm {
        Some(c) => k.of(c),
        None => 1real,
    };
    reading::over_and_back(k.of(t.weight), n);
}

/// A mean is the sum of the numbers over how many there are.
pub proof fn a_mean_is_the_sum_over_the_count<A: Numeric>(num: A, k: Reading, xs: Seq<Scalar>)
    requires
        reading::faithful(num, k),
        reading::summable(k, xs),
        0 < xs.len() <= usize::MAX,
        k.holds(xs.len() as real),
        k.holds(add_up(k, xs, xs.len() as int) / (xs.len() as real)),
    ensures
        formula::average(num, xs).finite(),
        k.of(formula::average(num, xs)) * (xs.len() as real) == add_up(k, xs, xs.len() as int),
{
    let n = xs.len() as int;
    a_tally_adds_up(num, k, xs, n);
    assert(xs.len() as usize == xs.len());
    assert(k.is(num.whole(xs.len() as usize), xs.len() as real));
    reading::over_and_back(add_up(k, xs, n), xs.len() as real);
}

/// Sums from zero, or from negative zero, add the numbers up.
pub proof fn a_tally_adds_up<A: Numeric>(num: A, k: Reading, xs: Seq<Scalar>, n: int)
    requires
        reading::faithful(num, k),
        reading::summable(k, xs),
        0 <= n <= xs.len(),
    ensures
        k.is(formula::tally(num, xs, n), add_up(k, xs, n)),
        k.is(numeric::sum_of(num, xs, n), add_up(k, xs, n)),
    decreases n,
{
    let zero = Scalar { bits: 0 };
    let negative = Scalar { bits: 0x8000_0000_0000_0000 };
    assert(negative == scalar::negated(zero));
    assert(k.of(scalar::negated(zero)) == -k.of(zero));
    if n > 0 {
        a_tally_adds_up(num, k, xs, n - 1);
        assert(xs[n - 1].finite());
        assert(k.holds(add_up(k, xs, n)));
    }
}

} // verus!
