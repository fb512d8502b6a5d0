//! What the formulas of the damped least squares mean over real numbers.
use crate::linalg;
use crate::numeric;
use crate::numeric::Numeric;
use crate::reading;
use crate::reading::products;
use crate::reading::{over, size, times, Reading};
use crate::scalar;
use crate::scalar::Scalar;
use crate::thick_opt::difference;
use crate::thick_opt::ladder;
use crate::thick_opt::model;
use crate::thick_opt::{LmConfig, LmDamping};
use vstd::prelude::*;

verus! {

/// A coordinate is probed as far above as below, by a step that grows with its
/// size, and the others are left alone.
pub proof fn probes_lie_on_either_side<A: Numeric>(num: A, k: Reading, x: Seq<Scalar>, j: int)
    requires
        reading::exact(num, k),
        0 <= j < x.len(),
        x[j].finite(),
        ({
            let unit = k.of(Scalar { bits: 0x3ed9_65fe_a53d_6e3d });
            let scale = if size(k.of(x[j])) < 1real {
                1real
            } else {
                size(k.of(x[j]))
            };
            &&& k.holds(times(unit, scale))
            &&& k.holds(k.of(x[j]) + times(unit, scale))
            &&& k.holds(k.of(x[j]) - times(unit, scale))
        }),
    ensures
        ({
            let unit = k.of(Scalar { bits: 0x3ed9_65fe_a53d_6e3d });
            let scale = if size(k.of(x[j])) < 1real {
                1real
            } else {
                size(k.of(x[j]))
            };
            let up = difference::probe_up(num, x, j);
            let down = difference::probe_down(num, x, j);
            &&& k.is(difference::probe_step(num, x[j]), times(unit, scale))
            &&& k.of(up[j]) - k.of(x[j]) == times(unit, scale)
            &&& k.of(x[j]) - k.of(down[j]) == times(unit, scale)
            &&& up.len() == x.len() && down.len() == x.len()
            &&& forall|i: int|
                0 <= i < x.len() && i != j ==> #[trigger] up[i] == x[i] && down[i] == x[i]
        }),
{
    let zero = Scalar { bits: 0 };
    let one = Scalar { bits: 0x3FF0_0000_0000_0000 };
    reading::order_reads(k, x[j], zero);
    let m = scalar::absolute(x[j]);
    reading::order_reads(k, m, one);
    let g = scalar::greater(m, one);
    assert(g.finite());
}

/// A difference quotient is the rise over the distance of the probes: for a
/// straight line it is the slope.
pub proof fn a_difference_quotient_is_the_slope<A: Numeric>(
    num: A,
    k: Reading,
    x: Scalar,
    up: Seq<Scalar>,
    down: Seq<Scalar>,
    i: int,
    slope: real,
)
    requires
        reading::exact(num, k),
        0 <= i < up.len(),
        up.len() == down.len(),
        up[i].finite() && down[i].finite(),
        difference::probe_step(num, x).finite(),
        ({
            let step = k.of(difference::probe_step(num, x));
            &&& step != 0real
            &&& k.holds(times(2real, step))
            &&& k.holds(over(1real, times(2real, step)))
            &&& k.of(up[i]) - k.of(down[i]) == times(slope, times(2real, step))
            &&& k.holds(k.of(up[i]) - k.of(down[i]))
            &&& k.holds(slope)
        }),
    ensures
        difference::quotients(num, x, up, down).len() == up.len(),
        k.is(difference::quotients(num, x, up, down)[i], slope),
{
    let two = Scalar { bits: 0x4000_0000_0000_0000 };
    let one = Scalar { bits: 0x3FF0_0000_0000_0000 };
    let step_s = difference::probe_step(num, x);
    let step = k.of(step_s);
    let width = times(2real, step);
    reading::spread_out(1real, 1real, step);
    reading::units(step, step);
    assert(width != 0real);
    assert(k.is(num.product(two, step_s), width));
    let inv = num.quotient(one, num.product(two, step_s));
    assert(k.is(inv, over(1real, width)));
    reading::undone(1real, width);
    reading::regrouped(slope, width, over(1real, width));
    reading::units(width, over(1real, width));
    reading::units(slope, slope);
    assert(k.is(num.difference(up[i], down[i]), times(slope, width)));
}

/// The gain of a step is the obtained share of what was promised.
pub proof fn a_gain_is_the_obtained_share<A: Numeric>(
    num: A,
    k: Reading,
    actual: Scalar,
    predicted: Scalar,
)
    requires
        reading::exact(num, k),
        actual.finite() && predicted.finite(),
        k.of(predicted) > 0real,
        k.holds(over(k.of(actual), k.of(predicted))),
    ensures
        times(k.of(ladder::gain_of(num, actual, predicted)), k.of(predicted)) == k.of(actual),
{
    let zero = Scalar { bits: 0 };
    reading::order_reads(k, zero, predicted);
    reading::undone(k.of(actual), k.of(predicted));
}

/// With fixed factors, damping is multiplied up and divided down: where the
/// factors agree, a raise is undone by the next success, and the multiplier
/// stays.
pub proof fn fixed_damping_goes_up_and_down<A: Numeric>(
    num: A,
    k: Reading,
    cfg: LmConfig,
    lambda: Scalar,
    nu: Scalar,
    actual: Scalar,
    predicted: Scalar,
)
    requires
        reading::exact(num, k),
        cfg.damping == LmDamping::Fixed,
        lambda.finite() && cfg.lambda_up.finite() && cfg.lambda_down.finite(),
        k.of(cfg.lambda_down) != 0real,
        k.holds(times(k.of(lambda), k.of(cfg.lambda_up))),
        k.holds(over(k.of(lambda), k.of(cfg.lambda_down))),
    ensures
        ({
            let up = ladder::raised(num, cfg, lambda, nu);
            let down = ladder::lowered(num, cfg, lambda, nu, actual, predicted);
            &&& k.is(up.0, times(k.of(lambda), k.of(cfg.lambda_up)))
            &&& up.1 == nu
            &&& times(k.of(down.0), k.of(cfg.lambda_down)) == k.of(lambda)
            &&& down.1 == nu
        }),
{
    reading::undone(k.of(lambda), k.of(cfg.lambda_down));
}

/// With the gain ratio, a failure raises the damping by the multiplier and
/// doubles that; a success lowers it by one less the cube of twice the gain
/// less one, a third at least, and starts the multiplier again at two.
pub proof fn gained_damping_goes_up_and_down<A: Numeric>(
    num: A,
    k: Reading,
    cfg: LmConfig,
    lambda: Scalar,
    nu: Scalar,
    actual: Scalar,
    predicted: Scalar,
    gain: real,
)
    requires
        reading::exact(num, k),
        cfg.damping == LmDamping::GainRatio,
        lambda.finite() && nu.finite() && actual.finite() && predicted.finite(),
        k.of(predicted) > 0real,
        gain == over(k.of(actual), k.of(predicted)),
        ({
            let third = k.of(Scalar { bits: 0x3fd5_5555_5555_5555 });
            let t = times(2real, gain) - 1real;
            let cube = times(times(t, t), t);
            let kept = if 1real - cube < third {
                third
            } else {
                1real - cube
            };
            &&& k.holds(gain)
            &&& k.holds(times(2real, gain))
            &&& k.holds(t)
            &&& k.holds(times(t, t))
            &&& k.holds(cube)
            &&& k.holds(1real - cube)
            &&& k.holds(times(k.of(lambda), kept))
            &&& k.holds(times(k.of(lambda), k.of(nu)))
            &&& k.holds(times(k.of(nu), 2real))
        }),
    ensures
        ({
            let third = k.of(Scalar { bits: 0x3fd5_5555_5555_5555 });
            let t = times(2real, gain) - 1real;
            let cube = times(times(t, t), t);
            let kept = if 1real - cube < third {
                third
            } else {
                1real - cube
            };
            let up = ladder::raised(num, cfg, lambda, nu);
            let down = ladder::lowered(num, cfg, lambda, nu, actual, predicted);
            &&& k.is(up.0, times(k.of(lambda), k.of(nu)))
            &&& k.is(up.1, times(k.of(nu), 2real))
            &&& k.is(down.0, times(k.of(lambda), kept))
            &&& k.is(down.1, 2real)
            &&& times(gain, k.of(predicted)) == k.of(actual)
        }),
{
    let zero = Scalar { bits: 0 };
    let one = Scalar { bits: 0x3FF0_0000_0000_0000 };
    let two = Scalar { bits: 0x4000_0000_0000_0000 };
    let third = Scalar { bits: 0x3fd5_5555_5555_5555 };
    reading::order_reads(k, zero, predicted);
    reading::undone(k.of(actual), k.of(predicted));
    let g = num.quotient(actual, predicted);
    assert(k.is(g, gain));
    assert(k.is(num.product(two, g), times(2real, gain)));
    let ts = num.difference(num.product(two, g), one);
    let t = times(2real, gain) - 1real;
    assert(k.is(ts, t));
    assert(k.is(num.product(ts, ts), times(t, t)));
    let cube = num.product(num.product(ts, ts), ts);
    assert(k.is(cube, times(times(t, t), t)));
    let rest = num.difference(one, cube);
    assert(k.is(rest, 1real - k.of(cube)));
    reading::order_reads(k, rest, third);
    assert(scalar::greater(rest, third).finite());
}

/// A step from inside the box leads into it: straight where there is room, to
/// the bound where there is not, and nowhere against a bound it stands on.
pub proof fn a_trial_goes_as_far_as_the_box<A: Numeric>(
    num: A,
    k: Reading,
    x: Seq<Scalar>,
    lo: Seq<Scalar>,
    hi: Seq<Scalar>,
    d: Seq<Scalar>,
    j: int,
)
    requires
        reading::exact(num, k),
        0 <= j < x.len(),
        x[j].finite() && lo[j].finite() && hi[j].finite() && d[j].finite(),
        k.of(lo[j]) <= k.of(x[j]) <= k.of(hi[j]),
        k.of(lo[j]) < k.of(hi[j]),
        k.holds(k.of(x[j]) + k.of(d[j])),
    ensures
        ({
            let to = k.of(x[j]) + k.of(d[j]);
            let r = k.of(ladder::trial_point(num, x, lo, hi, d)[j]);
            r == (if to < k.of(lo[j]) {
                k.of(lo[j])
            } else if to > k.of(hi[j]) {
                k.of(hi[j])
            } else {
                to
            })
        }),
{
    let zero = Scalar { bits: 0 };
    reading::order_reads(k, x[j], lo[j]);
    reading::order_reads(k, hi[j], x[j]);
    reading::order_reads(k, d[j], zero);
    reading::order_reads(k, zero, d[j]);
    let v = ladder::vetoed(x[j], lo[j], hi[j], d[j]);
    assert(k.holds(k.of(x[j])));
    assert(k.of(x[j]) + k.of(zero) == k.of(x[j]));
    let to = num.sum(x[j], v);
    assert(to.finite());
    reading::order_reads(k, to, lo[j]);
    reading::order_reads(k, hi[j], to);
}

/// What the linear model promises: twice the fall along the gradient, less
/// the square of the image of the step.
pub proof fn a_promise_is_the_models_reduction<A: Numeric>(
    num: A,
    k: Reading,
    jac: Seq<Seq<Scalar>>,
    jtr: Seq<Scalar>,
    step: Seq<Scalar>,
)
    requires
        reading::exact(num, k),
        products::multipliable(k, jtr, step),
        ({
            let js = model::row_products(num, Scalar { bits: 0 }, jac, step);
            let fall = products::multiply_up(k, jtr, step, jtr.len() as int);
            let square = products::multiply_up(k, js, js, js.len() as int);
            &&& products::multipliable(k, js, js)
            &&& k.holds(times(-2real, fall))
            &&& k.holds(times(-2real, fall) - square)
        }),
    ensures
        ({
            let js = model::row_products(num, Scalar { bits: 0 }, jac, step);
            let fall = products::multiply_up(k, jtr, step, jtr.len() as int);
            let square = products::multiply_up(k, js, js, js.len() as int);
            k.is(model::promised(num, jac, jtr, step), times(-2real, fall) - square)
        }),
{
    let js = model::row_products(num, Scalar { bits: 0 }, jac, step);
    products::an_inner_product_adds_up(num, k, jtr, step, jtr.len() as int);
    products::an_inner_product_adds_up(num, k, js, js, js.len() as int);
    let two = Scalar { bits: 0x4000_0000_0000_0000 };
    let minus = Scalar { bits: 0xC000_0000_0000_0000 };
    assert(minus == scalar::negated(two));
    assert(k.of(scalar::negated(two)) == -k.of(two));
    let fall = products::multiply_up(k, jtr, step, jtr.len() as int);
    assert(k.is(num.product(minus, numeric::dot_of(num, jtr, step)), times(-2real, fall)));
}

/// The greatest cosine is not below any column's, and is that of one of them.
pub proof fn the_greatest_cosine_is_a_columns<A: Numeric>(
    num: A,
    jtr: Seq<Scalar>,
    squares: Seq<Scalar>,
    r_norm: Scalar,
    n: int,
)
    requires
        0 <= n <= squares.len(),
        forall|j: int| 0 <= j < n ==> !(#[trigger] cosine(num, jtr, squares, r_norm, j)).nan(),
    ensures
        ({
            let g = model::greatest_cosine(num, jtr, squares, r_norm, n);
            let zero = Scalar { bits: 0 };
            &&& !g.nan()
            &&& scalar::at_most(zero, g)
            &&& forall|j: int|
                0 <= j < n && #[trigger] counts(num, squares, j) ==> scalar::at_most(
                    cosine(num, jtr, squares, r_norm, j),
                    g,
                )
            &&& g == zero || exists|j: int|
                0 <= j < n && #[trigger] counts(num, squares, j) && g == cosine(
                    num,
                    jtr,
                    squares,
                    r_norm,
                    j,
                )
        }),
    decreases n,
{
    if n > 0 {
        the_greatest_cosine_is_a_columns(num, jtr, squares, r_norm, n - 1);
        let c = cosine(num, jtr, squares, r_norm, n - 1);
        let acc = model::greatest_cosine(num, jtr, squares, r_norm, n - 1);
        let g = model::greatest_cosine(num, jtr, squares, r_norm, n);
        assert(!c.nan());
        if counts(num, squares, n - 1) {
            assert(g == scalar::greater(acc, c));
            if g != acc {
                assert(g == c);
            }
        } else {
            assert(g == acc);
        }
        if g == acc && acc != (Scalar { bits: 0 }) {
            let j = choose|j: int|
                0 <= j < n - 1 && #[trigger] counts(num, squares, j) && acc == cosine(
                    num,
                    jtr,
                    squares,
                    r_norm,
                    j,
                );
            assert(0 <= j < n && counts(num, squares, j));
        }
    }
}

/// The column has a direction.
pub open spec fn counts<A: Numeric>(num: A, squares: Seq<Scalar>, j: int) -> bool {
    scalar::less(Scalar { bits: 0 }, num.square_root(squares[j]))
}

/// The cosine between the residual and a column.
pub open spec fn cosine<A: Numeric>(
    num: A,
    jtr: Seq<Scalar>,
    squares: Seq<Scalar>,
    r_norm: Scalar,
    j: int,
) -> Scalar {
    num.quotient(
        scalar::absolute(jtr[j]),
        num.product(num.square_root(squares[j]), r_norm),
    )
}

/// The peak of a list is not below the size of any entry, and is that of one.
pub proof fn the_peak_is_an_entrys_size(xs: Seq<Scalar>, n: int)
    requires
        0 <= n <= xs.len(),
        forall|i: int| 0 <= i < n ==> !(#[trigger] xs[i]).nan(),
    ensures
        ({
            let p = model::peak(xs, n);
            let zero = Scalar { bits: 0 };
            &&& !p.nan()
            &&& forall|i: int|
                0 <= i < n ==> scalar::at_most(scalar::absolute(#[trigger] xs[i]), p)
            &&& p == zero || exists|i: int|
                0 <= i < n && p == scalar::absolute(#[trigger] xs[i])
        }),
    decreases n,
{
    if n > 0 {
        the_peak_is_an_entrys_size(xs, n - 1);
        let before = model::peak(xs, n - 1);
        let p = model::peak(xs, n);
        let last = xs[n - 1];
        assert(!last.nan());
        assert(p == before || p == scalar::absolute(last));
        if p == before && before != (Scalar { bits: 0 }) {
            let i = choose|i: int|
                0 <= i < n - 1 && before == scalar::absolute(#[trigger] xs[i]);
            assert(p == scalar::absolute(xs[i]));
        }
    }
}

/// An entry of the gradient is the inner product of its column and the
/// residuals; the square of a column is that with itself.
pub proof fn a_gradient_is_taken_column_by_column<A: Numeric>(
    num: A,
    k: Reading,
    jac: Seq<Seq<Scalar>>,
    r: Seq<Scalar>,
    n: int,
    j: int,
)
    requires
        reading::exact(num, k),
        0 <= j < n,
        products::multipliable(k, linalg::col(jac, j), r),
        products::multipliable(k, linalg::col(jac, j), linalg::col(jac, j)),
    ensures
        k.is(
            model::gradient(num, jac, r, n)[j],
            products::multiply_up(k, linalg::col(jac, j), r, jac.len() as int),
        ),
        k.is(
            model::column_squares(num, jac, n)[j],
            products::multiply_up(
                k,
                linalg::col(jac, j),
                linalg::col(jac, j),
                jac.len() as int,
            ),
        ),
{
    let c = linalg::col(jac, j);
    products::an_inner_product_adds_up(num, k, c, r, jac.len() as int);
    products::an_inner_product_adds_up(num, k, c, c, jac.len() as int);
}

/// The square of a column's scale is the square of the column, or the floor.
pub proof fn a_scale_squares_to_the_column<A: Numeric>(
    num: A,
    k: Reading,
    squares: Seq<Scalar>,
    j: int,
    root: real,
)
    requires
        reading::exact(num, k),
        0 <= j < squares.len(),
        squares[j].finite(),
        root >= 0real,
        k.holds(root),
        ({
            let floor = k.of(Scalar { bits: 0x3d06_849b_86a1_2b9b });
            times(root, root) == (if k.of(squares[j]) < floor {
                floor
            } else {
                k.of(squares[j])
            })
        }),
    ensures
        model::scales(num, squares).len() == squares.len(),
        k.is(model::scales(num, squares)[j], root),
{
    let floor = Scalar { bits: 0x3d06_849b_86a1_2b9b };
    reading::order_reads(k, squares[j], floor);
    assert(scalar::greater(squares[j], floor).finite());
}

} // verus!
