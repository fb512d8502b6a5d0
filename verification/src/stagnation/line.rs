//! The regression over the window: the slope of a straight history.
use crate::numeric;
use crate::numeric::Numeric;
use crate::reading;
use crate::reading::{add_up, over, size, times, Reading};
use crate::scalar;
use crate::scalar::Scalar;
use crate::stagnation::{gradient, offset, rise, run, tail};
use vstd::prelude::*;

verus! {

/// The middle of `n` positions.
pub open spec fn middle(n: int) -> real {
    ((n - 1) as real) / 2real
}

/// How far position `i` of `n` lies from the middle.
pub open spec fn aside(n: int, i: int) -> real {
    (i as real) - middle(n)
}

/// The squared distances of the first `j` of `n` positions from the middle.
pub open spec fn spread(n: int, j: int) -> real
    decreases j,
{
    if j <= 0 {
        0real
    } else {
        spread(n, j - 1) + times(aside(n, j - 1), aside(n, j - 1))
    }
}

/// Sample `i` lies on the line of slope `b` through `m` at the middle, and the
/// numbers that the regression meets there can be held.
pub open spec fn aligned_at(k: Reading, y: Seq<Scalar>, m: real, b: real, i: int) -> bool {
    let n = y.len() as int;
    let x = aside(n, i);
    &&& y[i].finite()
    &&& k.of(y[i]) == m + times(b, x)
    &&& k.holds(i as real)
    &&& k.holds(x)
    &&& k.holds(times(b, x))
    &&& k.holds(times(x, x))
    &&& k.holds(times(x, times(b, x)))
}

/// The sums up to sample `j` can be held.
pub open spec fn sums_fit(k: Reading, y: Seq<Scalar>, b: real, j: int) -> bool {
    let n = y.len() as int;
    &&& k.holds(spread(n, j))
    &&& k.holds(times(b, spread(n, j)))
    &&& k.holds(add_up(k, y, j))
}

/// The samples lie on a line of slope `b` through `m` at the middle.
pub open spec fn straight(k: Reading, y: Seq<Scalar>, m: real, b: real) -> bool {
    let n = y.len() as int;
    &&& k.holds(n as real)
    &&& k.holds((n - 1) as real)
    &&& k.holds(middle(n))
    &&& k.holds(m)
    &&& k.holds(b)
    &&& forall|i: int| 0 <= i < n ==> #[trigger] aligned_at(k, y, m, b, i)
    &&& forall|j: int| 0 <= j <= n ==> #[trigger] sums_fit(k, y, b, j)
}

/// The slope of a straight history is the slope of the line, by the size of
/// the mean.
pub proof fn the_slope_of_a_straight_history<A: Numeric>(
    num: A,
    k: Reading,
    h: Seq<Scalar>,
    window: usize,
    m: real,
    b: real,
)
    requires
        reading::exact(num, k),
        window >= 2,
        h.len() >= 2,
        straight(k, tail(h, window), m, b),
        m != 0real,
        k.holds(over(b, size(m))),
    ensures
        times(k.of(gradient(num, h, window)), size(m)) == b,
{
    let y = tail(h, window);
    let n = y.len() as int;
    let two = Scalar { bits: 0x4000_0000_0000_0000 };
    let one = Scalar { bits: 0x3FF0_0000_0000_0000 };
    let zero = Scalar { bits: 0 };
    assert(2 <= n <= window);
    let ns = num.whole(n as usize);
    let nr = n as real;
    assert(k.is(ns, nr));
    assert(k.is(num.difference(ns, one), (n - 1) as real));
    let xm = num.quotient(num.difference(ns, one), two);
    halves((n - 1) as real);
    assert(k.is(xm, middle(n)));
    total_reads(num, k, y, m, b, n);
    line_total(k, y, m, b, n);
    centred(n);
    reading::units(b, b);
    assert(add_up(k, y, n) == times(nr, m));
    cancels(m, nr);
    let ym = num.quotient(numeric::sum_of(num, y, n), ns);
    assert(k.is(ym, m));
    run_reads(num, k, y, m, b, xm, n);
    rise_reads(num, k, y, m, b, xm, ym, n);
    spread_is_positive(n, n);
    let s = spread(n, n);
    let den = run(num, xm, n);
    reading::order_reads(k, ym, zero);
    reading::order_reads(k, den, zero);
    cancels(b, s);
    reading::units(b, s);
    reading::undone(b, size(m));
    let q = num.quotient(rise(num, y, xm, ym, n), den);
    assert(k.is(q, b));
}

proof fn halves(x: real)
    ensures
        over(x, 2real) == x / 2real,
{
    reveal(over);
}

proof fn cancels(x: real, y: real)
    requires
        y != 0real,
    ensures
        over(times(x, y), y) == x,
        over(times(y, x), y) == x,
{
    reveal(times);
    reveal(over);
    reading::cancelled(x, y);
}

/// The distances of the first `j` positions from the middle, added up.
pub open spec fn drift(n: int, j: int) -> real
    decreases j,
{
    if j <= 0 {
        0real
    } else {
        drift(n, j - 1) + aside(n, j - 1)
    }
}

proof fn drift_closed(n: int, j: int)
    requires
        0 <= j,
    ensures
        drift(n, j) * 2real == times(j as real, (j - n) as real),
    decreases j,
{
    let jr = j as real;
    let nr = n as real;
    if j > 0 {
        drift_closed(n, j - 1);
        let i = (j - 1) as real;
        // j (j - n) is (j - 1)(j - 1 - n) and 2 (j - 1) + 1 - n.
        assert(jr == i + 1real);
        assert((j - n) as real == i + 1real - nr);
        assert((j - 1 - n) as real == i - nr);
        let p = i - nr;
        reading::spread_out(i, 1real, p + 1real);
        reading::spread_out(p, 1real, i);
        reading::units(i, p);
        reading::units(p + 1real, i);
        reading::units(i, p + 1real);
    } else {
        reading::units((0 - n) as real, 0real);
    }
}

proof fn centred(n: int)
    requires
        0 <= n,
    ensures
        drift(n, n) == 0real,
{
    drift_closed(n, n);
    reading::units(n as real, 0real);
}

proof fn line_total(k: Reading, y: Seq<Scalar>, m: real, b: real, j: int)
    requires
        straight(k, y, m, b),
        0 <= j <= y.len(),
    ensures
        add_up(k, y, j) == times(j as real, m) + times(b, drift(y.len() as int, j)),
    decreases j,
{
    let n = y.len() as int;
    reading::units(m, b);
    reading::units(b, m);
    if j > 0 {
        line_total(k, y, m, b, j - 1);
        let i = (j - 1) as real;
        assert(aligned_at(k, y, m, b, j - 1));
        assert(j as real == i + 1real);
        reading::spread_out(i, 1real, m);
        reading::spread_out(drift(n, j - 1), aside(n, j - 1), b);
    }
}

proof fn total_reads<A: Numeric>(
    num: A,
    k: Reading,
    y: Seq<Scalar>,
    m: real,
    b: real,
    j: int,
)
    requires
        reading::exact(num, k),
        straight(k, y, m, b),
        0 <= j <= y.len(),
    ensures
        k.is(numeric::sum_of(num, y, j), add_up(k, y, j)),
    decreases j,
{
    let zero = Scalar { bits: 0 };
    let none = Scalar { bits: 0x8000_0000_0000_0000 };
    assert(none == scalar::negated(zero));
    assert(k.of(scalar::negated(zero)) == -k.of(zero));
    if j > 0 {
        total_reads(num, k, y, m, b, j - 1);
        assert(aligned_at(k, y, m, b, j - 1));
        assert(sums_fit(k, y, b, j));
    }
}

proof fn run_reads<A: Numeric>(
    num: A,
    k: Reading,
    y: Seq<Scalar>,
    m: real,
    b: real,
    xm: Scalar,
    j: int,
)
    requires
        reading::exact(num, k),
        straight(k, y, m, b),
        k.is(xm, middle(y.len() as int)),
        0 <= j <= y.len() <= usize::MAX,
    ensures
        k.is(run(num, xm, j), spread(y.len() as int, j)),
    decreases j,
{
    let n = y.len() as int;
    if j > 0 {
        run_reads(num, k, y, m, b, xm, j - 1);
        assert(aligned_at(k, y, m, b, j - 1));
        assert(sums_fit(k, y, b, j));
        assert(k.is(num.whole((j - 1) as usize), (j - 1) as real));
        assert(k.is(offset(num, j - 1, xm), aside(n, j - 1)));
    }
}

proof fn rise_reads<A: Numeric>(
    num: A,
    k: Reading,
    y: Seq<Scalar>,
    m: real,
    b: real,
    xm: Scalar,
    ym: Scalar,
    j: int,
)
    requires
        reading::exact(num, k),
        straight(k, y, m, b),
        k.is(xm, middle(y.len() as int)),
        k.is(ym, m),
        0 <= j <= y.len() <= usize::MAX,
    ensures
        k.is(rise(num, y, xm, ym, j), times(b, spread(y.len() as int, j))),
    decreases j,
{
    let n = y.len() as int;
    reading::units(b, b);
    if j > 0 {
        rise_reads(num, k, y, m, b, xm, ym, j - 1);
        assert(aligned_at(k, y, m, b, j - 1));
        assert(sums_fit(k, y, b, j));
        let x = aside(n, j - 1);
        assert(k.is(num.whole((j - 1) as usize), (j - 1) as real));
        assert(k.is(offset(num, j - 1, xm), x));
        assert(k.is(num.difference(y[j - 1], ym), times(b, x)));
        reading::spread_out(spread(n, j - 1), times(x, x), b);
        reading::regrouped(b, x, x);
        reading::units(x, times(b, x));
    }
}

proof fn spread_is_positive(n: int, j: int)
    requires
        0 <= j,
        2 <= n,
    ensures
        spread(n, j) >= 0real,
        j >= 1 ==> spread(n, j) > 0real,
    decreases j,
{
    if j >= 1 {
        spread_is_positive(n, j - 1);
        let x = aside(n, j - 1);
        reading::units(x, x);
        if x != 0real {
            reading::squared(x);
        }
        assert(j == 1 ==> x != 0real);
    }
}

} // verus!
