//! A reflection turns a column onto one entry: its norm, with the sign that
//! keeps the reflector free of cancellation.
use crate::linalg;
use crate::linalg::solves::row_sum;
use crate::numeric;
use crate::numeric::Numeric;
use crate::reading;
use crate::reading::{over, times, Reading};
use crate::scalar;
use crate::scalar::Scalar;
use vstd::prelude::*;

verus! {

/// The products of entries `lo..hi` and their sums from the left can be held.
pub open spec fn summable(k: Reading, us: Seq<Scalar>, vs: Seq<Scalar>, lo: int, hi: int) -> bool {
    &&& forall|j: int|
        lo <= j < hi ==> #[trigger] us[j].finite() && vs[j].finite() && k.holds(
            times(k.of(us[j]), k.of(vs[j])),
        )
    &&& forall|j: int| lo <= j <= hi ==> k.holds(#[trigger] row_sum(k, us, vs, lo, j))
}

proof fn dot_reads<A: Numeric>(
    num: A,
    k: Reading,
    us: Seq<Scalar>,
    vs: Seq<Scalar>,
    lo: int,
    hi: int,
)
    requires
        reading::exact(num, k),
        lo <= hi,
        summable(k, us, vs, lo, hi),
    ensures
        k.is(
            numeric::dot_from(num, Scalar { bits: 0 }, us, vs, lo, hi),
            row_sum(k, us, vs, lo, hi),
        ),
        k.is(
            numeric::dot_from(num, Scalar { bits: 0x8000_0000_0000_0000 }, us, vs, lo, hi),
            row_sum(k, us, vs, lo, hi),
        ),
    decreases hi - lo,
{
    let zero = Scalar { bits: 0 };
    let none = Scalar { bits: 0x8000_0000_0000_0000 };
    assert(none == scalar::negated(zero));
    assert(k.of(scalar::negated(zero)) == -k.of(zero));
    if hi > lo {
        dot_reads(num, k, us, vs, lo, hi - 1);
        assert(us[hi - 1].finite());
        assert(k.holds(row_sum(k, us, vs, lo, hi)));
    }
}

proof fn first_apart(k: Reading, us: Seq<Scalar>, vs: Seq<Scalar>, lo: int, hi: int)
    requires
        lo < hi,
    ensures
        row_sum(k, us, vs, lo, hi) == times(k.of(us[lo]), k.of(vs[lo])) + row_sum(
            k,
            us,
            vs,
            lo + 1,
            hi,
        ),
    decreases hi - lo,
{
    if hi > lo + 1 {
        first_apart(k, us, vs, lo, hi - 1);
    } else {
        assert(row_sum(k, us, vs, lo, hi - 1) == 0real);
        assert(row_sum(k, us, vs, lo + 1, hi) == 0real);
    }
}

proof fn alike(
    k: Reading,
    us: Seq<Scalar>,
    vs: Seq<Scalar>,
    ws: Seq<Scalar>,
    xs: Seq<Scalar>,
    lo: int,
    hi: int,
)
    requires
        forall|j: int| lo <= j < hi ==> #[trigger] us[j] == ws[j] && vs[j] == xs[j],
    ensures
        row_sum(k, us, vs, lo, hi) == row_sum(k, ws, xs, lo, hi),
    decreases hi - lo,
{
    if hi > lo {
        alike(k, us, vs, ws, xs, lo, hi - 1);
        assert(us[hi - 1] == ws[hi - 1]);
    }
}

/// The share of the reflector that is taken off a vector is twice their inner
/// product over the square of the reflector.
pub proof fn a_share_is_twice_the_projection<A: Numeric>(
    num: A,
    k: Reading,
    g: Seq<Seq<Scalar>>,
    c: int,
    w: Seq<Scalar>,
)
    requires
        reading::exact(num, k),
        0 <= c < g.len(),
        ({
            let n = g.len() as int;
            let v = linalg::reflector(num, g, c);
            let d = row_sum(k, v, w, c, n);
            let square = row_sum(k, v, v, c, n);
            &&& summable(k, v, w, c, n)
            &&& summable(k, v, v, c, n)
            &&& square != 0real
            &&& k.holds(times(2real, d))
            &&& k.holds(over(times(2real, d), square))
        }),
    ensures
        ({
            let n = g.len() as int;
            let v = linalg::reflector(num, g, c);
            k.is(
                linalg::reflector_share(num, g, c, w),
                over(times(2real, row_sum(k, v, w, c, n)), row_sum(k, v, v, c, n)),
            )
        }),
        ({
            let n = g.len() as int;
            let v = linalg::reflector(num, g, c);
            times(k.of(linalg::reflector_share(num, g, c, w)), row_sum(k, v, v, c, n)) == times(
                2real,
                row_sum(k, v, w, c, n),
            )
        }),
{
    let n = g.len() as int;
    let v = linalg::reflector(num, g, c);
    dot_reads(num, k, v, w, c, n);
    dot_reads(num, k, v, v, c, n);
    let two = Scalar { bits: 0x4000_0000_0000_0000 };
    let d = row_sum(k, v, w, c, n);
    assert(k.is(
        num.product(two, numeric::dot_from(num, Scalar { bits: 0 }, v, w, c, n)),
        times(2real, d),
    ));
    reading::undone(times(2real, d), row_sum(k, v, v, c, n));
}

/// A reflection turns its own column onto the head: the whole reflector is
/// taken off, which leaves the head on the diagonal and nothing below, and the
/// head's square is the square of the column.
pub proof fn a_column_is_turned_onto_its_head<A: Numeric>(
    num: A,
    k: Reading,
    g: Seq<Seq<Scalar>>,
    c: int,
    root: real,
)
    requires
        reading::exact(num, k),
        0 <= c < g.len(),
        ({
            let n = g.len() as int;
            let w = linalg::col(g, c);
            let v = linalg::reflector(num, g, c);
            let x = k.of(w[c]);
            let head = if x >= 0real {
                -root
            } else {
                root
            };
            let d = row_sum(k, v, w, c, n);
            let square = row_sum(k, v, v, c, n);
            &&& summable(k, w, w, c, n)
            &&& summable(k, v, w, c, n)
            &&& summable(k, v, v, c, n)
            &&& root >= 0real
            &&& times(root, root) == row_sum(k, w, w, c, n)
            &&& k.holds(root)
            &&& k.holds(x - head)
            &&& square != 0real
            &&& k.holds(times(2real, d))
            &&& k.holds(1real)
        }),
    ensures
        ({
            let w = linalg::col(g, c);
            let v = linalg::reflector(num, g, c);
            let head = k.of(linalg::reflected_head(num, g, c));
            &&& k.is(linalg::reflector_share(num, g, c, w), 1real)
            &&& times(head, head) == row_sum(k, w, w, c, g.len() as int)
            &&& k.of(w[c]) - k.of(v[c]) == head
            &&& forall|i: int| c < i < g.len() ==> k.of(w[i]) - k.of(#[trigger] v[i]) == 0real
            &&& k.of(w[c]) >= 0real ==> head <= 0real
        }),
{
    let n = g.len() as int;
    let zero = Scalar { bits: 0 };
    let w = linalg::col(g, c);
    let v = linalg::reflector(num, g, c);
    assert(w[c].finite());
    let x = k.of(w[c]);
    dot_reads(num, k, w, w, c, n);
    let norm = num.square_root(linalg::pivot_norm_sq(num, g, c));
    assert(k.is(norm, root));
    assert(k.of(scalar::negated(norm)) == -k.of(norm));
    reading::order_reads(k, zero, w[c]);
    let h = if x >= 0real {
        -root
    } else {
        root
    };
    assert(k.is(linalg::reflected_head(num, g, c), h));
    reading::over_alike(root, -root, 1real);
    reading::over_alike(root, root, 1real);
    assert(times(h, h) == times(root, root));
    assert(k.is(v[c], x - h));
    first_apart(k, w, w, c, n);
    first_apart(k, v, w, c, n);
    first_apart(k, v, v, c, n);
    assert forall|j: int| c + 1 <= j < n implies #[trigger] v[j] == w[j] by {}
    alike(k, v, w, w, w, c + 1, n);
    alike(k, v, v, w, w, c + 1, n);
    let y = x - h;
    reading::spread_out(x, h, x);
    reading::spread_out(x, h, y);
    reading::spread_out(x, h, h);
    reading::units(x, h);
    reading::units(x, y);
    reading::units(h, y);
    let d = row_sum(k, v, w, c, n);
    let square = row_sum(k, v, v, c, n);
    assert(square == d + d);
    reading::spread_out(1real, 1real, d);
    reading::units(d, d);
    assert(times(2real, d) == square);
    whole(square);
    a_share_is_twice_the_projection(num, k, g, c, w);
}

proof fn whole(x: real)
    requires
        x != 0real,
    ensures
        over(x, x) == 1real,
{
    reading::undone(x, x);
    reading::units(x, x);
    reading::divided_out(over(x, x), 1real, x);
}

} // verus!
