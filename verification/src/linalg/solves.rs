//! What the triangular solves and factorizations achieve over real numbers:
//! every row of the system holds.
use crate::linalg;
use crate::linalg::gauss;
use crate::linalg::normal;
use crate::numeric;
use crate::numeric::Numeric;
use crate::reading;
use crate::reading::{over, times, Reading};
use crate::scalar;
use crate::scalar::Scalar;
use vstd::prelude::*;

verus! {

/// The products of entries `lo..hi`, added up.
pub open spec fn row_sum(k: Reading, us: Seq<Scalar>, vs: Seq<Scalar>, lo: int, hi: int) -> real
    decreases hi - lo,
{
    if hi <= lo {
        0real
    } else {
        row_sum(k, us, vs, lo, hi - 1) + times(k.of(us[hi - 1]), k.of(vs[hi - 1]))
    }
}

/// The products can be taken off `start` one after the other without rounding.
pub open spec fn reducible(
    k: Reading,
    start: Scalar,
    us: Seq<Scalar>,
    vs: Seq<Scalar>,
    lo: int,
    hi: int,
) -> bool {
    &&& start.finite()
    &&& forall|j: int|
        lo <= j < hi ==> #[trigger] us[j].finite() && vs[j].finite() && k.holds(
            times(k.of(us[j]), k.of(vs[j])),
        )
    &&& forall|j: int|
        lo <= j <= hi ==> k.holds(k.of(start) - #[trigger] row_sum(k, us, vs, lo, j))
}

/// What is left of a number after the products are taken off.
pub proof fn products_are_taken_off<A: Numeric>(
    num: A,
    k: Reading,
    start: Scalar,
    us: Seq<Scalar>,
    vs: Seq<Scalar>,
    lo: int,
    hi: int,
)
    requires
        reading::exact(num, k),
        lo <= hi,
        reducible(k, start, us, vs, lo, hi),
    ensures
        k.is(
            numeric::less_dot(num, start, us, vs, lo, hi),
            k.of(start) - row_sum(k, us, vs, lo, hi),
        ),
    decreases hi - lo,
{
    if hi > lo {
        products_are_taken_off(num, k, start, us, vs, lo, hi - 1);
        assert(us[hi - 1].finite());
        assert(k.holds(k.of(start) - row_sum(k, us, vs, lo, hi)));
    }
}

/// Back substitution: the first entry of the tail that starts at row `i`
/// completes the row to its right-hand side.
pub proof fn back_substitution_satisfies_the_row<A: Numeric>(
    num: A,
    k: Reading,
    g: Seq<Seq<Scalar>>,
    b: Seq<Scalar>,
    n: int,
    i: int,
)
    requires
        reading::exact(num, k),
        0 <= i < n,
        g[i][i].finite(),
        k.of(g[i][i]) != 0real,
        linalg::upper_tail(num, g, b, n, i) matches Some(x) ==> {
            let z = linalg::aligned(x.drop_first(), n);
            &&& reducible(k, b[i], g[i], z, i + 1, n)
            &&& k.holds(over(k.of(b[i]) - row_sum(k, g[i], z, i + 1, n), k.of(g[i][i])))
        },
        ({
            let x = gauss::plain_tail(num, g, b, n, i);
            let z = linalg::aligned(x.drop_first(), n);
            &&& reducible(k, b[i], g[i], z, i + 1, n)
            &&& k.holds(over(k.of(b[i]) - row_sum(k, g[i], z, i + 1, n), k.of(g[i][i])))
        }),
    ensures
        linalg::upper_tail(num, g, b, n, i) matches Some(x) ==> {
            let z = linalg::aligned(x.drop_first(), n);
            &&& linalg::upper_tail(num, g, b, n, i + 1) == Some(x.drop_first())
            &&& times(k.of(x[0]), k.of(g[i][i])) + row_sum(k, g[i], z, i + 1, n) == k.of(b[i])
        },
        ({
            let x = gauss::plain_tail(num, g, b, n, i);
            let z = linalg::aligned(x.drop_first(), n);
            &&& gauss::plain_tail(num, g, b, n, i + 1) == x.drop_first()
            &&& times(k.of(x[0]), k.of(g[i][i])) + row_sum(k, g[i], z, i + 1, n) == k.of(b[i])
        }),
{
    let x = gauss::plain_tail(num, g, b, n, i);
    let rest = gauss::plain_tail(num, g, b, n, i + 1);
    assert(x.drop_first() =~= rest);
    let z = linalg::aligned(rest, n);
    products_are_taken_off(num, k, b[i], g[i], z, i + 1, n);
    reading::undone(k.of(b[i]) - row_sum(k, g[i], z, i + 1, n), k.of(g[i][i]));
    if let Some(y) = linalg::upper_tail(num, g, b, n, i) {
        let left = linalg::upper_tail(num, g, b, n, i + 1)->0;
        assert(y.drop_first() =~= left);
        let w = linalg::aligned(left, n);
        products_are_taken_off(num, k, b[i], g[i], w, i + 1, n);
        reading::undone(k.of(b[i]) - row_sum(k, g[i], w, i + 1, n), k.of(g[i][i]));
    }
}

/// Forward substitution: the last entry of the head that ends at row `i`
/// completes the row to its right-hand side.
pub proof fn forward_substitution_satisfies_the_row<A: Numeric>(
    num: A,
    k: Reading,
    l: Seq<Seq<Scalar>>,
    b: Seq<Scalar>,
    i: int,
)
    requires
        reading::exact(num, k),
        0 <= i < l.len(),
        l[i][i].finite(),
        k.of(l[i][i]) != 0real,
        ({
            let head = normal::plain_head(num, l, b, i);
            &&& reducible(k, b[i], l[i], head, 0, i)
            &&& k.holds(over(k.of(b[i]) - row_sum(k, l[i], head, 0, i), k.of(l[i][i])))
        }),
        linalg::transposed_head(num, l, b, i) matches Some(head) ==> {
            &&& reducible(k, b[i], linalg::col(l, i), head, 0, i)
            &&& k.holds(
                over(k.of(b[i]) - row_sum(k, linalg::col(l, i), head, 0, i), k.of(l[i][i])),
            )
        },
    ensures
        ({
            let head = normal::plain_head(num, l, b, i);
            let x = normal::plain_head(num, l, b, i + 1);
            &&& x.drop_last() == head
            &&& times(k.of(x.last()), k.of(l[i][i])) + row_sum(k, l[i], head, 0, i) == k.of(b[i])
        }),
        linalg::transposed_head(num, l, b, i + 1) matches Some(x) ==> {
            &&& linalg::transposed_head(num, l, b, i) == Some(x.drop_last())
            &&& times(k.of(x.last()), k.of(l[i][i])) + row_sum(
                k,
                linalg::col(l, i),
                x.drop_last(),
                0,
                i,
            ) == k.of(b[i])
        },
{
    let head = normal::plain_head(num, l, b, i);
    let x = normal::plain_head(num, l, b, i + 1);
    assert(x.drop_last() =~= head);
    products_are_taken_off(num, k, b[i], l[i], head, 0, i);
    reading::undone(k.of(b[i]) - row_sum(k, l[i], head, 0, i), k.of(l[i][i]));
    if let Some(y) = linalg::transposed_head(num, l, b, i + 1) {
        let before = linalg::transposed_head(num, l, b, i)->0;
        assert(y.drop_last() =~= before);
        let c = linalg::col(l, i);
        products_are_taken_off(num, k, b[i], c, before, 0, i);
        reading::undone(k.of(b[i]) - row_sum(k, c, before, 0, i), k.of(l[i][i]));
    }
}

/// The lower factor reproduces the matrix: each new column's entries, times
/// its diagonal and with the products of the columns before, are those of the
/// matrix.
pub proof fn the_lower_factor_reproduces_the_matrix<A: Numeric>(
    num: A,
    k: Reading,
    g: Seq<Seq<Scalar>>,
    l: Seq<Seq<Scalar>>,
    i: int,
    j: int,
    root: real,
)
    requires
        reading::exact(num, k),
        0 <= j <= i < g.len(),
        reducible(k, g[j][j], l[j], l[j], 0, j),
        reducible(k, g[i][j], l[i], l[j], 0, j),
        root > 0real,
        k.holds(root),
        times(root, root) == k.of(g[j][j]) - row_sum(k, l[j], l[j], 0, j),
        k.holds(over(k.of(g[i][j]) - row_sum(k, l[i], l[j], 0, j), root)),
    ensures
        ({
            let d = k.of(normal::lower_cell(num, g, l, j, j));
            let c = k.of(normal::lower_cell(num, g, l, i, j));
            &&& d == root
            &&& times(d, d) + row_sum(k, l[j], l[j], 0, j) == k.of(g[j][j])
            &&& i > j ==> times(c, d) + row_sum(k, l[i], l[j], 0, j) == k.of(g[i][j])
        }),
{
    products_are_taken_off(num, k, g[j][j], l[j], l[j], 0, j);
    products_are_taken_off(num, k, g[i][j], l[i], l[j], 0, j);
    reading::undone(k.of(g[i][j]) - row_sum(k, l[i], l[j], 0, j), root);
}

/// Clearing a column leaves nothing below its pivot, and changes every other
/// entry of the row by the same multiple of the pivot row.
pub proof fn clearing_leaves_nothing_below<A: Numeric>(
    num: A,
    k: Reading,
    m: Seq<Seq<Scalar>>,
    c: int,
    r: int,
    j: int,
)
    requires
        reading::exact(num, k),
        0 <= c < r < m.len(),
        c <= j,
        m[r][c].finite() && m[c][c].finite() && m[r][j].finite() && m[c][j].finite(),
        k.of(m[c][c]) != 0real,
        ({
            let factor = over(k.of(m[r][c]), k.of(m[c][c]));
            &&& k.holds(factor)
            &&& k.holds(times(factor, k.of(m[c][j])))
            &&& k.holds(k.of(m[r][j]) - times(factor, k.of(m[c][j])))
        }),
    ensures
        ({
            let e = k.of(gauss::cleared_cell(num, m, c, r, j));
            let factor = over(k.of(m[r][c]), k.of(m[c][c]));
            &&& times(factor, k.of(m[c][c])) == k.of(m[r][c])
            &&& e == k.of(m[r][j]) - times(factor, k.of(m[c][j]))
            &&& j == c ==> e == 0real
        }),
{
    let zero = Scalar { bits: 0 };
    let f = num.quotient(m[r][c], m[c][c]);
    let factor = over(k.of(m[r][c]), k.of(m[c][c]));
    assert(k.is(f, factor));
    reading::order_reads(k, f, zero);
    reading::undone(k.of(m[r][c]), k.of(m[c][c]));
    reading::units(k.of(m[c][j]), k.of(m[c][j]));
    assert(k.is(num.product(f, m[c][j]), times(factor, k.of(m[c][j]))));
}

/// The pivot of a column is not below any entry under it.
pub proof fn a_pivot_is_the_greatest(m: Seq<Seq<Scalar>>, c: int, r: int)
    requires
        0 <= c <= r <= m.len(),
        forall|i: int| c <= i < r ==> !(#[trigger] m[i][c]).nan(),
    ensures
        c <= gauss::pivot_upto(m, c, r).0,
        r > c ==> gauss::pivot_upto(m, c, r).0 < r,
        !gauss::pivot_upto(m, c, r).1.nan(),
        forall|i: int|
            c <= i < r ==> scalar::at_most(
                scalar::absolute(#[trigger] m[i][c]),
                gauss::pivot_upto(m, c, r).1,
            ),
    decreases r - c,
{
    if r > c {
        a_pivot_is_the_greatest(m, c, r - 1);
        assert(!m[r - 1][c].nan());
    }
}

/// Damping adds the scaled square to the diagonal and leaves the rest.
pub proof fn damping_is_on_the_diagonal<A: Numeric>(
    num: A,
    k: Reading,
    jac: Seq<Seq<Scalar>>,
    d: Seq<Scalar>,
    lambda: Scalar,
    i: int,
    j: int,
)
    requires
        reading::exact(num, k),
        0 <= i < d.len(),
        0 <= j < d.len(),
        lambda.finite() && d[i].finite(),
        normal::gram(num, jac, i, i).finite(),
        k.holds(times(k.of(lambda), k.of(d[i]))),
        k.holds(times(times(k.of(lambda), k.of(d[i])), k.of(d[i]))),
        k.holds(
            k.of(normal::gram(num, jac, i, i)) + times(
                times(k.of(lambda), k.of(d[i])),
                k.of(d[i]),
            ),
        ),
    ensures
        k.of(normal::damped_cell(num, jac, d, lambda, i, i)) - k.of(normal::gram(num, jac, i, i))
            == times(k.of(lambda), times(k.of(d[i]), k.of(d[i]))),
        i != j ==> normal::damped_cell(num, jac, d, lambda, i, j) == normal::gram(num, jac, i, j),
        normal::gram(num, jac, i, j) == normal::gram(num, jac, j, i),
{
    reading::regrouped(k.of(lambda), k.of(d[i]), k.of(d[i]));
    assert(k.is(num.product(lambda, d[i]), times(k.of(lambda), k.of(d[i]))));
}

} // verus!
