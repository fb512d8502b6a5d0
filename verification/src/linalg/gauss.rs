//! Elimination with partial pivoting.
use crate::linalg;
use crate::linalg::{LinalgFault, TINY_BITS};
use crate::numeric;
use crate::numeric::{less_dot_range, Numeric};
use crate::scalar;
use crate::scalar::Scalar;
use vstd::prelude::*;

verus! {

/// The rows of `g` with their right-hand sides at the end.
pub open spec fn augmented(g: Seq<Seq<Scalar>>, b: Seq<Scalar>) -> Seq<Seq<Scalar>> {
    Seq::new(g.len(), |i: int| g[i].push(b[i]))
}

/// Row and magnitude of the pivot of column `c` among rows `c..r`: the first
/// of the greatest magnitude.
pub open spec fn pivot_upto(m: Seq<Seq<Scalar>>, c: int, r: int) -> (int, Scalar)
    decreases r - c,
{
    if r <= c {
        (c, Scalar::zero())
    } else {
        let best = pivot_upto(m, c, r - 1);
        let v = scalar::absolute(m[r - 1][c]);
        if scalar::less(best.1, v) {
            (r - 1, v)
        } else {
            best
        }
    }
}

/// The pivot row of column `c`.
pub open spec fn pivot_row(m: Seq<Seq<Scalar>>, c: int) -> int {
    pivot_upto(m, c, m.len() as int).0
}

/// Rows `c` and `p` change places.
pub open spec fn swapped(m: Seq<Seq<Scalar>>, c: int, p: int) -> Seq<Seq<Scalar>> {
    m.update(c, m[p]).update(p, m[c])
}

/// Entry (r, j) after column `c` is cleared below its diagonal.
pub open spec fn cleared_cell<A: Numeric>(
    num: A,
    m: Seq<Seq<Scalar>>,
    c: int,
    r: int,
    j: int,
) -> Scalar {
    let factor = num.quotient(m[r][c], m[c][c]);
    if r <= c || j < c || scalar::same(factor, Scalar::zero()) {
        m[r][j]
    } else {
        num.difference(m[r][j], num.product(factor, m[c][j]))
    }
}

/// The matrix after column `c` is cleared.
pub open spec fn cleared<A: Numeric>(num: A, m: Seq<Seq<Scalar>>, c: int) -> Seq<Seq<Scalar>> {
    Seq::new(
        m.len(),
        |r: int| Seq::new(m[r].len(), |j: int| cleared_cell(num, m, c, r, j)),
    )
}

/// The pivot of column `c` counts as zero.
pub open spec fn no_pivot(m: Seq<Seq<Scalar>>, c: int) -> bool {
    scalar::less(
        scalar::absolute(m[pivot_row(m, c)][c]),
        (Scalar { bits: TINY_BITS }),
    )
}

/// The matrix after `c` columns, or nothing if one had no pivot.
pub open spec fn eliminated<A: Numeric>(num: A, m: Seq<Seq<Scalar>>, c: int) -> Option<
    Seq<Seq<Scalar>>,
>
    decreases c,
{
    if c <= 0 {
        Some(m)
    } else {
        match eliminated(num, m, c - 1) {
            None => None,
            Some(h) => if no_pivot(h, c - 1) {
                None
            } else {
                Some(cleared(num, swapped(h, c - 1, pivot_row(h, c - 1)), c - 1))
            },
        }
    }
}

proof fn eliminated_stops<A: Numeric>(num: A, m: Seq<Seq<Scalar>>, c: int, d: int)
    requires
        c <= d,
        eliminated(num, m, c) is None,
    ensures
        eliminated(num, m, d) is None,
    decreases d,
{
    if c < d {
        eliminated_stops(num, m, c, d - 1);
    }
}

/// Entries `i..n` of the solution of an upper-triangular system.
pub open spec fn plain_tail<A: Numeric>(
    num: A,
    g: Seq<Seq<Scalar>>,
    b: Seq<Scalar>,
    n: int,
    i: int,
) -> Seq<Scalar>
    decreases n - i,
{
    if i >= n {
        seq![]
    } else {
        let rest = plain_tail(num, g, b, n, i + 1);
        seq![
            num.quotient(
                numeric::less_dot(num, b[i], g[i], linalg::aligned(rest, n), i + 1, n),
                g[i][i],
            ),
        ] + rest
    }
}

proof fn plain_tail_len<A: Numeric>(
    num: A,
    g: Seq<Seq<Scalar>>,
    b: Seq<Scalar>,
    n: int,
    i: int,
)
    requires
        i <= n,
    ensures
        plain_tail(num, g, b, n, i).len() == n - i,
    decreases n - i,
{
    if i < n {
        plain_tail_len(num, g, b, n, i + 1);
    }
}

/// Solves an upper-triangular system, whatever its pivots are.
pub fn plain_back_substitute<A: Numeric>(
    num: &A,
    a: &Vec<Vec<Scalar>>,
    b: &Vec<Scalar>,
    n: usize,
) -> (r: Vec<Scalar>)
    requires
        num.sound(),
        n <= a@.len(),
        n <= b@.len(),
        forall|i: int| 0 <= i < n ==> (#[trigger] linalg::grid(a@)[i]).len() >= n,
    ensures
        r@ == plain_tail(*num, linalg::grid(a@), b@, n as int, 0),
        r@.len() == n,
{
    let ghost g = linalg::grid(a@);
    let mut out: Vec<Scalar> = linalg::zero_vec(n);
    let mut i: usize = n;
    assert(out@ =~= linalg::aligned(seq![], n as int));
    while i > 0
        invariant
            num.sound(),
            g == linalg::grid(a@),
            i <= n <= a@.len(),
            n <= b@.len(),
            out@.len() == n,
            forall|i: int| 0 <= i < n ==> (#[trigger] g[i]).len() >= n,
            out@ == linalg::aligned(plain_tail(*num, g, b@, n as int, i as int), n as int),
        decreases i,
    {
        i -= 1;
        let ghost rest = plain_tail(*num, g, b@, n as int, i + 1);
        proof {
            plain_tail_len(*num, g, b@, n as int, i + 1);
        }
        let row: &Vec<Scalar> = &a[i];
        assert(row@ == g[i as int]);
        let s: Scalar = less_dot_range(num, b[i], row, &out, i + 1, n);
        let x: Scalar = num.over(s, row[i]);
        out.set(i, x);
        proof {
            assert(out@ =~= linalg::aligned(seq![x] + rest, n as int));
        }
    }
    proof {
        plain_tail_len(*num, g, b@, n as int, 0);
        assert(out@ =~= plain_tail(*num, g, b@, n as int, 0));
    }
    out
}

/// The solution by elimination, if every column has a pivot.
pub open spec fn gauss_solution<A: Numeric>(
    num: A,
    g: Seq<Seq<Scalar>>,
    b: Seq<Scalar>,
) -> Option<Seq<Scalar>> {
    let n = b.len() as int;
    match eliminated(num, augmented(g, b), n) {
        None => None,
        Some(h) => Some(plain_tail(num, h, linalg::col(h, n), n, 0)),
    }
}

fn augment(a: &Vec<Vec<Scalar>>, b: &Vec<Scalar>) -> (r: Vec<Vec<Scalar>>)
    requires
        a@.len() == b@.len(),
        linalg::wide(linalg::grid(a@), b@.len() as int),
        b@.len() < usize::MAX,
    ensures
        linalg::grid(r@) == augmented(linalg::grid(a@), b@),
        linalg::wide(linalg::grid(r@), b@.len() as int + 1),
        r@.len() == b@.len(),
{
    let ghost g = linalg::grid(a@);
    let ghost target = augmented(g, b@);
    let mut out: Vec<Vec<Scalar>> = Vec::with_capacity(a.len());
    let mut i: usize = 0;
    while i < a.len()
        invariant
            g == linalg::grid(a@),
            target == augmented(g, b@),
            a@.len() == b@.len(),
            i <= a.len(),
            linalg::grid(out@) == target.take(i as int),
        decreases a.len() - i,
    {
        let mut row: Vec<Scalar> = numeric::copy(&a[i]);
        row.push(b[i]);
        assert(row@ =~= target[i as int]);
        let ghost before = linalg::grid(out@);
        out.push(row);
        assert(linalg::grid(out@) =~= before.push(target[i as int]));
        i += 1;
        assert(linalg::grid(out@) =~= target.take(i as int));
    }
    proof {
        assert(target.take(i as int) =~= target);
        assert(linalg::grid(out@).len() == out@.len());
        assert forall|k: int| 0 <= k < linalg::grid(out@).len() implies (
        #[trigger] linalg::grid(out@)[k]).len() == b@.len() + 1 by {
            assert(g[k].len() == b@.len());
        }
    }
    out
}

fn find_pivot(m: &Vec<Vec<Scalar>>, c: usize, w: usize) -> (r: usize)
    requires
        linalg::wide(linalg::grid(m@), w as int),
        c < w,
        c < m@.len(),
    ensures
        r == pivot_row(linalg::grid(m@), c as int),
        c <= r < m@.len(),
{
    let ghost g = linalg::grid(m@);
    let mut best: usize = c;
    let mut size: Scalar = Scalar::zero();
    let mut r: usize = c;
    while r < m.len()
        invariant
            g == linalg::grid(m@),
            linalg::wide(g, w as int),
            c < w,
            c <= r <= m@.len(),
            c <= best < m@.len(),
            (best as int, size) == pivot_upto(g, c as int, r as int),
        decreases m.len() - r,
    {
        assert(g[r as int].len() == w);
        let v: Scalar = m[r][c].abs();
        if v.gt(size) {
            best = r;
            size = v;
        }
        r += 1;
    }
    best
}

fn clear<A: Numeric>(num: &A, m: &Vec<Vec<Scalar>>, c: usize, w: usize) -> (r: Vec<Vec<Scalar>>)
    requires
        num.sound(),
        linalg::wide(linalg::grid(m@), w as int),
        c < w,
        c < m@.len(),
    ensures
        linalg::grid(r@) == cleared(*num, linalg::grid(m@), c as int),
        linalg::wide(linalg::grid(r@), w as int),
        r@.len() == m@.len(),
{
    let ghost g = linalg::grid(m@);
    let ghost target = cleared(*num, g, c as int);
    let mut out: Vec<Vec<Scalar>> = Vec::with_capacity(m.len());
    let mut r: usize = 0;
    assert(g[c as int].len() == w);
    while r < m.len()
        invariant
            num.sound(),
            g == linalg::grid(m@),
            target == cleared(*num, g, c as int),
            linalg::wide(g, w as int),
            c < w,
            c < m@.len(),
            r <= m.len(),
            linalg::grid(out@) == target.take(r as int),
        decreases m.len() - r,
    {
        let row: &Vec<Scalar> = &m[r];
        let top: &Vec<Scalar> = &m[c];
        assert(row@ == g[r as int]);
        assert(top@ == g[c as int]);
        let factor: Scalar = num.over(row[c], top[c]);
        let keep: bool = r <= c || factor.same_value(Scalar::zero());
        let mut new_row: Vec<Scalar> = Vec::with_capacity(w);
        let mut j: usize = 0;
        while j < w
            invariant
                num.sound(),
                target == cleared(*num, g, c as int),
                r < g.len(),
                c < g.len(),
                row@ == g[r as int],
                top@ == g[c as int],
                row@.len() == w,
                top@.len() == w,
                factor == num.quotient(g[r as int][c as int], g[c as int][c as int]),
                keep == (r <= c || scalar::same(factor, Scalar::zero())),
                j <= w,
                new_row@ == target[r as int].take(j as int),
            decreases w - j,
        {
            let cell: Scalar = if keep || j < c {
                row[j]
            } else {
                num.minus(row[j], num.times(factor, top[j]))
            };
            assert(cell == cleared_cell(*num, g, c as int, r as int, j as int));
            new_row.push(cell);
            j += 1;
            assert(new_row@ =~= target[r as int].take(j as int));
        }
        assert(new_row@ =~= target[r as int]);
        let ghost before = linalg::grid(out@);
        out.push(new_row);
        assert(linalg::grid(out@) =~= before.push(target[r as int]));
        r += 1;
        assert(linalg::grid(out@) =~= target.take(r as int));
    }
    assert(target.take(r as int) =~= target);
    assert(linalg::grid(out@).len() == out@.len());
    out
}

/// Solves a square system by elimination with partial pivoting.
pub fn gauss_solve<A: Numeric>(num: &A, a: &Vec<Vec<Scalar>>, b: &Vec<Scalar>) -> (r: Result<
    Vec<Scalar>,
    LinalgFault,
>)
    requires
        num.sound(),
        a@.len() == b@.len(),
        linalg::wide(linalg::grid(a@), b@.len() as int),
        b@.len() < usize::MAX,
    ensures
        match r {
            Ok(x) => gauss_solution(*num, linalg::grid(a@), b@) == Some(x@) && x@.len()
                == b@.len(),
            Err(e) => e == LinalgFault::SingularSystem && gauss_solution(
                *num,
                linalg::grid(a@),
                b@,
            ) is None,
        },
{
    let n: usize = b.len();
    let mut m: Vec<Vec<Scalar>> = augment(a, b);
    let ghost m0 = linalg::grid(m@);
    let mut c: usize = 0;
    while c < n
        invariant
            num.sound(),
            n == b@.len(),
            n < usize::MAX,
            m0 == augmented(linalg::grid(a@), b@),
            c <= n,
            m@.len() == n,
            linalg::wide(linalg::grid(m@), n + 1),
            eliminated(*num, m0, c as int) == Some(linalg::grid(m@)),
        decreases n - c,
    {
        let ghost h = linalg::grid(m@);
        let p: usize = find_pivot(&m, c, n + 1);
        assert(h[p as int].len() == n + 1);
        if m[p][c].abs().lt(Scalar::from_bits(TINY_BITS)) {
            proof {
                eliminated_stops(*num, m0, c + 1, n as int);
            }
            return Err(LinalgFault::SingularSystem);
        }
        if p != c {
            let row_p: Vec<Scalar> = numeric::copy(&m[p]);
            let row_c: Vec<Scalar> = numeric::copy(&m[c]);
            m.set(c, row_p);
            m.set(p, row_c);
        }
        assert(linalg::grid(m@) =~= swapped(h, c as int, p as int));
        assert(linalg::wide(linalg::grid(m@), n + 1)) by {
            assert(h[c as int].len() == n + 1);
        }
        m = clear(num, &m, c, n + 1);
        c += 1;
    }
    assert(linalg::grid(m@).len() == n);
    let rhs: Vec<Scalar> = linalg::column_of(&m, n, n + 1);
    Ok(plain_back_substitute(num, &m, &rhs, n))
}

} // verus!
