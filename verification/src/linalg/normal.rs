//! Normal equations and their symmetric solve.
use crate::linalg;
use crate::linalg::gauss;
use crate::linalg::gauss::{gauss_solve, plain_back_substitute};
use crate::linalg::{column_of, LinalgFault, TINY_BITS};
use crate::numeric;
use crate::numeric::{dot_range, less_dot_range, Numeric};
use crate::scalar;
use crate::scalar::Scalar;
use vstd::prelude::*;

verus! {

// ---------------------------------------------------------------------------
// Cholesky
// ---------------------------------------------------------------------------
/// Square of the `j`-th diagonal entry of the lower factor, from the rows
/// `l` of its first `j` columns.
pub open spec fn diagonal_sq<A: Numeric>(
    num: A,
    g: Seq<Seq<Scalar>>,
    l: Seq<Seq<Scalar>>,
    j: int,
) -> Scalar {
    numeric::less_dot(num, g[j][j], l[j], l[j], 0, j)
}

/// A square that has no usable root.
pub open spec fn unusable(d: Scalar) -> bool {
    scalar::at_most(d, (Scalar { bits: TINY_BITS })) || !d.finite()
}

/// Entry (i, j) of the lower factor, from the rows of its first `j` columns.
pub open spec fn lower_cell<A: Numeric>(
    num: A,
    g: Seq<Seq<Scalar>>,
    l: Seq<Seq<Scalar>>,
    i: int,
    j: int,
) -> Scalar {
    let dj = num.square_root(diagonal_sq(num, g, l, j));
    if i < j {
        Scalar::zero()
    } else if i == j {
        dj
    } else {
        num.quotient(numeric::less_dot(num, g[i][j], l[i], l[j], 0, j), dj)
    }
}

/// The rows of the first `j` columns of the lower factor.
pub open spec fn lower_factor<A: Numeric>(num: A, g: Seq<Seq<Scalar>>, j: int) -> Option<
    Seq<Seq<Scalar>>,
>
    decreases j,
{
    if j <= 0 {
        Some(Seq::new(g.len(), |i: int| Seq::<Scalar>::empty()))
    } else {
        match lower_factor(num, g, j - 1) {
            None => None,
            Some(l) => if unusable(diagonal_sq(num, g, l, j - 1)) {
                None
            } else {
                Some(Seq::new(g.len(), |i: int| l[i].push(lower_cell(num, g, l, i, j - 1))))
            },
        }
    }
}

proof fn lower_factor_stops<A: Numeric>(num: A, g: Seq<Seq<Scalar>>, j: int, k: int)
    requires
        j <= k,
        lower_factor(num, g, j) is None,
    ensures
        lower_factor(num, g, k) is None,
    decreases k,
{
    if j < k {
        lower_factor_stops(num, g, j, k - 1);
    }
}

/// Entries `0..i` of the solution of a lower-triangular system.
pub open spec fn plain_head<A: Numeric>(
    num: A,
    l: Seq<Seq<Scalar>>,
    b: Seq<Scalar>,
    i: int,
) -> Seq<Scalar>
    decreases i,
{
    if i <= 0 {
        seq![]
    } else {
        let head = plain_head(num, l, b, i - 1);
        head.push(
            num.quotient(
                numeric::less_dot(num, b[i - 1], l[i - 1], head, 0, i - 1),
                l[i - 1][i - 1],
            ),
        )
    }
}

/// Rows and columns change places.
pub open spec fn transpose(g: Seq<Seq<Scalar>>) -> Seq<Seq<Scalar>> {
    Seq::new(g.len(), |i: int| linalg::col(g, i))
}

/// The solution of a symmetric system: through its lower factor if it has
/// one, else by elimination.
pub open spec fn symmetric_solution<A: Numeric>(
    num: A,
    g: Seq<Seq<Scalar>>,
    b: Seq<Scalar>,
) -> Option<Seq<Scalar>> {
    let n = b.len() as int;
    match lower_factor(num, g, n) {
        Some(l) => Some(
            gauss::plain_tail(num, transpose(l), plain_head(num, l, b, n), n, 0),
        ),
        None => gauss::gauss_solution(num, g, b),
    }
}

/// Appends column `j` to the rows of the lower factor.
fn extend_factor<A: Numeric>(
    num: &A,
    a: &Vec<Vec<Scalar>>,
    l: &Vec<Vec<Scalar>>,
    j: usize,
    dj: Scalar,
) -> (r: Vec<Vec<Scalar>>)
    requires
        num.sound(),
        j < a@.len(),
        l@.len() == a@.len(),
        linalg::wide(linalg::grid(a@), a@.len() as int),
        linalg::wide(linalg::grid(l@), j as int),
        dj == num.square_root(
            diagonal_sq(*num, linalg::grid(a@), linalg::grid(l@), j as int),
        ),
    ensures
        linalg::grid(r@) == Seq::new(
            a@.len(),
            |i: int|
                linalg::grid(l@)[i].push(
                    lower_cell(*num, linalg::grid(a@), linalg::grid(l@), i, j as int),
                ),
        ),
        linalg::wide(linalg::grid(r@), j + 1),
        r@.len() == a@.len(),
{
    let n: usize = a.len();
    let ghost g = linalg::grid(a@);
    let ghost lg = linalg::grid(l@);
    let ghost target = Seq::new(
        a@.len(),
        |i: int| lg[i].push(lower_cell(*num, g, lg, i, j as int)),
    );
    assert(lg[j as int].len() == j);
    let mut out: Vec<Vec<Scalar>> = Vec::with_capacity(n);
    let mut i: usize = 0;
    while i < n
        invariant
            num.sound(),
            n == a@.len(),
            g == linalg::grid(a@),
            lg == linalg::grid(l@),
            target == Seq::new(
                a@.len(),
                |i: int| lg[i].push(lower_cell(*num, g, lg, i, j as int)),
            ),
            j < n,
            l@.len() == n,
            linalg::wide(g, n as int),
            linalg::wide(lg, j as int),
            dj == num.square_root(diagonal_sq(*num, g, lg, j as int)),
            i <= n,
            linalg::grid(out@) == target.take(i as int),
        decreases n - i,
    {
        assert(lg[i as int].len() == j);
        assert(lg[j as int].len() == j);
        assert(g[i as int].len() == n);
        let mut row: Vec<Scalar> = numeric::copy(&l[i]);
        let cell: Scalar = if i < j {
            Scalar::zero()
        } else if i == j {
            dj
        } else {
            let s: Scalar = less_dot_range(num, a[i][j], &l[i], &l[j], 0, j);
            num.over(s, dj)
        };
        assert(cell == lower_cell(*num, g, lg, i as int, j as int));
        row.push(cell);
        assert(row@ =~= target[i as int]);
        let ghost before = linalg::grid(out@);
        out.push(row);
        assert(linalg::grid(out@) =~= before.push(target[i as int]));
        i += 1;
        assert(linalg::grid(out@) =~= target.take(i as int));
    }
    proof {
        assert(target.take(i as int) =~= target);
        assert(linalg::grid(out@).len() == out@.len());
        assert forall|k: int| 0 <= k < linalg::grid(out@).len() implies (
        #[trigger] linalg::grid(out@)[k]).len() == j + 1 by {
            assert(lg[k].len() == j);
        }
    }
    out
}

fn empty_rows(n: usize) -> (r: Vec<Vec<Scalar>>)
    ensures
        linalg::grid(r@) == Seq::new(n as nat, |i: int| Seq::<Scalar>::empty()),
        linalg::wide(linalg::grid(r@), 0),
        r@.len() == n,
{
    let mut out: Vec<Vec<Scalar>> = Vec::with_capacity(n);
    let mut i: usize = 0;
    while i < n
        invariant
            i <= n,
            out@.len() == i,
            linalg::grid(out@) == Seq::new(i as nat, |i: int| Seq::<Scalar>::empty()),
        decreases n - i,
    {
        let row: Vec<Scalar> = Vec::new();
        assert(row@ =~= Seq::<Scalar>::empty());
        let ghost before = linalg::grid(out@);
        out.push(row);
        assert(linalg::grid(out@) =~= before.push(Seq::<Scalar>::empty()));
        i += 1;
        assert(linalg::grid(out@) =~= Seq::new(i as nat, |i: int| Seq::<Scalar>::empty()));
    }
    out
}

fn plain_forward<A: Numeric>(num: &A, l: &Vec<Vec<Scalar>>, b: &Vec<Scalar>) -> (r: Vec<Scalar>)
    requires
        num.sound(),
        l@.len() == b@.len(),
        linalg::wide(linalg::grid(l@), b@.len() as int),
    ensures
        r@ == plain_head(*num, linalg::grid(l@), b@, b@.len() as int),
        r@.len() == b@.len(),
{
    let ghost lg = linalg::grid(l@);
    let mut out: Vec<Scalar> = Vec::with_capacity(b.len());
    let mut i: usize = 0;
    while i < b.len()
        invariant
            num.sound(),
            lg == linalg::grid(l@),
            l@.len() == b@.len(),
            linalg::wide(lg, b@.len() as int),
            i <= b.len(),
            out@.len() == i,
            out@ == plain_head(*num, lg, b@, i as int),
        decreases b.len() - i,
    {
        let row: &Vec<Scalar> = &l[i];
        assert(row@ == lg[i as int]);
        let s: Scalar = less_dot_range(num, b[i], row, &out, 0, i);
        out.push(num.over(s, row[i]));
        i += 1;
    }
    out
}

fn transposed(a: &Vec<Vec<Scalar>>) -> (r: Vec<Vec<Scalar>>)
    requires
        linalg::wide(linalg::grid(a@), a@.len() as int),
    ensures
        linalg::grid(r@) == transpose(linalg::grid(a@)),
        r@.len() == a@.len(),
{
    let n: usize = a.len();
    let ghost target = transpose(linalg::grid(a@));
    let mut out: Vec<Vec<Scalar>> = Vec::with_capacity(n);
    let mut i: usize = 0;
    while i < n
        invariant
            n == a@.len(),
            linalg::wide(linalg::grid(a@), a@.len() as int),
            target == transpose(linalg::grid(a@)),
            i <= n,
            out@.len() == i,
            linalg::grid(out@) == target.take(i as int),
        decreases n - i,
    {
        let c: Vec<Scalar> = column_of(a, i, n);
        let ghost before = linalg::grid(out@);
        out.push(c);
        assert(linalg::grid(out@) =~= before.push(target[i as int]));
        i += 1;
        assert(linalg::grid(out@) =~= target.take(i as int));
    }
    assert(target.take(i as int) =~= target);
    out
}

/// Solves a symmetric system.
pub fn solve_symmetric<A: Numeric>(num: &A, a: &Vec<Vec<Scalar>>, b: &Vec<Scalar>) -> (r: Result<
    Vec<Scalar>,
    LinalgFault,
>)
    requires
        num.sound(),
        a@.len() == b@.len(),
        linalg::wide(linalg::grid(a@), b@.len() as int),
        b@.len() < usize::MAX,
    ensures
        match r {
            Ok(x) => symmetric_solution(*num, linalg::grid(a@), b@) == Some(x@) && x@.len()
                == b@.len(),
            Err(e) => e == LinalgFault::SingularSystem && symmetric_solution(
                *num,
                linalg::grid(a@),
                b@,
            ) is None,
        },
{
    let n: usize = b.len();
    let ghost g = linalg::grid(a@);
    let mut l: Vec<Vec<Scalar>> = empty_rows(n);
    assert(g.len() == n);
    let mut j: usize = 0;
    while j < n
        invariant
            num.sound(),
            n == a@.len(),
            n == b@.len(),
            n < usize::MAX,
            g == linalg::grid(a@),
            linalg::wide(g, n as int),
            j <= n,
            l@.len() == n,
            linalg::wide(linalg::grid(l@), j as int),
            lower_factor(*num, g, j as int) == Some(linalg::grid(l@)),
        decreases n - j,
    {
        assert(linalg::grid(l@)[j as int].len() == j);
        assert(g[j as int].len() == n);
        let d: Scalar = less_dot_range(num, a[j][j], &l[j], &l[j], 0, j);
        if d.le(Scalar::from_bits(TINY_BITS)) || !d.is_finite() {
            proof {
                lower_factor_stops(*num, g, j + 1, n as int);
            }
            return gauss_solve(num, a, b);
        }
        let dj: Scalar = num.root(d);
        l = extend_factor(num, a, &l, j, dj);
        j += 1;
    }
    let y: Vec<Scalar> = plain_forward(num, &l, b);
    let lt: Vec<Vec<Scalar>> = transposed(&l);
    assert(linalg::grid(lt@).len() == n);
    assert(linalg::grid(l@).len() == n);
    Ok(plain_back_substitute(num, &lt, &y, n))
}

// ---------------------------------------------------------------------------
// Normal equations
// ---------------------------------------------------------------------------
/// Entry (j, k) of the Gram matrix of the columns.
pub open spec fn gram<A: Numeric>(num: A, jac: Seq<Seq<Scalar>>, j: int, k: int) -> Scalar {
    let lo = if j <= k {
        j
    } else {
        k
    };
    let hi = if j <= k {
        k
    } else {
        j
    };
    numeric::dot_from(
        num,
        Scalar::zero(),
        linalg::col(jac, lo),
        linalg::col(jac, hi),
        0,
        jac.len() as int,
    )
}

/// Entry (j, k) of the damped Gram matrix.
pub open spec fn damped_cell<A: Numeric>(
    num: A,
    jac: Seq<Seq<Scalar>>,
    d: Seq<Scalar>,
    lambda: Scalar,
    j: int,
    k: int,
) -> Scalar {
    if j == k {
        num.sum(gram(num, jac, j, k), num.product(num.product(lambda, d[j]), d[j]))
    } else {
        gram(num, jac, j, k)
    }
}

/// The damped Gram matrix.
pub open spec fn damped_gram<A: Numeric>(
    num: A,
    jac: Seq<Seq<Scalar>>,
    d: Seq<Scalar>,
    lambda: Scalar,
) -> Seq<Seq<Scalar>> {
    Seq::new(
        d.len(),
        |j: int| Seq::new(d.len(), |k: int| damped_cell(num, jac, d, lambda, j, k)),
    )
}

/// Builds the damped Gram matrix.
pub fn build_damped_gram<A: Numeric>(
    num: &A,
    jac: &Vec<Vec<Scalar>>,
    d: &Vec<Scalar>,
    lambda: Scalar,
) -> (r: Vec<Vec<Scalar>>)
    requires
        num.sound(),
        linalg::wide(linalg::grid(jac@), d@.len() as int),
    ensures
        linalg::grid(r@) == damped_gram(*num, linalg::grid(jac@), d@, lambda),
        r@.len() == d@.len(),
{
    let n: usize = d.len();
    let ghost g = linalg::grid(jac@);
    let ghost target = damped_gram(*num, g, d@, lambda);
    let mut out: Vec<Vec<Scalar>> = Vec::with_capacity(n);
    let mut j: usize = 0;
    while j < n
        invariant
            num.sound(),
            n == d@.len(),
            g == linalg::grid(jac@),
            target == damped_gram(*num, g, d@, lambda),
            linalg::wide(g, n as int),
            j <= n,
            out@.len() == j,
            linalg::grid(out@) == target.take(j as int),
        decreases n - j,
    {
        let cj: Vec<Scalar> = column_of(jac, j, n);
        let mut row: Vec<Scalar> = Vec::with_capacity(n);
        let mut k: usize = 0;
        while k < n
            invariant
                num.sound(),
                n == d@.len(),
                g == linalg::grid(jac@),
                target == damped_gram(*num, g, d@, lambda),
                linalg::wide(g, n as int),
                j < n,
                cj@ == linalg::col(g, j as int),
                k <= n,
                row@ == target[j as int].take(k as int),
            decreases n - k,
        {
            let ck: Vec<Scalar> = column_of(jac, k, n);
            let dotted: Scalar = if j <= k {
                dot_range(num, Scalar::zero(), &cj, &ck, 0, jac.len())
            } else {
                dot_range(num, Scalar::zero(), &ck, &cj, 0, jac.len())
            };
            let cell: Scalar = if j == k {
                num.plus(dotted, num.times(num.times(lambda, d[j]), d[j]))
            } else {
                dotted
            };
            assert(cell == damped_cell(*num, g, d@, lambda, j as int, k as int));
            row.push(cell);
            k += 1;
            assert(row@ =~= target[j as int].take(k as int));
        }
        assert(row@ =~= target[j as int]);
        let ghost before = linalg::grid(out@);
        out.push(row);
        assert(linalg::grid(out@) =~= before.push(target[j as int]));
        j += 1;
        assert(linalg::grid(out@) =~= target.take(j as int));
    }
    assert(target.take(j as int) =~= target);
    out
}

/// The step by the damped normal equations.
pub open spec fn normal_solution<A: Numeric>(
    num: A,
    jac: Seq<Seq<Scalar>>,
    jtr: Seq<Scalar>,
    d: Seq<Scalar>,
    lambda: Scalar,
) -> Option<Seq<Scalar>> {
    symmetric_solution(num, damped_gram(num, jac, d, lambda), numeric::flipped(jtr))
}

/// Solves the damped normal equations.
pub fn normal_equation_step<A: Numeric>(
    num: &A,
    jac: &Vec<Vec<Scalar>>,
    jtr: &Vec<Scalar>,
    d: &Vec<Scalar>,
    lambda: Scalar,
) -> (r: Result<Vec<Scalar>, LinalgFault>)
    requires
        num.sound(),
        linalg::wide(linalg::grid(jac@), d@.len() as int),
        jtr@.len() == d@.len(),
        d@.len() < usize::MAX,
    ensures
        match r {
            Ok(x) => normal_solution(*num, linalg::grid(jac@), jtr@, d@, lambda) == Some(x@)
                && x@.len() == d@.len(),
            Err(e) => e == LinalgFault::SingularSystem && normal_solution(
                *num,
                linalg::grid(jac@),
                jtr@,
                d@,
                lambda,
            ) is None,
        },
{
    let a: Vec<Vec<Scalar>> = build_damped_gram(num, jac, d, lambda);
    let b: Vec<Scalar> = numeric::neg(jtr);
    solve_symmetric(num, &a, &b)
}

} // verus!
