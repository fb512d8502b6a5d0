//! Dense linear algebra on matrices held as rows.
use crate::numeric;
use crate::numeric::{dot_range, less_dot_range, Numeric};
use crate::scalar;
use crate::scalar::Scalar;
use vstd::prelude::*;

pub mod gauss;
pub mod normal;
pub mod reflection;
pub mod solves;

verus! {

/// Two's pattern.
pub const TWO_BITS: u64 = 0x4000_0000_0000_0000;

/// Pivots of smaller magnitude count as zero: 1e-300.
pub const TINY_BITS: u64 = 0x01a5_6e1f_c2f8_f359;

/// Why a system was not solved.
#[derive(Clone, Copy, Debug, PartialEq, Eq, Structural)]
pub enum LinalgFault {
    /// Fewer rows than columns.
    FewRows,
    /// A column that is degenerate or not finite.
    BadColumn,
    /// A triangular factor that is singular.
    SingularTriangle,
    /// A singular normal-equation system.
    SingularSystem,
}

/// The rows' entries.
pub open spec fn grid(rows: Seq<Vec<Scalar>>) -> Seq<Seq<Scalar>> {
    rows.map_values(|r: Vec<Scalar>| r@)
}

/// All rows have `n` entries.
pub open spec fn wide(g: Seq<Seq<Scalar>>, n: int) -> bool {
    forall|i: int| 0 <= i < g.len() ==> (#[trigger] g[i]).len() == n
}

/// Column `k`.
pub open spec fn col(g: Seq<Seq<Scalar>>, k: int) -> Seq<Scalar> {
    Seq::new(g.len(), |i: int| g[i][k])
}

/// Copies column `k`.
pub fn column_of(a: &Vec<Vec<Scalar>>, k: usize, n: usize) -> (r: Vec<Scalar>)
    requires
        wide(grid(a@), n as int),
        k < n,
    ensures
        r@ == col(grid(a@), k as int),
{
    let mut out: Vec<Scalar> = Vec::with_capacity(a.len());
    let mut i: usize = 0;
    while i < a.len()
        invariant
            wide(grid(a@), n as int),
            k < n,
            i <= a.len(),
            out@ == col(grid(a@), k as int).take(i as int),
        decreases a.len() - i,
    {
        assert(grid(a@)[i as int].len() == n);
        out.push(a[i][k]);
        i += 1;
        assert(out@ =~= col(grid(a@), k as int).take(i as int));
    }
    assert(col(grid(a@), k as int).take(i as int) =~= col(grid(a@), k as int));
    out
}

// ---------------------------------------------------------------------------
// Householder factorization
// ---------------------------------------------------------------------------
/// Square of the norm of column `k` from row `k` on.
pub open spec fn pivot_norm_sq<A: Numeric>(num: A, g: Seq<Seq<Scalar>>, k: int) -> Scalar {
    numeric::dot_from(num, Scalar::zero(), col(g, k), col(g, k), k, g.len() as int)
}

/// A column norm that gives no reflection: not positive or not finite.
pub open spec fn degenerate(norm_sq: Scalar) -> bool {
    !scalar::less(Scalar::zero(), norm_sq) || !norm_sq.finite()
}

/// The entry that column `k` is reflected onto; its sign keeps the reflector
/// free of cancellation.
pub open spec fn reflected_head<A: Numeric>(num: A, g: Seq<Seq<Scalar>>, k: int) -> Scalar {
    let norm = num.square_root(pivot_norm_sq(num, g, k));
    if scalar::at_most(Scalar::zero(), g[k][k]) {
        scalar::negated(norm)
    } else {
        norm
    }
}

/// The direction of the reflection, from row `k` on.
pub open spec fn reflector<A: Numeric>(num: A, g: Seq<Seq<Scalar>>, k: int) -> Seq<Scalar> {
    Seq::new(
        g.len(),
        |i: int|
            if i == k {
                num.difference(g[k][k], reflected_head(num, g, k))
            } else {
                g[i][k]
            },
    )
}

/// Square of the reflector's norm.
pub open spec fn reflector_sq<A: Numeric>(num: A, g: Seq<Seq<Scalar>>, k: int) -> Scalar {
    let v = reflector(num, g, k);
    numeric::dot_from(
        num,
        (Scalar { bits: numeric::NEG_ZERO_BITS }),
        v,
        v,
        k,
        g.len() as int,
    )
}

/// How much of the reflector is taken off `w`.
pub open spec fn reflector_share<A: Numeric>(
    num: A,
    g: Seq<Seq<Scalar>>,
    k: int,
    w: Seq<Scalar>,
) -> Scalar {
    num.quotient(
        num.product(
            (Scalar { bits: TWO_BITS }),
            numeric::dot_from(num, Scalar::zero(), reflector(num, g, k), w, k, g.len() as int),
        ),
        reflector_sq(num, g, k),
    )
}

/// The reflector is the zero vector: the column is already in place.
pub open spec fn in_place<A: Numeric>(num: A, g: Seq<Seq<Scalar>>, k: int) -> bool {
    scalar::at_most(reflector_sq(num, g, k), Scalar::zero())
}

/// Entry (i, j) after the reflection of column `k`.
pub open spec fn reflected_cell<A: Numeric>(
    num: A,
    g: Seq<Seq<Scalar>>,
    k: int,
    i: int,
    j: int,
) -> Scalar {
    if i < k || j < k {
        g[i][j]
    } else if j == k {
        if i == k {
            reflected_head(num, g, k)
        } else {
            Scalar::zero()
        }
    } else if in_place(num, g, k) {
        g[i][j]
    } else {
        num.difference(
            g[i][j],
            num.product(reflector_share(num, g, k, col(g, j)), reflector(num, g, k)[i]),
        )
    }
}

/// The matrix after the reflection of column `k`.
pub open spec fn reflected<A: Numeric>(
    num: A,
    g: Seq<Seq<Scalar>>,
    n: int,
    k: int,
) -> Seq<Seq<Scalar>> {
    Seq::new(
        g.len(),
        |i: int| Seq::new(n as nat, |j: int| reflected_cell(num, g, k, i, j)),
    )
}

/// The right-hand side after the reflection of column `k`.
pub open spec fn reflected_rhs<A: Numeric>(
    num: A,
    g: Seq<Seq<Scalar>>,
    b: Seq<Scalar>,
    k: int,
) -> Seq<Scalar> {
    Seq::new(
        b.len(),
        |i: int|
            if i < k || in_place(num, g, k) {
                b[i]
            } else {
                num.difference(
                    b[i],
                    num.product(reflector_share(num, g, k, b), reflector(num, g, k)[i]),
                )
            },
    )
}

/// Matrix and right-hand side after the first `k` columns were reflected, or
/// nothing if one of those columns is degenerate.
pub open spec fn factored<A: Numeric>(
    num: A,
    g: Seq<Seq<Scalar>>,
    b: Seq<Scalar>,
    n: int,
    k: int,
) -> Option<(Seq<Seq<Scalar>>, Seq<Scalar>)>
    decreases k,
{
    if k <= 0 {
        Some((g, b))
    } else {
        match factored(num, g, b, n, k - 1) {
            None => None,
            Some((h, c)) => if degenerate(pivot_norm_sq(num, h, k - 1)) {
                None
            } else {
                Some((reflected(num, h, n, k - 1), reflected_rhs(num, h, c, k - 1)))
            },
        }
    }
}

/// Once a column is degenerate the factorization stays undone.
proof fn factored_stops<A: Numeric>(
    num: A,
    g: Seq<Seq<Scalar>>,
    b: Seq<Scalar>,
    n: int,
    k: int,
    l: int,
)
    requires
        k <= l,
        factored(num, g, b, n, k) is None,
    ensures
        factored(num, g, b, n, l) is None,
    decreases l,
{
    if k < l {
        factored_stops(num, g, b, n, k, l - 1);
    }
}

fn reflect_cells<A: Numeric>(
    num: &A,
    a: &Vec<Vec<Scalar>>,
    n: usize,
    k: usize,
    alpha: Scalar,
    v: &Vec<Scalar>,
    shares: &Vec<Scalar>,
    still: bool,
) -> (r: Vec<Vec<Scalar>>)
    requires
        num.sound(),
        wide(grid(a@), n as int),
        k < n <= a@.len(),
        alpha == reflected_head(*num, grid(a@), k as int),
        v@ == reflector(*num, grid(a@), k as int),
        still == in_place(*num, grid(a@), k as int),
        shares@.len() == n,
        !still ==> forall|j: int|
            k < j < n ==> #[trigger] shares@[j] == reflector_share(
                *num,
                grid(a@),
                k as int,
                col(grid(a@), j),
            ),
    ensures
        grid(r@) == reflected(*num, grid(a@), n as int, k as int),
{
    let ghost g = grid(a@);
    let ghost target = reflected(*num, g, n as int, k as int);
    let mut out: Vec<Vec<Scalar>> = Vec::with_capacity(a.len());
    let mut i: usize = 0;
    while i < a.len()
        invariant
            num.sound(),
            g == grid(a@),
            target == reflected(*num, g, n as int, k as int),
            wide(g, n as int),
            k < n <= a@.len(),
            alpha == reflected_head(*num, g, k as int),
            v@ == reflector(*num, g, k as int),
            still == in_place(*num, g, k as int),
            shares@.len() == n,
            !still ==> forall|j: int|
                k < j < n ==> #[trigger] shares@[j] == reflector_share(
                    *num,
                    g,
                    k as int,
                    col(g, j),
                ),
            i <= a.len(),
            grid(out@) == target.take(i as int),
        decreases a.len() - i,
    {
        assert(g[i as int].len() == n);
        let row: &Vec<Scalar> = &a[i];
        assert(row@ == g[i as int]);
        let mut new_row: Vec<Scalar> = Vec::with_capacity(n);
        let mut j: usize = 0;
        while j < n
            invariant
                num.sound(),
                target == reflected(*num, g, n as int, k as int),
                i < g.len(),
                k < n <= g.len(),
                row@ == g[i as int],
                row@.len() == n,
                alpha == reflected_head(*num, g, k as int),
                v@ == reflector(*num, g, k as int),
                still == in_place(*num, g, k as int),
                shares@.len() == n,
                !still ==> forall|j: int|
                    k < j < n ==> #[trigger] shares@[j] == reflector_share(
                        *num,
                        g,
                        k as int,
                        col(g, j),
                    ),
                j <= n,
                new_row@ == target[i as int].take(j as int),
            decreases n - j,
        {
            let cell: Scalar = if i < k || j < k {
                row[j]
            } else if j == k {
                if i == k {
                    alpha
                } else {
                    Scalar::zero()
                }
            } else if still {
                row[j]
            } else {
                num.minus(row[j], num.times(shares[j], v[i]))
            };
            assert(cell == reflected_cell(*num, g, k as int, i as int, j as int));
            new_row.push(cell);
            j += 1;
            assert(new_row@ =~= target[i as int].take(j as int));
        }
        assert(new_row@ =~= target[i as int]);
        let ghost before = grid(out@);
        out.push(new_row);
        assert(grid(out@) =~= before.push(target[i as int]));
        i += 1;
        assert(grid(out@) =~= target.take(i as int));
    }
    assert(target.take(i as int) =~= target);
    out
}

fn reflect_rhs<A: Numeric>(
    num: &A,
    b: &Vec<Scalar>,
    k: usize,
    v: &Vec<Scalar>,
    share: Scalar,
    still: bool,
    Ghost(g): Ghost<Seq<Seq<Scalar>>>,
) -> (r: Vec<Scalar>)
    requires
        num.sound(),
        b@.len() == g.len(),
        v@ == reflector(*num, g, k as int),
        still == in_place(*num, g, k as int),
        !still ==> share == reflector_share(*num, g, k as int, b@),
    ensures
        r@ == reflected_rhs(*num, g, b@, k as int),
{
    let ghost target = reflected_rhs(*num, g, b@, k as int);
    let mut out: Vec<Scalar> = Vec::with_capacity(b.len());
    let mut i: usize = 0;
    while i < b.len()
        invariant
            num.sound(),
            target == reflected_rhs(*num, g, b@, k as int),
            b@.len() == g.len(),
            v@ == reflector(*num, g, k as int),
            still == in_place(*num, g, k as int),
            !still ==> share == reflector_share(*num, g, k as int, b@),
            i <= b.len(),
            out@ == target.take(i as int),
        decreases b.len() - i,
    {
        let cell: Scalar = if i < k || still {
            b[i]
        } else {
            num.minus(b[i], num.times(share, v[i]))
        };
        out.push(cell);
        i += 1;
        assert(out@ =~= target.take(i as int));
    }
    assert(target.take(i as int) =~= target);
    out
}

/// Householder factorization of a matrix with `n` columns, applied to `b` as
/// well: the upper triangle lands in the first `n` rows.
pub fn householder_qr<A: Numeric>(
    num: &A,
    a: Vec<Vec<Scalar>>,
    b: Vec<Scalar>,
    n: usize,
) -> (r: Result<(Vec<Vec<Scalar>>, Vec<Scalar>), LinalgFault>)
    requires
        num.sound(),
        wide(grid(a@), n as int),
        b@.len() == a@.len(),
    ensures
        match r {
            Err(e) => if a@.len() < n {
                e == LinalgFault::FewRows
            } else {
                e == LinalgFault::BadColumn && factored(
                    *num,
                    grid(a@),
                    b@,
                    n as int,
                    n as int,
                ) is None
            },
            Ok((q, c)) => {
                &&& a@.len() >= n
                &&& factored(*num, grid(a@), b@, n as int, n as int) == Some((grid(q@), c@))
                &&& q@.len() == a@.len()
                &&& wide(grid(q@), n as int)
                &&& c@.len() == b@.len()
            },
        },
{
    let rows: usize = a.len();
    if rows < n {
        return Err(LinalgFault::FewRows);
    }
    let ghost g0 = grid(a@);
    let ghost b0 = b@;
    let mut cur: Vec<Vec<Scalar>> = a;
    let mut rhs: Vec<Scalar> = b;
    let mut k: usize = 0;
    while k < n
        invariant
            num.sound(),
            k <= n <= rows,
            rows == a@.len(),
            g0 == grid(a@),
            b0 == b@,
            cur@.len() == rows,
            rhs@.len() == rows,
            wide(grid(cur@), n as int),
            factored(*num, g0, b0, n as int, k as int) == Some((grid(cur@), rhs@)),
        decreases n - k,
    {
        let ghost g = grid(cur@);
        let ck: Vec<Scalar> = column_of(&cur, k, n);
        let norm_sq: Scalar = dot_range(num, Scalar::zero(), &ck, &ck, k, rows);
        assert(norm_sq == pivot_norm_sq(*num, g, k as int));
        if !norm_sq.gt(Scalar::zero()) || !norm_sq.is_finite() {
            proof {
                factored_stops(*num, g0, b0, n as int, k + 1, n as int);
            }
            return Err(LinalgFault::BadColumn);
        }
        let length: Scalar = num.root(norm_sq);
        let akk: Scalar = ck[k];
        assert(akk == g[k as int][k as int]);
        let alpha: Scalar = if akk.ge(Scalar::zero()) {
            length.neg()
        } else {
            length
        };
        assert(alpha == reflected_head(*num, g, k as int));
        let mut v: Vec<Scalar> = ck;
        v.set(k, num.minus(akk, alpha));
        assert(v@ =~= reflector(*num, g, k as int));
        let vtv: Scalar = dot_range(
            num,
            Scalar::from_bits(numeric::NEG_ZERO_BITS),
            &v,
            &v,
            k,
            rows,
        );
        let still: bool = vtv.le(Scalar::zero());
        let mut shares: Vec<Scalar> = Vec::with_capacity(n);
        let mut j: usize = 0;
        while j < n
            invariant
                num.sound(),
                k < n <= rows,
                cur@.len() == rows,
                g == grid(cur@),
                wide(g, n as int),
                v@ == reflector(*num, g, k as int),
                vtv == reflector_sq(*num, g, k as int),
                j <= n,
                shares@.len() == j,
                !still ==> forall|i: int|
                    k < i < j ==> #[trigger] shares@[i] == reflector_share(
                        *num,
                        g,
                        k as int,
                        col(g, i),
                    ),
            decreases n - j,
        {
            if j <= k || still {
                shares.push(Scalar::zero());
            } else {
                let cj: Vec<Scalar> = column_of(&cur, j, n);
                let s: Scalar = dot_range(num, Scalar::zero(), &v, &cj, k, rows);
                shares.push(num.over(num.times(Scalar::from_bits(TWO_BITS), s), vtv));
            }
            j += 1;
        }
        let share: Scalar = if still {
            Scalar::zero()
        } else {
            let s: Scalar = dot_range(num, Scalar::zero(), &v, &rhs, k, rows);
            num.over(num.times(Scalar::from_bits(TWO_BITS), s), vtv)
        };
        let next: Vec<Vec<Scalar>> = reflect_cells(num, &cur, n, k, alpha, &v, &shares, still);
        let next_rhs: Vec<Scalar> = reflect_rhs(num, &rhs, k, &v, share, still, Ghost(g));
        proof {
            assert(grid(next@).len() == next@.len());
            assert forall|i: int| 0 <= i < grid(next@).len() implies (
            #[trigger] grid(next@)[i]).len() == n by {
                assert(grid(next@)[i] == reflected(*num, g, n as int, k as int)[i]);
            }
        }
        cur = next;
        rhs = next_rhs;
        k += 1;
    }
    Ok((cur, rhs))
}

// ---------------------------------------------------------------------------
// Triangular solves
// ---------------------------------------------------------------------------
/// A pivot that cannot be divided by.
pub open spec fn bad_pivot(d: Scalar) -> bool {
    scalar::less(scalar::absolute(d), (Scalar { bits: TINY_BITS })) || !d.finite()
}

/// `xs` with zeros put before it so that its entries end at index `n`.
pub open spec fn aligned(xs: Seq<Scalar>, n: int) -> Seq<Scalar> {
    Seq::new((n - xs.len()) as nat, |i: int| Scalar::zero()) + xs
}

/// Entries `i..n` of the solution of the upper-triangular system whose matrix
/// is the leading block of `g`: each is its right-hand side, less what the
/// entries after it take, over its pivot.
pub open spec fn upper_tail<A: Numeric>(
    num: A,
    g: Seq<Seq<Scalar>>,
    b: Seq<Scalar>,
    n: int,
    i: int,
) -> Option<Seq<Scalar>>
    decreases n - i,
{
    if i >= n {
        Some(seq![])
    } else {
        match upper_tail(num, g, b, n, i + 1) {
            None => None,
            Some(rest) => if bad_pivot(g[i][i]) {
                None
            } else {
                Some(
                    seq![
                        num.quotient(
                            numeric::less_dot(num, b[i], g[i], aligned(rest, n), i + 1, n),
                            g[i][i],
                        ),
                    ] + rest,
                )
            },
        }
    }
}

proof fn upper_tail_len<A: Numeric>(
    num: A,
    g: Seq<Seq<Scalar>>,
    b: Seq<Scalar>,
    n: int,
    i: int,
)
    requires
        i <= n,
    ensures
        upper_tail(num, g, b, n, i) matches Some(xs) ==> xs.len() == n - i,
    decreases n - i,
{
    if i < n {
        upper_tail_len(num, g, b, n, i + 1);
    }
}

proof fn upper_tail_stops<A: Numeric>(
    num: A,
    g: Seq<Seq<Scalar>>,
    b: Seq<Scalar>,
    n: int,
    i: int,
    j: int,
)
    requires
        i <= j <= n,
        upper_tail(num, g, b, n, j) is None,
    ensures
        upper_tail(num, g, b, n, i) is None,
    decreases j - i,
{
    if i < j {
        upper_tail_stops(num, g, b, n, i + 1, j);
    }
}

/// Solves the upper-triangular system in the leading block.
pub fn back_substitute<A: Numeric>(
    num: &A,
    a: &Vec<Vec<Scalar>>,
    b: &Vec<Scalar>,
    n: usize,
) -> (r: Result<Vec<Scalar>, LinalgFault>)
    requires
        num.sound(),
        n <= a@.len(),
        n <= b@.len(),
        forall|i: int| 0 <= i < n ==> (#[trigger] grid(a@)[i]).len() == n,
    ensures
        match r {
            Ok(x) => upper_tail(*num, grid(a@), b@, n as int, 0) == Some(x@) && x@.len() == n,
            Err(e) => e == LinalgFault::SingularTriangle && upper_tail(
                *num,
                grid(a@),
                b@,
                n as int,
                0,
            ) is None,
        },
{
    let ghost g = grid(a@);
    let mut out: Vec<Scalar> = Vec::with_capacity(n);
    let mut z: usize = 0;
    while z < n
        invariant
            z <= n,
            out@ == Seq::new(z as nat, |i: int| Scalar::zero()),
        decreases n - z,
    {
        out.push(Scalar::zero());
        z += 1;
        assert(out@ =~= Seq::new(z as nat, |i: int| Scalar::zero()));
    }
    let mut i: usize = n;
    assert(out@ =~= aligned(seq![], n as int));
    while i > 0
        invariant
            num.sound(),
            g == grid(a@),
            i <= n,
            n <= a@.len(),
            n <= b@.len(),
            out@.len() == n,
            forall|i: int| 0 <= i < n ==> (#[trigger] g[i]).len() == n,
            upper_tail(*num, g, b@, n as int, i as int) is Some,
            out@ == aligned(upper_tail(*num, g, b@, n as int, i as int)->0, n as int),
        decreases i,
    {
        i -= 1;
        let ghost rest = upper_tail(*num, g, b@, n as int, i + 1)->0;
        proof {
            upper_tail_len(*num, g, b@, n as int, i + 1);
        }
        let row: &Vec<Scalar> = &a[i];
        assert(row@ == g[i as int]);
        let d: Scalar = row[i];
        if d.abs().lt(Scalar::from_bits(TINY_BITS)) || !d.is_finite() {
            proof {
                upper_tail_stops(*num, g, b@, n as int, 0, i as int);
            }
            return Err(LinalgFault::SingularTriangle);
        }
        let s: Scalar = less_dot_range(num, b[i], row, &out, i + 1, n);
        let x: Scalar = num.over(s, d);
        out.set(i, x);
        proof {
            assert(out@ =~= aligned(seq![x] + rest, n as int));
        }
    }
    proof {
        upper_tail_len(*num, g, b@, n as int, 0);
        assert(out@ =~= upper_tail(*num, g, b@, n as int, 0)->0);
    }
    Ok(out)
}

/// Entries `0..i` of the solution of the transposed system: each is its
/// right-hand side, less what the entries before it take, over its pivot.
pub open spec fn transposed_head<A: Numeric>(
    num: A,
    g: Seq<Seq<Scalar>>,
    b: Seq<Scalar>,
    i: int,
) -> Option<Seq<Scalar>>
    decreases i,
{
    if i <= 0 {
        Some(seq![])
    } else {
        match transposed_head(num, g, b, i - 1) {
            None => None,
            Some(head) => if bad_pivot(g[i - 1][i - 1]) {
                None
            } else {
                Some(
                    head.push(
                        num.quotient(
                            numeric::less_dot(num, b[i - 1], col(g, i - 1), head, 0, i - 1),
                            g[i - 1][i - 1],
                        ),
                    ),
                )
            },
        }
    }
}

proof fn transposed_head_stops<A: Numeric>(
    num: A,
    g: Seq<Seq<Scalar>>,
    b: Seq<Scalar>,
    i: int,
    j: int,
)
    requires
        i <= j,
        transposed_head(num, g, b, i) is None,
    ensures
        transposed_head(num, g, b, j) is None,
    decreases j,
{
    if i < j {
        transposed_head_stops(num, g, b, i, j - 1);
    }
}

/// Solves the transpose of the upper-triangular system in the leading block.
pub fn forward_substitute_transpose<A: Numeric>(
    num: &A,
    a: &Vec<Vec<Scalar>>,
    b: &Vec<Scalar>,
    n: usize,
) -> (r: Result<Vec<Scalar>, LinalgFault>)
    requires
        num.sound(),
        n <= a@.len(),
        n <= b@.len(),
        wide(grid(a@), n as int),
    ensures
        match r {
            Ok(x) => transposed_head(*num, grid(a@), b@, n as int) == Some(x@) && x@.len() == n,
            Err(e) => e == LinalgFault::SingularTriangle && transposed_head(
                *num,
                grid(a@),
                b@,
                n as int,
            ) is None,
        },
{
    let ghost g = grid(a@);
    let mut out: Vec<Scalar> = Vec::with_capacity(n);
    let mut i: usize = 0;
    while i < n
        invariant
            num.sound(),
            g == grid(a@),
            wide(g, n as int),
            i <= n <= a@.len(),
            n <= b@.len(),
            out@.len() == i,
            transposed_head(*num, g, b@, i as int) == Some(out@),
        decreases n - i,
    {
        let ci: Vec<Scalar> = column_of(a, i, n);
        let d: Scalar = ci[i];
        assert(d == g[i as int][i as int]);
        if d.abs().lt(Scalar::from_bits(TINY_BITS)) || !d.is_finite() {
            proof {
                transposed_head_stops(*num, g, b@, i + 1, n as int);
            }
            return Err(LinalgFault::SingularTriangle);
        }
        let s: Scalar = less_dot_range(num, b[i], &ci, &out, 0, i);
        out.push(num.over(s, d));
        i += 1;
    }
    Ok(out)
}

// ---------------------------------------------------------------------------
// Damped least squares
// ---------------------------------------------------------------------------
/// `n` zeros.
pub open spec fn zeros(n: int) -> Seq<Scalar> {
    Seq::new(n as nat, |i: int| Scalar::zero())
}

/// The upper triangle of the leading block.
pub open spec fn triangle(g: Seq<Seq<Scalar>>, n: int) -> Seq<Seq<Scalar>> {
    Seq::new(
        n as nat,
        |i: int|
            Seq::new(
                n as nat,
                |j: int|
                    if j < i {
                        Scalar::zero()
                    } else {
                        g[i][j]
                    },
            ),
    )
}

/// The diagonal matrix of `diag`.
pub open spec fn diagonal(diag: Seq<Scalar>) -> Seq<Seq<Scalar>> {
    Seq::new(
        diag.len(),
        |i: int|
            Seq::new(
                diag.len(),
                |j: int|
                    if j == i {
                        diag[i]
                    } else {
                        Scalar::zero()
                    },
            ),
    )
}

/// Makes `n` zeros.
pub fn zero_vec(n: usize) -> (r: Vec<Scalar>)
    ensures
        r@ == zeros(n as int),
{
    let mut out: Vec<Scalar> = Vec::with_capacity(n);
    let mut i: usize = 0;
    while i < n
        invariant
            i <= n,
            out@ == zeros(i as int),
        decreases n - i,
    {
        out.push(Scalar::zero());
        i += 1;
        assert(out@ =~= zeros(i as int));
    }
    out
}

/// Extracts the upper triangle of the leading block.
pub fn upper_triangle(a: &Vec<Vec<Scalar>>, n: usize) -> (r: Vec<Vec<Scalar>>)
    requires
        n <= a@.len(),
        wide(grid(a@), n as int),
    ensures
        grid(r@) == triangle(grid(a@), n as int),
        r@.len() == n,
        wide(grid(r@), n as int),
{
    let ghost g = grid(a@);
    let ghost target = triangle(g, n as int);
    let mut out: Vec<Vec<Scalar>> = Vec::with_capacity(n);
    let mut i: usize = 0;
    while i < n
        invariant
            g == grid(a@),
            target == triangle(g, n as int),
            i <= n <= a@.len(),
            wide(g, n as int),
            grid(out@) == target.take(i as int),
        decreases n - i,
    {
        let row: &Vec<Scalar> = &a[i];
        assert(row@ == g[i as int]);
        let mut new_row: Vec<Scalar> = Vec::with_capacity(n);
        let mut j: usize = 0;
        while j < n
            invariant
                target == triangle(g, n as int),
                i < n,
                row@ == g[i as int],
                row@.len() == n,
                j <= n,
                new_row@ == target[i as int].take(j as int),
            decreases n - j,
        {
            let cell: Scalar = if j < i {
                Scalar::zero()
            } else {
                row[j]
            };
            new_row.push(cell);
            j += 1;
            assert(new_row@ =~= target[i as int].take(j as int));
        }
        assert(new_row@ =~= target[i as int]);
        let ghost before = grid(out@);
        out.push(new_row);
        assert(grid(out@) =~= before.push(target[i as int]));
        i += 1;
        assert(grid(out@) =~= target.take(i as int));
    }
    assert(target.take(i as int) =~= target);
    assert(grid(out@).len() == out@.len());
    out
}

/// Puts the rows of a diagonal matrix below `top`.
pub fn stack_diagonal(top: Vec<Vec<Scalar>>, diag: &Vec<Scalar>) -> (r: Vec<Vec<Scalar>>)
    requires
        wide(grid(top@), diag@.len() as int),
    ensures
        grid(r@) == grid(top@) + diagonal(diag@),
        wide(grid(r@), diag@.len() as int),
        r@.len() == top@.len() + diag@.len(),
{
    let n: usize = diag.len();
    let ghost g = grid(top@);
    let ghost lower = diagonal(diag@);
    let mut out: Vec<Vec<Scalar>> = top;
    let mut i: usize = 0;
    assert(lower.take(0) =~= seq![]);
    assert(grid(out@) =~= g + lower.take(0));
    while i < n
        invariant
            i <= n == diag@.len(),
            lower == diagonal(diag@),
            grid(out@) == g + lower.take(i as int),
        decreases n - i,
    {
        let mut new_row: Vec<Scalar> = zero_vec(n);
        new_row.set(i, diag[i]);
        assert(new_row@ =~= lower[i as int]);
        let ghost before = grid(out@);
        out.push(new_row);
        assert(grid(out@) =~= before.push(lower[i as int]));
        i += 1;
        assert(grid(out@) =~= g + lower.take(i as int));
    }
    proof {
        assert(lower.take(i as int) =~= lower);
        assert(grid(out@).len() == out@.len());
        assert(g.len() == top@.len());
        assert forall|k: int| 0 <= k < grid(out@).len() implies (#[trigger] grid(out@)[k]).len()
            == n by {
            if k < g.len() {
                assert(g[k].len() == n);
            } else {
                assert(grid(out@)[k] == lower[k - g.len()]);
            }
        }
    }
    out
}

/// The factor and the rotated right-hand side of `[R; D] x = [-q; 0]`, `R`
/// upper triangular and `D` diagonal.
pub open spec fn damped_factor<A: Numeric>(
    num: A,
    r: Seq<Seq<Scalar>>,
    q: Seq<Scalar>,
    diag: Seq<Scalar>,
) -> Option<(Seq<Seq<Scalar>>, Seq<Scalar>)> {
    factored(
        num,
        r + diagonal(diag),
        numeric::flipped(q) + zeros(diag.len() as int),
        diag.len() as int,
        diag.len() as int,
    )
}

/// Factors the damped system.
pub fn factor_damped<A: Numeric>(
    num: &A,
    r_tri: &Vec<Vec<Scalar>>,
    q: &Vec<Scalar>,
    diag: &Vec<Scalar>,
) -> (r: Result<(Vec<Vec<Scalar>>, Vec<Scalar>), LinalgFault>)
    requires
        num.sound(),
        r_tri@.len() == diag@.len(),
        q@.len() == diag@.len(),
        grid(r_tri@) == triangle(grid(r_tri@), diag@.len() as int),
        wide(grid(r_tri@), diag@.len() as int),
    ensures
        match r {
            Err(e) => e == LinalgFault::BadColumn && damped_factor(
                *num,
                grid(r_tri@),
                q@,
                diag@,
            ) is None,
            Ok((h, c)) => {
                &&& damped_factor(*num, grid(r_tri@), q@, diag@) == Some((grid(h@), c@))
                &&& h@.len() == 2 * diag@.len()
                &&& c@.len() == 2 * diag@.len()
                &&& wide(grid(h@), diag@.len() as int)
            },
        },
{
    let n: usize = diag.len();
    let top: Vec<Vec<Scalar>> = upper_triangle(r_tri, n);
    let stacked: Vec<Vec<Scalar>> = stack_diagonal(top, diag);
    let mut b: Vec<Scalar> = numeric::neg(q);
    let mut tail: Vec<Scalar> = zero_vec(n);
    b.append(&mut tail);
    assert(b@ =~= numeric::flipped(q@) + zeros(n as int));
    householder_qr(num, stacked, b, n)
}

/// The step `x` of `[R; D] x = [-q; 0]` in least squares.
pub open spec fn damped_solution<A: Numeric>(
    num: A,
    r: Seq<Seq<Scalar>>,
    q: Seq<Scalar>,
    diag: Seq<Scalar>,
) -> Option<Seq<Scalar>> {
    match damped_factor(num, r, q, diag) {
        None => None,
        Some((h, c)) => upper_tail(num, h, c, diag.len() as int, 0),
    }
}

/// Solves the damped system.
pub fn solve_damped<A: Numeric>(
    num: &A,
    r_tri: &Vec<Vec<Scalar>>,
    q: &Vec<Scalar>,
    diag: &Vec<Scalar>,
) -> (r: Result<Vec<Scalar>, LinalgFault>)
    requires
        num.sound(),
        r_tri@.len() == diag@.len(),
        q@.len() == diag@.len(),
        grid(r_tri@) == triangle(grid(r_tri@), diag@.len() as int),
        wide(grid(r_tri@), diag@.len() as int),
    ensures
        match r {
            Ok(x) => damped_solution(*num, grid(r_tri@), q@, diag@) == Some(x@) && x@.len()
                == diag@.len(),
            Err(e) => {
                &&& damped_solution(*num, grid(r_tri@), q@, diag@) is None
                &&& e == if damped_factor(*num, grid(r_tri@), q@, diag@) is None {
                    LinalgFault::BadColumn
                } else {
                    LinalgFault::SingularTriangle
                }
            },
        },
{
    match factor_damped(num, r_tri, q, diag) {
        Err(e) => Err(e),
        Ok((h, c)) => back_substitute(num, &h, &c, diag.len()),
    }
}

} // verus!
