//! The linear model of one iteration: gradient, scales, stationarity tests,
//! step and promise.
use crate::linalg;
use crate::linalg::normal;
use crate::linalg::normal::normal_equation_step;
use crate::linalg::{column_of, householder_qr, solve_damped, upper_triangle};
use crate::numeric;
use crate::numeric::{dot_range, Numeric};
use crate::scalar;
use crate::scalar::Scalar;
use vstd::prelude::*;

verus! {

/// Floor of the squared column norms: 1e-14.
pub const SCALE_FLOOR_BITS: u64 = 0x3d06_849b_86a1_2b9b;

/// Minus two's pattern.
pub const NEG_TWO_BITS: u64 = 0xc000_0000_0000_0000;

/// The gradient: each column times the residuals.
pub open spec fn gradient<A: Numeric>(
    num: A,
    jac: Seq<Seq<Scalar>>,
    r: Seq<Scalar>,
    n: int,
) -> Seq<Scalar> {
    Seq::new(
        n as nat,
        |j: int|
            numeric::dot_from(
                num,
                Scalar::zero(),
                linalg::col(jac, j),
                r,
                0,
                jac.len() as int,
            ),
    )
}

/// The squared column norms.
pub open spec fn column_squares<A: Numeric>(
    num: A,
    jac: Seq<Seq<Scalar>>,
    n: int,
) -> Seq<Scalar> {
    Seq::new(
        n as nat,
        |j: int|
            numeric::dot_from(
                num,
                Scalar::zero(),
                linalg::col(jac, j),
                linalg::col(jac, j),
                0,
                jac.len() as int,
            ),
    )
}

/// The column norms, floored.
pub open spec fn scales<A: Numeric>(num: A, squares: Seq<Scalar>) -> Seq<Scalar> {
    squares.map_values(
        |s: Scalar| num.square_root(scalar::greater(s, (Scalar { bits: SCALE_FLOOR_BITS }))),
    )
}

/// The greatest magnitude among the first `k` entries.
pub open spec fn peak(xs: Seq<Scalar>, k: int) -> Scalar
    decreases k,
{
    if k <= 0 {
        Scalar::zero()
    } else {
        scalar::greater(peak(xs, k - 1), scalar::absolute(xs[k - 1]))
    }
}

/// Finds the greatest magnitude.
pub fn peak_of(xs: &Vec<Scalar>) -> (r: Scalar)
    ensures
        r == peak(xs@, xs@.len() as int),
{
    let mut acc: Scalar = Scalar::zero();
    let mut i: usize = 0;
    while i < xs.len()
        invariant
            i <= xs.len(),
            acc == peak(xs@, i as int),
        decreases xs.len() - i,
    {
        acc = acc.max(xs[i].abs());
        i += 1;
    }
    acc
}

/// The greatest cosine between the residual and one of the first `k` columns;
/// a zero column has no direction and is passed over.
pub open spec fn greatest_cosine<A: Numeric>(
    num: A,
    jtr: Seq<Scalar>,
    squares: Seq<Scalar>,
    r_norm: Scalar,
    k: int,
) -> Scalar
    decreases k,
{
    if k <= 0 {
        Scalar::zero()
    } else {
        let acc = greatest_cosine(num, jtr, squares, r_norm, k - 1);
        let cn = num.square_root(squares[k - 1]);
        if scalar::less(Scalar::zero(), cn) {
            scalar::greater(
                acc,
                num.quotient(scalar::absolute(jtr[k - 1]), num.product(cn, r_norm)),
            )
        } else {
            acc
        }
    }
}

/// The stationarity measure: zero for an exact fit.
pub open spec fn cosine<A: Numeric>(
    num: A,
    jtr: Seq<Scalar>,
    squares: Seq<Scalar>,
    r_norm: Scalar,
) -> Scalar {
    if scalar::less(Scalar::zero(), r_norm) {
        greatest_cosine(num, jtr, squares, r_norm, jtr.len() as int)
    } else {
        Scalar::zero()
    }
}

/// Computes `cosine`.
pub fn gradient_cosine<A: Numeric>(
    num: &A,
    jtr: &Vec<Scalar>,
    col_sq: &Vec<Scalar>,
    r_norm: Scalar,
) -> (r: Scalar)
    requires
        num.sound(),
        jtr@.len() == col_sq@.len(),
    ensures
        r == cosine(*num, jtr@, col_sq@, r_norm),
{
    if !r_norm.gt(Scalar::zero()) {
        return Scalar::zero();
    }
    let mut acc: Scalar = Scalar::zero();
    let mut i: usize = 0;
    while i < jtr.len()
        invariant
            num.sound(),
            jtr@.len() == col_sq@.len(),
            i <= jtr.len(),
            acc == greatest_cosine(*num, jtr@, col_sq@, r_norm, i as int),
        decreases jtr.len() - i,
    {
        let cn: Scalar = num.root(col_sq[i]);
        if cn.gt(Scalar::zero()) {
            acc = acc.max(num.over(jtr[i].abs(), num.times(cn, r_norm)));
        }
        i += 1;
    }
    acc
}

/// Both reductions are below the tolerance, and the model did not expect the
/// step to hurt.
pub open spec fn ftol_met(rel_actual: Scalar, rel_pred: Scalar, ftol: Scalar) -> bool {
    scalar::less(rel_actual, ftol) && scalar::at_most(Scalar::zero(), rel_pred) && scalar::less(
        rel_pred,
        ftol,
    )
}

/// The cost test.
pub fn ftol_converged(rel_actual: Scalar, rel_pred: Scalar, ftol: Scalar) -> (r: bool)
    ensures
        r == ftol_met(rel_actual, rel_pred, ftol),
{
    rel_actual.lt(ftol) && Scalar::zero().le(rel_pred) && rel_pred.lt(ftol)
}

/// Each row times `s`.
pub open spec fn row_products<A: Numeric>(
    num: A,
    start: Scalar,
    a: Seq<Seq<Scalar>>,
    s: Seq<Scalar>,
) -> Seq<Scalar> {
    a.map_values(
        |row: Seq<Scalar>| numeric::dot_from(num, start, row, s, 0, s.len() as int),
    )
}

/// Multiplies each row by `s`.
pub fn mat_vec<A: Numeric>(
    num: &A,
    start: Scalar,
    a: &Vec<Vec<Scalar>>,
    s: &Vec<Scalar>,
) -> (r: Vec<Scalar>)
    requires
        num.sound(),
        linalg::wide(linalg::grid(a@), s@.len() as int),
    ensures
        r@ == row_products(*num, start, linalg::grid(a@), s@),
        r@.len() == a@.len(),
{
    let ghost g = linalg::grid(a@);
    let ghost target = row_products(*num, start, g, s@);
    let mut out: Vec<Scalar> = Vec::with_capacity(a.len());
    let mut i: usize = 0;
    while i < a.len()
        invariant
            num.sound(),
            g == linalg::grid(a@),
            target == row_products(*num, start, g, s@),
            linalg::wide(g, s@.len() as int),
            i <= a.len(),
            out@ == target.take(i as int),
        decreases a.len() - i,
    {
        assert(g[i as int].len() == s@.len());
        out.push(dot_range(num, start, &a[i], s, 0, s.len()));
        i += 1;
        assert(out@ =~= target.take(i as int));
    }
    assert(out@ =~= target);
    out
}

/// The reduction that the linear model promises for `step`.
pub open spec fn promised<A: Numeric>(
    num: A,
    jac: Seq<Seq<Scalar>>,
    jtr: Seq<Scalar>,
    step: Seq<Scalar>,
) -> Scalar {
    let js = row_products(num, Scalar::zero(), jac, step);
    num.difference(
        num.product((Scalar { bits: NEG_TWO_BITS }), numeric::dot_of(num, jtr, step)),
        numeric::dot_from(num, Scalar::zero(), js, js, 0, js.len() as int),
    )
}

/// Computes `promised`.
pub fn predicted_reduction<A: Numeric>(
    num: &A,
    jac: &Vec<Vec<Scalar>>,
    jtr: &Vec<Scalar>,
    step: &Vec<Scalar>,
) -> (r: Scalar)
    requires
        num.sound(),
        linalg::wide(linalg::grid(jac@), step@.len() as int),
        jtr@.len() == step@.len(),
    ensures
        r == promised(*num, linalg::grid(jac@), jtr@, step@),
{
    let js: Vec<Scalar> = mat_vec(num, Scalar::zero(), jac, step);
    let jd_sq: Scalar = dot_range(num, Scalar::zero(), &js, &js, 0, js.len());
    let gd: Scalar = numeric::dot(num, jtr, step);
    num.minus(num.times(Scalar::from_bits(NEG_TWO_BITS), gd), jd_sq)
}

/// The triangular factor of `jac` and the head of the rotated residuals, if
/// `jac` can be factored.
pub open spec fn factor_of<A: Numeric>(
    num: A,
    jac: Seq<Seq<Scalar>>,
    r: Seq<Scalar>,
    n: int,
) -> Option<(Seq<Seq<Scalar>>, Seq<Scalar>)> {
    if jac.len() < n {
        None
    } else {
        match linalg::factored(num, jac, r, n, n) {
            None => None,
            Some((h, c)) => Some((linalg::triangle(h, n), c.take(n))),
        }
    }
}

/// The step at damping `lambda`: by the factor if there is one and it does not
/// degenerate, else by the normal equations.
pub open spec fn lm_step<A: Numeric>(
    num: A,
    jac: Seq<Seq<Scalar>>,
    r: Seq<Scalar>,
    n: int,
    lambda: Scalar,
) -> Option<Seq<Scalar>> {
    let jtr = gradient(num, jac, r, n);
    let d = scales(num, column_squares(num, jac, n));
    let by_normal = normal::normal_solution(num, jac, jtr, d, lambda);
    match factor_of(num, jac, r, n) {
        None => by_normal,
        Some((r_tri, q)) => match damped_by(num, r_tri, q, d, lambda) {
            Some(x) => Some(x),
            None => by_normal,
        },
    }
}

/// The damped solution at damping `lambda` with scales `d`.
pub open spec fn damped_by<A: Numeric>(
    num: A,
    r_tri: Seq<Seq<Scalar>>,
    q: Seq<Scalar>,
    d: Seq<Scalar>,
    lambda: Scalar,
) -> Option<Seq<Scalar>> {
    let root = num.square_root(lambda);
    linalg::damped_solution(
        num,
        r_tri,
        q,
        Seq::new(d.len(), |j: int| num.product(root, d[j])),
    )
}

/// The model at one point.
pub struct LinearModel {
    /// The Jacobian's rows.
    pub jac: Vec<Vec<Scalar>>,
    pub jtr: Vec<Scalar>,
    pub col_sq: Vec<Scalar>,
    pub d_scale: Vec<Scalar>,
    pub factor: Option<(Vec<Vec<Scalar>>, Vec<Scalar>)>,
}

impl LinearModel {
    /// The model is that of the Jacobian `self.jac` at residuals `r`.
    pub open spec fn describes<A: Numeric>(&self, num: A, r: Seq<Scalar>, n: int) -> bool {
        let g = linalg::grid(self.jac@);
        &&& n < usize::MAX
        &&& g.len() == r.len()
        &&& linalg::wide(g, n)
        &&& self.jtr@ == gradient(num, g, r, n)
        &&& self.col_sq@ == column_squares(num, g, n)
        &&& self.d_scale@ == scales(num, column_squares(num, g, n))
        &&& match self.factor {
            None => factor_of(num, g, r, n) is None,
            Some((t, q)) => {
                &&& factor_of(num, g, r, n) == Some((linalg::grid(t@), q@))
                &&& t@.len() == n
                &&& linalg::wide(linalg::grid(t@), n)
                &&& linalg::grid(t@) == linalg::triangle(linalg::grid(t@), n)
                &&& q@.len() == n
            },
        }
    }
}

fn scale_floor<A: Numeric>(num: &A, col_sq: &Vec<Scalar>) -> (r: Vec<Scalar>)
    requires
        num.sound(),
    ensures
        r@ == scales(*num, col_sq@),
{
    let ghost target = scales(*num, col_sq@);
    let mut out: Vec<Scalar> = Vec::with_capacity(col_sq.len());
    let mut i: usize = 0;
    while i < col_sq.len()
        invariant
            num.sound(),
            target == scales(*num, col_sq@),
            i <= col_sq.len(),
            out@ == target.take(i as int),
        decreases col_sq.len() - i,
    {
        out.push(num.root(col_sq[i].max(Scalar::from_bits(SCALE_FLOOR_BITS))));
        i += 1;
        assert(out@ =~= target.take(i as int));
    }
    assert(out@ =~= target);
    out
}

/// Copies a matrix.
pub fn copy_rows(a: &Vec<Vec<Scalar>>) -> (r: Vec<Vec<Scalar>>)
    ensures
        linalg::grid(r@) == linalg::grid(a@),
        r@.len() == a@.len(),
{
    let ghost g = linalg::grid(a@);
    let mut out: Vec<Vec<Scalar>> = Vec::with_capacity(a.len());
    let mut i: usize = 0;
    while i < a.len()
        invariant
            g == linalg::grid(a@),
            i <= a.len(),
            out@.len() == i,
            linalg::grid(out@) == g.take(i as int),
        decreases a.len() - i,
    {
        let row: Vec<Scalar> = numeric::copy(&a[i]);
        let ghost before = linalg::grid(out@);
        out.push(row);
        assert(linalg::grid(out@) =~= before.push(g[i as int]));
        i += 1;
        assert(linalg::grid(out@) =~= g.take(i as int));
    }
    assert(g.take(i as int) =~= g);
    out
}

/// The gradient of `jac` at `r`.
pub fn jt_times<A: Numeric>(
    num: &A,
    jac: &Vec<Vec<Scalar>>,
    r: &Vec<Scalar>,
    n: usize,
) -> (g: Vec<Scalar>)
    requires
        num.sound(),
        linalg::wide(linalg::grid(jac@), n as int),
        jac@.len() == r@.len(),
    ensures
        g@ == gradient(*num, linalg::grid(jac@), r@, n as int),
        g@.len() == n,
{
    let ghost target = gradient(*num, linalg::grid(jac@), r@, n as int);
    let mut out: Vec<Scalar> = Vec::with_capacity(n);
    let mut j: usize = 0;
    while j < n
        invariant
            num.sound(),
            linalg::wide(linalg::grid(jac@), n as int),
            jac@.len() == r@.len(),
            target == gradient(*num, linalg::grid(jac@), r@, n as int),
            j <= n,
            out@ == target.take(j as int),
        decreases n - j,
    {
        let cj: Vec<Scalar> = column_of(jac, j, n);
        out.push(dot_range(num, Scalar::zero(), &cj, r, 0, jac.len()));
        j += 1;
        assert(out@ =~= target.take(j as int));
    }
    assert(out@ =~= target);
    out
}

/// The squared column norms of `jac`.
pub fn squares_of<A: Numeric>(num: &A, jac: &Vec<Vec<Scalar>>, n: usize) -> (g: Vec<Scalar>)
    requires
        num.sound(),
        linalg::wide(linalg::grid(jac@), n as int),
    ensures
        g@ == column_squares(*num, linalg::grid(jac@), n as int),
        g@.len() == n,
{
    let ghost target = column_squares(*num, linalg::grid(jac@), n as int);
    let mut out: Vec<Scalar> = Vec::with_capacity(n);
    let mut j: usize = 0;
    while j < n
        invariant
            num.sound(),
            linalg::wide(linalg::grid(jac@), n as int),
            target == column_squares(*num, linalg::grid(jac@), n as int),
            j <= n,
            out@ == target.take(j as int),
        decreases n - j,
    {
        let cj: Vec<Scalar> = column_of(jac, j, n);
        out.push(dot_range(num, Scalar::zero(), &cj, &cj, 0, jac.len()));
        j += 1;
        assert(out@ =~= target.take(j as int));
    }
    assert(out@ =~= target);
    out
}

/// The first `n` entries.
pub fn head_of(xs: &Vec<Scalar>, n: usize) -> (r: Vec<Scalar>)
    requires
        n <= xs@.len(),
    ensures
        r@ == xs@.take(n as int),
{
    let mut out: Vec<Scalar> = Vec::with_capacity(n);
    let mut i: usize = 0;
    while i < n
        invariant
            i <= n <= xs@.len(),
            out@ == xs@.take(i as int),
        decreases n - i,
    {
        out.push(xs[i]);
        i += 1;
        assert(out@ =~= xs@.take(i as int));
    }
    out
}

/// Sets the model up from the Jacobian's rows.
pub fn linearize<A: Numeric>(
    num: &A,
    jac: Vec<Vec<Scalar>>,
    r: &Vec<Scalar>,
    n: usize,
) -> (m: LinearModel)
    requires
        num.sound(),
        n < usize::MAX,
        linalg::wide(linalg::grid(jac@), n as int),
        jac@.len() == r@.len(),
    ensures
        m.jac == jac,
        m.describes(*num, r@, n as int),
{
    let ghost g = linalg::grid(jac@);
    let jtr: Vec<Scalar> = jt_times(num, &jac, r, n);
    let col_sq: Vec<Scalar> = squares_of(num, &jac, n);
    let d_scale: Vec<Scalar> = scale_floor(num, &col_sq);
    let a: Vec<Vec<Scalar>> = copy_rows(&jac);
    let b: Vec<Scalar> = numeric::copy(r);
    let factor: Option<(Vec<Vec<Scalar>>, Vec<Scalar>)> = match householder_qr(num, a, b, n) {
        Err(_) => None,
        Ok((h, c)) => {
            let t: Vec<Vec<Scalar>> = upper_triangle(&h, n);
            let q: Vec<Scalar> = head_of(&c, n);
            assert(linalg::triangle(linalg::grid(t@), n as int) =~~= linalg::grid(t@));
            Some((t, q))
        },
    };
    assert(g.len() == r@.len());
    LinearModel { jac, jtr, col_sq, d_scale, factor }
}

/// The step at damping `lambda`.
pub(crate) fn damped_lm_step<A: Numeric>(
    num: &A,
    m: &LinearModel,
    lambda: Scalar,
    n: usize,
    Ghost(r): Ghost<Seq<Scalar>>,
) -> (s: Option<Vec<Scalar>>)
    requires
        num.sound(),
        m.describes(*num, r, n as int),
    ensures
        match s {
            None => lm_step(*num, linalg::grid(m.jac@), r, n as int, lambda) is None,
            Some(x) => lm_step(*num, linalg::grid(m.jac@), r, n as int, lambda) == Some(x@)
                && x@.len() == n,
        },
{
    assert(m.d_scale@.len() == n);
    match &m.factor {
        Some((t, q)) => {
            let root: Scalar = num.root(lambda);
            let diag: Vec<Scalar> = scaled_by(num, root, &m.d_scale);
            match solve_damped(num, t, q, &diag) {
                Ok(x) => {
                    return Some(x);
                },
                Err(_) => {},
            }
        },
        None => {},
    }
    match normal_equation_step(num, &m.jac, &m.jtr, &m.d_scale, lambda) {
        Ok(x) => Some(x),
        Err(_) => None,
    }
}

fn scaled_by<A: Numeric>(num: &A, c: Scalar, d: &Vec<Scalar>) -> (r: Vec<Scalar>)
    requires
        num.sound(),
    ensures
        r@ == Seq::new(d@.len(), |j: int| num.product(c, d@[j])),
{
    let ghost target = Seq::new(d@.len(), |j: int| num.product(c, d@[j]));
    let mut out: Vec<Scalar> = Vec::with_capacity(d.len());
    let mut i: usize = 0;
    while i < d.len()
        invariant
            num.sound(),
            target == Seq::new(d@.len(), |j: int| num.product(c, d@[j])),
            i <= d.len(),
            out@ == target.take(i as int),
        decreases d.len() - i,
    {
        out.push(num.times(c, d[i]));
        i += 1;
        assert(out@ =~= target.take(i as int));
    }
    assert(out@ =~= target);
    out
}

} // verus!
