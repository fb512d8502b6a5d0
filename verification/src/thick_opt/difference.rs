//! Central-difference Jacobians.
use crate::linalg;
use crate::linalg::TWO_BITS;
use crate::numeric;
use crate::numeric::Numeric;
use crate::scalar;
use crate::scalar::Scalar;
use crate::thick_opt;
use crate::thick_opt::{evaluate, LmFault};
use vstd::prelude::*;

verus! {

/// Cube root of the double's epsilon.
pub const CBRT_EPS_BITS: u64 = 0x3ed9_65fe_a53d_6e3d;

/// The probing distance of a coordinate.
pub open spec fn probe_step<A: Numeric>(num: A, x: Scalar) -> Scalar {
    num.product(
        (Scalar { bits: CBRT_EPS_BITS }),
        scalar::greater(scalar::absolute(x), Scalar::one()),
    )
}

/// The point probed above coordinate `j`.
pub open spec fn probe_up<A: Numeric>(num: A, x: Seq<Scalar>, j: int) -> Seq<Scalar> {
    x.update(j, num.sum(x[j], probe_step(num, x[j])))
}

/// The point probed below coordinate `j`.
pub open spec fn probe_down<A: Numeric>(num: A, x: Seq<Scalar>, j: int) -> Seq<Scalar> {
    x.update(j, num.difference(x[j], probe_step(num, x[j])))
}

/// The difference quotients of one column.
pub open spec fn quotients<A: Numeric>(
    num: A,
    x: Scalar,
    up: Seq<Scalar>,
    down: Seq<Scalar>,
) -> Seq<Scalar> {
    let inv = num.quotient(
        Scalar::one(),
        num.product((Scalar { bits: TWO_BITS }), probe_step(num, x)),
    );
    Seq::new(up.len(), |i: int| num.product(num.difference(up[i], down[i]), inv))
}

/// What one column comes to.
#[derive(Debug)]
pub enum Column {
    Entries { entries: Vec<Scalar> },
    Fault { fault: LmFault },
}

/// `c` is a possible outcome of probing coordinate `j`: both probes are made,
/// upper first, and have to answer with `m` entries each (`m` negative: with
/// as many as each other).
pub open spec fn probed<A: Numeric, F: Fn(&Vec<Scalar>) -> Result<Vec<Scalar>, String>>(
    num: A,
    f: F,
    x: Seq<Scalar>,
    m: int,
    j: int,
    c: Column,
) -> bool {
    exists|up: Result<Vec<Scalar>, String>|
        {
            &&& #[trigger] thick_opt::evaluated(f, probe_up(num, x, j), up)
            &&& match up {
                Err(e) => c == (Column::Fault { fault: LmFault::Failed { reason: e } }),
                Ok(up) => exists|down: Result<Vec<Scalar>, String>|
                    {
                        &&& #[trigger] thick_opt::evaluated(f, probe_down(num, x, j), down)
                        &&& probed_pair(num, x[j], m, up, down, c)
                    },
            }
        }
}

/// The outcome once the upper probe has answered.
pub open spec fn probed_pair<A: Numeric>(
    num: A,
    x: Scalar,
    m: int,
    up: Vec<Scalar>,
    down: Result<Vec<Scalar>, String>,
    c: Column,
) -> bool {
    match down {
        Err(e) => c == (Column::Fault { fault: LmFault::Failed { reason: e } }),
        Ok(down) => {
            let want = if m < 0 {
                up@.len() as int
            } else {
                m
            };
            if up@.len() != want || down@.len() != want {
                c == (Column::Fault { fault: LmFault::Inconsistent })
            } else {
                c matches Column::Entries { entries } && entries@ == quotients(
                    num,
                    x,
                    up@,
                    down@,
                )
            }
        },
    }
}

/// Probes coordinate `j`; `m` is the number of entries a column has to have,
/// if that is known.
pub fn probe_column<A: Numeric, F: Fn(&Vec<Scalar>) -> Result<Vec<Scalar>, String>>(
    num: &A,
    f: &F,
    x: &Vec<Scalar>,
    m: Option<usize>,
    j: usize,
) -> (r: Column)
    requires
        num.sound(),
        thick_opt::askable(*f),
        j < x@.len(),
    ensures
        probed(
            *num,
            *f,
            x@,
            match m {
                Some(m) => m as int,
                None => -1,
            },
            j as int,
            r,
        ),
        r matches Column::Entries { entries } ==> (m matches Some(m) ==> entries@.len() == m),
{
    let ghost want_m: int = match m {
        Some(m) => m as int,
        None => -1,
    };
    let h: Scalar = num.times(
        Scalar::from_bits(CBRT_EPS_BITS),
        x[j].abs().max(Scalar::one()),
    );
    let mut xp: Vec<Scalar> = numeric::copy(x);
    xp.set(j, num.plus(x[j], h));
    let mut xm: Vec<Scalar> = numeric::copy(x);
    xm.set(j, num.minus(x[j], h));
    assert(xp@ =~= probe_up(*num, x@, j as int));
    assert(xm@ =~= probe_down(*num, x@, j as int));
    let got_up: Result<Vec<Scalar>, String> = evaluate(f, &xp);
    assert(thick_opt::evaluated(*f, probe_up(*num, x@, j as int), got_up));
    let up: Vec<Scalar> = match got_up {
        Err(reason) => {
            return Column::Fault { fault: LmFault::Failed { reason } };
        },
        Ok(up) => up,
    };
    let got_down: Result<Vec<Scalar>, String> = evaluate(f, &xm);
    assert(thick_opt::evaluated(*f, probe_down(*num, x@, j as int), got_down));
    let down: Vec<Scalar> = match got_down {
        Err(reason) => {
            let r: Column = Column::Fault { fault: LmFault::Failed { reason } };
            assert(probed_pair(*num, x@[j as int], want_m, up, got_down, r));
            return r;
        },
        Ok(down) => down,
    };
    let want: usize = match m {
        Some(m) => m,
        None => up.len(),
    };
    if up.len() != want || down.len() != want {
        let r: Column = Column::Fault { fault: LmFault::Inconsistent };
        assert(probed_pair(*num, x@[j as int], want_m, up, got_down, r));
        return r;
    }
    let inv: Scalar = num.over(Scalar::one(), num.times(Scalar::from_bits(TWO_BITS), h));
    let ghost target = quotients(*num, x@[j as int], up@, down@);
    let mut entries: Vec<Scalar> = Vec::with_capacity(want);
    let mut i: usize = 0;
    while i < want
        invariant
            num.sound(),
            up@.len() == want,
            down@.len() == want,
            j < x@.len(),
            h == probe_step(*num, x@[j as int]),
            inv == num.quotient(
                Scalar::one(),
                num.product((Scalar { bits: TWO_BITS }), probe_step(*num, x@[j as int])),
            ),
            target == quotients(*num, x@[j as int], up@, down@),
            i <= want,
            entries@ == target.take(i as int),
        decreases want - i,
    {
        entries.push(num.times(num.minus(up[i], down[i]), inv));
        i += 1;
        assert(entries@ =~= target.take(i as int));
    }
    assert(entries@ =~= target);
    let r: Column = Column::Entries { entries };
    assert(probed_pair(*num, x@[j as int], want_m, up, got_down, r));
    r
}

/// The rows of a matrix given by its columns.
pub open spec fn rows_of_columns(cols: Seq<Seq<Scalar>>, m: int) -> Seq<Seq<Scalar>> {
    Seq::new(m as nat, |i: int| Seq::new(cols.len(), |j: int| cols[j][i]))
}

/// Turns columns into rows.
pub fn transpose_columns(cols: &Vec<Vec<Scalar>>, m: usize) -> (r: Vec<Vec<Scalar>>)
    requires
        linalg::wide(linalg::grid(cols@), m as int),
    ensures
        linalg::grid(r@) == rows_of_columns(linalg::grid(cols@), m as int),
        r@.len() == m,
        linalg::wide(linalg::grid(r@), cols@.len() as int),
{
    let ghost g = linalg::grid(cols@);
    let ghost target = rows_of_columns(g, m as int);
    let mut out: Vec<Vec<Scalar>> = Vec::with_capacity(m);
    let mut i: usize = 0;
    while i < m
        invariant
            g == linalg::grid(cols@),
            target == rows_of_columns(g, m as int),
            linalg::wide(g, m as int),
            i <= m,
            out@.len() == i,
            linalg::grid(out@) == target.take(i as int),
        decreases m - i,
    {
        let row: Vec<Scalar> = linalg::column_of(cols, i, m);
        assert(row@ =~= target[i as int]);
        let ghost before = linalg::grid(out@);
        out.push(row);
        assert(linalg::grid(out@) =~= before.push(target[i as int]));
        i += 1;
        assert(linalg::grid(out@) =~= target.take(i as int));
    }
    assert(target.take(i as int) =~= target);
    out
}

/// What a differenced Jacobian comes to.
#[derive(Debug)]
pub enum Differenced {
    Rows { rows: Vec<Vec<Scalar>> },
    Fault { fault: LmFault },
}

/// `cols` are outcomes of probing the coordinates before `j`; the first one
/// fixes the number of entries.
pub open spec fn probed_upto<A: Numeric, F: Fn(&Vec<Scalar>) -> Result<Vec<Scalar>, String>>(
    num: A,
    f: F,
    x: Seq<Scalar>,
    cols: Seq<Vec<Scalar>>,
) -> bool {
    forall|j: int|
        0 <= j < cols.len() ==> probed(
            num,
            f,
            x,
            if j == 0 {
                -1
            } else {
                cols[0]@.len() as int
            },
            j,
            (Column::Entries { entries: #[trigger] cols[j] }),
        )
}

/// `d` is a possible outcome of differencing at `x`: the coordinates are
/// probed in order, and the first fault ends it.
pub open spec fn differenced<A: Numeric, F: Fn(&Vec<Scalar>) -> Result<Vec<Scalar>, String>>(
    num: A,
    f: F,
    x: Seq<Scalar>,
    d: Differenced,
) -> bool {
    exists|cols: Seq<Vec<Scalar>>|
        {
            &&& #[trigger] probed_upto(num, f, x, cols)
            &&& match d {
                Differenced::Rows { rows } => {
                    &&& cols.len() == x.len()
                    &&& linalg::grid(rows@) == rows_of_columns(
                        linalg::grid(cols),
                        cols[0]@.len() as int,
                    )
                },
                Differenced::Fault { fault } => {
                    &&& cols.len() < x.len()
                    &&& probed(
                        num,
                        f,
                        x,
                        if cols.len() == 0 {
                            -1
                        } else {
                            cols[0]@.len() as int
                        },
                        cols.len() as int,
                        (Column::Fault { fault }),
                    )
                },
            }
        }
}

/// Builds the central-difference Jacobian, which takes two evaluations per
/// coordinate.
pub fn build_jacobian<A: Numeric, F: Fn(&Vec<Scalar>) -> Result<Vec<Scalar>, String>>(
    num: &A,
    f: &F,
    x: &Vec<Scalar>,
) -> (r: Differenced)
    requires
        num.sound(),
        thick_opt::askable(*f),
        x@.len() > 0,
    ensures
        differenced(*num, *f, x@, r),
        r matches Differenced::Rows { rows } ==> linalg::wide(
            linalg::grid(rows@),
            x@.len() as int,
        ),
{
    let n: usize = x.len();
    let mut cols: Vec<Vec<Scalar>> = Vec::with_capacity(n);
    let mut m: usize = 0;
    let mut j: usize = 0;
    while j < n
        invariant
            num.sound(),
            thick_opt::askable(*f),
            n == x@.len(),
            j <= n,
            cols@.len() == j,
            j > 0 ==> m == cols@[0]@.len(),
            forall|k: int| 0 <= k < j ==> (#[trigger] cols@[k])@.len() == m,
            probed_upto(*num, *f, x@, cols@),
        decreases n - j,
    {
        let known: Option<usize> = if j == 0 {
            None
        } else {
            Some(m)
        };
        let c: Column = probe_column(num, f, x, known, j);
        match c {
            Column::Fault { fault } => {
                let r: Differenced = Differenced::Fault { fault };
                assert(probed_upto(*num, *f, x@, cols@));
                return r;
            },
            Column::Entries { entries } => {
                let ghost before = cols@;
                if j == 0 {
                    m = entries.len();
                }
                cols.push(entries);
                j += 1;
                assert forall|k: int| 0 <= k < cols@.len() implies probed(
                    *num,
                    *f,
                    x@,
                    if k == 0 {
                        -1
                    } else {
                        cols@[0]@.len() as int
                    },
                    k,
                    (Column::Entries { entries: #[trigger] cols@[k] }),
                ) by {
                    if k < before.len() {
                        assert(cols@[k] == before[k]);
                        assert(cols@[0] == before[0]);
                    }
                }
            },
        }
    }
    proof {
        assert forall|k: int| 0 <= k < linalg::grid(cols@).len() implies (
        #[trigger] linalg::grid(cols@)[k]).len() == m by {
            assert(cols@[k]@.len() == m);
        }
    }
    let rows: Vec<Vec<Scalar>> = transpose_columns(&cols, m);
    assert(probed_upto(*num, *f, x@, cols@));
    Differenced::Rows { rows }
}

} // verus!
