//! Clamped linear interpolation.
use crate::numeric::Numeric;
use crate::scalar;
use crate::scalar::Scalar;
use vstd::prelude::*;

verus! {

/// What an interpolation does with its table.
#[derive(Clone, Copy, Debug, PartialEq, Eq, Structural)]
pub enum Bracket {
    /// The table is empty.
    Empty,
    /// The value at this point is taken as it is.
    At { i: usize },
    /// Linearly between `lo` and `lo + 1`.
    Between { lo: usize },
}

/// From `hi` on, the first grid point not below `x`, the last one at most.
pub open spec fn upper_end(xs: Seq<Scalar>, x: Scalar, hi: int) -> int
    decreases xs.len() - hi,
{
    if hi + 1 < xs.len() && scalar::less(xs[hi], x) {
        upper_end(xs, x, hi + 1)
    } else {
        hi
    }
}

/// The bracket of `x` in the grid `xs`: clamped at the ends, else the interval
/// whose upper end is the first grid point not below `x`.
pub open spec fn bracket_of(xs: Seq<Scalar>, x: Scalar) -> Bracket {
    if xs.len() == 0 {
        Bracket::Empty
    } else if scalar::at_most(x, xs[0]) {
        Bracket::At { i: 0 }
    } else if scalar::at_most(xs.last(), x) {
        Bracket::At { i: (xs.len() - 1) as usize }
    } else {
        Bracket::Between { lo: (upper_end(xs, x, 1) - 1) as usize }
    }
}

/// A grid of one point has a place for every number, but not for a NaN.
pub open spec fn bracketable(xs: Seq<Scalar>, x: Scalar) -> bool {
    xs.len() == 1 ==> !x.nan() && !xs[0].nan()
}

/// Finds the bracket of `x`.
pub fn bracket(xs: &Vec<Scalar>, x: Scalar) -> (r: Bracket)
    requires
        bracketable(xs@, x),
    ensures
        r == bracket_of(xs@, x),
        match r {
            Bracket::Empty => xs@.len() == 0,
            Bracket::At { i } => i < xs@.len(),
            Bracket::Between { lo } => lo + 1 < xs@.len(),
        },
{
    if xs.len() == 0 {
        return Bracket::Empty;
    }
    if x.le(xs[0]) {
        return Bracket::At { i: 0 };
    }
    let last: usize = xs.len() - 1;
    if x.ge(xs[last]) {
        return Bracket::At { i: last };
    }
    let mut hi: usize = 1;
    while hi < last && xs[hi].lt(x)
        invariant
            1 <= hi <= last,
            last + 1 == xs@.len(),
            upper_end(xs@, x, 1) == upper_end(xs@, x, hi as int),
        decreases last - hi,
    {
        hi += 1;
    }
    Bracket::Between { lo: hi - 1 }
}

proof fn upper_end_is_right(xs: Seq<Scalar>, x: Scalar, hi: int)
    requires
        1 <= hi < xs.len(),
        scalar::less(xs[hi - 1], x),
    ensures
        hi <= upper_end(xs, x, hi) < xs.len(),
        scalar::less(xs[upper_end(xs, x, hi) - 1], x),
        upper_end(xs, x, hi) + 1 < xs.len() ==> !scalar::less(xs[upper_end(xs, x, hi)], x),
    decreases xs.len() - hi,
{
    if hi + 1 < xs.len() && scalar::less(xs[hi], x) {
        upper_end_is_right(xs, x, hi + 1);
    }
}

/// Inside a grid of numbers the bracket really encloses `x`.
pub proof fn bracket_encloses(xs: Seq<Scalar>, x: Scalar, lo: usize)
    requires
        bracket_of(xs, x) == (Bracket::Between { lo }),
        xs.len() <= usize::MAX,
        !x.nan(),
        forall|i: int| 0 <= i < xs.len() ==> !(#[trigger] xs[i]).nan(),
    ensures
        lo + 1 < xs.len(),
        scalar::less(xs[lo as int], x),
        scalar::at_most(x, xs[lo + 1]),
{
    assert(!xs[0].nan());
    assert(!xs.last().nan());
    assert(xs.len() > 1);
    upper_end_is_right(xs, x, 1);
    assert(!xs[upper_end(xs, x, 1)].nan());
}

/// How far `x` lies from grid point `lo` towards the next.
pub open spec fn part<A: Numeric>(num: A, xs: Seq<Scalar>, lo: int, x: Scalar) -> Scalar {
    num.quotient(num.difference(x, xs[lo]), num.difference(xs[lo + 1], xs[lo]))
}

/// The table's value at `x`: zero of an empty table, an entry at the ends and
/// beyond, else on the line between two entries.
pub open spec fn interpolated<A: Numeric>(
    num: A,
    xs: Seq<Scalar>,
    ys: Seq<Scalar>,
    x: Scalar,
) -> Scalar {
    match bracket_of(xs, x) {
        Bracket::Empty => Scalar::zero(),
        Bracket::At { i } => ys[i as int],
        Bracket::Between { lo } => num.sum(
            ys[lo as int],
            num.product(
                part(num, xs, lo as int, x),
                num.difference(ys[lo + 1], ys[lo as int]),
            ),
        ),
    }
}

/// Interpolates a table that starts at `base` of a list.
pub fn interp_from<A: Numeric>(
    num: &A,
    xs: &Vec<Scalar>,
    ys: &Vec<Scalar>,
    base: usize,
    x: Scalar,
) -> (v: Scalar)
    requires
        num.sound(),
        base + xs@.len() <= ys@.len(),
        bracketable(xs@, x),
    ensures
        v == interpolated(*num, xs@, ys@.subrange(base as int, base + xs@.len()), x),
{
    let n: usize = xs.len();
    let size: usize = ys.len();
    match bracket(xs, x) {
        Bracket::Empty => Scalar::zero(),
        Bracket::At { i } => {
            assert(base + i < size);
            ys[base + i]
        },
        Bracket::Between { lo } => {
            assert(base + lo + 1 < size && lo + 1 < n);
            let t: Scalar = num.over(num.minus(x, xs[lo]), num.minus(xs[lo + 1], xs[lo]));
            let y0: Scalar = ys[base + lo];
            let y1: Scalar = ys[base + lo + 1];
            num.plus(y0, num.times(t, num.minus(y1, y0)))
        },
    }
}

/// Interpolates a table, clamped at its ends.
pub fn interp_clamped<A: Numeric>(num: &A, xs: &Vec<Scalar>, ys: &Vec<Scalar>, x: Scalar) -> (v:
    Scalar)
    requires
        num.sound(),
        xs@.len() == ys@.len(),
        bracketable(xs@, x),
    ensures
        v == interpolated(*num, xs@, ys@, x),
{
    assert(ys@.subrange(0, xs@.len() as int) =~= ys@);
    interp_from(num, xs, ys, 0, x)
}

/// The same for a table of complex numbers.
pub open spec fn interpolated_complex<A: Numeric>(
    num: A,
    xs: Seq<Scalar>,
    ys: Seq<(Scalar, Scalar)>,
    x: Scalar,
) -> (Scalar, Scalar) {
    match bracket_of(xs, x) {
        Bracket::Empty => (Scalar::zero(), Scalar::zero()),
        Bracket::At { i } => ys[i as int],
        Bracket::Between { lo } => {
            let t = part(num, xs, lo as int, x);
            let y0 = ys[lo as int];
            let y1 = ys[lo + 1];
            (
                num.sum(y0.0, num.product(num.difference(y1.0, y0.0), t)),
                num.sum(y0.1, num.product(num.difference(y1.1, y0.1), t)),
            )
        },
    }
}

/// Interpolates a table of complex numbers that starts at `base` of a list.
pub fn cinterp_from<A: Numeric>(
    num: &A,
    xs: &Vec<Scalar>,
    ys: &Vec<(Scalar, Scalar)>,
    base: usize,
    x: Scalar,
) -> (v: (Scalar, Scalar))
    requires
        num.sound(),
        base + xs@.len() <= ys@.len(),
        bracketable(xs@, x),
    ensures
        v == interpolated_complex(*num, xs@, ys@.subrange(base as int, base + xs@.len()), x),
{
    let n: usize = xs.len();
    let size: usize = ys.len();
    match bracket(xs, x) {
        Bracket::Empty => (Scalar::zero(), Scalar::zero()),
        Bracket::At { i } => {
            assert(base + i < size);
            ys[base + i]
        },
        Bracket::Between { lo } => {
            assert(base + lo + 1 < size && lo + 1 < n);
            let t: Scalar = num.over(num.minus(x, xs[lo]), num.minus(xs[lo + 1], xs[lo]));
            let y0: (Scalar, Scalar) = ys[base + lo];
            let y1: (Scalar, Scalar) = ys[base + lo + 1];
            (
                num.plus(y0.0, num.times(num.minus(y1.0, y0.0), t)),
                num.plus(y0.1, num.times(num.minus(y1.1, y0.1), t)),
            )
        },
    }
}

} // verus!
