//! The nearest entry of a list, first one first.
use crate::numeric::Numeric;
use crate::scalar;
use crate::scalar::Scalar;
use vstd::prelude::*;

verus! {

/// The distance of two numbers.
pub open spec fn gap<A: Numeric>(num: A, a: Scalar, b: Scalar) -> Scalar {
    scalar::absolute(num.difference(a, b))
}

/// The distance of each of `xs` from `x`.
pub open spec fn distances<A: Numeric>(num: A, xs: Seq<Scalar>, x: Scalar) -> Seq<Scalar> {
    xs.map_values(|y: Scalar| gap(num, y, x))
}

/// Computes `gap`.
pub fn gap_between<A: Numeric>(num: &A, a: Scalar, b: Scalar) -> (r: Scalar)
    requires
        num.sound(),
    ensures
        r == gap(*num, a, b),
{
    num.minus(a, b).abs()
}

/// `r` is the first of the least entries below infinity; 0 when there is none.
pub open spec fn first_least(ds: Seq<Scalar>, r: int) -> bool {
    if exists|i: int| 0 <= i < ds.len() && scalar::less(#[trigger] ds[i], Scalar::infinity()) {
        &&& 0 <= r < ds.len()
        &&& scalar::less(ds[r], Scalar::infinity())
        &&& forall|i: int| 0 <= i < ds.len() ==> !scalar::less(#[trigger] ds[i], ds[r])
        &&& forall|i: int| 0 <= i < r ==> !scalar::at_most(#[trigger] ds[i], ds[r])
    } else {
        r == 0
    }
}

/// Only one index can be the first least.
pub proof fn first_least_is_unique(ds: Seq<Scalar>, a: int, b: int)
    requires
        first_least(ds, a),
        first_least(ds, b),
    ensures
        a == b,
{
    if exists|i: int| 0 <= i < ds.len() && scalar::less(#[trigger] ds[i], Scalar::infinity()) {
        if a < b {
            assert(!scalar::at_most(ds[a], ds[b]));
            assert(!scalar::less(ds[b], ds[a]));
        } else if b < a {
            assert(!scalar::at_most(ds[b], ds[a]));
            assert(!scalar::less(ds[a], ds[b]));
        }
    }
}

/// `r` is the index of the entry of `xs` nearest to `x`.
pub open spec fn nearest<A: Numeric>(num: A, xs: Seq<Scalar>, x: Scalar, r: int) -> bool {
    first_least(distances(num, xs, x), r)
}

/// That index.
pub open spec fn nearest_to<A: Numeric>(num: A, xs: Seq<Scalar>, x: Scalar) -> int {
    choose|r: int| nearest(num, xs, x, r)
}

/// The index of the entry nearest to `x`; the first one wins a tie, and an
/// empty list answers 0.
pub fn nearest_index<A: Numeric>(num: &A, xs: &Vec<Scalar>, x: Scalar) -> (r: usize)
    requires
        num.sound(),
    ensures
        nearest(*num, xs@, x, r as int),
        r == nearest_to(*num, xs@, x),
        xs.len() > 0 ==> r < xs.len(),
        xs.len() == 0 ==> r == 0,
{
    let mut best: usize = 0;
    let mut best_d: Scalar = Scalar::infinity();
    let ghost ds = distances(*num, xs@, x);
    let ghost mut found = false;
    let mut i: usize = 0;
    while i < xs.len()
        invariant
            i <= xs.len(),
            num.sound(),
            ds == distances(*num, xs@, x),
            !found ==> best == 0 && best_d == Scalar::infinity() && (forall|j: int|
                0 <= j < i ==> !scalar::less(#[trigger] ds[j], Scalar::infinity())),
            found ==> {
                &&& best < i
                &&& ds[best as int] == best_d
                &&& scalar::less(best_d, Scalar::infinity())
                &&& forall|j: int| 0 <= j < i ==> !scalar::less(#[trigger] ds[j], best_d)
                &&& forall|j: int| 0 <= j < best ==> !scalar::at_most(#[trigger] ds[j], best_d)
            },
        decreases xs.len() - i,
    {
        let d: Scalar = gap_between(num, xs[i], x);
        assert(ds[i as int] == d);
        if d.lt(best_d) {
            best_d = d;
            best = i;
            proof {
                found = true;
            }
        }
        i += 1;
    }
    proof {
        assert(nearest(*num, xs@, x, best as int));
        let r = nearest_to(*num, xs@, x);
        first_least_is_unique(ds, r, best as int);
    }
    best
}

/// The nearest entry of a list that is not empty lies in it.
pub proof fn nearest_is_inside<A: Numeric>(num: A, xs: Seq<Scalar>, x: Scalar, r: int)
    requires
        nearest(num, xs, x, r),
        xs.len() > 0,
    ensures
        0 <= r < xs.len(),
{
}

} // verus!
