//! Looking a curve up: on the line between two entries, an entry at the ends,
//! and as the merit reads it.
use crate::merit::chain;
use crate::merit::formula;
use crate::merit::plan::SampleRef;
use crate::merit::sim::SimCurves;
use crate::needle_pass::fold;
use crate::needle_pass::interp;
use crate::needle_pass::interp::Bracket;
use crate::needle_pass::point;
use crate::numeric::Numeric;
use crate::reading;
use crate::reading::{over, times, Reading};
use crate::scalar;
use crate::scalar::Scalar;
use crate::structure::arrays;
use vstd::prelude::*;

verus! {

/// Beyond its ends a table keeps its end values.
pub proof fn a_table_keeps_its_ends<A: Numeric>(
    num: A,
    xs: Seq<Scalar>,
    ys: Seq<Scalar>,
    x: Scalar,
)
    requires
        xs.len() > 0,
        xs.len() <= usize::MAX,
        ys.len() == xs.len(),
    ensures
        scalar::at_most(x, xs[0]) ==> interp::interpolated(num, xs, ys, x) == ys[0],
        scalar::at_most(xs.last(), x) && !scalar::at_most(x, xs[0]) ==> interp::interpolated(
            num,
            xs,
            ys,
            x,
        ) == ys.last(),
{
}

/// Between two entries a table lies on the line through them.
pub proof fn a_table_lies_on_its_lines<A: Numeric>(
    num: A,
    k: Reading,
    xs: Seq<Scalar>,
    ys: Seq<Scalar>,
    x: Scalar,
    lo: usize,
)
    requires
        reading::exact(num, k),
        interp::bracket_of(xs, x) == (Bracket::Between { lo }),
        xs.len() <= usize::MAX,
        ys.len() == xs.len(),
        x.finite(),
        forall|i: int| 0 <= i < xs.len() ==> (#[trigger] xs[i]).finite() && ys[i].finite(),
        chain::traceable(
            k,
            k.of(xs[lo as int]),
            k.of(ys[lo as int]),
            k.of(xs[lo + 1]),
            k.of(ys[lo + 1]),
            k.of(x),
        ),
    ensures
        ({
            let (x0, x1) = (k.of(xs[lo as int]), k.of(xs[lo + 1]));
            let (y0, y1) = (k.of(ys[lo as int]), k.of(ys[lo + 1]));
            let part = over(k.of(x) - x0, x1 - x0);
            &&& lo + 1 < xs.len()
            &&& x0 < k.of(x) <= x1
            &&& k.is(interp::interpolated(num, xs, ys, x), y0 + times(part, y1 - y0))
            &&& times(part, x1 - x0) == k.of(x) - x0
        }),
{
    assert forall|i: int| 0 <= i < xs.len() implies !(#[trigger] xs[i]).nan() by {
        assert(xs[i].finite());
    }
    interp::bracket_encloses(xs, x, lo);
    let (s0, s1) = (xs[lo as int], xs[lo + 1]);
    assert(s0.finite() && s1.finite());
    reading::order_reads(k, s0, x);
    reading::order_reads(k, x, s1);
    let p = k.of(x) - k.of(s0);
    let d = k.of(s1) - k.of(s0);
    reading::undone(p, d);
    let part = interp::part(num, xs, lo as int, x);
    assert(k.is(num.difference(x, s0), p));
    assert(k.is(num.difference(s1, s0), d));
    assert(k.is(part, over(p, d)));
}

/// The needle pass and the merit read one value off a simulated row: between
/// the same two grid points both find the same number.
pub proof fn both_passes_read_one_value<A: Numeric>(
    num: A,
    k: Reading,
    sim: &SimCurves,
    row: Seq<Scalar>,
    a: int,
    w: Scalar,
    lo: usize,
)
    requires
        reading::exact(num, k),
        0 <= a,
        sim.wavelengths@.len() <= usize::MAX,
        (a + 1) * sim.wavelengths@.len() <= row.len(),
        interp::bracket_of(sim.wavelengths@, w) == (Bracket::Between { lo }),
        w.finite(),
        forall|i: int| 0 <= i < sim.wavelengths@.len() ==> (#[trigger] sim.wavelengths@[i]).finite(),
        forall|i: int| 0 <= i < row.len() ==> (#[trigger] row[i]).finite(),
        chain::traceable(
            k,
            k.of(sim.wavelengths@[lo as int]),
            k.of(row[formula::place(sim, a, lo as int)]),
            k.of(sim.wavelengths@[lo + 1]),
            k.of(row[formula::place(sim, a, lo + 1)]),
            k.of(w),
        ),
    ensures
        k.is(
            interp::interpolated(num, sim.wavelengths@, fold::row_at(sim, row, a), w),
            k.of(formula::level(num, sim, row, a, SampleRef::Between { at: lo }, w)),
        ),
{
    let xs = sim.wavelengths@;
    let n = xs.len() as int;
    let ys = fold::row_at(sim, row, a);
    assert(0 <= a * n && a * n + n <= row.len()) by (nonlinear_arith)
        requires
            0 <= a,
            0 <= n,
            (a + 1) * n <= row.len(),
    ;
    assert(ys.len() == n);
    assert forall|i: int| 0 <= i < n implies #[trigger] ys[i] == row[formula::place(sim, a, i)] by {
        assert(formula::place(sim, a, i) == a * n + i);
    }
    assert forall|i: int| 0 <= i < xs.len() implies !(#[trigger] xs[i]).nan() by {
        assert(xs[i].finite());
    }
    interp::bracket_encloses(xs, w, lo);
    assert(ys[lo as int] == row[formula::place(sim, a, lo as int)]);
    assert(ys[lo + 1] == row[formula::place(sim, a, lo + 1)]);
    assert forall|i: int| 0 <= i < xs.len() implies (#[trigger] xs[i]).finite()
        && ys[i].finite() by {
        assert(row[a * n + i].finite());
    }
    a_table_lies_on_its_lines(num, k, xs, ys, w, lo);
    chain::a_sample_lies_on_the_line(num, k, sim, row, a, lo, w);
}

/// The solver's arrays are read where they are written: the index of a layer
/// at a wavelength stands at its cache entry, the imaginary part behind the
/// real one.
pub proof fn an_index_is_read_where_it_is_written(
    cache: Seq<Scalar>,
    layers: int,
    w: int,
    slot: int,
)
    ensures
        point::cached_index(cache, layers, w, slot).0 == cache[arrays::cache_index(layers, w, slot)],
        point::cached_index(cache, layers, w, slot).1 == cache[arrays::cache_index(layers, w, slot)
            + 1],
{
    assert((w * layers + slot) * 2 == w * layers * 2 + slot * 2) by (nonlinear_arith);
}

} // verus!
