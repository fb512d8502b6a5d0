//! Merging keeps the stack as thick as it is.
use crate::arith;
use crate::reading;
use crate::reading::{add_up, Reading};
use crate::scalar::Scalar;
use crate::structure;
use crate::structure::merge;
use crate::structure::merge::{leaders, leads, run_end};
use crate::structure::rows::{thickness, thickness_adds};
use crate::structure::LayerView;
use vstd::prelude::*;

verus! {

/// The caller's sum rounds correctly: a result that a double can hold is
/// exact.
pub open spec fn adds<P: Fn(Scalar, Scalar) -> Scalar>(plus: P, k: Reading) -> bool {
    forall|a: Scalar, b: Scalar, r: Scalar| #[trigger]
        call_ensures(plus, (a, b), r) && a.finite() && b.finite() && k.holds(k.of(a) + k.of(b))
            ==> k.is(r, k.of(a) + k.of(b))
}

proof fn running_reads<P: Fn(Scalar, Scalar) -> Scalar>(
    plus: P,
    k: Reading,
    xs: Seq<Scalar>,
    acc: Seq<Scalar>,
    i: int,
)
    requires
        adds(plus, k),
        arith::running(plus, xs, acc),
        reading::summable(k, xs),
        0 <= i < xs.len(),
    ensures
        k.is(acc[i], add_up(k, xs, i + 1)),
    decreases i,
{
    assert(xs[i].finite());
    assert(k.holds(add_up(k, xs, i + 1)));
    if i > 0 {
        running_reads(plus, k, xs, acc, i - 1);
        assert(call_ensures(plus, (acc[i - 1], xs[i]), acc[i]));
    } else {
        assert(add_up(k, xs, 0) == 0real);
    }
}

proof fn prefix_sums_alike(k: Reading, xs: Seq<Scalar>, ys: Seq<Scalar>, n: int)
    requires
        n <= xs.len(),
        n <= ys.len(),
        forall|i: int| 0 <= i < n ==> #[trigger] xs[i] == ys[i],
    ensures
        add_up(k, xs, n) == add_up(k, ys, n),
    decreases n,
{
    if n > 0 {
        prefix_sums_alike(k, xs, ys, n - 1);
        assert(xs[n - 1] == ys[n - 1]);
    }
}

proof fn thickness_is_the_sum(k: Reading, rows: Seq<LayerView>)
    ensures
        thickness(k, rows) == add_up(k, structure::thicknesses(rows), rows.len() as int),
    decreases rows.len(),
{
    if rows.len() > 0 {
        let n = rows.len() as int;
        let ds = structure::thicknesses(rows);
        let shorter = structure::thicknesses(rows.drop_last());
        thickness_is_the_sum(k, rows.drop_last());
        prefix_sums_alike(k, shorter, ds, n - 1);
        assert(ds[n - 1] == rows.last().d_nm);
    }
}

proof fn leader_bounds(rows: Seq<LayerView>, n: int, g: int)
    requires
        0 <= g < leaders(rows, n).len(),
    ensures
        0 <= leaders(rows, n)[g] < n,
        g > 0 ==> leaders(rows, n)[g - 1] < leaders(rows, n)[g],
    decreases n,
{
    if n > 0 {
        let before = leaders(rows, n - 1);
        if g < before.len() {
            leader_bounds(rows, n - 1, g);
        } else if g > 0 {
            leader_bounds(rows, n - 1, g - 1);
        }
    }
}

proof fn first_leader(rows: Seq<LayerView>, n: int)
    requires
        n > 0,
    ensures
        leaders(rows, n).len() > 0,
        leaders(rows, n)[0] == 0,
    decreases n,
{
    if n > 1 {
        first_leader(rows, n - 1);
    } else {
        assert(leads(rows, 0));
        assert(leaders(rows, 0) =~= seq![]);
    }
}

proof fn merged_so_far<P: Fn(Scalar, Scalar) -> Scalar>(
    plus: P,
    k: Reading,
    rows: Seq<LayerView>,
    out: Seq<LayerView>,
    g: int,
)
    requires
        adds(plus, k),
        merge::merged_rows(plus, rows, out),
        rows.len() > 0,
        forall|a: int, b: int|
            0 <= a < b <= rows.len() ==> reading::summable(
                k,
                structure::thicknesses(#[trigger] rows.subrange(a, b)),
            ),
        0 <= g <= out.len(),
    ensures
        ({
            let l = leaders(rows, rows.len() as int);
            thickness(k, out.take(g)) == thickness(
                k,
                rows.take(
                    if g < l.len() {
                        l[g]
                    } else {
                        rows.len() as int
                    },
                ),
            )
        }),
    decreases g,
{
    let n = rows.len() as int;
    let l = leaders(rows, n);
    first_leader(rows, n);
    if g == 0 {
        assert(out.take(0).len() == 0);
        assert(rows.take(0).len() == 0);
    } else {
        merged_so_far(plus, k, rows, out, g - 1);
        leader_bounds(rows, n, g - 1);
        if g < l.len() {
            leader_bounds(rows, n, g);
        }
        let a = l[g - 1];
        let b = run_end(rows, g - 1);
        let run = rows.subrange(a, b);
        let v = out[g - 1];
        assert(merge::merged_row(plus, rows, a, b, v));
        let xs = structure::thicknesses(run);
        assert(reading::summable(k, xs));
        let acc = choose|acc: Seq<Scalar>| #[trigger]
            arith::running(plus, xs, acc) && v.d_nm == acc.last();
        running_reads(plus, k, xs, acc, xs.len() - 1);
        thickness_is_the_sum(k, run);
        assert(out.take(g).drop_last() =~= out.take(g - 1));
        thickness_adds(k, rows.take(a), run);
        assert(rows.take(a) + run =~= rows.take(b));
    }
}

/// Merging keeps the thickness: one film per run, as thick as the run.
pub proof fn merging_keeps_the_thickness<P: Fn(Scalar, Scalar) -> Scalar>(
    plus: P,
    k: Reading,
    rows: Seq<LayerView>,
    out: Seq<LayerView>,
)
    requires
        adds(plus, k),
        merge::merged_rows(plus, rows, out),
        forall|a: int, b: int|
            0 <= a < b <= rows.len() ==> reading::summable(
                k,
                structure::thicknesses(#[trigger] rows.subrange(a, b)),
            ),
    ensures
        thickness(k, out) == thickness(k, rows),
        out.len() <= rows.len(),
{
    let n = rows.len() as int;
    few_leaders(rows, n);
    if n > 0 {
        merged_so_far(plus, k, rows, out, out.len() as int);
        assert(out.take(out.len() as int) =~= out);
        assert(rows.take(n) =~= rows);
    } else {
        assert(leaders(rows, 0).len() == 0);
    }
}

proof fn few_leaders(rows: Seq<LayerView>, n: int)
    requires
        0 <= n,
    ensures
        leaders(rows, n).len() <= n,
    decreases n,
{
    if n > 0 {
        few_leaders(rows, n - 1);
    }
}

} // verus!
