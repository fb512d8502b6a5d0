//! What a split and a removal leave alone: the other films, the other spans,
//! and the thickness of the stack.
use crate::reading::Reading;
use crate::scalar::Scalar;
use crate::structure::insert;
use crate::structure::remove;
use crate::structure::span;
use crate::structure::span::Span;
use crate::structure::LayerView;
use vstd::prelude::*;

verus! {

/// The thickness of a stack of films.
pub open spec fn thickness(k: Reading, rows: Seq<LayerView>) -> real
    decreases rows.len(),
{
    if rows.len() == 0 {
        0real
    } else {
        thickness(k, rows.drop_last()) + k.of(rows.last().d_nm)
    }
}

/// The thickness of films laid on one another.
pub proof fn thickness_adds(k: Reading, a: Seq<LayerView>, b: Seq<LayerView>)
    ensures
        thickness(k, a + b) == thickness(k, a) + thickness(k, b),
    decreases b.len(),
{
    if b.len() == 0 {
        assert(a + b =~= a);
    } else {
        thickness_adds(k, a, b.drop_last());
        assert((a + b).drop_last() =~= a + b.drop_last());
    }
}

proof fn thickness_of_three(k: Reading, a: LayerView, b: LayerView, c: LayerView)
    ensures
        thickness(k, seq![a, b, c]) == k.of(a.d_nm) + k.of(b.d_nm) + k.of(c.d_nm),
{
    let s = seq![a, b, c];
    let t = s.drop_last();
    let u = t.drop_last();
    assert(u.drop_last().len() == 0);
    assert(thickness(k, u.drop_last()) == 0real);
    assert(thickness(k, u) == k.of(a.d_nm));
    assert(thickness(k, t) == k.of(a.d_nm) + k.of(b.d_nm));
}

/// A split adds the seed and nothing else: the two parts of the host are the
/// host's film, everything else stays, and the stack grows by the seed's
/// thickness where the rest is what the top part leaves.
pub proof fn a_split_adds_the_seed(
    k: Reading,
    rows: Seq<LayerView>,
    i: int,
    depth: Scalar,
    seed: LayerView,
    rest: Scalar,
)
    requires
        0 <= i < rows.len(),
        k.of(depth) + k.of(rest) == k.of(rows[i].d_nm),
    ensures
        ({
            let out = insert::rows_after_insert(rows, i, depth, seed, rest);
            &&& out.len() == rows.len() + 2
            &&& forall|j: int| 0 <= j < i ==> #[trigger] out[j] == rows[j]
            &&& forall|j: int| i < j < rows.len() ==> #[trigger] rows[j] == out[j + 2]
            &&& out[i + 1] == seed
            &&& out[i].material == rows[i].material && out[i].nk == rows[i].nk
            &&& out[i + 2].material == rows[i].material && out[i + 2].nk == rows[i].nk
            &&& out[i].d_nm == depth
            &&& out[i + 2].d_nm == rest
            &&& thickness(k, out) == thickness(k, rows) + k.of(seed.d_nm)
        }),
{
    let top = rows[i].at(depth);
    let bottom = rows[i].at(rest);
    let mid = seq![top, seed, bottom];
    let out = insert::rows_after_insert(rows, i, depth, seed, rest);
    let head = rows.take(i);
    let tail = rows.skip(i + 1);
    thickness_adds(k, head + mid, tail);
    thickness_adds(k, head, mid);
    thickness_of_three(k, top, seed, bottom);
    let host = seq![rows[i]];
    assert(rows =~= head + host + tail);
    thickness_adds(k, head + host, tail);
    thickness_adds(k, head, host);
    assert(host.drop_last().len() == 0);
    assert(thickness(k, host.drop_last()) == 0real);
    assert(thickness(k, host) == k.of(rows[i].d_nm));
}

/// A split leaves the other spans alone: those before the host stay, those
/// after it move down two rows. The host becomes three: the rows down to the
/// cut with the host's slice, the seed on its own, and the rest, which has the
/// slice where the slice itself was cut. Both parts keep the host's identity.
pub proof fn a_split_leaves_the_other_spans(spans: Seq<Span>, n: int, k: int, i: int)
    requires
        span::partition(spans, n),
        0 <= k < spans.len(),
        spans[k].holds(i),
        spans[k].singleton_bulk(),
        n + 2 <= usize::MAX,
    ensures
        ({
            let out = insert::spans_after_insert(spans, k, i);
            let host = spans[k];
            &&& out.len() == spans.len() + 2
            &&& forall|j: int| 0 <= j < k ==> #[trigger] out[j] == spans[j]
            &&& forall|j: int| k < j < spans.len() ==> out[j + 2] == (#[trigger] spans[j]).moved(2)
            &&& out[k].start == host.start && out[k].end == i + 1
            &&& out[k + 1].start == i + 1 && out[k + 1].end == i + 2 && !out[k + 1].slice
            &&& out[k + 2].start == i + 2 && out[k + 2].end == host.end + 2
            &&& out[k].logical == host.logical && out[k + 2].logical == host.logical
            &&& out[k].slice == host.slice
            &&& out[k + 2].slice == (host.slice && i == host.start)
        }),
{
    let host = spans[k];
    assert(host.well_formed());
    span::laid_bounds(spans, 0, n, k);
    let mid = insert::host_split(host, i);
    let out = insert::spans_after_insert(spans, k, i);
    let moved = span::moved_all(spans.skip(k + 1), 2);
    assert(mid.len() == 3);
    assert(out[k] == mid[0] && out[k + 1] == mid[1] && out[k + 2] == mid[2]);
    assert forall|j: int| k < j < spans.len() implies out[j + 2] == (#[trigger] spans[j]).moved(
        2,
    ) by {
        assert(out[j + 2] == moved[j - k - 1]);
    }
}

/// A removal leaves the other spans alone: those before stay, those after move
/// up one row. The span itself loses a row, and goes with its last one; it
/// keeps its identity, and its slice unless that is the row that left.
pub proof fn a_removal_leaves_the_other_spans(spans: Seq<Span>, n: int, k: int, i: int)
    requires
        span::partition(spans, n),
        n <= usize::MAX,
        0 <= k < spans.len(),
        spans[k].holds(i),
    ensures
        ({
            let out = remove::spans_after_remove(spans, k, i);
            let old = spans[k];
            let gone = if old.end - old.start == 1 {
                1int
            } else {
                0int
            };
            &&& out.len() == spans.len() - gone
            &&& forall|j: int| 0 <= j < k ==> #[trigger] out[j] == spans[j]
            &&& forall|j: int|
                k < j < spans.len() ==> out[j - gone] == (#[trigger] spans[j]).moved(-1)
            &&& gone == 0 ==> {
                &&& out[k].start == old.start && out[k].end == old.end - 1
                &&& out[k].logical == old.logical
                &&& out[k].slice == (old.slice && i != old.start)
            }
        }),
{
    let old = spans[k];
    assert(old.well_formed());
    span::laid_bounds(spans, 0, n, k);
    let mid = remove::shrunk(old, i);
    let out = remove::spans_after_remove(spans, k, i);
    let moved = span::moved_all(spans.skip(k + 1), -1);
    let gone = if old.end - old.start == 1 {
        1int
    } else {
        0int
    };
    assert(mid.len() == 1 - gone);
    if gone == 0 {
        assert(out[k] == mid[0]);
    }
    assert forall|j: int| k < j < spans.len() implies out[j - gone] == (#[trigger] spans[j]).moved(
        -1,
    ) by {
        assert(out[j - gone] == moved[j - k - 1]);
    }
}

} // verus!
