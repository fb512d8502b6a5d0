//! A clamp pass over a clamped stack.
use crate::arith;
use crate::numeric;
use crate::scalar;
use crate::scalar::Scalar;
use crate::structure;
use crate::structure::clamp;
use crate::structure::clamp::{ClampReport, Limits};
use crate::structure::refusal::StackError;
use crate::structure::span;
use crate::structure::span::Span;
use crate::structure::{DesignStack, LayerView};
use vstd::prelude::*;

verus! {

/// A settled operation folds to one result.
proof fn folds_agree<P: Fn(Scalar, Scalar) -> Scalar>(
    plus: P,
    xs: Seq<Scalar>,
    a: Scalar,
    b: Scalar,
)
    requires
        numeric::settled(plus),
        arith::folds(plus, xs, a),
        arith::folds(plus, xs, b),
    ensures
        a == b,
    decreases xs.len(),
{
    let n = xs.len() as int;
    let p = choose|acc: Seq<Scalar>| #[trigger] arith::running(plus, xs, acc) && a == acc.last();
    let q = choose|acc: Seq<Scalar>| #[trigger] arith::running(plus, xs, acc) && b == acc.last();
    assert(p.last() == p[n - 1] && q.last() == q[n - 1]);
    if n > 1 {
        let less = xs.drop_last();
        assert(arith::running(plus, less, p.drop_last()));
        assert(arith::running(plus, less, q.drop_last()));
        folds_agree(plus, less, p.drop_last().last(), q.drop_last().last());
        assert(call_ensures(plus, (p[n - 2], xs[n - 1]), p[n - 1]));
        assert(call_ensures(plus, (q[n - 2], xs[n - 1]), q[n - 1]));
    }
}

/// Surviving span `q` is what is left of span `k`.
spec fn came_from(
    spans: Seq<Span>,
    rows: Seq<LayerView>,
    totals: Seq<Scalar>,
    lim: Limits,
    j: int,
    q: int,
    k: int,
) -> bool {
    let out = clamp::spans_after_clamp(spans, rows, totals, lim, j)[q];
    &&& 0 <= k < j
    &&& !(clamp::fate_of(spans, totals, lim, k) is Removed)
    &&& out.end - out.start == spans[k].end - spans[k].start
    &&& clamp::rows_after_clamp(spans, rows, totals, lim, j).subrange(
        out.start as int,
        out.end as int,
    ) == clamp::clamped_rows(
        spans[k],
        rows,
        clamp::fate_of(spans, totals, lim, k),
        lim.min,
        lim.max,
    )
}

/// Surviving span `q` is what is left of some span.
spec fn has_origin(
    spans: Seq<Span>,
    rows: Seq<LayerView>,
    totals: Seq<Scalar>,
    lim: Limits,
    j: int,
    q: int,
) -> bool {
    exists|k: int| #[trigger] came_from(spans, rows, totals, lim, j, q, k)
}

proof fn survivors(
    spans: Seq<Span>,
    rows: Seq<LayerView>,
    totals: Seq<Scalar>,
    lim: Limits,
    j: int,
)
    requires
        span::partition(spans, rows.len() as int),
        rows.len() <= usize::MAX,
        0 <= j <= spans.len(),
    ensures
        forall|q: int|
            0 <= q < clamp::spans_after_clamp(spans, rows, totals, lim, j).len()
                ==> #[trigger] has_origin(spans, rows, totals, lim, j, q),
    decreases j,
{
    if j > 0 {
        survivors(spans, rows, totals, lim, j - 1);
        clamp::clamp_keeps_layout(spans, rows, totals, lim, j - 1);
        clamp::clamp_keeps_layout(spans, rows, totals, lim, j);
        let before = clamp::spans_after_clamp(spans, rows, totals, lim, j - 1);
        let after = clamp::spans_after_clamp(spans, rows, totals, lim, j);
        let head = clamp::rows_after_clamp(spans, rows, totals, lim, j - 1);
        let all = clamp::rows_after_clamp(spans, rows, totals, lim, j);
        let sp = spans[j - 1];
        let f = clamp::fate_of(spans, totals, lim, j - 1);
        let piece = clamp::clamped_rows(sp, rows, f, lim.min, lim.max);
        span::laid_bounds(spans, 0, rows.len() as int, j - 1);
        assert forall|q: int| 0 <= q < after.len() implies #[trigger] has_origin(
            spans,
            rows,
            totals,
            lim,
            j,
            q,
        ) by {
            if q < before.len() {
                assert(has_origin(spans, rows, totals, lim, j - 1, q));
                let k = choose|k: int| #[trigger]
                    came_from(spans, rows, totals, lim, j - 1, q, k);
                span::laid_bounds(before, 0, head.len() as int, q);
                assert(after[q] == before[q]);
                assert(all.subrange(before[q].start as int, before[q].end as int)
                    =~= head.subrange(before[q].start as int, before[q].end as int));
                assert(came_from(spans, rows, totals, lim, j, q, k));
            } else {
                assert(!(f is Removed));
                let p = head.len() as int;
                assert(after[q] == sp.moved(p - sp.start));
                assert(piece.len() == sp.end - sp.start);
                assert(all.subrange(p, p + (sp.end - sp.start)) =~= piece);
                assert(came_from(spans, rows, totals, lim, j, q, j - 1));
            }
        }
    }
}

/// A pass that keeps every span as it is changes nothing.
proof fn keeping_all(
    spans: Seq<Span>,
    rows: Seq<LayerView>,
    totals: Seq<Scalar>,
    lim: Limits,
    j: int,
)
    requires
        span::partition(spans, rows.len() as int),
        rows.len() <= usize::MAX,
        forall|k: int|
            0 <= k < spans.len() ==> #[trigger] clamp::fate_of(spans, totals, lim, k) is Kept,
        0 <= j <= spans.len(),
    ensures
        clamp::rows_after_clamp(spans, rows, totals, lim, j) == rows.take(
            span::begin(spans, 0, j),
        ),
        clamp::spans_after_clamp(spans, rows, totals, lim, j) == spans.take(j),
        clamp::removed_spans(spans, totals, lim, j).len() == 0,
        clamp::capped_count(spans, totals, lim, j) == 0,
        clamp::surviving_rows(spans, totals, lim, j) == span::begin(spans, 0, j),
        0 <= span::begin(spans, 0, j) <= rows.len(),
    decreases j,
{
    if j > 0 {
        keeping_all(spans, rows, totals, lim, j - 1);
        let sp = spans[j - 1];
        span::laid_bounds(spans, 0, rows.len() as int, j - 1);
        assert(sp.start == span::begin(spans, 0, j - 1));
        assert(clamp::fate_of(spans, totals, lim, j - 1) is Kept);
        assert(rows.take(sp.start as int) + rows.subrange(sp.start as int, sp.end as int)
            =~= rows.take(sp.end as int));
        assert(sp.moved(sp.start - sp.start) == sp);
        assert(spans.take(j) =~= spans.take(j - 1).push(sp));
    } else {
        assert(rows.take(0) =~= seq![]);
        assert(spans.take(0) =~= seq![]);
    }
}

/// A second clamp pass with the same bounds finds nothing to do: its report is
/// empty and the stack stays as it is.
pub proof fn clamping_again_changes_nothing<
    P: Fn(Scalar, Scalar) -> Scalar,
    F: Fn(Scalar) -> String,
>(
    plus: P,
    one_decimal: F,
    before: &DesignStack,
    once: &DesignStack,
    twice: &DesignStack,
    totals: Seq<Scalar>,
    again: Seq<Scalar>,
    min: Scalar,
    max: Scalar,
    clamp_up: bool,
    first: ClampReport,
    second: Result<ClampReport, StackError>,
)
    requires
        numeric::settled(plus),
        before.wf(),
        once.wf(),
        scalar::less(min, max),
        clamp::span_totals(plus, before.span_seq(), before.rows(), totals),
        clamp::clamped(
            one_decimal,
            before,
            once,
            totals,
            clamp::bounds(min, max, clamp_up, before.span_seq().len()),
            Ok(first),
        ),
        clamp::span_totals(plus, once.span_seq(), once.rows(), again),
        twice.same_frame(once),
        clamp::clamped(
            one_decimal,
            once,
            twice,
            again,
            clamp::bounds(min, max, clamp_up, once.span_seq().len()),
            second,
        ),
    ensures
        twice.unchanged(once),
        second matches Ok(report) && report.spans_removed@.len() == 0 && report.spans_capped == 0
            && report.rows_removed == 0,
{
    let spans = before.span_seq();
    let rows = before.rows();
    let lim = clamp::bounds(min, max, clamp_up, spans.len());
    let n = spans.len() as int;
    let spans2 = once.span_seq();
    let rows2 = once.rows();
    let lim2 = clamp::bounds(min, max, clamp_up, spans2.len());
    survivors(spans, rows, totals, lim, n);
    assert forall|q: int| 0 <= q < spans2.len() implies #[trigger] clamp::fate_of(
        spans2,
        again,
        lim2,
        q,
    ) is Kept && !clamp::too_thick(spans2, again, lim2, q) by {
        assert(has_origin(spans, rows, totals, lim, n, q));
        let k = choose|k: int| #[trigger] came_from(spans, rows, totals, lim, n, q, k);
        assert(came_from(spans, rows, totals, lim, n, q, k));
        span::laid_bounds(spans, 0, rows.len() as int, k);
        span::laid_bounds(spans2, 0, rows2.len() as int, q);
        let sp = spans[k];
        let s2 = spans2[q];
        let f = clamp::fate_of(spans, totals, lim, k);
        let left = rows2.subrange(s2.start as int, s2.end as int);
        assert(left == clamp::clamped_rows(sp, rows, f, min, max));
        assert(arith::folds(plus, structure::thicknesses(left), again[q]));
        let xs = structure::thicknesses(rows.subrange(sp.start as int, sp.end as int));
        assert(arith::folds(plus, xs, totals[k]));
        assert(!clamp::too_thick(spans, totals, lim, k));
        if f is Kept {
            folds_agree(plus, xs, again[q], totals[k]);
        } else {
            clamp::one_row_total(plus, spans2, rows2, again, q);
            assert(rows2[s2.start as int] == left[0]);
        }
    }
    if second is Err {
        let k = choose|k: int|
            0 <= k < spans2.len() && #[trigger] clamp::too_thick(spans2, again, lim2, k);
        assert(clamp::fate_of(spans2, again, lim2, k) is Kept);
    }
    keeping_all(spans2, rows2, again, lim2, spans2.len() as int);
    assert(rows2.take(rows2.len() as int) =~= rows2);
    assert(spans2.take(spans2.len() as int) =~= spans2);
}

} // verus!
