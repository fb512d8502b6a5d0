//! Taking a film out of the stack.
use crate::structure::refusal::StackError;
use crate::structure::span;
use crate::structure::span::{span_index_of_row, Span};
use crate::structure::{DesignStack, LayerSpec};
use vstd::prelude::*;

verus! {

/// What is left of a span that loses its row `i`.
pub open spec fn shrunk(sp: Span, i: int) -> Seq<Span> {
    if sp.multi_row() {
        let slice = sp.slice && i != sp.start;
        seq![
            Span {
                end: (sp.end - 1) as usize,
                slice,
                bulk_start: (sp.start + (if slice { 1int } else { 0int })) as usize,
                ..sp
            },
        ]
    } else {
        seq![]
    }
}

/// The spans after row `i` of span `k` left the stack.
pub open spec fn spans_after_remove(spans: Seq<Span>, k: int, i: int) -> Seq<Span> {
    spans.take(k) + shrunk(spans[k], i) + span::moved_all(spans.skip(k + 1), -1)
}

proof fn remove_keeps_partition(spans: Seq<Span>, n: int, k: int, i: int)
    requires
        span::partition(spans, n),
        n <= usize::MAX,
        0 <= k < spans.len(),
        spans[k].holds(i),
    ensures
        span::partition(spans_after_remove(spans, k, i), n - 1),
{
    let sp = spans[k];
    assert(sp.well_formed());
    assert(sp.start == span::begin(spans, 0, k));
    span::laid_bounds(spans, 0, n, k);
    span::laid_take(spans, 0, n, k);
    span::laid_skip(spans, 0, n, k + 1);
    span::laid_moved(spans.skip(k + 1), sp.end as int, n, -1);
    let mid = shrunk(sp, i);
    assert(span::laid(mid, sp.start as int, sp.end - 1)) by {
        assert(span::begin(mid, sp.start as int, 0) == sp.start);
        assert forall|j: int| 0 <= j < mid.len() implies mid[j].start == #[trigger] span::begin(
            mid,
            sp.start as int,
            j,
        ) by {
            assert(j == 0);
        }
    }
    span::laid_concat(spans.take(k), mid, 0, sp.start as int, sp.end - 1);
    span::laid_concat(spans.take(k) + mid, span::moved_all(spans.skip(k + 1), -1), 0, sp.end - 1, n - 1);
}

/// Builds the spans after a removal.
fn remove_spans(spans: &Vec<Span>, k: usize, i: usize, Ghost(n): Ghost<int>) -> (r: Vec<Span>)
    requires
        span::partition(spans@, n),
        n <= usize::MAX,
        k < spans.len(),
        spans@[k as int].holds(i as int),
    ensures
        r@ == spans_after_remove(spans@, k as int, i as int),
{
    let mut out: Vec<Span> = Vec::new();
    let mut j: usize = 0;
    while j < k
        invariant
            j <= k < spans.len(),
            out@ == spans@.take(j as int),
        decreases k - j,
    {
        out.push(spans[j]);
        j += 1;
        assert(spans@.take(j as int) =~= spans@.take(j - 1).push(spans@[j - 1]));
    }
    let sp: Span = spans[k];
    proof {
        span::laid_bounds(spans@, 0, n, k as int);
        assert(sp.well_formed());
    }
    if sp.end - sp.start > 1 {
        let slice: bool = sp.slice && i != sp.start;
        let bulk_start: usize = if slice {
            sp.start + 1
        } else {
            sp.start
        };
        out.push(Span { start: sp.start, end: sp.end - 1, logical: sp.logical, slice, bulk_start });
    }
    assert(out@ =~= spans@.take(k as int) + shrunk(sp, i as int));
    let ghost head = out@;
    j = k + 1;
    while j < spans.len()
        invariant
            span::partition(spans@, n),
            k < j <= spans.len(),
            out@ == head + span::moved_all(spans@.subrange(k + 1, j as int), -1),
        decreases spans.len() - j,
    {
        let sp: Span = spans[j];
        proof {
            span::laid_bounds(spans@, 0, n, j as int);
            span::laid_ordered(spans@, 0, n, k as int, j as int);
            assert(sp.well_formed());
            span::laid_bounds(spans@, 0, n, k as int);
        }
        out.push(
            Span {
                start: sp.start - 1,
                end: sp.end - 1,
                logical: sp.logical,
                slice: sp.slice,
                bulk_start: sp.bulk_start - 1,
            },
        );
        assert(out@ =~= head + span::moved_all(spans@.subrange(k + 1, j + 1), -1));
        j += 1;
    }
    assert(spans@.subrange(k + 1, j as int) =~= spans@.skip(k + 1));
    out
}

impl DesignStack {
    /// Takes the film at `film_idx` out of the stack and returns it. Its span
    /// shrinks with it, and disappears with its last row.
    pub fn remove_film(&mut self, film_idx: usize) -> (r: Result<LayerSpec, StackError>)
        requires
            old(self).wf(),
        ensures
            final(self).wf(),
            final(self).same_frame(old(self)),
            match r {
                Err(e) => {
                    &&& film_idx >= old(self).rows().len()
                    &&& final(self).unchanged(old(self))
                    &&& e matches StackError::FilmOutOfRange { film_idx: i, films: n } && i
                        == film_idx && n == old(self).rows().len()
                },
                Ok(film) => {
                    &&& film_idx < old(self).rows().len()
                    &&& film@ == old(self).rows()[film_idx as int]
                    &&& final(self).rows() == old(self).rows().remove(film_idx as int)
                    &&& final(self).span_seq() == spans_after_remove(
                        old(self).span_seq(),
                        span::owner(old(self).span_seq(), film_idx as int),
                        film_idx as int,
                    )
                },
            },
            old(self).gridded() ==> final(self).gridded(),
    {
        if film_idx >= self.films.len() {
            return Err(StackError::FilmOutOfRange { film_idx, films: self.films.len() });
        }
        let k: usize = span_index_of_row(&self.spans, film_idx);
        let ghost n = self.films@.len() as int;
        let ghost rows0 = self.rows();
        proof {
            span::owner_is(self.spans@, n, film_idx as int, k as int);
            remove_keeps_partition(self.spans@, n, k as int, film_idx as int);
        }
        self.spans = remove_spans(&self.spans, k, film_idx, Ghost(n));
        let film: LayerSpec = self.films.remove(film_idx);
        assert(self.rows() =~= rows0.remove(film_idx as int));
        Ok(film)
    }
}

} // verus!
