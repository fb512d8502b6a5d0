//! Splitting a film around a needle seed.
use crate::arith;
use crate::scalar::Scalar;
use crate::structure::refusal::StackError;
use crate::structure::span;
use crate::structure::span::{span_index_of_row, Span};
use crate::structure::{DesignStack, LayerSpec, LayerView};
use vstd::prelude::*;

verus! {

/// The singleton span of a new row.
pub open spec fn row_span(row: int) -> Span {
    Span {
        start: row as usize,
        end: (row + 1) as usize,
        logical: row as usize,
        slice: false,
        bulk_start: row as usize,
    }
}

/// What becomes of a host span when row `i` of it is split around a seed: the
/// top part stays with the rows before it, the seed stands alone, the bottom
/// part keeps the host's identity. A slice stays with the leading edge.
pub open spec fn host_split(host: Span, i: int) -> Seq<Span> {
    if host.end - host.start == 1 {
        seq![
            Span { slice: false, bulk_start: host.start, ..host },
            row_span(i + 1),
            Span { logical: host.logical, ..row_span(i + 2) },
        ]
    } else if i == host.start {
        seq![
            Span {
                end: (host.start + 1) as usize,
                slice: true,
                bulk_start: (host.start + 1) as usize,
                ..host
            },
            row_span(i + 1),
            Span {
                start: (host.start + 2) as usize,
                end: (host.end + 2) as usize,
                slice: true,
                bulk_start: (host.start + 3) as usize,
                ..host
            },
        ]
    } else {
        seq![host, row_span(i + 1), Span { logical: host.logical, ..row_span(i + 2) }]
    }
}

/// The spans after a seed went into row `i` of span `k`.
pub open spec fn spans_after_insert(spans: Seq<Span>, k: int, i: int) -> Seq<Span> {
    spans.take(k) + host_split(spans[k], i) + span::moved_all(spans.skip(k + 1), 2)
}

/// The rows after row `i` was split at `depth`, leaving `rest` below `seed`.
pub open spec fn rows_after_insert(
    rows: Seq<LayerView>,
    i: int,
    depth: Scalar,
    seed: LayerView,
    rest: Scalar,
) -> Seq<LayerView> {
    rows.take(i) + seq![rows[i].at(depth), seed, rows[i].at(rest)] + rows.skip(i + 1)
}

proof fn insert_keeps_partition(spans: Seq<Span>, n: int, k: int, i: int)
    requires
        span::partition(spans, n),
        n + 2 <= usize::MAX,
        0 <= k < spans.len(),
        spans[k].holds(i),
        spans[k].singleton_bulk(),
    ensures
        span::partition(spans_after_insert(spans, k, i), n + 2),
{
    let host = spans[k];
    assert(host.well_formed());
    assert(host.start == span::begin(spans, 0, k));
    span::laid_bounds(spans, 0, n, k);
    span::laid_take(spans, 0, n, k);
    span::laid_skip(spans, 0, n, k + 1);
    span::laid_moved(spans.skip(k + 1), host.end as int, n, 2);
    let mid = host_split(host, i);
    assert(span::laid(mid, host.start as int, host.end + 2)) by {
        assert(span::begin(mid, host.start as int, 0) == host.start);
        assert(span::begin(mid, host.start as int, 1) == mid[0].end);
        assert(span::begin(mid, host.start as int, 2) == mid[1].end);
        assert forall|j: int| 0 <= j < mid.len() implies mid[j].start == #[trigger] span::begin(
            mid,
            host.start as int,
            j,
        ) by {
            assert(j == 0 || j == 1 || j == 2);
        }
    }
    span::laid_concat(spans.take(k), mid, 0, host.start as int, host.end + 2);
    span::laid_concat(
        spans.take(k) + mid,
        span::moved_all(spans.skip(k + 1), 2),
        0,
        host.end + 2,
        n + 2,
    );
}

impl DesignStack {
    /// Splits the film at `film_idx` at `depth_nm` and puts `seed` between the
    /// two portions. Only a film in a span with exactly one bulk row is a
    /// host. Portions of zero thickness are allowed.
    #[verifier::spinoff_prover]
    #[verifier::rlimit(40)]
    pub fn insert_needle_seed<M: Fn(Scalar, Scalar) -> Scalar>(
        &mut self,
        film_idx: usize,
        depth_nm: Scalar,
        seed: LayerSpec,
        minus: &M,
    ) -> (r: Result<(), StackError>)
        requires
            old(self).wf(),
            old(self).rows().len() + 2 <= usize::MAX,
            arith::accepts_pairs(*minus),
        ensures
            final(self).wf(),
            final(self).same_frame(old(self)),
            match r {
                Err(e) => final(self).unchanged(old(self)) && if film_idx >= old(self).rows().len() {
                    e matches StackError::FilmOutOfRange { film_idx: i, films: n } && i == film_idx
                        && n == old(self).rows().len()
                } else {
                    let sp = old(self).span_seq()[span::owner(old(self).span_seq(), film_idx as int)];
                    &&& !sp.singleton_bulk()
                    &&& e matches StackError::NotAHost { film_idx: i, material, start, end } && i
                        == film_idx && material@ == old(self).rows()[film_idx as int].material
                        && start == sp.start && end == sp.end
                },
                Ok(_) => {
                    let k = span::owner(old(self).span_seq(), film_idx as int);
                    let host = old(self).rows()[film_idx as int];
                    &&& film_idx < old(self).rows().len()
                    &&& old(self).span_seq()[k].singleton_bulk()
                    &&& final(self).span_seq() == spans_after_insert(
                        old(self).span_seq(),
                        k,
                        film_idx as int,
                    )
                    &&& exists|rest: Scalar|
                        {
                            &&& call_ensures(*minus, (host.d_nm, depth_nm), rest)
                            &&& final(self).rows() == #[trigger] rows_after_insert(
                                old(self).rows(),
                                film_idx as int,
                                depth_nm,
                                seed@,
                                rest,
                            )
                        }
                },
            },
            r is Ok && old(self).gridded() && seed@.nk.len() == old(self).grid_len()
                ==> final(self).gridded(),
    {
        if film_idx >= self.films.len() {
            return Err(StackError::FilmOutOfRange { film_idx, films: self.films.len() });
        }
        let k: usize = span_index_of_row(&self.spans, film_idx);
        let ghost n = self.films@.len() as int;
        let ghost spans0 = self.spans@;
        let ghost rows0 = self.rows();
        proof {
            span::owner_is(spans0, n, film_idx as int, k as int);
        }
        let host: Span = self.spans[k];
        if !host.is_singleton_bulk() {
            return Err(
                StackError::NotAHost {
                    film_idx,
                    material: self.films[film_idx].material.clone(),
                    start: host.start,
                    end: host.end,
                },
            );
        }
        proof {
            insert_keeps_partition(spans0, n, k as int, film_idx as int);
            span::laid_bounds(spans0, 0, n, k as int);
        }
        let rest: Scalar = minus(self.films[film_idx].d_nm, depth_nm);
        let top: LayerSpec = self.films[film_idx].cloned_at(depth_nm);
        let bottom: LayerSpec = self.films[film_idx].cloned_at(rest);
        let ghost films0 = self.films@;
        self.films.set(film_idx, top);
        self.films.insert(film_idx + 1, seed);
        self.films.insert(film_idx + 2, bottom);
        self.spans = insert_spans(&self.spans, k, film_idx, Ghost(n));
        proof {
            assert(self.rows() =~= rows_after_insert(
                rows0,
                film_idx as int,
                depth_nm,
                seed@,
                rest,
            ));
        }
        Ok(())
    }
}

/// Builds the spans after an insertion.
fn insert_spans(spans: &Vec<Span>, k: usize, i: usize, Ghost(n): Ghost<int>) -> (r: Vec<Span>)
    requires
        span::partition(spans@, n),
        n + 2 <= usize::MAX,
        k < spans.len(),
        spans@[k as int].holds(i as int),
        spans@[k as int].singleton_bulk(),
    ensures
        r@ == spans_after_insert(spans@, k as int, i as int),
{
    let mut out: Vec<Span> = Vec::new();
    let mut j: usize = 0;
    while j < k
        invariant
            j <= k < spans.len(),
            out@ == spans@.take(j as int),
        decreases k - j,
    {
        out.push(spans[j]);
        j += 1;
        assert(spans@.take(j as int) =~= spans@.take(j - 1).push(spans@[j - 1]));
    }
    let host: Span = spans[k];
    proof {
        span::laid_bounds(spans@, 0, n, k as int);
        assert(host.well_formed());
    }
    let seed: Span = Span {
        start: i + 1,
        end: i + 2,
        logical: i + 1,
        slice: false,
        bulk_start: i + 1,
    };
    if host.end - host.start == 1 {
        out.push(Span { slice: false, bulk_start: host.start, ..host });
        out.push(seed);
        out.push(
            Span { start: i + 2, end: i + 3, logical: host.logical, slice: false, bulk_start: i + 2 },
        );
    } else if i == host.start {
        out.push(
            Span {
                start: host.start,
                end: host.start + 1,
                logical: host.logical,
                slice: true,
                bulk_start: host.start + 1,
            },
        );
        out.push(seed);
        out.push(
            Span {
                start: host.start + 2,
                end: host.end + 2,
                logical: host.logical,
                slice: true,
                bulk_start: host.start + 3,
            },
        );
    } else {
        out.push(host);
        out.push(seed);
        out.push(
            Span { start: i + 2, end: i + 3, logical: host.logical, slice: false, bulk_start: i + 2 },
        );
    }
    assert(out@ =~= spans@.take(k as int) + host_split(host, i as int));
    let ghost head = out@;
    j = k + 1;
    while j < spans.len()
        invariant
            span::partition(spans@, n),
            n + 2 <= usize::MAX,
            k < j <= spans.len(),
            out@ == head + span::moved_all(spans@.subrange(k + 1, j as int), 2),
        decreases spans.len() - j,
    {
        let sp: Span = spans[j];
        proof {
            span::laid_bounds(spans@, 0, n, j as int);
            assert(sp.well_formed());
        }
        out.push(
            Span {
                start: sp.start + 2,
                end: sp.end + 2,
                logical: sp.logical,
                slice: sp.slice,
                bulk_start: sp.bulk_start + 2,
            },
        );
        assert(out@ =~= head + span::moved_all(spans@.subrange(k + 1, j + 1), 2));
        j += 1;
    }
    assert(spans@.subrange(k + 1, j as int) =~= spans@.skip(k + 1));
    out
}

} // verus!
