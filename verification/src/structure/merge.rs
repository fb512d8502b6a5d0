//! Joining neighbouring films of one material.
use crate::arith;
use crate::scalar::Scalar;
use crate::structure;
use crate::structure::span;
use crate::structure::span::Span;
use crate::structure::{DesignStack, LayerSpec, LayerView};
use vstd::prelude::*;

verus! {

/// Same material and the same index, bit for bit.
pub open spec fn same_film(a: LayerView, b: LayerView) -> bool {
    a.material == b.material && a.nk == b.nk
}

/// Row `i` opens a run of same films.
pub open spec fn leads(rows: Seq<LayerView>, i: int) -> bool {
    i == 0 || !same_film(rows[i - 1], rows[i])
}

/// The rows below `n` that open a run.
pub open spec fn leaders(rows: Seq<LayerView>, n: int) -> Seq<int>
    decreases n,
{
    if n <= 0 {
        seq![]
    } else if leads(rows, n - 1) {
        leaders(rows, n - 1).push(n - 1)
    } else {
        leaders(rows, n - 1)
    }
}

/// `v` is the run of rows `a..b` as one film: the first row at the combined
/// thickness.
pub open spec fn merged_row<P: Fn(Scalar, Scalar) -> Scalar>(
    plus: P,
    rows: Seq<LayerView>,
    a: int,
    b: int,
    v: LayerView,
) -> bool {
    &&& arith::folds(plus, structure::thicknesses(rows.subrange(a, b)), v.d_nm)
    &&& v == rows[a].at(v.d_nm)
}

/// Where run `g` ends.
pub open spec fn run_end(rows: Seq<LayerView>, g: int) -> int {
    let l = leaders(rows, rows.len() as int);
    if g + 1 < l.len() {
        l[g + 1]
    } else {
        rows.len() as int
    }
}

/// `out` holds one film per run of `rows`, in order.
pub open spec fn merged_rows<P: Fn(Scalar, Scalar) -> Scalar>(
    plus: P,
    rows: Seq<LayerView>,
    out: Seq<LayerView>,
) -> bool {
    let l = leaders(rows, rows.len() as int);
    &&& out.len() == l.len()
    &&& forall|g: int|
        0 <= g < l.len() ==> merged_row(plus, rows, l[g], run_end(rows, g), #[trigger] out[g])
}

/// The first `j` spans after merging: a span keeps the runs that open in it
/// and disappears when there are none; its slice survives when the slice row
/// opens a run.
pub open spec fn merged_spans(spans: Seq<Span>, rows: Seq<LayerView>, j: int) -> Seq<Span>
    decreases j,
{
    if j <= 0 {
        seq![]
    } else {
        let sp = spans[j - 1];
        let a = leaders(rows, sp.start as int).len() as int;
        let b = leaders(rows, sp.end as int).len() as int;
        let slice = sp.slice && leads(rows, sp.start as int);
        let before = merged_spans(spans, rows, j - 1);
        if a < b {
            before.push(
                Span {
                    start: a as usize,
                    end: b as usize,
                    logical: sp.logical,
                    slice,
                    bulk_start: (a + (if slice { 1int } else { 0int })) as usize,
                },
            )
        } else {
            before
        }
    }
}

proof fn leaders_grow(rows: Seq<LayerView>, m: int, n: int)
    requires
        0 <= m <= n,
    ensures
        leaders(rows, m).len() <= leaders(rows, n).len(),
        leaders(rows, n).len() <= leaders(rows, m).len() + (n - m),
        forall|g: int|
            0 <= g < leaders(rows, m).len() ==> leaders(rows, m)[g] == #[trigger] leaders(
                rows,
                n,
            )[g],
    decreases n,
{
    if m < n {
        leaders_grow(rows, m, n - 1);
    }
}

proof fn leaders_are(rows: Seq<LayerView>, n: int, g: int)
    requires
        0 <= g < leaders(rows, n).len(),
    ensures
        0 <= leaders(rows, n)[g] < n,
        leads(rows, leaders(rows, n)[g]),
        g > 0 ==> leaders(rows, n)[g - 1] < leaders(rows, n)[g],
        forall|i: int|
            leaders(rows, n)[g] < i < (if g + 1 < leaders(rows, n).len() {
                leaders(rows, n)[g + 1]
            } else {
                n
            }) ==> !#[trigger] leads(rows, i),
    decreases n,
{
    if n > 0 {
        let l = leaders(rows, n - 1);
        if g < l.len() {
            leaders_are(rows, n - 1, g);
        } else if g > 0 {
            leaders_are(rows, n - 1, g - 1);
        }
    }
}

proof fn merge_keeps_layout(spans: Seq<Span>, rows: Seq<LayerView>, n: int, j: int)
    requires
        span::partition(spans, n),
        n == rows.len(),
        n <= usize::MAX,
        0 <= j <= spans.len(),
    ensures
        span::laid(
            merged_spans(spans, rows, j),
            0,
            leaders(rows, span::begin(spans, 0, j)).len() as int,
        ),
    decreases j,
{
    if j > 0 {
        merge_keeps_layout(spans, rows, n, j - 1);
        let sp = spans[j - 1];
        span::laid_bounds(spans, 0, n, j - 1);
        assert(sp.start == span::begin(spans, 0, j - 1));
        leaders_grow(rows, sp.start as int, sp.end as int);
        leaders_grow(rows, 0, sp.end as int);
        let a = leaders(rows, sp.start as int).len() as int;
        let b = leaders(rows, sp.end as int).len() as int;
        if a < b {
            let s = merged_spans(spans, rows, j).last();
            let one = seq![s];
            assert(span::laid(one, a, b)) by {
                assert forall|i: int| 0 <= i < one.len() implies one[i].start == #[trigger] span::begin(
                    one,
                    a,
                    i,
                ) by {
                    assert(i == 0);
                }
            }
            span::laid_concat(merged_spans(spans, rows, j - 1), one, 0, a, b);
            assert(merged_spans(spans, rows, j) =~= merged_spans(spans, rows, j - 1) + one);
        }
    }
}

fn same_nk(a: &Vec<(Scalar, Scalar)>, b: &Vec<(Scalar, Scalar)>) -> (r: bool)
    ensures
        r == (a@ == b@),
{
    if a.len() != b.len() {
        return false;
    }
    let mut i: usize = 0;
    while i < a.len()
        invariant
            i <= a.len() == b.len(),
            forall|j: int| 0 <= j < i ==> a@[j] == b@[j],
        decreases a.len() - i,
    {
        let (ar, ai) = a[i];
        let (br, bi) = b[i];
        if ar.bits != br.bits || ai.bits != bi.bits {
            assert(a@[i as int] != b@[i as int]);
            return false;
        }
        i += 1;
    }
    assert(a@ =~= b@);
    true
}

impl DesignStack {
    /// Joins each maximal run of consecutive films with the same material and
    /// the same index into one: thicknesses are added up from the first on,
    /// everything else is the first film's. Returns how many films vanished.
    pub fn merge_adjacent<P: Fn(Scalar, Scalar) -> Scalar>(&mut self, plus: &P) -> (r: usize)
        requires
            old(self).wf(),
            arith::accepts_pairs(*plus),
        ensures
            final(self).wf(),
            final(self).same_frame(old(self)),
            merged_rows(*plus, old(self).rows(), final(self).rows()),
            final(self).span_seq() == merged_spans(
                old(self).span_seq(),
                old(self).rows(),
                old(self).span_seq().len() as int,
            ),
            r == old(self).rows().len() - final(self).rows().len(),
            old(self).gridded() ==> final(self).gridded(),
    {
        let n: usize = self.films.len();
        let ghost rows = self.rows();
        let ghost spans0 = self.spans@;
        let mut counts: Vec<usize> = Vec::new();
        counts.push(0);
        let mut out: Vec<LayerSpec> = Vec::new();
        let mut start: usize = 0;
        let mut acc: Scalar = Scalar::zero();
        let ghost mut trail: Seq<Scalar> = seq![];
        let mut i: usize = 0;
        while i < n
            invariant
                i <= n,
                n == self.films.len(),
                rows == self.rows(),
                arith::accepts_pairs(*plus),
                counts.len() == i + 1,
                forall|j: int|
                    0 <= j <= i ==> #[trigger] counts@[j] == leaders(rows, j).len() && counts@[j]
                        <= j,
                i == 0 ==> out.len() == 0,
                i > 0 ==> {
                    &&& out.len() + 1 == leaders(rows, i as int).len()
                    &&& leaders(rows, i as int).last() == start
                    &&& start < i
                    &&& arith::running(
                        *plus,
                        structure::thicknesses(rows.subrange(start as int, i as int)),
                        trail,
                    )
                    &&& trail.last() == acc
                },
                forall|g: int|
                    0 <= g < out.len() ==> merged_row(
                        *plus,
                        rows,
                        leaders(rows, i as int)[g],
                        leaders(rows, i as int)[g + 1],
                        (#[trigger] out@[g])@,
                    ),
            decreases n - i,
        {
            let lead: bool = i == 0 || !(self.films[i - 1].material == self.films[i].material
                && same_nk(&self.films[i - 1].nk, &self.films[i].nk));
            assert(lead == leads(rows, i as int)) by {
                if i > 0 {
                    assert(rows[i - 1] == self.films@[i - 1]@);
                }
                assert(rows[i as int] == self.films@[i as int]@);
            }
            let ghost ds = structure::thicknesses(rows.subrange(start as int, i as int));
            let ghost l0 = leaders(rows, i as int);
            if lead {
                if i > 0 {
                    out.push(self.films[start].cloned_at(acc));
                    assert(merged_row(*plus, rows, start as int, i as int, out@.last()@));
                }
                start = i;
                acc = self.films[i].d_nm;
                proof {
                    trail = seq![acc];
                    assert(structure::thicknesses(rows.subrange(i as int, i + 1)).len() == 1);
                }
            } else {
                acc = plus(acc, self.films[i].d_nm);
                proof {
                    trail = trail.push(acc);
                    assert(structure::thicknesses(rows.subrange(start as int, i + 1)) =~= ds.push(
                        rows[i as int].d_nm,
                    ));
                }
            }
            counts.push(
                if lead {
                    counts[i] + 1
                } else {
                    counts[i]
                },
            );
            i += 1;
        }
        if n > 0 {
            out.push(self.films[start].cloned_at(acc));
            assert(merged_row(*plus, rows, start as int, n as int, out@.last()@));
        }
        let mut spans: Vec<Span> = Vec::new();
        let mut j: usize = 0;
        while j < self.spans.len()
            invariant
                j <= self.spans.len(),
                self.spans@ == spans0,
                span::partition(spans0, n as int),
                n == rows.len(),
                n == self.films.len(),
                rows == self.rows(),
                counts.len() == n + 1,
                forall|j: int|
                    0 <= j <= n ==> #[trigger] counts@[j] == leaders(rows, j).len() && counts@[j]
                        <= j,
                spans@ == merged_spans(spans0, rows, j as int),
            decreases self.spans.len() - j,
        {
            let sp: Span = self.spans[j];
            proof {
                span::laid_bounds(spans0, 0, n as int, j as int);
            }
            let a: usize = counts[sp.start];
            let b: usize = counts[sp.end];
            if a < b {
                let slice: bool = sp.slice && counts[sp.start + 1] > a;
                assert(slice == (sp.slice && leads(rows, sp.start as int)));
                let bulk_start: usize = if slice {
                    a + 1
                } else {
                    a
                };
                spans.push(Span { start: a, end: b, logical: sp.logical, slice, bulk_start });
            }
            j += 1;
        }
        assert(out.len() == leaders(rows, n as int).len() == counts@[n as int]);
        let merged: usize = n - out.len();
        proof {
            merge_keeps_layout(spans0, rows, n as int, spans0.len() as int);
        }
        self.films = out;
        self.spans = spans;
        proof {
            let l = leaders(rows, n as int);
            assert(self.rows().len() == l.len());
            assert forall|g: int| 0 <= g < l.len() implies merged_row(
                *plus,
                rows,
                l[g],
                run_end(rows, g),
                #[trigger] self.rows()[g],
            ) by {
                assert(self.rows()[g] == out@[g]@);
            }
            if old(self).gridded() {
                assert forall|g: int| 0 <= g < self.rows().len() implies (
                #[trigger] self.rows()[g]).nk.len() == self.grid_len() by {
                    leaders_are(rows, n as int, g);
                    assert(rows[l[g]].nk.len() == self.grid_len());
                }
            }
        }
        merged
    }
}

/// Merging leaves nothing to merge: no two neighbours of the result are the
/// same film, so a second pass keeps every row.
pub proof fn merging_is_final<P: Fn(Scalar, Scalar) -> Scalar>(
    plus: P,
    rows: Seq<LayerView>,
    out: Seq<LayerView>,
)
    requires
        merged_rows(plus, rows, out),
    ensures
        forall|g: int| 0 <= g < out.len() ==> #[trigger] leads(out, g),
        leaders(out, out.len() as int).len() == out.len(),
{
    let l = leaders(rows, rows.len() as int);
    assert forall|g: int| 0 <= g < out.len() implies #[trigger] leads(out, g) by {
        if g > 0 {
            leaders_are(rows, rows.len() as int, g);
            leaders_are(rows, rows.len() as int, g - 1);
            same_within_run(rows, l[g - 1], l[g] - 1);
            assert(merged_row(plus, rows, l[g], run_end(rows, g), out[g]));
            assert(merged_row(plus, rows, l[g - 1], run_end(rows, g - 1), out[g - 1]));
        }
    }
    all_lead(out, out.len() as int);
}

proof fn same_within_run(rows: Seq<LayerView>, a: int, b: int)
    requires
        0 <= a <= b,
        forall|i: int| a < i <= b ==> !#[trigger] leads(rows, i),
    ensures
        same_film(rows[a], rows[b]),
    decreases b - a,
{
    if a < b {
        same_within_run(rows, a, b - 1);
        assert(!leads(rows, b));
    }
}

proof fn all_lead(rows: Seq<LayerView>, n: int)
    requires
        forall|i: int| 0 <= i < n ==> #[trigger] leads(rows, i),
        0 <= n,
    ensures
        leaders(rows, n).len() == n,
    decreases n,
{
    if n > 0 {
        all_lead(rows, n - 1);
        assert(leads(rows, n - 1));
    }
}

} // verus!
