//! Keeping spans between a floor and a ceiling.
use crate::arith;
use crate::scalar;
use crate::scalar::Scalar;
use crate::structure;
use crate::structure::refusal::StackError;
use crate::structure::span;
use crate::structure::span::Span;
use crate::structure::{clone_rows, row_thicknesses, DesignStack, LayerSpec, LayerView};
use vstd::prelude::*;
use vstd::string::*;

verus! {

/// What one clamp pass did.
#[derive(Debug, PartialEq)]
pub struct ClampReport {
    /// One description per span removed whole.
    pub spans_removed: Vec<String>,
    pub spans_capped: usize,
    pub rows_removed: usize,
}

impl Default for ClampReport {
    fn default() -> (r: ClampReport)
        ensures
            r.spans_removed@.len() == 0,
            r.spans_capped == 0,
            r.rows_removed == 0,
    {
        ClampReport { spans_removed: Vec::new(), spans_capped: 0, rows_removed: 0 }
    }
}

impl ClampReport {
    /// Nothing was removed and nothing was capped.
    pub fn is_empty(&self) -> (r: bool)
        ensures
            r == (self.spans_removed@.len() == 0 && self.spans_capped == 0 && self.rows_removed
                == 0),
    {
        self.spans_removed.len() == 0 && self.spans_capped == 0 && self.rows_removed == 0
    }

    /// Adds a later pass's report to this one.
    pub fn merge(&mut self, other: ClampReport)
        requires
            old(self).spans_capped + other.spans_capped <= usize::MAX,
            old(self).rows_removed + other.rows_removed <= usize::MAX,
        ensures
            final(self).spans_removed@ == old(self).spans_removed@ + other.spans_removed@,
            final(self).spans_capped == old(self).spans_capped + other.spans_capped,
            final(self).rows_removed == old(self).rows_removed + other.rows_removed,
    {
        let mut other = other;
        self.spans_removed.append(&mut other.spans_removed);
        self.spans_capped = self.spans_capped + other.spans_capped;
        self.rows_removed = self.rows_removed + other.rows_removed;
    }
}

/// What a clamp pass does to a span.
pub enum Fate {
    /// Below the floor: the span leaves the stack.
    Removed,
    /// A one-row span below the floor, set to the floor.
    Raised,
    /// A one-row span above the ceiling, set to the ceiling.
    Capped,
    Kept,
}

/// The fate of a span of total thickness `total`.
pub open spec fn fate(sp: Span, total: Scalar, min: Scalar, max: Scalar, clamp_up: bool) -> Fate {
    if scalar::less(total, min) {
        if clamp_up && !sp.multi_row() {
            Fate::Raised
        } else {
            Fate::Removed
        }
    } else if !sp.multi_row() && scalar::less(max, total) {
        Fate::Capped
    } else {
        Fate::Kept
    }
}

/// `totals` holds each span's thickness, slice row and all.
pub open spec fn span_totals<P: Fn(Scalar, Scalar) -> Scalar>(
    plus: P,
    spans: Seq<Span>,
    rows: Seq<LayerView>,
    totals: Seq<Scalar>,
) -> bool {
    &&& totals.len() == spans.len()
    &&& forall|k: int|
        0 <= k < spans.len() ==> arith::folds(
            plus,
            structure::thicknesses(rows.subrange(spans[k].start as int, spans[k].end as int)),
            #[trigger] totals[k],
        )
}

/// Span `k` has several rows and is above the ceiling.
pub open spec fn too_thick(spans: Seq<Span>, totals: Seq<Scalar>, lim: Limits, k: int) -> bool {
    !lim.exempt[k] && spans[k].multi_row() && scalar::less(lim.max, totals[k])
}

/// The rows that are left of a span.
pub open spec fn clamped_rows(
    sp: Span,
    rows: Seq<LayerView>,
    f: Fate,
    min: Scalar,
    max: Scalar,
) -> Seq<LayerView> {
    match f {
        Fate::Removed => seq![],
        Fate::Raised => seq![rows[sp.start as int].at(min)],
        Fate::Capped => seq![rows[sp.start as int].at(max)],
        Fate::Kept => rows.subrange(sp.start as int, sp.end as int),
    }
}

/// The bounds of a clamp pass, and which spans it leaves alone.
pub struct Limits {
    pub min: Scalar,
    pub max: Scalar,
    pub clamp_up: bool,
    pub exempt: Seq<bool>,
}

/// The bounds of a pass over `n` spans that leaves none alone.
pub open spec fn bounds(min: Scalar, max: Scalar, clamp_up: bool, n: nat) -> Limits {
    Limits { min, max, clamp_up, exempt: Seq::new(n, |k: int| false) }
}

/// The fate of span `k`.
pub open spec fn fate_of(spans: Seq<Span>, totals: Seq<Scalar>, lim: Limits, k: int) -> Fate {
    if lim.exempt[k] {
        Fate::Kept
    } else {
        fate(spans[k], totals[k], lim.min, lim.max, lim.clamp_up)
    }
}

/// The rows after the first `j` spans were clamped.
pub open spec fn rows_after_clamp(
    spans: Seq<Span>,
    rows: Seq<LayerView>,
    totals: Seq<Scalar>,
    lim: Limits,
    j: int,
) -> Seq<LayerView>
    decreases j,
{
    if j <= 0 {
        seq![]
    } else {
        rows_after_clamp(spans, rows, totals, lim, j - 1) + clamped_rows(
            spans[j - 1],
            rows,
            fate_of(spans, totals, lim, j - 1),
            lim.min,
            lim.max,
        )
    }
}

/// The spans after the first `j` of them were clamped: the survivors, closed
/// up, each with its slice.
pub open spec fn spans_after_clamp(
    spans: Seq<Span>,
    rows: Seq<LayerView>,
    totals: Seq<Scalar>,
    lim: Limits,
    j: int,
) -> Seq<Span>
    decreases j,
{
    if j <= 0 {
        seq![]
    } else {
        let before = spans_after_clamp(spans, rows, totals, lim, j - 1);
        if fate_of(spans, totals, lim, j - 1) is Removed {
            before
        } else {
            let p = rows_after_clamp(spans, rows, totals, lim, j - 1).len();
            before.push(spans[j - 1].moved(p - spans[j - 1].start))
        }
    }
}

/// The removed ones among the first `j` spans.
pub open spec fn removed_spans(
    spans: Seq<Span>,
    totals: Seq<Scalar>,
    lim: Limits,
    j: int,
) -> Seq<int>
    decreases j,
{
    if j <= 0 {
        seq![]
    } else {
        let before = removed_spans(spans, totals, lim, j - 1);
        if fate_of(spans, totals, lim, j - 1) is Removed {
            before.push(j - 1)
        } else {
            before
        }
    }
}

/// How many of the first `j` spans were capped.
pub open spec fn capped_count(spans: Seq<Span>, totals: Seq<Scalar>, lim: Limits, j: int) -> nat
    decreases j,
{
    if j <= 0 {
        0
    } else {
        capped_count(spans, totals, lim, j - 1) + (if fate_of(spans, totals, lim, j - 1) is Capped {
            1nat
        } else {
            0nat
        })
    }
}

/// `s` describes the removed span `k`: its material and its thickness in nm.
pub open spec fn describes<F: Fn(Scalar) -> String>(
    one_decimal: F,
    spans: Seq<Span>,
    rows: Seq<LayerView>,
    totals: Seq<Scalar>,
    k: int,
    s: Seq<char>,
) -> bool {
    exists|t: String|
        {
            &&& #[trigger] call_ensures(one_decimal, (totals[k],), t)
            &&& s == rows[spans[k].start as int].material + " ("@ + t@ + " nm)"@
        }
}

/// What a clamp pass over spans of these totals ends in.
pub open spec fn clamped<F: Fn(Scalar) -> String>(
    one_decimal: F,
    before: &DesignStack,
    after: &DesignStack,
    totals: Seq<Scalar>,
    lim: Limits,
    r: Result<ClampReport, StackError>,
) -> bool {
    let spans = before.span_seq();
    let rows = before.rows();
    let n = spans.len() as int;
    match r {
        Err(e) => {
            &&& after.unchanged(before)
            &&& exists|k: int|
                {
                    &&& 0 <= k < n
                    &&& #[trigger] too_thick(spans, totals, lim, k)
                    &&& forall|j: int| 0 <= j < k ==> !#[trigger] too_thick(spans, totals, lim, j)
                    &&& e matches StackError::SpanAboveCeiling { material, d_nm, max_nm } && material@
                        == rows[spans[k].start as int].material && d_nm == totals[k] && max_nm
                        == lim.max
                }
        },
        Ok(report) => {
            &&& forall|k: int| 0 <= k < n ==> !#[trigger] too_thick(spans, totals, lim, k)
            &&& after.rows() == rows_after_clamp(spans, rows, totals, lim, n)
            &&& after.span_seq() == spans_after_clamp(spans, rows, totals, lim, n)
            &&& report.spans_removed@.len() == removed_spans(spans, totals, lim, n).len()
            &&& forall|q: int|
                0 <= q < report.spans_removed@.len() ==> describes(
                    one_decimal,
                    spans,
                    rows,
                    totals,
                    removed_spans(spans, totals, lim, n)[q],
                    (#[trigger] report.spans_removed@[q])@,
                )
            &&& report.spans_capped == capped_count(spans, totals, lim, n)
            &&& report.rows_removed == rows.len() - surviving_rows(spans, totals, lim, n)
        },
    }
}

/// How many of the rows of the first `j` spans stay.
pub open spec fn surviving_rows(spans: Seq<Span>, totals: Seq<Scalar>, lim: Limits, j: int) -> int
    decreases j,
{
    if j <= 0 {
        0
    } else {
        surviving_rows(spans, totals, lim, j - 1) + (if fate_of(spans, totals, lim, j - 1) is Removed {
            0int
        } else {
            spans[j - 1].end - spans[j - 1].start
        })
    }
}

pub(crate) proof fn one_row_total<P: Fn(Scalar, Scalar) -> Scalar>(
    plus: P,
    spans: Seq<Span>,
    rows: Seq<LayerView>,
    totals: Seq<Scalar>,
    k: int,
)
    requires
        span::partition(spans, rows.len() as int),
        span_totals(plus, spans, rows, totals),
        0 <= k < spans.len(),
        !spans[k].multi_row(),
    ensures
        totals[k] == rows[spans[k].start as int].d_nm,
{
    span::laid_bounds(spans, 0, rows.len() as int, k);
    let xs = structure::thicknesses(rows.subrange(spans[k].start as int, spans[k].end as int));
    assert(arith::folds(plus, xs, totals[k]));
    let acc = choose|acc: Seq<Scalar>| arith::running(plus, xs, acc) && totals[k] == acc.last();
    assert(arith::running(plus, xs, acc));
    assert(xs.len() == 1);
    assert(acc.last() == acc[0]);
}

/// Clamping closes the survivors up into a partition again.
pub(crate) proof fn clamp_keeps_layout(
    spans: Seq<Span>,
    rows: Seq<LayerView>,
    totals: Seq<Scalar>,
    lim: Limits,
    j: int,
)
    requires
        span::partition(spans, rows.len() as int),
        rows.len() <= usize::MAX,
        0 <= j <= spans.len(),
    ensures
        span::laid(
            spans_after_clamp(spans, rows, totals, lim, j),
            0,
            rows_after_clamp(spans, rows, totals, lim, j).len() as int,
        ),
        rows_after_clamp(spans, rows, totals, lim, j).len() == surviving_rows(
            spans,
            totals,
            lim,
            j,
        ),
        rows_after_clamp(spans, rows, totals, lim, j).len() <= span::begin(spans, 0, j),
    decreases j,
{
    if j > 0 {
        clamp_keeps_layout(spans, rows, totals, lim, j - 1);
        let sp = spans[j - 1];
        span::laid_bounds(spans, 0, rows.len() as int, j - 1);
        assert(sp.start == span::begin(spans, 0, j - 1));
        assert(sp.well_formed());
        let p = rows_after_clamp(spans, rows, totals, lim, j - 1).len() as int;
        if !(fate_of(spans, totals, lim, j - 1) is Removed) {
            let one = seq![sp.moved(p - sp.start)];
            let q = p + (sp.end - sp.start);
            assert(span::laid(one, p, q)) by {
                assert forall|i: int| 0 <= i < one.len() implies one[i].start
                    == #[trigger] span::begin(one, p, i) by {
                    assert(i == 0);
                }
            }
            span::laid_concat(spans_after_clamp(spans, rows, totals, lim, j - 1), one, 0, p, q);
            assert(spans_after_clamp(spans, rows, totals, lim, j) =~= spans_after_clamp(
                spans,
                rows,
                totals,
                lim,
                j - 1,
            ) + one);
        }
    }
}

/// The floor and the ceiling hold afterwards: whatever survives a clamp pass
/// in one row lies in `[min, max]`, unless its thickness was not a number.
pub proof fn clamped_rows_are_within<P: Fn(Scalar, Scalar) -> Scalar>(
    plus: P,
    spans: Seq<Span>,
    rows: Seq<LayerView>,
    totals: Seq<Scalar>,
    lim: Limits,
    k: int,
)
    requires
        span::partition(spans, rows.len() as int),
        span_totals(plus, spans, rows, totals),
        scalar::less(lim.min, lim.max),
        0 <= k < spans.len(),
        !spans[k].multi_row(),
        !rows[spans[k].start as int].d_nm.nan(),
        !lim.exempt[k],
        !(fate_of(spans, totals, lim, k) is Removed),
    ensures
        ({
            let out = clamped_rows(
                spans[k],
                rows,
                fate_of(spans, totals, lim, k),
                lim.min,
                lim.max,
            );
            &&& out.len() == 1
            &&& scalar::at_most(lim.min, out[0].d_nm)
            &&& scalar::at_most(out[0].d_nm, lim.max)
        }),
{
    one_row_total(plus, spans, rows, totals, k);
    span::laid_bounds(spans, 0, rows.len() as int, k);
}

impl DesignStack {
    /// Enforces `[min_nm, max_nm]` on every span. A span below the floor
    /// leaves the stack whole, or, under `clamp_up`, a one-row span is set to
    /// the floor instead. A one-row span above the ceiling is set to the
    /// ceiling; a multi-row span above it is refused before anything changes.
    pub fn clamp_all<P: Fn(Scalar, Scalar) -> Scalar, F: Fn(Scalar) -> String>(
        &mut self,
        min_nm: Scalar,
        max_nm: Scalar,
        clamp_up: bool,
        plus: &P,
        one_decimal: &F,
    ) -> (r: Result<ClampReport, StackError>)
        requires
            old(self).wf(),
            scalar::at_most(Scalar::zero(), min_nm),
            scalar::less(min_nm, max_nm),
            arith::accepts_pairs(*plus),
            forall|x: Scalar| #[trigger] call_requires(*one_decimal, (x,)),
        ensures
            final(self).wf(),
            final(self).same_frame(old(self)),
            exists|totals: Seq<Scalar>|
                {
                    &&& #[trigger] span_totals(
                        *plus,
                        old(self).span_seq(),
                        old(self).rows(),
                        totals,
                    )
                    &&& clamped(
                        *one_decimal,
                        old(self),
                        final(self),
                        totals,
                        bounds(min_nm, max_nm, clamp_up, old(self).span_seq().len()),
                        r,
                    )
                },
            old(self).gridded() ==> final(self).gridded(),
    {
        let n: usize = self.spans.len();
        let mut none: Vec<bool> = Vec::with_capacity(n);
        let mut k: usize = 0;
        while k < n
            invariant
                k <= n,
                none@ == Seq::new(k as nat, |j: int| false),
            decreases n - k,
        {
            none.push(false);
            k += 1;
            assert(none@ =~= Seq::new(k as nat, |j: int| false));
        }
        self.clamp_others(min_nm, max_nm, clamp_up, &none, plus, one_decimal)
    }

    /// A clamp pass that leaves the `exempt` spans alone.
    #[verifier::rlimit(60)]
    pub fn clamp_others<P: Fn(Scalar, Scalar) -> Scalar, F: Fn(Scalar) -> String>(
        &mut self,
        min_nm: Scalar,
        max_nm: Scalar,
        clamp_up: bool,
        exempt: &Vec<bool>,
        plus: &P,
        one_decimal: &F,
    ) -> (r: Result<ClampReport, StackError>)
        requires
            old(self).wf(),
            exempt@.len() == old(self).span_seq().len(),
            scalar::at_most(Scalar::zero(), min_nm),
            scalar::less(min_nm, max_nm),
            arith::accepts_pairs(*plus),
            forall|x: Scalar| #[trigger] call_requires(*one_decimal, (x,)),
        ensures
            final(self).wf(),
            final(self).same_frame(old(self)),
            exists|totals: Seq<Scalar>|
                {
                    &&& #[trigger] span_totals(
                        *plus,
                        old(self).span_seq(),
                        old(self).rows(),
                        totals,
                    )
                    &&& clamped(
                        *one_decimal,
                        old(self),
                        final(self),
                        totals,
                        (Limits { min: min_nm, max: max_nm, clamp_up, exempt: exempt@ }),
                        r,
                    )
                },
            old(self).gridded() ==> final(self).gridded(),
    {
        let ghost lim = Limits { min: min_nm, max: max_nm, clamp_up, exempt: exempt@ };
        let ghost spans0 = self.spans@;
        let ghost rows = self.rows();
        let ghost n = self.films@.len() as int;
        let mut totals: Vec<Scalar> = Vec::with_capacity(self.spans.len());
        let mut k: usize = 0;
        while k < self.spans.len()
            invariant
                k <= self.spans.len(),
                self.spans@ == spans0,
                self.rows() == rows,
                self.films@.len() == n,
                span::partition(spans0, n),
                arith::accepts_pairs(*plus),
                totals.len() == k,
                forall|j: int|
                    0 <= j < k ==> arith::folds(
                        *plus,
                        structure::thicknesses(
                            rows.subrange(spans0[j].start as int, spans0[j].end as int),
                        ),
                        #[trigger] totals@[j],
                    ),
            decreases self.spans.len() - k,
        {
            let sp: Span = self.spans[k];
            proof {
                span::laid_bounds(spans0, 0, n, k as int);
            }
            let ds: Vec<Scalar> = row_thicknesses(&self.films, sp.start, sp.end);
            totals.push(arith::fold(plus, &ds));
            k += 1;
        }
        assert(span_totals(*plus, spans0, rows, totals@));
        let mut j: usize = 0;
        while j < self.spans.len()
            invariant
                j <= self.spans.len() == totals.len(),
                exempt@.len() == spans0.len(),
                self.spans@ == spans0,
                self.rows() == rows,
                self.films@.len() == n,
                span::partition(spans0, n),
                forall|i: int| 0 <= i < j ==> !#[trigger] too_thick(spans0, totals@, lim, i),
                span_totals(*plus, spans0, rows, totals@),
                *self == *old(self),
                lim == (Limits { min: min_nm, max: max_nm, clamp_up, exempt: exempt@ }),
            decreases self.spans.len() - j,
        {
            let sp: Span = self.spans[j];
            proof {
                span::laid_bounds(spans0, 0, n, j as int);
            }
            if !exempt[j] && sp.end - sp.start > 1 && totals[j].gt(max_nm) {
                let e: StackError = StackError::SpanAboveCeiling {
                    material: self.films[sp.start].material.clone(),
                    d_nm: totals[j],
                    max_nm,
                };
                proof {
                    assert(rows[sp.start as int] == self.films@[sp.start as int]@);
                    assert(too_thick(spans0, totals@, lim, j as int));
                    assert(self.unchanged(old(self)));
                    assert(too_thick(old(self).span_seq(), totals@, lim, j as int));
                    assert(e matches StackError::SpanAboveCeiling { material, d_nm, max_nm } && material@
                        == rows[spans0[j as int].start as int].material && d_nm == totals@[j as int] && max_nm
                        == lim.max);
                    assert(clamped(*one_decimal, old(self), self, totals@, lim, Err(e)));
                }
                return Err(e);
            }
            assert(!too_thick(spans0, totals@, lim, j as int));
            j += 1;
        }
        let mut films: Vec<LayerSpec> = Vec::new();
        let mut spans: Vec<Span> = Vec::new();
        let mut report: ClampReport = ClampReport::default();
        j = 0;
        while j < self.spans.len()
            invariant
                j <= self.spans.len() == totals.len(),
                exempt@.len() == spans0.len(),
                self.spans@ == spans0,
                self.rows() == rows,
                self.films@.len() == n,
                n <= usize::MAX,
                rows.len() == n,
                span::partition(spans0, n),
                span_totals(*plus, spans0, rows, totals@),
                forall|x: Scalar| #[trigger] call_requires(*one_decimal, (x,)),
                lim == (Limits { min: min_nm, max: max_nm, clamp_up, exempt: exempt@ }),
                structure::layer_views(films@) == rows_after_clamp(
                    spans0,
                    rows,
                    totals@,
                    lim,
                    j as int,
                ),
                spans@ == spans_after_clamp(spans0, rows, totals@, lim, j as int),
                report.spans_removed@.len() == removed_spans(spans0, totals@, lim, j as int).len(),
                forall|q: int|
                    0 <= q < report.spans_removed@.len() ==> describes(
                        *one_decimal,
                        spans0,
                        rows,
                        totals@,
                        removed_spans(spans0, totals@, lim, j as int)[q],
                        (#[trigger] report.spans_removed@[q])@,
                    ),
                report.spans_capped == capped_count(spans0, totals@, lim, j as int),
                report.spans_capped <= j,
                report.rows_removed == span::begin(spans0, 0, j as int) - surviving_rows(
                    spans0,
                    totals@,
                    lim,
                    j as int,
                ),
            decreases self.spans.len() - j,
        {
            let sp: Span = self.spans[j];
            let total: Scalar = totals[j];
            let ghost before = films@;
            proof {
                span::laid_bounds(spans0, 0, n, j as int);
                assert(sp.well_formed());
                assert(sp.start == span::begin(spans0, 0, j as int));
                clamp_keeps_layout(spans0, rows, totals@, lim, j as int);
                assert(rows[sp.start as int] == self.films@[sp.start as int]@);
            }
            let one_row: bool = sp.end - sp.start == 1;
            let free: bool = exempt[j];
            let p: usize = films.len();
            assert(p == structure::layer_views(films@).len());
            if !free && total.lt(min_nm) && !(clamp_up && one_row) {
                let t: String = one_decimal(total);
                let s: String = self.films[sp.start].material.clone().concat(" (").concat(
                    t.as_str(),
                ).concat(" nm)");
                assert(describes(*one_decimal, spans0, rows, totals@, j as int, s@));
                report.spans_removed.push(s);
                report.rows_removed = report.rows_removed + (sp.end - sp.start);
                assert(rows_after_clamp(spans0, rows, totals@, lim, j + 1)
                    =~= rows_after_clamp(spans0, rows, totals@, lim, j as int));
            } else {
                if !free && total.lt(min_nm) {
                    let row: LayerSpec = self.films[sp.start].cloned_at(min_nm);
                    films.push(row);
                    assert(structure::layer_views(films@) =~= structure::layer_views(before).push(
                        row@,
                    ));
                } else if !free && one_row && total.gt(max_nm) {
                    let row: LayerSpec = self.films[sp.start].cloned_at(max_nm);
                    films.push(row);
                    report.spans_capped = report.spans_capped + 1;
                    assert(structure::layer_views(films@) =~= structure::layer_views(before).push(
                        row@,
                    ));
                } else {
                    let mut kept: Vec<LayerSpec> = clone_rows(&self.films, sp.start, sp.end);
                    let ghost kept0 = kept@;
                    films.append(&mut kept);
                    assert(structure::layer_views(films@) =~= structure::layer_views(before)
                        + structure::layer_views(kept0));
                }
                assert(structure::layer_views(films@) =~= rows_after_clamp(
                    spans0,
                    rows,
                    totals@,
                    lim,
                    j + 1,
                ));
                let bulk_start: usize = if sp.slice {
                    p + 1
                } else {
                    p
                };
                let end: usize = p + (sp.end - sp.start);
                spans.push(
                    Span { start: p, end, logical: sp.logical, slice: sp.slice, bulk_start },
                );
                assert(spans@.last() == sp.moved(p - sp.start));
            }
            j += 1;
        }
        proof {
            clamp_keeps_layout(spans0, rows, totals@, lim, spans0.len() as int);
        }
        self.films = films;
        self.spans = spans;
        proof {
            if old(self).gridded() {
                clamp_keeps_grid(spans0, rows, totals@, lim, spans0.len() as int, self.grid_len());
            }
            assert(clamped(*one_decimal, old(self), self, totals@, lim, Ok(report)));
        }
        Ok(report)
    }
}

proof fn clamp_keeps_grid(
    spans: Seq<Span>,
    rows: Seq<LayerView>,
    totals: Seq<Scalar>,
    lim: Limits,
    j: int,
    grid: usize,
)
    requires
        span::partition(spans, rows.len() as int),
        0 <= j <= spans.len(),
        forall|i: int| 0 <= i < rows.len() ==> (#[trigger] rows[i]).nk.len() == grid,
    ensures
        ({
            let out = rows_after_clamp(spans, rows, totals, lim, j);
            forall|i: int| 0 <= i < out.len() ==> (#[trigger] out[i]).nk.len() == grid
        }),
    decreases j,
{
    if j > 0 {
        clamp_keeps_grid(spans, rows, totals, lim, j - 1, grid);
        span::laid_bounds(spans, 0, rows.len() as int, j - 1);
        let before = rows_after_clamp(spans, rows, totals, lim, j - 1);
        let sp = spans[j - 1];
        let piece = clamped_rows(
            sp,
            rows,
            fate_of(spans, totals, lim, j - 1),
            lim.min,
            lim.max,
        );
        assert forall|i: int| 0 <= i < piece.len() implies (#[trigger] piece[i]).nk.len()
            == grid by {
            assert(rows[sp.start + i].nk.len() == grid);
        }
        let out = rows_after_clamp(spans, rows, totals, lim, j);
        assert forall|i: int| 0 <= i < out.len() implies (#[trigger] out[i]).nk.len() == grid by {
            if i >= before.len() {
                assert(out[i] == piece[i - before.len()]);
            } else {
                assert(out[i] == before[i]);
            }
        }
    }
}

/// Reports add up: an empty report changes nothing, and the order of grouping
/// does not matter.
pub proof fn reports_add_up(a: ClampReport, b: ClampReport, c: ClampReport)
    ensures
        (a.spans_removed@ + b.spans_removed@) + c.spans_removed@ == a.spans_removed@ + (
        b.spans_removed@ + c.spans_removed@),
        b.spans_removed@.len() == 0 ==> a.spans_removed@ + b.spans_removed@ == a.spans_removed@,
{
    assert((a.spans_removed@ + b.spans_removed@) + c.spans_removed@ =~= a.spans_removed@ + (
    b.spans_removed@ + c.spans_removed@));
    if b.spans_removed@.len() == 0 {
        assert(a.spans_removed@ + b.spans_removed@ =~= a.spans_removed@);
    }
}

} // verus!
