//! The clamp pass of a run: as everywhere, but a profile that takes part in the
//! optimization is scaled to a bound instead of refused or removed.
use crate::arith;
use crate::pipeline;
use crate::pipeline::ThinLayerPolicy;
use crate::scalar;
use crate::scalar::Scalar;
use crate::structure;
use crate::structure::clamp;
use crate::structure::clamp::{ClampReport, Limits};
use crate::structure::refusal::StackError;
use crate::structure::span;
use crate::structure::span::Span;
use crate::structure::{row_thicknesses, DesignStack, LayerSpec, LayerView};
use vstd::prelude::*;

verus! {

/// The bound a span is scaled to: a profile of several rows, all of them part
/// of the optimization, comes down to the ceiling, and up to the floor where
/// thin films are raised.
pub open spec fn stretch(
    sp: Span,
    rows: Seq<LayerView>,
    total: Scalar,
    min: Scalar,
    max: Scalar,
    clamp_up: bool,
) -> Option<Scalar> {
    if !sp.multi_row() || !pipeline::scalable(rows, sp) {
        None
    } else if scalar::less(max, total) {
        Some(max)
    } else if clamp_up && scalar::less(total, min) {
        Some(min)
    } else {
        None
    }
}

/// The bounds to which the spans are scaled, span by span.
pub open spec fn stretches(
    spans: Seq<Span>,
    rows: Seq<LayerView>,
    totals: Seq<Scalar>,
    min: Scalar,
    max: Scalar,
    clamp_up: bool,
) -> Seq<Option<Scalar>> {
    Seq::new(
        spans.len(),
        |k: int| stretch(spans[k], rows, totals[k], min, max, clamp_up),
    )
}

/// Row `i` of a span, scaled if its span is.
pub open spec fn row_scaled<S: Fn(Scalar, Scalar, Scalar) -> Scalar>(
    scale: S,
    row: LayerView,
    to: Option<Scalar>,
    total: Scalar,
    out: LayerView,
) -> bool {
    match to {
        None => out == row,
        Some(bound) => {
            &&& call_ensures(scale, (row.d_nm, bound, total), out.d_nm)
            &&& out == row.at(out.d_nm)
        },
    }
}

/// The rows of span `k` are scaled if the span is.
pub open spec fn span_scaled<S: Fn(Scalar, Scalar, Scalar) -> Scalar>(
    scale: S,
    sp: Span,
    rows: Seq<LayerView>,
    to: Option<Scalar>,
    total: Scalar,
    out: Seq<LayerView>,
) -> bool {
    forall|i: int|
        sp.start <= i < sp.end ==> row_scaled(scale, rows[i], to, total, #[trigger] out[i])
}

/// `mid` is `before` with the rows of the stretched spans scaled.
pub open spec fn scaled<S: Fn(Scalar, Scalar, Scalar) -> Scalar>(
    scale: S,
    before: &DesignStack,
    mid: &DesignStack,
    totals: Seq<Scalar>,
    tos: Seq<Option<Scalar>>,
) -> bool {
    &&& mid.wf()
    &&& mid.same_frame(before)
    &&& mid.span_seq() == before.span_seq()
    &&& mid.rows().len() == before.rows().len()
    &&& forall|k: int|
        0 <= k < tos.len() ==> span_scaled(
            scale,
            before.span_seq()[k],
            before.rows(),
            #[trigger] tos[k],
            totals[k],
            mid.rows(),
        )
}

/// How many of the first `n` spans came down to the ceiling.
pub open spec fn lowered(
    totals: Seq<Scalar>,
    tos: Seq<Option<Scalar>>,
    max: Scalar,
    n: int,
) -> int
    decreases n,
{
    if n <= 0 {
        0
    } else {
        lowered(totals, tos, max, n - 1) + (if tos[n - 1] is Some && scalar::less(
            max,
            totals[n - 1],
        ) {
            1int
        } else {
            0int
        })
    }
}

/// A report with more capped spans.
pub open spec fn with_capped(r: ClampReport, base: ClampReport, more: int) -> bool {
    &&& r.spans_removed@ == base.spans_removed@
    &&& r.rows_removed == base.rows_removed
    &&& r.spans_capped == base.spans_capped + more
}

/// What a clamp pass of a run ends in: the stretched spans are scaled, the
/// others clamped. A refusal leaves the stack as it was.
pub open spec fn policed<
    P: Fn(Scalar, Scalar) -> Scalar,
    S: Fn(Scalar, Scalar, Scalar) -> Scalar,
    F: Fn(Scalar) -> String,
>(
    plus: P,
    scale: S,
    one_decimal: F,
    before: &DesignStack,
    after: &DesignStack,
    totals: Seq<Scalar>,
    min: Scalar,
    max: Scalar,
    clamp_up: bool,
    r: Result<ClampReport, StackError>,
) -> bool {
    let tos = stretches(before.span_seq(), before.rows(), totals, min, max, clamp_up);
    let lim = Limits { min, max, clamp_up, exempt: tos.map_values(|t: Option<Scalar>| t is Some) };
    exists|mid: DesignStack, end: DesignStack, others: Seq<Scalar>, base: Result<ClampReport, StackError>|
        {
            &&& #[trigger] scaled(scale, before, &mid, totals, tos)
            &&& clamp::span_totals(plus, mid.span_seq(), mid.rows(), others)
            &&& #[trigger] clamp::clamped(one_decimal, &mid, &end, others, lim, base)
            &&& match (base, r) {
                (Ok(b), Ok(report)) => {
                    &&& after.unchanged(&end)
                    &&& with_capped(report, b, lowered(totals, tos, max, tos.len() as int))
                },
                (Err(b), Err(e)) => b == e && after.unchanged(before),
                _ => false,
            }
        }
}

proof fn capped_and_lowered(
    spans: Seq<Span>,
    others: Seq<Scalar>,
    lim: Limits,
    totals: Seq<Scalar>,
    tos: Seq<Option<Scalar>>,
    n: int,
)
    requires
        0 <= n <= spans.len(),
        tos.len() == spans.len(),
        lim.exempt == tos.map_values(|t: Option<Scalar>| t is Some),
    ensures
        0 <= lowered(totals, tos, lim.max, n),
        clamp::capped_count(spans, others, lim, n) + lowered(totals, tos, lim.max, n) <= n,
    decreases n,
{
    if n > 0 {
        capped_and_lowered(spans, others, lim, totals, tos, n - 1);
        assert(lim.exempt[n - 1] == (tos[n - 1] is Some));
    }
}

/// A clamp pass of a run over `before` gives `r` and leaves `after`.
pub open spec fn sweep_gives<
    P: Fn(Scalar, Scalar) -> Scalar,
    S: Fn(Scalar, Scalar, Scalar) -> Scalar,
    F: Fn(Scalar) -> String,
>(
    plus: P,
    scale: S,
    one_decimal: F,
    before: &DesignStack,
    after: &DesignStack,
    min: Scalar,
    max: Scalar,
    clamp_up: bool,
    r: Result<ClampReport, StackError>,
) -> bool {
    exists|totals: Seq<Scalar>|
        {
            &&& #[trigger] clamp::span_totals(plus, before.span_seq(), before.rows(), totals)
            &&& policed(plus, scale, one_decimal, before, after, totals, min, max, clamp_up, r)
        }
}

impl DesignStack {
    /// Enforces `[min_nm, max_nm]` as a run does: like `clamp_all`, thin films
    /// raised as the policy says, but a profile of which every bulk row takes
    /// part in the optimization is scaled. Above the ceiling it comes down to
    /// the ceiling, which counts as capped; below the floor it goes up to the
    /// floor where thin films are raised. `scale` answers, for a thickness, a
    /// bound and the total, with the scaled thickness.
    pub fn clamp_all_policy<
        P: Fn(Scalar, Scalar) -> Scalar,
        S: Fn(Scalar, Scalar, Scalar) -> Scalar,
        F: Fn(Scalar) -> String,
    >(
        &mut self,
        min_nm: Scalar,
        max_nm: Scalar,
        policy: ThinLayerPolicy,
        final_pass: bool,
        plus: &P,
        scale: &S,
        one_decimal: &F,
    ) -> (r: Result<ClampReport, StackError>)
        requires
            old(self).wf(),
            scalar::at_most(Scalar::zero(), min_nm),
            scalar::less(min_nm, max_nm),
            arith::accepts_pairs(*plus),
            forall|d: Scalar, b: Scalar, t: Scalar| #[trigger] call_requires(*scale, (d, b, t)),
            forall|x: Scalar| #[trigger] call_requires(*one_decimal, (x,)),
        ensures
            final(self).wf(),
            final(self).same_frame(old(self)),
            sweep_gives(
                *plus,
                *scale,
                *one_decimal,
                old(self),
                final(self),
                min_nm,
                max_nm,
                policy.raises(final_pass),
                r,
            ),
    {
        let clamp_up: bool = policy.clamps_up(final_pass);
        self.sweep(min_nm, max_nm, clamp_up, plus, scale, one_decimal)
    }

    /// The clamp pass of a run, told whether thin films are raised.
    #[verifier::rlimit(60)]
    pub fn sweep<
        P: Fn(Scalar, Scalar) -> Scalar,
        S: Fn(Scalar, Scalar, Scalar) -> Scalar,
        F: Fn(Scalar) -> String,
    >(
        &mut self,
        min_nm: Scalar,
        max_nm: Scalar,
        clamp_up: bool,
        plus: &P,
        scale: &S,
        one_decimal: &F,
    ) -> (r: Result<ClampReport, StackError>)
        requires
            old(self).wf(),
            scalar::at_most(Scalar::zero(), min_nm),
            scalar::less(min_nm, max_nm),
            arith::accepts_pairs(*plus),
            forall|d: Scalar, b: Scalar, t: Scalar| #[trigger] call_requires(*scale, (d, b, t)),
            forall|x: Scalar| #[trigger] call_requires(*one_decimal, (x,)),
        ensures
            final(self).wf(),
            final(self).same_frame(old(self)),
            sweep_gives(
                *plus,
                *scale,
                *one_decimal,
                old(self),
                final(self),
                min_nm,
                max_nm,
                clamp_up,
                r,
            ),
    {
        let ghost start = *self;
        let ghost spans0 = self.span_seq();
        let ghost rows0 = self.rows();
        let before: DesignStack = self.cloned();
        let n: usize = before.spans().len();
        let mut totals: Vec<Scalar> = Vec::with_capacity(n);
        let mut tos: Vec<Option<Scalar>> = Vec::with_capacity(n);
        let mut exempt: Vec<bool> = Vec::with_capacity(n);
        let mut more: usize = 0;
        let mut k: usize = 0;
        while k < n
            invariant
                before.wf(),
                before.unchanged(&start),
                before.span_seq() == spans0,
                before.rows() == rows0,
                n == spans0.len(),
                span::partition(spans0, rows0.len() as int),
                self.wf(),
                self.same_frame(&start),
                self.span_seq() == spans0,
                self.rows().len() == rows0.len(),
                arith::accepts_pairs(*plus),
                forall|d: Scalar, b: Scalar, t: Scalar| #[trigger] call_requires(*scale, (d, b, t)),
                k <= n,
                totals@.len() == k,
                tos@.len() == k,
                exempt@.len() == k,
                more <= k,
                more == lowered(totals@, tos@, max_nm, k as int),
                forall|j: int|
                    0 <= j < k ==> arith::folds(
                        *plus,
                        structure::thicknesses(
                            rows0.subrange(spans0[j].start as int, spans0[j].end as int),
                        ),
                        #[trigger] totals@[j],
                    ),
                forall|j: int|
                    0 <= j < k ==> (#[trigger] tos@[j]) == stretch(
                        spans0[j],
                        rows0,
                        totals@[j],
                        min_nm,
                        max_nm,
                        clamp_up,
                    ),
                forall|j: int| 0 <= j < k ==> (#[trigger] exempt@[j]) == (tos@[j] is Some),
                forall|j: int|
                    0 <= j < k ==> span_scaled(
                        *scale,
                        spans0[j],
                        rows0,
                        #[trigger] tos@[j],
                        totals@[j],
                        self.rows(),
                    ),
                forall|i: int|
                    span::begin(spans0, 0, k as int) <= i < rows0.len()
                        ==> #[trigger] self.rows()[i] == rows0[i],
            decreases n - k,
        {
            let sp: Span = before.spans()[k];
            proof {
                span::laid_bounds(spans0, 0, rows0.len() as int, k as int);
                assert(sp.start == span::begin(spans0, 0, k as int));
            }
            let ds: Vec<Scalar> = row_thicknesses(before.films(), sp.start, sp.end);
            let total: Scalar = arith::fold(plus, &ds);
            let to: Option<Scalar> = if sp.end - sp.start <= 1 || !before.span_is_scalable(&sp) {
                None
            } else if total.gt(max_nm) {
                Some(max_nm)
            } else if clamp_up && total.lt(min_nm) {
                Some(min_nm)
            } else {
                None
            };
            let ghost rows1 = self.rows();
            let ghost tos1 = tos@;
            let ghost totals1 = totals@;
            if let Some(bound) = to {
                self.scale_rows(&before, &sp, bound, total, scale);
                if total.gt(max_nm) {
                    more = more + 1;
                }
            }
            totals.push(total);
            tos.push(to);
            exempt.push(to.is_some());
            proof {
                lowered_so_far(totals1, tos1, totals@, tos@, max_nm, k as int);
                assert forall|j: int| 0 <= j < k implies span_scaled(
                    *scale,
                    spans0[j],
                    rows0,
                    #[trigger] tos@[j],
                    totals@[j],
                    self.rows(),
                ) by {
                    assert(tos@[j] == tos1[j] && totals@[j] == totals1[j]);
                    span::laid_bounds(spans0, 0, rows0.len() as int, j);
                    span::laid_ordered(spans0, 0, rows0.len() as int, j, k as int);
                    assert forall|i: int| spans0[j].start <= i < spans0[j].end implies row_scaled(
                        *scale,
                        rows0[i],
                        tos@[j],
                        totals@[j],
                        #[trigger] self.rows()[i],
                    ) by {
                        assert(self.rows()[i] == rows1[i]);
                    }
                }
                assert(span_scaled(*scale, sp, rows0, to, total, self.rows()));
            }
            k += 1;
        }
        let ghost mid = *self;
        let ghost clamp_lim = Limits { min: min_nm, max: max_nm, clamp_up, exempt: exempt@ };
        proof {
            assert(tos@ =~= stretches(spans0, rows0, totals@, min_nm, max_nm, clamp_up));
            assert(exempt@ =~= tos@.map_values(|t: Option<Scalar>| t is Some));
            assert(clamp::span_totals(*plus, spans0, rows0, totals@));
            assert(scaled(*scale, &start, &mid, totals@, tos@));
        }
        let base: Result<ClampReport, StackError> = self.clamp_others(
            min_nm,
            max_nm,
            clamp_up,
            &exempt,
            plus,
            one_decimal,
        );
        let ghost end = *self;
        let ghost others = choose|others: Seq<Scalar>|
            {
                &&& #[trigger] clamp::span_totals(*plus, mid.span_seq(), mid.rows(), others)
                &&& clamp::clamped(*one_decimal, &mid, &end, others, clamp_lim, base)
            };
        assert(clamp::clamped(*one_decimal, &mid, &end, others, clamp_lim, base));
        match base {
            Err(e) => {
                *self = before;
                Err(e)
            },
            Ok(b) => {
                proof {
                    capped_and_lowered(spans0, others, clamp_lim, totals@, tos@, n as int);
                }
                Ok(
                    ClampReport {
                        spans_removed: b.spans_removed,
                        spans_capped: b.spans_capped + more,
                        rows_removed: b.rows_removed,
                    },
                )
            },
        }
    }

    /// Scales the rows of a span.
    fn scale_rows<S: Fn(Scalar, Scalar, Scalar) -> Scalar>(
        &mut self,
        before: &DesignStack,
        sp: &Span,
        bound: Scalar,
        total: Scalar,
        scale: &S,
    )
        requires
            old(self).wf(),
            sp.start <= sp.end <= before.rows().len(),
            old(self).rows().len() == before.rows().len(),
            forall|i: int|
                sp.start <= i < sp.end ==> #[trigger] old(self).rows()[i] == before.rows()[i],
            forall|d: Scalar, b: Scalar, t: Scalar| #[trigger] call_requires(*scale, (d, b, t)),
        ensures
            final(self).wf(),
            final(self).same_frame(old(self)),
            final(self).span_seq() == old(self).span_seq(),
            final(self).rows().len() == old(self).rows().len(),
            forall|i: int|
                0 <= i < old(self).rows().len() && !(sp.start <= i < sp.end)
                    ==> #[trigger] final(self).rows()[i] == old(self).rows()[i],
            span_scaled(*scale, *sp, before.rows(), Some(bound), total, final(self).rows()),
    {
        let films: &Vec<LayerSpec> = before.films();
        let mut i: usize = sp.start;
        while i < sp.end
            invariant
                self.wf(),
                self.same_frame(old(self)),
                self.span_seq() == old(self).span_seq(),
                structure::layer_views(films@) == before.rows(),
                self.rows().len() == old(self).rows().len() == before.rows().len(),
                sp.start <= i <= sp.end <= before.rows().len(),
                forall|d: Scalar, b: Scalar, t: Scalar| #[trigger] call_requires(*scale, (d, b, t)),
                forall|j: int|
                    sp.start <= j < sp.end ==> #[trigger] old(self).rows()[j] == before.rows()[j],
                forall|j: int|
                    0 <= j < old(self).rows().len() && !(sp.start <= j < i)
                        ==> #[trigger] self.rows()[j] == old(self).rows()[j],
                forall|j: int|
                    sp.start <= j < i ==> row_scaled(
                        *scale,
                        before.rows()[j],
                        Some(bound),
                        total,
                        #[trigger] self.rows()[j],
                    ),
            decreases sp.end - i,
        {
            let ghost was = self.rows();
            assert(before.rows()[i as int] == films@[i as int]@);
            assert(was[i as int] == old(self).rows()[i as int]);
            let d: Scalar = scale(films[i].d_nm, bound, total);
            let _set: Result<(), StackError> = self.set_thickness(i, d);
            assert(self.rows() == was.update(i as int, was[i as int].at(d)));
            i += 1;
        }
    }
}

/// On a stack without such profiles the clamp pass of a run is a plain one.
pub proof fn plain_films_are_clamped_plainly<
    P: Fn(Scalar, Scalar) -> Scalar,
    S: Fn(Scalar, Scalar, Scalar) -> Scalar,
    F: Fn(Scalar) -> String,
>(
    plus: P,
    scale: S,
    one_decimal: F,
    before: &DesignStack,
    after: &DesignStack,
    totals: Seq<Scalar>,
    min: Scalar,
    max: Scalar,
    clamp_up: bool,
    r: Result<ClampReport, StackError>,
)
    requires
        before.wf(),
        policed(plus, scale, one_decimal, before, after, totals, min, max, clamp_up, r),
        forall|k: int|
            0 <= k < before.span_seq().len() ==> {
                let sp = #[trigger] before.span_seq()[k];
                !sp.multi_row() || !pipeline::scalable(before.rows(), sp)
            },
    ensures
        exists|others: Seq<Scalar>|
            {
                &&& #[trigger] clamp::span_totals(plus, before.span_seq(), before.rows(), others)
                &&& clamp::clamped(
                    one_decimal,
                    before,
                    after,
                    others,
                    clamp::bounds(min, max, clamp_up, before.span_seq().len()),
                    r,
                )
            },
{
    let spans = before.span_seq();
    let rows = before.rows();
    let tos = stretches(spans, rows, totals, min, max, clamp_up);
    let lim = Limits { min, max, clamp_up, exempt: tos.map_values(|t: Option<Scalar>| t is Some) };
    let plain = clamp::bounds(min, max, clamp_up, spans.len());
    assert(lim.exempt =~= plain.exempt);
    let (mid, end, others, base) = choose|
        mid: DesignStack,
        end: DesignStack,
        others: Seq<Scalar>,
        base: Result<ClampReport, StackError>,
    |
        {
            &&& #[trigger] scaled(scale, before, &mid, totals, tos)
            &&& clamp::span_totals(plus, mid.span_seq(), mid.rows(), others)
            &&& #[trigger] clamp::clamped(one_decimal, &mid, &end, others, lim, base)
            &&& match (base, r) {
                (Ok(b), Ok(report)) => {
                    &&& after.unchanged(&end)
                    &&& with_capped(report, b, lowered(totals, tos, max, tos.len() as int))
                },
                (Err(b), Err(e)) => b == e && after.unchanged(before),
                _ => false,
            }
        };
    assert forall|i: int| 0 <= i < rows.len() implies mid.rows()[i] == rows[i] by {
        span::partition_covers(spans, rows.len() as int, i);
        let k = choose|k: int| 0 <= k < spans.len() && (#[trigger] spans[k]).holds(i);
        assert(span_scaled(scale, spans[k], rows, tos[k], totals[k], mid.rows()));
    }
    assert(mid.rows() =~= rows);
    none_lowered(totals, tos, max, tos.len() as int);
    assert(clamp::span_totals(plus, spans, rows, others));
    assert(clamp::clamped(one_decimal, before, after, others, plain, r));
}

proof fn none_lowered(totals: Seq<Scalar>, tos: Seq<Option<Scalar>>, max: Scalar, n: int)
    requires
        0 <= n <= tos.len(),
        forall|k: int| 0 <= k < tos.len() ==> (#[trigger] tos[k]) is None,
    ensures
        lowered(totals, tos, max, n) == 0,
    decreases n,
{
    if n > 0 {
        none_lowered(totals, tos, max, n - 1);
        assert(tos[n - 1] is None);
    }
}

proof fn lowered_so_far(
    totals1: Seq<Scalar>,
    tos1: Seq<Option<Scalar>>,
    totals: Seq<Scalar>,
    tos: Seq<Option<Scalar>>,
    max: Scalar,
    n: int,
)
    requires
        0 <= n <= totals1.len(),
        totals1.len() == tos1.len(),
        totals1.len() <= totals.len(),
        tos1.len() <= tos.len(),
        forall|j: int| 0 <= j < totals1.len() ==> totals[j] == totals1[j],
        forall|j: int| 0 <= j < tos1.len() ==> tos[j] == tos1[j],
    ensures
        lowered(totals, tos, max, n) == lowered(totals1, tos1, max, n),
    decreases n,
{
    if n > 0 {
        lowered_so_far(totals1, tos1, totals, tos, max, n - 1);
    }
}

} // verus!
