//! Which sensitivity rows a simulation cannot cover.
use crate::merit::plan;
use crate::merit::plan::KeyPlan;
use crate::merit::residuals;
use crate::merit::sensitivity;
use crate::merit::sensitivity::CurveTerm;
use crate::merit::sim::SimCurves;
use crate::merit::spec;
use crate::merit::spec::{MeritSpec, MeritTarget};
use crate::numeric::Numeric;
use crate::optics::Optics;
use vstd::prelude::*;

verus! {

/// Row `i` is one of frame `g`, the first row of the first frame being `base`.
pub open spec fn in_frame(
    ts: Seq<MeritTarget>,
    frames: Seq<int>,
    base: int,
    g: int,
    i: int,
) -> bool {
    base + plan::rows_of_frames(ts, frames, g) <= i < base + plan::rows_of_frames(
        ts,
        frames,
        g + 1,
    )
}

/// Row `i` belongs to a phase frame of key group `k`.
pub open spec fn phase_row(spec: &MeritSpec, sim: &SimCurves, k: int, i: int) -> bool {
    let ts = spec.target_seq();
    let frames = plan::frames_of(ts, sim.wavelengths@, k, ts.len() as int);
    let base = residuals::rows_of_keys(spec, sim, k) as int;
    exists|g: int|
        0 <= g < frames.len() && ts[frames[g]].phase && #[trigger] in_frame(
            ts,
            frames,
            base,
            g,
            i,
        )
}

/// Row `i` belongs to a color demand of key group `k`.
pub open spec fn color_row(spec: &MeritSpec, sim: &SimCurves, k: int, i: int) -> bool {
    let ts = spec.target_seq();
    let frames = plan::frames_of(ts, sim.wavelengths@, k, ts.len() as int);
    let from = residuals::rows_of_keys(spec, sim, k) + plan::rows_of_frames(
        ts,
        frames,
        frames.len() as int,
    );
    from <= i < from + plan::colors_of(spec.color_seq(), k, spec.color_seq().len() as int).len()
}

/// Row `i` is of a phase frame or a color demand of key group `k`.
pub open spec fn unseen_in(spec: &MeritSpec, sim: &SimCurves, k: int, i: int) -> bool {
    phase_row(spec, sim, k, i) || color_row(spec, sim, k, i)
}

/// Row `i` is of a phase frame or a color demand of one of the first `n` key
/// groups.
pub open spec fn unseen(spec: &MeritSpec, sim: &SimCurves, n: int, i: int) -> bool {
    exists|k: int| 0 <= k < n && #[trigger] unseen_in(spec, sim, k, i)
}

proof fn numbers_hold(from: int, n: nat, i: usize)
    requires
        0 <= from,
        from + n <= usize::MAX,
    ensures
        sensitivity::numbers(from, n).contains(i) <==> from <= i < from + n,
{
    let s = sensitivity::numbers(from, n);
    if from <= i < from + n {
        assert(s[i - from] == i);
    }
}

proof fn concat_holds(a: Seq<usize>, b: Seq<usize>, i: usize)
    ensures
        (a + b).contains(i) <==> a.contains(i) || b.contains(i),
{
    if a.contains(i) {
        let j = choose|j: int| 0 <= j < a.len() && a[j] == i;
        assert((a + b)[j] == i);
    }
    if b.contains(i) {
        let j = choose|j: int| 0 <= j < b.len() && b[j] == i;
        assert((a + b)[a.len() + j] == i);
    }
}

spec fn unseen_frame(
    ts: Seq<MeritTarget>,
    frames: Seq<int>,
    base: int,
    n: int,
    i: int,
) -> bool {
    exists|g: int|
        0 <= g < n && ts[frames[g]].phase && #[trigger] in_frame(ts, frames, base, g, i)
}

proof fn frames_hold(ts: Seq<MeritTarget>, frames: Seq<int>, base: int, n: int, i: usize)
    requires
        0 <= n <= frames.len(),
        0 <= base,
        base + plan::rows_of_frames(ts, frames, n) <= usize::MAX,
    ensures
        sensitivity::uncovered_frames(ts, frames, base, n).contains(i) <==> unseen_frame(
            ts,
            frames,
            base,
            n,
            i as int,
        ),
    decreases n,
{
    if n > 0 {
        frames_hold(ts, frames, base, n - 1, i);
        let t = ts[frames[n - 1]];
        let from = base + plan::rows_of_frames(ts, frames, n - 1);
        let before = sensitivity::uncovered_frames(ts, frames, base, n - 1);
        let more = sensitivity::numbers(from, spec::target_rows(t));
        numbers_hold(from, spec::target_rows(t), i);
        concat_holds(before, more, i);
        if t.phase && in_frame(ts, frames, base, n - 1, i as int) {
            assert(unseen_frame(ts, frames, base, n, i as int));
        }
        if unseen_frame(ts, frames, base, n - 1, i as int) {
            let g = choose|g: int|
                0 <= g < n - 1 && ts[frames[g]].phase && #[trigger] in_frame(
                    ts,
                    frames,
                    base,
                    g,
                    i as int,
                );
            assert(in_frame(ts, frames, base, g, i as int));
        }
        if unseen_frame(ts, frames, base, n, i as int) {
            let g = choose|g: int|
                0 <= g < n && ts[frames[g]].phase && #[trigger] in_frame(
                    ts,
                    frames,
                    base,
                    g,
                    i as int,
                );
            assert(in_frame(ts, frames, base, g, i as int));
        }
    }
}

/// The uncovered rows are exactly those of phase frames and color demands.
pub proof fn uncovered_rows_are_the_unseen_ones(
    spec: &MeritSpec,
    sim: &SimCurves,
    n: int,
    i: usize,
)
    requires
        0 <= n,
        residuals::rows_of_keys(spec, sim, n) <= usize::MAX,
    ensures
        sensitivity::uncovered_keys(spec, sim, n).contains(i) <==> unseen(
            spec,
            sim,
            n,
            i as int,
        ),
    decreases n,
{
    if n > 0 {
        let k = n - 1;
        uncovered_rows_are_the_unseen_ones(spec, sim, k, i);
        let ts = spec.target_seq();
        let frames = plan::frames_of(ts, sim.wavelengths@, k, ts.len() as int);
        let base = residuals::rows_of_keys(spec, sim, k) as int;
        let m = frames.len() as int;
        let from = base + plan::rows_of_frames(ts, frames, m);
        let c = plan::colors_of(spec.color_seq(), k, spec.color_seq().len() as int).len();
        assert(residuals::rows_of_keys(spec, sim, n) == base + plan::key_rows(spec, sim, k));
        frames_hold(ts, frames, base, m, i);
        numbers_hold(from, c, i);
        concat_holds(
            sensitivity::uncovered_frames(ts, frames, base, m),
            sensitivity::numbers(from, c),
            i,
        );
        concat_holds(
            sensitivity::uncovered_keys(spec, sim, k),
            sensitivity::uncovered_of(spec, sim, k, base),
            i,
        );
        assert(unseen_frame(ts, frames, base, m, i as int) == phase_row(spec, sim, k, i as int));
        assert(sensitivity::uncovered_of(spec, sim, k, base).contains(i) == unseen_in(
            spec,
            sim,
            k,
            i as int,
        ));
        if unseen(spec, sim, k, i as int) {
            let j = choose|j: int| 0 <= j < k && #[trigger] unseen_in(spec, sim, j, i as int);
            assert(unseen_in(spec, sim, j, i as int));
        }
        if unseen(spec, sim, n, i as int) {
            let j = choose|j: int| 0 <= j < n && #[trigger] unseen_in(spec, sim, j, i as int);
            assert(unseen_in(spec, sim, j, i as int));
        }
    }
}

/// Where chunk `g` lies among the joined rows.
proof fn chunk_place(
    chunks: Seq<Seq<Seq<CurveTerm>>>,
    ts: Seq<MeritTarget>,
    frames: Seq<int>,
    n: int,
    g: int,
    j: int,
)
    requires
        0 <= g < n <= chunks.len(),
        chunks.len() <= frames.len(),
        forall|q: int|
            0 <= q < chunks.len() ==> (#[trigger] chunks[q]).len() == spec::target_rows(
                ts[frames[q]],
            ),
        0 <= j < chunks[g].len(),
    ensures
        sensitivity::rows_joined(chunks.take(n)).len() == plan::rows_of_frames(ts, frames, n),
        0 <= plan::rows_of_frames(ts, frames, g) + j < plan::rows_of_frames(ts, frames, n),
        sensitivity::rows_joined(chunks.take(n))[plan::rows_of_frames(ts, frames, g) + j]
            == chunks[g][j],
    decreases n,
{
    let c = chunks.take(n);
    assert(c.drop_last() =~= chunks.take(n - 1));
    assert(c.last() == chunks[n - 1]);
    chunk_total(chunks, ts, frames, n);
    chunk_total(chunks, ts, frames, n - 1);
    if g < n - 1 {
        chunk_place(chunks, ts, frames, n - 1, g, j);
    }
}

proof fn chunk_total(
    chunks: Seq<Seq<Seq<CurveTerm>>>,
    ts: Seq<MeritTarget>,
    frames: Seq<int>,
    n: int,
)
    requires
        0 <= n <= chunks.len(),
        chunks.len() <= frames.len(),
        forall|q: int|
            0 <= q < chunks.len() ==> (#[trigger] chunks[q]).len() == spec::target_rows(
                ts[frames[q]],
            ),
    ensures
        sensitivity::rows_joined(chunks.take(n)).len() == plan::rows_of_frames(ts, frames, n),
    decreases n,
{
    if n > 0 {
        chunk_total(chunks, ts, frames, n - 1);
        assert(chunks.take(n).drop_last() =~= chunks.take(n - 1));
        assert(chunks.take(n).last() == chunks[n - 1]);
    }
}

proof fn group_rows_are_empty<A: Numeric, O: Optics>(
    num: A,
    ph: O,
    spec: &MeritSpec,
    sim: &SimCurves,
    k: int,
    rows: Seq<Seq<CurveTerm>>,
    i: int,
)
    requires
        sensitivity::key_rows_are(num, ph, spec, sim, k, rows),
        unseen_in(spec, sim, k, i),
    ensures
        ({
            let at = i - residuals::rows_of_keys(spec, sim, k);
            0 <= at < rows.len() && rows[at].len() == 0
        }),
{
    let ts = spec.target_seq();
    let frames = plan::frames_of(ts, sim.wavelengths@, k, ts.len() as int);
    let base = residuals::rows_of_keys(spec, sim, k) as int;
    let m = frames.len() as int;
    let p = choose|p: KeyPlan|
        {
            &&& #[trigger] plan::planned(num, spec, sim, k, &p)
            &&& rows == sensitivity::rows_joined(
                sensitivity::chunks_of(num, ph, spec, sim, k, &p, p.frames@.len() as int),
            ) + Seq::new(p.colors@.len(), |i: int| Seq::<CurveTerm>::empty())
        };
    let chunks = sensitivity::chunks_of(num, ph, spec, sim, k, &p, m);
    assert forall|q: int| 0 <= q < chunks.len() implies (#[trigger] chunks[q]).len()
        == spec::target_rows(ts[frames[q]]) by {
        assert(p.frames@[q].target == frames[q]);
    }
    chunk_total(chunks, ts, frames, m);
    assert(chunks.take(m) =~= chunks);
    if phase_row(spec, sim, k, i) {
        let g = choose|g: int|
            0 <= g < frames.len() && ts[frames[g]].phase && #[trigger] in_frame(
                ts,
                frames,
                base,
                g,
                i,
            );
        let j = i - base - plan::rows_of_frames(ts, frames, g);
        assert(p.frames@[g].target == frames[g]);
        chunk_place(chunks, ts, frames, m, g, j);
        assert(chunks[g][j] == Seq::<CurveTerm>::empty());
    }
}

proof fn group_place<A: Numeric, O: Optics>(
    num: A,
    ph: O,
    spec: &MeritSpec,
    sim: &SimCurves,
    parts: Seq<Seq<Seq<CurveTerm>>>,
    n: int,
    k: int,
    at: int,
)
    requires
        sensitivity::all_rows_are(num, ph, spec, sim, parts),
        0 <= n <= parts.len(),
        0 <= k < parts.len(),
        0 <= at < parts[k].len(),
    ensures
        sensitivity::rows_joined(parts.take(n)).len() == residuals::rows_of_keys(spec, sim, n),
        k < n ==> 0 <= residuals::rows_of_keys(spec, sim, k) + at < residuals::rows_of_keys(
            spec,
            sim,
            n,
        ) && sensitivity::rows_joined(parts.take(n))[residuals::rows_of_keys(spec, sim, k) + at]
            == parts[k][at],
    decreases n,
{
    if n > 0 {
        group_place(num, ph, spec, sim, parts, n - 1, k, at);
        assert(parts.take(n).drop_last() =~= parts.take(n - 1));
        assert(parts.take(n).last() == parts[n - 1]);
        assert(sensitivity::key_rows_are(num, ph, spec, sim, n - 1, parts[n - 1]));
    }
}

/// An uncovered row has no terms.
pub proof fn uncovered_rows_are_empty<A: Numeric, O: Optics>(
    num: A,
    ph: O,
    spec: &MeritSpec,
    sim: &SimCurves,
    parts: Seq<Seq<Seq<CurveTerm>>>,
    i: usize,
)
    requires
        sensitivity::all_rows_are(num, ph, spec, sim, parts),
        residuals::rows_of_keys(spec, sim, spec.key_seq().len() as int) <= usize::MAX,
        sensitivity::uncovered_keys(spec, sim, spec.key_seq().len() as int).contains(i),
    ensures
        i < sensitivity::rows_joined(parts).len(),
        sensitivity::rows_joined(parts)[i as int].len() == 0,
{
    let n = spec.key_seq().len() as int;
    uncovered_rows_are_the_unseen_ones(spec, sim, n, i);
    let k = choose|k: int| 0 <= k < n && #[trigger] unseen_in(spec, sim, k, i as int);
    assert(sensitivity::key_rows_are(num, ph, spec, sim, k, parts[k]));
    group_rows_are_empty(num, ph, spec, sim, k, parts[k], i as int);
    let at = i - residuals::rows_of_keys(spec, sim, k);
    group_place(num, ph, spec, sim, parts, n, k, at);
    assert(parts.take(n) =~= parts);
}

} // verus!
