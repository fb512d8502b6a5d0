//! Frames whose grids lie side by side on a longer grid.
use crate::numeric::Numeric;
use crate::scalar::Scalar;
use crate::spectralweave::collection;
use crate::spectralweave::collection::Holdings;
use crate::spectralweave::frame;
use crate::spectralweave::key::{KeyView, OpticalKey};
use crate::spectralweave::plan;
use crate::spectralweave::plan::Taking;
use crate::spectralweave::roundtrip;
use crate::spectralweave::weaver;
use crate::spectralweave::weaver::WeaveFault;
use vstd::prelude::*;

verus! {

/// The part of frame `f` holds point `q`.
pub open spec fn part_holds(parts: Seq<Option<(int, int)>>, f: int, q: int) -> bool {
    parts[f] matches Some(part) && part.0 <= q < part.1
}

/// Some frame's part holds point `q`.
pub open spec fn held_by_some(parts: Seq<Option<(int, int)>>, q: int) -> bool {
    exists|f: int| 0 <= f < parts.len() && #[trigger] part_holds(parts, f, q)
}

/// The grid of frame `f` is its part of `full`, inside `lo..hi`; a frame
/// without a part lies apart from `full`.
pub open spec fn placed(
    grids: Seq<Seq<Scalar>>,
    full: Seq<Scalar>,
    parts: Seq<Option<(int, int)>>,
    lo: int,
    hi: int,
    f: int,
) -> bool {
    match parts[f] {
        Some(part) => lo <= part.0 < part.1 <= hi && grids[f] == full.subrange(part.0, part.1),
        None => plan::apart(full, grids[f]),
    }
}

/// The grids lie side by side on the points `lo..hi` of `full`, in any order,
/// without gaps and without points in common.
pub open spec fn side_by_side(
    grids: Seq<Seq<Scalar>>,
    full: Seq<Scalar>,
    parts: Seq<Option<(int, int)>>,
    lo: int,
    hi: int,
) -> bool {
    &&& parts.len() == grids.len()
    &&& 0 <= lo < hi <= full.len()
    &&& forall|f: int| 0 <= f < grids.len() ==> #[trigger] placed(grids, full, parts, lo, hi, f)
    &&& forall|f: int, g: int, q: int|
        0 <= f < parts.len() && 0 <= g < parts.len() && #[trigger] part_holds(parts, f, q)
            && #[trigger] part_holds(parts, g, q) ==> f == g
    &&& forall|q: int| lo <= q < hi ==> #[trigger] held_by_some(parts, q)
}

/// How many of the first `n` frames have a part.
pub open spec fn parts_upto(parts: Seq<Option<(int, int)>>, n: int) -> int
    decreases n,
{
    if n <= 0 {
        0
    } else if parts[n - 1] is Some {
        parts_upto(parts, n - 1) + 1
    } else {
        parts_upto(parts, n - 1)
    }
}

/// Where every frame has a part, there are as many parts as frames.
pub proof fn every_frame_counts(parts: Seq<Option<(int, int)>>, n: int)
    requires
        0 <= n <= parts.len(),
        forall|f: int| 0 <= f < parts.len() ==> (#[trigger] parts[f]) is Some,
    ensures
        parts_upto(parts, n) == n,
    decreases n,
{
    if n > 0 {
        every_frame_counts(parts, n - 1);
        assert(parts[n - 1] is Some);
    }
}

proof fn entries_are_parts<A: Numeric>(
    num: A,
    full: Seq<Scalar>,
    grids: Seq<Seq<Scalar>>,
    parts: Seq<Option<(int, int)>>,
    k: int,
)
    requires
        0 <= k <= grids.len() == parts.len(),
        forall|f: int|
            0 <= f < grids.len() ==> ((#[trigger] plan::taken_by(num, full, grids[f])) is Some
                <==> parts[f] is Some),
    ensures
        plan::plan_upto(num, full, grids, k).len() == parts_upto(parts, k),
    decreases k,
{
    if k > 0 {
        entries_are_parts(num, full, grids, parts, k - 1);
        assert(plan::taken_by(num, full, grids[k - 1]) is Some <==> parts[k - 1] is Some);
    }
}

proof fn reached(full: Seq<Scalar>, x: int, i: int)
    requires
        frame::increasing(full),
        0 <= i <= x < full.len(),
    ensures
        plan::reach(full, full[x], i) == x,
    decreases x - i,
{
    if i < x {
        frame::increasing_is_ordered(full, i, x);
        reached(full, x, i + 1);
    }
}

proof fn passed(full: Seq<Scalar>, x: int, i: int)
    requires
        frame::increasing(full),
        0 <= i <= x < full.len(),
        !full[x].nan(),
    ensures
        plan::pass(full, full[x], i) == x + 1,
    decreases x - i,
{
    if i < x {
        frame::increasing_is_ordered(full, i, x);
        passed(full, x, i + 1);
    } else {
        if x + 1 < full.len() {
            frame::increasing_is_ordered(full, x, x + 1);
        }
        assert(plan::pass(full, full[x], x + 1) == x + 1);
    }
}

/// A frame whose grid is a part of the curve's grid takes exactly that part.
pub proof fn a_part_is_taken_whole<A: Numeric>(num: A, full: Seq<Scalar>, from: int, upto: int)
    requires
        frame::increasing(full),
        !full[0].nan(),
        0 <= from < upto <= full.len(),
    ensures
        plan::taken_by(num, full, full.subrange(from, upto)) == Some(Taking::Run { from, upto }),
{
    let grid = full.subrange(from, upto);
    assert forall|i: int| 0 <= i < full.len() implies !(#[trigger] full[i]).nan() by {
        if i > 0 {
            frame::increasing_is_ordered(full, 0, i);
        }
    }
    assert(grid[0] == full[from]);
    assert(grid.last() == full[upto - 1]);
    reached(full, from, 0);
    passed(full, upto - 1, 0);
    if from < full.len() - 1 {
        frame::increasing_is_ordered(full, from, full.len() - 1);
    }
    if 0 < upto - 1 {
        frame::increasing_is_ordered(full, 0, upto - 1);
    }
    assert(!plan::apart(full, grid));
    assert(plan::same_points(grid, grid));
}

proof fn plan_lists<A: Numeric>(
    num: A,
    full: Seq<Scalar>,
    grids: Seq<Seq<Scalar>>,
    k: int,
)
    requires
        0 <= k <= grids.len(),
    ensures
        forall|e: int|
            0 <= e < plan::plan_upto(num, full, grids, k).len() ==> {
                let entry = #[trigger] plan::plan_upto(num, full, grids, k)[e];
                &&& 0 <= entry.0 < k
                &&& plan::taken_by(num, full, grids[entry.0]) == Some(entry.1)
            },
        forall|f: int|
            0 <= f < k && (#[trigger] plan::taken_by(num, full, grids[f])) is Some ==> plan::plan_upto(
                num,
                full,
                grids,
                k,
            ).contains((f, plan::taken_by(num, full, grids[f])->0)),
        forall|e: int, d: int|
            0 <= e < d < plan::plan_upto(num, full, grids, k).len() ==> (#[trigger] plan::plan_upto(
                num,
                full,
                grids,
                k,
            )[e]).0 < (#[trigger] plan::plan_upto(num, full, grids, k)[d]).0,
    decreases k,
{
    if k > 0 {
        plan_lists(num, full, grids, k - 1);
        let before = plan::plan_upto(num, full, grids, k - 1);
        let after = plan::plan_upto(num, full, grids, k);
        assert forall|e: int| 0 <= e < after.len() implies {
            let entry = #[trigger] after[e];
            &&& 0 <= entry.0 < k
            &&& plan::taken_by(num, full, grids[entry.0]) == Some(entry.1)
        } by {
            if e < before.len() {
                assert(after[e] == before[e]);
            }
        }
        assert forall|f: int|
            0 <= f < k && (#[trigger] plan::taken_by(num, full, grids[f])) is Some implies after.contains(
            (f, plan::taken_by(num, full, grids[f])->0),
        ) by {
            let entry = (f, plan::taken_by(num, full, grids[f])->0);
            if f < k - 1 {
                let e = choose|e: int| 0 <= e < before.len() && before[e] == entry;
                assert(after[e] == entry);
            } else {
                assert(after[before.len() as int] == entry);
            }
        }
        assert forall|e: int, d: int| 0 <= e < d < after.len() implies (#[trigger] after[e]).0 < (
        #[trigger] after[d]).0 by {
            assert(after[e] == before[e]);
            if d < before.len() {
                assert(after[d] == before[d]);
            }
        }
    }
}

proof fn all_cover(h: Holdings, p: Seq<(int, Taking)>, e: int)
    requires
        0 <= e,
        forall|i: int| 0 <= i < p.len() ==> (#[trigger] p[i]).1.size() == h.grids[p[i].0].len(),
    ensures
        weaver::first_gap(h, p, e) is None,
    decreases p.len() - e,
{
    if e < p.len() {
        all_cover(h, p, e + 1);
    }
}

/// Grids side by side on a longer grid: the plan for the longer grid is
/// accepted, names exactly the frames that have a part, each once, and tiles.
pub proof fn frames_side_by_side_tile<A: Numeric>(
    num: A,
    h: Holdings,
    full: Seq<Scalar>,
    parts: Seq<Option<(int, int)>>,
    lo: int,
    hi: int,
)
    requires
        frame::increasing(full),
        !full[0].nan(),
        h.grids.len() <= usize::MAX,
        side_by_side(h.grids, full, parts, lo, hi),
    ensures
        weaver::first_gap(h, plan::plan_for(num, full, h.grids), 0) is None,
        weaver::ready(h, plan::plan_for(num, full, h.grids), full.len() as int),
        roundtrip::tiles(h, plan::plan_for(num, full, h.grids), full, lo, hi),
        plan::plan_for(num, full, h.grids).len() == parts_upto(parts, parts.len() as int),
        forall|f: usize| #[trigger]
            roundtrip::names(plan::plan_for(num, full, h.grids), f) <==> f < parts.len()
                && parts[f as int] is Some,
{
    let p = plan::plan_for(num, full, h.grids);
    plan_lists(num, full, h.grids, h.grids.len() as int);
    assert forall|f: int| 0 <= f < h.grids.len() implies #[trigger] plan::taken_by(
        num,
        full,
        h.grids[f],
    ) == (match parts[f] {
        Some(part) => Some(Taking::Run { from: part.0, upto: part.1 }),
        None => None,
    }) by {
        assert(placed(h.grids, full, parts, lo, hi, f));
        match parts[f] {
            Some(part) => {
                a_part_is_taken_whole(num, full, part.0, part.1);
            },
            None => {},
        }
    }
    entries_are_parts(num, full, h.grids, parts, parts.len() as int);
    assert forall|e: int| 0 <= e < p.len() implies #[trigger] roundtrip::fits(
        h,
        p,
        full,
        lo,
        hi,
        e,
    ) && parts[p[e].0] == Some(roundtrip::range_of(p[e].1)) by {
        let f = p[e].0;
        assert(plan::taken_by(num, full, h.grids[f]) == Some(p[e].1));
        assert(placed(h.grids, full, parts, lo, hi, f));
    }
    assert forall|e: int| 0 <= e < p.len() implies (#[trigger] p[e]).1.size()
        == h.grids[p[e].0].len() && p[e].1.within(full.len() as int) by {
        assert(roundtrip::fits(h, p, full, lo, hi, e));
    }
    all_cover(h, p, 0);
    assert forall|e: int, d: int| 0 <= e < p.len() && 0 <= d < p.len() && e != d implies
        roundtrip::disjoint((#[trigger] p[e]).1, (#[trigger] p[d]).1) by {
        assert(roundtrip::fits(h, p, full, lo, hi, e));
        assert(roundtrip::fits(h, p, full, lo, hi, d));
        let a = roundtrip::range_of(p[e].1);
        let b = roundtrip::range_of(p[d].1);
        if !roundtrip::disjoint(p[e].1, p[d].1) {
            let q = if a.0 < b.0 {
                b.0
            } else {
                a.0
            };
            assert(part_holds(parts, p[e].0, q));
            assert(part_holds(parts, p[d].0, q));
        }
    }
    assert forall|q: int| lo <= q < hi implies #[trigger] roundtrip::covered(p, q) by {
        assert(held_by_some(parts, q));
        let f = choose|f: int| 0 <= f < parts.len() && #[trigger] part_holds(parts, f, q);
        let t = plan::taken_by(num, full, h.grids[f])->0;
        assert(p.contains((f, t)));
        let e = choose|e: int| 0 <= e < p.len() && p[e] == (f, t);
        assert(roundtrip::covers(p, e, q));
    }
    assert forall|f: usize| #[trigger] roundtrip::names(p, f) <==> f < parts.len()
        && parts[f as int] is Some by {
        if f < parts.len() && parts[f as int] is Some {
            let t = plan::taken_by(num, full, h.grids[f as int])->0;
            assert(p.contains((f as int, t)));
            let e = choose|e: int| 0 <= e < p.len() && p[e] == (f as int, t);
            assert(p[e].0 == f);
        }
        if roundtrip::names(p, f) {
            let e = choose|e: int| 0 <= e < p.len() && (#[trigger] p[e]).0 == f;
            assert(roundtrip::fits(h, p, full, lo, hi, e));
        }
    }
}

/// The key is recorded for no frame apart from the grid.
pub open spec fn stays_inside(h: Holdings, parts: Seq<Option<(int, int)>>, k: KeyView) -> bool {
    forall|i: int|
        0 <= i < h.frames_of(k).len() ==> parts[#[trigger] h.frames_of(k)[i] as int] is Some
}

proof fn inside_is_confined<A: Numeric>(
    num: A,
    h: Holdings,
    k: KeyView,
    full: Seq<Scalar>,
    parts: Seq<Option<(int, int)>>,
    lo: int,
    hi: int,
)
    requires
        collection::lawful(h),
        frame::increasing(full),
        !full[0].nan(),
        side_by_side(h.grids, full, parts, lo, hi),
        stays_inside(h, parts, k),
    ensures
        roundtrip::confined(h, plan::plan_for(num, full, h.grids), k),
{
    let p = plan::plan_for(num, full, h.grids);
    frames_side_by_side_tile(num, h, full, parts, lo, hi);
    assert forall|i: int| 0 <= i < h.frames_of(k).len() implies roundtrip::names(
        p,
        #[trigger] h.frames_of(k)[i],
    ) by {
        assert(h.mapping[k][i] < h.grids.len());
        assert(parts[h.frames_of(k)[i] as int] is Some);
    }
}

/// What is distributed over frames that lie side by side is read back: the
/// distribution is accepted and writes one fragment for each frame that has a
/// part, and weaving then gives exactly the points `lo..hi` of the grid and of
/// the curve, for a new key and for one that is overwritten.
pub proof fn what_lies_side_by_side_is_read_back<A: Numeric>(
    num: A,
    h: Holdings,
    k: KeyView,
    full: Seq<Scalar>,
    data: Seq<Scalar>,
    parts: Seq<Option<(int, int)>>,
    lo: int,
    hi: int,
    after: Holdings,
    r: Result<usize, WeaveFault>,
)
    requires
        collection::lawful(h),
        weaver::linked(h),
        frame::increasing(full),
        !full[0].nan(),
        data.len() == full.len(),
        side_by_side(h.grids, full, parts, lo, hi),
        stays_inside(h, parts, k),
        weaver::distributes(
            h,
            plan::plan_for(num, full, h.grids),
            k,
            full.len() as int,
            data,
            after,
            r,
        ),
    ensures
        r matches Ok(n) && n == parts_upto(parts, parts.len() as int),
        after.mapping.dom().contains(k),
        weaver::weaved(after, k) == (full.subrange(lo, hi), data.subrange(lo, hi)),
{
    let p = plan::plan_for(num, full, h.grids);
    frames_side_by_side_tile(num, h, full, parts, lo, hi);
    inside_is_confined(num, h, k, full, parts, lo, hi);
    parts_are_few(parts, parts.len() as int);
    roundtrip::a_tiled_curve_is_read_back(h, p, k, full, data, lo, hi);
}

proof fn parts_are_few(parts: Seq<Option<(int, int)>>, n: int)
    requires
        0 <= n,
    ensures
        0 <= parts_upto(parts, n) <= n,
    decreases n,
{
    if n > 0 {
        parts_are_few(parts, n - 1);
    }
}

/// Where the frames, in whatever order they were made, lie side by side on the
/// whole grid, the distribution writes one fragment per frame, and the grid
/// and the curve themselves are read back.
pub proof fn a_whole_grid_is_read_back<A: Numeric>(
    num: A,
    h: Holdings,
    k: KeyView,
    full: Seq<Scalar>,
    data: Seq<Scalar>,
    parts: Seq<Option<(int, int)>>,
    after: Holdings,
    r: Result<usize, WeaveFault>,
)
    requires
        collection::lawful(h),
        weaver::linked(h),
        frame::increasing(full),
        !full[0].nan(),
        data.len() == full.len(),
        side_by_side(h.grids, full, parts, 0, full.len() as int),
        forall|f: int| 0 <= f < parts.len() ==> (#[trigger] parts[f]) is Some,
        weaver::distributes(
            h,
            plan::plan_for(num, full, h.grids),
            k,
            full.len() as int,
            data,
            after,
            r,
        ),
    ensures
        r matches Ok(n) && n == h.grids.len(),
        after.mapping.dom().contains(k),
        weaver::weaved(after, k) == (full, data),
{
    assert forall|i: int| 0 <= i < h.frames_of(k).len() implies parts[#[trigger] h.frames_of(
        k,
    )[i] as int] is Some by {
        assert(h.mapping[k][i] < h.grids.len());
        let _ = parts[h.frames_of(k)[i] as int];
    }
    every_frame_counts(parts, parts.len() as int);
    what_lies_side_by_side_is_read_back(
        num,
        h,
        k,
        full,
        data,
        parts,
        0,
        full.len() as int,
        after,
        r,
    );
    assert(full.subrange(0, full.len() as int) =~= full);
    assert(data.subrange(0, data.len() as int) =~= data);
}

/// The same of a batch: one fragment per curve and frame with a part, and each
/// key gives back the last curve that the batch has of it.
pub proof fn a_batch_side_by_side_is_read_back<A: Numeric>(
    num: A,
    h: Holdings,
    full: Seq<Scalar>,
    batch: Seq<(OpticalKey, Vec<Scalar>)>,
    parts: Seq<Option<(int, int)>>,
    lo: int,
    hi: int,
    after: Holdings,
    news: int,
    r: Result<usize, WeaveFault>,
    b: int,
)
    requires
        collection::lawful(h),
        weaver::linked(h),
        frame::increasing(full),
        !full[0].nan(),
        0 <= b < batch.len(),
        forall|c: int| 0 <= c < batch.len() ==> (#[trigger] batch[c]).1@.len() == full.len(),
        roundtrip::last_of_its_key(batch, b, batch.len() as int),
        side_by_side(h.grids, full, parts, lo, hi),
        stays_inside(h, parts, batch[b].0@),
        weaver::distributes_all(
            h,
            plan::plan_for(num, full, h.grids),
            full.len() as int,
            batch,
            after,
            news,
            r,
        ),
    ensures
        r matches Ok(total) && total == parts_upto(parts, parts.len() as int) * batch.len(),
        after.mapping.dom().contains(batch[b].0@),
        weaver::weaved(after, batch[b].0@) == (
            full.subrange(lo, hi),
            batch[b].1@.subrange(lo, hi),
        ),
{
    let p = plan::plan_for(num, full, h.grids);
    frames_side_by_side_tile(num, h, full, parts, lo, hi);
    inside_is_confined(num, h, batch[b].0@, full, parts, lo, hi);
    nothing_misfits(batch, full.len() as int, 0);
    roundtrip::a_tiled_batch_is_read_back(h, p, full, batch, lo, hi, b, batch.len() as int);
}

proof fn nothing_misfits(batch: Seq<(OpticalKey, Vec<Scalar>)>, n: int, i: int)
    requires
        0 <= i,
        forall|c: int| 0 <= c < batch.len() ==> (#[trigger] batch[c]).1@.len() == n,
    ensures
        weaver::first_misfit(batch, n, i) is None,
    decreases batch.len() - i,
{
    if i < batch.len() {
        assert(batch[i].1@.len() == n);
        nothing_misfits(batch, n, i + 1);
    }
}

/// A batch is refused exactly if the plan leaves points of a frame out or a
/// curve has the wrong length, and then nothing was written for any key, be it
/// of the batch or not: each is there as before and is read as before.
pub proof fn a_refused_batch_writes_nothing(
    h: Holdings,
    p: Seq<(int, Taking)>,
    n: int,
    batch: Seq<(OpticalKey, Vec<Scalar>)>,
    after: Holdings,
    news: int,
    r: Result<usize, WeaveFault>,
    k: KeyView,
)
    requires
        weaver::distributes_all(h, p, n, batch, after, news, r),
    ensures
        r is Err <==> batch.len() > 0 && (weaver::first_gap(h, p, 0) is Some
            || weaver::first_misfit(batch, n, 0) is Some),
        r is Err ==> {
            &&& after == h
            &&& news == 0
            &&& after.mapping.dom().contains(k) == h.mapping.dom().contains(k)
            &&& weaver::weaved(after, k) == weaver::weaved(h, k)
        },
{
}

} // verus!
