//! What a read gives back of a write.
use crate::scalar;
use crate::scalar::Scalar;
use crate::spectralweave::collection;
use crate::spectralweave::collection::Holdings;
use crate::spectralweave::frame;
use crate::spectralweave::key::{KeyView, OpticalKey};
use crate::spectralweave::laws;
use crate::spectralweave::plan::Taking;
use crate::spectralweave::weaver;
use vstd::prelude::*;

verus! {

/// The range of a run; nothing for single points.
pub open spec fn range_of(t: Taking) -> (int, int) {
    match t {
        Taking::Run { from, upto } => (from, upto),
        Taking::Points { .. } => (0, 0),
    }
}

/// Entry `e` of a plan takes point `q`.
pub open spec fn covers(p: Seq<(int, Taking)>, e: int, q: int) -> bool {
    range_of(p[e].1).0 <= q < range_of(p[e].1).1
}

/// Some entry of a plan takes point `q`.
pub open spec fn covered(p: Seq<(int, Taking)>, q: int) -> bool {
    exists|e: int| 0 <= e < p.len() && #[trigger] covers(p, e, q)
}

/// Entry `e` takes a run of the curve inside `lo..hi`, and its frame's grid is
/// that run of `full`.
pub open spec fn fits(
    h: Holdings,
    p: Seq<(int, Taking)>,
    full: Seq<Scalar>,
    lo: int,
    hi: int,
    e: int,
) -> bool {
    let (from, upto) = range_of(p[e].1);
    &&& p[e].1 is Run
    &&& lo <= from < upto <= hi
    &&& h.grids[p[e].0] == full.subrange(from, upto)
}

/// Two runs have no point in common.
pub open spec fn disjoint(a: Taking, b: Taking) -> bool {
    range_of(a).1 <= range_of(b).0 || range_of(b).1 <= range_of(a).0
}

/// The frames that a plan names tile the points `lo..hi` of `full`, in
/// whatever order they were made.
pub open spec fn tiles(
    h: Holdings,
    p: Seq<(int, Taking)>,
    full: Seq<Scalar>,
    lo: int,
    hi: int,
) -> bool {
    &&& 0 <= lo < hi <= full.len()
    &&& forall|e: int| 0 <= e < p.len() ==> #[trigger] fits(h, p, full, lo, hi, e)
    &&& forall|e: int, d: int|
        0 <= e < p.len() && 0 <= d < p.len() && e != d ==> disjoint(
            (#[trigger] p[e]).1,
            (#[trigger] p[d]).1,
        )
    &&& forall|q: int| lo <= q < hi ==> #[trigger] covered(p, q)
}

/// A plan names the frame.
pub open spec fn names(p: Seq<(int, Taking)>, f: usize) -> bool {
    exists|e: int| 0 <= e < p.len() && (#[trigger] p[e]).0 == f
}

/// Nothing of the key lies outside the plan's frames.
pub open spec fn confined(h: Holdings, p: Seq<(int, Taking)>, k: KeyView) -> bool {
    forall|i: int|
        0 <= i < h.frames_of(k).len() ==> names(p, #[trigger] h.frames_of(k)[i])
}

/// The entry that names a frame.
spec fn entry_of(p: Seq<(int, Taking)>, f: usize) -> int {
    choose|e: int| 0 <= e < p.len() && (#[trigger] p[e]).0 == f
}

spec fn from_of(p: Seq<(int, Taking)>, f: usize) -> int {
    range_of(p[entry_of(p, f)].1).0
}

spec fn upto_of(p: Seq<(int, Taking)>, f: usize) -> int {
    range_of(p[entry_of(p, f)].1).1
}

proof fn increasing_keys(full: Seq<Scalar>, i: int, j: int)
    requires
        frame::increasing(full),
        0 <= i < j < full.len(),
    ensures
        full[i].total_key() < full[j].total_key(),
    decreases j - i,
{
    assert(scalar::less(full[j - 1], full[j - 1 + 1]));
    scalar::total_order_refines(full[j - 1], full[j]);
    if i < j - 1 {
        increasing_keys(full, i, j - 1);
    }
}

/// Along the frames in the order of their starts, each run begins where the
/// one before ended.
proof fn runs_follow(
    h: Holdings,
    p: Seq<(int, Taking)>,
    full: Seq<Scalar>,
    lo: int,
    hi: int,
    order: Seq<usize>,
    i: int,
)
    requires
        tiles(h, p, full, lo, hi),
        frame::increasing(full),
        order.no_duplicates(),
        forall|j: int| 0 <= j < order.len() ==> names(p, #[trigger] order[j]),
        forall|e: int| 0 <= e < p.len() ==> 0 <= (#[trigger] p[e]).0 <= usize::MAX
            && order.contains(p[e].0 as usize),
        forall|a: int, b: int|
            0 <= a < b < order.len() ==> weaver::start_of(h, #[trigger] order[a])
                <= weaver::start_of(h, #[trigger] order[b]),
        0 <= i <= order.len(),
    ensures
        i < order.len() ==> from_of(p, order[i]) == (if i == 0 {
            lo
        } else {
            upto_of(p, order[i - 1])
        }),
        i == order.len() ==> i > 0 && upto_of(p, order[i - 1]) == hi,
{
    let n = order.len() as int;
    assert forall|a: int, b: int| 0 <= a < b < n implies from_of(p, #[trigger] order[a])
        < from_of(p, #[trigger] order[b]) by {
        let x = entry_of(p, order[a]);
        let y = entry_of(p, order[b]);
        assert(names(p, order[a]) && names(p, order[b]));
        assert(x != y);
        assert(fits(h, p, full, lo, hi, x) && fits(h, p, full, lo, hi, y));
        let fx = range_of(p[x].1).0;
        let fy = range_of(p[y].1).0;
        assert(disjoint(p[x].1, p[y].1));
        assert(h.grids[p[x].0][0] == full[fx]);
        assert(h.grids[p[y].0][0] == full[fy]);
        if fy < fx {
            increasing_keys(full, fy, fx);
        }
    }
    // The point where a run must begin.
    let at = if i == 0 {
        lo
    } else {
        upto_of(p, order[i - 1])
    };
    if i > 0 {
        assert(names(p, order[i - 1]));
        assert(fits(h, p, full, lo, hi, entry_of(p, order[i - 1])));
    }
    if at < hi {
        assert(covered(p, at));
        let e = choose|e: int| 0 <= e < p.len() && #[trigger] covers(p, e, at);
        let f = p[e].0 as usize;
        let j = choose|j: int| 0 <= j < n && order[j] == f;
        assert(names(p, f));
        let e2 = entry_of(p, f);
        assert(e2 == e) by {
            assert(p[e2].0 == p[e].0);
            assert(fits(h, p, full, lo, hi, e));
            assert(fits(h, p, full, lo, hi, e2));
            if e2 != e {
                assert(disjoint(p[e].1, p[e2].1));
                let a = range_of(p[e].1).0;
                let b = range_of(p[e2].1).0;
                assert(h.grids[p[e].0][0] == full[a]);
                assert(h.grids[p[e2].0][0] == full[b]);
                if a < b {
                    increasing_keys(full, a, b);
                } else {
                    increasing_keys(full, b, a);
                }
            }
        }
        assert(fits(h, p, full, lo, hi, e));
        if i > 0 {
            let d = entry_of(p, order[i - 1]);
            assert(names(p, order[i - 1]));
            assert(d != e);
            assert(disjoint(p[d].1, p[e].1));
            assert(from_of(p, f) == at);
            assert(j > i - 1) by {
                if j < i - 1 {
                    assert(from_of(p, order[j]) < from_of(p, order[i - 1]));
                }
            }
        }
        assert(i < n);
        if j > i {
            assert(from_of(p, order[i]) < from_of(p, order[j]));
            let g = entry_of(p, order[i]);
            assert(names(p, order[i]));
            assert(fits(h, p, full, lo, hi, g));
            if i > 0 {
                let d = entry_of(p, order[i - 1]);
                assert(from_of(p, order[i - 1]) < from_of(p, order[i]));
                assert(d != g);
                assert(disjoint(p[d].1, p[g].1));
            }
            assert(false);
        }
    } else {
        if i < n {
            let g = entry_of(p, order[i]);
            assert(names(p, order[i]));
            assert(fits(h, p, full, lo, hi, g));
            let d = entry_of(p, order[i - 1]);
            assert(from_of(p, order[i - 1]) < from_of(p, order[i]));
            assert(d != g);
            assert(disjoint(p[d].1, p[g].1));
        }
    }
}

/// What the first `n` frames join to.
proof fn joined_so_far(
    h: Holdings,
    t: Holdings,
    p: Seq<(int, Taking)>,
    k: KeyView,
    full: Seq<Scalar>,
    data: Seq<Scalar>,
    lo: int,
    hi: int,
    order: Seq<usize>,
    n: int,
)
    requires
        tiles(h, p, full, lo, hi),
        frame::increasing(full),
        data.len() == full.len(),
        t.grids == h.grids,
        forall|e: int|
            0 <= e < p.len() ==> (#[trigger] t.curves[p[e].0]).dom().contains(k)
                && t.curves[p[e].0][k] == p[e].1.of(data),
        order.no_duplicates(),
        forall|j: int| 0 <= j < order.len() ==> names(p, #[trigger] order[j]),
        forall|e: int| 0 <= e < p.len() ==> 0 <= (#[trigger] p[e]).0 <= usize::MAX
            && order.contains(p[e].0 as usize),
        forall|a: int, b: int|
            0 <= a < b < order.len() ==> weaver::start_of(h, #[trigger] order[a])
                <= weaver::start_of(h, #[trigger] order[b]),
        0 <= n <= order.len(),
    ensures
        ({
            let end = if n == 0 {
                lo
            } else {
                upto_of(p, order[n - 1])
            };
            &&& lo <= end <= hi
            &&& weaver::joined_grids(t, order, n) == full.subrange(lo, end)
            &&& weaver::joined_values(t, order, k, n) == data.subrange(lo, end)
        }),
    decreases n,
{
    if n > 0 {
        joined_so_far(h, t, p, k, full, data, lo, hi, order, n - 1);
        runs_follow(h, p, full, lo, hi, order, n - 1);
        let f = order[n - 1];
        assert(names(p, f));
        let e = entry_of(p, f);
        assert(fits(h, p, full, lo, hi, e));
        let (from, upto) = range_of(p[e].1);
        assert(t.curves[p[e].0][k] == data.subrange(from, upto));
        assert(full.subrange(lo, from) + full.subrange(from, upto) =~= full.subrange(lo, upto));
        assert(data.subrange(lo, from) + data.subrange(from, upto) =~= data.subrange(lo, upto));
    } else {
        assert(full.subrange(lo, lo) =~= seq![]);
        assert(data.subrange(lo, lo) =~= seq![]);
    }
}

proof fn merged_holds(list: Seq<usize>, frames: Seq<usize>, x: usize)
    ensures
        collection::merged(list, frames).contains(x) <==> list.contains(x) || frames.contains(x),
    decreases frames.len(),
{
    if frames.len() > 0 {
        let less = frames.drop_last();
        merged_holds(list, less, x);
        let before = collection::merged(list, less);
        if frames.contains(x) && !less.contains(x) {
            let i = choose|i: int| 0 <= i < frames.len() && frames[i] == x;
            if i < frames.len() - 1 {
                assert(less[i] == x);
            }
        }
        if less.contains(x) {
            let i = choose|i: int| 0 <= i < less.len() && less[i] == x;
            assert(frames[i] == x);
        }
        if before.contains(x) {
            let i = choose|i: int| 0 <= i < before.len() && before[i] == x;
            assert(before.push(frames.last())[i] == x);
        }
        assert(before.push(frames.last())[before.len() as int] == frames.last());
    }
}

/// A curve stored with its record keeps the store linked.
pub proof fn recording_links(h: Holdings, k: KeyView, i: usize, values: Seq<Scalar>)
    requires
        weaver::linked(h),
        i < h.curves.len(),
    ensures
        weaver::linked(h.with_curve(i as int, k, values).with_mapping(k, seq![i])),
        h.curves[i as int].dom().contains(k) ==> weaver::linked(
            h.with_curve(i as int, k, values),
        ),
{
    let c = h.with_curve(i as int, k, values);
    let t = c.with_mapping(k, seq![i]);
    assert(seq![i][0] == i);
    assert forall|j: int, q: KeyView|
        0 <= j < t.curves.len() && #[trigger] t.curves[j].dom().contains(q) implies t.frames_of(
        q,
    ).contains(j as usize) by {
        merged_holds(h.frames_of(k), seq![i], j as usize);
        assert(h.curves[j].dom().contains(q) || (j == i && q == k));
    }
    if h.curves[i as int].dom().contains(k) {
        assert forall|j: int, q: KeyView|
            0 <= j < c.curves.len() && #[trigger] c.curves[j].dom().contains(q) implies c.frames_of(
            q,
        ).contains(j as usize) by {
            assert(h.curves[j].dom().contains(q));
        }
    }
}

/// Storing a curve on its grid keeps the store linked.
pub proof fn storing_links(
    h: Holdings,
    k: KeyView,
    values: Seq<Scalar>,
    wl: Seq<Scalar>,
    uid: usize,
)
    requires
        collection::lawful(h),
        weaver::linked(h),
    ensures
        weaver::linked(h.stored(k, values, wl, uid).0),
{
    let (g, i) = h.framed(wl, uid);
    assert(weaver::linked(g)) by {
        assert forall|j: int, q: KeyView|
            0 <= j < g.curves.len() && #[trigger] g.curves[j].dom().contains(q) implies g.frames_of(
            q,
        ).contains(j as usize) by {
            assert(h.curves[j].dom().contains(q));
        }
    }
    if h.framing_fault(wl) is None {
        recording_links(g, k, i, values);
    }
}

proof fn fresh_holds(h: Holdings, p: Seq<(int, Taking)>, k: KeyView, n: int)
    requires
        0 <= n <= p.len(),
        forall|e: int| 0 <= e < p.len() ==> 0 <= (#[trigger] p[e]).0 <= usize::MAX,
    ensures
        forall|i: int|
            0 <= i < weaver::fresh_upto(h, p, k, n).len() ==> names(
                p,
                #[trigger] weaver::fresh_upto(h, p, k, n)[i],
            ),
        forall|e: int|
            0 <= e < n && !h.curves[(#[trigger] p[e]).0].dom().contains(k)
                ==> weaver::fresh_upto(h, p, k, n).contains(p[e].0 as usize),
    decreases n,
{
    if n > 0 {
        fresh_holds(h, p, k, n - 1);
        let before = weaver::fresh_upto(h, p, k, n - 1);
        let after = weaver::fresh_upto(h, p, k, n);
        let f = p[n - 1].0 as usize;
        assert(p[n - 1].0 == f);
        assert(names(p, f));
        assert forall|e: int|
            0 <= e < n && !h.curves[(#[trigger] p[e]).0].dom().contains(k) implies after.contains(
            p[e].0 as usize,
        ) by {
            if e < n - 1 {
                let x = p[e].0 as usize;
                let i = choose|i: int| 0 <= i < before.len() && before[i] == x;
                assert(after[i] == x);
            } else {
                assert(after[before.len() as int] == f);
            }
        }
    }
}

/// Distributing keeps the store lawful and linked, and the key inside the
/// plan's frames.
pub proof fn spreading_keeps_order(
    h: Holdings,
    p: Seq<(int, Taking)>,
    k: KeyView,
    data: Seq<Scalar>,
)
    requires
        weaver::ready(h, p, data.len() as int),
        collection::lawful(h),
        weaver::linked(h),
    ensures
        collection::lawful(weaver::spread(h, p, k, data)),
        weaver::linked(weaver::spread(h, p, k, data)),
        weaver::ready(weaver::spread(h, p, k, data), p, data.len() as int),
        forall|x: usize| #[trigger]
            weaver::spread(h, p, k, data).frames_of(k).contains(x) <==> h.frames_of(k).contains(x)
                || names(p, x),
        forall|other: KeyView|
            other != k ==> #[trigger] weaver::spread(h, p, k, data).frames_of(other)
                == h.frames_of(other),
        forall|q: KeyView| confined(h, p, q) ==> #[trigger] confined(
            weaver::spread(h, p, k, data),
            p,
            q,
        ),
{
    let n = p.len() as int;
    let t = weaver::spread(h, p, k, data);
    let fresh = weaver::fresh_upto(h, p, k, n);
    laws::spread_fills(h, p, k, data, n);
    fresh_holds(h, p, k, n);
    assert forall|i: int| 0 <= i < fresh.len() implies #[trigger] fresh[i] < h.grids.len() by {
        assert(names(p, fresh[i]));
    }
    assert(h.frames_of(k).no_duplicates());
    assert forall|i: int| 0 <= i < h.frames_of(k).len() implies #[trigger] h.frames_of(k)[i]
        < h.grids.len() by {
        assert(h.mapping[k][i] < h.grids.len());
    }
    collection::merged_keeps(h.frames_of(k), fresh, h.grids.len() as int);
    assert(fresh.len() == 0 ==> collection::merged(h.frames_of(k), fresh) == h.frames_of(k));
    assert(t.frames_of(k) == collection::merged(h.frames_of(k), fresh));
    assert forall|x: usize| #[trigger] t.frames_of(k).contains(x) <==> h.frames_of(k).contains(x)
        || names(p, x) by {
        merged_holds(h.frames_of(k), fresh, x);
        if names(p, x) {
            let e = entry_of(p, x);
            if h.curves[p[e].0].dom().contains(k) {
                assert(h.frames_of(k).contains(p[e].0 as usize));
            } else {
                assert(fresh.contains(p[e].0 as usize));
            }
        }
        if fresh.contains(x) {
            let i = choose|i: int| 0 <= i < fresh.len() && fresh[i] == x;
            assert(names(p, fresh[i]));
        }
    }
    assert forall|i: int, q: KeyView|
        0 <= i < t.grids.len() && #[trigger] t.curves[i].dom().contains(q) implies
        t.curves[i][q].len() == t.grids[i].len() && t.frames_of(q).contains(i as usize) by {
        if names(p, i as usize) {
            let e = entry_of(p, i as usize);
            weaver::taken_len(p[e].1, data);
            assert(t.curves[p[e].0] == h.curves[p[e].0].insert(k, p[e].1.of(data)));
            if q != k {
                assert(h.curves[i].dom().contains(q));
                assert(t.frames_of(q) == h.frames_of(q));
            }
        } else {
            assert(t.curves[i] == h.curves[i]);
            assert(h.curves[i].dom().contains(q));
            assert(h.frames_of(q).contains(i as usize));
        }
    }
    assert forall|q: KeyView| confined(h, p, q) implies #[trigger] confined(t, p, q) by {
        assert forall|i: int| 0 <= i < t.frames_of(q).len() implies names(
            p,
            #[trigger] t.frames_of(q)[i],
        ) by {
            let x = t.frames_of(q)[i];
            assert(t.frames_of(q).contains(x));
            if q == k {
                if h.frames_of(k).contains(x) {
                    let j = choose|j: int| 0 <= j < h.frames_of(k).len() && h.frames_of(k)[j] == x;
                    assert(names(p, h.frames_of(k)[j]));
                }
            } else {
                assert(h.frames_of(q)[i] == x);
            }
        }
    }
    assert forall|q: KeyView| #[trigger] t.mapping.dom().contains(q) implies
        t.mapping[q].no_duplicates() by {
        if q != k {
            assert(h.mapping.dom().contains(q));
        }
    }
    assert forall|q: KeyView, i: int|
        t.mapping.dom().contains(q) && 0 <= i < t.mapping[q].len() implies (
    #[trigger] t.mapping[q][i]) < t.grids.len() by {
        if q != k {
            assert(h.mapping[q][i] < h.grids.len());
        }
    }
}

proof fn all_held(t: Holdings, k: KeyView, n: int)
    requires
        t.mapping.dom().contains(k),
        0 <= n <= t.mapping[k].len(),
        forall|i: int|
            0 <= i < t.mapping[k].len() ==> t.curves[#[trigger] t.mapping[k][i] as int].dom().contains(
                k,
            ),
    ensures
        weaver::present(t, k, n) == t.mapping[k].take(n),
    decreases n,
{
    if n > 0 {
        all_held(t, k, n - 1);
        assert(t.curves[t.mapping[k][n - 1] as int].dom().contains(k));
        assert(t.mapping[k].take(n) =~= t.mapping[k].take(n - 1).push(t.mapping[k][n - 1]));
    } else {
        assert(t.mapping[k].take(0) =~= seq![]);
    }
}

proof fn order_is_whole(h: Holdings, frames: Seq<usize>, n: int)
    requires
        0 <= n <= frames.len(),
        frames.no_duplicates(),
    ensures
        weaver::by_start(h, frames, n).len() == n,
        weaver::by_start(h, frames, n).no_duplicates(),
        forall|x: usize| #[trigger]
            weaver::by_start(h, frames, n).contains(x) <==> frames.take(n).contains(x),
    decreases n,
{
    if n > 0 {
        order_is_whole(h, frames, n - 1);
        laws::order_holds(h, frames, n);
        let before = weaver::by_start(h, frames, n - 1);
        let after = weaver::by_start(h, frames, n);
        let f = frames[n - 1];
        let at = weaver::place_for(h, before, f, 0);
        laws::place_bounds(h, before, f, 0);
        assert(after == before.insert(at, f));
        let all = frames.take(n);
        let some = frames.take(n - 1);
        assert(all =~= some.push(f));
        assert forall|x: usize| #[trigger] after.contains(x) <==> all.contains(x) by {
            if after.contains(x) {
                let i = choose|i: int| 0 <= i < after.len() && after[i] == x;
                if i < at {
                    assert(before[i] == x);
                    assert(before.contains(x));
                } else if i > at {
                    assert(before[i - 1] == x);
                    assert(before.contains(x));
                } else {
                    assert(all[n - 1] == x);
                }
                if before.contains(x) {
                    assert(some.contains(x));
                    let j = choose|j: int| 0 <= j < some.len() && some[j] == x;
                    assert(all[j] == x);
                }
            }
            if all.contains(x) {
                let j = choose|j: int| 0 <= j < all.len() && all[j] == x;
                if j < n - 1 {
                    assert(some[j] == x);
                    assert(before.contains(x));
                    let i = choose|i: int| 0 <= i < before.len() && before[i] == x;
                    if i < at {
                        assert(after[i] == x);
                    } else {
                        assert(after[i + 1] == x);
                    }
                } else {
                    assert(after[at] == x);
                }
            }
        }
        assert(!before.contains(f)) by {
            if some.contains(f) {
                let j = choose|j: int| 0 <= j < some.len() && some[j] == f;
                assert(frames[j] == frames[n - 1]);
            }
        }
        assert forall|i: int, j: int| 0 <= i < j < n implies after[i] != after[j] by {
            let bi = if i < at {
                i
            } else {
                i - 1
            };
            let bj = if j < at {
                j
            } else {
                j - 1
            };
            if i != at {
                assert(after[i] == before[bi]);
            }
            if j != at {
                assert(after[j] == before[bj]);
            }
        }
    } else {
        assert(frames.take(0) =~= seq![]);
    }
}

/// A distributed curve is read back: where the frames that the plan names tile
/// the points `lo..hi` of the grid, in whatever order they were made, and the
/// key has nothing outside them, weaving gives exactly that part of the grid
/// and of the curve. A key that was there before is overwritten.
pub proof fn a_tiled_curve_is_read_back(
    h: Holdings,
    p: Seq<(int, Taking)>,
    k: KeyView,
    full: Seq<Scalar>,
    data: Seq<Scalar>,
    lo: int,
    hi: int,
)
    requires
        weaver::ready(h, p, data.len() as int),
        collection::lawful(h),
        weaver::linked(h),
        confined(h, p, k),
        frame::increasing(full),
        data.len() == full.len(),
        tiles(h, p, full, lo, hi),
    ensures
        weaver::spread(h, p, k, data).mapping.dom().contains(k),
        weaver::weaved(weaver::spread(h, p, k, data), k) == (
            full.subrange(lo, hi),
            data.subrange(lo, hi),
        ),
{
    let n = p.len() as int;
    let t = weaver::spread(h, p, k, data);
    laws::spread_fills(h, p, k, data, n);
    spreading_keeps_order(h, p, k, data);
    assert(covered(p, lo));
    let first = choose|e: int| 0 <= e < p.len() && #[trigger] covers(p, e, lo);
    assert(p[first].0 == p[first].0 as usize);
    assert(names(p, p[first].0 as usize));
    assert(t.frames_of(k).contains(p[first].0 as usize));
    assert(t.mapping.dom().contains(k));
    let frames = t.mapping[k];
    assert(frames == t.frames_of(k));
    assert(confined(t, p, k));
    assert forall|i: int| 0 <= i < frames.len() implies t.curves[#[trigger] frames[i] as int].dom().contains(
        k,
    ) by {
        assert(names(p, t.frames_of(k)[i]));
        let e = entry_of(p, frames[i]);
        assert(t.curves[p[e].0] == h.curves[p[e].0].insert(k, p[e].1.of(data)));
    }
    all_held(t, k, frames.len() as int);
    assert(frames.take(frames.len() as int) =~= frames);
    let m = frames.len() as int;
    let order = weaver::by_start(t, frames, m);
    order_is_whole(t, frames, m);
    laws::weaving_is_ordered(t, frames, m);
    assert forall|j: int| 0 <= j < order.len() implies names(p, #[trigger] order[j]) by {
        assert(order.contains(order[j]));
        let i = choose|i: int| 0 <= i < frames.len() && frames[i] == order[j];
        assert(names(p, t.frames_of(k)[i]));
    }
    assert forall|e: int| 0 <= e < p.len() implies 0 <= (#[trigger] p[e]).0 <= usize::MAX
        && order.contains(p[e].0 as usize) by {
        assert(names(p, p[e].0 as usize));
        assert(t.frames_of(k).contains(p[e].0 as usize));
    }
    assert forall|e: int| 0 <= e < p.len() implies (#[trigger] t.curves[p[e].0]).dom().contains(k)
        && t.curves[p[e].0][k] == p[e].1.of(data) by {
        assert(t.curves[p[e].0] == h.curves[p[e].0].insert(k, p[e].1.of(data)));
    }
    assert(tiles(t, p, full, lo, hi)) by {
        assert forall|e: int| 0 <= e < p.len() implies #[trigger] fits(t, p, full, lo, hi, e) by {
            assert(fits(h, p, full, lo, hi, e));
        }
    }
    joined_so_far(t, t, p, k, full, data, lo, hi, order, m);
    runs_follow(t, p, full, lo, hi, order, m);
}

/// Where the frames tile the whole grid, the grid and the curve themselves are
/// read back.
pub proof fn a_whole_curve_is_read_back(
    h: Holdings,
    p: Seq<(int, Taking)>,
    k: KeyView,
    full: Seq<Scalar>,
    data: Seq<Scalar>,
)
    requires
        weaver::ready(h, p, data.len() as int),
        collection::lawful(h),
        weaver::linked(h),
        confined(h, p, k),
        frame::increasing(full),
        data.len() == full.len(),
        tiles(h, p, full, 0, full.len() as int),
    ensures
        weaver::spread(h, p, k, data).mapping.dom().contains(k),
        weaver::weaved(weaver::spread(h, p, k, data), k) == (full, data),
{
    a_tiled_curve_is_read_back(h, p, k, full, data, 0, full.len() as int);
    assert(full.subrange(0, full.len() as int) =~= full);
    assert(data.subrange(0, data.len() as int) =~= data);
}

proof fn same_present(h: Holdings, t: Holdings, k: KeyView, n: int)
    requires
        h.mapping[k] == t.mapping[k],
        0 <= n <= h.mapping[k].len(),
        forall|i: int|
            0 <= i < h.mapping[k].len() ==> h.curves[#[trigger] h.mapping[k][i] as int].dom().contains(
                k,
            ) == t.curves[h.mapping[k][i] as int].dom().contains(k),
    ensures
        weaver::present(h, k, n) == weaver::present(t, k, n),
        forall|i: int|
            0 <= i < weaver::present(h, k, n).len() ==> h.mapping[k].contains(
                #[trigger] weaver::present(h, k, n)[i],
            ),
    decreases n,
{
    if n > 0 {
        same_present(h, t, k, n - 1);
        assert(h.curves[h.mapping[k][n - 1] as int].dom().contains(k)
            == t.curves[h.mapping[k][n - 1] as int].dom().contains(k));
    }
}

proof fn same_values(h: Holdings, t: Holdings, k: KeyView, order: Seq<usize>, n: int)
    requires
        h.grids == t.grids,
        0 <= n <= order.len(),
        forall|i: int|
            0 <= i < order.len() ==> h.curves[#[trigger] order[i] as int][k]
                == t.curves[order[i] as int][k],
    ensures
        weaver::joined_grids(h, order, n) == weaver::joined_grids(t, order, n),
        weaver::joined_values(h, order, k, n) == weaver::joined_values(t, order, k, n),
    decreases n,
{
    if n > 0 {
        same_values(h, t, k, order, n - 1);
        assert(h.curves[order[n - 1] as int][k] == t.curves[order[n - 1] as int][k]);
    }
}

/// Distributing one key's curve leaves what is read of every other key.
pub proof fn other_keys_read_the_same(
    h: Holdings,
    p: Seq<(int, Taking)>,
    k: KeyView,
    data: Seq<Scalar>,
    other: KeyView,
)
    requires
        weaver::ready(h, p, data.len() as int),
        collection::lawful(h),
        weaver::linked(h),
        other != k,
    ensures
        weaver::spread(h, p, k, data).mapping.dom().contains(other)
            == h.mapping.dom().contains(other),
        h.mapping.dom().contains(other) ==> weaver::weaved(
            weaver::spread(h, p, k, data),
            other,
        ) == weaver::weaved(h, other),
{
    let t = weaver::spread(h, p, k, data);
    laws::spread_fills(h, p, k, data, p.len() as int);
    spreading_keeps_order(h, p, k, data);
    if h.mapping.dom().contains(other) {
        let frames = h.mapping[other];
        assert(t.mapping[other] == frames);
        assert forall|f: int| 0 <= f < h.curves.len() implies (#[trigger] h.curves[f]).dom().contains(
            other,
        ) == t.curves[f].dom().contains(other) && h.curves[f][other] == t.curves[f][other] by {
            if names(p, f as usize) {
                let e = entry_of(p, f as usize);
                assert(t.curves[p[e].0] == h.curves[p[e].0].insert(k, p[e].1.of(data)));
            } else {
                assert(t.curves[f] == h.curves[f]);
            }
        }
        assert forall|i: int|
            0 <= i < frames.len() implies h.curves[#[trigger] frames[i] as int].dom().contains(
            other,
        ) == t.curves[frames[i] as int].dom().contains(other) by {
            assert(h.mapping[other][i] < h.grids.len());
            let _ = h.curves[frames[i] as int];
        }
        same_present(h, t, other, frames.len() as int);
        let have = weaver::present(h, other, frames.len() as int);
        let m = have.len() as int;
        laws::same_order(h, t, have, m);
        laws::order_holds(h, have, m);
        let order = weaver::by_start(h, have, m);
        assert forall|i: int| 0 <= i < order.len() implies h.curves[#[trigger] order[i] as int][other]
            == t.curves[order[i] as int][other] by {
            assert(have.contains(order[i]));
            let a = choose|a: int| 0 <= a < have.len() && have[a] == order[i];
            assert(frames.contains(have[a]));
            let b = choose|b: int| 0 <= b < frames.len() && frames[b] == have[a];
            assert(h.mapping[other][b] < h.grids.len());
            let _ = h.curves[order[i] as int];
        }
        same_values(h, t, other, order, order.len() as int);
    }
}

/// The curves of the batch from `from` on are of other keys.
pub open spec fn last_of_its_key(
    batch: Seq<(OpticalKey, Vec<Scalar>)>,
    b: int,
    n: int,
) -> bool {
    forall|d: int| b < d < n ==> (#[trigger] batch[d]).0@ != batch[b].0@
}

proof fn batch_keeps_order(
    h: Holdings,
    p: Seq<(int, Taking)>,
    batch: Seq<(OpticalKey, Vec<Scalar>)>,
    len: int,
    n: int,
)
    requires
        0 <= n <= batch.len(),
        weaver::ready(h, p, len),
        collection::lawful(h),
        weaver::linked(h),
        forall|b: int| 0 <= b < batch.len() ==> (#[trigger] batch[b]).1@.len() == len,
    ensures
        weaver::ready(weaver::spread_all(h, p, batch, n), p, len),
        collection::lawful(weaver::spread_all(h, p, batch, n)),
        weaver::linked(weaver::spread_all(h, p, batch, n)),
        weaver::spread_all(h, p, batch, n).grids == h.grids,
        forall|q: KeyView| confined(h, p, q) ==> #[trigger] confined(
            weaver::spread_all(h, p, batch, n),
            p,
            q,
        ),
    decreases n,
{
    if n > 0 {
        batch_keeps_order(h, p, batch, len, n - 1);
        let before = weaver::spread_all(h, p, batch, n - 1);
        assert(batch[n - 1].1@.len() == len);
        spreading_keeps_order(before, p, batch[n - 1].0@, batch[n - 1].1@);
        laws::spread_fills(before, p, batch[n - 1].0@, batch[n - 1].1@, p.len() as int);
    }
}

/// Each key of a distributed batch is read back: its last curve in the batch,
/// exactly, where the frames tile the points `lo..hi` of the grid.
pub proof fn a_tiled_batch_is_read_back(
    h: Holdings,
    p: Seq<(int, Taking)>,
    full: Seq<Scalar>,
    batch: Seq<(OpticalKey, Vec<Scalar>)>,
    lo: int,
    hi: int,
    b: int,
    n: int,
)
    requires
        0 <= b < n <= batch.len(),
        weaver::ready(h, p, full.len() as int),
        collection::lawful(h),
        weaver::linked(h),
        confined(h, p, batch[b].0@),
        frame::increasing(full),
        tiles(h, p, full, lo, hi),
        forall|c: int| 0 <= c < batch.len() ==> (#[trigger] batch[c]).1@.len() == full.len(),
        last_of_its_key(batch, b, n),
    ensures
        weaver::spread_all(h, p, batch, n).mapping.dom().contains(batch[b].0@),
        weaver::weaved(weaver::spread_all(h, p, batch, n), batch[b].0@) == (
            full.subrange(lo, hi),
            batch[b].1@.subrange(lo, hi),
        ),
    decreases n,
{
    let before = weaver::spread_all(h, p, batch, n - 1);
    let k = batch[n - 1].0@;
    let data = batch[n - 1].1@;
    batch_keeps_order(h, p, batch, full.len() as int, n - 1);
    assert(data.len() == full.len());
    if b == n - 1 {
        assert(confined(before, p, k));
        assert(tiles(before, p, full, lo, hi)) by {
            assert forall|e: int| 0 <= e < p.len() implies #[trigger] fits(
                before,
                p,
                full,
                lo,
                hi,
                e,
            ) by {
                assert(fits(h, p, full, lo, hi, e));
            }
        }
        a_tiled_curve_is_read_back(before, p, k, full, data, lo, hi);
    } else {
        assert(batch[n - 1].0@ != batch[b].0@);
        a_tiled_batch_is_read_back(h, p, full, batch, lo, hi, b, n - 1);
        other_keys_read_the_same(before, p, k, data, batch[b].0@);
    }
}

} // verus!
