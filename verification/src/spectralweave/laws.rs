//! What holds of storing, distributing and weaving taken together.
use crate::numeric::Numeric;
use crate::scalar::Scalar;
use crate::spectralweave::collection;
use crate::spectralweave::collection::Holdings;
use crate::spectralweave::key::{KeyView, OpticalKey};
use crate::spectralweave::plan;
use crate::spectralweave::plan::Taking;
use crate::spectralweave::weaver;
use vstd::prelude::*;

verus! {

/// Every grid gets one shared frame: once a curve was stored on it, also one
/// that did not fit, the next curve on it makes no frame and goes where the
/// first went.
pub proof fn one_frame_per_grid(
    h: Holdings,
    k: KeyView,
    values: Seq<Scalar>,
    wl: Seq<Scalar>,
    uid: usize,
    next: usize,
)
    requires
        collection::lawful(h),
        h.grids.len() < usize::MAX,
        h.framing_fault(wl) is None,
    ensures
        !h.stored(k, values, wl, uid).0.makes_frame(wl),
        h.stored(k, values, wl, uid).0.framed(wl, next) == (
            h.stored(k, values, wl, uid).0,
            h.framed(wl, uid).1,
        ),
{
    let (g, i) = h.framed(wl, uid);
    assert(g.shared(wl) == Some(i));
    assert(h.stored(k, values, wl, uid).0.shared(wl) == g.shared(wl));
}

proof fn lone_frame_order(h: Holdings, i: usize)
    ensures
        weaver::by_start(h, seq![i], 1) == seq![i],
{
    reveal_with_fuel(weaver::by_start, 2);
    let none: Seq<usize> = seq![];
    assert(weaver::place_for(h, none, i, 0) == 0);
    assert(none.insert(0, i) =~= seq![i]);
}

/// A stored curve is read back as it was stored, where its key is recorded for
/// no other frame than the one of its grid. A curve that was there before is
/// overwritten.
pub proof fn a_stored_curve_is_read_back(
    h: Holdings,
    k: KeyView,
    values: Seq<Scalar>,
    wl: Seq<Scalar>,
    uid: usize,
)
    requires
        collection::lawful(h),
        weaver::linked(h),
        forall|j: int|
            0 <= j < h.frames_of(k).len() ==> #[trigger] h.frames_of(k)[j] == h.framed(wl, uid).1,
        h.stored(k, values, wl, uid).1 is None,
    ensures
        h.stored(k, values, wl, uid).0.mapping.dom().contains(k),
        weaver::weaved(h.stored(k, values, wl, uid).0, k) == (wl, values),
{
    let (g, i) = h.framed(wl, uid);
    let t = h.stored(k, values, wl, uid).0;
    assert(g.grids[i as int] == wl);
    let none: Seq<usize> = seq![];
    let one: Seq<usize> = seq![i];
    let before = h.frames_of(k);
    assert(one.drop_last() =~= none);
    assert(before =~= none || before =~= one) by {
        if before.len() > 1 {
            assert(before[0] == before[1]);
        }
    }
    assert(one[0] == i);
    assert(collection::merged(before, one) =~= one) by {
        reveal_with_fuel(collection::merged, 2);
    }
    assert(t.mapping[k] == one) by {
        if g.curves[i as int].dom().contains(k) {
            assert(h.curves[i as int].dom().contains(k));
            assert(before.contains(i));
        }
    }
    assert(weaver::present(t, k, 1) =~= one) by {
        reveal_with_fuel(weaver::present, 2);
    }
    lone_frame_order(t, i);
    assert(weaver::joined_grids(t, one, 1) =~= wl) by {
        reveal_with_fuel(weaver::joined_grids, 2);
    }
    assert(weaver::joined_values(t, one, k, 1) =~= values) by {
        reveal_with_fuel(weaver::joined_values, 2);
    }
}

/// What the first `n` entries of a plan leave in each frame.
pub proof fn spread_fills(
    h: Holdings,
    p: Seq<(int, Taking)>,
    k: KeyView,
    data: Seq<Scalar>,
    n: int,
)
    requires
        0 <= n <= p.len(),
        forall|i: int, j: int|
            0 <= i < j < p.len() ==> (#[trigger] p[i]).0 < (#[trigger] p[j]).0,
        forall|i: int| 0 <= i < p.len() ==> 0 <= (#[trigger] p[i]).0 < h.curves.len(),
    ensures
        weaver::spread_upto(h, p, k, data, n).ids == h.ids,
        weaver::spread_upto(h, p, k, data, n).grids == h.grids,
        weaver::spread_upto(h, p, k, data, n).mapping == h.mapping,
        weaver::spread_upto(h, p, k, data, n).prints == h.prints,
        weaver::spread_upto(h, p, k, data, n).curves.len() == h.curves.len(),
        forall|e: int|
            0 <= e < n ==> weaver::spread_upto(h, p, k, data, n).curves[(#[trigger] p[e]).0]
                == h.curves[p[e].0].insert(k, p[e].1.of(data)),
        forall|f: int|
            0 <= f < h.curves.len() && (forall|e: int| 0 <= e < n ==> (#[trigger] p[e]).0 != f)
                ==> (#[trigger] weaver::spread_upto(h, p, k, data, n).curves[f]) == h.curves[f],
    decreases n,
{
    if n > 0 {
        spread_fills(h, p, k, data, n - 1);
        let before = weaver::spread_upto(h, p, k, data, n - 1);
        let after = weaver::spread_upto(h, p, k, data, n);
        let at = p[n - 1].0;
        assert(before.curves[at] == h.curves[at]);
        assert forall|e: int| 0 <= e < n implies after.curves[(#[trigger] p[e]).0]
            == h.curves[p[e].0].insert(k, p[e].1.of(data)) by {
            if e < n - 1 {
                assert(p[e].0 < p[n - 1].0);
            }
        }
        assert forall|f: int|
            0 <= f < h.curves.len() && (forall|e: int| 0 <= e < n ==> (#[trigger] p[e]).0
                != f) implies (#[trigger] after.curves[f]) == h.curves[f] by {
            assert(p[n - 1].0 != f);
        }
    }
}

/// Distributing a curve changes no grid, so the plan for the next curve on
/// the same grid is the same: a batch writes what its curves write one by one.
pub proof fn a_batch_is_its_curves_one_by_one<A: Numeric>(
    num: A,
    h: Holdings,
    wl: Seq<Scalar>,
    batch: Seq<(OpticalKey, Vec<Scalar>)>,
    n: int,
)
    requires
        0 <= n < batch.len(),
        weaver::ready(h, plan::plan_for(num, wl, h.grids), wl.len() as int),
        h.curves.len() == h.grids.len(),
    ensures
        ({
            let p = plan::plan_for(num, wl, h.grids);
            let so_far = weaver::spread_all(h, p, batch, n);
            &&& plan::plan_for(num, wl, so_far.grids) == p
            &&& weaver::first_gap(so_far, p, 0) == weaver::first_gap(h, p, 0)
            &&& weaver::spread_all(h, p, batch, n + 1) == weaver::spread(
                so_far,
                plan::plan_for(num, wl, so_far.grids),
                batch[n].0@,
                batch[n].1@,
            )
        }),
{
    let p = plan::plan_for(num, wl, h.grids);
    spread_all_keeps(h, p, batch, wl.len() as int, n);
    same_gap(h, weaver::spread_all(h, p, batch, n), p, 0);
}

proof fn same_gap(a: Holdings, b: Holdings, p: Seq<(int, Taking)>, e: int)
    requires
        a.grids == b.grids,
    ensures
        weaver::first_gap(a, p, e) == weaver::first_gap(b, p, e),
    decreases p.len() - e,
{
    if e < p.len() {
        same_gap(a, b, p, e + 1);
    }
}

proof fn spread_all_keeps(
    h: Holdings,
    p: Seq<(int, Taking)>,
    batch: Seq<(OpticalKey, Vec<Scalar>)>,
    len: int,
    n: int,
)
    requires
        0 <= n <= batch.len(),
        weaver::ready(h, p, len),
        h.curves.len() == h.grids.len(),
    ensures
        weaver::spread_all(h, p, batch, n).grids == h.grids,
        weaver::spread_all(h, p, batch, n).curves.len() == h.curves.len(),
    decreases n,
{
    if n > 0 {
        spread_all_keeps(h, p, batch, len, n - 1);
        spread_fills(
            weaver::spread_all(h, p, batch, n - 1),
            p,
            batch[n - 1].0@,
            batch[n - 1].1@,
            p.len() as int,
        );
    }
}

/// Distributing curves of different keys: the order does not matter.
pub proof fn different_keys_do_not_interfere(
    h: Holdings,
    p: Seq<(int, Taking)>,
    a: KeyView,
    a_data: Seq<Scalar>,
    b: KeyView,
    b_data: Seq<Scalar>,
)
    requires
        weaver::ready(h, p, a_data.len() as int),
        h.curves.len() == h.grids.len(),
        a != b,
    ensures
        weaver::spread(weaver::spread(h, p, a, a_data), p, b, b_data) == weaver::spread(
            weaver::spread(h, p, b, b_data),
            p,
            a,
            a_data,
        ),
{
    let n = p.len() as int;
    let ha = weaver::spread(h, p, a, a_data);
    let hb = weaver::spread(h, p, b, b_data);
    let hab = weaver::spread(ha, p, b, b_data);
    let hba = weaver::spread(hb, p, a, a_data);
    spread_fills(h, p, a, a_data, n);
    spread_fills(h, p, b, b_data, n);
    spread_fills(ha, p, b, b_data, n);
    spread_fills(hb, p, a, a_data, n);
    fresh_ignores_others(h, p, a, a_data, b, n);
    fresh_ignores_others(h, p, b, b_data, a, n);
    assert forall|f: int| 0 <= f < h.curves.len() implies #[trigger] hab.curves[f]
        == hba.curves[f] by {
        if exists|e: int| 0 <= e < n && (#[trigger] p[e]).0 == f {
            let e = choose|e: int| 0 <= e < n && (#[trigger] p[e]).0 == f;
            let m = h.curves[f];
            let va = p[e].1.of(a_data);
            let vb = p[e].1.of(b_data);
            assert(m.insert(a, va).insert(b, vb) =~= m.insert(b, vb).insert(a, va));
        } else {
            assert(ha.curves[f] == h.curves[f]);
            assert(hb.curves[f] == h.curves[f]);
        }
    }
    assert(hab.curves =~= hba.curves);
    assert(hab.mapping =~= hba.mapping);
}

proof fn fresh_ignores_others(
    h: Holdings,
    p: Seq<(int, Taking)>,
    a: KeyView,
    a_data: Seq<Scalar>,
    b: KeyView,
    n: int,
)
    requires
        0 <= n <= p.len(),
        a != b,
        forall|i: int, j: int|
            0 <= i < j < p.len() ==> (#[trigger] p[i]).0 < (#[trigger] p[j]).0,
        forall|i: int| 0 <= i < p.len() ==> 0 <= (#[trigger] p[i]).0 < h.curves.len(),
    ensures
        weaver::fresh_upto(weaver::spread(h, p, a, a_data), p, b, n) == weaver::fresh_upto(
            h,
            p,
            b,
            n,
        ),
    decreases n,
{
    if n > 0 {
        fresh_ignores_others(h, p, a, a_data, b, n - 1);
        spread_fills(h, p, a, a_data, p.len() as int);
        assert(weaver::spread(h, p, a, a_data).curves[p[n - 1].0] == h.curves[p[n
            - 1].0].insert(a, p[n - 1].1.of(a_data)));
    }
}

/// The frames that a plan names.
pub open spec fn named_frames(p: Seq<(int, Taking)>) -> Seq<usize> {
    Seq::new(p.len(), |e: int| p[e].0 as usize)
}

/// What a plan takes of a curve for frame `f`.
pub open spec fn part_for(p: Seq<(int, Taking)>, data: Seq<Scalar>, f: usize) -> Seq<Scalar> {
    let e = choose|e: int| 0 <= e < p.len() && (#[trigger] p[e]).0 == f;
    p[e].1.of(data)
}

/// The parts for the first `n` frames one after the other.
pub open spec fn joined_parts(
    p: Seq<(int, Taking)>,
    data: Seq<Scalar>,
    order: Seq<usize>,
    n: int,
) -> Seq<Scalar>
    decreases n,
{
    if n <= 0 {
        seq![]
    } else {
        joined_parts(p, data, order, n - 1) + part_for(p, data, order[n - 1])
    }
}

/// A curve distributed under a new key is read back as its parts: the grids
/// of the frames that the plan names, ordered by where they start, and what
/// the plan took for each of them.
pub proof fn a_distributed_curve_is_read_back(
    h: Holdings,
    p: Seq<(int, Taking)>,
    k: KeyView,
    data: Seq<Scalar>,
)
    requires
        weaver::ready(h, p, data.len() as int),
        collection::lawful(h),
        p.len() > 0,
        !h.mapping.dom().contains(k),
        forall|f: int| 0 <= f < h.curves.len() ==> !(#[trigger] h.curves[f]).dom().contains(k),
    ensures
        ({
            let order = weaver::by_start(h, named_frames(p), p.len() as int);
            let n = order.len() as int;
            &&& weaver::spread(h, p, k, data).mapping.dom().contains(k)
            &&& weaver::weaved(weaver::spread(h, p, k, data), k) == (
                weaver::joined_grids(h, order, n),
                joined_parts(p, data, order, n),
            )
        }),
{
    let n = p.len() as int;
    let t = weaver::spread(h, p, k, data);
    let frames = named_frames(p);
    spread_fills(h, p, k, data, n);
    all_fresh(h, p, k, n);
    assert(frames.take(n) =~= frames);
    merged_all(p, n);
    assert(t.mapping[k] == frames);
    all_present(h, t, p, k, data, n);
    assert(t.grids == h.grids);
    same_order(h, t, frames, n);
    let order = weaver::by_start(h, frames, n);
    order_holds(h, frames, n);
    let m = order.len() as int;
    same_joined(h, t, p, k, data, order, m);
}

proof fn all_fresh(h: Holdings, p: Seq<(int, Taking)>, k: KeyView, n: int)
    requires
        0 <= n <= p.len(),
        forall|i: int| 0 <= i < p.len() ==> 0 <= (#[trigger] p[i]).0 < h.curves.len(),
        forall|f: int| 0 <= f < h.curves.len() ==> !(#[trigger] h.curves[f]).dom().contains(k),
    ensures
        weaver::fresh_upto(h, p, k, n) == named_frames(p).take(n),
    decreases n,
{
    if n > 0 {
        all_fresh(h, p, k, n - 1);
        assert(!h.curves[p[n - 1].0].dom().contains(k));
        assert(named_frames(p).take(n) =~= named_frames(p).take(n - 1).push(
            p[n - 1].0 as usize,
        ));
    } else {
        assert(named_frames(p).take(0) =~= seq![]);
    }
}

proof fn merged_all(p: Seq<(int, Taking)>, n: int)
    requires
        0 <= n <= p.len(),
        forall|i: int, j: int|
            0 <= i < j < p.len() ==> (#[trigger] p[i]).0 < (#[trigger] p[j]).0,
        forall|i: int| 0 <= i < p.len() ==> 0 <= (#[trigger] p[i]).0 < usize::MAX,
    ensures
        collection::merged(seq![], named_frames(p).take(n)) == named_frames(p).take(n),
    decreases n,
{
    let s = named_frames(p).take(n);
    if n > 0 {
        merged_all(p, n - 1);
        assert(s.drop_last() =~= named_frames(p).take(n - 1));
        assert(!s.drop_last().contains(s.last())) by {
            assert forall|i: int| 0 <= i < n - 1 implies s.drop_last()[i] != s.last() by {
                assert(p[i].0 < p[n - 1].0);
            }
        }
        assert(s.drop_last().push(s.last()) =~= s);
    } else {
        assert(s =~= seq![]);
    }
}

proof fn all_present(
    h: Holdings,
    t: Holdings,
    p: Seq<(int, Taking)>,
    k: KeyView,
    data: Seq<Scalar>,
    n: int,
)
    requires
        0 <= n <= p.len(),
        t.mapping[k] == named_frames(p),
        forall|i: int| 0 <= i < p.len() ==> 0 <= (#[trigger] p[i]).0 < usize::MAX,
        forall|e: int|
            0 <= e < p.len() ==> t.curves[(#[trigger] p[e]).0] == h.curves[p[e].0].insert(
                k,
                p[e].1.of(data),
            ),
    ensures
        weaver::present(t, k, n) == named_frames(p).take(n),
    decreases n,
{
    if n > 0 {
        all_present(h, t, p, k, data, n - 1);
        assert(t.curves[p[n - 1].0].dom().contains(k));
        assert(named_frames(p)[n - 1] == p[n - 1].0);
        assert(named_frames(p).take(n) =~= named_frames(p).take(n - 1).push(
            named_frames(p)[n - 1],
        ));
    } else {
        assert(named_frames(p).take(0) =~= seq![]);
    }
}

proof fn same_place(h: Holdings, t: Holdings, order: Seq<usize>, f: usize, i: int)
    requires
        h.grids == t.grids,
    ensures
        weaver::place_for(h, order, f, i) == weaver::place_for(t, order, f, i),
    decreases order.len() - i,
{
    if i < order.len() {
        same_place(h, t, order, f, i + 1);
    }
}

/// The order of frames depends on the grids alone.
pub proof fn same_order(h: Holdings, t: Holdings, frames: Seq<usize>, n: int)
    requires
        h.grids == t.grids,
    ensures
        weaver::by_start(h, frames, n) == weaver::by_start(t, frames, n),
    decreases n,
{
    if n > 0 {
        same_order(h, t, frames, n - 1);
        same_place(h, t, weaver::by_start(h, frames, n - 1), frames[n - 1], 0);
    }
}

/// A place lies between where the search begins and the end.
pub proof fn place_bounds(h: Holdings, order: Seq<usize>, f: usize, i: int)
    requires
        0 <= i <= order.len(),
    ensures
        i <= weaver::place_for(h, order, f, i) <= order.len(),
    decreases order.len() - i,
{
    if i < order.len() {
        place_bounds(h, order, f, i + 1);
    }
}

/// Ordering drops no frame and invents none.
pub proof fn order_holds(h: Holdings, frames: Seq<usize>, n: int)
    requires
        0 <= n <= frames.len(),
    ensures
        weaver::by_start(h, frames, n).len() == n,
        weaver::by_start(h, frames, n).to_multiset() == frames.take(n).to_multiset(),
        forall|i: int|
            0 <= i < n ==> frames.contains(#[trigger] weaver::by_start(h, frames, n)[i]),
    decreases n,
{
    broadcast use vstd::seq_lib::group_to_multiset_ensures;

    if n > 0 {
        order_holds(h, frames, n - 1);
        let before = weaver::by_start(h, frames, n - 1);
        let after = weaver::by_start(h, frames, n);
        let at = weaver::place_for(h, before, frames[n - 1], 0);
        place_bounds(h, before, frames[n - 1], 0);
        assert forall|i: int| 0 <= i < n implies frames.contains(#[trigger] after[i]) by {
            if i < at {
                assert(after[i] == before[i]);
            } else if i > at {
                assert(after[i] == before[i - 1]);
            }
        }
        assert(frames.take(n) =~= frames.take(n - 1).push(frames[n - 1]));
        assert(after.to_multiset() =~= before.to_multiset().insert(frames[n - 1]));
    } else {
        assert(weaver::by_start(h, frames, n) =~= frames.take(n));
    }
}

/// Frames come in the order of their grids' starts.
pub proof fn weaving_is_ordered(h: Holdings, frames: Seq<usize>, n: int)
    requires
        0 <= n <= frames.len(),
    ensures
        forall|i: int, j: int|
            0 <= i < j < weaver::by_start(h, frames, n).len() ==> weaver::start_of(
                h,
                #[trigger] weaver::by_start(h, frames, n)[i],
            ) <= weaver::start_of(h, #[trigger] weaver::by_start(h, frames, n)[j]),
    decreases n,
{
    if n > 0 {
        weaving_is_ordered(h, frames, n - 1);
        let before = weaver::by_start(h, frames, n - 1);
        let after = weaver::by_start(h, frames, n);
        let f = frames[n - 1];
        let at = weaver::place_for(h, before, f, 0);
        place_bounds(h, before, f, 0);
        place_splits(h, before, f, 0);
        assert forall|i: int, j: int| 0 <= i < j < after.len() implies weaver::start_of(
            h,
            #[trigger] after[i],
        ) <= weaver::start_of(h, #[trigger] after[j]) by {
            let bi = if i < at {
                i
            } else {
                i - 1
            };
            let bj = if j < at {
                j
            } else {
                j - 1
            };
            if i != at {
                assert(after[i] == before[bi]);
            }
            if j != at {
                assert(after[j] == before[bj]);
            }
            if i == at {
                assert(weaver::start_of(h, before[at]) > weaver::start_of(h, f));
            }
        }
    }
}

proof fn place_splits(h: Holdings, order: Seq<usize>, f: usize, i: int)
    requires
        0 <= i <= order.len(),
    ensures
        forall|j: int|
            i <= j < weaver::place_for(h, order, f, i) ==> weaver::start_of(
                h,
                #[trigger] order[j],
            ) <= weaver::start_of(h, f),
        weaver::place_for(h, order, f, i) < order.len() ==> weaver::start_of(
            h,
            order[weaver::place_for(h, order, f, i)],
        ) > weaver::start_of(h, f),
    decreases order.len() - i,
{
    if i < order.len() {
        place_splits(h, order, f, i + 1);
    }
}

proof fn same_joined(
    h: Holdings,
    t: Holdings,
    p: Seq<(int, Taking)>,
    k: KeyView,
    data: Seq<Scalar>,
    order: Seq<usize>,
    n: int,
)
    requires
        0 <= n <= order.len(),
        t.grids == h.grids,
        forall|i: int| 0 <= i < order.len() ==> named_frames(p).contains(#[trigger] order[i]),
        forall|i: int| 0 <= i < p.len() ==> 0 <= (#[trigger] p[i]).0 < usize::MAX,
        forall|e: int|
            0 <= e < p.len() ==> t.curves[(#[trigger] p[e]).0] == h.curves[p[e].0].insert(
                k,
                p[e].1.of(data),
            ),
    ensures
        weaver::joined_grids(t, order, n) == weaver::joined_grids(h, order, n),
        weaver::joined_values(t, order, k, n) == joined_parts(p, data, order, n),
    decreases n,
{
    if n > 0 {
        same_joined(h, t, p, k, data, order, n - 1);
        let f = order[n - 1];
        assert(named_frames(p).contains(f));
        let i = choose|i: int| 0 <= i < named_frames(p).len() && named_frames(p)[i] == f;
        assert(p[i].0 == f);
        let e = choose|e: int| 0 <= e < p.len() && (#[trigger] p[e]).0 == f;
        assert(t.curves[p[e].0][k] == p[e].1.of(data));
    }
}

} // verus!
