//! Distributing long curves over frames and weaving them back together.
use crate::numeric::Numeric;
use crate::scalar::Scalar;
use crate::spectralweave::collection;
use crate::spectralweave::collection::{Holdings, OpticalCollection};
use crate::spectralweave::frame;
use crate::spectralweave::frame::{FrameFault, SpectralData};
use crate::spectralweave::key;
use crate::spectralweave::key::{wl_bits_eq, wl_signature, KeyView, OpticalKey, Unit};
use crate::spectralweave::plan;
use crate::spectralweave::plan::{
    copy_plan, copy_run, plan_from_left, PlanEntry, SharedSource, SliceOrIndices, Taking,
};
use crate::spectralweave::roundtrip;
use crate::spectralweave::store;
use crate::spectralweave::store::{
    cache_clear, cache_get, cache_new, cache_pop, cache_put, places_get, places_insert,
    places_new, CACHE_CAP,
};
use crate::text;
use crate::text::decimal_text;
use std::sync::Arc;
use vstd::prelude::*;
use vstd::string::*;

verus! {

/// From this many fragments on, a batch is worth a thread pool.
pub const UNWEAVE_PAR_FRAGMENTS: usize = 8192;

/// Whether a batch of `keys` curves over `frames` frames is worth a thread
/// pool; what is written does not depend on it.
pub fn worth_a_pool(frames: usize, keys: usize) -> (r: bool)
    ensures
        r == (keys > 1 && frames * keys >= UNWEAVE_PAR_FRAGMENTS),
{
    if keys <= 1 {
        return false;
    }
    match frames.checked_mul(keys) {
        Some(n) => n >= UNWEAVE_PAR_FRAGMENTS,
        None => true,
    }
}

/// Why a curve was not woven or distributed.
#[derive(Debug)]
pub enum WeaveFault {
    UnknownKey,
    /// The supplied grid has only some of a frame's points.
    Coverage { got: usize, want: usize, lo: Scalar, hi: Scalar },
    /// The curve does not have one value per point.
    Length { key: OpticalKey, got: usize, want: usize },
}

/// The message of a fault.
pub open spec fn weave_text<S: Fn(Scalar) -> String>(f: WeaveFault, show: S) -> Seq<char> {
    match f {
        WeaveFault::UnknownKey => "Key not found."@,
        WeaveFault::Coverage { got, want, lo, hi } => "unweave: the supplied grid carries "@
            + text::decimal(got as nat) + " of the "@ + text::decimal(want as nat)
            + " wavelengths in the frame spanning ["@ + text::shown(show, lo) + ", "@
            + text::shown(show, hi)
            + "] nm. A target curve is distributed by exact wavelength match (1e-12), not by interpolation, so it must contain every point of each frame it overlaps -- take the grid from get_weaved() rather than building a fresh linspace over the same range."@,
        WeaveFault::Length { key, got, want } => "unweave: the curve for key ("@ + text::shown(
            show,
            key.wavelength,
        ) + ", "@ + key.data_type@ + ", "@ + key.polarisation@ + ") has "@ + text::decimal(
            got as nat,
        ) + " value(s) for a "@ + text::decimal(want as nat)
            + "-point grid; a target curve must carry one value per wavelength."@,
    }
}

impl WeaveFault {
    /// The message, numbers shown by `show`.
    pub fn message<S: Fn(Scalar) -> String>(&self, show: &S) -> (r: String)
        requires
            text::shows(*show),
        ensures
            r@ == weave_text(*self, *show),
    {
        match self {
            WeaveFault::UnknownKey => String::from_str("Key not found."),
            WeaveFault::Coverage { got, want, lo, hi } => {
                let l: String = show(*lo);
                let h: String = show(*hi);
                String::from_str("unweave: the supplied grid carries ").concat(
                    decimal_text(*got as u64).as_str(),
                ).concat(" of the ").concat(decimal_text(*want as u64).as_str()).concat(
                    " wavelengths in the frame spanning [",
                ).concat(l.as_str()).concat(", ").concat(h.as_str()).concat(
                    "] nm. A target curve is distributed by exact wavelength match (1e-12), not by interpolation, so it must contain every point of each frame it overlaps -- take the grid from get_weaved() rather than building a fresh linspace over the same range.",
                )
            },
            WeaveFault::Length { key, got, want } => {
                let w: String = show(key.wavelength);
                String::from_str("unweave: the curve for key (").concat(w.as_str()).concat(
                    ", ",
                ).concat(key.data_type.as_str()).concat(", ").concat(
                    key.polarisation.as_str(),
                ).concat(") has ").concat(decimal_text(*got as u64).as_str()).concat(
                    " value(s) for a ",
                ).concat(decimal_text(*want as u64).as_str()).concat(
                    "-point grid; a target curve must carry one value per wavelength.",
                )
            },
        }
    }
}

// ---------------------------------------------------------------------------
// What distributing and weaving mean
// ---------------------------------------------------------------------------
/// The first entry of a plan from `e` on that does not cover its frame's grid.
pub open spec fn first_gap(h: Holdings, p: Seq<(int, Taking)>, e: int) -> Option<int>
    decreases p.len() - e,
{
    if e >= p.len() {
        None
    } else if p[e].1.size() != h.grids[p[e].0].len() {
        Some(e)
    } else {
        first_gap(h, p, e + 1)
    }
}

/// What is wrong with entry `e` of a plan.
pub open spec fn coverage_fault(h: Holdings, p: Seq<(int, Taking)>, e: int) -> WeaveFault {
    let g = h.grids[p[e].0];
    WeaveFault::Coverage {
        got: p[e].1.size() as usize,
        want: g.len() as usize,
        lo: g[0],
        hi: g.last(),
    }
}

/// The first `n` entries of the plan carried out for one curve.
pub open spec fn spread_upto(
    h: Holdings,
    p: Seq<(int, Taking)>,
    k: KeyView,
    data: Seq<Scalar>,
    n: int,
) -> Holdings
    decreases n,
{
    if n <= 0 {
        h
    } else {
        spread_upto(h, p, k, data, n - 1).with_curve(p[n - 1].0, k, p[n - 1].1.of(data))
    }
}

/// The frames among the first `n` entries that do not hold the key yet.
pub open spec fn fresh_upto(h: Holdings, p: Seq<(int, Taking)>, k: KeyView, n: int) -> Seq<usize>
    decreases n,
{
    if n <= 0 {
        seq![]
    } else if h.curves[p[n - 1].0].dom().contains(k) {
        fresh_upto(h, p, k, n - 1)
    } else {
        fresh_upto(h, p, k, n - 1).push(p[n - 1].0 as usize)
    }
}

/// One curve distributed by a plan: every frame of the plan holds its part,
/// and those that are new to the key are recorded under it.
pub open spec fn spread(
    h: Holdings,
    p: Seq<(int, Taking)>,
    k: KeyView,
    data: Seq<Scalar>,
) -> Holdings {
    let n = p.len() as int;
    let t = spread_upto(h, p, k, data, n);
    let fresh = fresh_upto(h, p, k, n);
    if fresh.len() == 0 {
        t
    } else {
        t.with_mapping(k, fresh)
    }
}

/// A frame that holds a key is recorded under it.
pub open spec fn linked(h: Holdings) -> bool {
    forall|i: int, k: KeyView|
        0 <= i < h.curves.len() && #[trigger] h.curves[i].dom().contains(k) ==> h.frames_of(
            k,
        ).contains(i as usize)
}

/// The frames grew, or the frames recorded under the key did.
pub open spec fn restructured(before: Holdings, after: Holdings, k: KeyView) -> bool {
    ||| after.grids.len() > before.grids.len()
    ||| after.frames_of(k).len() > before.frames_of(k).len()
}

/// How much a structural change counts.
pub open spec fn change(before: Holdings, after: Holdings, k: KeyView) -> int {
    if restructured(before, after, k) {
        1
    } else {
        0
    }
}

/// The first `n` curves of a batch distributed one after the other.
pub open spec fn spread_all(
    h: Holdings,
    p: Seq<(int, Taking)>,
    batch: Seq<(OpticalKey, Vec<Scalar>)>,
    n: int,
) -> Holdings
    decreases n,
{
    if n <= 0 {
        h
    } else {
        spread(spread_all(h, p, batch, n - 1), p, batch[n - 1].0@, batch[n - 1].1@)
    }
}

/// The structural changes that the first `n` curves of a batch make.
pub open spec fn changes_upto(
    h: Holdings,
    p: Seq<(int, Taking)>,
    batch: Seq<(OpticalKey, Vec<Scalar>)>,
    n: int,
) -> int
    decreases n,
{
    if n <= 0 {
        0
    } else {
        changes_upto(h, p, batch, n - 1) + change(
            spread_all(h, p, batch, n - 1),
            spread_all(h, p, batch, n),
            batch[n - 1].0@,
        )
    }
}

/// The frames recorded under a key that hold it, among the first `n`.
pub open spec fn present(h: Holdings, k: KeyView, n: int) -> Seq<usize>
    decreases n,
{
    if n <= 0 {
        seq![]
    } else {
        let f = h.mapping[k][n - 1];
        if h.curves[f as int].dom().contains(k) {
            present(h, k, n - 1).push(f)
        } else {
            present(h, k, n - 1)
        }
    }
}

/// Where a frame's grid starts, as a position in the total order.
pub open spec fn start_of(h: Holdings, f: usize) -> int {
    h.grids[f as int][0].total_key()
}

/// The first place from `p` on whose frame starts after `f`.
pub open spec fn place_for(h: Holdings, order: Seq<usize>, f: usize, p: int) -> int
    decreases order.len() - p,
{
    if p >= order.len() || start_of(h, order[p]) > start_of(h, f) {
        p
    } else {
        place_for(h, order, f, p + 1)
    }
}

/// The first `n` frames by where they start; frames that start alike keep
/// their order.
pub open spec fn by_start(h: Holdings, frames: Seq<usize>, n: int) -> Seq<usize>
    decreases n,
{
    if n <= 0 {
        seq![]
    } else {
        let before = by_start(h, frames, n - 1);
        before.insert(place_for(h, before, frames[n - 1], 0), frames[n - 1])
    }
}

/// The grids of the first `n` frames one after the other.
pub open spec fn joined_grids(h: Holdings, order: Seq<usize>, n: int) -> Seq<Scalar>
    decreases n,
{
    if n <= 0 {
        seq![]
    } else {
        joined_grids(h, order, n - 1) + h.grids[order[n - 1] as int]
    }
}

/// A key's values in the first `n` frames one after the other.
pub open spec fn joined_values(h: Holdings, order: Seq<usize>, k: KeyView, n: int) -> Seq<Scalar>
    decreases n,
{
    if n <= 0 {
        seq![]
    } else {
        joined_values(h, order, k, n - 1) + h.curves[order[n - 1] as int][k]
    }
}

/// The frames of a key in the order they are woven.
pub open spec fn weaving_order(h: Holdings, k: KeyView) -> Seq<usize> {
    let frames = present(h, k, h.mapping[k].len() as int);
    by_start(h, frames, frames.len() as int)
}

/// The woven curve of a key: its fragments joined in the order of their grids.
pub open spec fn weaved(h: Holdings, k: KeyView) -> (Seq<Scalar>, Seq<Scalar>) {
    let order = weaving_order(h, k);
    (
        joined_grids(h, order, order.len() as int),
        joined_values(h, order, k, order.len() as int),
    )
}

/// Curves that share a woven grid.
pub struct WovenGroup {
    pub wavelength: Vec<Scalar>,
    pub curves: Vec<(OpticalKey, Vec<Scalar>)>,
}

/// The key stands at place `c` of group `g`.
pub open spec fn stands(groups: Seq<WovenGroup>, k: KeyView, g: int, c: int) -> bool {
    0 <= g < groups.len() && 0 <= c < groups[g].curves@.len() && groups[g].curves@[c].0@ == k
}

/// The curve at a place of a group is that of a key in `done`, and its grid
/// has the group's fingerprint.
pub open spec fn belongs(h: Holdings, done: Seq<KeyView>, group: WovenGroup, c: int) -> bool {
    let k = group.curves@[c].0@;
    &&& done.contains(k)
    &&& weaved(h, k).0.len() > 0
    &&& weaved(h, k).1 == group.curves@[c].1@
    &&& key::signature(weaved(h, k).0) == key::signature(group.wavelength@)
}

/// `groups` sorts the woven curves of the keys `done` by the fingerprint of
/// their grids: no two groups share one, no key stands twice, and every key
/// with a curve stands somewhere. A group's grid is that of its first curve.
pub open spec fn grouped(h: Holdings, done: Seq<KeyView>, groups: Seq<WovenGroup>) -> bool {
    &&& forall|g: int, c: int|
        0 <= g < groups.len() && 0 <= c < groups[g].curves@.len() ==> #[trigger] belongs(
            h,
            done,
            groups[g],
            c,
        )
    &&& forall|g: int|
        0 <= g < groups.len() ==> {
            &&& (#[trigger] groups[g]).curves@.len() > 0
            &&& groups[g].wavelength@ == weaved(h, groups[g].curves@[0].0@).0
        }
    &&& forall|g: int, f: int|
        0 <= g < f < groups.len() ==> key::signature((#[trigger] groups[g]).wavelength@)
            != key::signature((#[trigger] groups[f]).wavelength@)
    &&& forall|k: KeyView, g: int, c: int, f: int, d: int|
        #[trigger] stands(groups, k, g, c) && #[trigger] stands(groups, k, f, d) ==> g == f && c
            == d
    &&& forall|i: int|
        0 <= i < done.len() && weaved(h, #[trigger] done[i]).0.len() > 0 ==> exists|
            g: int,
            c: int,
        |
            stands(groups, done[i], g, c)
}

// ---------------------------------------------------------------------------
// The weaver
// ---------------------------------------------------------------------------
/// The weaving store. Its generation rises with every structural change, that
/// is a new frame or a new key mapping, so that a cached plan can be told from
/// a stale one.
pub struct OpticalWeaver<A: Numeric> {
    num: A,
    inner: OpticalCollection,
    cache: lru::LruCache<u128, PlanEntry>,
    generation: usize,
}

/// A cached plan is not from the future, and one of the current generation is
/// the plan for its grid.
pub open spec fn trusty<A: Numeric>(
    num: A,
    grids: Seq<Seq<Scalar>>,
    generation: usize,
    e: PlanEntry,
) -> bool {
    &&& e.generation <= generation
    &&& e.generation == generation ==> plan::plan_view(e.plan@) == plan::plan_for(
        num,
        e.wavelength@,
        grids,
    )
}

/// All cached plans are trusty.
pub open spec fn all_trusty<A: Numeric>(
    num: A,
    grids: Seq<Seq<Scalar>>,
    generation: usize,
    c: Seq<(u128, PlanEntry)>,
) -> bool {
    forall|i: int|
        0 <= i < c.len() ==> trusty(num, grids, generation, (#[trigger] c[i]).1)
}

impl<A: Numeric> OpticalWeaver<A> {
    pub closed spec fn held(&self) -> Holdings {
        self.inner.holdings()
    }

    pub closed spec fn units(&self) -> (Unit, Unit) {
        self.inner.units()
    }

    pub closed spec fn era(&self) -> usize {
        self.generation
    }

    pub closed spec fn number(&self) -> A {
        self.num
    }

    /// The store is sound, and every frame that holds a key is recorded under
    /// it.
    pub closed spec fn wf(&self) -> bool {
        &&& self.sturdy()
        &&& linked(self.held())
    }

    /// The collection is valid and the cache can be relied on.
    closed spec fn sturdy(&self) -> bool {
        &&& self.num.sound()
        &&& self.inner.wf()
        &&& store::cache_limit(self.cache) > 0
        &&& all_trusty(self.num, self.held().grids, self.generation, store::cached(self.cache))
    }

    /// What the outside may rely on.
    pub proof fn wf_means(&self)
        requires
            self.wf(),
        ensures
            self.number().sound(),
            collection::lawful(self.held()),
            linked(self.held()),
    {
        self.inner.wf_means();
    }

    /// A weaver that caches plans for up to `cache_size` grids, one at least.
    pub fn new(num: A, cache_size: usize) -> (r: Self)
        requires
            num.sound(),
            cache_size <= CACHE_CAP,
        ensures
            r.wf(),
            r.held() == Holdings::none(),
            r.units() == (Unit::NM, Unit::RAW),
            r.era() == 0,
            r.number() == num,
    {
        let size: usize = if cache_size == 0 {
            1
        } else {
            cache_size
        };
        OpticalWeaver {
            num,
            inner: OpticalCollection::new(),
            cache: cache_new(size),
            generation: 0,
        }
    }

    /// The frames and keys.
    pub fn inner(&self) -> (r: &OpticalCollection)
        requires
            self.wf(),
        ensures
            r.wf(),
            r.holdings() == self.held(),
            r.units() == self.units(),
    {
        &self.inner
    }

    /// Records a structural change: all cached plans are stale.
    pub fn bump_generation(&mut self)
        requires
            old(self).wf(),
            old(self).era() < usize::MAX,
        ensures
            final(self).wf(),
            final(self).held() == old(self).held(),
            final(self).units() == old(self).units(),
            final(self).number() == old(self).number(),
            final(self).era() == old(self).era() + 1,
    {
        self.generation = self.generation + 1;
    }

    /// The structural-change counter.
    pub fn generation(&self) -> (r: usize)
        ensures
            r == self.era(),
    {
        self.generation
    }

    /// Stores a curve on its grid. A new frame or a new key mapping counts as a
    /// structural change, a frame also where the values do not fit it.
    pub fn set_data(
        &mut self,
        key: &OpticalKey,
        value: &Vec<Scalar>,
        wavelength: &Vec<Scalar>,
        input_spectral: Unit,
        input_intensity: Unit,
        uid: usize,
    ) -> (r: Result<(), FrameFault>)
        requires
            old(self).wf(),
            old(self).era() < usize::MAX,
        ensures
            final(self).wf(),
            final(self).units() == old(self).units(),
            final(self).number() == old(self).number(),
            final(self).held() == old(self).held().stored(key@, value@, wavelength@, uid).0,
            final(self).era() == old(self).era() + change(
                old(self).held(),
                final(self).held(),
                key@,
            ),
            match r {
                Ok(_) => old(self).held().stored(key@, value@, wavelength@, uid).1 is None,
                Err(e) => old(self).held().stored(key@, value@, wavelength@, uid).1 == Some(e),
            },
    {
        let ghost h0 = self.held();
        proof {
            self.inner.wf_means();
        }
        let (created, recorded, fault): (bool, bool, Option<FrameFault>) = self.inner.store(
            key,
            value,
            wavelength,
            input_spectral,
            input_intensity,
            uid,
        );
        if created || recorded {
            self.generation = self.generation + 1;
        }
        proof {
            roundtrip::storing_links(h0, key@, value@, wavelength@, uid);
        }
        assert(!created ==> self.held().grids == h0.grids);
        match fault {
            Some(e) => Err(e),
            None => Ok(()),
        }
    }

    /// Appends a frame of its own and counts the change.
    pub fn add_frame(&mut self, uid: usize, wl: &Vec<Scalar>) -> (r: Result<usize, FrameFault>)
        requires
            old(self).wf(),
            old(self).era() < usize::MAX,
        ensures
            final(self).wf(),
            final(self).units() == old(self).units(),
            final(self).number() == old(self).number(),
            match r {
                Err(e) => {
                    &&& frame::grid_fault(wl@) == Some(e)
                    &&& final(self).held() == old(self).held()
                    &&& final(self).era() == old(self).era()
                },
                Ok(i) => {
                    &&& frame::grid_fault(wl@) is None
                    &&& i == old(self).held().grids.len()
                    &&& final(self).held() == old(self).held().with_frame(uid, wl@)
                    &&& final(self).era() == old(self).era() + 1
                },
            },
    {
        match self.inner.push_frame(uid, wl) {
            Err(e) => Err(e),
            Ok(i) => {
                self.generation = self.generation + 1;
                Ok(i)
            },
        }
    }

    /// Stores a curve in one frame and records the frame under its key; a new
    /// record counts as a structural change.
    pub fn put_in_frame(&mut self, i: usize, key: &OpticalKey, values: Vec<Scalar>) -> (r: Result<
        (),
        FrameFault,
    >)
        requires
            old(self).wf(),
            old(self).era() < usize::MAX,
            i < old(self).held().grids.len(),
        ensures
            final(self).wf(),
            final(self).units() == old(self).units(),
            final(self).number() == old(self).number(),
            final(self).era() == old(self).era() + change(
                old(self).held(),
                final(self).held(),
                key@,
            ),
            match r {
                Err(e) => {
                    &&& old(self).held().length_fault(i as int, values@.len() as int) == Some(e)
                    &&& final(self).held() == old(self).held()
                },
                Ok(_) => {
                    &&& old(self).held().length_fault(i as int, values@.len() as int) is None
                    &&& final(self).held() == old(self).held().with_curve(
                        i as int,
                        key@,
                        values@,
                    ).with_mapping(key@, seq![i])
                },
            },
    {
        proof {
            self.inner.wf_means();
            roundtrip::recording_links(self.held(), key@, i, values@);
        }
        match self.inner.set_in_frame(i, key, SpectralData::from_arc(Arc::new(values))) {
            Err(e) => Err(e),
            Ok(_) => {
                if self.inner.map_frame_to_key(key, i) {
                    self.generation = self.generation + 1;
                }
                Ok(())
            },
        }
    }

    /// The woven curve of a key: grid and values.
    pub fn get_weaved(&self, key: &OpticalKey) -> (r: Result<
        (Vec<Scalar>, Vec<Scalar>),
        WeaveFault,
    >)
        requires
            self.wf(),
        ensures
            match r {
                Err(e) => e == WeaveFault::UnknownKey && !self.held().mapping.dom().contains(
                    key@,
                ),
                Ok((wl, data)) => {
                    &&& self.held().mapping.dom().contains(key@)
                    &&& (wl@, data@) == weaved(self.held(), key@)
                },
            },
    {
        let frames: Vec<usize> = match self.inner.frames_for_key(key) {
            None => {
                return Err(WeaveFault::UnknownKey);
            },
            Some(l) => l,
        };
        let ghost h = self.held();
        proof {
            self.inner.wf_means();
        }
        let mut order: Vec<usize> = Vec::new();
        let ghost mut have: Seq<usize> = seq![];
        let mut i: usize = 0;
        while i < frames.len()
            invariant
                self.wf(),
                h == self.held(),
                collection::lawful(h),
                h.mapping.dom().contains(key@),
                frames@ == h.mapping[key@],
                i <= frames.len(),
                have == present(h, key@, i as int),
                order@ == by_start(h, have, have.len() as int),
                forall|j: int|
                    0 <= j < order@.len() ==> #[trigger] order@[j] < h.grids.len()
                        && h.curves[order@[j] as int].dom().contains(key@),
            decreases frames.len() - i,
        {
            let f: usize = frames[i];
            assert(h.mapping[key@][i as int] == f);
            if self.frame_holds(f, key) {
                let p: usize = self.find_place(&order, f);
                let ghost before = order@;
                let ghost have0 = have;
                order.insert(p, f);
                proof {
                    have = have0.push(f);
                    by_start_prefix(h, have0, have, have0.len() as int);
                    assert forall|j: int| 0 <= j < order@.len() implies #[trigger] order@[j]
                        < h.grids.len() && h.curves[order@[j] as int].dom().contains(key@) by {
                        if j < p {
                            assert(order@[j] == before[j]);
                        } else if j > p {
                            assert(order@[j] == before[j - 1]);
                        }
                    }
                }
            }
            i += 1;
        }
        let mut all_wl: Vec<Scalar> = Vec::new();
        let mut all_data: Vec<Scalar> = Vec::new();
        let mut o: usize = 0;
        while o < order.len()
            invariant
                self.wf(),
                h == self.held(),
                collection::lawful(h),
                forall|j: int|
                    0 <= j < order@.len() ==> #[trigger] order@[j] < h.grids.len()
                        && h.curves[order@[j] as int].dom().contains(key@),
                o <= order.len(),
                all_wl@ == joined_grids(h, order@, o as int),
                all_data@ == joined_values(h, order@, key@, o as int),
            decreases order.len() - o,
        {
            let at: usize = order[o];
            assert(h.curves[order@[o as int] as int].dom().contains(key@));
            if let Some(f) = self.inner.frame_at(at) {
                let mut wl: Vec<Scalar> = crate::numeric::copy(f.wavelength());
                all_wl.append(&mut wl);
                if let Some(d) = f.get_data(key) {
                    let mut values: Vec<Scalar> = d.to_vec();
                    all_data.append(&mut values);
                }
            }
            o += 1;
        }
        Ok((all_wl, all_data))
    }

    fn frame_holds(&self, f: usize, key: &OpticalKey) -> (r: bool)
        requires
            self.wf(),
            f < self.held().grids.len(),
        ensures
            r == self.held().curves[f as int].dom().contains(key@),
    {
        match self.inner.frame_at(f) {
            Some(frm) => frm.get_data(key).is_some(),
            None => false,
        }
    }

    fn frame_start(&self, f: usize) -> (r: Scalar)
        requires
            self.wf(),
            f < self.held().grids.len(),
        ensures
            r == self.held().grids[f as int][0],
    {
        match self.inner.frame_at(f) {
            Some(frm) => frm.wl_bounds().0,
            None => Scalar::zero(),
        }
    }

    fn find_place(&self, order: &Vec<usize>, f: usize) -> (r: usize)
        requires
            self.wf(),
            f < self.held().grids.len(),
            forall|j: int|
                0 <= j < order@.len() ==> #[trigger] order@[j] < self.held().grids.len(),
        ensures
            r == place_for(self.held(), order@, f, 0),
            r <= order@.len(),
    {
        let s: Scalar = self.frame_start(f);
        let mut p: usize = 0;
        while p < order.len()
            invariant_except_break
                place_for(self.held(), order@, f, p as int) == place_for(
                    self.held(),
                    order@,
                    f,
                    0,
                ),
            invariant
                self.wf(),
                f < self.held().grids.len(),
                s == self.held().grids[f as int][0],
                forall|j: int|
                    0 <= j < order@.len() ==> #[trigger] order@[j] < self.held().grids.len(),
                p <= order.len(),
            ensures
                p == place_for(self.held(), order@, f, 0),
            decreases order.len() - p,
        {
            let t: Scalar = self.frame_start(order[p]);
            if s.precedes(t) {
                break;
            }
            p += 1;
        }
        p
    }

    /// All woven curves, grouped by the fingerprint of their grids; keys
    /// without a fragment are left out.
    pub fn get_weaved_collections(&self) -> (r: Vec<WovenGroup>)
        requires
            self.wf(),
        ensures
            exists|done: Seq<KeyView>|
                {
                    &&& done.no_duplicates()
                    &&& done.to_set() == self.held().mapping.dom()
                    &&& #[trigger] grouped(self.held(), done, r@)
                },
    {
        let keys: Vec<OpticalKey> = self.inner.keys();
        let ghost h = self.held();
        let ghost all = keys@.map_values(|k: OpticalKey| k@);
        let mut places: ahash::AHashMap<u128, usize> = places_new();
        let mut groups: Vec<WovenGroup> = Vec::new();
        let mut i: usize = 0;
        assert(all.take(0) =~= seq![]);
        while i < keys.len()
            invariant
                self.wf(),
                h == self.held(),
                all == keys@.map_values(|k: OpticalKey| k@),
                all.no_duplicates(),
                all.to_set() == h.mapping.dom(),
                i <= keys.len(),
                grouped(h, all.take(i as int), groups@),
                indexed(store::places_of(places), groups@),
            decreases keys.len() - i,
        {
            let k: &OpticalKey = &keys[i];
            assert(all[i as int] == k@);
            assert(all.to_set().contains(k@)) by {
                assert(all.contains(k@));
            }
            let ghost g0 = groups@;
            let ghost done0 = all.take(i as int);
            let ghost done1 = all.take(i + 1);
            proof {
                assert(done1 =~= done0.push(k@));
                assert forall|j: int| 0 <= j < i implies all[j] != k@ by {
                    assert(all[j] != all[i as int]);
                }
                assert(!done0.contains(k@));
            }
            match self.get_weaved(k) {
                Err(_) => {},
                Ok((wl, data)) => {
                    if wl.len() > 0 {
                        let sig: u128 = wl_signature(&wl);
                        match places_get(&places, sig) {
                            Some(g) => {
                                self.join_group(&mut groups, g, k.cloned(), data);
                                proof {
                                    grouped_join(
                                        h,
                                        done0,
                                        k@,
                                        g0,
                                        g as int,
                                        groups@,
                                    );
                                    assert(indexed(store::places_of(places), groups@));
                                }
                            },
                            None => {
                                let g: usize = groups.len();
                                let ghost wl0 = wl@;
                                let mut curves: Vec<(OpticalKey, Vec<Scalar>)> = Vec::new();
                                curves.push((k.cloned(), data));
                                groups.push(WovenGroup { wavelength: wl, curves });
                                places_insert(&mut places, sig, g);
                                proof {
                                    grouped_open(h, done0, k@, g0, groups@);
                                }
                            },
                        }
                    } else {
                        proof {
                            grouped_skip(h, done0, k@, g0);
                        }
                    }
                },
            }
            i += 1;
        }
        assert(all.take(i as int) =~= all);
        groups
    }

    fn join_group(
        &self,
        groups: &mut Vec<WovenGroup>,
        g: usize,
        key: OpticalKey,
        data: Vec<Scalar>,
    )
        requires
            g < old(groups)@.len(),
        ensures
            final(groups)@.len() == old(groups)@.len(),
            forall|j: int|
                0 <= j < old(groups)@.len() && j != g ==> final(groups)@[j] == old(groups)@[j],
            final(groups)@[g as int].wavelength == old(groups)@[g as int].wavelength,
            final(groups)@[g as int].curves@ == old(groups)@[g as int].curves@.push((key, data)),
    {
        groups[g].curves.push((key, data));
    }

    /// Drops all cached plans.
    pub fn invalidate_cache(&mut self)
        requires
            old(self).wf(),
        ensures
            final(self).wf(),
            final(self).held() == old(self).held(),
            final(self).units() == old(self).units(),
            final(self).number() == old(self).number(),
            final(self).era() == old(self).era(),
    {
        cache_clear(&mut self.cache);
    }

    /// The frames' grids.
    fn all_grids(&self) -> (r: Vec<&Vec<Scalar>>)
        requires
            self.wf(),
        ensures
            r@.map_values(|g: &Vec<Scalar>| g@) == self.held().grids,
    {
        let n: usize = self.inner.frame_count();
        let mut out: Vec<&Vec<Scalar>> = Vec::with_capacity(n);
        let mut i: usize = 0;
        while i < n
            invariant
                self.wf(),
                n == self.held().grids.len(),
                i <= n,
                out@.map_values(|g: &Vec<Scalar>| g@) == self.held().grids.take(i as int),
            decreases n - i,
        {
            let ghost before = out@.map_values(|g: &Vec<Scalar>| g@);
            if let Some(f) = self.inner.frame_at(i) {
                out.push(f.wavelength());
            }
            assert(out@.map_values(|g: &Vec<Scalar>| g@) =~= before.push(
                self.held().grids[i as int],
            ));
            i += 1;
            assert(out@.map_values(|g: &Vec<Scalar>| g@) =~= self.held().grids.take(i as int));
        }
        assert(self.held().grids.take(i as int) =~= self.held().grids);
        out
    }

    /// The plan for a grid, from the cache if a current one for exactly this
    /// grid is there.
    fn resolve_plan(&mut self, full: &Vec<Scalar>) -> (r: Vec<(usize, SliceOrIndices)>)
        requires
            old(self).wf(),
        ensures
            final(self).wf(),
            final(self).held() == old(self).held(),
            final(self).units() == old(self).units(),
            final(self).number() == old(self).number(),
            final(self).era() == old(self).era(),
            plan::plan_view(r@) == plan::plan_for(
                old(self).number(),
                full@,
                old(self).held().grids,
            ),
    {
        let sig: u128 = wl_signature(full);
        let ghost grids = self.held().grids;
        let ghost num0 = self.num;
        let ghost c0 = store::cached(self.cache);
        let now: usize = self.generation;
        let mut hit: Option<Vec<(usize, SliceOrIndices)>> = None;
        match cache_get(&mut self.cache, sig) {
            Some(e) => {
                if e.generation == now && wl_bits_eq(&e.wavelength, full) {
                    hit = Some(copy_plan(&e.plan));
                    proof {
                        position_bounds(c0, sig);
                        assert(trusty(num0, grids, now, c0[store::position(c0, sig)].1));
                    }
                }
            },
            None => {},
        }
        proof {
            let c1 = store::cached(self.cache);
            assert forall|i: int| 0 <= i < c1.len() implies trusty(
                self.num,
                grids,
                now,
                (#[trigger] c1[i]).1,
            ) by {
                let p = store::position(c0, sig);
                if p < c0.len() {
                    position_bounds(c0, sig);
                    if i == 0 {
                        assert(c1[0] == c0[p]);
                    } else if i - 1 < p {
                        assert(c1[i] == c0[i - 1]);
                    } else {
                        assert(c1[i] == c0[i]);
                    }
                }
            }
        }
        if let Some(plan) = hit {
            return plan;
        }
        let ghost c1 = store::cached(self.cache);
        cache_pop(&mut self.cache, sig);
        proof {
            let c2 = store::cached(self.cache);
            assert forall|i: int| 0 <= i < c2.len() implies trusty(
                self.num,
                grids,
                now,
                (#[trigger] c2[i]).1,
            ) by {
                let p = store::position(c1, sig);
                position_bounds(c1, sig);
                if p < c1.len() {
                    if i < p {
                        assert(c2[i] == c1[i]);
                    } else {
                        assert(c2[i] == c1[i + 1]);
                    }
                }
            }
        }
        let grids_now: Vec<&Vec<Scalar>> = self.all_grids();
        proof {
            self.inner.wf_means();
            let gs = grids_now@.map_values(|g: &Vec<Scalar>| g@);
            assert forall|i: int| 0 <= i < grids_now@.len() implies frame::grid_fault(
                (#[trigger] grids_now@[i])@,
            ) is None by {
                assert(gs[i] == grids[i]);
            }
        }
        let plan: Vec<(usize, SliceOrIndices)> = plan_from_left(
            &self.num,
            full,
            &grids_now,
        );
        let kept: PlanEntry = PlanEntry {
            generation: now,
            wavelength: crate::numeric::copy(full),
            plan: copy_plan(&plan),
        };
        let ghost c2 = store::cached(self.cache);
        cache_put(&mut self.cache, sig, kept);
        proof {
            let c3 = store::cached(self.cache);
            assert forall|i: int| 0 <= i < c3.len() implies trusty(
                self.num,
                grids,
                now,
                (#[trigger] c3[i]).1,
            ) by {
                let p = store::position(c2, sig);
                position_bounds(c2, sig);
                if i > 0 {
                    if p < c2.len() {
                        if i - 1 < p {
                            assert(c3[i] == c2[i - 1]);
                        } else {
                            assert(c3[i] == c2[i]);
                        }
                    } else {
                        assert(c3[i] == c2[i - 1]);
                    }
                }
            }
        }
        plan
    }

    /// What is wrong with a plan.
    fn check_plan(&self, plan: &Vec<(usize, SliceOrIndices)>) -> (r: Option<WeaveFault>)
        requires
            self.wf(),
            forall|e: int|
                0 <= e < plan@.len() ==> (#[trigger] plan@[e]).0 < self.held().grids.len()
                    && plan@[e].1.taking().size() >= 0,
        ensures
            match first_gap(self.held(), plan::plan_view(plan@), 0) {
                None => r is None,
                Some(e) => r == Some(
                    coverage_fault(self.held(), plan::plan_view(plan@), e),
                ),
            },
    {
        let ghost h = self.held();
        let ghost p = plan::plan_view(plan@);
        let mut e: usize = 0;
        while e < plan.len()
            invariant
                self.wf(),
                h == self.held(),
                p == plan::plan_view(plan@),
                forall|e: int|
                    0 <= e < plan@.len() ==> (#[trigger] plan@[e]).0 < h.grids.len()
                        && plan@[e].1.taking().size() >= 0,
                e <= plan@.len(),
                first_gap(h, p, e as int) == first_gap(h, p, 0),
            decreases plan.len() - e,
        {
            assert(p[e as int] == (plan@[e as int].0 as int, plan@[e as int].1.taking()));
            let got: usize = plan[e].1.len();
            if let Some(f) = self.inner.frame_at(plan[e].0) {
                let want: usize = f.wavelength().len();
                if got != want {
                    let (lo, hi): (Scalar, Scalar) = f.wl_bounds();
                    return Some(WeaveFault::Coverage { got, want, lo, hi });
                }
            }
            e += 1;
        }
        None
    }

    /// The span of the runs of a plan; none if it has no run.
    fn shared_span(plan: &Vec<(usize, SliceOrIndices)>) -> (r: Option<(usize, usize)>)
        ensures
            match r {
                Some((lo, hi)) => {
                    &&& lo < hi
                    &&& forall|e: int|
                        0 <= e < plan@.len() ==> ((#[trigger] plan@[e]).1.taking() matches
                            Taking::Run { from, upto } ==> lo <= from && upto <= hi)
                    &&& exists|e: int| 0 <= e < plan@.len() && ((#[trigger] plan@[e]).1.taking()
                        matches Taking::Run { from, upto } && upto == hi)
                },
                None => forall|e: int|
                    0 <= e < plan@.len() ==> ((#[trigger] plan@[e]).1.taking() matches Taking::Run {
                        from,
                        upto,
                    } ==> from >= upto),
            },
    {
        let mut lo: usize = usize::MAX;
        let mut hi: usize = 0;
        let mut e: usize = 0;
        while e < plan.len()
            invariant
                e <= plan@.len(),
                forall|i: int|
                    0 <= i < e ==> ((#[trigger] plan@[i]).1.taking() matches Taking::Run {
                        from,
                        upto,
                    } ==> lo <= from && upto <= hi),
                hi > 0 ==> exists|i: int|
                    0 <= i < e && ((#[trigger] plan@[i]).1.taking() matches Taking::Run {
                        from,
                        upto,
                    } && upto == hi),
            decreases plan.len() - e,
        {
            if let SliceOrIndices::Slice { from, upto } = &plan[e].1 {
                assert(plan@[e as int].1.taking() == (Taking::Run {
                    from: *from as int,
                    upto: *upto as int,
                }));
                if *from < lo {
                    lo = *from;
                }
                if *upto > hi {
                    hi = *upto;
                }
            }
            e += 1;
        }
        if lo < hi {
            Some((lo, hi))
        } else {
            None
        }
    }

    /// Distributes one curve by a checked plan and returns how many fragments
    /// were written.
    fn unweave_one(
        &mut self,
        plan: &Vec<(usize, SliceOrIndices)>,
        key: &OpticalKey,
        data: &Vec<Scalar>,
    ) -> (r: usize)
        requires
            old(self).wf(),
            old(self).era() < usize::MAX,
            ready(old(self).held(), plan::plan_view(plan@), data@.len() as int),
        ensures
            final(self).wf(),
            final(self).units() == old(self).units(),
            final(self).number() == old(self).number(),
            final(self).era() == old(self).era() + change(
                old(self).held(),
                final(self).held(),
                key@,
            ),
            final(self).held() == spread(
                old(self).held(),
                plan::plan_view(plan@),
                key@,
                data@,
            ),
            final(self).held().grids == old(self).held().grids,
            r == plan@.len(),
    {
        let ghost h0 = self.held();
        let ghost p = plan::plan_view(plan@);
        proof {
            self.inner.wf_means();
        }
        let span: Option<(usize, usize)> = Self::shared_span(plan);
        let shared: Option<SharedSource> = match span {
            Some((lo, hi)) => {
                proof {
                    let e = choose|e: int|
                        0 <= e < plan@.len() && ((#[trigger] plan@[e]).1.taking() matches
                            Taking::Run { from, upto } && upto == hi);
                    assert(p[e].1.within(data@.len() as int));
                }
                Some(SharedSource { buf: Arc::new(copy_run(data, lo, hi)), base: lo })
            },
            None => None,
        };
        let mut fresh: Vec<usize> = Vec::new();
        let mut e: usize = 0;
        while e < plan.len()
            invariant
                self.sturdy(),
                p == plan::plan_view(plan@),
                ready(h0, p, data@.len() as int),
                h0.curves.len() == h0.grids.len(),
                self.units() == old(self).units(),
                self.number() == old(self).number(),
                self.era() == old(self).era(),
                self.held().grids == h0.grids,
                self.held().mapping == h0.mapping,
                self.era() < usize::MAX,
                e <= plan@.len(),
                self.held() == spread_upto(h0, p, key@, data@, e as int),
                fresh@ == fresh_upto(h0, p, key@, e as int),
                forall|i: int| 0 <= i < fresh@.len() ==> #[trigger] fresh@[i] < h0.grids.len(),
                shared matches Some(s) ==> s.copies(data@) && span == Some(
                    (s.base, (s.base + s.buf@.len()) as usize),
                ),
                shared is None ==> span is None,
                span matches Some((lo, hi)) ==> forall|i: int|
                    0 <= i < plan@.len() ==> ((#[trigger] plan@[i]).1.taking() matches
                        Taking::Run { from, upto } ==> lo <= from && upto <= hi),
            decreases plan.len() - e,
        {
            let f: usize = plan[e].0;
            assert(p[e as int] == (f as int, plan@[e as int].1.taking()));
            assert(p[e as int].1.within(data@.len() as int));
            let source: Option<&SharedSource> = match &shared {
                Some(s) => Some(s),
                None => None,
            };
            let part: SpectralData = plan[e].1.gather(data, source);
            proof {
                spread_leaves(h0, p, key@, data@, e as int, e as int);
                taken_len(p[e as int].1, data@);
            }
            let got: Result<bool, FrameFault> = self.inner.set_in_frame(f, key, part);
            if let Ok(new) = got {
                if new {
                    fresh.push(f);
                }
            }
            e += 1;
        }
        if fresh.len() > 0 {
            let added: usize = self.inner.map_frames_to_key(key, &fresh);
            if added > 0 {
                self.generation = self.generation + 1;
            }
        }
        proof {
            roundtrip::spreading_keeps_order(h0, p, key@, data@);
        }
        plan.len()
    }

    /// Distributes one curve over the frames by exact wavelength match and
    /// returns how many fragments were written; a refused curve leaves all
    /// curves as they were. New records under the key count as one structural
    /// change. On a grid that cannot be searched for the range of some frame,
    /// the points that are taken are left open.
    pub fn unweave(
        &mut self,
        key: &OpticalKey,
        full_wavelength: &Vec<Scalar>,
        full_data: &Vec<Scalar>,
    ) -> (r: Result<usize, WeaveFault>)
        requires
            old(self).wf(),
            old(self).era() < usize::MAX,
        ensures
            final(self).wf(),
            final(self).units() == old(self).units(),
            final(self).number() == old(self).number(),
            final(self).era() == old(self).era() + change(
                old(self).held(),
                final(self).held(),
                key@,
            ),
            r is Err ==> final(self).held() == old(self).held(),
            exists|p: Seq<(int, Taking)>|
                planned(old(self).held(), p, full_wavelength@.len() as int)
                    && #[trigger] distributes(
                    old(self).held(),
                    p,
                    key@,
                    full_wavelength@.len() as int,
                    full_data@,
                    final(self).held(),
                    r,
                ),
            plan::all_searchable(full_wavelength@, old(self).held().grids) ==> distributes(
                old(self).held(),
                plan::plan_for(old(self).number(), full_wavelength@, old(self).held().grids),
                key@,
                full_wavelength@.len() as int,
                full_data@,
                final(self).held(),
                r,
            ),
    {
        let r: Result<usize, WeaveFault> = self.unweave_planned(key, full_wavelength, full_data);
        proof {
            let h = old(self).held();
            let p = plan::plan_for(old(self).number(), full_wavelength@, h.grids);
            old(self).inner.wf_means();
            assert(full_wavelength.len() <= usize::MAX);
            a_plan_is_planned(old(self).number(), full_wavelength@, h);
            assert(distributes(
                h,
                p,
                key@,
                full_wavelength@.len() as int,
                full_data@,
                self.held(),
                r,
            ));
        }
        r
    }

    /// Distributes a curve by the plan that a search from the left gives.
    fn unweave_planned(
        &mut self,
        key: &OpticalKey,
        full_wavelength: &Vec<Scalar>,
        full_data: &Vec<Scalar>,
    ) -> (r: Result<usize, WeaveFault>)
        requires
            old(self).wf(),
            old(self).era() < usize::MAX,
        ensures
            final(self).wf(),
            final(self).units() == old(self).units(),
            final(self).number() == old(self).number(),
            final(self).era() == old(self).era() + change(
                old(self).held(),
                final(self).held(),
                key@,
            ),
            distributes(
                old(self).held(),
                plan::plan_for(old(self).number(), full_wavelength@, old(self).held().grids),
                key@,
                full_wavelength@.len() as int,
                full_data@,
                final(self).held(),
                r,
            ),
    {
        let ghost h = self.held();
        let plan: Vec<(usize, SliceOrIndices)> = self.resolve_plan(full_wavelength);
        let ghost p = plan::plan_view(plan@);
        let n: usize = full_wavelength.len();
        proof {
            self.inner.wf_means();
            plan_ready(self.num, full_wavelength@, h, plan@);
        }
        match self.check_plan(&plan) {
            Some(e) => {
                return Err(e);
            },
            None => {},
        }
        if full_data.len() != n {
            return Err(
                WeaveFault::Length { key: key.cloned(), got: full_data.len(), want: n },
            );
        }
        proof {
            no_gap_means(h, p, 0);
        }
        Ok(self.unweave_one(&plan, key, full_data))
    }

    /// Distributes many curves that share one grid. Everything is checked
    /// before anything is written, so a refused batch leaves all curves as
    /// they were. Each curve counts as it would on its own. On a grid that
    /// cannot be searched for the range of some frame, the points that are
    /// taken are left open.
    pub fn unweave_collection(
        &mut self,
        common_wavelength: &Vec<Scalar>,
        data_batch: &Vec<(OpticalKey, Vec<Scalar>)>,
    ) -> (r: Result<usize, WeaveFault>)
        requires
            old(self).wf(),
            old(self).era() + data_batch@.len() <= usize::MAX,
            old(self).held().grids.len() * data_batch@.len() <= usize::MAX,
        ensures
            final(self).wf(),
            final(self).units() == old(self).units(),
            final(self).number() == old(self).number(),
            r is Err ==> final(self).held() == old(self).held(),
            exists|p: Seq<(int, Taking)>|
                planned(old(self).held(), p, common_wavelength@.len() as int)
                    && #[trigger] distributes_all(
                    old(self).held(),
                    p,
                    common_wavelength@.len() as int,
                    data_batch@,
                    final(self).held(),
                    final(self).era() - old(self).era(),
                    r,
                ),
            plan::all_searchable(common_wavelength@, old(self).held().grids) ==> distributes_all(
                old(self).held(),
                plan::plan_for(old(self).number(), common_wavelength@, old(self).held().grids),
                common_wavelength@.len() as int,
                data_batch@,
                final(self).held(),
                final(self).era() - old(self).era(),
                r,
            ),
    {
        let r: Result<usize, WeaveFault> = self.unweave_batch(common_wavelength, data_batch);
        proof {
            let h = old(self).held();
            let p = plan::plan_for(old(self).number(), common_wavelength@, h.grids);
            old(self).inner.wf_means();
            assert(common_wavelength.len() <= usize::MAX);
            a_plan_is_planned(old(self).number(), common_wavelength@, h);
            assert(distributes_all(
                h,
                p,
                common_wavelength@.len() as int,
                data_batch@,
                self.held(),
                self.era() - old(self).era(),
                r,
            ));
        }
        r
    }

    /// Distributes a batch by the plan that a search from the left gives.
    fn unweave_batch(
        &mut self,
        common_wavelength: &Vec<Scalar>,
        data_batch: &Vec<(OpticalKey, Vec<Scalar>)>,
    ) -> (r: Result<usize, WeaveFault>)
        requires
            old(self).wf(),
            old(self).era() + data_batch@.len() <= usize::MAX,
            old(self).held().grids.len() * data_batch@.len() <= usize::MAX,
        ensures
            final(self).wf(),
            final(self).units() == old(self).units(),
            final(self).number() == old(self).number(),
            distributes_all(
                old(self).held(),
                plan::plan_for(old(self).number(), common_wavelength@, old(self).held().grids),
                common_wavelength@.len() as int,
                data_batch@,
                final(self).held(),
                final(self).era() - old(self).era(),
                r,
            ),
    {
        if data_batch.len() == 0 {
            return Ok(0);
        }
        let ghost h = self.held();
        let plan: Vec<(usize, SliceOrIndices)> = self.resolve_plan(common_wavelength);
        let ghost p = plan::plan_view(plan@);
        let n: usize = common_wavelength.len();
        proof {
            self.inner.wf_means();
            plan_ready(self.num, common_wavelength@, h, plan@);
        }
        match self.check_plan(&plan) {
            Some(e) => {
                return Err(e);
            },
            None => {},
        }
        let mut i: usize = 0;
        while i < data_batch.len()
            invariant
                self.wf(),
                self.held() == h,
                self.units() == old(self).units(),
                self.number() == old(self).number(),
                self.era() == old(self).era(),
                h == old(self).held(),
                p == plan::plan_for(old(self).number(), common_wavelength@, h.grids),
                first_gap(h, p, 0) is None,
                data_batch@.len() > 0,
                n == common_wavelength@.len(),
                i <= data_batch@.len(),
                first_misfit(data_batch@, n as int, i as int) == first_misfit(
                    data_batch@,
                    n as int,
                    0,
                ),
            decreases data_batch.len() - i,
        {
            if data_batch[i].1.len() != n {
                return Err(
                    WeaveFault::Length {
                        key: data_batch[i].0.cloned(),
                        got: data_batch[i].1.len(),
                        want: n,
                    },
                );
            }
            i += 1;
        }
        proof {
            no_gap_means(h, p, 0);
            no_misfit_means(data_batch@, n as int, 0);
            plan_is_short(self.num, common_wavelength@, h.grids, h.grids.len() as int);
            assert(p.len() * data_batch@.len() <= h.grids.len() * data_batch@.len())
                by (nonlinear_arith)
                requires
                    p.len() <= h.grids.len(),
                    0 <= data_batch@.len(),
            ;
        }
        let mut total: usize = 0;
        let mut b: usize = 0;
        while b < data_batch.len()
            invariant
                self.wf(),
                p == plan::plan_view(plan@),
                ready(h, p, n as int),
                self.held().grids == h.grids,
                self.units() == old(self).units(),
                self.number() == old(self).number(),
                self.era() == old(self).era() + changes_upto(h, p, data_batch@, b as int),
                self.era() <= old(self).era() + b,
                old(self).era() + data_batch@.len() <= usize::MAX,
                forall|j: int|
                    0 <= j < data_batch@.len() ==> (#[trigger] data_batch@[j]).1@.len() == n,
                b <= data_batch@.len(),
                p.len() * data_batch@.len() <= usize::MAX,
                total == p.len() * b,
                self.held() == spread_all(h, p, data_batch@, b as int),
            decreases data_batch.len() - b,
        {
            assert(data_batch@[b as int].1@.len() == n);
            let wrote: usize = self.unweave_one(&plan, &data_batch[b].0, &data_batch[b].1);
            assert(p.len() * b + p.len() == p.len() * (b + 1)) by (nonlinear_arith);
            assert(p.len() * (b + 1) <= p.len() * data_batch@.len()) by (nonlinear_arith)
                requires
                    b + 1 <= data_batch@.len(),
                    0 <= p.len(),
            ;
            total = total + wrote;
            b += 1;
        }
        Ok(total)
    }
}

/// A plan names frames, each once, and takes points of a curve of `n` values.
pub open spec fn planned(h: Holdings, p: Seq<(int, Taking)>, n: int) -> bool {
    &&& forall|e: int|
        0 <= e < p.len() ==> {
            &&& 0 <= (#[trigger] p[e]).0 < h.grids.len()
            &&& p[e].1.within(n)
        }
    &&& forall|e: int, d: int|
        0 <= e < d < p.len() ==> (#[trigger] p[e]).0 < (#[trigger] p[d]).0
}

/// Distributing a curve of a grid of `n` points by a plan gives `r` and leaves
/// `after`: refused with nothing changed if the plan leaves a frame's points
/// out or the curve does not have `n` values.
pub open spec fn distributes(
    h: Holdings,
    p: Seq<(int, Taking)>,
    key: KeyView,
    n: int,
    data: Seq<Scalar>,
    after: Holdings,
    r: Result<usize, WeaveFault>,
) -> bool {
    match first_gap(h, p, 0) {
        Some(e) => {
            &&& r == Err::<usize, WeaveFault>(coverage_fault(h, p, e))
            &&& after == h
        },
        None => if data.len() != n {
            &&& r matches Err(WeaveFault::Length { key: k, got, want }) && k@ == key && got
                == data.len() && want == n
            &&& after == h
        } else {
            &&& r == Ok::<usize, WeaveFault>(p.len() as usize)
            &&& after == spread(h, p, key, data)
        },
    }
}

/// Distributing a batch gives `r`, leaves `after` and counts `news` structural
/// changes: refused with nothing changed if the plan leaves a frame's points
/// out, or by the first curve that does not have `n` values.
pub open spec fn distributes_all(
    h: Holdings,
    p: Seq<(int, Taking)>,
    n: int,
    batch: Seq<(OpticalKey, Vec<Scalar>)>,
    after: Holdings,
    news: int,
    r: Result<usize, WeaveFault>,
) -> bool {
    if batch.len() == 0 {
        &&& r == Ok::<usize, WeaveFault>(0)
        &&& after == h
        &&& news == 0
    } else {
        match first_gap(h, p, 0) {
            Some(e) => {
                &&& r == Err::<usize, WeaveFault>(coverage_fault(h, p, e))
                &&& after == h
                &&& news == 0
            },
            None => match first_misfit(batch, n, 0) {
                Some(i) => {
                    &&& r matches Err(WeaveFault::Length { key: k, got, want }) && k@
                        == batch[i].0@ && got == batch[i].1@.len() && want == n
                    &&& after == h
                    &&& news == 0
                },
                None => {
                    &&& r matches Ok(total) && total == p.len() * batch.len()
                    &&& after == spread_all(h, p, batch, batch.len() as int)
                    &&& news == changes_upto(h, p, batch, batch.len() as int)
                },
            },
        }
    }
}

/// The first curve of a batch from `i` on that does not have `n` values.
pub open spec fn first_misfit(
    batch: Seq<(OpticalKey, Vec<Scalar>)>,
    n: int,
    i: int,
) -> Option<int>
    decreases batch.len() - i,
{
    if i >= batch.len() {
        None
    } else if batch[i].1@.len() != n {
        Some(i)
    } else {
        first_misfit(batch, n, i + 1)
    }
}

/// Every entry of a plan covers its frame and lies in a curve of `n` values;
/// no frame is named twice.
pub open spec fn ready(h: Holdings, p: Seq<(int, Taking)>, n: int) -> bool {
    &&& forall|e: int|
        0 <= e < p.len() ==> {
            &&& 0 <= (#[trigger] p[e]).0 < h.grids.len()
            &&& p[e].1.within(n)
            &&& p[e].1.size() == h.grids[p[e].0].len()
        }
    &&& forall|e: int, d: int|
        0 <= e < d < p.len() ==> (#[trigger] p[e]).0 < (#[trigger] p[d]).0
}

/// The fingerprints lead to the groups that have them.
spec fn indexed(places: Map<u128, usize>, groups: Seq<WovenGroup>) -> bool {
    &&& forall|s: u128| #[trigger]
        places.dom().contains(s) ==> places[s] < groups.len() && key::signature(
            groups[places[s] as int].wavelength@,
        ) == s
    &&& forall|g: int|
        0 <= g < groups.len() ==> places.dom().contains(
            key::signature((#[trigger] groups[g]).wavelength@),
        )
}

proof fn grouped_skip(h: Holdings, done: Seq<KeyView>, k: KeyView, groups: Seq<WovenGroup>)
    requires
        grouped(h, done, groups),
        weaved(h, k).0.len() == 0,
    ensures
        grouped(h, done.push(k), groups),
{
    let next = done.push(k);
    assert forall|g: int, c: int|
        0 <= g < groups.len() && 0 <= c < groups[g].curves@.len() implies #[trigger] belongs(
        h,
        next,
        groups[g],
        c,
    ) by {
        assert(belongs(h, done, groups[g], c));
        still_contains(done, k, groups[g].curves@[c].0@);
    }
    assert forall|i: int|
        0 <= i < next.len() && weaved(h, #[trigger] next[i]).0.len() > 0 implies exists|
        g: int,
        c: int,
    | stands(groups, next[i], g, c) by {
        assert(next[i] == done[i]);
    }
}

proof fn still_contains(done: Seq<KeyView>, k: KeyView, x: KeyView)
    requires
        done.contains(x),
    ensures
        done.push(k).contains(x),
{
    let i = choose|i: int| 0 <= i < done.len() && done[i] == x;
    assert(done.push(k)[i] == x);
}

proof fn grouped_open(
    h: Holdings,
    done: Seq<KeyView>,
    k: KeyView,
    before: Seq<WovenGroup>,
    groups: Seq<WovenGroup>,
)
    requires
        grouped(h, done, before),
        !done.contains(k),
        weaved(h, k).0.len() > 0,
        groups.len() == before.len() + 1,
        forall|g: int| 0 <= g < before.len() ==> groups[g] == before[g],
        groups.last().wavelength@ == weaved(h, k).0,
        groups.last().curves@.len() == 1,
        groups.last().curves@[0].0@ == k,
        groups.last().curves@[0].1@ == weaved(h, k).1,
        forall|g: int|
            0 <= g < before.len() ==> key::signature((#[trigger] before[g]).wavelength@)
                != key::signature(weaved(h, k).0),
    ensures
        grouped(h, done.push(k), groups),
{
    let next = done.push(k);
    let last = before.len() as int;
    assert(next[done.len() as int] == k);
    assert(next.contains(k));
    assert forall|g: int, c: int|
        0 <= g < groups.len() && 0 <= c < groups[g].curves@.len() implies #[trigger] belongs(
        h,
        next,
        groups[g],
        c,
    ) by {
        if g < last {
            assert(belongs(h, done, before[g], c));
            still_contains(done, k, groups[g].curves@[c].0@);
        }
    }
    assert forall|x: KeyView, g: int, c: int, f: int, d: int|
        #[trigger] stands(groups, x, g, c) && #[trigger] stands(groups, x, f, d) implies g == f
        && c == d by {
        if g < last && f < last {
            assert(stands(before, x, g, c) && stands(before, x, f, d));
        } else if g < last {
            assert(belongs(h, done, before[g], c));
        } else if f < last {
            assert(belongs(h, done, before[f], d));
        }
    }
    assert forall|i: int|
        0 <= i < next.len() && weaved(h, #[trigger] next[i]).0.len() > 0 implies exists|
        g: int,
        c: int,
    | stands(groups, next[i], g, c) by {
        if i < done.len() {
            assert(next[i] == done[i]);
            let (g, c) = choose|g: int, c: int| stands(before, done[i], g, c);
            assert(stands(groups, next[i], g, c));
        } else {
            assert(stands(groups, next[i], last, 0));
        }
    }
}

proof fn grouped_join(
    h: Holdings,
    done: Seq<KeyView>,
    k: KeyView,
    before: Seq<WovenGroup>,
    at: int,
    groups: Seq<WovenGroup>,
)
    requires
        grouped(h, done, before),
        !done.contains(k),
        weaved(h, k).0.len() > 0,
        0 <= at < before.len(),
        groups.len() == before.len(),
        forall|g: int| 0 <= g < before.len() && g != at ==> groups[g] == before[g],
        groups[at].wavelength == before[at].wavelength,
        groups[at].curves@.len() == before[at].curves@.len() + 1,
        forall|c: int|
            0 <= c < before[at].curves@.len() ==> groups[at].curves@[c]
                == before[at].curves@[c],
        groups[at].curves@.last().0@ == k,
        groups[at].curves@.last().1@ == weaved(h, k).1,
        key::signature(before[at].wavelength@) == key::signature(weaved(h, k).0),
    ensures
        grouped(h, done.push(k), groups),
{
    let next = done.push(k);
    let end = before[at].curves@.len() as int;
    assert(next[done.len() as int] == k);
    assert(next.contains(k));
    assert forall|g: int, c: int|
        0 <= g < groups.len() && 0 <= c < groups[g].curves@.len() implies #[trigger] belongs(
        h,
        next,
        groups[g],
        c,
    ) by {
        if g != at || c < end {
            assert(belongs(h, done, before[g], c));
            still_contains(done, k, groups[g].curves@[c].0@);
        }
    }
    assert forall|x: KeyView, g: int, c: int, f: int, d: int|
        #[trigger] stands(groups, x, g, c) && #[trigger] stands(groups, x, f, d) implies g == f
        && c == d by {
        let g_new = g == at && c == end;
        let f_new = f == at && d == end;
        if !g_new && !f_new {
            assert(stands(before, x, g, c) && stands(before, x, f, d));
        } else if !g_new {
            assert(belongs(h, done, before[g], c));
        } else if !f_new {
            assert(belongs(h, done, before[f], d));
        }
    }
    assert forall|i: int|
        0 <= i < next.len() && weaved(h, #[trigger] next[i]).0.len() > 0 implies exists|
        g: int,
        c: int,
    | stands(groups, next[i], g, c) by {
        if i < done.len() {
            assert(next[i] == done[i]);
            let (g, c) = choose|g: int, c: int| stands(before, done[i], g, c);
            assert(stands(groups, next[i], g, c));
        } else {
            assert(stands(groups, next[i], at, end));
        }
    }
    assert forall|g: int| 0 <= g < groups.len() implies {
        &&& (#[trigger] groups[g]).curves@.len() > 0
        &&& groups[g].wavelength@ == weaved(h, groups[g].curves@[0].0@).0
    } by {
        assert(before[g].curves@.len() > 0);
    }
}

proof fn by_start_prefix(h: Holdings, a: Seq<usize>, b: Seq<usize>, n: int)
    requires
        0 <= n <= a.len(),
        a.len() <= b.len(),
        forall|i: int| 0 <= i < a.len() ==> a[i] == b[i],
    ensures
        by_start(h, a, n) == by_start(h, b, n),
    decreases n,
{
    if n > 0 {
        by_start_prefix(h, a, b, n - 1);
    }
}

proof fn position_bounds(s: Seq<(u128, PlanEntry)>, k: u128)
    ensures
        0 <= store::position(s, k) <= s.len(),
    decreases s.len(),
{
    if s.len() > 0 && s[0].0 != k {
        position_bounds(s.skip(1), k);
    }
}

/// What a plan takes of a curve has as many values as it takes points.
pub proof fn taken_len(t: Taking, data: Seq<Scalar>)
    requires
        t.within(data.len() as int),
    ensures
        t.of(data).len() == t.size(),
{
}

proof fn plan_ready<A: Numeric>(
    num: A,
    full: Seq<Scalar>,
    h: Holdings,
    plan: Seq<(usize, SliceOrIndices)>,
)
    requires
        collection::lawful(h),
        full.len() <= usize::MAX,
        plan::plan_view(plan) == plan::plan_for(num, full, h.grids),
    ensures
        forall|e: int|
            0 <= e < plan.len() ==> (#[trigger] plan[e]).0 < h.grids.len()
                && plan[e].1.taking().size() >= 0,
        forall|e: int|
            0 <= e < plan::plan_view(plan).len() ==> {
                &&& 0 <= (#[trigger] plan::plan_view(plan)[e]).0 < h.grids.len()
                &&& plan::plan_view(plan)[e].1.within(full.len() as int)
            },
        forall|e: int, d: int|
            0 <= e < d < plan::plan_view(plan).len() ==> (#[trigger] plan::plan_view(plan)[e]).0
                < (#[trigger] plan::plan_view(plan)[d]).0,
{
    let p = plan::plan_view(plan);
    assert(p.len() == plan.len());
    if full.len() > 0 {
        plan::plan_is_valid(num, full, h.grids, h.grids.len() as int);
    }
    assert forall|e: int| 0 <= e < plan.len() implies (#[trigger] plan[e]).0 < h.grids.len()
        && plan[e].1.taking().size() >= 0 by {
        assert(p[e] == (plan[e].0 as int, plan[e].1.taking()));
        assert(plan::plan_upto(num, full, h.grids, h.grids.len() as int)[e] == p[e]);
    }
}

proof fn a_plan_is_planned<A: Numeric>(num: A, full: Seq<Scalar>, h: Holdings)
    requires
        collection::lawful(h),
        full.len() <= usize::MAX,
    ensures
        planned(h, plan::plan_for(num, full, h.grids), full.len() as int),
{
    if full.len() > 0 {
        plan::plan_is_valid(num, full, h.grids, h.grids.len() as int);
    }
}

proof fn plan_is_short<A: Numeric>(
    num: A,
    full: Seq<Scalar>,
    grids: Seq<Seq<Scalar>>,
    k: int,
)
    requires
        0 <= k <= grids.len(),
    ensures
        plan::plan_upto(num, full, grids, k).len() <= k,
    decreases k,
{
    if k > 0 {
        plan_is_short(num, full, grids, k - 1);
    }
}

proof fn no_gap_means(h: Holdings, p: Seq<(int, Taking)>, e: int)
    requires
        0 <= e,
        first_gap(h, p, e) is None,
    ensures
        forall|i: int|
            e <= i < p.len() ==> (#[trigger] p[i]).1.size() == h.grids[p[i].0].len(),
    decreases p.len() - e,
{
    if e < p.len() {
        no_gap_means(h, p, e + 1);
    }
}

proof fn no_misfit_means(batch: Seq<(OpticalKey, Vec<Scalar>)>, n: int, i: int)
    requires
        0 <= i,
        first_misfit(batch, n, i) is None,
    ensures
        forall|j: int| i <= j < batch.len() ==> (#[trigger] batch[j]).1@.len() == n,
    decreases batch.len() - i,
{
    if i < batch.len() {
        no_misfit_means(batch, n, i + 1);
    }
}

/// The first `n` entries of a plan leave the frames of the others, and all
/// grids, as they were.
pub proof fn spread_leaves(
    h: Holdings,
    p: Seq<(int, Taking)>,
    k: KeyView,
    data: Seq<Scalar>,
    n: int,
    e: int,
)
    requires
        0 <= n <= e < p.len(),
        forall|i: int, j: int|
            0 <= i < j < p.len() ==> (#[trigger] p[i]).0 < (#[trigger] p[j]).0,
        forall|i: int| 0 <= i < p.len() ==> 0 <= (#[trigger] p[i]).0 < h.curves.len(),
    ensures
        spread_upto(h, p, k, data, n).curves[p[e].0] == h.curves[p[e].0],
        spread_upto(h, p, k, data, n).grids == h.grids,
        spread_upto(h, p, k, data, n).ids == h.ids,
        spread_upto(h, p, k, data, n).mapping == h.mapping,
        spread_upto(h, p, k, data, n).curves.len() == h.curves.len(),
    decreases n,
{
    if n > 0 {
        spread_leaves(h, p, k, data, n - 1, e);
        assert(p[n - 1].0 < p[e].0);
    }
}

} // verus!
