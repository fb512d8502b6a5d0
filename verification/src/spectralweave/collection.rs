//! Frames by grid fingerprint, and which frames hold a key.
use crate::scalar::Scalar;
use crate::spectralweave::frame;
use crate::spectralweave::frame::{
    cook_keys, raw_key, FrameFault, SpectralData, SpectralDataFrame,
};
use crate::spectralweave::key;
use crate::spectralweave::key::{
    convert_unit, wl_bits_eq, wl_signature, KeyView, OpticalKey, Unit,
};
use crate::spectralweave::store;
use crate::spectralweave::store::{
    list_items, list_new, list_push, places_get, places_insert, places_new, slots_get,
    slots_insert, slots_keys, slots_len, slots_new, FrameList, RawKey,
};
use std::sync::Arc;
use vstd::prelude::*;

verus! {

/// What a collection holds: per frame its number, grid and curves; per key
/// the frames that hold it; per fingerprint the frame that shares its grid.
#[verifier::ext_equal]
pub struct Holdings {
    pub ids: Seq<usize>,
    pub grids: Seq<Seq<Scalar>>,
    pub curves: Seq<Map<KeyView, Seq<Scalar>>>,
    pub mapping: Map<KeyView, Seq<usize>>,
    pub prints: Map<u128, usize>,
}

/// `frames` after `list`, leaving out those that are already there.
pub open spec fn merged(list: Seq<usize>, frames: Seq<usize>) -> Seq<usize>
    decreases frames.len(),
{
    if frames.len() == 0 {
        list
    } else {
        let before = merged(list, frames.drop_last());
        if before.contains(frames.last()) {
            before
        } else {
            before.push(frames.last())
        }
    }
}

impl Holdings {
    /// Nothing.
    pub open spec fn none() -> Holdings {
        Holdings {
            ids: seq![],
            grids: seq![],
            curves: seq![],
            mapping: Map::empty(),
            prints: Map::empty(),
        }
    }

    /// The frame that shares the grid `wl`.
    pub open spec fn shared(self, wl: Seq<Scalar>) -> Option<usize> {
        let sig = key::signature(wl);
        if self.prints.dom().contains(sig) && self.grids[self.prints[sig] as int] == wl {
            Some(self.prints[sig])
        } else {
            None
        }
    }

    /// One more frame, without curves.
    pub open spec fn with_frame(self, uid: usize, wl: Seq<Scalar>) -> Holdings {
        Holdings {
            ids: self.ids.push(uid),
            grids: self.grids.push(wl),
            curves: self.curves.push(Map::empty()),
            ..self
        }
    }

    /// The newest frame shares its grid.
    pub open spec fn with_print(self, wl: Seq<Scalar>, frame: usize) -> Holdings {
        Holdings { prints: self.prints.insert(key::signature(wl), frame), ..self }
    }

    /// A curve in frame `i`.
    pub open spec fn with_curve(self, i: int, k: KeyView, values: Seq<Scalar>) -> Holdings {
        Holdings { curves: self.curves.update(i, self.curves[i].insert(k, values)), ..self }
    }

    /// The frames of a key; none if it is unknown.
    pub open spec fn frames_of(self, k: KeyView) -> Seq<usize> {
        if self.mapping.dom().contains(k) {
            self.mapping[k]
        } else {
            seq![]
        }
    }

    /// Frames recorded under a key.
    pub open spec fn with_mapping(self, k: KeyView, frames: Seq<usize>) -> Holdings {
        Holdings {
            mapping: self.mapping.insert(k, merged(self.frames_of(k), frames)),
            ..self
        }
    }

    /// The frame for `wl`: the shared one, or a new one with number `uid`.
    pub open spec fn framed(self, wl: Seq<Scalar>, uid: usize) -> (Holdings, usize) {
        match self.shared(wl) {
            Some(i) => (self, i),
            None => (
                self.with_frame(uid, wl).with_print(wl, self.grids.len() as usize),
                self.grids.len() as usize,
            ),
        }
    }

    /// What is wrong with a frame for `wl`.
    pub open spec fn framing_fault(self, wl: Seq<Scalar>) -> Option<FrameFault> {
        match self.shared(wl) {
            Some(_) => None,
            None => frame::grid_fault(wl),
        }
    }

    /// What is wrong with `n` values for frame `i`.
    pub open spec fn length_fault(self, i: int, n: int) -> Option<FrameFault> {
        if n != self.grids[i].len() {
            Some(
                FrameFault::Length {
                    uid: self.ids[i],
                    values: n as usize,
                    points: self.grids[i].len() as usize,
                },
            )
        } else {
            None
        }
    }

    /// A curve stored on its grid. Where the values do not fit the grid, the
    /// frame is there all the same.
    pub open spec fn stored(
        self,
        k: KeyView,
        values: Seq<Scalar>,
        wl: Seq<Scalar>,
        uid: usize,
    ) -> (Holdings, Option<FrameFault>) {
        match self.framing_fault(wl) {
            Some(e) => (self, Some(e)),
            None => {
                let (h, i) = self.framed(wl, uid);
                match h.length_fault(i as int, values.len() as int) {
                    Some(e) => (h, Some(e)),
                    None => {
                        let t = h.with_curve(i as int, k, values);
                        if h.curves[i as int].dom().contains(k) {
                            (t, None)
                        } else {
                            (t.with_mapping(k, seq![i]), None)
                        }
                    },
                }
            },
        }
    }

    /// Whether storing on `wl` makes a frame.
    pub open spec fn makes_frame(self, wl: Seq<Scalar>) -> bool {
        self.shared(wl) is None && frame::grid_fault(wl) is None
    }
}

/// A set of frames with their keys and units.
pub struct OpticalCollection {
    frames: Vec<SpectralDataFrame>,
    prints: ahash::AHashMap<u128, usize>,
    index: ahash::AHashMap<RawKey, usize>,
    lists: Vec<FrameList>,
    display_spectral: Unit,
    display_intensity: Unit,
}

impl OpticalCollection {
    closed spec fn places(&self) -> Map<KeyView, usize> {
        store::slots_of(self.index)
    }

    pub closed spec fn holdings(&self) -> Holdings {
        Holdings {
            ids: self.frames@.map_values(|f: SpectralDataFrame| f.id()),
            grids: self.frames@.map_values(|f: SpectralDataFrame| f.grid()),
            curves: self.frames@.map_values(|f: SpectralDataFrame| f.curves()),
            mapping: Map::new(
                |k: KeyView| self.places().dom().contains(k),
                |k: KeyView| store::listed(self.lists@[self.places()[k] as int]),
            ),
            prints: store::places_of(self.prints),
        }
    }

    /// The display units, spectral and intensity.
    pub closed spec fn units(&self) -> (Unit, Unit) {
        (self.display_spectral, self.display_intensity)
    }

    closed spec fn tidy(&self) -> bool {
        &&& forall|k: KeyView| #[trigger]
            self.places().dom().contains(k) ==> self.places()[k] < self.lists@.len()
        &&& forall|k: KeyView, l: KeyView|
            (#[trigger] self.places().dom().contains(k)) && (#[trigger] self.places().dom().contains(
                l,
            )) && self.places()[k] == self.places()[l] ==> k == l
        &&& forall|i: int| 0 <= i < self.frames@.len() ==> (#[trigger] self.frames@[i]).wf()
    }

    /// Frames are valid, fingerprints and keys lead to frames that exist.
    pub closed spec fn wf(&self) -> bool {
        &&& self.tidy()
        &&& lawful(self.holdings())
    }

    /// What the outside may rely on.
    pub proof fn wf_means(&self)
        requires
            self.wf(),
        ensures
            lawful(self.holdings()),
    {
    }

    /// An empty collection with nm and raw display units.
    pub fn new() -> (r: Self)
        ensures
            r.wf(),
            r.holdings() == Holdings::none(),
            r.units() == (Unit::NM, Unit::RAW),
    {
        let r: OpticalCollection = OpticalCollection {
            frames: Vec::new(),
            prints: places_new(),
            index: slots_new(),
            lists: Vec::new(),
            display_spectral: Unit::NM,
            display_intensity: Unit::RAW,
        };
        assert(r.holdings() =~= Holdings::none());
        r
    }

    /// Sets the unit of wavelength axes.
    pub fn set_display_spectral(&mut self, unit: Unit)
        requires
            old(self).wf(),
        ensures
            final(self).wf(),
            final(self).holdings() == old(self).holdings(),
            final(self).units() == (unit, old(self).units().1),
    {
        self.display_spectral = unit;
        assert(self.holdings() =~= old(self).holdings());
    }

    /// The unit of wavelength axes.
    pub fn display_spectral(&self) -> (r: Unit)
        ensures
            r == self.units().0,
    {
        self.display_spectral
    }

    /// Sets the unit of data values.
    pub fn set_display_intensity(&mut self, unit: Unit)
        requires
            old(self).wf(),
        ensures
            final(self).wf(),
            final(self).holdings() == old(self).holdings(),
            final(self).units() == (old(self).units().0, unit),
    {
        self.display_intensity = unit;
        assert(self.holdings() =~= old(self).holdings());
    }

    /// The unit of data values.
    pub fn display_intensity(&self) -> (r: Unit)
        ensures
            r == self.units().1,
    {
        self.display_intensity
    }

    /// How many frames there are.
    pub fn frame_count(&self) -> (r: usize)
        ensures
            r == self.holdings().grids.len(),
    {
        self.frames.len()
    }

    /// All frames, in the order in which they were made.
    pub fn frames_snapshot(&self) -> (r: Vec<usize>)
        ensures
            r@ == Seq::new(self.holdings().grids.len(), |i: int| i as usize),
    {
        let mut out: Vec<usize> = Vec::new();
        let mut i: usize = 0;
        while i < self.frames.len()
            invariant
                i <= self.frames@.len(),
                out@ == Seq::new(i as nat, |j: int| j as usize),
            decreases self.frames.len() - i,
        {
            out.push(i);
            i += 1;
        }
        out
    }

    /// How many keys there are.
    pub fn len_keys(&self) -> (r: usize)
        ensures
            r == self.holdings().mapping.dom().len(),
    {
        assert(self.holdings().mapping.dom() =~= self.places().dom());
        slots_len(&self.index)
    }

    /// Every key once, in no particular order.
    pub fn keys(&self) -> (r: Vec<OpticalKey>)
        ensures
            r@.map_values(|k: OpticalKey| k@).no_duplicates(),
            r@.map_values(|k: OpticalKey| k@).to_set() == self.holdings().mapping.dom(),
    {
        let raw: Vec<RawKey> = slots_keys(&self.index);
        let out: Vec<OpticalKey> = cook_keys(&raw);
        assert(self.holdings().mapping.dom() =~= self.places().dom());
        assert(out@.map_values(|k: OpticalKey| k@) =~= raw@.map_values(
            |k: RawKey| store::raw_view(k),
        ));
        out
    }

    /// Whether any frame holds the key.
    pub fn contains_key(&self, key: &OpticalKey) -> (r: bool)
        ensures
            r == self.holdings().mapping.dom().contains(key@),
    {
        let raw: RawKey = raw_key(key);
        slots_get(&self.index, &raw).is_some()
    }

    /// The frame at an index.
    pub fn frame_at(&self, index: usize) -> (r: Option<&SpectralDataFrame>)
        requires
            self.wf(),
        ensures
            match r {
                Some(f) => {
                    let h = self.holdings();
                    &&& index < h.grids.len()
                    &&& f.wf()
                    &&& f.id() == h.ids[index as int]
                    &&& f.grid() == h.grids[index as int]
                    &&& f.curves() == h.curves[index as int]
                },
                None => index >= self.holdings().grids.len(),
            },
    {
        if index < self.frames.len() {
            Some(&self.frames[index])
        } else {
            None
        }
    }

    /// The frames that hold a key, in the order they were recorded.
    pub fn frames_for_key(&self, key: &OpticalKey) -> (r: Option<Vec<usize>>)
        requires
            self.wf(),
        ensures
            match r {
                Some(l) => self.holdings().mapping.dom().contains(key@)
                    && self.holdings().mapping[key@] == l@,
                None => !self.holdings().mapping.dom().contains(key@),
            },
    {
        let raw: RawKey = raw_key(key);
        match slots_get(&self.index, &raw) {
            Some(slot) => {
                assert(self.places().dom().contains(key@));
                Some(list_items(&self.lists[slot]))
            },
            None => None,
        }
    }

    /// Records that frames hold a key and says how many were not recorded
    /// before.
    pub fn map_frames_to_key(&mut self, key: &OpticalKey, frames: &Vec<usize>) -> (r: usize)
        requires
            old(self).wf(),
            forall|i: int|
                0 <= i < frames@.len() ==> #[trigger] frames@[i] < old(self).holdings().grids.len(),
        ensures
            final(self).wf(),
            final(self).units() == old(self).units(),
            final(self).holdings() == old(self).holdings().with_mapping(key@, frames@),
            r == merged(old(self).holdings().frames_of(key@), frames@).len() - old(self).holdings().frames_of(key@).len(),
    {
        let ghost h0 = self.holdings();
        let raw: RawKey = raw_key(key);
        let slot: usize = match slots_get(&self.index, &raw) {
            Some(slot) => {
                assert(self.places().dom().contains(key@));
                slot
            },
            None => {
                let slot: usize = self.lists.len();
                let ghost before = *self;
                let fresh: FrameList = list_new();
                self.lists.push(fresh);
                slots_insert(&mut self.index, raw, slot);
                assert(self.places() == before.places().insert(key@, slot));
                assert(self.frames@ == before.frames@);
                slot
            },
        };
        let ghost start = h0.frames_of(key@);
        let ghost frames0 = self.frames@;
        let ghost places0 = self.places();
        let ghost prints0 = self.prints;
        let ghost units0 = self.units();
        let ghost lists0 = self.lists@;
        assert(places0.dom().contains(key@) && places0[key@] == slot);
        assert(store::listed(self.lists@[slot as int]) == start);
        assert(frames@.take(0) =~= seq![]);
        let mut added: usize = 0;
        let mut i: usize = 0;
        while i < frames.len()
            invariant
                i <= frames@.len(),
                added <= i,
                slot < self.lists@.len(),
                self.lists@.len() == lists0.len(),
                self.frames@ == frames0,
                self.places() == places0,
                self.prints == prints0,
                self.units() == units0,
                forall|k: int|
                    0 <= k < lists0.len() && k != slot ==> #[trigger] self.lists@[k]
                        == lists0[k],
                store::listed(self.lists@[slot as int]) == merged(start, frames@.take(i as int)),
                added == merged(start, frames@.take(i as int)).len() - start.len(),
            decreases frames.len() - i,
        {
            let frame: usize = frames[i];
            let have: Vec<usize> = list_items(&self.lists[slot]);
            let known: bool = holds(&have, frame);
            proof {
                let next = frames@.take(i + 1);
                assert(next.drop_last() =~= frames@.take(i as int));
                assert(next.last() == frame);
            }
            if !known {
                let mut list: FrameList = list_new();
                std::mem::swap(&mut list, &mut self.lists[slot]);
                list_push(&mut list, frame);
                self.lists.set(slot, list);
                added += 1;
            }
            i += 1;
        }
        proof {
            assert(frames@.take(i as int) =~= frames@);
            let list = merged(start, frames@);
            assert(self.holdings().mapping =~= h0.with_mapping(key@, frames@).mapping);
            assert(self.holdings() =~= h0.with_mapping(key@, frames@));
            merged_keeps(start, frames@, h0.grids.len() as int);
        }
        added
    }

    /// Records that a frame holds a key; false if that was known.
    pub fn map_frame_to_key(&mut self, key: &OpticalKey, frame: usize) -> (r: bool)
        requires
            old(self).wf(),
            frame < old(self).holdings().grids.len(),
        ensures
            final(self).wf(),
            final(self).units() == old(self).units(),
            final(self).holdings() == old(self).holdings().with_mapping(key@, seq![frame]),
            r == !old(self).holdings().frames_of(key@).contains(frame),
            final(self).holdings().frames_of(key@).len() == old(self).holdings().frames_of(
                key@,
            ).len() + (if r {
                1int
            } else {
                0int
            }),
    {
        let mut one: Vec<usize> = Vec::new();
        one.push(frame);
        assert(one@ =~= seq![frame]);
        proof {
            let start = self.holdings().frames_of(key@);
            assert(seq![frame].drop_last() =~= Seq::<usize>::empty());
            assert(seq![frame].last() == frame);
            reveal_with_fuel(merged, 2);
        }
        self.map_frames_to_key(key, &one) == 1
    }

    /// Appends a frame that shares its grid with no other.
    pub fn push_frame(&mut self, uid: usize, wl: &Vec<Scalar>) -> (r: Result<usize, FrameFault>)
        requires
            old(self).wf(),
        ensures
            final(self).wf(),
            final(self).units() == old(self).units(),
            match r {
                Err(e) => frame::grid_fault(wl@) == Some(e) && final(self).holdings() == old(self).holdings(),
                Ok(i) => {
                    &&& frame::grid_fault(wl@) is None
                    &&& i == old(self).holdings().grids.len()
                    &&& final(self).holdings() == old(self).holdings().with_frame(uid, wl@)
                },
            },
    {
        let ghost h0 = self.holdings();
        match SpectralDataFrame::new(uid, crate::numeric::copy(wl)) {
            Err(e) => Err(e),
            Ok(f) => {
                let i: usize = self.frames.len();
                self.frames.push(f);
                proof {
                    let h = self.holdings();
                    assert(h =~= h0.with_frame(uid, wl@));
                    assert(self.frames@.len() == self.frames.len());
                    assert forall|j: int, k: KeyView|
                        0 <= j < h.grids.len() && #[trigger] h.curves[j].dom().contains(k) implies
                        h.curves[j][k].len() == h.grids[j].len() by {
                        if j < h0.grids.len() {
                            assert(h0.curves[j].dom().contains(k));
                        }
                    }
                    assert forall|k: KeyView, j: int|
                        h.mapping.dom().contains(k) && 0 <= j < h.mapping[k].len() implies (
                    #[trigger] h.mapping[k][j]) < h.grids.len() by {
                        assert(h0.mapping[k][j] < h0.grids.len());
                    }
                    assert forall|s: u128| #[trigger] h.prints.dom().contains(s) implies
                        h.prints[s] < h.grids.len() && key::signature(
                        h.grids[h.prints[s] as int],
                    ) == s by {
                        assert(h0.prints.dom().contains(s));
                    }
                }
                Ok(i)
            },
        }
    }

    /// The frame for a grid: the one that shares it bit for bit, else a new
    /// one with number `uid`.
    pub fn get_or_create_frame(&mut self, wl: &Vec<Scalar>, uid: usize) -> (r: Result<
        (usize, bool),
        FrameFault,
    >)
        requires
            old(self).wf(),
        ensures
            final(self).wf(),
            final(self).units() == old(self).units(),
            match r {
                Err(e) => old(self).holdings().framing_fault(wl@) == Some(e) && final(self).holdings() == old(self).holdings(),
                Ok((i, created)) => {
                    &&& old(self).holdings().framing_fault(wl@) is None
                    &&& (final(self).holdings(), i) == old(self).holdings().framed(wl@, uid)
                    &&& created == old(self).holdings().makes_frame(wl@)
                    &&& i < final(self).holdings().grids.len()
                },
            },
    {
        let ghost h0 = self.holdings();
        let sig: u128 = wl_signature(wl);
        match places_get(&self.prints, sig) {
            Some(i) => {
                assert(h0.prints.dom().contains(sig));
                if wl_bits_eq(self.frames[i].wavelength(), wl) {
                    return Ok((i, false));
                }
            },
            None => {},
        }
        match self.push_frame(uid, wl) {
            Err(e) => Err(e),
            Ok(i) => {
                let ghost h1 = self.holdings();
                places_insert(&mut self.prints, sig, i);
                assert(self.holdings() =~= h1.with_print(wl@, i));
                Ok((i, true))
            },
        }
    }

    /// Stores a curve in frame `i` and says whether its key is new there.
    pub fn set_in_frame(&mut self, i: usize, key: &OpticalKey, value: SpectralData) -> (r: Result<
        bool,
        FrameFault,
    >)
        requires
            old(self).wf(),
            value.wf(),
            i < old(self).holdings().grids.len(),
        ensures
            final(self).wf(),
            final(self).units() == old(self).units(),
            match r {
                Err(e) => old(self).holdings().length_fault(
                    i as int,
                    value.values().len() as int,
                ) == Some(e) && final(self).holdings() == old(self).holdings(),
                Ok(new) => {
                    &&& old(self).holdings().length_fault(
                        i as int,
                        value.values().len() as int,
                    ) is None
                    &&& new == !old(self).holdings().curves[i as int].dom().contains(key@)
                    &&& final(self).holdings() == old(self).holdings().with_curve(
                        i as int,
                        key@,
                        value.values(),
                    )
                },
            },
    {
        let ghost h0 = self.holdings();
        let ghost vals = value.values();
        let r: Result<bool, FrameFault> = self.frames[i].set_data(key, value, None);
        proof {
            if r is Ok {
                assert(self.holdings() =~= h0.with_curve(i as int, key@, vals));
            } else {
                assert(self.holdings() =~= h0);
            }
        }
        r
    }

    /// Stores a curve on its grid; says whether a frame was made for it,
    /// whether a frame was recorded under the key, and what was wrong.
    pub fn store(
        &mut self,
        key: &OpticalKey,
        value: &Vec<Scalar>,
        wavelength: &Vec<Scalar>,
        input_spectral: Unit,
        input_intensity: Unit,
        uid: usize,
    ) -> (r: (bool, bool, Option<FrameFault>))
        requires
            old(self).wf(),
        ensures
            final(self).wf(),
            final(self).units() == old(self).units(),
            r.0 == old(self).holdings().makes_frame(wavelength@),
            r.1 == (final(self).holdings().frames_of(key@).len() > old(self).holdings().frames_of(
                key@,
            ).len()),
            (final(self).holdings(), r.2) == old(self).holdings().stored(
                key@,
                value@,
                wavelength@,
                uid,
            ),
    {
        let wl: Vec<Scalar> = convert_unit(wavelength, input_spectral, Unit::NM);
        let data: Vec<Scalar> = convert_unit(value, input_intensity, Unit::RAW);
        match self.get_or_create_frame(&wl, uid) {
            Err(e) => (false, false, Some(e)),
            Ok((i, created)) => {
                match self.set_in_frame(i, key, SpectralData::from_arc(Arc::new(data))) {
                    Err(e) => (created, false, Some(e)),
                    Ok(new) => {
                        let recorded: bool = new && self.map_frame_to_key(key, i);
                        (created, recorded, None)
                    },
                }
            },
        }
    }

    /// Stores a curve on its grid and says whether a frame was made for it.
    pub fn set_data(
        &mut self,
        key: &OpticalKey,
        value: &Vec<Scalar>,
        wavelength: &Vec<Scalar>,
        input_spectral: Unit,
        input_intensity: Unit,
        uid: usize,
    ) -> (r: Result<bool, FrameFault>)
        requires
            old(self).wf(),
        ensures
            final(self).wf(),
            final(self).units() == old(self).units(),
            final(self).holdings() == old(self).holdings().stored(
                key@,
                value@,
                wavelength@,
                uid,
            ).0,
            match r {
                Err(e) => old(self).holdings().stored(key@, value@, wavelength@, uid).1
                    == Some(e),
                Ok(created) => {
                    &&& old(self).holdings().stored(key@, value@, wavelength@, uid).1 is None
                    &&& created == old(self).holdings().makes_frame(wavelength@)
                },
            },
    {
        match self.store(key, value, wavelength, input_spectral, input_intensity, uid) {
            (_, _, Some(e)) => Err(e),
            (created, _, None) => Ok(created),
        }
    }

    /// The fragments of a key and their grids, in the order the frames were
    /// recorded; a frame without the curve gives an empty fragment.
    pub fn get_converted(&self, key: &OpticalKey) -> (r: Option<
        (Vec<Vec<Scalar>>, Vec<Vec<Scalar>>),
    >)
        requires
            self.wf(),
        ensures
            match r {
                None => !self.holdings().mapping.dom().contains(key@),
                Some((data, wl)) => {
                    let h = self.holdings();
                    &&& h.mapping.dom().contains(key@)
                    &&& data@.len() == h.mapping[key@].len()
                    &&& wl@.len() == h.mapping[key@].len()
                    &&& forall|i: int|
                        0 <= i < data@.len() ==> (#[trigger] data@[i])@ == fragment(
                            h,
                            h.mapping[key@][i],
                            key@,
                        )
                    &&& forall|i: int|
                        0 <= i < wl@.len() ==> (#[trigger] wl@[i])@
                            == h.grids[h.mapping[key@][i] as int]
                },
            },
    {
        let frames: Vec<usize> = match self.frames_for_key(key) {
            None => {
                return None;
            },
            Some(l) => l,
        };
        let ghost h = self.holdings();
        let mut data: Vec<Vec<Scalar>> = Vec::with_capacity(frames.len());
        let mut wl: Vec<Vec<Scalar>> = Vec::with_capacity(frames.len());
        let mut i: usize = 0;
        while i < frames.len()
            invariant
                self.wf(),
                h == self.holdings(),
                h.mapping.dom().contains(key@),
                frames@ == h.mapping[key@],
                i <= frames.len(),
                data@.len() == i,
                wl@.len() == i,
                forall|j: int|
                    0 <= j < i ==> (#[trigger] data@[j])@ == fragment(h, frames@[j], key@),
                forall|j: int|
                    0 <= j < i ==> (#[trigger] wl@[j])@ == h.grids[frames@[j] as int],
            decreases frames.len() - i,
        {
            let at: usize = frames[i];
            assert(at < h.grids.len()) by {
                assert(h.mapping[key@][i as int] == at);
            }
            let f: &SpectralDataFrame = &self.frames[at];
            let values: Vec<Scalar> = match f.get_data(key) {
                Some(d) => d.to_vec(),
                None => Vec::new(),
            };
            assert(values@ =~= fragment(h, at, key@));
            data.push(convert_unit(&values, Unit::RAW, self.display_intensity));
            wl.push(convert_unit(f.wavelength(), Unit::NM, self.display_spectral));
            i += 1;
        }
        Some((data, wl))
    }
}

/// The values of a key in a frame; none if the frame does not hold it.
pub open spec fn fragment(h: Holdings, frame: usize, k: KeyView) -> Seq<Scalar> {
    if h.curves[frame as int].dom().contains(k) {
        h.curves[frame as int][k]
    } else {
        seq![]
    }
}

/// What holds of every collection: one grid, number and curve map per frame,
/// valid grids, curves that fit them, fingerprints and keys that lead to
/// frames, no frame twice under a key.
pub open spec fn lawful(h: Holdings) -> bool {
    &&& h.ids.len() == h.grids.len()
    &&& h.curves.len() == h.grids.len()
    &&& h.grids.len() <= usize::MAX
    &&& forall|i: int|
        0 <= i < h.grids.len() ==> frame::grid_fault(#[trigger] h.grids[i]) is None
    &&& forall|i: int, k: KeyView|
        0 <= i < h.grids.len() && #[trigger] h.curves[i].dom().contains(k)
            ==> h.curves[i][k].len() == h.grids[i].len()
    &&& forall|s: u128| #[trigger]
        h.prints.dom().contains(s) ==> h.prints[s] < h.grids.len() && key::signature(
            h.grids[h.prints[s] as int],
        ) == s
    &&& forall|k: KeyView| #[trigger]
        h.mapping.dom().contains(k) ==> h.mapping[k].no_duplicates()
    &&& forall|k: KeyView, i: int|
        h.mapping.dom().contains(k) && 0 <= i < h.mapping[k].len() ==> (
        #[trigger] h.mapping[k][i]) < h.grids.len()
}

/// Merging keeps a list free of duplicates and within bounds, and never
/// shortens it.
pub proof fn merged_keeps(list: Seq<usize>, frames: Seq<usize>, n: int)
    requires
        list.no_duplicates(),
        forall|i: int| 0 <= i < list.len() ==> #[trigger] list[i] < n,
        forall|i: int| 0 <= i < frames.len() ==> #[trigger] frames[i] < n,
    ensures
        merged(list, frames).no_duplicates(),
        forall|i: int|
            0 <= i < merged(list, frames).len() ==> #[trigger] merged(list, frames)[i] < n,
        merged(list, frames).len() >= list.len(),
    decreases frames.len(),
{
    if frames.len() > 0 {
        merged_keeps(list, frames.drop_last(), n);
    }
}

fn holds(xs: &Vec<usize>, x: usize) -> (r: bool)
    ensures
        r == xs@.contains(x),
{
    let mut i: usize = 0;
    while i < xs.len()
        invariant
            i <= xs.len(),
            forall|k: int| 0 <= k < i ==> xs@[k] != x,
        decreases xs.len() - i,
    {
        if xs[i] == x {
            assert(xs@[i as int] == x);
            return true;
        }
        i += 1;
    }
    false
}

} // verus!
