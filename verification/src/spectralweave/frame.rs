//! One wavelength grid and the curves sampled on it.
use crate::scalar;
use crate::scalar::Scalar;
use crate::spectralweave::key::{wl_bits_eq, KeyView, OpticalKey};
use crate::spectralweave::store;
use crate::spectralweave::store::{
    slots_get, slots_insert, slots_keys, slots_len, slots_new, slots_remove, RawKey,
};
use crate::text;
use crate::text::decimal_text;
use std::sync::Arc;
use vstd::prelude::*;
use vstd::string::*;

verus! {

/// A view onto a shared buffer.
#[derive(Debug)]
pub struct SpectralData {
    buf: Arc<Vec<Scalar>>,
    start: usize,
    len: usize,
}

impl SpectralData {
    /// The viewed values.
    pub closed spec fn values(&self) -> Seq<Scalar> {
        self.buf@.subrange(self.start as int, self.start + self.len)
    }

    /// The view lies in its buffer.
    pub closed spec fn wf(&self) -> bool {
        self.start + self.len <= self.buf@.len()
    }

    /// A whole buffer as one fragment.
    pub fn from_arc(buf: Arc<Vec<Scalar>>) -> (r: Self)
        ensures
            r.wf(),
            r.values() == buf@,
    {
        let len: usize = buf.len();
        assert(buf@.subrange(0, len as int) =~= buf@);
        SpectralData { buf, start: 0, len }
    }

    /// A run of a shared buffer, without a copy.
    pub fn part_of(buf: &Arc<Vec<Scalar>>, start: usize, len: usize) -> (r: Self)
        requires
            start + len <= buf@.len(),
        ensures
            r.wf(),
            r.values() == buf@.subrange(start as int, start + len),
    {
        SpectralData { buf: Arc::clone(buf), start, len }
    }

    /// Another handle on the same values.
    pub fn cloned(&self) -> (r: Self)
        requires
            self.wf(),
        ensures
            r.wf(),
            r.values() == self.values(),
    {
        SpectralData { buf: Arc::clone(&self.buf), start: self.start, len: self.len }
    }

    /// How many values there are.
    pub fn len(&self) -> (r: usize)
        requires
            self.wf(),
        ensures
            r == self.values().len(),
    {
        self.len
    }

    /// A copy of the values.
    pub fn to_vec(&self) -> (r: Vec<Scalar>)
        requires
            self.wf(),
        ensures
            r@ == self.values(),
    {
        let total: usize = self.buf.len();
        let mut out: Vec<Scalar> = Vec::with_capacity(self.len);
        let mut i: usize = 0;
        while i < self.len
            invariant
                self.wf(),
                total == self.buf@.len(),
                i <= self.len,
                out@ == self.values().take(i as int),
            decreases self.len - i,
        {
            out.push(self.buf[self.start + i]);
            i += 1;
            assert(out@ =~= self.values().take(i as int));
        }
        assert(out@ =~= self.values());
        out
    }
}

/// Why a frame refused something.
#[derive(Clone, Copy, Debug, PartialEq, Eq, Structural)]
pub enum FrameFault {
    EmptyGrid,
    NotIncreasing,
    GridConflict { uid: usize },
    Length { uid: usize, values: usize, points: usize },
    KeyNotFound,
}

/// The message of a fault.
pub open spec fn frame_text(f: FrameFault) -> Seq<char> {
    match f {
        FrameFault::EmptyGrid => "SpectralDataFrame: wavelength array must be non-empty."@,
        FrameFault::NotIncreasing =>
            "SpectralDataFrame: wavelength array must be strictly monotonically increasing."@,
        FrameFault::GridConflict { uid } => "SpectralDataFrame(uid="@ + text::decimal(uid as nat)
            + "): wavelength grid conflict."@,
        FrameFault::Length { uid, values, points } => "SpectralDataFrame(uid="@ + text::decimal(
            uid as nat,
        ) + "): "@ + text::decimal(values as nat) + " value(s) for a "@ + text::decimal(
            points as nat,
        ) + "-point grid."@,
        FrameFault::KeyNotFound => "Key not found"@,
    }
}

impl FrameFault {
    /// The message.
    pub fn message(&self) -> (r: String)
        ensures
            r@ == frame_text(*self),
    {
        match self {
            FrameFault::EmptyGrid => String::from_str(
                "SpectralDataFrame: wavelength array must be non-empty.",
            ),
            FrameFault::NotIncreasing => String::from_str(
                "SpectralDataFrame: wavelength array must be strictly monotonically increasing.",
            ),
            FrameFault::GridConflict { uid } => String::from_str(
                "SpectralDataFrame(uid=",
            ).concat(decimal_text(*uid as u64).as_str()).concat("): wavelength grid conflict."),
            FrameFault::Length { uid, values, points } => String::from_str(
                "SpectralDataFrame(uid=",
            ).concat(decimal_text(*uid as u64).as_str()).concat("): ").concat(
                decimal_text(*values as u64).as_str(),
            ).concat(" value(s) for a ").concat(decimal_text(*points as u64).as_str()).concat(
                "-point grid.",
            ),
            FrameFault::KeyNotFound => String::from_str("Key not found"),
        }
    }
}

/// Each point is below the next.
pub open spec fn increasing(wl: Seq<Scalar>) -> bool {
    forall|i: int| 0 <= i && i + 1 < wl.len() ==> scalar::less(wl[i], #[trigger] wl[i + 1])
}

/// What is wrong with a grid.
pub open spec fn grid_fault(wl: Seq<Scalar>) -> Option<FrameFault> {
    if wl.len() == 0 {
        Some(FrameFault::EmptyGrid)
    } else if !increasing(wl) {
        Some(FrameFault::NotIncreasing)
    } else {
        None
    }
}

/// Finds what is wrong with a grid.
pub fn check_grid(wl: &Vec<Scalar>) -> (r: Option<FrameFault>)
    ensures
        r == grid_fault(wl@),
{
    if wl.len() == 0 {
        return Some(FrameFault::EmptyGrid);
    }
    let mut i: usize = 0;
    while i < wl.len() - 1
        invariant
            wl@.len() > 0,
            i <= wl@.len() - 1,
            forall|k: int| 0 <= k < i ==> scalar::less(wl@[k], #[trigger] wl@[k + 1]),
        decreases wl.len() - i,
    {
        if !wl[i].lt(wl[i + 1]) {
            assert(!scalar::less(wl@[i as int], wl@[i + 1]));
            return Some(FrameFault::NotIncreasing);
        }
        i += 1;
    }
    None
}

/// In an increasing grid an earlier point is below a later one.
pub proof fn increasing_is_ordered(wl: Seq<Scalar>, i: int, j: int)
    requires
        increasing(wl),
        0 <= i < j < wl.len(),
    ensures
        scalar::less(wl[i], wl[j]),
    decreases j - i,
{
    assert(scalar::less(wl[j - 1], wl[(j - 1) + 1]));
    if i + 1 < j {
        increasing_is_ordered(wl, i, j - 1);
    }
}

/// One wavelength grid and every curve sampled on it.
pub struct SpectralDataFrame {
    uid: usize,
    index: ahash::AHashMap<RawKey, usize>,
    slots: Vec<SpectralData>,
    wavelength: Vec<Scalar>,
}

/// The key as the map holds it.
pub(crate) fn raw_key(key: &OpticalKey) -> (r: RawKey)
    ensures
        store::raw_view(r) == key@,
{
    (key.wavelength.bits, key.data_type.clone(), key.polarisation.clone())
}

impl SpectralDataFrame {
    pub closed spec fn grid(&self) -> Seq<Scalar> {
        self.wavelength@
    }

    pub closed spec fn id(&self) -> usize {
        self.uid
    }

    /// The number that tells the frame from all others.
    pub fn uid(&self) -> (r: usize)
        ensures
            r == self.id(),
    {
        self.uid
    }

    closed spec fn places(&self) -> Map<KeyView, usize> {
        store::slots_of(self.index)
    }

    /// The curves by key.
    pub closed spec fn curves(&self) -> Map<KeyView, Seq<Scalar>> {
        Map::new(
            |k: KeyView| self.places().dom().contains(k),
            |k: KeyView| self.slots@[self.places()[k] as int].values(),
        )
    }

    closed spec fn tidy(&self) -> bool {
        &&& forall|k: KeyView| #[trigger]
            self.places().dom().contains(k) ==> self.places()[k] < self.slots@.len()
        &&& forall|k: KeyView, l: KeyView|
            (#[trigger] self.places().dom().contains(k)) && (#[trigger] self.places().dom().contains(
                l,
            )) && self.places()[k] == self.places()[l] ==> k == l
        &&& forall|i: int| 0 <= i < self.slots@.len() ==> (#[trigger] self.slots@[i]).wf()
    }

    /// The grid is valid and every curve has a value per point.
    pub closed spec fn wf(&self) -> bool {
        &&& self.tidy()
        &&& grid_fault(self.grid()) is None
        &&& forall|k: KeyView| #[trigger]
            self.curves().dom().contains(k) ==> self.curves()[k].len() == self.grid().len()
    }

    /// What the outside may rely on.
    pub proof fn wf_means(&self)
        requires
            self.wf(),
        ensures
            grid_fault(self.grid()) is None,
            forall|k: KeyView| #[trigger]
                self.curves().dom().contains(k) ==> self.curves()[k].len() == self.grid().len(),
    {
    }

    /// An empty frame on an increasing grid.
    pub fn new(uid: usize, wavelength: Vec<Scalar>) -> (r: Result<Self, FrameFault>)
        ensures
            match r {
                Err(e) => grid_fault(wavelength@) == Some(e),
                Ok(f) => {
                    &&& grid_fault(wavelength@) is None
                    &&& f.wf()
                    &&& f.id() == uid
                    &&& f.grid() == wavelength@
                    &&& f.curves() == Map::<KeyView, Seq<Scalar>>::empty()
                },
            },
    {
        match check_grid(&wavelength) {
            Some(e) => Err(e),
            None => {
                let f: SpectralDataFrame = SpectralDataFrame {
                    uid,
                    index: slots_new(),
                    slots: Vec::new(),
                    wavelength,
                };
                assert(f.curves() =~= Map::<KeyView, Seq<Scalar>>::empty());
                Ok(f)
            },
        }
    }

    /// What is wrong with storing `n` values under a claimed grid.
    pub open spec fn data_fault(&self, n: int, claimed: Option<Seq<Scalar>>) -> Option<
        FrameFault,
    > {
        if claimed is Some && claimed->0 != self.grid() {
            Some(FrameFault::GridConflict { uid: self.id() })
        } else if n != self.grid().len() {
            Some(
                FrameFault::Length {
                    uid: self.id(),
                    values: n as usize,
                    points: self.grid().len() as usize,
                },
            )
        } else {
            None
        }
    }

    /// Stores a curve and says whether its key is new. A refused curve leaves
    /// the frame as it was.
    pub fn set_data(
        &mut self,
        key: &OpticalKey,
        value: SpectralData,
        wavelength: Option<&Vec<Scalar>>,
    ) -> (r: Result<bool, FrameFault>)
        requires
            old(self).wf(),
            value.wf(),
        ensures
            final(self).wf(),
            final(self).id() == old(self).id(),
            final(self).grid() == old(self).grid(),
            match r {
                Err(e) => {
                    &&& old(self).data_fault(
                        value.values().len() as int,
                        match wavelength {
                            Some(w) => Some(w@),
                            None => None,
                        },
                    ) == Some(e)
                    &&& final(self).curves() == old(self).curves()
                },
                Ok(new) => {
                    &&& old(self).data_fault(
                        value.values().len() as int,
                        match wavelength {
                            Some(w) => Some(w@),
                            None => None,
                        },
                    ) is None
                    &&& new == !old(self).curves().dom().contains(key@)
                    &&& final(self).curves() == old(self).curves().insert(key@, value.values())
                },
            },
    {
        if let Some(w) = wavelength {
            if !wl_bits_eq(&self.wavelength, w) {
                return Err(FrameFault::GridConflict { uid: self.uid });
            }
        }
        if value.len() != self.wavelength.len() {
            return Err(
                FrameFault::Length {
                    uid: self.uid,
                    values: value.len(),
                    points: self.wavelength.len(),
                },
            );
        }
        let raw: RawKey = raw_key(key);
        let ghost before = *self;
        match slots_get(&self.index, &raw) {
            Some(slot) => {
                assert(before.places().dom().contains(key@));
                self.slots.set(slot, value);
                assert(self.curves() =~= before.curves().insert(key@, value.values()));
                Ok(false)
            },
            None => {
                let slot: usize = self.slots.len();
                self.slots.push(value);
                slots_insert(&mut self.index, raw, slot);
                assert(self.places() == before.places().insert(key@, slot));
                assert(self.curves() =~= before.curves().insert(key@, value.values()));
                Ok(true)
            },
        }
    }

    /// The curve under a key.
    pub fn get_data(&self, key: &OpticalKey) -> (r: Option<SpectralData>)
        requires
            self.wf(),
        ensures
            match r {
                Some(d) => {
                    &&& self.curves().dom().contains(key@)
                    &&& d.wf()
                    &&& d.values() == self.curves()[key@]
                },
                None => !self.curves().dom().contains(key@),
            },
    {
        let raw: RawKey = raw_key(key);
        match slots_get(&self.index, &raw) {
            Some(slot) => {
                assert(self.places().dom().contains(key@));
                Some(self.slots[slot].cloned())
            },
            None => None,
        }
    }

    /// Every key once, in no particular order.
    pub fn keys(&self) -> (r: Vec<OpticalKey>)
        ensures
            r@.map_values(|k: OpticalKey| k@).no_duplicates(),
            r@.map_values(|k: OpticalKey| k@).to_set() == self.curves().dom(),
    {
        let raw: Vec<RawKey> = slots_keys(&self.index);
        let out: Vec<OpticalKey> = cook_keys(&raw);
        assert(self.curves().dom() =~= self.places().dom());
        assert(out@.map_values(|k: OpticalKey| k@) =~= raw@.map_values(
            |k: RawKey| store::raw_view(k),
        ));
        out
    }

    /// How many curves there are.
    pub fn len(&self) -> (r: usize)
        ensures
            r == self.curves().dom().len(),
    {
        assert(self.curves().dom() =~= self.places().dom());
        slots_len(&self.index)
    }

    /// Whether there is no curve.
    pub fn is_empty(&self) -> (r: bool)
        ensures
            r == (self.curves().dom().len() == 0),
    {
        self.len() == 0
    }

    /// The grid.
    pub fn wavelength(&self) -> (r: &Vec<Scalar>)
        ensures
            r@ == self.grid(),
    {
        &self.wavelength
    }

    /// The ends of the grid.
    pub fn wl_bounds(&self) -> (r: (Scalar, Scalar))
        requires
            self.wf(),
        ensures
            r.0 == self.grid()[0],
            r.1 == self.grid().last(),
    {
        (self.wavelength[0], self.wavelength[self.wavelength.len() - 1])
    }

    /// Drops a curve.
    pub fn remove(&mut self, key: &OpticalKey) -> (r: Result<(), FrameFault>)
        requires
            old(self).wf(),
        ensures
            final(self).wf(),
            final(self).id() == old(self).id(),
            final(self).grid() == old(self).grid(),
            final(self).curves() == old(self).curves().remove(key@),
            match r {
                Ok(_) => old(self).curves().dom().contains(key@),
                Err(e) => e == FrameFault::KeyNotFound && !old(self).curves().dom().contains(
                    key@,
                ),
            },
    {
        let raw: RawKey = raw_key(key);
        let ghost before = *self;
        match slots_get(&self.index, &raw) {
            Some(slot) => {
                assert(before.places().dom().contains(key@));
                self.slots.set(slot, SpectralData::from_arc(Arc::new(Vec::new())));
                slots_remove(&mut self.index, &raw);
                assert(self.places() == before.places().remove(key@));
                assert(self.curves() =~= before.curves().remove(key@));
                Ok(())
            },
            None => {
                assert(self.curves() =~= before.curves().remove(key@));
                Err(FrameFault::KeyNotFound)
            },
        }
    }
}

/// Keys from what the map holds.
pub(crate) fn cook_keys(raw: &Vec<RawKey>) -> (r: Vec<OpticalKey>)
    ensures
        r@.len() == raw@.len(),
        forall|i: int| 0 <= i < r@.len() ==> (#[trigger] r@[i])@ == store::raw_view(raw@[i]),
{
    let mut out: Vec<OpticalKey> = Vec::with_capacity(raw.len());
    let mut i: usize = 0;
    while i < raw.len()
        invariant
            i <= raw.len(),
            out@.len() == i,
            forall|k: int|
                0 <= k < i ==> (#[trigger] out@[k])@ == store::raw_view(raw@[k]),
        decreases raw.len() - i,
    {
        out.push(
            OpticalKey::new(
                Scalar::from_bits(raw[i].0),
                raw[i].1.clone(),
                raw[i].2.clone(),
            ),
        );
        i += 1;
    }
    out
}

} // verus!
