//! Identity of curves and grids.
use crate::scalar::Scalar;
use crate::text::same_text;
use vstd::prelude::*;

verus! {

/// Unit tag of spectral and intensity axes.
#[derive(Clone, Copy, Debug, PartialEq, Eq, Structural, Hash)]
pub enum Unit {
    NM,
    RAW,
}

/// A copy of `value` in another unit: grids are held in nm and data raw, so
/// the numbers stay as they are.
pub fn convert_unit(value: &Vec<Scalar>, from: Unit, to: Unit) -> (r: Vec<Scalar>)
    ensures
        r@ == value@,
{
    crate::numeric::copy(value)
}

/// The name of a unit.
pub fn unit_to_str(u: Unit) -> (r: &'static str)
    ensures
        r@ == match u {
            Unit::NM => "NM"@,
            Unit::RAW => "RAW"@,
        },
{
    match u {
        Unit::NM => "NM",
        Unit::RAW => "RAW",
    }
}

/// The spectral unit of a label; there is only one.
pub fn parse_spectral(s: Option<&str>) -> (r: Unit)
    ensures
        r == Unit::NM,
{
    Unit::NM
}

/// The intensity unit of a label; there is only one.
pub fn parse_intensity(s: Option<&str>) -> (r: Unit)
    ensures
        r == Unit::RAW,
{
    Unit::RAW
}

/// What identifies a curve: the exact bits of its base wavelength and two
/// labels.
pub type KeyView = (u64, Seq<char>, Seq<char>);

/// Identity of one curve.
#[derive(Debug)]
pub struct OpticalKey {
    pub wavelength: Scalar,
    pub data_type: String,
    pub polarisation: String,
}

impl View for OpticalKey {
    type V = KeyView;

    open spec fn view(&self) -> KeyView {
        (self.wavelength.bits, self.data_type@, self.polarisation@)
    }
}

impl PartialEq for OpticalKey {
    fn eq(&self, other: &Self) -> (r: bool) {
        self.wavelength.bits == other.wavelength.bits && same_text(
            self.data_type.as_str(),
            other.data_type.as_str(),
        ) && same_text(self.polarisation.as_str(), other.polarisation.as_str())
    }
}

impl vstd::std_specs::cmp::PartialEqSpecImpl for OpticalKey {
    open spec fn obeys_eq_spec() -> bool {
        true
    }

    open spec fn eq_spec(&self, other: &Self) -> bool {
        self@ == other@
    }
}

impl OpticalKey {
    /// A key of its parts.
    pub fn new(wavelength: Scalar, data_type: String, polarisation: String) -> (r: Self)
        ensures
            r@ == (wavelength.bits, data_type@, polarisation@),
            r.wavelength == wavelength,
    {
        OpticalKey { wavelength, data_type, polarisation }
    }

    /// The parts of the key.
    pub fn as_tuple(&self) -> (r: (Scalar, String, String))
        ensures
            r.0 == self.wavelength,
            r.1@ == self.data_type@,
            r.2@ == self.polarisation@,
    {
        (self.wavelength, self.data_type.clone(), self.polarisation.clone())
    }

    /// A copy.
    pub fn cloned(&self) -> (r: Self)
        ensures
            r@ == self@,
            r.wavelength == self.wavelength,
    {
        OpticalKey {
            wavelength: self.wavelength,
            data_type: self.data_type.clone(),
            polarisation: self.polarisation.clone(),
        }
    }
}

// ---------------------------------------------------------------------------
// Grid fingerprints
// ---------------------------------------------------------------------------
/// Byte `k` of a word, the least significant first.
pub open spec fn byte_of(w: u64, k: int) -> u8 {
    ((w >> ((8 * k) as u64)) & 0xff) as u8
}

/// The bytes of the grid's bit patterns, eight per point.
pub open spec fn grid_bytes(wl: Seq<Scalar>) -> Seq<u8> {
    Seq::new(8 * wl.len(), |i: int| byte_of(wl[i / 8].bits, i % 8))
}

/// Spells the grid's bit patterns out as bytes.
pub fn spell(wl: &Vec<Scalar>) -> (r: Vec<u8>)
    ensures
        r@ == grid_bytes(wl@),
{
    let ghost target = grid_bytes(wl@);
    let mut out: Vec<u8> = Vec::new();
    let mut i: usize = 0;
    while i < wl.len()
        invariant
            i <= wl.len(),
            target == grid_bytes(wl@),
            out@ == target.take(8 * i),
        decreases wl.len() - i,
    {
        let w: u64 = wl[i].bits;
        let mut k: u64 = 0;
        while k < 8
            invariant
                i < wl@.len(),
                w == wl@[i as int].bits,
                k <= 8,
                target == grid_bytes(wl@),
                out@ == target.take(8 * i + k),
            decreases 8 - k,
        {
            let b: u8 = ((w >> (8 * k)) & 0xff) as u8;
            assert((8 * i + k) / 8 == i && (8 * i + k) % 8 == k);
            assert(b == target[8 * i + k]);
            out.push(b);
            k += 1;
            assert(out@ =~= target.take(8 * i + k));
        }
        i += 1;
    }
    assert(out@ =~= target);
    out
}

/// The 128-bit xxh3 fingerprint of a byte string.
pub uninterp spec fn xxh3(bytes: Seq<u8>) -> u128;

/// `xxhash_rust::xxh3::xxh3_128`: the fingerprint of the bytes, which depends
/// on nothing else.
#[verifier::external_body]
fn fingerprint(bytes: &Vec<u8>) -> (r: u128)
    ensures
        r == xxh3(bytes@),
{
    xxhash_rust::xxh3::xxh3_128(bytes)
}

/// The fingerprint of a grid.
pub open spec fn signature(wl: Seq<Scalar>) -> u128 {
    xxh3(grid_bytes(wl))
}

/// Fingerprints a grid.
pub fn wl_signature(wl: &Vec<Scalar>) -> (r: u128)
    ensures
        r == signature(wl@),
{
    fingerprint(&spell(wl))
}

/// Whether two grids agree bit for bit.
pub fn wl_bits_eq(a: &Vec<Scalar>, b: &Vec<Scalar>) -> (r: bool)
    ensures
        r == (a@ == b@),
{
    if a.len() != b.len() {
        return false;
    }
    let mut i: usize = 0;
    while i < a.len()
        invariant
            a@.len() == b@.len(),
            i <= a.len(),
            forall|k: int| 0 <= k < i ==> a@[k] == b@[k],
        decreases a.len() - i,
    {
        if a[i].bits != b[i].bits {
            assert(a@[i as int] != b@[i as int]);
            return false;
        }
        i += 1;
    }
    assert(a@ =~= b@);
    true
}

} // verus!
