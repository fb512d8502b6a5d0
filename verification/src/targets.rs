//! Typed target sets: what they hold, what is refused, and their defaults.
use crate::merit::spec::TargetFault;
use crate::merit::CurveId;
use crate::scalar;
use crate::scalar::Scalar;
use crate::spectralweave::frame;
use crate::spectralweave::frame::FrameFault;
use crate::spectralweave::targetweaver::TargetKind;
use crate::text;
use crate::text::{debug_text, same_text};
use vstd::prelude::*;
use vstd::string::*;

pub mod color;
pub mod compile;
pub mod frames;
pub mod join;
pub mod message;
pub mod scaling;

verus! {

/// Half-widths around a target: one for all points, or one per point.
#[derive(Debug)]
pub enum Band {
    Scalar(Scalar),
    Points(Vec<Scalar>),
}

/// A demanded curve over wavelength at one angle.
#[derive(Debug)]
pub struct SpectralTarget {
    pub wavelengths: Vec<Scalar>,
    pub values: Vec<Scalar>,
    pub tolerances: Vec<Scalar>,
    pub angle: Scalar,
    pub polarization: String,
    pub spectral: String,
    pub kind: String,
    pub normalization_mode: String,
    pub band: Option<Band>,
    pub phase: bool,
    pub weight: Scalar,
    pub normalize_count: bool,
    pub integral: bool,
}

/// A demanded curve over angle at one wavelength.
#[derive(Debug)]
pub struct AngularTarget {
    pub wavelength: Scalar,
    pub angles: Vec<Scalar>,
    pub values: Vec<Scalar>,
    pub tolerances: Vec<Scalar>,
    pub polarization: String,
    pub spectral: String,
    pub kind: String,
    pub normalization_mode: String,
    pub band: Option<Band>,
    pub phase: bool,
    pub weight: Scalar,
    pub normalize_count: bool,
    pub integral: bool,
}

/// An illuminant by its values.
#[derive(Debug)]
pub struct IllumTable {
    pub wavelengths: Vec<Scalar>,
    pub values: Vec<Scalar>,
}

/// An illuminant: "D65", or a table.
#[derive(Debug)]
pub enum IllumJson {
    Name(String),
    Table(IllumTable),
}

/// An observer by its color matching functions.
#[derive(Debug)]
pub struct CmfTable {
    pub wavelengths: Vec<Scalar>,
    pub xyz: Vec<[Scalar; 3]>,
}

/// An observer: "1931_2deg", or a table.
#[derive(Debug)]
pub enum CmfJson {
    Name(String),
    Table(CmfTable),
}

/// What a color is compared with.
#[derive(Clone, Copy, Debug, PartialEq, Eq)]
pub enum ColorReference {
    Triple([Scalar; 3]),
    Pair([Scalar; 2]),
    Scalar(Scalar),
}

/// A reference of a known shape, or the text of one of no known shape.
#[derive(Debug)]
pub enum ReferenceJson {
    Valid(ColorReference),
    Other(String),
}

/// One color demand.
#[derive(Debug)]
pub struct ColorTargetJson {
    pub curve: String,
    pub angle: Scalar,
    pub illuminant: IllumJson,
    pub observer: CmfJson,
    pub quantity: String,
    pub reference: ReferenceJson,
    pub distance: String,
    pub weight: Scalar,
    /// Yellowness coefficients; defaults apply where they are missing.
    pub yi_cx: Option<Scalar>,
    pub yi_cz: Option<Scalar>,
    pub kind: String,
    pub transform: String,
    pub integral: bool,
    pub count_norm: Option<Scalar>,
    pub phase: bool,
    pub band: Option<Band>,
}

/// A full target set.
#[derive(Debug)]
pub struct TargetSet {
    pub spectral: Vec<SpectralTarget>,
    pub angular: Vec<AngularTarget>,
    pub color: Vec<ColorTargetJson>,
    pub cache_size: usize,
    pub tolerance_floor: Scalar,
}

/// The kind of a target that names none.
pub fn d_kind() -> (r: String)
    ensures
        r@ == "e"@,
{
    String::from_str("e")
}

/// The normalization of a target that names none.
pub fn d_norm() -> (r: String)
    ensures
        r@ == "auto"@,
{
    String::from_str("auto")
}

/// The kind of a color demand that names none.
pub fn d_color_kind() -> (r: String)
    ensures
        r@ == "Exact"@,
{
    String::from_str("Exact")
}

/// The transform of a color demand that names none.
pub fn d_color_transform() -> (r: String)
    ensures
        r@ == "linear"@,
{
    String::from_str("linear")
}

/// The cache size of a set that names none.
pub fn d_cache() -> (r: usize)
    ensures
        r == 128,
{
    128
}

/// The weight of a target that names none.
pub fn d_weight() -> (r: Scalar)
    ensures
        r == Scalar::one(),
{
    Scalar::one()
}

/// 1e-12.
pub const FLOOR_BITS: u64 = 0x3d71_9799_812d_ea11;

/// The tolerance floor of a set that names none: 1e-12.
pub fn d_floor() -> (r: Scalar)
    ensures
        r.bits == FLOOR_BITS,
{
    Scalar { bits: FLOOR_BITS }
}

// ---------------------------------------------------------------------------
// Refusals
// ---------------------------------------------------------------------------
/// What is wrong with a target.
#[derive(Clone, Copy, Debug, PartialEq, Eq, Structural)]
pub enum What {
    /// The weight is negative or not finite.
    Weight,
    /// A mean cannot be divided by its count again.
    IntegralCount,
    /// The columns differ in length.
    Shape,
    BandNegative,
    BandShape { got: usize, want: usize },
    /// No kind has this code.
    Kind,
    /// The wavelengths make no grid.
    Grid { fault: FrameFault },
    /// No stored entry belongs to the target.
    Unmatched,
    /// No curve has these labels.
    Curve,
    /// A phase against a reference must be asked for as a phase.
    NeedsPhase,
    /// The demand is not acceptable.
    Refused { refusal: TargetFault },
}

/// Which target of a set.
#[derive(Clone, Copy, Debug, PartialEq, Eq, Structural)]
pub enum Place {
    Spectral { at: usize },
    Angular { at: usize },
}

/// What is wrong, and with which target.
#[derive(Clone, Copy, Debug, PartialEq, Eq, Structural)]
pub struct Trouble {
    pub place: Place,
    pub what: What,
}

/// The weight can be used.
pub open spec fn weight_fits(w: Scalar) -> bool {
    w.finite() && !scalar::less(w, Scalar::zero())
}

/// Tests a weight: finite and not negative.
pub fn check_weight(weight: Scalar) -> (r: bool)
    ensures
        r == weight_fits(weight),
{
    weight.is_finite() && !weight.lt(Scalar::zero())
}

/// The message on a mean that is also to be divided by its count.
pub open spec fn integral_text(label: Seq<char>) -> Seq<char> {
    label + ": integral targets reject normalize_count (the mean already is one)."@
}

/// Refuses a mean that is also to be divided by its count.
pub fn check_integral(integral: bool, normalize_count: bool, label: &str) -> (r: Result<
    (),
    String,
>)
    ensures
        match r {
            Ok(_) => !(integral && normalize_count),
            Err(m) => integral && normalize_count && m@ == integral_text(label@),
        },
{
    if integral && normalize_count {
        Err(
            String::from_str(label).concat(
                ": integral targets reject normalize_count (the mean already is one).",
            ),
        )
    } else {
        Ok(())
    }
}

/// Some half-width is negative.
pub open spec fn any_negative(v: Seq<Scalar>) -> bool {
    exists|i: int| 0 <= i < v.len() && scalar::less(#[trigger] v[i], Scalar::zero())
}

/// What is wrong with the half-widths for `n` points.
pub open spec fn band_fault(band: Option<Band>, n: nat) -> Option<What> {
    match band {
        None => None,
        Some(Band::Scalar(b)) => if scalar::less(b, Scalar::zero()) {
            Some(What::BandNegative)
        } else {
            None
        },
        Some(Band::Points(v)) => if v@.len() != n {
            Some(What::BandShape { got: v@.len() as usize, want: n as usize })
        } else if any_negative(v@) {
            Some(What::BandNegative)
        } else {
            None
        },
    }
}

/// The half-widths of `n` points; none where there is no band.
pub open spec fn band_values(band: Option<Band>, n: nat) -> Seq<Scalar> {
    match band {
        None => seq![],
        Some(Band::Scalar(b)) => Seq::new(n, |i: int| b),
        Some(Band::Points(v)) => v@,
    }
}

/// Spreads a band over `n` points.
pub fn resolve_band(band: &Option<Band>, n: usize) -> (r: Result<Vec<Scalar>, What>)
    ensures
        match r {
            Ok(v) => band_fault(*band, n as nat) is None && v@ == band_values(*band, n as nat),
            Err(w) => band_fault(*band, n as nat) == Some(w),
        },
{
    match band {
        None => {
            let v: Vec<Scalar> = Vec::new();
            assert(v@ =~= band_values(*band, n as nat));
            Ok(v)
        },
        Some(Band::Scalar(b)) => {
            if b.lt(Scalar::zero()) {
                return Err(What::BandNegative);
            }
            let ghost goal = band_values(*band, n as nat);
            let mut v: Vec<Scalar> = Vec::with_capacity(n);
            let mut i: usize = 0;
            while i < n
                invariant
                    goal == Seq::new(n as nat, |k: int| *b),
                    i <= n,
                    v@ == goal.take(i as int),
                decreases n - i,
            {
                v.push(*b);
                i += 1;
                assert(v@ =~= goal.take(i as int));
            }
            assert(v@ =~= goal);
            Ok(v)
        },
        Some(Band::Points(v)) => {
            if v.len() != n {
                return Err(What::BandShape { got: v.len(), want: n });
            }
            let mut i: usize = 0;
            while i < v.len()
                invariant
                    i <= v@.len(),
                    v@.len() == n,
                    *band == Some(Band::Points(*v)),
                    forall|k: int| 0 <= k < i ==> !scalar::less(#[trigger] v@[k], Scalar::zero()),
                decreases v.len() - i,
            {
                if v[i].lt(Scalar::zero()) {
                    assert(scalar::less(v@[i as int], Scalar::zero()));
                    return Err(What::BandNegative);
                }
                i += 1;
            }
            Ok(crate::numeric::copy(v))
        },
    }
}

/// Some kind has this code.
pub open spec fn kind_known(code: Seq<char>) -> bool {
    exists|k: TargetKind| #[trigger] k.code() == code
}

/// What is wrong with a spectral target on intake, in the order it is looked
/// for.
pub open spec fn spectral_fault(t: SpectralTarget) -> Option<What> {
    let n = t.values@.len();
    if !weight_fits(t.weight) {
        Some(What::Weight)
    } else if t.integral && t.normalize_count {
        Some(What::IntegralCount)
    } else if t.wavelengths@.len() != n || t.tolerances@.len() != n {
        Some(What::Shape)
    } else if band_fault(t.band, n) is Some {
        band_fault(t.band, n)
    } else if !kind_known(t.kind@) {
        Some(What::Kind)
    } else {
        match frame::grid_fault(t.wavelengths@) {
            Some(fault) => Some(What::Grid { fault }),
            None => None,
        }
    }
}

/// What is wrong with an angular target on intake. Its one wavelength always
/// makes a grid.
pub open spec fn angular_fault(t: AngularTarget) -> Option<What> {
    let n = t.values@.len();
    if !weight_fits(t.weight) {
        Some(What::Weight)
    } else if t.integral && t.normalize_count {
        Some(What::IntegralCount)
    } else if t.angles@.len() != n || t.tolerances@.len() != n {
        Some(What::Shape)
    } else if band_fault(t.band, n) is Some {
        band_fault(t.band, n)
    } else if !kind_known(t.kind@) {
        Some(What::Kind)
    } else {
        None
    }
}

// ---------------------------------------------------------------------------
// Curve labels
// ---------------------------------------------------------------------------
/// A phase against a reference: its curve and its polarization.
pub open spec fn reference_phase(spectral: Seq<char>) -> Option<(CurveId, Seq<char>)> {
    if spectral == "PDts"@ {
        Some((CurveId::Ts, "s"@))
    } else if spectral == "PDtp"@ {
        Some((CurveId::Tp, "p"@))
    } else {
        None
    }
}

/// The label of a curve that is not a phase against a reference.
pub open spec fn plain_labels(c: CurveId) -> (Seq<char>, Seq<char>) {
    match c {
        CurveId::Rs => ("R"@, "s"@),
        CurveId::Rp => ("R"@, "p"@),
        CurveId::Ru => ("R"@, "u"@),
        CurveId::Ts => ("T"@, "s"@),
        CurveId::Tp => ("T"@, "p"@),
        CurveId::Tu => ("T"@, "u"@),
        CurveId::As => ("A"@, "s"@),
        CurveId::Ap => ("A"@, "p"@),
        CurveId::Au => ("A"@, "u"@),
        CurveId::RBs => ("RB"@, "s"@),
        CurveId::RBp => ("RB"@, "p"@),
        CurveId::RBu => ("RB"@, "u"@),
        CurveId::TBs => ("TB"@, "s"@),
        CurveId::TBp => ("TB"@, "p"@),
        CurveId::TBu => ("TB"@, "u"@),
        CurveId::ABs => ("AB"@, "s"@),
        CurveId::ABp => ("AB"@, "p"@),
        CurveId::ABu => ("AB"@, "u"@),
    }
}

/// The labels name this curve.
pub open spec fn labels_name(spectral: Seq<char>, polarization: Seq<char>, c: CurveId) -> bool {
    match reference_phase(spectral) {
        Some((host, pol)) => c == host && polarization == pol,
        None => plain_labels(c) == (spectral, polarization),
    }
}

/// The labels name some curve.
pub open spec fn labels_known(spectral: Seq<char>, polarization: Seq<char>) -> bool {
    exists|c: CurveId| #[trigger] labels_name(spectral, polarization, c)
}

/// The curve that the labels name.
pub open spec fn curve_named(spectral: Seq<char>, polarization: Seq<char>) -> CurveId {
    choose|c: CurveId| #[trigger] labels_name(spectral, polarization, c)
}

/// Labels name one curve at most.
pub proof fn labels_are_definite(
    spectral: Seq<char>,
    polarization: Seq<char>,
    c: CurveId,
    d: CurveId,
)
    requires
        labels_name(spectral, polarization, c),
        labels_name(spectral, polarization, d),
    ensures
        c == d,
{
    reveal_strlit("R");
    reveal_strlit("T");
    reveal_strlit("A");
    reveal_strlit("RB");
    reveal_strlit("TB");
    reveal_strlit("AB");
    reveal_strlit("s");
    reveal_strlit("p");
    reveal_strlit("u");
    if reference_phase(spectral) is None {
        assert("R"@.len() == 1 && "T"@.len() == 1 && "A"@.len() == 1 && "RB"@.len() == 2
            && "TB"@.len() == 2 && "AB"@.len() == 2);
        assert("R"@[0] == 'R' && "T"@[0] == 'T' && "A"@[0] == 'A' && "RB"@[0] == 'R' && "TB"@[0]
            == 'T' && "AB"@[0] == 'A');
        assert("s"@[0] == 's' && "p"@[0] == 'p' && "u"@[0] == 'u');
    }
}

/// The message on labels that name no curve.
pub open spec fn labels_text(spectral: Seq<char>, polarization: Seq<char>) -> Seq<char> {
    let head = "Cannot convert spectral="@ + text::quoted(spectral) + ", polarization="@
        + text::quoted(polarization);
    match reference_phase(spectral) {
        Some((_, pol)) => head + ": "@ + text::quoted(spectral) + " is "@ + pol
            + "-polarized (label encodes polarization)."@,
        None => head + "."@,
    }
}

fn one_of(
    spectral: &str,
    label: &str,
    polarization: &str,
    s: CurveId,
    p: CurveId,
    u: CurveId,
) -> (r: Option<CurveId>)
    requires
        plain_labels(s) == (label@, "s"@),
        plain_labels(p) == (label@, "p"@),
        plain_labels(u) == (label@, "u"@),
    ensures
        match r {
            Some(c) => plain_labels(c) == (spectral@, polarization@),
            None => spectral@ != label@ || (polarization@ != "s"@ && polarization@ != "p"@
                && polarization@ != "u"@),
        },
{
    if !same_text(spectral, label) {
        None
    } else if same_text(polarization, "s") {
        Some(s)
    } else if same_text(polarization, "p") {
        Some(p)
    } else if same_text(polarization, "u") {
        Some(u)
    } else {
        None
    }
}

fn plain_curve(spectral: &str, polarization: &str) -> (r: Option<CurveId>)
    ensures
        match r {
            Some(c) => plain_labels(c) == (spectral@, polarization@),
            None => forall|c: CurveId| #[trigger]
                plain_labels(c) != (spectral@, polarization@),
        },
{
    if let Some(c) = one_of(
        spectral,
        "R",
        polarization,
        CurveId::Rs,
        CurveId::Rp,
        CurveId::Ru,
    ) {
        return Some(c);
    }
    if let Some(c) = one_of(
        spectral,
        "T",
        polarization,
        CurveId::Ts,
        CurveId::Tp,
        CurveId::Tu,
    ) {
        return Some(c);
    }
    if let Some(c) = one_of(
        spectral,
        "A",
        polarization,
        CurveId::As,
        CurveId::Ap,
        CurveId::Au,
    ) {
        return Some(c);
    }
    if let Some(c) = one_of(
        spectral,
        "RB",
        polarization,
        CurveId::RBs,
        CurveId::RBp,
        CurveId::RBu,
    ) {
        return Some(c);
    }
    if let Some(c) = one_of(
        spectral,
        "TB",
        polarization,
        CurveId::TBs,
        CurveId::TBp,
        CurveId::TBu,
    ) {
        return Some(c);
    }
    one_of(spectral, "AB", polarization, CurveId::ABs, CurveId::ABp, CurveId::ABu)
}

/// A phase against a reference: its curve, its polarization and the passes
/// through the reference, which are always one.
pub fn differential(spectral: &str) -> (r: Option<(CurveId, &'static str, Scalar)>)
    ensures
        match r {
            Some((c, pol, passes)) => reference_phase(spectral@) == Some((c, pol@)) && passes
                == Scalar::one(),
            None => reference_phase(spectral@) is None,
        },
{
    if same_text(spectral, "PDts") {
        Some((CurveId::Ts, "s", Scalar::one()))
    } else if same_text(spectral, "PDtp") {
        Some((CurveId::Tp, "p", Scalar::one()))
    } else {
        None
    }
}

/// The curve that a spectral and a polarization label name.
pub fn named_curve(spectral: &str, polarization: &str) -> (r: Option<CurveId>)
    ensures
        match r {
            Some(c) => labels_name(spectral@, polarization@, c) && c == curve_named(
                spectral@,
                polarization@,
            ),
            None => !labels_known(spectral@, polarization@),
        },
{
    let found: Option<CurveId> = match differential(spectral) {
        Some((c, pol, _)) => {
            if same_text(polarization, pol) {
                Some(c)
            } else {
                None
            }
        },
        None => plain_curve(spectral, polarization),
    };
    proof {
        if let Some(c) = found {
            assert(labels_name(spectral@, polarization@, c));
            labels_are_definite(
                spectral@,
                polarization@,
                c,
                curve_named(spectral@, polarization@),
            );
        }
    }
    found
}

/// The code of the curve that two labels name, or why they name none.
pub fn curve_id(spectral: &str, polarization: &str) -> (r: Result<String, String>)
    ensures
        match r {
            Ok(code) => labels_known(spectral@, polarization@) && code@ == curve_named(
                spectral@,
                polarization@,
            ).code(),
            Err(m) => !labels_known(spectral@, polarization@) && m@ == labels_text(
                spectral@,
                polarization@,
            ),
        },
{
    match named_curve(spectral, polarization) {
        Some(c) => Ok(String::from_str(c.as_str())),
        None => {
            let s: String = debug_text(spectral);
            let p: String = debug_text(polarization);
            let head: String = String::from_str("Cannot convert spectral=").concat(
                s.as_str(),
            ).concat(", polarization=").concat(p.as_str());
            match differential(spectral) {
                Some((_, pol, _)) => Err(
                    head.concat(": ").concat(s.as_str()).concat(" is ").concat(pol).concat(
                        "-polarized (label encodes polarization).",
                    ),
                ),
                None => Err(head.concat(".")),
            }
        },
    }
}

} // verus!
