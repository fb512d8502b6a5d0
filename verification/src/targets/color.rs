//! Color demands: what is accepted, and what is handed to the colorimetry.
use crate::merit::CurveId;
use crate::numeric;
use crate::scalar::Scalar;
use crate::targets;
use crate::targets::{
    check_weight, CmfJson, ColorReference, ColorTargetJson, IllumJson, ReferenceJson,
};
use crate::text;
use crate::text::{debug_text, same_text};
use vstd::prelude::*;
use vstd::string::*;

verus! {

/// What of a color is compared.
#[derive(Clone, Copy, Debug, PartialEq, Eq, Structural)]
pub enum ColorQuantity {
    Lab,
    XyY,
    LCh,
    Oklab,
    Y,
    DomWl,
    Srgb,
    Luv,
    Xyz,
    Din99,
    White,
    Yellow,
}

impl ColorQuantity {
    pub open spec fn code(self) -> Seq<char> {
        match self {
            ColorQuantity::Lab => "Lab"@,
            ColorQuantity::XyY => "XyY"@,
            ColorQuantity::LCh => "LCh"@,
            ColorQuantity::Oklab => "Oklab"@,
            ColorQuantity::Y => "Y"@,
            ColorQuantity::DomWl => "DomWl"@,
            ColorQuantity::Srgb => "sRGB"@,
            ColorQuantity::Luv => "Luv"@,
            ColorQuantity::Xyz => "XYZ"@,
            ColorQuantity::Din99 => "Din99"@,
            ColorQuantity::White => "White"@,
            ColorQuantity::Yellow => "Yellow"@,
        }
    }

    /// The quantity with a given name.
    pub fn from_str(s: &str) -> (r: Option<ColorQuantity>)
        ensures
            match r {
                Some(q) => s@ == q.code(),
                None => forall|q: ColorQuantity| s@ != #[trigger] q.code(),
            },
    {
        if same_text(s, "Lab") {
            Some(ColorQuantity::Lab)
        } else if same_text(s, "XyY") {
            Some(ColorQuantity::XyY)
        } else if same_text(s, "LCh") {
            Some(ColorQuantity::LCh)
        } else if same_text(s, "Oklab") {
            Some(ColorQuantity::Oklab)
        } else if same_text(s, "Y") {
            Some(ColorQuantity::Y)
        } else if same_text(s, "DomWl") {
            Some(ColorQuantity::DomWl)
        } else if same_text(s, "sRGB") {
            Some(ColorQuantity::Srgb)
        } else if same_text(s, "Luv") {
            Some(ColorQuantity::Luv)
        } else if same_text(s, "XYZ") {
            Some(ColorQuantity::Xyz)
        } else if same_text(s, "Din99") {
            Some(ColorQuantity::Din99)
        } else if same_text(s, "White") {
            Some(ColorQuantity::White)
        } else if same_text(s, "Yellow") {
            Some(ColorQuantity::Yellow)
        } else {
            None
        }
    }
}

/// How two colors are compared.
#[derive(Clone, Copy, Debug, PartialEq, Eq, Structural)]
pub enum ColorDistance {
    DeltaE2000,
    DeltaE76,
    Channels,
}

impl ColorDistance {
    pub open spec fn code(self) -> Seq<char> {
        match self {
            ColorDistance::DeltaE2000 => "DeltaE2000"@,
            ColorDistance::DeltaE76 => "DeltaE76"@,
            ColorDistance::Channels => "Channels"@,
        }
    }

    /// The distance with a given name.
    pub fn from_str(s: &str) -> (r: Option<ColorDistance>)
        ensures
            match r {
                Some(d) => s@ == d.code(),
                None => forall|d: ColorDistance| s@ != #[trigger] d.code(),
            },
    {
        if same_text(s, "DeltaE2000") {
            Some(ColorDistance::DeltaE2000)
        } else if same_text(s, "DeltaE76") {
            Some(ColorDistance::DeltaE76)
        } else if same_text(s, "Channels") {
            Some(ColorDistance::Channels)
        } else {
            None
        }
    }
}

/// The embedded illuminant and observer, and the default yellowness
/// coefficients.
#[derive(Debug)]
pub struct ColorTables {
    pub illum_wl: Vec<Scalar>,
    pub illum: Vec<Scalar>,
    pub cmf_wl: Vec<Scalar>,
    pub cmf_xyz: Vec<[Scalar; 3]>,
    pub yi_cx: Scalar,
    pub yi_cz: Scalar,
}

/// An accepted demand, resolved to tables and numbers.
#[derive(Debug)]
pub struct ColorRequest {
    pub cmf: Vec<[Scalar; 3]>,
    pub cmf_wl: Vec<Scalar>,
    pub illum: Vec<Scalar>,
    pub illum_wl: Vec<Scalar>,
    pub quantity: ColorQuantity,
    pub reference: ColorReference,
    pub distance: ColorDistance,
    pub weight: Scalar,
    pub yi_cx: Scalar,
    pub yi_cz: Scalar,
}

/// What a request holds.
#[verifier::ext_equal]
pub struct RequestView {
    pub cmf: Seq<[Scalar; 3]>,
    pub cmf_wl: Seq<Scalar>,
    pub illum: Seq<Scalar>,
    pub illum_wl: Seq<Scalar>,
    pub quantity: Seq<char>,
    pub reference: ColorReference,
    pub distance: Seq<char>,
    pub weight: Scalar,
    pub yi_cx: Scalar,
    pub yi_cz: Scalar,
}

impl View for ColorRequest {
    type V = RequestView;

    open spec fn view(&self) -> RequestView {
        RequestView {
            cmf: self.cmf@,
            cmf_wl: self.cmf_wl@,
            illum: self.illum@,
            illum_wl: self.illum_wl@,
            quantity: self.quantity.code(),
            reference: self.reference,
            distance: self.distance.code(),
            weight: self.weight,
            yi_cx: self.yi_cx,
            yi_cz: self.yi_cz,
        }
    }
}

/// Why a color demand was refused.
#[derive(Clone, Copy, Debug, PartialEq, Eq, Structural)]
pub enum ColorRefusal {
    BackCurve,
    NotFrontCurve,
    Kind,
    Transform,
    Integral,
    CountNorm,
    Phase,
    Band,
    Weight,
    Quantity,
    Distance,
    Reference,
    Illuminant,
    Observer,
    /// The reference does not have the quantity's shape.
    Shape,
    /// The quantity has no such distance.
    Pairing,
}

/// The shape of a reference.
#[derive(Clone, Copy, Debug, PartialEq, Eq, Structural)]
pub enum ReferenceShape {
    Scalar,
    Pair,
    Triple,
}

impl ReferenceShape {
    pub open spec fn word(self) -> Seq<char> {
        match self {
            ReferenceShape::Scalar => "scalar"@,
            ReferenceShape::Pair => "pair"@,
            ReferenceShape::Triple => "triple"@,
        }
    }

    pub fn as_str(self) -> (r: &'static str)
        ensures
            r@ == self.word(),
    {
        match self {
            ReferenceShape::Scalar => "scalar",
            ReferenceShape::Pair => "pair",
            ReferenceShape::Triple => "triple",
        }
    }
}

/// The shape of a reference.
pub open spec fn shape_of(r: ColorReference) -> ReferenceShape {
    match r {
        ColorReference::Scalar(_) => ReferenceShape::Scalar,
        ColorReference::Pair(_) => ReferenceShape::Pair,
        ColorReference::Triple(_) => ReferenceShape::Triple,
    }
}

/// The shape that the references of a quantity have.
pub open spec fn shape_for(quantity: Seq<char>) -> ReferenceShape {
    if quantity == "Y"@ || quantity == "Yellow"@ {
        ReferenceShape::Scalar
    } else if quantity == "DomWl"@ || quantity == "White"@ {
        ReferenceShape::Pair
    } else {
        ReferenceShape::Triple
    }
}

/// A quantity can be compared by a distance: color differences are for the
/// coordinates that they are made of, channels for all.
pub open spec fn pairs(quantity: Seq<char>, distance: Seq<char>) -> bool {
    distance == "Channels"@ || quantity == "Lab"@ || quantity == "LCh"@
}

fn reference_shape(r: &ColorReference) -> (s: ReferenceShape)
    ensures
        s == shape_of(*r),
{
    match r {
        ColorReference::Scalar(_) => ReferenceShape::Scalar,
        ColorReference::Pair(_) => ReferenceShape::Pair,
        ColorReference::Triple(_) => ReferenceShape::Triple,
    }
}

fn wanted_shape(quantity: &str) -> (s: ReferenceShape)
    ensures
        s == shape_for(quantity@),
{
    if same_text(quantity, "Y") || same_text(quantity, "Yellow") {
        ReferenceShape::Scalar
    } else if same_text(quantity, "DomWl") || same_text(quantity, "White") {
        ReferenceShape::Pair
    } else {
        ReferenceShape::Triple
    }
}

/// Some curve on the given side with the given nature has this code.
pub open spec fn curve_coded(code: Seq<char>, c: CurveId) -> bool {
    c.code() == code
}

/// A reflected or transmitted front curve has this code.
pub open spec fn front_curve(code: Seq<char>) -> bool {
    exists|c: CurveId| #[trigger] curve_coded(code, c) && !c.back() && !(c.quantity() is Absorbed)
}

/// A back curve has this code.
pub open spec fn back_curve(code: Seq<char>) -> bool {
    exists|c: CurveId| #[trigger] curve_coded(code, c) && c.back()
}

/// The curve with a code.
pub open spec fn coded_curve(code: Seq<char>) -> CurveId {
    choose|c: CurveId| #[trigger] curve_coded(code, c)
}

/// Some quantity has this name.
pub open spec fn quantity_known(code: Seq<char>) -> bool {
    exists|q: ColorQuantity| #[trigger] q.code() == code
}

/// Some distance has this name.
pub open spec fn distance_known(code: Seq<char>) -> bool {
    exists|d: ColorDistance| #[trigger] d.code() == code
}

/// What is wrong with a demand, in the order it is looked for.
pub open spec fn color_fault(t: ColorTargetJson) -> Option<ColorRefusal> {
    if back_curve(t.curve@) {
        Some(ColorRefusal::BackCurve)
    } else if !front_curve(t.curve@) {
        Some(ColorRefusal::NotFrontCurve)
    } else if t.kind@ != "Exact"@ {
        Some(ColorRefusal::Kind)
    } else if t.transform@ != "linear"@ {
        Some(ColorRefusal::Transform)
    } else if t.integral {
        Some(ColorRefusal::Integral)
    } else if t.count_norm is Some {
        Some(ColorRefusal::CountNorm)
    } else if t.phase {
        Some(ColorRefusal::Phase)
    } else if t.band is Some {
        Some(ColorRefusal::Band)
    } else if !targets::weight_fits(t.weight) {
        Some(ColorRefusal::Weight)
    } else if !quantity_known(t.quantity@) {
        Some(ColorRefusal::Quantity)
    } else if !distance_known(t.distance@) {
        Some(ColorRefusal::Distance)
    } else if t.reference is Other {
        Some(ColorRefusal::Reference)
    } else if (t.illuminant matches IllumJson::Name(n) && n@ != "D65"@) {
        Some(ColorRefusal::Illuminant)
    } else if (t.observer matches CmfJson::Name(n) && n@ != "1931_2deg"@) {
        Some(ColorRefusal::Observer)
    } else if shape_of(t.reference->Valid_0) != shape_for(t.quantity@) {
        Some(ColorRefusal::Shape)
    } else if !pairs(t.quantity@, t.distance@) {
        Some(ColorRefusal::Pairing)
    } else {
        None
    }
}

/// What an accepted demand asks for: names stand for the embedded tables, and
/// missing coefficients for the defaults.
pub open spec fn request_of(t: ColorTargetJson, tables: ColorTables) -> RequestView {
    RequestView {
        cmf: match t.observer {
            CmfJson::Name(_) => tables.cmf_xyz@,
            CmfJson::Table(tab) => tab.xyz@,
        },
        cmf_wl: match t.observer {
            CmfJson::Name(_) => tables.cmf_wl@,
            CmfJson::Table(tab) => tab.wavelengths@,
        },
        illum: match t.illuminant {
            IllumJson::Name(_) => tables.illum@,
            IllumJson::Table(tab) => tab.values@,
        },
        illum_wl: match t.illuminant {
            IllumJson::Name(_) => tables.illum_wl@,
            IllumJson::Table(tab) => tab.wavelengths@,
        },
        quantity: t.quantity@,
        reference: t.reference->Valid_0,
        distance: t.distance@,
        weight: t.weight,
        yi_cx: if t.yi_cx is Some {
            t.yi_cx->0
        } else {
            tables.yi_cx
        },
        yi_cz: if t.yi_cz is Some {
            t.yi_cz->0
        } else {
            tables.yi_cz
        },
    }
}

fn copy_triples(v: &Vec<[Scalar; 3]>) -> (r: Vec<[Scalar; 3]>)
    ensures
        r@ == v@,
{
    let mut out: Vec<[Scalar; 3]> = Vec::with_capacity(v.len());
    let mut i: usize = 0;
    while i < v.len()
        invariant
            i <= v@.len(),
            out@ == v@.take(i as int),
        decreases v.len() - i,
    {
        out.push(v[i]);
        i += 1;
        assert(out@ =~= v@.take(i as int));
    }
    assert(out@ =~= v@);
    out
}

/// The front curve of a demand.
pub(crate) fn check_curve(code: &str) -> (r: Result<CurveId, ColorRefusal>)
    ensures
        match r {
            Ok(c) => !back_curve(code@) && front_curve(code@) && c == coded_curve(code@),
            Err(ColorRefusal::BackCurve) => back_curve(code@),
            Err(e) => e == ColorRefusal::NotFrontCurve && !back_curve(code@) && !front_curve(
                code@,
            ),
        },
{
    match CurveId::from_str(code) {
        Some(id) => {
            proof {
                assert(curve_coded(code@, id));
                assert forall|c: CurveId| #[trigger] curve_coded(code@, c) implies c == id by {
                    crate::merit::curve_codes_differ(c, id);
                }
            }
            if id.is_back() {
                Err(ColorRefusal::BackCurve)
            } else if id.is_absorption() {
                Err(ColorRefusal::NotFrontCurve)
            } else {
                Ok(id)
            }
        },
        None => {
            assert forall|c: CurveId| !(#[trigger] curve_coded(code@, c)) by {
                assert(code@ != c.code());
            }
            Err(ColorRefusal::NotFrontCurve)
        },
    }
}

/// Checks a demand and resolves what it asks for.
pub fn check_color_demand(t: &ColorTargetJson, tables: &ColorTables) -> (r: Result<
    ColorRequest,
    ColorRefusal,
>)
    ensures
        match r {
            Ok(q) => color_fault(*t) is None && q@ == request_of(*t, *tables),
            Err(e) => color_fault(*t) == Some(e),
        },
{
    match check_curve(t.curve.as_str()) {
        Ok(_) => {},
        Err(e) => {
            return Err(e);
        },
    }
    if !same_text(t.kind.as_str(), "Exact") {
        return Err(ColorRefusal::Kind);
    }
    if !same_text(t.transform.as_str(), "linear") {
        return Err(ColorRefusal::Transform);
    }
    if t.integral {
        return Err(ColorRefusal::Integral);
    }
    if t.count_norm.is_some() {
        return Err(ColorRefusal::CountNorm);
    }
    if t.phase {
        return Err(ColorRefusal::Phase);
    }
    if t.band.is_some() {
        return Err(ColorRefusal::Band);
    }
    if !check_weight(t.weight) {
        return Err(ColorRefusal::Weight);
    }
    let quantity: ColorQuantity = match ColorQuantity::from_str(t.quantity.as_str()) {
        Some(q) => q,
        None => {
            return Err(ColorRefusal::Quantity);
        },
    };
    let distance: ColorDistance = match ColorDistance::from_str(t.distance.as_str()) {
        Some(d) => d,
        None => {
            return Err(ColorRefusal::Distance);
        },
    };
    let reference: ColorReference = match &t.reference {
        ReferenceJson::Valid(v) => *v,
        ReferenceJson::Other(_) => {
            return Err(ColorRefusal::Reference);
        },
    };
    let (illum_wl, illum): (Vec<Scalar>, Vec<Scalar>) = match &t.illuminant {
        IllumJson::Name(n) => {
            if !same_text(n.as_str(), "D65") {
                return Err(ColorRefusal::Illuminant);
            }
            (numeric::copy(&tables.illum_wl), numeric::copy(&tables.illum))
        },
        IllumJson::Table(tab) => (numeric::copy(&tab.wavelengths), numeric::copy(&tab.values)),
    };
    let (cmf_wl, cmf): (Vec<Scalar>, Vec<[Scalar; 3]>) = match &t.observer {
        CmfJson::Name(n) => {
            if !same_text(n.as_str(), "1931_2deg") {
                return Err(ColorRefusal::Observer);
            }
            (numeric::copy(&tables.cmf_wl), copy_triples(&tables.cmf_xyz))
        },
        CmfJson::Table(tab) => (numeric::copy(&tab.wavelengths), copy_triples(&tab.xyz)),
    };
    if reference_shape(&reference) != wanted_shape(t.quantity.as_str()) {
        return Err(ColorRefusal::Shape);
    }
    if !(same_text(t.distance.as_str(), "Channels") || same_text(t.quantity.as_str(), "Lab")
        || same_text(t.quantity.as_str(), "LCh")) {
        return Err(ColorRefusal::Pairing);
    }
    let yi_cx: Scalar = match t.yi_cx {
        Some(v) => v,
        None => tables.yi_cx,
    };
    let yi_cz: Scalar = match t.yi_cz {
        Some(v) => v,
        None => tables.yi_cz,
    };
    let q: ColorRequest = ColorRequest {
        cmf,
        cmf_wl,
        illum,
        illum_wl,
        quantity,
        reference,
        distance,
        weight: t.weight,
        yi_cx,
        yi_cz,
    };
    assert(q@ =~= request_of(*t, *tables));
    Ok(q)
}

/// The message of a refusal.
pub open spec fn color_text<S: Fn(Scalar) -> String>(
    t: ColorTargetJson,
    e: ColorRefusal,
    show: S,
) -> Seq<char> {
    match e {
        ColorRefusal::BackCurve => "color: back-incidence color is not supported yet (got "@
            + text::quoted(t.curve@) + ")."@,
        ColorRefusal::NotFrontCurve => "color: color needs a front R/T intensity curve, got "@
            + text::quoted(t.curve@) + "."@,
        ColorRefusal::Kind => "color: only kind 'Exact' in v1, got "@ + text::quoted(t.kind@)
            + "."@,
        ColorRefusal::Transform => "color: only transform 'linear' in v1, got "@ + text::quoted(
            t.transform@,
        ) + "."@,
        ColorRefusal::Integral =>
            "color: 'integral' is refused (a color demand already is integral)."@,
        ColorRefusal::CountNorm => "color: 'count_norm' is refused (no double counting)."@,
        ColorRefusal::Phase => "color: 'phase' is refused (intensity curves only)."@,
        ColorRefusal::Band => "color: 'band' is refused (no sub-range in a demand)."@,
        ColorRefusal::Weight => "ColorTarget: weight must be finite and >= 0 (got "@
            + text::shown(show, t.weight) + ")."@,
        ColorRefusal::Quantity => "color: unknown quantity "@ + text::quoted(t.quantity@)
            + " (one of 'Lab'|'XyY'|'LCh'|'Oklab'|'Y'|'DomWl'|'sRGB'|'Luv'|'XYZ'|'Din99'|'White'|'Yellow')."@,
        ColorRefusal::Distance => "color: unknown distance "@ + text::quoted(t.distance@)
            + " (one of 'DeltaE2000'|'DeltaE76'|'Channels')."@,
        ColorRefusal::Reference =>
            "color: reference must be a [3] triple (scalar for 'Y'|'Yellow', [2] pair for 'DomWl'|'White'), got "@
            + t.reference->Other_0@ + "."@,
        ColorRefusal::Illuminant => "color: unknown illuminant "@ + text::quoted(
            t.illuminant->Name_0@,
        ) + " (supported names: 'D65'; or pass an explicit table)."@,
        ColorRefusal::Observer => "color: unknown observer "@ + text::quoted(
            t.observer->Name_0@,
        ) + " (supported names: '1931_2deg'; or pass an explicit table)."@,
        ColorRefusal::Shape => "color: quantity '"@ + t.quantity@ + "' takes a "@ + shape_for(
            t.quantity@,
        ).word() + ", got a "@ + shape_of(t.reference->Valid_0).word() + " reference."@,
        ColorRefusal::Pairing => "color: quantity '"@ + t.quantity@ + "' has no distance '"@
            + t.distance@ + "': such quantities take Channels."@,
    }
}

fn around(head: &str, mid: String, tail: &str) -> (r: String)
    ensures
        r@ == head@ + mid@ + tail@,
{
    String::from_str(head).concat(mid.as_str()).concat(tail)
}

impl ColorRefusal {
    /// The message on the refused demand, numbers shown by `show`.
    pub fn message<S: Fn(Scalar) -> String>(&self, t: &ColorTargetJson, show: &S) -> (r: String)
        requires
            text::shows(*show),
            color_fault(*t) == Some(*self),
        ensures
            r@ == color_text(*t, *self, *show),
    {
        match self {
            ColorRefusal::BackCurve => around(
                "color: back-incidence color is not supported yet (got ",
                debug_text(t.curve.as_str()),
                ").",
            ),
            ColorRefusal::NotFrontCurve => around(
                "color: color needs a front R/T intensity curve, got ",
                debug_text(t.curve.as_str()),
                ".",
            ),
            ColorRefusal::Kind => around(
                "color: only kind 'Exact' in v1, got ",
                debug_text(t.kind.as_str()),
                ".",
            ),
            ColorRefusal::Transform => around(
                "color: only transform 'linear' in v1, got ",
                debug_text(t.transform.as_str()),
                ".",
            ),
            ColorRefusal::Integral => String::from_str(
                "color: 'integral' is refused (a color demand already is integral).",
            ),
            ColorRefusal::CountNorm => String::from_str(
                "color: 'count_norm' is refused (no double counting).",
            ),
            ColorRefusal::Phase => String::from_str(
                "color: 'phase' is refused (intensity curves only).",
            ),
            ColorRefusal::Band => String::from_str(
                "color: 'band' is refused (no sub-range in a demand).",
            ),
            ColorRefusal::Weight => {
                let w: String = show(t.weight);
                around("ColorTarget: weight must be finite and >= 0 (got ", w, ").")
            },
            ColorRefusal::Quantity => around(
                "color: unknown quantity ",
                debug_text(t.quantity.as_str()),
                " (one of 'Lab'|'XyY'|'LCh'|'Oklab'|'Y'|'DomWl'|'sRGB'|'Luv'|'XYZ'|'Din99'|'White'|'Yellow').",
            ),
            ColorRefusal::Distance => around(
                "color: unknown distance ",
                debug_text(t.distance.as_str()),
                " (one of 'DeltaE2000'|'DeltaE76'|'Channels').",
            ),
            ColorRefusal::Reference => {
                let mut v: String = String::from_str("");
                if let ReferenceJson::Other(other) = &t.reference {
                    v = other.clone();
                }
                around(
                    "color: reference must be a [3] triple (scalar for 'Y'|'Yellow', [2] pair for 'DomWl'|'White'), got ",
                    v,
                    ".",
                )
            },
            ColorRefusal::Illuminant => {
                let mut v: String = String::from_str("");
                if let IllumJson::Name(n) = &t.illuminant {
                    v = debug_text(n.as_str());
                }
                around(
                    "color: unknown illuminant ",
                    v,
                    " (supported names: 'D65'; or pass an explicit table).",
                )
            },
            ColorRefusal::Observer => {
                let mut v: String = String::from_str("");
                if let CmfJson::Name(n) = &t.observer {
                    v = debug_text(n.as_str());
                }
                around(
                    "color: unknown observer ",
                    v,
                    " (supported names: '1931_2deg'; or pass an explicit table).",
                )
            },
            ColorRefusal::Shape => {
                let mut got: ReferenceShape = ReferenceShape::Triple;
                if let ReferenceJson::Valid(v) = &t.reference {
                    got = reference_shape(v);
                }
                String::from_str("color: quantity '").concat(t.quantity.as_str()).concat(
                    "' takes a ",
                ).concat(wanted_shape(t.quantity.as_str()).as_str()).concat(", got a ").concat(
                    got.as_str(),
                ).concat(" reference.")
            },
            ColorRefusal::Pairing => String::from_str("color: quantity '").concat(
                t.quantity.as_str(),
            ).concat("' has no distance '").concat(t.distance.as_str()).concat(
                "': such quantities take Channels.",
            ),
        }
    }
}

} // verus!
