//! Messages of refused folds and sweeps.
use crate::merit::SimTransform;
use crate::needle_pass::fold::NeedleFault;
use crate::needle_pass::scan::ScanFault;
use vstd::prelude::*;
use vstd::string::*;

verus! {

/// The name of a transform.
pub open spec fn transform_name(t: SimTransform) -> Seq<char> {
    match t {
        SimTransform::Linear => "Linear"@,
        SimTransform::Log => "Log"@,
        SimTransform::Phase => "Phase"@,
        SimTransform::Complex => "Complex"@,
    }
}

/// The name of a transform, as text.
fn name_transform(t: SimTransform) -> (r: &'static str)
    ensures
        r@ == transform_name(t),
{
    match t {
        SimTransform::Linear => "Linear",
        SimTransform::Log => "Log",
        SimTransform::Phase => "Phase",
        SimTransform::Complex => "Complex",
    }
}

/// The message of a refused fold.
pub open spec fn needle_text(f: NeedleFault) -> Seq<char> {
    match f {
        NeedleFault::NoElement { curve } => "phase demand on "@ + curve.code()
            + ": no S-matrix element"@,
        NeedleFault::PhaseTransform { transform } =>
            "phase demands need linear/phase normalization; got "@ + transform_name(transform),
        NeedleFault::NeedsLinear { transform } =>
            "needle pass requires linear-normalized targets; got "@ + transform_name(transform),
        NeedleFault::Color { curve, message } => "color fold ("@ + curve.code() + "): "@
            + message@,
    }
}

impl NeedleFault {
    /// The message.
    pub fn message(&self) -> (r: String)
        ensures
            r@ == needle_text(*self),
    {
        match self {
            NeedleFault::NoElement { curve } => String::from_str("phase demand on ").concat(
                curve.as_str(),
            ).concat(": no S-matrix element"),
            NeedleFault::PhaseTransform { transform } => String::from_str(
                "phase demands need linear/phase normalization; got ",
            ).concat(name_transform(*transform)),
            NeedleFault::NeedsLinear { transform } => String::from_str(
                "needle pass requires linear-normalized targets; got ",
            ).concat(name_transform(*transform)),
            NeedleFault::Color { curve, message } => String::from_str("color fold (").concat(
                curve.as_str(),
            ).concat("): ").concat(message.as_str()),
        }
    }
}

/// The message of a refused sweep.
pub open spec fn scan_text(f: ScanFault) -> Seq<char> {
    match f {
        ScanFault::EmptyGrid => "empty spectral/angular grid"@,
        ScanFault::CacheLayout => "n_stack_cache layout mismatch"@,
        ScanFault::LayerArrays => "per-layer array length mismatch"@,
        ScanFault::FoldBuckets => "fold buckets must be angle-major na*nw"@,
        ScanFault::FoldGrads => "fold grad buckets must be angle-major na*nw"@,
        ScanFault::NeedleIndex => "needle_n_per_wav must have one index per wavelength"@,
        ScanFault::BlockRange => "invalid block range"@,
        ScanFault::NoHost => "block must contain at least one host layer"@,
        ScanFault::NoBranch => "no polarization branch enabled"@,
    }
}

impl ScanFault {
    /// The message.
    pub fn message(&self) -> (r: String)
        ensures
            r@ == scan_text(*self),
    {
        let words: &'static str = match self {
            ScanFault::EmptyGrid => "empty spectral/angular grid",
            ScanFault::CacheLayout => "n_stack_cache layout mismatch",
            ScanFault::LayerArrays => "per-layer array length mismatch",
            ScanFault::FoldBuckets => "fold buckets must be angle-major na*nw",
            ScanFault::FoldGrads => "fold grad buckets must be angle-major na*nw",
            ScanFault::NeedleIndex => "needle_n_per_wav must have one index per wavelength",
            ScanFault::BlockRange => "invalid block range",
            ScanFault::NoHost => "block must contain at least one host layer",
            ScanFault::NoBranch => "no polarization branch enabled",
        };
        String::from_str(words)
    }
}

} // verus!
