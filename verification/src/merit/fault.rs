//! Messages of refused demands.
use crate::merit::sim::RowError;
use crate::merit::spec::TargetFault;
use crate::merit::CurveId;
use crate::scalar::Scalar;
use crate::text;
use crate::text::decimal_text;
use vstd::prelude::*;
use vstd::string::*;

verus! {

/// The message of a fault.
pub open spec fn target_text<S: Fn(Scalar) -> String>(f: TargetFault, show: S) -> Seq<char> {
    match f {
        TargetFault::LengthMismatch { wl, targets, tols } => "MeritTarget length mismatch: wl="@
            + text::decimal(wl as nat) + " targets="@ + text::decimal(targets as nat) + " tols="@
            + text::decimal(tols as nat),
        TargetFault::BandMismatch { wl, band } => "MeritTarget band mismatch: wl="@
            + text::decimal(wl as nat) + " band="@ + text::decimal(band as nat),
        TargetFault::KeyOutOfRange { key_idx, keys } => "key_idx "@ + text::decimal(
            key_idx as nat,
        ) + " out of range ("@ + text::decimal(keys as nat) + " keys registered)"@,
        TargetFault::NoPhase { curve } => "phase demand on "@ + curve.code()
            + ": absorption/unpolarized curves have no phase"@,
        TargetFault::PhaseNorm { norm_factor } => "phase transform needs norm_factor == 1 (got "@
            + text::shown(show, norm_factor) + "); pass raw values"@,
        TargetFault::DifferentialWithoutPhase =>
            "differential_passes without phase: PD demands are phase-only"@,
        TargetFault::BadPasses { passes } =>
            "differential passes must be finite and >= 0 (got "@ + text::shown(show, passes)
            + ")"@,
        TargetFault::BadWeight { weight } => "weight must be finite and >= 0 (got "@
            + text::shown(show, weight) + ")"@,
        TargetFault::BadCount { count } => "count_norm must be finite and > 0 (got "@
            + text::shown(show, count) + ")"@,
        TargetFault::IntegralCount =>
            "integral targets reject count_norm (the mean already is one)"@,
    }
}

/// The message of a refused row.
pub open spec fn row_text(e: RowError) -> Seq<char> {
    match e {
        RowError::Absorption { id } => "absorption id '"@ + id.code()
            + "': absorptance derives from companions, nothing to store"@,
        RowError::Length { id, found, expected } => "curve '"@ + id.code() + "': "@
            + text::decimal(found as nat) + " entries != "@ + text::decimal(expected as nat)
            + " grid points."@,
        RowError::ComplexLength { id, found, expected } => "complex curve '"@ + id.code()
            + "': "@ + text::decimal(found as nat) + " entries != "@ + text::decimal(
            expected as nat,
        ) + " grid points."@,
        RowError::NoPhase { id } => "complex row for '"@ + id.code() + (if id.back() {
            "': back-phase needs s/p keys"@
        } else {
            "': phase needs s/p R/T keys"@
        }),
    }
}

impl CurveId {
    /// The curve's code.
    pub fn as_str(self) -> (r: &'static str)
        ensures
            r@ == self.code(),
    {
        match self {
            CurveId::Rs => "Rs",
            CurveId::Rp => "Rp",
            CurveId::Ru => "Ru",
            CurveId::Ts => "Ts",
            CurveId::Tp => "Tp",
            CurveId::Tu => "Tu",
            CurveId::As => "As",
            CurveId::Ap => "Ap",
            CurveId::Au => "Au",
            CurveId::RBs => "RBs",
            CurveId::RBp => "RBp",
            CurveId::RBu => "RBu",
            CurveId::TBs => "TBs",
            CurveId::TBp => "TBp",
            CurveId::TBu => "TBu",
            CurveId::ABs => "ABs",
            CurveId::ABp => "ABp",
            CurveId::ABu => "ABu",
        }
    }
}

fn length_text(head: &str, id: CurveId, found: usize, expected: usize) -> (r: String)
    ensures
        r@ == head@ + id.code() + "': "@ + text::decimal(found as nat) + " entries != "@
            + text::decimal(expected as nat) + " grid points."@,
{
    String::from_str(head).concat(id.as_str()).concat("': ").concat(
        decimal_text(found as u64).as_str(),
    ).concat(" entries != ").concat(decimal_text(expected as u64).as_str()).concat(
        " grid points.",
    )
}

impl RowError {
    /// The message.
    pub fn message(&self) -> (r: String)
        ensures
            r@ == row_text(*self),
    {
        match self {
            RowError::Absorption { id } => String::from_str("absorption id '").concat(
                id.as_str(),
            ).concat("': absorptance derives from companions, nothing to store"),
            RowError::Length { id, found, expected } => length_text(
                "curve '",
                *id,
                *found,
                *expected,
            ),
            RowError::ComplexLength { id, found, expected } => length_text(
                "complex curve '",
                *id,
                *found,
                *expected,
            ),
            RowError::NoPhase { id } => {
                let why: &str = if id.is_back() {
                    "': back-phase needs s/p keys"
                } else {
                    "': phase needs s/p R/T keys"
                };
                String::from_str("complex row for '").concat(id.as_str()).concat(why)
            },
        }
    }
}

impl TargetFault {
    /// The message, numbers shown by `show`.
    pub fn message<S: Fn(Scalar) -> String>(&self, show: &S) -> (r: String)
        requires
            text::shows(*show),
        ensures
            r@ == target_text(*self, *show),
    {
        match self {
            TargetFault::LengthMismatch { wl, targets, tols } => String::from_str(
                "MeritTarget length mismatch: wl=",
            ).concat(decimal_text(*wl as u64).as_str()).concat(" targets=").concat(
                decimal_text(*targets as u64).as_str(),
            ).concat(" tols=").concat(decimal_text(*tols as u64).as_str()),
            TargetFault::BandMismatch { wl, band } => String::from_str(
                "MeritTarget band mismatch: wl=",
            ).concat(decimal_text(*wl as u64).as_str()).concat(" band=").concat(
                decimal_text(*band as u64).as_str(),
            ),
            TargetFault::KeyOutOfRange { key_idx, keys } => String::from_str("key_idx ").concat(
                decimal_text(*key_idx as u64).as_str(),
            ).concat(" out of range (").concat(decimal_text(*keys as u64).as_str()).concat(
                " keys registered)",
            ),
            TargetFault::NoPhase { curve } => String::from_str("phase demand on ").concat(
                curve.as_str(),
            ).concat(": absorption/unpolarized curves have no phase"),
            TargetFault::PhaseNorm { norm_factor } => {
                let n: String = show(*norm_factor);
                String::from_str("phase transform needs norm_factor == 1 (got ").concat(
                    n.as_str(),
                ).concat("); pass raw values")
            },
            TargetFault::DifferentialWithoutPhase => String::from_str(
                "differential_passes without phase: PD demands are phase-only",
            ),
            TargetFault::BadPasses { passes } => {
                let n: String = show(*passes);
                String::from_str("differential passes must be finite and >= 0 (got ").concat(
                    n.as_str(),
                ).concat(")")
            },
            TargetFault::BadWeight { weight } => {
                let n: String = show(*weight);
                String::from_str("weight must be finite and >= 0 (got ").concat(
                    n.as_str(),
                ).concat(")")
            },
            TargetFault::BadCount { count } => {
                let n: String = show(*count);
                String::from_str("count_norm must be finite and > 0 (got ").concat(
                    n.as_str(),
                ).concat(")")
            },
            TargetFault::IntegralCount => String::from_str(
                "integral targets reject count_norm (the mean already is one)",
            ),
        }
    }
}

} // verus!
