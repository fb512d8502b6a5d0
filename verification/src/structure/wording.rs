//! How the warnings and refusals of a design read.
use super::design::{DesignError, DesignWarning};
use super::refusal;
use crate::scalar::Scalar;
use crate::text;
use crate::text::decimal_text;
use vstd::prelude::*;
use vstd::string::*;

verus! {

/// The text of a warning, given the text of the mixture's fraction.
pub open spec fn warning_text(w: DesignWarning, f_mid: Seq<char>) -> Seq<char> {
    match w {
        DesignWarning::Incident { message } => message@,
        DesignWarning::Graded { material } => {
            "DesignStack::from_design: film '"@ + material@
                + "' is graded (inhomogen) - the pipeline treats it as homogeneous (base index, profile dropped); needle/thickness steps assume uniform slabs. Pin it (optimize=False, needle=False) to keep the profile as background."@
        },
        DesignWarning::Gradient { material, material_a, material_b, ema, f_mid: f } => {
            "DesignStack::from_design: film '"@ + material@ + "' carries a gradient ('"@
                + material_a@ + "' -> '"@ + material_b@ + "', "@ + ema@
                + "); the pipeline treats it as homogeneous (EMA at f_mid = "@ + f_mid
                + "); pin it (optimize=False, needle=False) to keep the profile as background."@
        },
    }
}

impl DesignWarning {
    /// The warning in words; `six_decimals` writes a fraction with six decimal
    /// places.
    pub fn message<S: Fn(Scalar) -> String>(&self, six_decimals: &S) -> (r: String)
        requires
            text::shows(*six_decimals),
        ensures
            r@ == warning_text(
                *self,
                match *self {
                    DesignWarning::Gradient { material, material_a, material_b, ema, f_mid } =>
                        text::shown(*six_decimals, f_mid),
                    _ => seq![],
                },
            ),
    {
        match self {
            DesignWarning::Incident { message } => String::from_str(message.as_str()),
            DesignWarning::Graded { material } => {
                String::from_str("DesignStack::from_design: film '").concat(
                    material.as_str(),
                ).concat(
                    "' is graded (inhomogen) - the pipeline treats it as homogeneous (base index, profile dropped); needle/thickness steps assume uniform slabs. Pin it (optimize=False, needle=False) to keep the profile as background.",
                )
            },
            DesignWarning::Gradient { material, material_a, material_b, ema, f_mid } => {
                let f: String = six_decimals(*f_mid);
                String::from_str("DesignStack::from_design: film '").concat(
                    material.as_str(),
                ).concat("' carries a gradient ('").concat(material_a.as_str()).concat(
                    "' -> '",
                ).concat(material_b.as_str()).concat("', ").concat(ema.as_str()).concat(
                    "); the pipeline treats it as homogeneous (EMA at f_mid = ",
                ).concat(f.as_str()).concat(
                    "); pin it (optimize=False, needle=False) to keep the profile as background.",
                )
            },
        }
    }
}

/// What is wrong with a gradient's endpoint spectra.
pub open spec fn endpoint_text(e: DesignError) -> Option<Seq<char>> {
    match e {
        DesignError::EndpointMissingA { layer, material } => Some(
            "the provider does not carry '"@ + material@
                + "' (the film's own nk rides its name)"@,
        ),
        DesignError::EndpointMissingB { layer, material } => Some(
            "the provider does not carry '"@ + material@ + "' (nk_b must ride the film dict)"@,
        ),
        DesignError::EndpointLength { layer, a, b, grid } => Some(
            "endpoint spectrum length "@ + text::decimal(a as nat) + " / "@ + text::decimal(
                b as nat,
            ) + " != grid length "@ + text::decimal(grid as nat),
        ),
        _ => None,
    }
}

/// The text `r` reports the refusal: a layer's own trouble behind its name,
/// what the expansion or the stack said as it stands.
pub open spec fn error_reads(e: DesignError, r: Seq<char>) -> bool {
    match e {
        DesignError::Gradient { layer, message } => r == "layer '"@ + layer@ + "': "@ + message@,
        DesignError::EndpointMissingA { layer, material } => r == "layer '"@ + layer@ + "': "@
            + endpoint_text(e)->0,
        DesignError::EndpointMissingB { layer, material } => r == "layer '"@ + layer@ + "': "@
            + endpoint_text(e)->0,
        DesignError::EndpointLength { layer, a, b, grid } => r == "layer '"@ + layer@ + "': "@
            + endpoint_text(e)->0,
        DesignError::BoundaryGrid => r
            == "DesignStack::from_design: boundary nk length != grid length."@,
        DesignError::Expansion { message } => r == message@,
        DesignError::Stack { error } => exists|d: Seq<char>, max: Seq<char>|
            r == #[trigger] refusal::refusal_text(error, d, max),
    }
}

fn of_layer(layer: &String, what: &str) -> (r: String)
    ensures
        r@ == "layer '"@ + layer@ + "': "@ + what@,
{
    String::from_str("layer '").concat(layer.as_str()).concat("': ").concat(what)
}

impl DesignError {
    /// The refusal in words; `one_decimal` writes a thickness with one decimal
    /// place.
    pub fn message<F: Fn(Scalar) -> String>(&self, one_decimal: &F) -> (r: String)
        requires
            forall|x: Scalar| #[trigger] call_requires(*one_decimal, (x,)),
        ensures
            error_reads(*self, r@),
    {
        match self {
            DesignError::Gradient { layer, message } => of_layer(layer, message.as_str()),
            DesignError::EndpointMissingA { layer, material } => {
                let what: String = String::from_str("the provider does not carry '").concat(
                    material.as_str(),
                ).concat("' (the film's own nk rides its name)");
                of_layer(layer, what.as_str())
            },
            DesignError::EndpointMissingB { layer, material } => {
                let what: String = String::from_str("the provider does not carry '").concat(
                    material.as_str(),
                ).concat("' (nk_b must ride the film dict)");
                of_layer(layer, what.as_str())
            },
            DesignError::EndpointLength { layer, a, b, grid } => {
                let what: String = String::from_str("endpoint spectrum length ").concat(
                    decimal_text(*a as u64).as_str(),
                ).concat(" / ").concat(decimal_text(*b as u64).as_str()).concat(
                    " != grid length ",
                ).concat(decimal_text(*grid as u64).as_str());
                of_layer(layer, what.as_str())
            },
            DesignError::BoundaryGrid => String::from_str(
                "DesignStack::from_design: boundary nk length != grid length.",
            ),
            DesignError::Expansion { message } => String::from_str(message.as_str()),
            DesignError::Stack { error } => error.message(one_decimal),
        }
    }
}

} // verus!
