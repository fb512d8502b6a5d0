//! Why a stack operation was refused, and how that reads.
use crate::scalar::Scalar;
use crate::text;
use crate::text::decimal_text;
use vstd::prelude::*;
use vstd::string::*;

verus! {

/// Why a stack operation was refused.
#[derive(Debug)]
pub enum StackError {
    /// The substrate's index table is not as long as the ambient's.
    SubstrateLength { found: usize, expected: usize },
    /// A film's index table is not as long as the ambient's.
    FilmLength { film: usize, material: String, found: usize, expected: usize },
    /// There is no such film.
    FilmOutOfRange { film_idx: usize, films: usize },
    /// There is no such film to set a thickness on.
    NoSuchFilm { film_idx: usize },
    /// The film lies in a span with more than one bulk row.
    NotAHost { film_idx: usize, material: String, start: usize, end: usize },
    /// A multi-row span is thicker than the ceiling.
    SpanAboveCeiling { material: String, d_nm: Scalar, max_nm: Scalar },
}

/// The text of a refusal, given the texts of the two thicknesses it may name.
pub open spec fn refusal_text(e: StackError, d: Seq<char>, max: Seq<char>) -> Seq<char> {
    match e {
        StackError::SubstrateLength { found, expected } => {
            "substrate nk length "@ + text::decimal(found as nat) + " != ambient nk length "@
                + text::decimal(expected as nat)
        },
        StackError::FilmLength { film, material, found, expected } => {
            "film "@ + text::decimal(film as nat) + " ('"@ + material@ + "') nk length "@
                + text::decimal(found as nat) + " != ambient nk length "@ + text::decimal(
                expected as nat,
            )
        },
        StackError::FilmOutOfRange { film_idx, films } => {
            "film_idx "@ + text::decimal(film_idx as nat) + " out of range ("@ + text::decimal(
                films as nat,
            ) + " films)"@
        },
        StackError::NoSuchFilm { film_idx } => {
            "film_idx "@ + text::decimal(film_idx as nat) + " out of range"@
        },
        StackError::NotAHost { film_idx, material, start, end } => {
            "insert_needle_seed: film "@ + text::decimal(film_idx as nat) + " ('"@ + material@
                + "') lies in solver rows "@ + text::decimal(start as nat) + ".."@ + text::decimal(
                end as nat,
            ) + ", a multi-row span - not an admissible needle host"@
        },
        StackError::SpanAboveCeiling { material, d_nm, max_nm } => {
            "clamp_all: span '"@ + material@ + "' is "@ + d + " nm thick, above the "@ + max
                + " nm ceiling -                      refusing rather than rescaling a profile"@
        },
    }
}

impl StackError {
    /// The refusal in words; `one_decimal` writes a thickness with one decimal
    /// place.
    pub fn message<F: Fn(Scalar) -> String>(&self, one_decimal: &F) -> (r: String)
        requires
            forall|x: Scalar| #[trigger] call_requires(*one_decimal, (x,)),
        ensures
            exists|d: String, max: String|
                {
                    &&& r@ == #[trigger] refusal_text(*self, d@, max@)
                    &&& *self matches StackError::SpanAboveCeiling { material, d_nm, max_nm } ==> {
                        &&& call_ensures(*one_decimal, (d_nm,), d)
                        &&& call_ensures(*one_decimal, (max_nm,), max)
                    }
                },
    {
        let mut d: String = String::new();
        let mut max: String = String::new();
        let r: String = match self {
            StackError::SubstrateLength { found, expected } => {
                String::from_str("substrate nk length ").concat(
                    decimal_text(*found as u64).as_str(),
                ).concat(" != ambient nk length ").concat(decimal_text(*expected as u64).as_str())
            },
            StackError::FilmLength { film, material, found, expected } => {
                String::from_str("film ").concat(decimal_text(*film as u64).as_str()).concat(
                    " ('",
                ).concat(material.as_str()).concat("') nk length ").concat(
                    decimal_text(*found as u64).as_str(),
                ).concat(" != ambient nk length ").concat(decimal_text(*expected as u64).as_str())
            },
            StackError::FilmOutOfRange { film_idx, films } => {
                String::from_str("film_idx ").concat(
                    decimal_text(*film_idx as u64).as_str(),
                ).concat(" out of range (").concat(decimal_text(*films as u64).as_str()).concat(
                    " films)",
                )
            },
            StackError::NoSuchFilm { film_idx } => {
                String::from_str("film_idx ").concat(
                    decimal_text(*film_idx as u64).as_str(),
                ).concat(" out of range")
            },
            StackError::NotAHost { film_idx, material, start, end } => {
                String::from_str("insert_needle_seed: film ").concat(
                    decimal_text(*film_idx as u64).as_str(),
                ).concat(" ('").concat(material.as_str()).concat("') lies in solver rows ").concat(
                    decimal_text(*start as u64).as_str(),
                ).concat("..").concat(decimal_text(*end as u64).as_str()).concat(
                    ", a multi-row span - not an admissible needle host",
                )
            },
            StackError::SpanAboveCeiling { material, d_nm, max_nm } => {
                d = one_decimal(*d_nm);
                max = one_decimal(*max_nm);
                String::from_str("clamp_all: span '").concat(material.as_str()).concat(
                    "' is ",
                ).concat(d.as_str()).concat(" nm thick, above the ").concat(max.as_str()).concat(
                    " nm ceiling -                      refusing rather than rescaling a profile",
                )
            },
        };
        assert(r@ == refusal_text(*self, d@, max@));
        r
    }
}

} // verus!
