//! Messages of refused and abandoned runs.
use crate::scalar::Scalar;
use crate::text;
use crate::text::decimal_text;
use crate::thick_opt::LmFault;
use vstd::prelude::*;
use vstd::string::*;

verus! {

/// Which solver a message speaks for.
#[derive(Clone, Copy, Debug, PartialEq, Eq, Structural)]
pub enum Solver {
    LevenbergMarquardt,
    TrustRegion,
}

impl Solver {
    /// The name in front of its messages.
    pub open spec fn label(self) -> Seq<char> {
        match self {
            Solver::LevenbergMarquardt => "levenberg_marquardt: "@,
            Solver::TrustRegion => "trust_region_reflective: "@,
        }
    }

    fn label_text(self) -> (r: &'static str)
        ensures
            r@ == self.label(),
    {
        match self {
            Solver::LevenbergMarquardt => "levenberg_marquardt: ",
            Solver::TrustRegion => "trust_region_reflective: ",
        }
    }
}

/// `[lo, hi]`.
pub open spec fn interval_text<S: Fn(Scalar) -> String>(
    show: S,
    lo: Scalar,
    hi: Scalar,
) -> Seq<char> {
    "["@ + text::shown(show, lo) + ", "@ + text::shown(show, hi) + "]"@
}

fn interval<S: Fn(Scalar) -> String>(show: &S, lo: Scalar, hi: Scalar) -> (r: String)
    requires
        text::shows(*show),
    ensures
        r@ == interval_text(*show, lo, hi),
{
    let l: String = show(lo);
    let h: String = show(hi);
    String::from_str("[").concat(l.as_str()).concat(", ").concat(h.as_str()).concat("]")
}

/// How many columns a flat matrix with `rows` rows has.
pub open spec fn columns_of(rows: nat, entries: nat) -> nat {
    if rows == 0 {
        0
    } else {
        entries / rows
    }
}

/// The message of a fault.
pub open spec fn fault_text<S: Fn(Scalar) -> String>(
    who: Solver,
    fault: LmFault,
    show: S,
) -> Seq<char> {
    match fault {
        LmFault::NoParameters => who.label() + "empty parameter vector"@,
        LmFault::BoundLength => who.label() + "bound length mismatch"@,
        LmFault::StartOutside { index, x, lo, hi } => who.label() + "x0["@ + text::decimal(
            index as nat,
        ) + "]="@ + text::shown(show, x) + " outside "@ + interval_text(show, lo, hi),
        LmFault::BoundsCrossed { index } => who.label() + "lb["@ + text::decimal(index as nat)
            + "] > ub["@ + text::decimal(index as nat) + "]"@,
        LmFault::BoundNotFinite { index, lo, hi } => who.label() + "bound "@ + text::decimal(
            index as nat,
        ) + " is not finite ("@ + interval_text(show, lo, hi)
            + ") — the Coleman-Li scaling is a distance to the bound, so an infinite one has nothing to measure"@,
        LmFault::NoResiduals => who.label() + "empty residual vector"@,
        LmFault::Inconsistent => "levenberg_marquardt: inconsistent residual length"@,
        LmFault::ResidualLength { expected, found } => who.label()
            + "residual length changed from "@ + text::decimal(expected as nat) + " to "@
            + text::decimal(found as nat),
        LmFault::JacobianShape { rows, entries, residuals } => match who {
            Solver::LevenbergMarquardt => who.label() + "analytic jacobian is "@ + text::decimal(
                rows as nat,
            ) + "×"@ + text::decimal(columns_of(rows as nat, entries as nat))
                + " where the                          residual vector is "@ + text::decimal(
                residuals as nat,
            ) + " long"@,
            Solver::TrustRegion => who.label() + "analytic jacobian is "@ + text::decimal(
                rows as nat,
            ) + " rows where the residual vector is "@ + text::decimal(residuals as nat)
                + " long"@,
        },
        LmFault::Failed { reason } => reason@,
    }
}

impl LmFault {
    /// The message, numbers shown by `show`; a failure speaks in its own words.
    pub fn message<S: Fn(Scalar) -> String>(&self, who: Solver, show: &S) -> (r: String)
        requires
            text::shows(*show),
        ensures
            r@ == fault_text(who, *self, *show),
    {
        let head: String = String::from_str(who.label_text());
        match self {
            LmFault::NoParameters => head.concat("empty parameter vector"),
            LmFault::BoundLength => head.concat("bound length mismatch"),
            LmFault::StartOutside { index, x, lo, hi } => {
                let shown: String = show(*x);
                let span: String = interval(show, *lo, *hi);
                head.concat("x0[").concat(decimal_text(*index as u64).as_str()).concat(
                    "]=",
                ).concat(shown.as_str()).concat(" outside ").concat(span.as_str())
            },
            LmFault::BoundsCrossed { index } => {
                let j: String = decimal_text(*index as u64);
                head.concat("lb[").concat(j.as_str()).concat("] > ub[").concat(
                    j.as_str(),
                ).concat("]")
            },
            LmFault::BoundNotFinite { index, lo, hi } => {
                let span: String = interval(show, *lo, *hi);
                head.concat("bound ").concat(decimal_text(*index as u64).as_str()).concat(
                    " is not finite (",
                ).concat(span.as_str()).concat(
                    ") — the Coleman-Li scaling is a distance to the bound, so an infinite one has nothing to measure",
                )
            },
            LmFault::NoResiduals => head.concat("empty residual vector"),
            LmFault::Inconsistent => String::from_str(
                "levenberg_marquardt: inconsistent residual length",
            ),
            LmFault::ResidualLength { expected, found } => head.concat(
                "residual length changed from ",
            ).concat(decimal_text(*expected as u64).as_str()).concat(" to ").concat(
                decimal_text(*found as u64).as_str(),
            ),
            LmFault::JacobianShape { rows, entries, residuals } => {
                let m: String = decimal_text(*residuals as u64);
                let r: String = decimal_text(*rows as u64);
                match who {
                    Solver::LevenbergMarquardt => {
                        let cols: usize = if *rows == 0 {
                            0
                        } else {
                            *entries / *rows
                        };
                        head.concat("analytic jacobian is ").concat(r.as_str()).concat(
                            "×",
                        ).concat(decimal_text(cols as u64).as_str()).concat(
                            " where the                          residual vector is ",
                        ).concat(m.as_str()).concat(" long")
                    },
                    Solver::TrustRegion => head.concat("analytic jacobian is ").concat(
                        r.as_str(),
                    ).concat(" rows where the residual vector is ").concat(
                        m.as_str(),
                    ).concat(" long"),
                }
            },
            LmFault::Failed { reason } => String::from_str(reason.as_str()),
        }
    }
}

} // verus!
