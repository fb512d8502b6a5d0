//! What a constraint kind makes of a scaled difference.
use crate::merit::ConstraintKind;
use crate::scalar;
use crate::scalar::Scalar;
use vstd::prelude::*;

verus! {

/// The pattern of 1e-12: a logarithm is taken of nothing smaller.
pub const LOG_FLOOR_BITS: u64 = 0x3d71_9799_812d_ea11;

/// The form a residual takes. With difference `d`, tolerance `tol` and band
/// half-width `bw`:
#[derive(Clone, Copy, Debug, PartialEq, Eq, Structural)]
pub enum Form {
    /// `0`; the slope is `0`.
    Inactive,
    /// `d / tol`; the slope is `1 / tol`.
    OverTolerance,
    /// `d / bw`; the slope is `1 / bw`.
    OverBand,
    /// `(|d| - bw) / tol` for this half-width; the slope is `sign(d) / tol`.
    Excess { bw: Scalar },
    /// `sqrt(u^2 + 1)` with `u = (|d| - bw) / tol`; the slope is
    /// `sign(d) * u / (tol * sqrt(u^2 + 1))`.
    SoftExcess,
}

/// The half-width of a hard box: the tolerance stands in for a missing band.
pub open spec fn box_width(tol: Scalar, bw: Scalar) -> Scalar {
    if scalar::at_most(bw, Scalar::zero()) {
        tol
    } else {
        bw
    }
}

/// The form of a residual.
pub open spec fn form_of(kind: ConstraintKind, d: Scalar, tol: Scalar, bw: Scalar) -> Form {
    let size = scalar::absolute(d);
    match kind {
        ConstraintKind::Exact => Form::OverTolerance,
        ConstraintKind::Above => if scalar::less(d, Scalar::zero()) {
            Form::OverTolerance
        } else {
            Form::Inactive
        },
        ConstraintKind::Below => if scalar::less(Scalar::zero(), d) {
            Form::OverTolerance
        } else {
            Form::Inactive
        },
        ConstraintKind::Range => if scalar::at_most(size, box_width(tol, bw)) {
            Form::Inactive
        } else {
            Form::Excess { bw: box_width(tol, bw) }
        },
        ConstraintKind::CenterBand => if scalar::at_most(bw, Scalar::zero()) {
            Form::OverTolerance
        } else if scalar::at_most(size, bw) {
            Form::OverBand
        } else {
            Form::SoftExcess
        },
    }
}

/// The form of a residual and of its slope: both take the same one, so they
/// agree on which side of a kink a point lies.
pub fn kind_form(kind: ConstraintKind, d: Scalar, tol: Scalar, bw: Scalar) -> (r: Form)
    ensures
        r == form_of(kind, d, tol, bw),
{
    let zero: Scalar = Scalar::zero();
    match kind {
        ConstraintKind::Exact => Form::OverTolerance,
        ConstraintKind::Above => if d.lt(zero) {
            Form::OverTolerance
        } else {
            Form::Inactive
        },
        ConstraintKind::Below => if d.gt(zero) {
            Form::OverTolerance
        } else {
            Form::Inactive
        },
        ConstraintKind::Range => {
            let width: Scalar = if bw.le(zero) {
                tol
            } else {
                bw
            };
            if d.abs().le(width) {
                Form::Inactive
            } else {
                Form::Excess { bw: width }
            }
        },
        ConstraintKind::CenterBand => if bw.le(zero) {
            Form::OverTolerance
        } else if d.abs().le(bw) {
            Form::OverBand
        } else {
            Form::SoftExcess
        },
    }
}

/// A satisfied one-sided demand and its opposite: off the target, exactly one
/// of `Above` and `Below` is active.
pub proof fn one_side_is_active(d: Scalar, tol: Scalar, bw: Scalar)
    requires
        !d.nan(),
        !scalar::same(d, Scalar::zero()),
    ensures
        (form_of(ConstraintKind::Above, d, tol, bw) is Inactive) != (form_of(
            ConstraintKind::Below,
            d,
            tol,
            bw,
        ) is Inactive),
{
}

/// The box kinds do not care for the sign of the difference.
pub proof fn boxes_are_symmetric(d: Scalar, tol: Scalar, bw: Scalar)
    ensures
        form_of(ConstraintKind::Range, d, tol, bw) == form_of(
            ConstraintKind::Range,
            scalar::negated(d),
            tol,
            bw,
        ),
        form_of(ConstraintKind::CenterBand, d, tol, bw) == form_of(
            ConstraintKind::CenterBand,
            scalar::negated(d),
            tol,
            bw,
        ),
{
}

} // verus!
