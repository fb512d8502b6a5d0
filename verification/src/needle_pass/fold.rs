//! Folding demands into quadratic terms per solver point.
//!
//! Each point of a demand that is active at the operating point becomes an
//! emission: a raw target and a weight in one bucket at one solver point.
//! Without a simulation, or where its rows are missing, every kind folds as if
//! it were violated at its centre.
use crate::merit::formula;
use crate::merit::formula::{
    amplitude_row, count_or_one, incidence_index, intensity_row, mean, phase_of_amplitude, signum,
    wrap_phase,
};
use crate::merit::plan;
use crate::merit::residuals::TOLERANCE_FLOOR_BITS;
use crate::merit::sim::SimCurves;
use crate::merit::spec;
use crate::merit::spec::{MeritKey, MeritSpec, MeritTarget};
use crate::merit::{ConstraintKind, CurveId, Quantity, SimTransform};
use crate::nearest;
use crate::nearest::nearest_index;
use crate::needle_pass::interp;
use crate::needle_pass::interp::{cinterp_from, interp_clamped, interp_from};
use crate::numeric::Numeric;
use crate::optics::Optics;
use crate::scalar;
use crate::scalar::Scalar;
use vstd::prelude::*;

verus! {

/// The pattern of minus two.
pub const MINUS_TWO_BITS: u64 = 0xC000_0000_0000_0000;

/// The quantity a demand folds into.
#[derive(Clone, Copy, Debug, PartialEq, Eq, Structural)]
pub enum Bucket {
    R,
    T,
    A,
    Rb,
    Tb,
    Ab,
    /// The phase of one scattering element.
    Phi { ch: usize },
}

/// Why demands cannot be folded.
#[derive(Debug)]
pub enum NeedleFault {
    /// The curve has no scattering element.
    NoElement { curve: CurveId },
    /// A phase demand needs linear or phase values.
    PhaseTransform { transform: SimTransform },
    /// Any other demand needs linear values.
    NeedsLinear { transform: SimTransform },
    /// A color demand could not be evaluated.
    Color { curve: CurveId, message: String },
}

/// The bucket of an intensity or absorptance demand.
pub open spec fn pair_bucket(curve: CurveId) -> Bucket {
    match (curve.quantity(), curve.back()) {
        (Quantity::Reflected, false) => Bucket::R,
        (Quantity::Transmitted, false) => Bucket::T,
        (Quantity::Absorbed, false) => Bucket::A,
        (Quantity::Reflected, true) => Bucket::Rb,
        (Quantity::Transmitted, true) => Bucket::Tb,
        (Quantity::Absorbed, true) => Bucket::Ab,
    }
}

/// The scattering element of a curve with a phase.
pub open spec fn element(curve: CurveId) -> usize {
    match (curve.quantity(), curve.back()) {
        (Quantity::Reflected, false) => 0,
        (Quantity::Transmitted, true) => 1,
        (Quantity::Transmitted, false) => 2,
        _ => 3,
    }
}

/// The bucket of a target, or why it has none.
pub open spec fn bucket_of(curve: CurveId, t: MeritTarget) -> Result<Bucket, NeedleFault> {
    if t.phase {
        if !curve.has_phase() {
            Err(NeedleFault::NoElement { curve })
        } else if !(t.transform is Linear || t.transform is Phase) {
            Err(NeedleFault::PhaseTransform { transform: t.transform })
        } else {
            Ok(Bucket::Phi { ch: element(curve) })
        }
    } else if !(t.transform is Linear) {
        Err(NeedleFault::NeedsLinear { transform: t.transform })
    } else {
        Ok(pair_bucket(curve))
    }
}

/// The quadratic a point folds to. With target `t`, norm factor `nf`,
/// tolerance `tol` and band `bw`, all in scaled units:
#[derive(Clone, Copy, Debug, PartialEq, Eq, Structural)]
pub enum FoldForm {
    /// At `t / nf` with weight `(nf / tol)^2`.
    Centre,
    /// At `t / nf` with weight `(nf / bw)^2`.
    Inside,
    /// At `(t + sign(d) * bw) / nf` with weight `(nf / tol)^2`.
    Edge { bw: Scalar },
}

/// What a point folds to at scaled difference `d`; `None` when it is
/// satisfied.
pub open spec fn fold_form_of(
    kind: ConstraintKind,
    d: Option<Scalar>,
    tol: Scalar,
    bw: Scalar,
) -> Option<FoldForm> {
    let width = if scalar::at_most(bw, Scalar::zero()) {
        tol
    } else {
        bw
    };
    match d {
        None => Some(FoldForm::Centre),
        Some(d) => match kind {
            ConstraintKind::Exact => Some(FoldForm::Centre),
            ConstraintKind::Above => if scalar::at_most(Scalar::zero(), d) {
                None
            } else {
                Some(FoldForm::Centre)
            },
            ConstraintKind::Below => if scalar::at_most(d, Scalar::zero()) {
                None
            } else {
                Some(FoldForm::Centre)
            },
            ConstraintKind::Range => if scalar::at_most(scalar::absolute(d), width) {
                None
            } else {
                Some(FoldForm::Edge { bw: width })
            },
            ConstraintKind::CenterBand => if scalar::at_most(bw, Scalar::zero()) {
                Some(FoldForm::Centre)
            } else if scalar::at_most(scalar::absolute(d), bw) {
                Some(FoldForm::Inside)
            } else {
                Some(FoldForm::Edge { bw })
            },
        },
    }
}

/// Chooses what a point folds to.
pub fn fold_form(kind: ConstraintKind, d: Option<Scalar>, tol: Scalar, bw: Scalar) -> (r: Option<
    FoldForm,
>)
    ensures
        r == fold_form_of(kind, d, tol, bw),
{
    let zero: Scalar = Scalar::zero();
    match d {
        None => Some(FoldForm::Centre),
        Some(d) => match kind {
            ConstraintKind::Exact => Some(FoldForm::Centre),
            ConstraintKind::Above => if d.ge(zero) {
                None
            } else {
                Some(FoldForm::Centre)
            },
            ConstraintKind::Below => if d.le(zero) {
                None
            } else {
                Some(FoldForm::Centre)
            },
            ConstraintKind::Range => {
                let width: Scalar = if bw.le(zero) {
                    tol
                } else {
                    bw
                };
                if d.abs().le(width) {
                    None
                } else {
                    Some(FoldForm::Edge { bw: width })
                }
            },
            ConstraintKind::CenterBand => if bw.le(zero) {
                Some(FoldForm::Centre)
            } else if d.abs().le(bw) {
                Some(FoldForm::Inside)
            } else {
                Some(FoldForm::Edge { bw })
            },
        },
    }
}

/// How the points of a mean fold. The mean form is not diagonal, so each point
/// carries the uniform gradient of the mean at the operating point.
#[derive(Clone, Copy, Debug, PartialEq, Eq, Structural)]
pub enum MeanForm {
    /// Towards the centre.
    Centre,
    /// Towards the centre with the band's weight.
    Inside,
    /// Towards the nearest edge of a box of this half-width.
    Edge { bw: Scalar },
    /// No operating point: each point at its own target.
    Conservative,
}

/// The scaled differences' mean and its quotient by the mean tolerance.
#[derive(Clone, Copy, Debug, PartialEq, Eq, Structural)]
pub struct MeanState {
    pub d: Scalar,
    pub ratio: Scalar,
}

/// What a mean folds to; `None` when it is satisfied.
pub open spec fn mean_form_of(
    kind: ConstraintKind,
    m: Option<MeanState>,
    tol: Scalar,
    bw: Scalar,
) -> Option<MeanForm> {
    let width = if scalar::at_most(bw, Scalar::zero()) {
        tol
    } else {
        bw
    };
    match m {
        None => Some(MeanForm::Conservative),
        Some(m) => match kind {
            ConstraintKind::Exact => Some(MeanForm::Centre),
            ConstraintKind::Above => if scalar::at_most(Scalar::zero(), m.ratio) {
                None
            } else {
                Some(MeanForm::Centre)
            },
            ConstraintKind::Below => if scalar::at_most(m.ratio, Scalar::zero()) {
                None
            } else {
                Some(MeanForm::Centre)
            },
            ConstraintKind::Range => if scalar::at_most(scalar::absolute(m.d), width) {
                None
            } else {
                Some(MeanForm::Edge { bw: width })
            },
            ConstraintKind::CenterBand => if scalar::at_most(bw, Scalar::zero()) {
                Some(MeanForm::Centre)
            } else if scalar::at_most(scalar::absolute(m.d), bw) {
                Some(MeanForm::Inside)
            } else {
                Some(MeanForm::Edge { bw })
            },
        },
    }
}

/// Chooses what a mean folds to.
pub fn mean_form(kind: ConstraintKind, m: Option<MeanState>, tol: Scalar, bw: Scalar) -> (r: Option<
    MeanForm,
>)
    ensures
        r == mean_form_of(kind, m, tol, bw),
{
    let zero: Scalar = Scalar::zero();
    match m {
        None => Some(MeanForm::Conservative),
        Some(m) => match kind {
            ConstraintKind::Exact => Some(MeanForm::Centre),
            ConstraintKind::Above => if m.ratio.ge(zero) {
                None
            } else {
                Some(MeanForm::Centre)
            },
            ConstraintKind::Below => if m.ratio.le(zero) {
                None
            } else {
                Some(MeanForm::Centre)
            },
            ConstraintKind::Range => {
                let width: Scalar = if bw.le(zero) {
                    tol
                } else {
                    bw
                };
                if m.d.abs().le(width) {
                    None
                } else {
                    Some(MeanForm::Edge { bw: width })
                }
            },
            ConstraintKind::CenterBand => if bw.le(zero) {
                Some(MeanForm::Centre)
            } else if m.d.abs().le(bw) {
                Some(MeanForm::Inside)
            } else {
                Some(MeanForm::Edge { bw })
            },
        },
    }
}

/// One quadratic term: `weight * (x - target)^2` at solver point `k`.
#[derive(Clone, Copy, Debug, PartialEq, Eq, Structural)]
pub struct Emission {
    pub bucket: Bucket,
    pub k: usize,
    pub target: Scalar,
    pub weight: Scalar,
    /// Share in the gain shift of a differential phase demand.
    pub shift: Option<Scalar>,
}

/// The means a mean demand is folded by.
#[derive(Clone, Copy, Debug, PartialEq, Eq, Structural)]
pub struct Means {
    pub target: Scalar,
    pub tol: Scalar,
    pub bw: Scalar,
    /// Mean simulated value and mean scaled difference; zero without an
    /// operating point.
    pub sim: Scalar,
    pub d: Scalar,
}

/// Where the points of one target go.
pub struct Place {
    pub bucket: Bucket,
    /// Angle row on the solver grid.
    pub row: int,
    pub wavelengths: Seq<Scalar>,
    /// Angle row of the simulation, where its rows can be read.
    pub op_row: Option<usize>,
}

/// The simulation's rows for this target can be read.
pub open spec fn op_readable(sim: Option<&SimCurves>, curve: CurveId, phase: bool) -> bool {
    match sim {
        None => false,
        Some(s) => s.wavelengths@.len() > 0 && plan::present(s, curve, phase),
    }
}

/// The value, where there is an operating point.
pub open spec fn known(op_row: Option<usize>, d: Scalar) -> Option<Scalar> {
    if op_row is Some {
        Some(d)
    } else {
        None
    }
}

/// The emissions that took place, in order.
pub open spec fn emitted(outs: Seq<Option<Emission>>) -> Seq<Emission>
    decreases outs.len(),
{
    if outs.len() == 0 {
        seq![]
    } else {
        match outs.last() {
            Some(e) => emitted(outs.drop_last()).push(e),
            None => emitted(outs.drop_last()),
        }
    }
}

/// The chunks one after the other.
pub open spec fn joined(chunks: Seq<Seq<Emission>>) -> Seq<Emission>
    decreases chunks.len(),
{
    if chunks.len() == 0 {
        seq![]
    } else {
        joined(chunks.drop_last()) + chunks.last()
    }
}

/// What a target needs to be folded.
pub open spec fn foldable(t: MeritTarget) -> bool {
    &&& t.normalized_targets@.len() == t.wavelengths@.len()
    &&& t.tolerances@.len() == t.wavelengths@.len()
    &&& t.band@.len() == 0 || t.band@.len() == t.wavelengths@.len()
    &&& t.wavelengths@.len() == 1 ==> !t.wavelengths@[0].nan()
}

/// What a simulation that has the rows of a target needs for the target to be
/// read from it: an angle, and no NaN where there is but one wavelength.
pub open spec fn legible(sim: Option<&SimCurves>, key: MeritKey, t: MeritTarget) -> bool {
    sim matches Some(s) ==> {
        &&& s.wf()
        &&& s.wavelengths@.len() > 0 && plan::present(s, key.curve, t.phase) ==> {
            &&& s.angles@.len() > 0
            &&& forall|i: int|
                0 <= i < t.wavelengths@.len() ==> interp::bracketable(
                    s.wavelengths@,
                    #[trigger] t.wavelengths@[i],
                )
        }
    }
}

/// Every target can be read from the simulation.
pub open spec fn all_legible(sim: Option<&SimCurves>, spec: &MeritSpec) -> bool {
    forall|j: int|
        0 <= j < spec.target_seq().len() ==> legible(
            sim,
            spec.key_seq()[(#[trigger] spec.target_seq()[j]).key_idx as int],
            spec.target_seq()[j],
        )
}

/// One angle row of a stored row.
pub open spec fn row_at<T>(sim: &SimCurves, row: Seq<T>, a: int) -> Seq<T> {
    let n = sim.wavelengths@.len() as int;
    row.subrange(a * n, a * n + n)
}

/// The simulated value that a demand sees at `w`.
pub open spec fn op_value<A: Numeric, O: Optics>(
    num: A,
    ph: O,
    sim: &SimCurves,
    key: MeritKey,
    t: MeritTarget,
    a: int,
    w: Scalar,
) -> Scalar {
    let xs = sim.wavelengths@;
    if t.phase {
        let row = row_at(sim, sim.amplitude(key.curve)->0@, a);
        let z = interp::interpolated_complex(num, xs, row, w);
        formula::phase_value(num, ph, sim, key, t, w, z)
    } else if key.curve.quantity() is Absorbed {
        let r = sim.intensity(formula::companion(key.curve, Quantity::Reflected))->0@;
        let tr = sim.intensity(formula::companion(key.curve, Quantity::Transmitted))->0@;
        formula::absorbed(
            num,
            interp::interpolated(num, xs, row_at(sim, r, a), w),
            interp::interpolated(num, xs, row_at(sim, tr, a), w),
        )
    } else {
        interp::interpolated(num, xs, row_at(sim, sim.intensity(key.curve)->0@, a), w)
    }
}

/// The scaled difference of a simulated value and a scaled target.
pub open spec fn op_gap<A: Numeric, O: Optics>(
    num: A,
    ph: O,
    t: MeritTarget,
    s: Scalar,
    target: Scalar,
) -> Scalar {
    let d = num.difference(num.product(s, t.norm_factor), target);
    if t.phase && t.transform is Phase {
        formula::wrapped(num, ph, d)
    } else {
        d
    }
}

/// The scaled target at a target's own point.
pub open spec fn point_target<A: Numeric>(num: A, t: MeritTarget, i: int) -> Scalar {
    interp::interpolated(num, t.wavelengths@, t.normalized_targets@, t.wavelengths@[i])
}

/// The tolerance there.
pub open spec fn point_tolerance<A: Numeric>(num: A, t: MeritTarget, i: int) -> Scalar {
    scalar::greater(
        interp::interpolated(num, t.wavelengths@, t.tolerances@, t.wavelengths@[i]),
        Scalar { bits: TOLERANCE_FLOOR_BITS },
    )
}

/// The band half-width there.
pub open spec fn point_band<A: Numeric>(num: A, t: MeritTarget, i: int) -> Scalar {
    if t.band@.len() == 0 {
        Scalar::zero()
    } else {
        scalar::greater(
            interp::interpolated(num, t.wavelengths@, t.band@, t.wavelengths@[i]),
            Scalar::zero(),
        )
    }
}

/// The simulated value and its scaled difference at a point; zeros without an
/// operating point.
pub open spec fn op_point<A: Numeric, O: Optics>(
    num: A,
    ph: O,
    sim: Option<&SimCurves>,
    key: MeritKey,
    t: MeritTarget,
    op_row: Option<usize>,
    i: int,
) -> (Scalar, Scalar) {
    match op_row {
        Some(a) => {
            let s = op_value(num, ph, sim->0, key, t, a as int, t.wavelengths@[i]);
            (s, op_gap(num, ph, t, s, point_target(num, t, i)))
        },
        None => (Scalar::zero(), Scalar::zero()),
    }
}

/// The raw target and the weight of a form.
pub open spec fn form_pair<A: Numeric>(
    num: A,
    t: MeritTarget,
    form: FoldForm,
    target: Scalar,
    tol: Scalar,
    bw: Scalar,
    d: Scalar,
) -> (Scalar, Scalar) {
    let nf = t.norm_factor;
    let nf2 = num.product(nf, nf);
    match form {
        FoldForm::Centre => (
            num.quotient(target, nf),
            num.quotient(nf2, num.product(tol, tol)),
        ),
        FoldForm::Inside => (
            num.quotient(target, nf),
            num.quotient(nf2, num.product(bw, bw)),
        ),
        FoldForm::Edge { bw: half } => (
            num.quotient(num.sum(target, num.product(formula::sign_of(d), half)), nf),
            num.quotient(nf2, num.product(tol, tol)),
        ),
    }
}

/// The pair that a point emits: the form's, its weight times the frame's.
pub open spec fn point_pair<A: Numeric>(
    num: A,
    t: MeritTarget,
    form: FoldForm,
    target: Scalar,
    tol: Scalar,
    bw: Scalar,
    d: Scalar,
) -> (Scalar, Scalar) {
    let p = form_pair(num, t, form, target, tol, bw, d);
    (p.0, num.quotient(num.product(p.1, t.weight), formula::divisor(t)))
}

/// What an emitted pair adds to the gain shift of a differential demand.
pub open spec fn gain_of<A: Numeric, O: Optics>(
    num: A,
    ph: O,
    sim: &SimCurves,
    key: MeritKey,
    passes: Scalar,
    w: Scalar,
    pair: (Scalar, Scalar),
    s: Scalar,
) -> Scalar {
    let kz = num.product(
        passes,
        ph.wavenumber(w, formula::incidence(sim, key.curve), key.angle),
    );
    num.product(
        num.product(num.product(Scalar { bits: MINUS_TWO_BITS }, kz), pair.1),
        num.difference(s, pair.0),
    )
}

/// The emission of a pair: its solver point is the nearest wavelength in the
/// target's angle row, and a differential phase demand with an operating point
/// shifts the gain.
pub open spec fn emission_of<A: Numeric, O: Optics>(
    num: A,
    ph: O,
    sim: Option<&SimCurves>,
    key: MeritKey,
    t: MeritTarget,
    place: Place,
    i: int,
    pair: (Scalar, Scalar),
    s: Scalar,
) -> Emission {
    let w = t.wavelengths@[i];
    let at = nearest::nearest_to(num, place.wavelengths, w);
    Emission {
        bucket: place.bucket,
        k: (place.row * place.wavelengths.len() + at) as usize,
        target: pair.0,
        weight: pair.1,
        shift: if place.bucket is Phi && t.differential_passes is Some && place.op_row is Some {
            Some(gain_of(num, ph, sim->0, key, t.differential_passes->0, w, pair, s))
        } else {
            None
        },
    }
}

/// What becomes of one point of a pointwise target.
pub open spec fn point_outcome<A: Numeric, O: Optics>(
    num: A,
    ph: O,
    sim: Option<&SimCurves>,
    key: MeritKey,
    t: MeritTarget,
    place: Place,
    i: int,
) -> Option<Emission> {
    let target = point_target(num, t, i);
    let tol = point_tolerance(num, t, i);
    let bw = point_band(num, t, i);
    let sd = op_point(num, ph, sim, key, t, place.op_row, i);
    match fold_form_of(t.kind, known(place.op_row, sd.1), tol, bw) {
        None => None,
        Some(form) => Some(
            emission_of(
                num,
                ph,
                sim,
                key,
                t,
                place,
                i,
                point_pair(num, t, form, target, tol, bw, sd.1),
                sd.0,
            ),
        ),
    }
}

/// The means that a mean demand is folded by; the tolerance has a floor.
pub open spec fn means_of<A: Numeric, O: Optics>(
    num: A,
    ph: O,
    sim: Option<&SimCurves>,
    key: MeritKey,
    t: MeritTarget,
    op_row: Option<usize>,
) -> Means {
    let n = t.wavelengths@.len();
    Means {
        target: formula::average(num, Seq::new(n, |i: int| point_target(num, t, i))),
        tol: scalar::greater(
            formula::average(num, Seq::new(n, |i: int| point_tolerance(num, t, i))),
            Scalar { bits: TOLERANCE_FLOOR_BITS },
        ),
        bw: formula::average(num, Seq::new(n, |i: int| point_band(num, t, i))),
        sim: if op_row is Some {
            formula::average(
                num,
                Seq::new(n, |i: int| op_point(num, ph, sim, key, t, op_row, i).0),
            )
        } else {
            Scalar::zero()
        },
        d: if op_row is Some {
            formula::average(
                num,
                Seq::new(n, |i: int| op_point(num, ph, sim, key, t, op_row, i).1),
            )
        } else {
            Scalar::zero()
        },
    }
}

/// The state of a mean at the operating point.
pub open spec fn mean_state<A: Numeric>(num: A, op_row: Option<usize>, m: Means) -> Option<
    MeanState,
> {
    if op_row is Some {
        Some(MeanState { d: m.d, ratio: num.quotient(m.d, m.tol) })
    } else {
        None
    }
}

/// The raw target and the weight of a mean's point, whose scaled target and
/// simulated value are given.
pub open spec fn mean_pair<A: Numeric>(
    num: A,
    t: MeritTarget,
    form: MeanForm,
    m: Means,
    target: Scalar,
    s: Scalar,
) -> (Scalar, Scalar) {
    let nf = t.norm_factor;
    let n = num.whole(t.wavelengths@.len() as usize);
    let top = num.product(num.product(t.weight, nf), nf);
    let centre = num.quotient(
        num.quotient(top, num.product(m.tol, m.tol)),
        num.product(n, n),
    );
    let towards = num.difference(
        s,
        num.product(n, num.difference(m.sim, num.quotient(m.target, nf))),
    );
    match form {
        MeanForm::Conservative => (num.quotient(target, nf), centre),
        MeanForm::Centre => (towards, centre),
        MeanForm::Inside => (
            towards,
            num.quotient(num.quotient(top, num.product(m.bw, m.bw)), num.product(n, n)),
        ),
        MeanForm::Edge { bw } => (
            num.difference(
                s,
                num.product(
                    n,
                    num.quotient(
                        num.product(
                            formula::sign_of(m.d),
                            num.difference(scalar::absolute(m.d), bw),
                        ),
                        nf,
                    ),
                ),
            ),
            centre,
        ),
    }
}

/// What becomes of a mean: nothing, or one emission per point.
pub open spec fn mean_outcome<A: Numeric, O: Optics>(
    num: A,
    ph: O,
    sim: Option<&SimCurves>,
    key: MeritKey,
    t: MeritTarget,
    place: Place,
) -> Seq<Emission> {
    let m = means_of(num, ph, sim, key, t, place.op_row);
    match mean_form_of(t.kind, mean_state(num, place.op_row, m), m.tol, m.bw) {
        None => seq![],
        Some(form) => Seq::new(
            t.wavelengths@.len(),
            |i: int|
                {
                    let s = op_point(num, ph, sim, key, t, place.op_row, i).0;
                    let pair = mean_pair(num, t, form, m, point_target(num, t, i), s);
                    emission_of(num, ph, sim, key, t, place, i, pair, s)
                },
        ),
    }
}

/// Where a target's points go.
pub open spec fn place_of<A: Numeric>(
    num: A,
    key: MeritKey,
    t: MeritTarget,
    bucket: Bucket,
    angles: Seq<Scalar>,
    wavelengths: Seq<Scalar>,
    sim: Option<&SimCurves>,
) -> Place {
    Place {
        bucket,
        row: nearest::nearest_to(num, angles, key.angle),
        wavelengths,
        op_row: if op_readable(sim, key.curve, t.phase) {
            Some(nearest::nearest_to(num, sim->0.angles@, key.angle) as usize)
        } else {
            None
        },
    }
}

/// The emissions of target `at`, which has a bucket.
pub open spec fn target_outcome<A: Numeric, O: Optics>(
    num: A,
    ph: O,
    spec: &MeritSpec,
    angles: Seq<Scalar>,
    wavelengths: Seq<Scalar>,
    sim: Option<&SimCurves>,
    at: int,
) -> Seq<Emission> {
    let t = spec.target_seq()[at];
    let key = spec.key_seq()[t.key_idx as int];
    let bucket = bucket_of(key.curve, t)->Ok_0;
    let place = place_of(num, key, t, bucket, angles, wavelengths, sim);
    if t.integral {
        mean_outcome(num, ph, sim, key, t, place)
    } else {
        emitted(
            Seq::new(
                t.wavelengths@.len(),
                |i: int| point_outcome(num, ph, sim, key, t, place, i),
            ),
        )
    }
}

/// The emissions of the first `n` targets.
pub open spec fn targets_outcome<A: Numeric, O: Optics>(
    num: A,
    ph: O,
    spec: &MeritSpec,
    angles: Seq<Scalar>,
    wavelengths: Seq<Scalar>,
    sim: Option<&SimCurves>,
    n: int,
) -> Seq<Emission> {
    joined(
        Seq::new(
            n as nat,
            |j: int| target_outcome(num, ph, spec, angles, wavelengths, sim, j),
        ),
    )
}

/// An angle row lies inside a stored row.
proof fn row_is_inside(sim: &SimCurves, a: int)
    requires
        0 <= a < sim.angles@.len(),
    ensures
        0 <= a * sim.wavelengths@.len(),
        a * sim.wavelengths@.len() + sim.wavelengths@.len() <= sim.points(),
{
    let n = sim.wavelengths@.len() as int;
    let m = sim.angles@.len() as int;
    assert(0 <= a * n && a * n + n <= m * n) by (nonlinear_arith)
        requires
            0 <= a < m,
            0 <= n,
    ;
}

/// Computes `op_value`.
fn sample_op_value<A: Numeric, O: Optics>(
    num: &A,
    ph: &O,
    sim: &SimCurves,
    key: MeritKey,
    t: &MeritTarget,
    a: usize,
    w: Scalar,
) -> (r: Scalar)
    requires
        num.sound(),
        ph.lawful(),
        sim.wf(),
        plan::present(sim, key.curve, t.phase),
        a < sim.angles@.len(),
        interp::bracketable(sim.wavelengths@, w),
    ensures
        r == op_value(*num, *ph, sim, key, *t, a as int, w),
{
    let n: usize = sim.wavelengths.len();
    proof {
        row_is_inside(sim, a as int);
    }
    if t.phase {
        let row: &Vec<(Scalar, Scalar)> = amplitude_row(sim, key.curve);
        let size: usize = row.len();
        assert(a * n <= size);
        let z: (Scalar, Scalar) = cinterp_from(num, &sim.wavelengths, row, a * n, w);
        phase_of_amplitude(num, ph, sim, key, t, w, z)
    } else {
        match key.curve.absorption_companions() {
            Some((rc, tc)) => {
                let r: &Vec<Scalar> = intensity_row(sim, rc);
                let tr: &Vec<Scalar> = intensity_row(sim, tc);
                let size: usize = r.len();
                assert(a * n <= size);
                let x: Scalar = interp_from(num, &sim.wavelengths, r, a * n, w);
                let y: Scalar = interp_from(num, &sim.wavelengths, tr, a * n, w);
                num.minus(num.minus(Scalar::one(), x), y)
            },
            None => {
                let row: &Vec<Scalar> = intensity_row(sim, key.curve);
                let size: usize = row.len();
                assert(a * n <= size);
                interp_from(num, &sim.wavelengths, row, a * n, w)
            },
        }
    }
}

/// The scaled target, tolerance and band of a point.
fn point_value<A: Numeric>(num: &A, t: &MeritTarget, i: usize) -> (r: (Scalar, Scalar, Scalar))
    requires
        num.sound(),
        foldable(*t),
        i < t.wavelengths@.len(),
    ensures
        r.0 == point_target(*num, *t, i as int),
        r.1 == point_tolerance(*num, *t, i as int),
        r.2 == point_band(*num, *t, i as int),
{
    let x: Scalar = t.wavelengths[i];
    let target: Scalar = interp_clamped(num, &t.wavelengths, &t.normalized_targets, x);
    let tol: Scalar = interp_clamped(num, &t.wavelengths, &t.tolerances, x).max(
        Scalar { bits: TOLERANCE_FLOOR_BITS },
    );
    let bw: Scalar = if t.band.len() == 0 {
        Scalar::zero()
    } else {
        interp_clamped(num, &t.wavelengths, &t.band, x).max(Scalar::zero())
    };
    (target, tol, bw)
}

/// The operating point can be read at this row.
pub open spec fn at_row(
    sim: Option<&SimCurves>,
    key: MeritKey,
    t: MeritTarget,
    op_row: Option<usize>,
) -> bool {
    &&& legible(sim, key, t)
    &&& op_row matches Some(a) ==> {
        &&& sim is Some
        &&& plan::present(sim->0, key.curve, t.phase)
        &&& a < sim->0.angles@.len()
    }
}

/// Computes `op_point`.
fn read_op_point<A: Numeric, O: Optics>(
    num: &A,
    ph: &O,
    sim: Option<&SimCurves>,
    key: MeritKey,
    t: &MeritTarget,
    op_row: Option<usize>,
    i: usize,
    target: Scalar,
) -> (r: (Scalar, Scalar))
    requires
        num.sound(),
        ph.lawful(),
        at_row(sim, key, *t, op_row),
        i < t.wavelengths@.len(),
        target == point_target(*num, *t, i as int),
    ensures
        r == op_point(*num, *ph, sim, key, *t, op_row, i as int),
{
    match op_row {
        None => (Scalar::zero(), Scalar::zero()),
        Some(a) => {
            let w: Scalar = t.wavelengths[i];
            assert(w == t.wavelengths@[i as int]);
            let s: Scalar = sample_op_value(num, ph, sim.unwrap(), key, t, a, w);
            let d: Scalar = num.minus(num.times(s, t.norm_factor), target);
            if t.phase && t.transform == SimTransform::Phase {
                (s, wrap_phase(num, ph, d))
            } else {
                (s, d)
            }
        },
    }
}

/// Computes `point_pair`.
fn pair_of_point<A: Numeric>(
    num: &A,
    t: &MeritTarget,
    form: FoldForm,
    target: Scalar,
    tol: Scalar,
    bw: Scalar,
    d: Scalar,
) -> (r: (Scalar, Scalar))
    requires
        num.sound(),
    ensures
        r == point_pair(*num, *t, form, target, tol, bw, d),
{
    let nf: Scalar = t.norm_factor;
    let nf2: Scalar = num.times(nf, nf);
    let (x, w) = match form {
        FoldForm::Centre => (num.over(target, nf), num.over(nf2, num.times(tol, tol))),
        FoldForm::Inside => (num.over(target, nf), num.over(nf2, num.times(bw, bw))),
        FoldForm::Edge { bw: half } => (
            num.over(num.plus(target, num.times(signum(d), half)), nf),
            num.over(nf2, num.times(tol, tol)),
        ),
    };
    (x, num.over(num.times(w, t.weight), count_or_one(t)))
}

/// Computes `mean_pair`.
fn pair_of_mean<A: Numeric>(
    num: &A,
    t: &MeritTarget,
    form: MeanForm,
    m: Means,
    target: Scalar,
    s: Scalar,
) -> (r: (Scalar, Scalar))
    requires
        num.sound(),
    ensures
        r == mean_pair(*num, *t, form, m, target, s),
{
    let nf: Scalar = t.norm_factor;
    let n: Scalar = num.count(t.wavelengths.len());
    let top: Scalar = num.times(num.times(t.weight, nf), nf);
    let centre: Scalar = num.over(num.over(top, num.times(m.tol, m.tol)), num.times(n, n));
    match form {
        MeanForm::Conservative => (num.over(target, nf), centre),
        MeanForm::Centre => {
            let gap: Scalar = num.minus(m.sim, num.over(m.target, nf));
            (num.minus(s, num.times(n, gap)), centre)
        },
        MeanForm::Inside => {
            let gap: Scalar = num.minus(m.sim, num.over(m.target, nf));
            let w: Scalar = num.over(num.over(top, num.times(m.bw, m.bw)), num.times(n, n));
            (num.minus(s, num.times(n, gap)), w)
        },
        MeanForm::Edge { bw } => {
            let gap: Scalar = num.over(num.times(signum(m.d), num.minus(m.d.abs(), bw)), nf);
            (num.minus(s, num.times(n, gap)), centre)
        },
    }
}

/// Computes `emission_of`.
fn emission<A: Numeric, O: Optics>(
    num: &A,
    ph: &O,
    sim: Option<&SimCurves>,
    key: MeritKey,
    t: &MeritTarget,
    i: usize,
    pair: (Scalar, Scalar),
    s: Scalar,
    bucket: Bucket,
    row: usize,
    wavelengths: &Vec<Scalar>,
    op_row: Option<usize>,
) -> (r: Emission)
    requires
        num.sound(),
        ph.lawful(),
        op_row is Some ==> sim is Some,
        i < t.wavelengths@.len(),
        wavelengths@.len() > 0,
        (row + 1) * wavelengths@.len() <= usize::MAX,
    ensures
        r == emission_of(
            *num,
            *ph,
            sim,
            key,
            *t,
            (Place { bucket, row: row as int, wavelengths: wavelengths@, op_row }),
            i as int,
            pair,
            s,
        ),
        r.k < (row + 1) * wavelengths@.len(),
{
    let wl: Scalar = t.wavelengths[i];
    let w: usize = nearest_index(num, wavelengths, wl);
    let nw: usize = wavelengths.len();
    assert(row * nw + nw == (row + 1) * nw) by (nonlinear_arith);
    assert(0 <= row * nw) by (nonlinear_arith)
        requires
            0 <= row,
            0 <= nw,
    ;
    let k: usize = row * nw + w;
    let is_phi: bool = match bucket {
        Bucket::Phi { ch: _ } => true,
        _ => false,
    };
    let shift: Option<Scalar> = match (t.differential_passes, op_row) {
        (Some(passes), Some(_)) => if is_phi {
            let n: Scalar = incidence_index(sim.unwrap(), key.curve);
            let kz: Scalar = num.times(passes, ph.reference_wavenumber(wl, n, key.angle));
            let part: Scalar = num.times(
                num.times(Scalar { bits: MINUS_TWO_BITS }, kz),
                pair.1,
            );
            Some(num.times(part, num.minus(s, pair.0)))
        } else {
            None
        },
        _ => None,
    };
    Emission { bucket, k, target: pair.0, weight: pair.1, shift }
}

/// Folds one point of a pointwise target.
fn fold_point<A: Numeric, O: Optics>(
    num: &A,
    ph: &O,
    sim: Option<&SimCurves>,
    key: MeritKey,
    t: &MeritTarget,
    i: usize,
    bucket: Bucket,
    row: usize,
    wavelengths: &Vec<Scalar>,
    op_row: Option<usize>,
) -> (r: Option<Emission>)
    requires
        num.sound(),
        ph.lawful(),
        foldable(*t),
        at_row(sim, key, *t, op_row),
        i < t.wavelengths@.len(),
        wavelengths@.len() > 0,
        (row + 1) * wavelengths@.len() <= usize::MAX,
    ensures
        r == point_outcome(
            *num,
            *ph,
            sim,
            key,
            *t,
            (Place { bucket, row: row as int, wavelengths: wavelengths@, op_row }),
            i as int,
        ),
        r matches Some(e) ==> e.k < (row + 1) * wavelengths@.len(),
{
    let (target, tol, bw) = point_value(num, t, i);
    let sd: (Scalar, Scalar) = read_op_point(num, ph, sim, key, t, op_row, i, target);
    let d: Option<Scalar> = match op_row {
        Some(_) => Some(sd.1),
        None => None,
    };
    assert(d == known(op_row, sd.1));
    match fold_form(t.kind, d, tol, bw) {
        None => None,
        Some(form) => {
            let pair: (Scalar, Scalar) = pair_of_point(num, t, form, target, tol, bw, sd.1);
            Some(
                emission(
                    num,
                    ph,
                    sim,
                    key,
                    t,
                    i,
                    pair,
                    sd.0,
                    bucket,
                    row,
                    wavelengths,
                    op_row,
                ),
            )
        },
    }
}

/// Folds a demand on a mean.
fn fold_mean<A: Numeric, O: Optics>(
    num: &A,
    ph: &O,
    sim: Option<&SimCurves>,
    key: MeritKey,
    t: &MeritTarget,
    bucket: Bucket,
    row: usize,
    wavelengths: &Vec<Scalar>,
    op_row: Option<usize>,
) -> (r: Vec<Emission>)
    requires
        num.sound(),
        ph.lawful(),
        foldable(*t),
        at_row(sim, key, *t, op_row),
        wavelengths@.len() > 0,
        (row + 1) * wavelengths@.len() <= usize::MAX,
    ensures
        r@ == mean_outcome(
            *num,
            *ph,
            sim,
            key,
            *t,
            (Place { bucket, row: row as int, wavelengths: wavelengths@, op_row }),
        ),
        forall|i: int|
            0 <= i < r@.len() ==> (#[trigger] r@[i]).k < (row + 1) * wavelengths@.len(),
{
    let ghost place = Place { bucket, row: row as int, wavelengths: wavelengths@, op_row };
    let n: usize = t.wavelengths.len();
    let ghost all_targets = Seq::new(n as nat, |i: int| point_target(*num, *t, i));
    let ghost all_tols = Seq::new(n as nat, |i: int| point_tolerance(*num, *t, i));
    let ghost all_bws = Seq::new(n as nat, |i: int| point_band(*num, *t, i));
    let ghost all_sims = Seq::new(
        n as nat,
        |i: int| op_point(*num, *ph, sim, key, *t, op_row, i).0,
    );
    let ghost all_ds = Seq::new(n as nat, |i: int| op_point(*num, *ph, sim, key, *t, op_row, i).1);
    let mut targets: Vec<Scalar> = Vec::with_capacity(n);
    let mut tols: Vec<Scalar> = Vec::with_capacity(n);
    let mut bws: Vec<Scalar> = Vec::with_capacity(n);
    let mut sims: Vec<Scalar> = Vec::with_capacity(n);
    let mut ds: Vec<Scalar> = Vec::with_capacity(n);
    let mut i: usize = 0;
    while i < n
        invariant
            i <= n == t.wavelengths@.len(),
            num.sound(),
            ph.lawful(),
            foldable(*t),
            at_row(sim, key, *t, op_row),
            all_targets == Seq::new(n as nat, |i: int| point_target(*num, *t, i)),
            all_tols == Seq::new(n as nat, |i: int| point_tolerance(*num, *t, i)),
            all_bws == Seq::new(n as nat, |i: int| point_band(*num, *t, i)),
            all_sims == Seq::new(
                n as nat,
                |i: int| op_point(*num, *ph, sim, key, *t, op_row, i).0,
            ),
            all_ds == Seq::new(n as nat, |i: int| op_point(*num, *ph, sim, key, *t, op_row, i).1),
            targets@ == all_targets.take(i as int),
            tols@ == all_tols.take(i as int),
            bws@ == all_bws.take(i as int),
            sims@ == all_sims.take(i as int),
            ds@ == all_ds.take(i as int),
        decreases n - i,
    {
        let (target, tol, bw) = point_value(num, t, i);
        let sd: (Scalar, Scalar) = read_op_point(num, ph, sim, key, t, op_row, i, target);
        targets.push(target);
        tols.push(tol);
        bws.push(bw);
        sims.push(sd.0);
        ds.push(sd.1);
        i += 1;
        assert(targets@ =~= all_targets.take(i as int));
        assert(tols@ =~= all_tols.take(i as int));
        assert(bws@ =~= all_bws.take(i as int));
        assert(sims@ =~= all_sims.take(i as int));
        assert(ds@ =~= all_ds.take(i as int));
    }
    assert(targets@ =~= all_targets);
    assert(tols@ =~= all_tols);
    assert(bws@ =~= all_bws);
    assert(sims@ =~= all_sims);
    assert(ds@ =~= all_ds);
    let tol: Scalar = mean(num, &tols).max(Scalar { bits: TOLERANCE_FLOOR_BITS });
    let bw: Scalar = mean(num, &bws);
    let (mid, d, state) = match op_row {
        Some(_) => {
            let d: Scalar = mean(num, &ds);
            (mean(num, &sims), d, Some(MeanState { d, ratio: num.over(d, tol) }))
        },
        None => (Scalar::zero(), Scalar::zero(), None),
    };
    let m: Means = Means { target: mean(num, &targets), tol, bw, sim: mid, d };
    assert(m == means_of(*num, *ph, sim, key, *t, op_row));
    assert(state == mean_state(*num, op_row, m));
    let mut out: Vec<Emission> = Vec::new();
    let ghost all = mean_outcome(*num, *ph, sim, key, *t, place);
    let form: MeanForm = match mean_form(t.kind, state, tol, bw) {
        None => {
            assert(out@ =~= all);
            return out;
        },
        Some(form) => form,
    };
    i = 0;
    while i < n
        invariant
            i <= n == t.wavelengths@.len(),
            num.sound(),
            ph.lawful(),
            at_row(sim, key, *t, op_row),
            wavelengths@.len() > 0,
            (row + 1) * wavelengths@.len() <= usize::MAX,
            place == (Place { bucket, row: row as int, wavelengths: wavelengths@, op_row }),
            m == means_of(*num, *ph, sim, key, *t, op_row),
            mean_form_of(t.kind, mean_state(*num, op_row, m), m.tol, m.bw) == Some(form),
            all == mean_outcome(*num, *ph, sim, key, *t, place),
            targets@ == Seq::new(n as nat, |i: int| point_target(*num, *t, i)),
            sims@ == Seq::new(n as nat, |i: int| op_point(*num, *ph, sim, key, *t, op_row, i).0),
            out@ == all.take(i as int),
            forall|j: int|
                0 <= j < i ==> (#[trigger] out@[j]).k < (row + 1) * wavelengths@.len(),
        decreases n - i,
    {
        let pair: (Scalar, Scalar) = pair_of_mean(num, t, form, m, targets[i], sims[i]);
        let e: Emission = emission(
            num,
            ph,
            sim,
            key,
            t,
            i,
            pair,
            sims[i],
            bucket,
            row,
            wavelengths,
            op_row,
        );
        assert(e == all[i as int]);
        out.push(e);
        i += 1;
        assert(out@ =~= all.take(i as int));
    }
    assert(out@ =~= all);
    out
}

/// Folds one target.
fn fold_target<A: Numeric, O: Optics>(
    num: &A,
    ph: &O,
    spec: &MeritSpec,
    at: usize,
    angles: &Vec<Scalar>,
    wavelengths: &Vec<Scalar>,
    sim: Option<&SimCurves>,
) -> (r: Result<Vec<Emission>, NeedleFault>)
    requires
        num.sound(),
        ph.lawful(),
        spec.wf(),
        at < spec.target_seq().len(),
        foldable(spec.target_seq()[at as int]),
        legible(
            sim,
            spec.key_seq()[spec.target_seq()[at as int].key_idx as int],
            spec.target_seq()[at as int],
        ),
        angles@.len() > 0,
        wavelengths@.len() > 0,
        angles@.len() * wavelengths@.len() <= usize::MAX,
    ensures
        match r {
            Ok(outs) => {
                &&& outs@ == target_outcome(
                    *num,
                    *ph,
                    spec,
                    angles@,
                    wavelengths@,
                    sim,
                    at as int,
                )
                &&& bucket_fault(spec, at as int) is None
                &&& forall|i: int|
                    0 <= i < outs@.len() ==> (#[trigger] outs@[i]).k < angles@.len()
                        * wavelengths@.len()
            },
            Err(e) => bucket_fault(spec, at as int) == Some(e),
        },
{
    let t: &MeritTarget = &spec.targets()[at];
    proof {
        assert(spec::target_fault(spec.key_seq(), spec.target_seq()[at as int]) is None);
    }
    let key: MeritKey = spec.keys()[t.key_idx as usize];
    let bucket: Bucket = match choose_bucket(key.curve, t) {
        Ok(b) => b,
        Err(e) => {
            return Err(e);
        },
    };
    let row: usize = nearest_index(num, angles, key.angle);
    let op_row: Option<usize> = match sim {
        None => None,
        Some(s) => if s.wavelengths.len() > 0 && plan::is_present(s, key.curve, t.phase) {
            Some(s.angle_row(num, key.angle))
        } else {
            None
        },
    };
    let ghost place = Place { bucket, row: row as int, wavelengths: wavelengths@, op_row };
    proof {
        assert(place == place_of(*num, key, *t, bucket, angles@, wavelengths@, sim));
        assert((row + 1) * wavelengths@.len() <= angles@.len() * wavelengths@.len())
            by (nonlinear_arith)
            requires
                row + 1 <= angles@.len(),
                0 <= wavelengths@.len(),
        ;
    }
    if t.integral {
        let outs: Vec<Emission> = fold_mean(
            num,
            ph,
            sim,
            key,
            t,
            bucket,
            row,
            wavelengths,
            op_row,
        );
        return Ok(outs);
    }
    let mut outs: Vec<Emission> = Vec::new();
    let n: usize = t.wavelengths.len();
    let ghost all = Seq::new(
        n as nat,
        |i: int| point_outcome(*num, *ph, sim, key, *t, place, i),
    );
    let mut i: usize = 0;
    assert(all.take(0) =~= seq![]);
    while i < n
        invariant
            i <= n == t.wavelengths@.len(),
            num.sound(),
            ph.lawful(),
            foldable(*t),
            at_row(sim, key, *t, op_row),
            wavelengths@.len() > 0,
            (row + 1) * wavelengths@.len() <= usize::MAX,
            (row + 1) * wavelengths@.len() <= angles@.len() * wavelengths@.len(),
            place == (Place { bucket, row: row as int, wavelengths: wavelengths@, op_row }),
            all == Seq::new(
                n as nat,
                |i: int| point_outcome(*num, *ph, sim, key, *t, place, i),
            ),
            outs@ == emitted(all.take(i as int)),
            forall|j: int|
                0 <= j < outs@.len() ==> (#[trigger] outs@[j]).k < angles@.len()
                    * wavelengths@.len(),
        decreases n - i,
    {
        let o: Option<Emission> = fold_point(
            num,
            ph,
            sim,
            key,
            t,
            i,
            bucket,
            row,
            wavelengths,
            op_row,
        );
        proof {
            assert(all.take(i + 1).drop_last() =~= all.take(i as int));
            assert(all.take(i + 1).last() == o);
        }
        match o {
            Some(e) => {
                outs.push(e);
            },
            None => {},
        }
        i += 1;
    }
    assert(all.take(n as int) =~= all);
    Ok(outs)
}

/// All emissions of a specification, target by target, or the fault of the
/// first target that cannot be folded.
pub fn emissions<A: Numeric, O: Optics>(
    num: &A,
    ph: &O,
    spec: &MeritSpec,
    angles: &Vec<Scalar>,
    wavelengths: &Vec<Scalar>,
    sim: Option<&SimCurves>,
) -> (r: Result<Vec<Emission>, NeedleFault>)
    requires
        num.sound(),
        ph.lawful(),
        spec.wf(),
        forall|j: int|
            0 <= j < spec.target_seq().len() ==> foldable(#[trigger] spec.target_seq()[j]),
        all_legible(sim, spec),
        spec.target_seq().len() > 0 ==> angles@.len() > 0 && wavelengths@.len() > 0,
        angles@.len() * wavelengths@.len() <= usize::MAX,
    ensures
        match r {
            Ok(outs) => {
                &&& forall|j: int|
                    0 <= j < spec.target_seq().len() ==> #[trigger] bucket_fault(spec, j) is None
                &&& outs@ == targets_outcome(
                    *num,
                    *ph,
                    spec,
                    angles@,
                    wavelengths@,
                    sim,
                    spec.target_seq().len() as int,
                )
                &&& forall|i: int|
                    0 <= i < outs@.len() ==> (#[trigger] outs@[i]).k < angles@.len()
                        * wavelengths@.len()
            },
            Err(e) => exists|j: int|
                {
                    &&& 0 <= j < spec.target_seq().len()
                    &&& #[trigger] bucket_fault(spec, j) == Some(e)
                    &&& forall|i: int| 0 <= i < j ==> #[trigger] bucket_fault(spec, i) is None
                },
        },
{
    let mut outs: Vec<Emission> = Vec::new();
    let n: usize = spec.target_count();
    let ghost all = Seq::new(
        n as nat,
        |j: int| target_outcome(*num, *ph, spec, angles@, wavelengths@, sim, j),
    );
    let mut j: usize = 0;
    assert(all.take(0) =~= seq![]);
    while j < n
        invariant
            j <= n == spec.target_seq().len(),
            num.sound(),
            ph.lawful(),
            spec.wf(),
            forall|j: int|
                0 <= j < spec.target_seq().len() ==> foldable(#[trigger] spec.target_seq()[j]),
            all_legible(sim, spec),
            n > 0 ==> angles@.len() > 0 && wavelengths@.len() > 0,
            angles@.len() * wavelengths@.len() <= usize::MAX,
            forall|i: int| 0 <= i < j ==> #[trigger] bucket_fault(spec, i) is None,
            all == Seq::new(
                n as nat,
                |j: int| target_outcome(*num, *ph, spec, angles@, wavelengths@, sim, j),
            ),
            outs@ == joined(all.take(j as int)),
            forall|i: int|
                0 <= i < outs@.len() ==> (#[trigger] outs@[i]).k < angles@.len()
                    * wavelengths@.len(),
        decreases n - j,
    {
        match fold_target(num, ph, spec, j, angles, wavelengths, sim) {
            Ok(chunk) => {
                let mut chunk: Vec<Emission> = chunk;
                let ghost c = chunk@;
                let ghost before = outs@;
                outs.append(&mut chunk);
                proof {
                    assert(all.take(j + 1).drop_last() =~= all.take(j as int));
                    assert(all.take(j + 1).last() == c);
                    assert forall|i: int| 0 <= i < outs@.len() implies (#[trigger] outs@[i]).k
                        < angles@.len() * wavelengths@.len() by {
                        if i < before.len() {
                            assert(outs@[i] == before[i]);
                        } else {
                            assert(outs@[i] == c[i - before.len()]);
                        }
                    }
                }
            },
            Err(e) => {
                return Err(e);
            },
        }
        j += 1;
    }
    assert(all.take(n as int) =~= all);
    Ok(outs)
}

/// Why a target cannot be folded.
pub open spec fn bucket_fault(spec: &MeritSpec, at: int) -> Option<NeedleFault> {
    let t = spec.target_seq()[at];
    match bucket_of(spec.key_seq()[t.key_idx as int].curve, t) {
        Ok(_) => None,
        Err(e) => Some(e),
    }
}

/// Chooses a target's bucket.
pub fn choose_bucket(curve: CurveId, t: &MeritTarget) -> (r: Result<Bucket, NeedleFault>)
    ensures
        r == bucket_of(curve, *t),
{
    if t.phase {
        match curve.phase_channel() {
            None => Err(NeedleFault::NoElement { curve }),
            Some(ch) => if t.transform != SimTransform::Linear && t.transform
                != SimTransform::Phase {
                Err(NeedleFault::PhaseTransform { transform: t.transform })
            } else {
                Ok(Bucket::Phi { ch })
            },
        }
    } else if t.transform != SimTransform::Linear {
        Err(NeedleFault::NeedsLinear { transform: t.transform })
    } else {
        Ok(
            match curve {
                CurveId::Rs | CurveId::Rp | CurveId::Ru => Bucket::R,
                CurveId::Ts | CurveId::Tp | CurveId::Tu => Bucket::T,
                CurveId::As | CurveId::Ap | CurveId::Au => Bucket::A,
                CurveId::RBs | CurveId::RBp | CurveId::RBu => Bucket::Rb,
                CurveId::TBs | CurveId::TBp | CurveId::TBu => Bucket::Tb,
                CurveId::ABs | CurveId::ABp | CurveId::ABu => Bucket::Ab,
            },
        )
    }
}

} // verus!
