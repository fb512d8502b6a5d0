//! The formulas of the merit: simulated values, scaled differences, residuals
//! and their slopes.
use crate::merit::kinds;
use crate::merit::kinds::{kind_form, Form, LOG_FLOOR_BITS};
use crate::merit::plan;
use crate::merit::plan::SampleRef;
use crate::merit::sim::SimCurves;
use crate::merit::spec::{MeritKey, MeritTarget};
use crate::merit::{ConstraintKind, CurveId, Quantity, SimTransform};
use crate::numeric::Numeric;
use crate::optics::Optics;
use crate::scalar;
use crate::scalar::Scalar;
use vstd::prelude::*;

verus! {

/// The pattern of a full turn, 2 pi.
pub const TURN_BITS: u64 = 0x4019_21FB_5444_2D18;

/// The pattern of the natural logarithm of 10.
pub const LN_TEN_BITS: u64 = 0x4002_6BB1_BBB5_5516;

/// One, with the sign of `x`; not a number where `x` is none.
pub open spec fn sign_of(x: Scalar) -> Scalar {
    if x.nan() {
        x
    } else {
        scalar::signed_as(Scalar::one(), x)
    }
}

/// Computes `sign_of`.
pub fn signum(x: Scalar) -> (r: Scalar)
    ensures
        r == sign_of(x),
{
    if x.is_nan() {
        x
    } else {
        Scalar::one().copysign(x)
    }
}

/// The sum of the first `n` values, from zero and from the left.
pub open spec fn tally<A: Numeric>(num: A, xs: Seq<Scalar>, n: int) -> Scalar
    decreases n,
{
    if n <= 0 {
        Scalar::zero()
    } else {
        num.sum(tally(num, xs, n - 1), xs[n - 1])
    }
}

/// A sum depends on what it adds up alone.
pub proof fn tally_of_prefix<A: Numeric>(num: A, a: Seq<Scalar>, b: Seq<Scalar>, n: int)
    requires
        0 <= n <= a.len(),
        n <= b.len(),
        forall|i: int| 0 <= i < n ==> a[i] == b[i],
    ensures
        tally(num, a, n) == tally(num, b, n),
    decreases n,
{
    if n > 0 {
        tally_of_prefix(num, a, b, n - 1);
    }
}

/// A sum goes on with one more value.
pub proof fn tally_goes_on<A: Numeric>(num: A, xs: Seq<Scalar>, x: Scalar)
    ensures
        tally(num, xs.push(x), (xs.len() + 1) as int) == num.sum(tally(num, xs, xs.len() as int), x),
{
    tally_of_prefix(num, xs.push(x), xs, xs.len() as int);
}

/// The mean of a list.
pub open spec fn average<A: Numeric>(num: A, xs: Seq<Scalar>) -> Scalar {
    num.quotient(tally(num, xs, xs.len() as int), num.whole(xs.len() as usize))
}

/// Computes `average`.
pub fn mean<A: Numeric>(num: &A, xs: &Vec<Scalar>) -> (r: Scalar)
    requires
        num.sound(),
    ensures
        r == average(*num, xs@),
{
    let mut acc: Scalar = Scalar::zero();
    let mut i: usize = 0;
    while i < xs.len()
        invariant
            num.sound(),
            i <= xs@.len(),
            acc == tally(*num, xs@, i as int),
        decreases xs.len() - i,
    {
        acc = num.plus(acc, xs[i]);
        i += 1;
    }
    num.over(acc, num.count(xs.len()))
}

/// The residual of a form.
pub open spec fn form_value<A: Numeric>(
    num: A,
    form: Form,
    d: Scalar,
    tol: Scalar,
    bw: Scalar,
) -> Scalar {
    match form {
        Form::Inactive => Scalar::zero(),
        Form::OverTolerance => num.quotient(d, tol),
        Form::OverBand => num.quotient(d, bw),
        Form::Excess { bw: half } => num.quotient(
            num.difference(scalar::absolute(d), half),
            tol,
        ),
        Form::SoftExcess => {
            let u = num.quotient(num.difference(scalar::absolute(d), bw), tol);
            num.square_root(num.sum(num.product(u, u), Scalar::one()))
        },
    }
}

/// The residual of a demand whose scaled difference is `d`.
pub open spec fn residual<A: Numeric>(
    num: A,
    kind: ConstraintKind,
    d: Scalar,
    tol: Scalar,
    bw: Scalar,
) -> Scalar {
    form_value(num, kinds::form_of(kind, d, tol, bw), d, tol, bw)
}

/// Computes `residual`.
pub fn kind_residual<A: Numeric>(
    num: &A,
    kind: ConstraintKind,
    d: Scalar,
    tol: Scalar,
    bw: Scalar,
) -> (r: Scalar)
    requires
        num.sound(),
    ensures
        r == residual(*num, kind, d, tol, bw),
{
    match kind_form(kind, d, tol, bw) {
        Form::Inactive => Scalar::zero(),
        Form::OverTolerance => num.over(d, tol),
        Form::OverBand => num.over(d, bw),
        Form::Excess { bw: half } => num.over(num.minus(d.abs(), half), tol),
        Form::SoftExcess => {
            let u: Scalar = num.over(num.minus(d.abs(), bw), tol);
            num.root(num.plus(num.times(u, u), Scalar::one()))
        },
    }
}

/// The slope of a form's residual.
pub open spec fn form_slope<A: Numeric>(
    num: A,
    form: Form,
    d: Scalar,
    tol: Scalar,
    bw: Scalar,
) -> Scalar {
    match form {
        Form::Inactive => Scalar::zero(),
        Form::OverTolerance => num.quotient(Scalar::one(), tol),
        Form::OverBand => num.quotient(Scalar::one(), bw),
        Form::Excess { bw: half } => num.quotient(sign_of(d), tol),
        Form::SoftExcess => {
            let u = num.quotient(num.difference(scalar::absolute(d), bw), tol);
            num.quotient(
                num.product(sign_of(d), u),
                num.product(
                    tol,
                    num.square_root(num.sum(num.product(u, u), Scalar::one())),
                ),
            )
        },
    }
}

/// The slope of the residual by the scaled difference.
pub open spec fn residual_slope<A: Numeric>(
    num: A,
    kind: ConstraintKind,
    d: Scalar,
    tol: Scalar,
    bw: Scalar,
) -> Scalar {
    form_slope(num, kinds::form_of(kind, d, tol, bw), d, tol, bw)
}

/// Computes `residual_slope`.
pub fn d_kind_residual<A: Numeric>(
    num: &A,
    kind: ConstraintKind,
    d: Scalar,
    tol: Scalar,
    bw: Scalar,
) -> (r: Scalar)
    requires
        num.sound(),
    ensures
        r == residual_slope(*num, kind, d, tol, bw),
{
    match kind_form(kind, d, tol, bw) {
        Form::Inactive => Scalar::zero(),
        Form::OverTolerance => num.over(Scalar::one(), tol),
        Form::OverBand => num.over(Scalar::one(), bw),
        Form::Excess { bw: half } => num.over(signum(d), tol),
        Form::SoftExcess => {
            let u: Scalar = num.over(num.minus(d.abs(), bw), tol);
            let rest: Scalar = num.root(num.plus(num.times(u, u), Scalar::one()));
            num.over(num.times(signum(d), u), num.times(tol, rest))
        },
    }
}

/// A difference of phases, wrapped to half a turn on either side.
pub open spec fn wrapped<A: Numeric, O: Optics>(num: A, ph: O, d: Scalar) -> Scalar {
    let turn = Scalar { bits: TURN_BITS };
    num.difference(d, num.product(turn, ph.rounded(num.quotient(d, turn))))
}

/// Computes `wrapped`.
pub fn wrap_phase<A: Numeric, O: Optics>(num: &A, ph: &O, d: Scalar) -> (r: Scalar)
    requires
        num.sound(),
        ph.lawful(),
    ensures
        r == wrapped(*num, *ph, d),
{
    let turn: Scalar = Scalar { bits: TURN_BITS };
    num.minus(d, num.times(turn, ph.round(num.over(d, turn))))
}

/// The scaled difference of a simulated value and a normalised target.
pub open spec fn scaled_gap<A: Numeric, O: Optics>(
    num: A,
    ph: O,
    transform: SimTransform,
    norm_factor: Scalar,
    raw: Scalar,
    target: Scalar,
) -> Scalar {
    match transform {
        SimTransform::Phase => wrapped(num, ph, num.difference(raw, target)),
        SimTransform::Log => num.difference(
            num.product(
                ph.decadic(scalar::greater(raw, Scalar { bits: LOG_FLOOR_BITS })),
                norm_factor,
            ),
            target,
        ),
        SimTransform::Linear | SimTransform::Complex => num.difference(
            num.product(raw, norm_factor),
            target,
        ),
    }
}

/// Computes `scaled_gap`.
pub fn scaled_diff<A: Numeric, O: Optics>(
    num: &A,
    ph: &O,
    transform: SimTransform,
    norm_factor: Scalar,
    raw: Scalar,
    target: Scalar,
) -> (r: Scalar)
    requires
        num.sound(),
        ph.lawful(),
    ensures
        r == scaled_gap(*num, *ph, transform, norm_factor, raw, target),
{
    match transform {
        SimTransform::Phase => wrap_phase(num, ph, num.minus(raw, target)),
        SimTransform::Log => {
            let x: Scalar = raw.max(Scalar { bits: LOG_FLOOR_BITS });
            num.minus(num.times(ph.log10(x), norm_factor), target)
        },
        SimTransform::Linear | SimTransform::Complex => {
            num.minus(num.times(raw, norm_factor), target)
        },
    }
}

/// The slope of the scaled difference by the simulated value; a logarithm is
/// flat at and below its floor.
pub open spec fn transform_slope<A: Numeric>(
    num: A,
    transform: SimTransform,
    raw: Scalar,
    norm_factor: Scalar,
) -> Scalar {
    match transform {
        SimTransform::Phase => Scalar::one(),
        SimTransform::Log => if scalar::less(Scalar { bits: LOG_FLOOR_BITS }, raw) {
            num.quotient(norm_factor, num.product(raw, Scalar { bits: LN_TEN_BITS }))
        } else {
            Scalar::zero()
        },
        SimTransform::Linear | SimTransform::Complex => norm_factor,
    }
}

/// Computes `transform_slope`.
pub fn d_transform<A: Numeric>(
    num: &A,
    transform: SimTransform,
    raw: Scalar,
    norm_factor: Scalar,
) -> (r: Scalar)
    requires
        num.sound(),
    ensures
        r == transform_slope(*num, transform, raw, norm_factor),
{
    match transform {
        SimTransform::Phase => Scalar::one(),
        SimTransform::Log => if raw.gt(Scalar { bits: LOG_FLOOR_BITS }) {
            num.over(norm_factor, num.times(raw, Scalar { bits: LN_TEN_BITS }))
        } else {
            Scalar::zero()
        },
        SimTransform::Linear | SimTransform::Complex => norm_factor,
    }
}

/// The divisor of a frame's weight: its count, or one.
pub open spec fn divisor(t: MeritTarget) -> Scalar {
    match t.count_norm {
        Some(c) => c,
        None => Scalar::one(),
    }
}

/// What a frame's residuals are multiplied by.
pub open spec fn frame_scale<A: Numeric>(num: A, t: MeritTarget) -> Scalar {
    num.square_root(num.quotient(t.weight, divisor(t)))
}

/// Computes `divisor`.
pub fn count_or_one(t: &MeritTarget) -> (r: Scalar)
    ensures
        r == divisor(*t),
{
    match t.count_norm {
        Some(c) => c,
        None => Scalar::one(),
    }
}

/// Computes `frame_scale`.
pub fn rscale<A: Numeric>(num: &A, t: &MeritTarget) -> (r: Scalar)
    requires
        num.sound(),
    ensures
        r == frame_scale(*num, *t),
{
    num.root(num.over(t.weight, count_or_one(t)))
}

/// The place of a grid point in a row.
pub open spec fn place(sim: &SimCurves, a: int, at: int) -> int {
    a * sim.wavelengths@.len() + at
}

/// A stored row has the grid point.
pub open spec fn has_point(sim: &SimCurves, a: int, s: SampleRef) -> bool {
    0 <= a < sim.angles@.len() && plan::on_grid(s, sim.wavelengths@.len() as int)
}

/// A grid point of a row lies inside it.
pub proof fn place_is_inside(sim: &SimCurves, a: int, at: int)
    requires
        0 <= a < sim.angles@.len(),
        0 <= at < sim.wavelengths@.len(),
    ensures
        0 <= place(sim, a, at) < sim.points(),
        0 <= a * sim.wavelengths@.len() <= place(sim, a, at),
{
    let n = sim.wavelengths@.len() as int;
    let m = sim.angles@.len() as int;
    assert(0 <= a * n && a * n + at < m * n) by (nonlinear_arith)
        requires
            0 <= a < m,
            0 <= at < n,
    ;
}

/// The line through `(w0, v0)` and `(w1, v1)`, at `w`.
pub open spec fn on_line<A: Numeric>(
    num: A,
    w0: Scalar,
    v0: Scalar,
    w1: Scalar,
    v1: Scalar,
    w: Scalar,
) -> Scalar {
    num.sum(
        v0,
        num.quotient(
            num.product(num.difference(w, w0), num.difference(v1, v0)),
            num.difference(w1, w0),
        ),
    )
}

/// How far `w` lies from `w0` towards `w1`.
pub open spec fn fraction<A: Numeric>(num: A, w0: Scalar, w1: Scalar, w: Scalar) -> Scalar {
    num.quotient(num.difference(w, w0), num.difference(w1, w0))
}

/// What a sample reads of a row.
pub open spec fn level<A: Numeric>(
    num: A,
    sim: &SimCurves,
    row: Seq<Scalar>,
    a: int,
    s: SampleRef,
    w: Scalar,
) -> Scalar {
    match s {
        SampleRef::Direct { at } => row[place(sim, a, at as int)],
        SampleRef::Between { at } => on_line(
            num,
            sim.wavelengths@[at as int],
            row[place(sim, a, at as int)],
            sim.wavelengths@[at + 1],
            row[place(sim, a, at + 1)],
            w,
        ),
    }
}

/// Computes `level`.
fn read_level<A: Numeric>(
    num: &A,
    sim: &SimCurves,
    row: &Vec<Scalar>,
    a: usize,
    s: SampleRef,
    w: Scalar,
) -> (r: Scalar)
    requires
        num.sound(),
        row@.len() == sim.points(),
        has_point(sim, a as int, s),
    ensures
        r == level(*num, sim, row@, a as int, s, w),
{
    let n: usize = sim.wavelengths.len();
    let size: usize = row.len();
    assert(size == sim.points());
    match s {
        SampleRef::Direct { at } => {
            proof {
                place_is_inside(sim, a as int, at as int);
            }
            row[a * n + at]
        },
        SampleRef::Between { at } => {
            proof {
                place_is_inside(sim, a as int, at as int);
                place_is_inside(sim, a as int, at + 1);
            }
            let w0: Scalar = sim.wavelengths[at];
            let w1: Scalar = sim.wavelengths[at + 1];
            let v0: Scalar = row[a * n + at];
            let v1: Scalar = row[a * n + at + 1];
            num.plus(
                v0,
                num.over(num.times(num.minus(w, w0), num.minus(v1, v0)), num.minus(w1, w0)),
            )
        },
    }
}

/// What a sample reads of a complex row.
pub open spec fn amplitude<A: Numeric>(
    num: A,
    sim: &SimCurves,
    row: Seq<(Scalar, Scalar)>,
    a: int,
    s: SampleRef,
    w: Scalar,
) -> (Scalar, Scalar) {
    match s {
        SampleRef::Direct { at } => row[place(sim, a, at as int)],
        SampleRef::Between { at } => {
            let f = fraction(num, sim.wavelengths@[at as int], sim.wavelengths@[at + 1], w);
            let v0 = row[place(sim, a, at as int)];
            let v1 = row[place(sim, a, at + 1)];
            (
                num.sum(v0.0, num.product(num.difference(v1.0, v0.0), f)),
                num.sum(v0.1, num.product(num.difference(v1.1, v0.1), f)),
            )
        },
    }
}

/// Computes `amplitude`.
fn read_amplitude<A: Numeric>(
    num: &A,
    sim: &SimCurves,
    row: &Vec<(Scalar, Scalar)>,
    a: usize,
    s: SampleRef,
    w: Scalar,
) -> (r: (Scalar, Scalar))
    requires
        num.sound(),
        row@.len() == sim.points(),
        has_point(sim, a as int, s),
    ensures
        r == amplitude(*num, sim, row@, a as int, s, w),
{
    let n: usize = sim.wavelengths.len();
    let size: usize = row.len();
    assert(size == sim.points());
    match s {
        SampleRef::Direct { at } => {
            proof {
                place_is_inside(sim, a as int, at as int);
            }
            row[a * n + at]
        },
        SampleRef::Between { at } => {
            proof {
                place_is_inside(sim, a as int, at as int);
                place_is_inside(sim, a as int, at + 1);
            }
            let w0: Scalar = sim.wavelengths[at];
            let w1: Scalar = sim.wavelengths[at + 1];
            let f: Scalar = num.over(num.minus(w, w0), num.minus(w1, w0));
            let v0: (Scalar, Scalar) = row[a * n + at];
            let v1: (Scalar, Scalar) = row[a * n + at + 1];
            (
                num.plus(v0.0, num.times(num.minus(v1.0, v0.0), f)),
                num.plus(v0.1, num.times(num.minus(v1.1, v0.1), f)),
            )
        },
    }
}

/// The real index of the medium that light comes from.
pub open spec fn incidence(sim: &SimCurves, curve: CurveId) -> Scalar {
    if curve.back() {
        sim.n_back_re
    } else {
        sim.n_front_re
    }
}

/// Computes `incidence`.
pub fn incidence_index(sim: &SimCurves, curve: CurveId) -> (r: Scalar)
    ensures
        r == incidence(sim, curve),
{
    if curve.is_back() {
        sim.n_back_re
    } else {
        sim.n_front_re
    }
}

/// The companion of an absorptance that carries the given quantity.
pub open spec fn companion(curve: CurveId, q: Quantity) -> CurveId {
    CurveId::of(q, curve.pol(), curve.back())
}

/// The phase of an amplitude, less the reference for a differential demand.
pub open spec fn phase_value<A: Numeric, O: Optics>(
    num: A,
    ph: O,
    sim: &SimCurves,
    key: MeritKey,
    t: MeritTarget,
    w: Scalar,
    z: (Scalar, Scalar),
) -> Scalar {
    match t.differential_passes {
        None => ph.argument(z.0, z.1),
        Some(passes) => num.difference(
            ph.argument(z.0, z.1),
            ph.reference(w, incidence(sim, key.curve), key.angle, sim.total_d, passes),
        ),
    }
}

/// Computes `phase_value`.
pub fn phase_of_amplitude<A: Numeric, O: Optics>(
    num: &A,
    ph: &O,
    sim: &SimCurves,
    key: MeritKey,
    t: &MeritTarget,
    w: Scalar,
    z: (Scalar, Scalar),
) -> (r: Scalar)
    requires
        num.sound(),
        ph.lawful(),
    ensures
        r == phase_value(*num, *ph, sim, key, *t, w, z),
{
    let a: Scalar = ph.arg(z.0, z.1);
    match t.differential_passes {
        None => a,
        Some(passes) => {
            let n: Scalar = incidence_index(sim, key.curve);
            num.minus(a, ph.reference_phase(w, n, key.angle, sim.total_d, passes))
        },
    }
}

/// What is left of the light: one less reflectance, less transmittance.
pub open spec fn absorbed<A: Numeric>(num: A, r: Scalar, t: Scalar) -> Scalar {
    num.difference(num.difference(Scalar::one(), r), t)
}

/// The simulated value that a demand sees at wavelength `w`.
pub open spec fn raw_value<A: Numeric, O: Optics>(
    num: A,
    ph: O,
    sim: &SimCurves,
    key: MeritKey,
    t: MeritTarget,
    a: int,
    s: SampleRef,
    w: Scalar,
) -> Scalar {
    if t.phase {
        let z = amplitude(num, sim, sim.amplitude(key.curve)->0@, a, s, w);
        phase_value(num, ph, sim, key, t, w, z)
    } else if key.curve.quantity() is Absorbed {
        let r = sim.intensity(companion(key.curve, Quantity::Reflected))->0@;
        let tr = sim.intensity(companion(key.curve, Quantity::Transmitted))->0@;
        absorbed(num, level(num, sim, r, a, s, w), level(num, sim, tr, a, s, w))
    } else {
        level(num, sim, sim.intensity(key.curve)->0@, a, s, w)
    }
}

/// A stored row covers the grid.
pub proof fn rows_cover_the_grid(sim: &SimCurves, id: CurveId)
    requires
        sim.wf(),
    ensures
        sim.intensity(id) matches Some(row) ==> row@.len() == sim.points(),
        sim.amplitude(id) matches Some(row) ==> row@.len() == sim.points(),
{
}

/// The intensity row of a curve that has one.
pub fn intensity_row(sim: &SimCurves, id: CurveId) -> (r: &Vec<Scalar>)
    requires
        sim.wf(),
        sim.intensity(id) is Some,
    ensures
        Some(*r) == sim.intensity(id),
        r@.len() == sim.points(),
{
    proof {
        rows_cover_the_grid(sim, id);
    }
    let row: Option<&Vec<Scalar>> = if id.is_back() {
        sim.back_curve(id)
    } else {
        sim.curve(id)
    };
    row.unwrap()
}

/// The complex row of a curve that has one.
pub fn amplitude_row(sim: &SimCurves, id: CurveId) -> (r: &Vec<(Scalar, Scalar)>)
    requires
        sim.wf(),
        sim.amplitude(id) is Some,
    ensures
        Some(*r) == sim.amplitude(id),
        r@.len() == sim.points(),
{
    proof {
        rows_cover_the_grid(sim, id);
    }
    let row: Option<&Vec<(Scalar, Scalar)>> = if id.is_back() {
        sim.complex_back_curve(id)
    } else {
        sim.complex_curve(id)
    };
    row.unwrap()
}

/// Computes `raw_value`.
pub fn sample_value<A: Numeric, O: Optics>(
    num: &A,
    ph: &O,
    sim: &SimCurves,
    key: MeritKey,
    t: &MeritTarget,
    a: usize,
    s: SampleRef,
    w: Scalar,
) -> (r: Scalar)
    requires
        num.sound(),
        ph.lawful(),
        sim.wf(),
        plan::present(sim, key.curve, t.phase),
        has_point(sim, a as int, s),
    ensures
        r == raw_value(*num, *ph, sim, key, *t, a as int, s, w),
{
    if t.phase {
        let row: &Vec<(Scalar, Scalar)> = amplitude_row(sim, key.curve);
        let z: (Scalar, Scalar) = read_amplitude(num, sim, row, a, s, w);
        phase_of_amplitude(num, ph, sim, key, t, w, z)
    } else {
        match key.curve.absorption_companions() {
            Some((rc, tc)) => {
                let r: &Vec<Scalar> = intensity_row(sim, rc);
                let tr: &Vec<Scalar> = intensity_row(sim, tc);
                let x: Scalar = read_level(num, sim, r, a, s, w);
                let y: Scalar = read_level(num, sim, tr, a, s, w);
                num.minus(num.minus(Scalar::one(), x), y)
            },
            None => read_level(num, sim, intensity_row(sim, key.curve), a, s, w),
        }
    }
}

} // verus!
