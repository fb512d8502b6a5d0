//! How each residual row depends on the simulated curve values.
//!
//! The rows come in the order and number of the residual vector. Phase frames
//! and color demands are not expressed here; their rows are left empty and
//! listed as uncovered.
use crate::merit::formula;
use crate::merit::formula::{
    d_kind_residual, d_transform, intensity_row, place_is_inside, rscale, scaled_diff,
};
use crate::merit::plan;
use crate::merit::plan::{FramePlan, KeyPlan, SampleRef};
use crate::merit::residuals;
use crate::merit::residuals::TOLERANCE_FLOOR_BITS;
use crate::merit::sim::SimCurves;
use crate::merit::spec;
use crate::merit::spec::{MeritKey, MeritSpec, MeritTarget};
use crate::merit::{CurveId, Quantity};
use crate::numeric;
use crate::numeric::{sum_all, Numeric};
use crate::optics::Optics;
use crate::scalar;
use crate::scalar::Scalar;
use vstd::prelude::*;

verus! {

/// The pattern of minus one.
pub const MINUS_ONE_BITS: u64 = 0xBFF0_0000_0000_0000;

/// The derivative of a residual row by one simulated curve value.
#[derive(Clone, Copy, Debug, PartialEq, Eq, Structural)]
pub struct CurveTerm {
    pub curve: CurveId,
    pub angle_row: usize,
    pub wavelength: usize,
    pub d_residual: Scalar,
}

/// The terms of every residual row.
#[derive(Debug)]
pub struct MeritSensitivity {
    pub rows: Vec<Vec<CurveTerm>>,
    /// Rows whose dependence is not expressed.
    pub uncovered: Vec<usize>,
}

impl MeritSensitivity {
    /// Every row's dependence is expressed.
    pub fn is_complete(&self) -> (r: bool)
        ensures
            r == (self.uncovered@.len() == 0),
    {
        self.uncovered.len() == 0
    }
}

/// One curve value a sample reads; `upper` tells the two ends of an interval
/// apart.
pub struct Slot {
    pub curve: CurveId,
    pub wavelength: int,
    pub upper: bool,
}

/// The curves a key reads: its own, or an absorptance's two companions.
pub open spec fn channels_of(curve: CurveId) -> Seq<CurveId> {
    if curve.quantity() is Absorbed {
        seq![
            CurveId::of(Quantity::Reflected, curve.pol(), curve.back()),
            CurveId::of(Quantity::Transmitted, curve.pol(), curve.back()),
        ]
    } else {
        seq![curve]
    }
}

/// The curve values a sample reads, channel by channel.
pub open spec fn slots_of(channels: Seq<CurveId>, s: SampleRef) -> Seq<Slot> {
    match s {
        SampleRef::Direct { at } => Seq::new(
            channels.len(),
            |i: int| Slot { curve: channels[i], wavelength: at as int, upper: false },
        ),
        SampleRef::Between { at } => Seq::new(
            2 * channels.len(),
            |i: int|
                Slot { curve: channels[i / 2], wavelength: at + i % 2, upper: i % 2 == 1 },
        ),
    }
}

/// The first `n` terms that do not vanish.
pub open spec fn kept(slots: Seq<Slot>, ws: Seq<Scalar>, angle_row: usize, n: int) -> Seq<CurveTerm>
    decreases n,
{
    if n <= 0 {
        seq![]
    } else if scalar::same(ws[n - 1], Scalar::zero()) {
        kept(slots, ws, angle_row, n - 1)
    } else {
        kept(slots, ws, angle_row, n - 1).push(
            CurveTerm {
                curve: slots[n - 1].curve,
                angle_row,
                wavelength: slots[n - 1].wavelength as usize,
                d_residual: ws[n - 1],
            },
        )
    }
}

/// The sign with which the curves of a key enter its value.
pub open spec fn entry_sign(channels: Seq<CurveId>) -> Scalar {
    if channels.len() == 2 {
        Scalar { bits: MINUS_ONE_BITS }
    } else {
        Scalar::one()
    }
}

/// The constant that a key's value starts from.
pub open spec fn entry_start(channels: Seq<CurveId>) -> Scalar {
    if channels.len() == 2 {
        Scalar::one()
    } else {
        Scalar::zero()
    }
}

/// How far a sample reads from its lower grid point to the next.
pub open spec fn share_of<A: Numeric>(num: A, sim: &SimCurves, at: int, w: Scalar) -> Scalar {
    formula::fraction(num, sim.wavelengths@[at], sim.wavelengths@[at + 1], w)
}

/// What a sample reads of a row, written as a weighted mean.
pub open spec fn blended<A: Numeric>(
    num: A,
    sim: &SimCurves,
    row: Seq<Scalar>,
    a: int,
    s: SampleRef,
    w: Scalar,
) -> Scalar {
    match s {
        SampleRef::Direct { at } => row[formula::place(sim, a, at as int)],
        SampleRef::Between { at } => {
            let v0 = row[formula::place(sim, a, at as int)];
            let v1 = row[formula::place(sim, a, at + 1)];
            num.sum(v0, num.product(share_of(num, sim, at as int, w), num.difference(v1, v0)))
        },
    }
}

/// What each curve of a key contributes to its value.
pub open spec fn entries<A: Numeric>(
    num: A,
    sim: &SimCurves,
    channels: Seq<CurveId>,
    a: int,
    s: SampleRef,
    w: Scalar,
) -> Seq<Scalar> {
    Seq::new(
        channels.len(),
        |c: int|
            num.product(
                entry_sign(channels),
                blended(num, sim, sim.intensity(channels[c])->0@, a, s, w),
            ),
    )
}

/// The value of a key at a sample: its start and what its curves contribute.
pub open spec fn carried<A: Numeric>(
    num: A,
    sim: &SimCurves,
    channels: Seq<CurveId>,
    a: int,
    s: SampleRef,
    w: Scalar,
) -> Scalar {
    let es = entries(num, sim, channels, a, s, w);
    num.sum(entry_start(channels), numeric::sum_of(num, es, es.len() as int))
}

/// The values of a key at the points of a frame.
pub open spec fn frame_raws<A: Numeric>(
    num: A,
    sim: &SimCurves,
    key: MeritKey,
    t: MeritTarget,
    samples: Seq<SampleRef>,
    a: int,
) -> Seq<Scalar> {
    Seq::new(
        samples.len(),
        |i: int| carried(num, sim, channels_of(key.curve), a, samples[i], t.wavelengths@[i]),
    )
}

/// The scaled differences at those points.
pub open spec fn frame_gaps<A: Numeric, O: Optics>(
    num: A,
    ph: O,
    t: MeritTarget,
    xs: Seq<Scalar>,
) -> Seq<Scalar> {
    Seq::new(
        xs.len(),
        |i: int|
            formula::scaled_gap(
                num,
                ph,
                t.transform,
                t.norm_factor,
                xs[i],
                t.normalized_targets@[i],
            ),
    )
}

/// The sum of a list over the number of points.
pub open spec fn mean_over<A: Numeric>(num: A, xs: Seq<Scalar>, n: nat) -> Scalar {
    num.quotient(numeric::sum_of(num, xs, xs.len() as int), num.whole(n as usize))
}

/// The slope of a frame's residual by the value at a point, the difference,
/// tolerance and band that the residual is taken at being `at`.
pub open spec fn point_slope<A: Numeric>(
    num: A,
    t: MeritTarget,
    at: (Scalar, Scalar, Scalar),
    x: Scalar,
) -> Scalar {
    num.product(
        num.product(
            formula::frame_scale(num, t),
            formula::residual_slope(num, t.kind, at.0, at.1, at.2),
        ),
        formula::transform_slope(num, t.transform, x, t.norm_factor),
    )
}

/// The share of one curve value in a slope.
pub open spec fn weight_of<A: Numeric>(
    num: A,
    sim: &SimCurves,
    channels: Seq<CurveId>,
    s: SampleRef,
    w: Scalar,
    slope: Scalar,
    upper: bool,
) -> Scalar {
    let whole = num.product(slope, entry_sign(channels));
    match s {
        SampleRef::Direct { at } => whole,
        SampleRef::Between { at } => {
            let f = share_of(num, sim, at as int, w);
            num.product(
                whole,
                if upper {
                    f
                } else {
                    num.difference(Scalar::one(), f)
                },
            )
        },
    }
}

/// The shares of all the curve values that a sample reads.
pub open spec fn weights_of<A: Numeric>(
    num: A,
    sim: &SimCurves,
    channels: Seq<CurveId>,
    s: SampleRef,
    w: Scalar,
    slope: Scalar,
) -> Seq<Scalar> {
    let slots = slots_of(channels, s);
    Seq::new(
        slots.len(),
        |j: int| weight_of(num, sim, channels, s, w, slope, slots[j].upper),
    )
}

/// The terms of a point for a slope: none where the slope is zero.
pub open spec fn point_terms<A: Numeric>(
    num: A,
    sim: &SimCurves,
    channels: Seq<CurveId>,
    angle_row: usize,
    s: SampleRef,
    w: Scalar,
    slope: Scalar,
) -> Seq<CurveTerm> {
    if scalar::same(slope, Scalar::zero()) {
        seq![]
    } else {
        let ws = weights_of(num, sim, channels, s, w, slope);
        kept(slots_of(channels, s), ws, angle_row, ws.len() as int)
    }
}

/// The terms of the first points, one after the other.
pub open spec fn terms_joined(parts: Seq<Seq<CurveTerm>>) -> Seq<CurveTerm>
    decreases parts.len(),
{
    if parts.len() == 0 {
        seq![]
    } else {
        terms_joined(parts.drop_last()) + parts.last()
    }
}

/// The terms of each point of a frame. Those of a mean are all taken at the
/// means, and divided by the number of points.
pub open spec fn parts_of<A: Numeric, O: Optics>(
    num: A,
    ph: O,
    sim: &SimCurves,
    key: MeritKey,
    t: MeritTarget,
    samples: Seq<SampleRef>,
    angle_row: usize,
) -> Seq<Seq<CurveTerm>> {
    let xs = frame_raws(num, sim, key, t, samples, angle_row as int);
    let ds = frame_gaps(num, ph, t, xs);
    let n = t.wavelengths@.len();
    Seq::new(
        samples.len(),
        |i: int|
            {
                let slope = if t.integral {
                    num.quotient(
                        point_slope(
                            num,
                            t,
                            (
                                mean_over(num, ds, n),
                                scalar::greater(
                                    mean_over(num, t.tolerances@, n),
                                    Scalar { bits: TOLERANCE_FLOOR_BITS },
                                ),
                                mean_over(num, t.band@, n),
                            ),
                            xs[i],
                        ),
                        num.whole(n as usize),
                    )
                } else {
                    point_slope(
                        num,
                        t,
                        (ds[i], t.tolerances@[i], residuals::band_at(t, i)),
                        xs[i],
                    )
                };
                point_terms(
                    num,
                    sim,
                    channels_of(key.curve),
                    angle_row,
                    samples[i],
                    t.wavelengths@[i],
                    slope,
                )
            },
    )
}

/// The sensitivity rows of one frame; those of a phase frame are empty.
pub open spec fn frame_rows<A: Numeric, O: Optics>(
    num: A,
    ph: O,
    sim: &SimCurves,
    key: MeritKey,
    t: MeritTarget,
    samples: Seq<SampleRef>,
    angle_row: usize,
) -> Seq<Seq<CurveTerm>> {
    let parts = parts_of(num, ph, sim, key, t, samples, angle_row);
    if t.phase {
        Seq::new(spec::target_rows(t), |i: int| Seq::<CurveTerm>::empty())
    } else if t.integral {
        seq![terms_joined(parts)]
    } else {
        parts
    }
}

/// The terms of each row.
pub open spec fn row_views(rows: Seq<Vec<CurveTerm>>) -> Seq<Seq<CurveTerm>> {
    rows.map_values(|v: Vec<CurveTerm>| v@)
}

/// The row numbers from `from` on, `n` of them.
pub open spec fn numbers(from: int, n: nat) -> Seq<usize> {
    Seq::new(n, |i: int| (from + i) as usize)
}

/// The uncovered rows of the first `n` frames when the first row is `base`:
/// those of the phase frames.
pub open spec fn uncovered_frames(
    ts: Seq<MeritTarget>,
    frames: Seq<int>,
    base: int,
    n: int,
) -> Seq<usize>
    decreases n,
{
    if n <= 0 {
        seq![]
    } else {
        let before = uncovered_frames(ts, frames, base, n - 1);
        let t = ts[frames[n - 1]];
        if t.phase {
            before + numbers(
                base + plan::rows_of_frames(ts, frames, n - 1),
                spec::target_rows(t),
            )
        } else {
            before
        }
    }
}

/// The uncovered rows of key group `k` when its first row is `base`: phase
/// frames and color demands.
pub open spec fn uncovered_of(spec: &MeritSpec, sim: &SimCurves, k: int, base: int) -> Seq<usize> {
    let ts = spec.target_seq();
    let frames = plan::frames_of(ts, sim.wavelengths@, k, ts.len() as int);
    uncovered_frames(ts, frames, base, frames.len() as int) + numbers(
        base + plan::rows_of_frames(ts, frames, frames.len() as int),
        plan::colors_of(spec.color_seq(), k, spec.color_seq().len() as int).len(),
    )
}

/// The sensitivity rows of the first `n` frames of a plan.
pub open spec fn chunks_of<A: Numeric, O: Optics>(
    num: A,
    ph: O,
    spec: &MeritSpec,
    sim: &SimCurves,
    k: int,
    p: &KeyPlan,
    n: int,
) -> Seq<Seq<Seq<CurveTerm>>> {
    Seq::new(
        n as nat,
        |g: int|
            frame_rows(
                num,
                ph,
                sim,
                spec.key_seq()[k],
                spec.target_seq()[p.frames@[g].target as int],
                p.frames@[g].samples@,
                p.angle_row,
            ),
    )
}

/// The chunks one after the other.
pub open spec fn rows_joined(chunks: Seq<Seq<Seq<CurveTerm>>>) -> Seq<Seq<CurveTerm>>
    decreases chunks.len(),
{
    if chunks.len() == 0 {
        seq![]
    } else {
        rows_joined(chunks.drop_last()) + chunks.last()
    }
}

/// `rows` are the sensitivity rows of key group `k`; those of its color
/// demands are empty.
pub open spec fn key_rows_are<A: Numeric, O: Optics>(
    num: A,
    ph: O,
    spec: &MeritSpec,
    sim: &SimCurves,
    k: int,
    rows: Seq<Seq<CurveTerm>>,
) -> bool {
    &&& plan::readable(spec, sim, k)
    &&& rows.len() == plan::key_rows(spec, sim, k)
    &&& exists|p: KeyPlan|
        {
            &&& #[trigger] plan::planned(num, spec, sim, k, &p)
            &&& rows == rows_joined(chunks_of(num, ph, spec, sim, k, &p, p.frames@.len() as int))
                + Seq::new(p.colors@.len(), |i: int| Seq::<CurveTerm>::empty())
        }
}

/// A key group has one list of sensitivity rows.
pub proof fn sensitivity_is_settled<A: Numeric, O: Optics>(
    num: A,
    ph: O,
    spec: &MeritSpec,
    sim: &SimCurves,
    k: int,
    a: Seq<Seq<CurveTerm>>,
    b: Seq<Seq<CurveTerm>>,
)
    requires
        key_rows_are(num, ph, spec, sim, k, a),
        key_rows_are(num, ph, spec, sim, k, b),
    ensures
        a == b,
{
    let p = choose|p: KeyPlan|
        {
            &&& #[trigger] plan::planned(num, spec, sim, k, &p)
            &&& a == rows_joined(chunks_of(num, ph, spec, sim, k, &p, p.frames@.len() as int))
                + Seq::new(p.colors@.len(), |i: int| Seq::<CurveTerm>::empty())
        };
    let q = choose|p: KeyPlan|
        {
            &&& #[trigger] plan::planned(num, spec, sim, k, &p)
            &&& b == rows_joined(chunks_of(num, ph, spec, sim, k, &p, p.frames@.len() as int))
                + Seq::new(p.colors@.len(), |i: int| Seq::<CurveTerm>::empty())
        };
    plan::a_plan_is_settled(num, spec, sim, k, p, q);
    let u = chunks_of(num, ph, spec, sim, k, &p, p.frames@.len() as int);
    let v = chunks_of(num, ph, spec, sim, k, &q, q.frames@.len() as int);
    assert forall|g: int| 0 <= g < u.len() implies u[g] == v[g] by {
        assert(p.frames@[g].target == q.frames@[g].target);
    }
    assert(u =~= v);
}

/// Appends the terms of one point.
fn push_terms<A: Numeric>(
    num: &A,
    sim: &SimCurves,
    terms: &mut Vec<CurveTerm>,
    channels: &Vec<CurveId>,
    angle_row: usize,
    s: SampleRef,
    w: Scalar,
    slope: Scalar,
)
    requires
        num.sound(),
        plan::on_grid(s, sim.wavelengths@.len() as int),
        channels@.len() <= 2,
    ensures
        final(terms)@ == old(terms)@ + point_terms(
            *num,
            sim,
            channels@,
            angle_row,
            s,
            w,
            slope,
        ),
{
    let ghost base = terms@;
    if slope.same_value(Scalar::zero()) {
        assert(terms@ =~= base + Seq::<CurveTerm>::empty());
        return;
    }
    let sign: Scalar = if channels.len() == 2 {
        Scalar { bits: MINUS_ONE_BITS }
    } else {
        Scalar::one()
    };
    let whole: Scalar = num.times(slope, sign);
    let points: usize = sim.wavelengths.len();
    let ghost slots = slots_of(channels@, s);
    let ghost ws = weights_of(*num, sim, channels@, s, w, slope);
    let ghost mut done: int = 0;
    let mut c: usize = 0;
    assert(terms@ =~= base + kept(slots, ws, angle_row, 0));
    while c < channels.len()
        invariant
            c <= channels.len() <= 2,
            num.sound(),
            points == sim.wavelengths@.len(),
            plan::on_grid(s, points as int),
            whole == num.product(slope, entry_sign(channels@)),
            slots == slots_of(channels@, s),
            ws == weights_of(*num, sim, channels@, s, w, slope),
            done == (match s {
                SampleRef::Direct { at } => c as int,
                SampleRef::Between { at } => 2 * c,
            }),
            terms@ == base + kept(slots, ws, angle_row, done),
        decreases channels.len() - c,
    {
        let curve: CurveId = channels[c];
        match s {
            SampleRef::Direct { at } => {
                assert(slots[c as int] == (Slot { curve, wavelength: at as int, upper: false }));
                assert(ws[done] == whole);
                if !whole.same_value(Scalar::zero()) {
                    terms.push(CurveTerm { curve, angle_row, wavelength: at, d_residual: whole });
                }
                proof {
                    done = done + 1;
                }
                assert(terms@ =~= base + kept(slots, ws, angle_row, done));
            },
            SampleRef::Between { at } => {
                let w0: Scalar = sim.wavelengths[at];
                let w1: Scalar = sim.wavelengths[at + 1];
                let f: Scalar = num.over(num.minus(w, w0), num.minus(w1, w0));
                let lo: Scalar = num.times(whole, num.minus(Scalar::one(), f));
                let hi: Scalar = num.times(whole, f);
                assert(slots[2 * c] == (Slot { curve, wavelength: at as int, upper: false }));
                assert(slots[2 * c + 1] == (Slot { curve, wavelength: at + 1, upper: true }));
                assert(ws[done] == lo && ws[done + 1] == hi);
                if !lo.same_value(Scalar::zero()) {
                    terms.push(CurveTerm { curve, angle_row, wavelength: at, d_residual: lo });
                }
                assert(terms@ =~= base + kept(slots, ws, angle_row, done + 1));
                if !hi.same_value(Scalar::zero()) {
                    terms.push(CurveTerm { curve, angle_row, wavelength: at + 1, d_residual: hi });
                }
                proof {
                    done = done + 2;
                }
                assert(terms@ =~= base + kept(slots, ws, angle_row, done));
            },
        }
        c += 1;
    }
}

fn channel_list(curve: CurveId) -> (r: Vec<CurveId>)
    ensures
        r@ == channels_of(curve),
{
    let mut v: Vec<CurveId> = Vec::new();
    match curve.absorption_companions() {
        Some(pair) => {
            v.push(pair.0);
            v.push(pair.1);
        },
        None => {
            v.push(curve);
        },
    }
    assert(v@ =~= channels_of(curve));
    v
}

/// Computes `blended`.
fn read_blend<A: Numeric>(
    num: &A,
    sim: &SimCurves,
    row: &Vec<Scalar>,
    a: usize,
    s: SampleRef,
    w: Scalar,
) -> (r: Scalar)
    requires
        num.sound(),
        row@.len() == sim.points(),
        formula::has_point(sim, a as int, s),
    ensures
        r == blended(*num, sim, row@, a as int, s, w),
{
    let n: usize = sim.wavelengths.len();
    let size: usize = row.len();
    assert(size == sim.points());
    match s {
        SampleRef::Direct { at } => {
            proof {
                place_is_inside(sim, a as int, at as int);
            }
            row[a * n + at]
        },
        SampleRef::Between { at } => {
            proof {
                place_is_inside(sim, a as int, at as int);
                place_is_inside(sim, a as int, at + 1);
            }
            let w0: Scalar = sim.wavelengths[at];
            let w1: Scalar = sim.wavelengths[at + 1];
            let f: Scalar = num.over(num.minus(w, w0), num.minus(w1, w0));
            let v0: Scalar = row[a * n + at];
            let v1: Scalar = row[a * n + at + 1];
            num.plus(v0, num.times(f, num.minus(v1, v0)))
        },
    }
}

/// Computes `carried`.
fn carried_value<A: Numeric>(
    num: &A,
    sim: &SimCurves,
    channels: &Vec<CurveId>,
    a: usize,
    s: SampleRef,
    w: Scalar,
) -> (r: Scalar)
    requires
        num.sound(),
        sim.wf(),
        formula::has_point(sim, a as int, s),
        forall|c: int| 0 <= c < channels@.len() ==> sim.intensity(#[trigger] channels@[c]) is Some,
    ensures
        r == carried(*num, sim, channels@, a as int, s, w),
{
    let two: bool = channels.len() == 2;
    let sign: Scalar = if two {
        Scalar { bits: MINUS_ONE_BITS }
    } else {
        Scalar::one()
    };
    let start: Scalar = if two {
        Scalar::one()
    } else {
        Scalar::zero()
    };
    let ghost want = entries(*num, sim, channels@, a as int, s, w);
    let mut es: Vec<Scalar> = Vec::new();
    let mut c: usize = 0;
    while c < channels.len()
        invariant
            c <= channels.len(),
            num.sound(),
            sim.wf(),
            formula::has_point(sim, a as int, s),
            sign == entry_sign(channels@),
            forall|c: int|
                0 <= c < channels@.len() ==> sim.intensity(#[trigger] channels@[c]) is Some,
            want == entries(*num, sim, channels@, a as int, s, w),
            es@ == want.take(c as int),
        decreases channels.len() - c,
    {
        let row: &Vec<Scalar> = intensity_row(sim, channels[c]);
        es.push(num.times(sign, read_blend(num, sim, row, a, s, w)));
        c += 1;
        assert(es@ =~= want.take(c as int));
    }
    assert(es@ =~= want);
    num.plus(start, sum_all(num, &es))
}

/// Computes `point_slope`.
fn slope_at<A: Numeric>(num: &A, t: &MeritTarget, at: (Scalar, Scalar, Scalar), x: Scalar) -> (r:
    Scalar)
    requires
        num.sound(),
    ensures
        r == point_slope(*num, *t, at, x),
{
    let dk: Scalar = d_kind_residual(num, t.kind, at.0, at.1, at.2);
    let dt: Scalar = d_transform(num, t.transform, x, t.norm_factor);
    num.times(num.times(rscale(num, t), dk), dt)
}

/// The values of a frame's points and their scaled differences.
fn frame_points<A: Numeric, O: Optics>(
    num: &A,
    ph: &O,
    sim: &SimCurves,
    key: MeritKey,
    t: &MeritTarget,
    f: &FramePlan,
    angle_row: usize,
    channels: &Vec<CurveId>,
) -> (r: (Vec<Scalar>, Vec<Scalar>))
    requires
        num.sound(),
        ph.lawful(),
        sim.wf(),
        angle_row < sim.angles@.len(),
        channels@ == channels_of(key.curve),
        forall|c: int| 0 <= c < channels@.len() ==> sim.intensity(#[trigger] channels@[c]) is Some,
        f.samples@.len() == t.wavelengths@.len(),
        t.normalized_targets@.len() == t.wavelengths@.len(),
        forall|j: int|
            0 <= j < f.samples@.len() ==> plan::on_grid(
                #[trigger] f.samples@[j],
                sim.wavelengths@.len() as int,
            ),
    ensures
        r.0@ == frame_raws(*num, sim, key, *t, f.samples@, angle_row as int),
        r.1@ == frame_gaps(*num, *ph, *t, r.0@),
{
    let ghost want = frame_raws(*num, sim, key, *t, f.samples@, angle_row as int);
    let ghost gaps = frame_gaps(*num, *ph, *t, want);
    let mut xs: Vec<Scalar> = Vec::with_capacity(f.samples.len());
    let mut ds: Vec<Scalar> = Vec::with_capacity(f.samples.len());
    let mut i: usize = 0;
    while i < f.samples.len()
        invariant
            i <= f.samples.len(),
            num.sound(),
            ph.lawful(),
            sim.wf(),
            angle_row < sim.angles@.len(),
            channels@ == channels_of(key.curve),
            forall|c: int|
                0 <= c < channels@.len() ==> sim.intensity(#[trigger] channels@[c]) is Some,
            f.samples@.len() == t.wavelengths@.len(),
            t.normalized_targets@.len() == t.wavelengths@.len(),
            forall|j: int|
                0 <= j < f.samples@.len() ==> plan::on_grid(
                    #[trigger] f.samples@[j],
                    sim.wavelengths@.len() as int,
                ),
            want == frame_raws(*num, sim, key, *t, f.samples@, angle_row as int),
            gaps == frame_gaps(*num, *ph, *t, want),
            xs@ == want.take(i as int),
            ds@ == gaps.take(i as int),
        decreases f.samples.len() - i,
    {
        let x: Scalar = carried_value(
            num,
            sim,
            channels,
            angle_row,
            f.samples[i],
            t.wavelengths[i],
        );
        let d: Scalar = scaled_diff(
            num,
            ph,
            t.transform,
            t.norm_factor,
            x,
            t.normalized_targets[i],
        );
        xs.push(x);
        ds.push(d);
        i += 1;
        assert(xs@ =~= want.take(i as int));
        assert(ds@ =~= gaps.take(i as int));
    }
    assert(xs@ =~= want);
    assert(ds@ =~= gaps);
    (xs, ds)
}

/// The sensitivity rows of one frame.
fn frame_sensitivity<A: Numeric, O: Optics>(
    num: &A,
    ph: &O,
    sim: &SimCurves,
    key: MeritKey,
    t: &MeritTarget,
    f: &FramePlan,
    angle_row: usize,
) -> (r: Vec<Vec<CurveTerm>>)
    requires
        num.sound(),
        ph.lawful(),
        sim.wf(),
        !t.phase,
        plan::present(sim, key.curve, false),
        angle_row < sim.angles@.len(),
        f.samples@.len() == t.wavelengths@.len(),
        t.normalized_targets@.len() == t.wavelengths@.len(),
        t.tolerances@.len() == t.wavelengths@.len(),
        t.band@.len() == 0 || t.band@.len() == t.wavelengths@.len(),
        forall|j: int|
            0 <= j < f.samples@.len() ==> plan::on_grid(
                #[trigger] f.samples@[j],
                sim.wavelengths@.len() as int,
            ),
    ensures
        row_views(r@) == frame_rows(*num, *ph, sim, key, *t, f.samples@, angle_row),
{
    let channels: Vec<CurveId> = channel_list(key.curve);
    let (xs, ds) = frame_points(num, ph, sim, key, t, f, angle_row, &channels);
    let ghost parts = parts_of(*num, *ph, sim, key, *t, f.samples@, angle_row);
    let n: usize = t.wavelengths.len();
    let count: Scalar = num.count(n);
    let mut rows: Vec<Vec<CurveTerm>> = Vec::new();
    let mut i: usize = 0;
    if t.integral {
        let d: Scalar = num.over(sum_all(num, &ds), count);
        let tol: Scalar = num.over(sum_all(num, &t.tolerances), count).max(
            Scalar { bits: TOLERANCE_FLOOR_BITS },
        );
        let bw: Scalar = num.over(sum_all(num, &t.band), count);
        let ghost at = (
            mean_over(*num, ds@, n as nat),
            scalar::greater(
                mean_over(*num, t.tolerances@, n as nat),
                Scalar { bits: TOLERANCE_FLOOR_BITS },
            ),
            mean_over(*num, t.band@, n as nat),
        );
        let mut terms: Vec<CurveTerm> = Vec::new();
        assert(parts.take(0) =~= seq![]);
        while i < xs.len()
            invariant
                i <= xs.len() == f.samples@.len() == t.wavelengths@.len() == n,
                num.sound(),
                t.integral,
                channels@ == channels_of(key.curve),
                channels@.len() <= 2,
                xs@ == frame_raws(*num, sim, key, *t, f.samples@, angle_row as int),
                ds@ == frame_gaps(*num, *ph, *t, xs@),
                at == (d, tol, bw),
                at == (
                    mean_over(*num, ds@, n as nat),
                    scalar::greater(
                        mean_over(*num, t.tolerances@, n as nat),
                        Scalar { bits: TOLERANCE_FLOOR_BITS },
                    ),
                    mean_over(*num, t.band@, n as nat),
                ),
                count == num.whole(n),
                forall|j: int|
                    0 <= j < f.samples@.len() ==> plan::on_grid(
                        #[trigger] f.samples@[j],
                        sim.wavelengths@.len() as int,
                    ),
                parts == parts_of(*num, *ph, sim, key, *t, f.samples@, angle_row),
                terms@ == terms_joined(parts.take(i as int)),
            decreases xs.len() - i,
        {
            let v: Scalar = num.over(slope_at(num, t, (d, tol, bw), xs[i]), count);
            push_terms(
                num,
                sim,
                &mut terms,
                &channels,
                angle_row,
                f.samples[i],
                t.wavelengths[i],
                v,
            );
            proof {
                let head = parts.take(i as int);
                assert(parts.take(i + 1).drop_last() =~= head);
                assert(parts.take(i + 1).last() == parts[i as int]);
            }
            i += 1;
        }
        assert(parts.take(i as int) =~= parts);
        let ghost tv = terms@;
        rows.push(terms);
        assert(row_views(rows@) =~= seq![tv]);
        return rows;
    }
    while i < xs.len()
        invariant
            i <= xs.len() == f.samples@.len() == t.wavelengths@.len(),
            xs.len() == ds.len() == t.tolerances@.len(),
            num.sound(),
            !t.integral,
            channels@ == channels_of(key.curve),
            channels@.len() <= 2,
            xs@ == frame_raws(*num, sim, key, *t, f.samples@, angle_row as int),
            ds@ == frame_gaps(*num, *ph, *t, xs@),
            forall|j: int|
                0 <= j < f.samples@.len() ==> plan::on_grid(
                    #[trigger] f.samples@[j],
                    sim.wavelengths@.len() as int,
                ),
            parts == parts_of(*num, *ph, sim, key, *t, f.samples@, angle_row),
            row_views(rows@) == parts.take(i as int),
        decreases xs.len() - i,
    {
        let bw: Scalar = if i < t.band.len() {
            t.band[i]
        } else {
            Scalar::zero()
        };
        let v: Scalar = slope_at(num, t, (ds[i], t.tolerances[i], bw), xs[i]);
        let mut terms: Vec<CurveTerm> = Vec::new();
        push_terms(
            num,
            sim,
            &mut terms,
            &channels,
            angle_row,
            f.samples[i],
            t.wavelengths[i],
            v,
        );
        let ghost before = row_views(rows@);
        assert(terms@ =~= parts[i as int]);
        let ghost tv = terms@;
        rows.push(terms);
        i += 1;
        assert(row_views(rows@) =~= before.push(tv));
        assert(row_views(rows@) =~= parts.take(i as int));
    }
    assert(row_views(rows@) =~= parts);
    rows
}

proof fn rows_joined_push(chunks: Seq<Seq<Seq<CurveTerm>>>, c: Seq<Seq<CurveTerm>>)
    ensures
        rows_joined(chunks.push(c)) == rows_joined(chunks) + c,
{
    assert(chunks.push(c).drop_last() =~= chunks);
}

proof fn numbers_push(from: int, n: nat)
    ensures
        numbers(from, n + 1) == numbers(from, n).push((from + n) as usize),
{
    assert(numbers(from, n + 1) =~= numbers(from, n).push((from + n) as usize));
}

/// Appends `n` empty rows and marks them uncovered.
fn push_uncovered(out: &mut MeritSensitivity, n: usize)
    ensures
        row_views(final(out).rows@) == row_views(old(out).rows@) + Seq::new(
            n as nat,
            |i: int| Seq::<CurveTerm>::empty(),
        ),
        final(out).uncovered@ == old(out).uncovered@ + numbers(
            old(out).rows@.len() as int,
            n as nat,
        ),
{
    let ghost rows0 = row_views(out.rows@);
    let ghost unc0 = out.uncovered@;
    let ghost base = out.rows@.len() as int;
    let mut i: usize = 0;
    assert(rows0 + Seq::new(0, |i: int| Seq::<CurveTerm>::empty()) =~= rows0);
    assert(unc0 + numbers(base, 0) =~= unc0);
    while i < n
        invariant
            i <= n,
            base == rows0.len(),
            out.rows@.len() == base + i,
            row_views(out.rows@) == rows0 + Seq::new(
                i as nat,
                |i: int| Seq::<CurveTerm>::empty(),
            ),
            out.uncovered@ == unc0 + numbers(base, i as nat),
        decreases n - i,
    {
        let ghost before = row_views(out.rows@);
        let at: usize = out.rows.len();
        out.uncovered.push(at);
        out.rows.push(Vec::new());
        proof {
            numbers_push(base, i as nat);
            assert(out.rows@.last()@ =~= Seq::<CurveTerm>::empty());
            assert(row_views(out.rows@) =~= before.push(Seq::empty()));
            assert(row_views(out.rows@) =~= rows0 + Seq::new(
                (i + 1) as nat,
                |i: int| Seq::<CurveTerm>::empty(),
            ));
            assert(out.uncovered@ =~= unc0 + numbers(base, (i + 1) as nat));
        }
        i += 1;
    }
}

impl MeritSpec {
    /// Appends the sensitivity rows of one key group, in residual order; a
    /// missing row changes nothing and answers with the key's curve.
    pub fn curve_sensitivity_into<A: Numeric, O: Optics>(
        &self,
        num: &A,
        ph: &O,
        sim: &SimCurves,
        key_idx: usize,
        out: &mut MeritSensitivity,
    ) -> (r: Result<(), CurveId>)
        requires
            residuals::evaluable(self, sim),
            key_idx < self.key_seq().len(),
            num.sound(),
            ph.lawful(),
        ensures
            match r {
                Ok(_) => exists|rows: Seq<Seq<CurveTerm>>|
                    {
                        &&& #[trigger] key_rows_are(*num, *ph, self, sim, key_idx as int, rows)
                        &&& row_views(final(out).rows@) == row_views(old(out).rows@) + rows
                        &&& final(out).uncovered@ == old(out).uncovered@ + uncovered_of(
                            self,
                            sim,
                            key_idx as int,
                            old(out).rows@.len() as int,
                        )
                    },
                Err(c) => {
                    &&& c == self.key_seq()[key_idx as int].curve
                    &&& !plan::readable(self, sim, key_idx as int)
                    &&& *final(out) == *old(out)
                },
            },
    {
        let ghost k = key_idx as int;
        let key: MeritKey = self.keys()[key_idx];
        let p: KeyPlan = match self.plan_key(num, sim, key_idx) {
            Ok(p) => p,
            Err(c) => {
                return Err(c);
            },
        };
        let ghost ts = self.target_seq();
        let ghost frames = plan::frames_of(ts, sim.wavelengths@, k, ts.len() as int);
        let ghost rows0 = row_views(out.rows@);
        let ghost unc0 = out.uncovered@;
        let ghost base = out.rows@.len() as int;
        let ghost mut chunks: Seq<Seq<Seq<CurveTerm>>> = chunks_of(*num, *ph, self, sim, k, &p, 0);
        let targets: &Vec<MeritTarget> = self.targets();
        let mut g: usize = 0;
        assert(chunks =~= seq![]);
        assert(rows0 + rows_joined(chunks) =~= rows0);
        assert(unc0 + uncovered_frames(ts, frames, base, 0) =~= unc0);
        while g < p.frames.len()
            invariant
                g <= p.frames.len(),
                k == key_idx,
                residuals::evaluable(self, sim),
                num.sound(),
                ph.lawful(),
                ts == self.target_seq(),
                targets@ == ts,
                key == self.key_seq()[k],
                plan::readable(self, sim, k),
                frames == plan::frames_of(ts, sim.wavelengths@, k, ts.len() as int),
                plan::planned(*num, self, sim, k, &p),
                chunks == chunks_of(*num, *ph, self, sim, k, &p, g as int),
                base == rows0.len(),
                row_views(out.rows@) == rows0 + rows_joined(chunks),
                rows_joined(chunks).len() == plan::rows_of_frames(ts, frames, g as int),
                out.uncovered@ == unc0 + uncovered_frames(ts, frames, base, g as int),
            decreases p.frames.len() - g,
        {
            let f: &FramePlan = &p.frames[g];
            let t: &MeritTarget = &targets[f.target];
            let ghost before = row_views(out.rows@);
            let ghost unc1 = out.uncovered@;
            proof {
                assert(p.frames@[g as int].target == frames[g as int]);
                assert(*t == ts[f.target as int]);
                assert(spec::target_fault(self.key_seq(), ts[f.target as int]) is None);
                assert(before.len() == out.rows@.len());
                plan::frames_are_covered(ts, sim.wavelengths@, k, ts.len() as int, g as int);
                assert(plan::present(sim, key.curve, t.phase));
                crate::nearest::nearest_is_inside(
                    *num,
                    sim.angles@,
                    key.angle,
                    p.angle_row as int,
                );
            }
            if t.phase {
                let n: usize = if t.integral {
                    1
                } else {
                    t.wavelengths.len()
                };
                push_uncovered(out, n);
                proof {
                    let chunk = Seq::new(n as nat, |i: int| Seq::<CurveTerm>::empty());
                    assert(chunk =~= frame_rows(
                        *num,
                        *ph,
                        sim,
                        key,
                        *t,
                        f.samples@,
                        p.angle_row,
                    ));
                    rows_joined_push(chunks, chunk);
                    assert(chunks.push(chunk) =~= chunks_of(
                        *num,
                        *ph,
                        self,
                        sim,
                        k,
                        &p,
                        g + 1,
                    ));
                    chunks = chunks.push(chunk);
                    assert(row_views(out.rows@) =~= rows0 + rows_joined(chunks));
                    assert(out.uncovered@ =~= unc0 + uncovered_frames(
                        ts,
                        frames,
                        base,
                        g + 1,
                    ));
                }
            } else {
                let mut rows: Vec<Vec<CurveTerm>> = frame_sensitivity(
                    num,
                    ph,
                    sim,
                    key,
                    t,
                    f,
                    p.angle_row,
                );
                let ghost rs = rows@;
                proof {
                    rows_joined_push(chunks, row_views(rs));
                    assert(chunks.push(row_views(rs)) =~= chunks_of(
                        *num,
                        *ph,
                        self,
                        sim,
                        k,
                        &p,
                        g + 1,
                    ));
                    chunks = chunks.push(row_views(rs));
                }
                out.rows.append(&mut rows);
                proof {
                    assert(row_views(out.rows@) =~= before + row_views(rs));
                    assert(row_views(out.rows@) =~= rows0 + rows_joined(chunks));
                }
            }
            g += 1;
        }
        let ghost mid = row_views(out.rows@);
        assert(mid.len() == out.rows@.len());
        push_uncovered(out, p.colors.len());
        proof {
            let rows = rows_joined(chunks) + Seq::new(
                p.colors@.len(),
                |i: int| Seq::<CurveTerm>::empty(),
            );
            assert(row_views(out.rows@) =~= rows0 + rows);
            assert(key_rows_are(*num, *ph, self, sim, k, rows));
            assert(out.uncovered@ =~= unc0 + uncovered_of(self, sim, k, base));
        }
        Ok(())
    }

    /// The sensitivity rows of all key groups, or the curve of the first
    /// group that lacks a row.
    pub fn curve_sensitivity<A: Numeric, O: Optics>(
        &self,
        num: &A,
        ph: &O,
        sim: &SimCurves,
    ) -> (r: Result<MeritSensitivity, CurveId>)
        requires
            residuals::evaluable(self, sim),
            num.sound(),
            ph.lawful(),
        ensures
            match r {
                Ok(s) => {
                    &&& exists|parts: Seq<Seq<Seq<CurveTerm>>>|
                        {
                            &&& #[trigger] all_rows_are(*num, *ph, self, sim, parts)
                            &&& row_views(s.rows@) == rows_joined(parts)
                        }
                    &&& s.rows@.len() == residuals::rows_of_keys(
                        self,
                        sim,
                        self.key_seq().len() as int,
                    )
                    &&& s.uncovered@ == uncovered_keys(self, sim, self.key_seq().len() as int)
                },
                Err(c) => first_unreadable(self, sim, c),
            },
    {
        let mut s: MeritSensitivity = MeritSensitivity { rows: Vec::new(), uncovered: Vec::new() };
        let ghost mut parts: Seq<Seq<Seq<CurveTerm>>> = seq![];
        let n: usize = self.key_count();
        let mut k: usize = 0;
        assert(row_views(s.rows@) =~= rows_joined(parts));
        while k < n
            invariant
                k <= n == self.key_seq().len(),
                residuals::evaluable(self, sim),
                num.sound(),
                ph.lawful(),
                parts.len() == k,
                forall|j: int|
                    0 <= j < k ==> key_rows_are(*num, *ph, self, sim, j, #[trigger] parts[j]),
                forall|j: int| 0 <= j < k ==> #[trigger] plan::readable(self, sim, j),
                row_views(s.rows@) == rows_joined(parts),
                s.rows@.len() == residuals::rows_of_keys(self, sim, k as int),
                s.uncovered@ == uncovered_keys(self, sim, k as int),
            decreases n - k,
        {
            let ghost before = row_views(s.rows@);
            let ghost len0 = s.rows@.len();
            match self.curve_sensitivity_into(num, ph, sim, k, &mut s) {
                Ok(_) => {
                    proof {
                        let rows = choose|rows: Seq<Seq<CurveTerm>>|
                            key_rows_are(*num, *ph, self, sim, k as int, rows) && row_views(s.rows@)
                                == before + rows;
                        rows_joined_push(parts, rows);
                        parts = parts.push(rows);
                        assert(row_views(s.rows@).len() == s.rows@.len());
                        assert(before.len() == len0);
                    }
                },
                Err(c) => {
                    return Err(c);
                },
            }
            k += 1;
        }
        assert(all_rows_are(*num, *ph, self, sim, parts));
        Ok(s)
    }
}

/// `parts` are the sensitivity rows of all key groups.
pub open spec fn all_rows_are<A: Numeric, O: Optics>(
    num: A,
    ph: O,
    spec: &MeritSpec,
    sim: &SimCurves,
    parts: Seq<Seq<Seq<CurveTerm>>>,
) -> bool {
    &&& parts.len() == spec.key_seq().len()
    &&& forall|k: int|
        0 <= k < parts.len() ==> key_rows_are(num, ph, spec, sim, k, #[trigger] parts[k])
}

/// The first key group that lacks a row is one of curve `c`.
pub open spec fn first_unreadable(spec: &MeritSpec, sim: &SimCurves, c: CurveId) -> bool {
    exists|k: int|
        {
            &&& 0 <= k < spec.key_seq().len()
            &&& !#[trigger] plan::readable(spec, sim, k)
            &&& c == spec.key_seq()[k].curve
            &&& forall|j: int| 0 <= j < k ==> #[trigger] plan::readable(spec, sim, j)
        }
}

/// The uncovered rows of the first `n` key groups.
pub open spec fn uncovered_keys(spec: &MeritSpec, sim: &SimCurves, n: int) -> Seq<usize>
    decreases n,
{
    if n <= 0 {
        seq![]
    } else {
        uncovered_keys(spec, sim, n - 1) + uncovered_of(
            spec,
            sim,
            n - 1,
            residuals::rows_of_keys(spec, sim, n - 1) as int,
        )
    }
}

/// A specification without phase frames and color demands is always covered
/// completely.
pub proof fn intensity_demands_are_covered(spec: &MeritSpec, sim: &SimCurves, n: int)
    requires
        spec.color_seq().len() == 0,
        forall|j: int|
            0 <= j < spec.target_seq().len() ==> !(#[trigger] spec.target_seq()[j]).phase,
        0 <= n,
    ensures
        uncovered_keys(spec, sim, n).len() == 0,
    decreases n,
{
    if n > 0 {
        intensity_demands_are_covered(spec, sim, n - 1);
        let ts = spec.target_seq();
        let frames = plan::frames_of(ts, sim.wavelengths@, n - 1, ts.len() as int);
        frames_in_range(ts, sim.wavelengths@, n - 1, ts.len() as int);
        no_uncovered_frames(
            ts,
            frames,
            residuals::rows_of_keys(spec, sim, n - 1) as int,
            frames.len() as int,
        );
    }
}

proof fn frames_in_range(ts: Seq<MeritTarget>, wl: Seq<Scalar>, k: int, n: int)
    requires
        0 <= n <= ts.len(),
    ensures
        forall|g: int|
            0 <= g < plan::frames_of(ts, wl, k, n).len() ==> 0 <= #[trigger] plan::frames_of(
                ts,
                wl,
                k,
                n,
            )[g] < n,
    decreases n,
{
    if n > 0 {
        frames_in_range(ts, wl, k, n - 1);
        let a = plan::frames_of(ts, wl, k, n - 1);
        let b = plan::frames_of(ts, wl, k, n);
        assert forall|g: int| 0 <= g < b.len() implies 0 <= #[trigger] b[g] < n by {
            if g < a.len() {
                assert(b[g] == a[g]);
            }
        }
    }
}

proof fn no_uncovered_frames(ts: Seq<MeritTarget>, frames: Seq<int>, base: int, n: int)
    requires
        0 <= n <= frames.len(),
        forall|g: int| 0 <= g < frames.len() ==> 0 <= #[trigger] frames[g] < ts.len(),
        forall|j: int| 0 <= j < ts.len() ==> !(#[trigger] ts[j]).phase,
    ensures
        uncovered_frames(ts, frames, base, n).len() == 0,
    decreases n,
{
    if n > 0 {
        no_uncovered_frames(ts, frames, base, n - 1);
        assert(0 <= frames[n - 1] < ts.len());
    }
}

} // verus!
