//! Residual vectors and the scalar merit.
//!
//! One color residual is asked of the caller per color demand; everything else
//! is computed here, in the order that the residual vector has.
use crate::merit::formula;
use crate::merit::formula::{kind_residual, mean, rscale, sample_value, scaled_diff};
use crate::merit::plan;
use crate::merit::plan::{FramePlan, KeyPlan, SampleRef};
use crate::merit::sim::SimCurves;
use crate::merit::spec;
use crate::merit::spec::{MeritKey, MeritSpec, MeritTarget};
use crate::merit::CurveId;
use crate::numeric;
use crate::numeric::{dot, Numeric};
use crate::optics::Optics;
use crate::scalar;
use crate::scalar::Scalar;
use crate::text;
use crate::text::decimal_text;
use vstd::prelude::*;
use vstd::string::*;

verus! {

/// The pattern of 1e-300: a mean tolerance is not let below it.
pub const TOLERANCE_FLOOR_BITS: u64 = 0x01a5_6e1f_c2f8_f359;

/// The band half-width at a point; zero without a band.
pub open spec fn band_at(t: MeritTarget, i: int) -> Scalar {
    if i < t.band@.len() {
        t.band@[i]
    } else {
        Scalar::zero()
    }
}

/// The scaled difference at each point of a frame.
pub open spec fn differences<A: Numeric, O: Optics>(
    num: A,
    ph: O,
    sim: &SimCurves,
    key: MeritKey,
    t: MeritTarget,
    samples: Seq<SampleRef>,
    a: int,
) -> Seq<Scalar> {
    Seq::new(
        samples.len(),
        |i: int|
            formula::scaled_gap(
                num,
                ph,
                t.transform,
                t.norm_factor,
                formula::raw_value(num, ph, sim, key, t, a, samples[i], t.wavelengths@[i]),
                t.normalized_targets@[i],
            ),
    )
}

/// The mean half-width of a frame; zero without a band.
pub open spec fn mean_band<A: Numeric>(num: A, t: MeritTarget) -> Scalar {
    if t.band@.len() > 0 {
        formula::average(num, t.band@)
    } else {
        Scalar::zero()
    }
}

/// The mean tolerance of a frame.
pub open spec fn mean_tolerance<A: Numeric>(num: A, t: MeritTarget) -> Scalar {
    scalar::greater(
        formula::average(num, t.tolerances@),
        Scalar { bits: TOLERANCE_FLOOR_BITS },
    )
}

/// The residuals of one frame: one per point, or the one of the means.
pub open spec fn frame_values<A: Numeric, O: Optics>(
    num: A,
    ph: O,
    sim: &SimCurves,
    key: MeritKey,
    t: MeritTarget,
    samples: Seq<SampleRef>,
    a: int,
) -> Seq<Scalar> {
    let ds = differences(num, ph, sim, key, t, samples, a);
    let scale = formula::frame_scale(num, t);
    if t.integral {
        seq![
            num.product(
                formula::residual(
                    num,
                    t.kind,
                    formula::average(num, ds),
                    mean_tolerance(num, t),
                    mean_band(num, t),
                ),
                scale,
            ),
        ]
    } else {
        Seq::new(
            ds.len(),
            |i: int|
                num.product(
                    formula::residual(num, t.kind, ds[i], t.tolerances@[i], band_at(t, i)),
                    scale,
                ),
        )
    }
}

/// The chunks one after the other.
pub open spec fn joined(chunks: Seq<Seq<Scalar>>) -> Seq<Scalar>
    decreases chunks.len(),
{
    if chunks.len() == 0 {
        seq![]
    } else {
        joined(chunks.drop_last()) + chunks.last()
    }
}

/// The residuals of the first `n` frames of a plan.
pub open spec fn chunks_of<A: Numeric, O: Optics>(
    num: A,
    ph: O,
    spec: &MeritSpec,
    sim: &SimCurves,
    k: int,
    p: &KeyPlan,
    n: int,
) -> Seq<Seq<Scalar>> {
    Seq::new(
        n as nat,
        |g: int|
            frame_values(
                num,
                ph,
                sim,
                spec.key_seq()[k],
                spec.target_seq()[p.frames@[g].target as int],
                p.frames@[g].samples@,
                p.angle_row as int,
            ),
    )
}

/// The color residuals of a plan.
pub open spec fn colors_of_plan<C: Fn(usize, usize) -> Option<Scalar>>(
    color: C,
    p: &KeyPlan,
    vals: Seq<Scalar>,
) -> bool {
    &&& vals.len() == p.colors@.len()
    &&& forall|h: int|
        0 <= h < vals.len() ==> call_ensures(
            color,
            (p.colors@[h], p.angle_row),
            Some(#[trigger] vals[h]),
        )
}

/// `vals` are the residuals of key group `k`, frames first, colors last.
pub open spec fn key_values<A: Numeric, O: Optics, C: Fn(usize, usize) -> Option<Scalar>>(
    num: A,
    ph: O,
    color: C,
    spec: &MeritSpec,
    sim: &SimCurves,
    k: int,
    vals: Seq<Scalar>,
) -> bool {
    &&& plan::readable(spec, sim, k)
    &&& vals.len() == plan::key_rows(spec, sim, k)
    &&& exists|p: KeyPlan, colors: Seq<Scalar>|
        {
            &&& #[trigger] plan::planned(num, spec, sim, k, &p)
            &&& #[trigger] colors_of_plan(color, &p, colors)
            &&& vals == joined(chunks_of(num, ph, spec, sim, k, &p, p.frames@.len() as int))
                + colors
        }
}

/// Key group `k` has no residuals: a row is missing, or a color demand could
/// not be evaluated.
pub open spec fn key_fails<A: Numeric, C: Fn(usize, usize) -> Option<Scalar>>(
    num: A,
    color: C,
    spec: &MeritSpec,
    sim: &SimCurves,
    k: int,
) -> bool {
    ||| !plan::readable(spec, sim, k)
    ||| exists|p: KeyPlan, h: int|
        {
            &&& #[trigger] plan::planned(num, spec, sim, k, &p)
            &&& 0 <= h < p.colors@.len()
            &&& call_ensures(color, (#[trigger] p.colors@[h], p.angle_row), None::<Scalar>)
        }
}

/// The caller can be asked for every color residual.
pub open spec fn answers<C: Fn(usize, usize) -> Option<Scalar>>(color: C) -> bool {
    forall|c: usize, a: usize| #[trigger] call_requires(color, (c, a))
}

/// What a simulation and a specification need to be evaluated together.
pub open spec fn evaluable(spec: &MeritSpec, sim: &SimCurves) -> bool {
    &&& spec.wf()
    &&& sim.wf()
    &&& sim.angles@.len() > 0 || sim.wavelengths@.len() == 0
    &&& forall|j: int|
        0 <= j < spec.target_seq().len() ==> (#[trigger] spec.target_seq()[j]).wavelengths@.len()
            + sim.wavelengths@.len() <= usize::MAX
}

proof fn joined_push(chunks: Seq<Seq<Scalar>>, c: Seq<Scalar>)
    ensures
        joined(chunks.push(c)) == joined(chunks) + c,
{
    assert(chunks.push(c).drop_last() =~= chunks);
}

/// A demand without color residuals has one list of them: two lists of a key
/// group's residuals agree.
pub proof fn residuals_are_settled<A: Numeric, O: Optics, C: Fn(usize, usize) -> Option<Scalar>>(
    num: A,
    ph: O,
    color: C,
    spec: &MeritSpec,
    sim: &SimCurves,
    k: int,
    a: Seq<Scalar>,
    b: Seq<Scalar>,
)
    requires
        key_values(num, ph, color, spec, sim, k, a),
        key_values(num, ph, color, spec, sim, k, b),
        spec.color_seq().len() == 0,
    ensures
        a == b,
{
    let (p, x) = choose|p: KeyPlan, colors: Seq<Scalar>|
        {
            &&& #[trigger] plan::planned(num, spec, sim, k, &p)
            &&& #[trigger] colors_of_plan(color, &p, colors)
            &&& a == joined(chunks_of(num, ph, spec, sim, k, &p, p.frames@.len() as int)) + colors
        };
    let (q, y) = choose|p: KeyPlan, colors: Seq<Scalar>|
        {
            &&& #[trigger] plan::planned(num, spec, sim, k, &p)
            &&& #[trigger] colors_of_plan(color, &p, colors)
            &&& b == joined(chunks_of(num, ph, spec, sim, k, &p, p.frames@.len() as int)) + colors
        };
    plan::a_plan_is_settled(num, spec, sim, k, p, q);
    let u = chunks_of(num, ph, spec, sim, k, &p, p.frames@.len() as int);
    let v = chunks_of(num, ph, spec, sim, k, &q, q.frames@.len() as int);
    assert forall|g: int| 0 <= g < u.len() implies u[g] == v[g] by {
        assert(p.frames@[g].target == q.frames@[g].target);
    }
    assert(u =~= v);
    assert(x =~= y);
}

/// The residuals of one frame.
fn frame_residuals<A: Numeric, O: Optics>(
    num: &A,
    ph: &O,
    sim: &SimCurves,
    key: MeritKey,
    t: &MeritTarget,
    f: &FramePlan,
    angle_row: usize,
) -> (r: Vec<Scalar>)
    requires
        num.sound(),
        ph.lawful(),
        sim.wf(),
        plan::present(sim, key.curve, t.phase),
        angle_row < sim.angles@.len(),
        f.samples@.len() == t.wavelengths@.len(),
        forall|i: int|
            0 <= i < f.samples@.len() ==> plan::on_grid(
                #[trigger] f.samples@[i],
                sim.wavelengths@.len() as int,
            ),
        t.normalized_targets@.len() == t.wavelengths@.len(),
        t.tolerances@.len() == t.wavelengths@.len(),
        t.band@.len() == 0 || t.band@.len() == t.wavelengths@.len(),
    ensures
        r@ == frame_values(*num, *ph, sim, key, *t, f.samples@, angle_row as int),
{
    let ghost want = differences(*num, *ph, sim, key, *t, f.samples@, angle_row as int);
    let mut ds: Vec<Scalar> = Vec::with_capacity(f.samples.len());
    let mut i: usize = 0;
    while i < f.samples.len()
        invariant
            i <= f.samples.len(),
            num.sound(),
            ph.lawful(),
            sim.wf(),
            plan::present(sim, key.curve, t.phase),
            angle_row < sim.angles@.len(),
            f.samples@.len() == t.wavelengths@.len(),
            forall|i: int|
                0 <= i < f.samples@.len() ==> plan::on_grid(
                    #[trigger] f.samples@[i],
                    sim.wavelengths@.len() as int,
                ),
            t.normalized_targets@.len() == t.wavelengths@.len(),
            want == differences(*num, *ph, sim, key, *t, f.samples@, angle_row as int),
            ds@ == want.take(i as int),
        decreases f.samples.len() - i,
    {
        let s: SampleRef = f.samples[i];
        let raw: Scalar = sample_value(num, ph, sim, key, t, angle_row, s, t.wavelengths[i]);
        let d: Scalar = scaled_diff(
            num,
            ph,
            t.transform,
            t.norm_factor,
            raw,
            t.normalized_targets[i],
        );
        ds.push(d);
        i += 1;
        assert(ds@ =~= want.take(i as int));
    }
    assert(ds@ =~= want);
    let scale: Scalar = rscale(num, t);
    let mut out: Vec<Scalar> = Vec::new();
    if t.integral {
        let d: Scalar = mean(num, &ds);
        let tol: Scalar = mean(num, &t.tolerances).max(Scalar { bits: TOLERANCE_FLOOR_BITS });
        let bw: Scalar = if t.band.len() > 0 {
            mean(num, &t.band)
        } else {
            Scalar::zero()
        };
        out.push(num.times(kind_residual(num, t.kind, d, tol, bw), scale));
        assert(out@ =~= frame_values(*num, *ph, sim, key, *t, f.samples@, angle_row as int));
        return out;
    }
    let ghost all = frame_values(*num, *ph, sim, key, *t, f.samples@, angle_row as int);
    i = 0;
    while i < ds.len()
        invariant
            i <= ds.len() == t.wavelengths@.len(),
            num.sound(),
            t.tolerances@.len() == t.wavelengths@.len(),
            !t.integral,
            scale == formula::frame_scale(*num, *t),
            ds@ == differences(*num, *ph, sim, key, *t, f.samples@, angle_row as int),
            all == frame_values(*num, *ph, sim, key, *t, f.samples@, angle_row as int),
            out@ == all.take(i as int),
        decreases ds.len() - i,
    {
        let bw: Scalar = if i < t.band.len() {
            t.band[i]
        } else {
            Scalar::zero()
        };
        let v: Scalar = kind_residual(num, t.kind, ds[i], t.tolerances[i], bw);
        out.push(num.times(v, scale));
        i += 1;
        assert(out@ =~= all.take(i as int));
    }
    assert(out@ =~= all);
    out
}

impl MeritSpec {
    /// Appends the residuals of one key group; a missing row leaves `out`
    /// untouched and answers with the key's curve. `color` gives the residual
    /// of a color demand at an angle row.
    pub fn residuals_into<A: Numeric, O: Optics, C: Fn(usize, usize) -> Option<Scalar>>(
        &self,
        num: &A,
        ph: &O,
        color: &C,
        sim: &SimCurves,
        key_idx: usize,
        out: &mut Vec<Scalar>,
    ) -> (r: Result<(), CurveId>)
        requires
            num.sound(),
            ph.lawful(),
            answers(*color),
            evaluable(self, sim),
            key_idx < self.key_seq().len(),
        ensures
            match r {
                Ok(_) => exists|vals: Seq<Scalar>|
                    {
                        &&& #[trigger] key_values(
                            *num,
                            *ph,
                            *color,
                            self,
                            sim,
                            key_idx as int,
                            vals,
                        )
                        &&& final(out)@ == old(out)@ + vals
                    },
                Err(c) => {
                    &&& c == self.key_seq()[key_idx as int].curve
                    &&& key_fails(*num, *color, self, sim, key_idx as int)
                    &&& final(out)@ == old(out)@
                },
            },
    {
        let ghost k = key_idx as int;
        let key: MeritKey = self.keys()[key_idx];
        let p: KeyPlan = match self.plan_key(num, sim, key_idx) {
            Ok(p) => p,
            Err(c) => {
                return Err(c);
            },
        };
        let ghost ts = self.target_seq();
        let ghost frames = plan::frames_of(ts, sim.wavelengths@, k, ts.len() as int);
        let mut vals: Vec<Scalar> = Vec::new();
        let targets: &Vec<MeritTarget> = self.targets();
        let mut g: usize = 0;
        assert(chunks_of(*num, *ph, self, sim, k, &p, 0) =~= seq![]);
        while g < p.frames.len()
            invariant
                g <= p.frames.len(),
                k == key_idx,
                num.sound(),
                ph.lawful(),
                evaluable(self, sim),
                key == self.key_seq()[k],
                ts == self.target_seq(),
                targets@ == ts,
                frames == plan::frames_of(ts, sim.wavelengths@, k, ts.len() as int),
                plan::readable(self, sim, k),
                plan::planned(*num, self, sim, k, &p),
                vals@ == joined(chunks_of(*num, *ph, self, sim, k, &p, g as int)),
                vals@.len() == plan::rows_of_frames(ts, frames, g as int),
            decreases p.frames.len() - g,
        {
            let f: &FramePlan = &p.frames[g];
            let t: &MeritTarget = &targets[f.target];
            proof {
                assert(p.frames@[g as int].target == frames[g as int]);
                assert(*t == ts[f.target as int]);
                assert(spec::target_fault(self.key_seq(), ts[f.target as int]) is None);
                plan::frames_are_covered(ts, sim.wavelengths@, k, ts.len() as int, g as int);
                assert(plan::present(sim, key.curve, t.phase));
                crate::nearest::nearest_is_inside(
                    *num,
                    sim.angles@,
                    key.angle,
                    p.angle_row as int,
                );
            }
            let mut chunk: Vec<Scalar> = frame_residuals(num, ph, sim, key, t, f, p.angle_row);
            proof {
                let before = chunks_of(*num, *ph, self, sim, k, &p, g as int);
                joined_push(before, chunk@);
                assert(before.push(chunk@) =~= chunks_of(*num, *ph, self, sim, k, &p, g + 1));
            }
            vals.append(&mut chunk);
            g += 1;
        }
        let ghost before = vals@;
        let ghost mut colors: Seq<Scalar> = seq![];
        let mut h: usize = 0;
        assert(before + colors =~= before);
        while h < p.colors.len()
            invariant
                h <= p.colors.len(),
                k == key_idx,
                key == self.key_seq()[k],
                out@ == old(out)@,
                answers(*color),
                plan::planned(*num, self, sim, k, &p),
                colors.len() == h,
                forall|j: int|
                    0 <= j < h ==> call_ensures(
                        *color,
                        (p.colors@[j], p.angle_row),
                        Some(#[trigger] colors[j]),
                    ),
                vals@ == before + colors,
            decreases p.colors.len() - h,
        {
            match color(p.colors[h], p.angle_row) {
                Some(v) => {
                    vals.push(v);
                    proof {
                        assert(vals@ =~= before + colors.push(v));
                        colors = colors.push(v);
                    }
                },
                None => {
                    assert(key_fails(*num, *color, self, sim, k)) by {
                        assert(p.colors@[h as int] == p.colors[h as int]);
                    }
                    return Err(key.curve);
                },
            }
            h += 1;
        }
        proof {
            assert(colors_of_plan(*color, &p, colors));
            assert(key_values(*num, *ph, *color, self, sim, k, vals@));
        }
        let ghost all = vals@;
        out.append(&mut vals);
        assert(out@ == old(out)@ + all);
        Ok(())
    }
}

/// `parts` holds the residuals of the first `n` key groups.
pub open spec fn keys_values<A: Numeric, O: Optics, C: Fn(usize, usize) -> Option<Scalar>>(
    num: A,
    ph: O,
    color: C,
    spec: &MeritSpec,
    sim: &SimCurves,
    n: int,
    parts: Seq<Seq<Scalar>>,
) -> bool {
    &&& parts.len() == n
    &&& forall|k: int|
        0 <= k < n ==> key_values(num, ph, color, spec, sim, k, #[trigger] parts[k])
}

/// Residual rows of the first `n` key groups.
pub open spec fn rows_of_keys(spec: &MeritSpec, sim: &SimCurves, n: int) -> nat
    decreases n,
{
    if n <= 0 {
        0
    } else {
        rows_of_keys(spec, sim, n - 1) + plan::key_rows(spec, sim, n - 1)
    }
}

/// What evaluating all key groups ends in: the residuals of the groups up to
/// the first that has none, whose curve is the fault.
pub open spec fn evaluation<A: Numeric, O: Optics, C: Fn(usize, usize) -> Option<Scalar>>(
    num: A,
    ph: O,
    color: C,
    spec: &MeritSpec,
    sim: &SimCurves,
    n: int,
    parts: Seq<Seq<Scalar>>,
    r: Result<(), CurveId>,
) -> bool {
    &&& keys_values(num, ph, color, spec, sim, n, parts)
    &&& match r {
        Ok(_) => n == spec.key_seq().len(),
        Err(c) => {
            &&& 0 <= n < spec.key_seq().len()
            &&& key_fails(num, color, spec, sim, n)
            &&& c == spec.key_seq()[n].curve
        },
    }
}

/// What key group `k` adds to the merit: the sum of its squared residuals, or
/// the penalty when they cannot be had.
pub open spec fn contributes<A: Numeric, O: Optics, C: Fn(usize, usize) -> Option<Scalar>>(
    num: A,
    ph: O,
    color: C,
    spec: &MeritSpec,
    sim: &SimCurves,
    penalty: Scalar,
    k: int,
    c: Scalar,
) -> bool {
    ||| key_fails(num, color, spec, sim, k) && c == penalty
    ||| exists|vals: Seq<Scalar>|
        {
            &&& #[trigger] key_values(num, ph, color, spec, sim, k, vals)
            &&& c == numeric::dot_of(num, vals, vals)
        }
}

/// What each key group adds to the merit.
pub open spec fn contributions<A: Numeric, O: Optics, C: Fn(usize, usize) -> Option<Scalar>>(
    num: A,
    ph: O,
    color: C,
    spec: &MeritSpec,
    sim: &SimCurves,
    penalty: Scalar,
    cs: Seq<Scalar>,
) -> bool {
    &&& cs.len() == spec.key_seq().len()
    &&& forall|k: int|
        0 <= k < cs.len() ==> contributes(num, ph, color, spec, sim, penalty, k, #[trigger] cs[k])
}

impl MeritSpec {
    /// The residuals of all key groups in registration order, or the curve of
    /// the first group that has none.
    pub fn residuals<A: Numeric, O: Optics, C: Fn(usize, usize) -> Option<Scalar>>(
        &self,
        num: &A,
        ph: &O,
        color: &C,
        sim: &SimCurves,
        out: &mut Vec<Scalar>,
    ) -> (r: Result<(), CurveId>)
        requires
            num.sound(),
            ph.lawful(),
            answers(*color),
            evaluable(self, sim),
        ensures
            exists|n: int, parts: Seq<Seq<Scalar>>|
                {
                    &&& #[trigger] evaluation(*num, *ph, *color, self, sim, n, parts, r)
                    &&& final(out)@ == joined(parts)
                    &&& final(out)@.len() == rows_of_keys(self, sim, n)
                },
    {
        out.clear();
        let ghost mut parts: Seq<Seq<Scalar>> = seq![];
        let n: usize = self.key_count();
        let mut k: usize = 0;
        while k < n
            invariant
                k <= n == self.key_seq().len(),
                num.sound(),
                ph.lawful(),
                answers(*color),
                evaluable(self, sim),
                keys_values(*num, *ph, *color, self, sim, k as int, parts),
                out@ == joined(parts),
                out@.len() == rows_of_keys(self, sim, k as int),
            decreases n - k,
        {
            let ghost before = out@;
            match self.residuals_into(num, ph, color, sim, k, out) {
                Ok(_) => {
                    proof {
                        let vals = choose|vals: Seq<Scalar>|
                            key_values(*num, *ph, *color, self, sim, k as int, vals) && out@
                                == before + vals;
                        joined_push(parts, vals);
                        parts = parts.push(vals);
                    }
                },
                Err(c) => {
                    assert(evaluation(
                        *num,
                        *ph,
                        *color,
                        self,
                        sim,
                        k as int,
                        parts,
                        Err::<(), CurveId>(c),
                    ));
                    return Err(c);
                },
            }
            k += 1;
        }
        assert(evaluation(*num, *ph, *color, self, sim, k as int, parts, Ok::<(), CurveId>(())));
        Ok(())
    }

    /// The scalar merit: the key groups' contributions added up from zero, a
    /// group without residuals costing the penalty once.
    pub fn merit<A: Numeric, O: Optics, C: Fn(usize, usize) -> Option<Scalar>>(
        &self,
        num: &A,
        ph: &O,
        color: &C,
        sim: &SimCurves,
        missing_penalty: Scalar,
    ) -> (r: Scalar)
        requires
            num.sound(),
            ph.lawful(),
            answers(*color),
            evaluable(self, sim),
        ensures
            exists|cs: Seq<Scalar>|
                {
                    &&& #[trigger] contributions(
                        *num,
                        *ph,
                        *color,
                        self,
                        sim,
                        missing_penalty,
                        cs,
                    )
                    &&& r == formula::tally(*num, cs, cs.len() as int)
                },
    {
        let mut total: Scalar = Scalar::zero();
        let ghost mut cs: Seq<Scalar> = seq![];
        let n: usize = self.key_count();
        let mut k: usize = 0;
        while k < n
            invariant
                k <= n == self.key_seq().len(),
                num.sound(),
                ph.lawful(),
                answers(*color),
                evaluable(self, sim),
                cs.len() == k,
                forall|j: int|
                    0 <= j < k ==> contributes(
                        *num,
                        *ph,
                        *color,
                        self,
                        sim,
                        missing_penalty,
                        j,
                        #[trigger] cs[j],
                    ),
                total == formula::tally(*num, cs, k as int),
            decreases n - k,
        {
            let mut buf: Vec<Scalar> = Vec::new();
            let c: Scalar = match self.residuals_into(num, ph, color, sim, k, &mut buf) {
                Ok(_) => {
                    let v: Scalar = dot(num, &buf, &buf);
                    proof {
                        let vals = choose|vals: Seq<Scalar>|
                            key_values(*num, *ph, *color, self, sim, k as int, vals) && buf@
                                == Seq::<Scalar>::empty() + vals;
                        assert(buf@ =~= vals);
                    }
                    v
                },
                Err(_) => missing_penalty,
            };
            total = num.plus(total, c);
            proof {
                formula::tally_goes_on(*num, cs, c);
                cs = cs.push(c);
            }
            k += 1;
        }
        assert(contributions(*num, *ph, *color, self, sim, missing_penalty, cs));
        total
    }
}

// ---------------------------------------------------------------------------
// Row counts
// ---------------------------------------------------------------------------

/// Rows of key group `k` among the first `n` targets.
spec fn frame_rows(ts: Seq<MeritTarget>, wl: Seq<Scalar>, k: int, n: int) -> nat {
    let f = plan::frames_of(ts, wl, k, n);
    plan::rows_of_frames(ts, f, f.len() as int)
}

/// The same, over the first `m` key groups.
spec fn frame_rows_sum(ts: Seq<MeritTarget>, wl: Seq<Scalar>, m: int, n: int) -> nat
    decreases m,
{
    if m <= 0 {
        0
    } else {
        frame_rows_sum(ts, wl, m - 1, n) + frame_rows(ts, wl, m - 1, n)
    }
}

spec fn color_sum(cs: Seq<spec::ColorDemand>, m: int, n: int) -> nat
    decreases m,
{
    if m <= 0 {
        0
    } else {
        color_sum(cs, m - 1, n) + plan::colors_of(cs, m - 1, n).len()
    }
}

proof fn rows_of_frames_prefix(ts: Seq<MeritTarget>, a: Seq<int>, b: Seq<int>, n: int)
    requires
        0 <= n <= a.len(),
        a.len() <= b.len(),
        forall|i: int| 0 <= i < a.len() ==> a[i] == b[i],
    ensures
        plan::rows_of_frames(ts, a, n) == plan::rows_of_frames(ts, b, n),
    decreases n,
{
    if n > 0 {
        rows_of_frames_prefix(ts, a, b, n - 1);
    }
}

proof fn frame_rows_step(ts: Seq<MeritTarget>, wl: Seq<Scalar>, k: int, n: int)
    requires
        0 < n <= ts.len(),
        plan::covered(ts[n - 1].wavelengths@, wl),
    ensures
        frame_rows(ts, wl, k, n) == frame_rows(ts, wl, k, n - 1) + (if ts[n - 1].key_idx == k {
            spec::target_rows(ts[n - 1])
        } else {
            0
        }),
{
    let a = plan::frames_of(ts, wl, k, n - 1);
    let b = plan::frames_of(ts, wl, k, n);
    rows_of_frames_prefix(ts, a, b, a.len() as int);
}

proof fn frame_rows_sum_step(ts: Seq<MeritTarget>, wl: Seq<Scalar>, m: int, n: int)
    requires
        0 < n <= ts.len(),
        0 <= m,
        plan::covered(ts[n - 1].wavelengths@, wl),
    ensures
        frame_rows_sum(ts, wl, m, n) == frame_rows_sum(ts, wl, m, n - 1) + (if ts[n - 1].key_idx
            < m {
            spec::target_rows(ts[n - 1])
        } else {
            0
        }),
    decreases m,
{
    if m > 0 {
        frame_rows_sum_step(ts, wl, m - 1, n);
        frame_rows_step(ts, wl, m - 1, n);
    }
}

proof fn frame_rows_total(ts: Seq<MeritTarget>, wl: Seq<Scalar>, m: int, n: int)
    requires
        0 <= n <= ts.len(),
        0 <= m,
        forall|j: int|
            0 <= j < n ==> plan::covered((#[trigger] ts[j]).wavelengths@, wl) && ts[j].key_idx < m,
    ensures
        frame_rows_sum(ts, wl, m, n) == spec::rows_of_targets(ts, n),
    decreases n,
{
    if n > 0 {
        assert(plan::covered(ts[n - 1].wavelengths@, wl));
        frame_rows_total(ts, wl, m, n - 1);
        frame_rows_sum_step(ts, wl, m, n);
    } else {
        no_targets_no_rows(ts, wl, m);
    }
}

proof fn no_targets_no_rows(ts: Seq<MeritTarget>, wl: Seq<Scalar>, m: int)
    requires
        0 <= m,
    ensures
        frame_rows_sum(ts, wl, m, 0) == 0,
    decreases m,
{
    if m > 0 {
        no_targets_no_rows(ts, wl, m - 1);
    }
}

proof fn color_sum_step(cs: Seq<spec::ColorDemand>, m: int, n: int)
    requires
        0 < n <= cs.len(),
        0 <= m,
    ensures
        color_sum(cs, m, n) == color_sum(cs, m, n - 1) + (if cs[n - 1].key_idx < m {
            1nat
        } else {
            0nat
        }),
    decreases m,
{
    if m > 0 {
        color_sum_step(cs, m - 1, n);
    }
}

proof fn color_total(cs: Seq<spec::ColorDemand>, m: int, n: int)
    requires
        0 <= n <= cs.len(),
        0 <= m,
        forall|j: int| 0 <= j < n ==> (#[trigger] cs[j]).key_idx < m,
    ensures
        color_sum(cs, m, n) == n,
    decreases n, m,
{
    if n > 0 {
        color_total(cs, m, n - 1);
        color_sum_step(cs, m, n);
    } else if m > 0 {
        color_total(cs, m - 1, 0);
    }
}

proof fn rows_split(spec: &MeritSpec, sim: &SimCurves, m: int)
    requires
        0 <= m,
    ensures
        rows_of_keys(spec, sim, m) == frame_rows_sum(
            spec.target_seq(),
            sim.wavelengths@,
            m,
            spec.target_seq().len() as int,
        ) + color_sum(spec.color_seq(), m, spec.color_seq().len() as int),
    decreases m,
{
    if m > 0 {
        rows_split(spec, sim, m - 1);
    }
}

/// When the simulation covers every frame, the residual vector has exactly as
/// many rows as the specification announces, whatever the values are.
pub proof fn full_coverage_gives_all_rows(spec: &MeritSpec, sim: &SimCurves)
    requires
        spec.wf(),
        forall|j: int|
            0 <= j < spec.target_seq().len() ==> plan::covered(
                (#[trigger] spec.target_seq()[j]).wavelengths@,
                sim.wavelengths@,
            ),
    ensures
        rows_of_keys(spec, sim, spec.key_seq().len() as int) == spec.full_rows(),
{
    let ts = spec.target_seq();
    let cs = spec.color_seq();
    let m = spec.key_seq().len() as int;
    rows_split(spec, sim, m);
    assert forall|j: int| 0 <= j < ts.len() implies plan::covered(
        (#[trigger] ts[j]).wavelengths@,
        sim.wavelengths@,
    ) && ts[j].key_idx < m by {
        assert(spec::target_fault(spec.key_seq(), spec.target_seq()[j]) is None);
    }
    frame_rows_total(ts, sim.wavelengths@, m, ts.len() as int);
    color_total(cs, m, cs.len() as int);
}

/// The factors that turn an amplitude's phase into the differential one: the
/// reference phase of each wavelength is taken away.
pub fn reference_rotation<O: Optics>(
    ph: &O,
    wavelengths: &Vec<Scalar>,
    angle_deg: Scalar,
    n_inc: Scalar,
    total_d: Scalar,
    passes: Scalar,
) -> (r: Vec<(Scalar, Scalar)>)
    requires
        ph.lawful(),
    ensures
        r@ == wavelengths@.map_values(
            |wl: Scalar| ph.turned(ph.reference(wl, n_inc, angle_deg, total_d, passes)),
        ),
{
    let ghost all = wavelengths@.map_values(
        |wl: Scalar| ph.turned(ph.reference(wl, n_inc, angle_deg, total_d, passes)),
    );
    let mut out: Vec<(Scalar, Scalar)> = Vec::with_capacity(wavelengths.len());
    let mut i: usize = 0;
    while i < wavelengths.len()
        invariant
            i <= wavelengths.len(),
            ph.lawful(),
            all == wavelengths@.map_values(
                |wl: Scalar| ph.turned(ph.reference(wl, n_inc, angle_deg, total_d, passes)),
            ),
            out@ == all.take(i as int),
        decreases wavelengths.len() - i,
    {
        let phase: Scalar = ph.reference_phase(wavelengths[i], n_inc, angle_deg, total_d, passes);
        out.push(ph.turn(phase));
        i += 1;
        assert(out@ =~= all.take(i as int));
    }
    assert(out@ =~= all);
    out
}

/// A rotation applies to rows that consist of whole wavelength blocks: the
/// factor of entry `i` is the one of its wavelength.
pub open spec fn rotatable(rows: nat, rot: nat) -> bool {
    rot > 0 && rows % rot == 0
}

/// Rows that are not made of whole wavelength blocks.
#[derive(Clone, Copy, Debug, PartialEq, Eq, Structural)]
pub struct RotateError {
    pub entries: usize,
    pub wavelengths: usize,
}

impl RotateError {
    /// The refusal in words.
    pub fn message(&self) -> (r: String)
        ensures
            r@ == "rotate_rows: "@ + text::decimal(self.entries as nat)
                + " entries not a multiple of "@ + text::decimal(self.wavelengths as nat)
                + " wavelengths."@,
    {
        String::from_str("rotate_rows: ").concat(
            decimal_text(self.entries as u64).as_str(),
        ).concat(" entries not a multiple of ").concat(
            decimal_text(self.wavelengths as u64).as_str(),
        ).concat(" wavelengths.")
    }
}

/// The product of two complex numbers.
pub open spec fn complex_product<A: Numeric>(
    num: A,
    x: (Scalar, Scalar),
    y: (Scalar, Scalar),
) -> (Scalar, Scalar) {
    (
        num.difference(num.product(x.0, y.0), num.product(x.1, y.1)),
        num.sum(num.product(x.0, y.1), num.product(x.1, y.0)),
    )
}

/// Multiplies each entry by its wavelength's factor. Rows that are not whole
/// blocks are refused, unchanged.
pub fn rotate_rows<A: Numeric>(
    num: &A,
    rows: &mut Vec<(Scalar, Scalar)>,
    rot: &Vec<(Scalar, Scalar)>,
) -> (r: Result<(), RotateError>)
    requires
        num.sound(),
    ensures
        r == (if rotatable(old(rows)@.len(), rot@.len()) {
            Ok(())
        } else {
            Err(
                RotateError {
                    entries: old(rows)@.len() as usize,
                    wavelengths: rot@.len() as usize,
                },
            )
        }),
        final(rows)@.len() == old(rows)@.len(),
        r is Err ==> final(rows)@ == old(rows)@,
        r is Ok ==> forall|i: int|
            0 <= i < old(rows)@.len() ==> #[trigger] final(rows)@[i] == complex_product(
                *num,
                old(rows)@[i],
                rot@[i % (rot@.len() as int)],
            ),
{
    if rot.len() == 0 || rows.len() % rot.len() != 0 {
        return Err(RotateError { entries: rows.len(), wavelengths: rot.len() });
    }
    let n: usize = rows.len();
    let mut i: usize = 0;
    while i < n
        invariant
            i <= n == rows.len(),
            n == old(rows)@.len(),
            rot.len() > 0,
            num.sound(),
            forall|j: int| i <= j < n ==> rows@[j] == old(rows)@[j],
            forall|j: int|
                0 <= j < i ==> #[trigger] rows@[j] == complex_product(
                    *num,
                    old(rows)@[j],
                    rot@[j % (rot@.len() as int)],
                ),
        decreases n - i,
    {
        let x: (Scalar, Scalar) = rows[i];
        let y: (Scalar, Scalar) = rot[i % rot.len()];
        let re: Scalar = num.minus(num.times(x.0, y.0), num.times(x.1, y.1));
        let im: Scalar = num.plus(num.times(x.0, y.1), num.times(x.1, y.0));
        rows.set(i, (re, im));
        i += 1;
    }
    Ok(())
}

} // verus!
