//! Where the demands of a key group read the simulated grid.
//!
//! A frame whose grid misses the simulated one is skipped. One whose grid is,
//! bit for bit, a block of the simulated grid reads it directly; any other is
//! sampled by one pointer that moves forward along the simulated grid.
use crate::merit::sim::SimCurves;
use crate::merit::spec;
use crate::merit::spec::{ColorDemand, MeritKey, MeritSpec, MeritTarget};
use crate::merit::{CurveId, Quantity};
use crate::nearest;
use crate::nearest::gap_between;
use crate::numeric::Numeric;
use crate::scalar;
use crate::scalar::Scalar;
use vstd::prelude::*;

verus! {

/// The pattern of 1e-14: grid points closer than this are one point.
pub const SAME_POINT_BITS: u64 = 0x3d06_849b_86a1_2b9b;

/// Which simulated points one target point reads.
#[derive(Clone, Copy, Debug, PartialEq, Eq, Structural)]
pub enum SampleRef {
    /// The point `at`.
    Direct { at: usize },
    /// Linearly between the points `at` and `at + 1`.
    Between { at: usize },
}

/// One frame that takes part, and where each of its points reads.
#[derive(Debug)]
pub struct FramePlan {
    pub target: usize,
    pub samples: Vec<SampleRef>,
}

/// Everything a key group reads, in the order its residuals come.
#[derive(Debug)]
pub struct KeyPlan {
    pub angle_row: usize,
    pub frames: Vec<FramePlan>,
    /// Color demands, by index.
    pub colors: Vec<usize>,
}

/// The target grid and the simulated grid overlap.
pub open spec fn covered(t_wl: Seq<Scalar>, sim_wl: Seq<Scalar>) -> bool {
    &&& t_wl.len() > 0
    &&& sim_wl.len() > 0
    &&& !scalar::less(sim_wl.last(), t_wl[0])
    &&& !scalar::less(t_wl.last(), sim_wl[0])
}

/// How many leading grid points lie below `w`.
pub open spec fn lead_below(grid: Seq<Scalar>, w: Scalar, n: int) -> bool {
    &&& 0 <= n <= grid.len()
    &&& forall|i: int| 0 <= i < n ==> scalar::less(#[trigger] grid[i], w)
    &&& n < grid.len() ==> !scalar::less(grid[n], w)
}

/// The target grid is the block of the simulated grid that starts at `offset`.
pub open spec fn block_at(t_wl: Seq<Scalar>, sim_wl: Seq<Scalar>, offset: int) -> bool {
    &&& offset + t_wl.len() <= sim_wl.len()
    &&& forall|i: int| 0 <= i < t_wl.len() ==> #[trigger] t_wl[i] == sim_wl[offset + i]
}

/// The pointer has moved from `from` to `to`: as far as the next grid point
/// is still below `w`.
pub open spec fn moved_to(sim_wl: Seq<Scalar>, from: int, to: int, w: Scalar) -> bool {
    &&& from <= to
    &&& forall|i: int| from < i <= to ==> i < sim_wl.len() && scalar::less(#[trigger] sim_wl[i], w)
    &&& to + 1 < sim_wl.len() ==> !scalar::less(sim_wl[to + 1], w)
}

/// Where a point at wavelength `w` reads when the pointer stands at `p`.
pub open spec fn sampled_at<A: Numeric>(num: A, sim_wl: Seq<Scalar>, p: int, w: Scalar) -> SampleRef {
    if p + 1 < sim_wl.len() && scalar::at_most(sim_wl[p], w) && !scalar::less(
        nearest::gap(num, sim_wl[p + 1], sim_wl[p]),
        Scalar { bits: SAME_POINT_BITS },
    ) {
        SampleRef::Between { at: p as usize }
    } else {
        SampleRef::Direct { at: p as usize }
    }
}

/// The pointer's positions at each target point.
pub open spec fn pointer_path(t_wl: Seq<Scalar>, sim_wl: Seq<Scalar>, path: Seq<int>) -> bool {
    &&& path.len() == t_wl.len()
    &&& forall|i: int|
        0 <= i < path.len() ==> moved_to(
            sim_wl,
            if i == 0 {
                0
            } else {
                path[i - 1]
            },
            #[trigger] path[i],
            t_wl[i],
        )
}

/// The samples of a frame.
pub open spec fn sampled<A: Numeric>(
    num: A,
    t_wl: Seq<Scalar>,
    sim_wl: Seq<Scalar>,
    samples: Seq<SampleRef>,
) -> bool {
    &&& samples.len() == t_wl.len()
    &&& exists|offset: int|
        {
            &&& #[trigger] lead_below(sim_wl, t_wl[0], offset)
            &&& if block_at(t_wl, sim_wl, offset) {
                forall|i: int|
                    0 <= i < samples.len() ==> #[trigger] samples[i] == (SampleRef::Direct {
                        at: (offset + i) as usize,
                    })
            } else {
                exists|path: Seq<int>|
                    {
                        &&& #[trigger] pointer_path(t_wl, sim_wl, path)
                        &&& forall|i: int|
                            0 <= i < samples.len() ==> #[trigger] samples[i] == sampled_at(
                                num,
                                sim_wl,
                                path[i],
                                t_wl[i],
                            )
                    }
            }
        }
}

/// A sample stays on the grid.
pub open spec fn on_grid(s: SampleRef, n: int) -> bool {
    match s {
        SampleRef::Direct { at } => at < n,
        SampleRef::Between { at } => at + 1 < n,
    }
}

/// The curve's row, or the rows it derives from, are there.
pub open spec fn present(sim: &SimCurves, curve: CurveId, phase: bool) -> bool {
    if phase {
        sim.amplitude(curve) is Some
    } else if curve.quantity() is Absorbed {
        &&& sim.intensity(CurveId::of(Quantity::Reflected, curve.pol(), curve.back())) is Some
        &&& sim.intensity(CurveId::of(Quantity::Transmitted, curve.pol(), curve.back())) is Some
    } else {
        sim.intensity(curve) is Some
    }
}

/// Every row that the key group needs is there.
pub open spec fn readable(spec: &MeritSpec, sim: &SimCurves, k: int) -> bool {
    let curve = spec.key_seq()[k].curve;
    &&& forall|j: int|
        0 <= j < spec.target_seq().len() && (#[trigger] spec.target_seq()[j]).key_idx == k
            ==> present(sim, curve, spec.target_seq()[j].phase)
    &&& forall|j: int|
        0 <= j < spec.color_seq().len() && (#[trigger] spec.color_seq()[j]).key_idx == k
            ==> !curve.back() && sim.intensity(curve) is Some
}

/// The frames of key group `k` among the first `n` targets that take part.
pub open spec fn frames_of(
    ts: Seq<MeritTarget>,
    sim_wl: Seq<Scalar>,
    k: int,
    n: int,
) -> Seq<int>
    decreases n,
{
    if n <= 0 {
        seq![]
    } else if ts[n - 1].key_idx == k && covered(ts[n - 1].wavelengths@, sim_wl) {
        frames_of(ts, sim_wl, k, n - 1).push(n - 1)
    } else {
        frames_of(ts, sim_wl, k, n - 1)
    }
}

/// The color demands of key group `k` among the first `n`.
pub open spec fn colors_of(cs: Seq<ColorDemand>, k: int, n: int) -> Seq<int>
    decreases n,
{
    if n <= 0 {
        seq![]
    } else if cs[n - 1].key_idx == k {
        colors_of(cs, k, n - 1).push(n - 1)
    } else {
        colors_of(cs, k, n - 1)
    }
}

/// `p` is the plan of key group `k`.
pub open spec fn planned<A: Numeric>(
    num: A,
    spec: &MeritSpec,
    sim: &SimCurves,
    k: int,
    p: &KeyPlan,
) -> bool {
    let ts = spec.target_seq();
    let sim_wl = sim.wavelengths@;
    let frames = frames_of(ts, sim_wl, k, ts.len() as int);
    let colors = colors_of(spec.color_seq(), k, spec.color_seq().len() as int);
    &&& nearest::nearest(num, sim.angles@, spec.key_seq()[k].angle, p.angle_row as int)
    &&& p.frames@.len() == frames.len()
    &&& forall|g: int|
        0 <= g < frames.len() ==> {
            let f = #[trigger] p.frames@[g];
            &&& f.target == frames[g]
            &&& f.target < ts.len()
            &&& sampled(num, ts[frames[g]].wavelengths@, sim_wl, f.samples@)
            &&& forall|i: int|
                0 <= i < f.samples@.len() ==> on_grid(#[trigger] f.samples@[i], sim_wl.len() as int)
        }
    &&& p.colors@.len() == colors.len()
    &&& forall|g: int|
        0 <= g < colors.len() ==> #[trigger] p.colors@[g] == colors[g] && p.colors@[g]
            < spec.color_seq().len()
}

/// Residual rows of the first `n` frames of a plan.
pub open spec fn rows_of_frames(ts: Seq<MeritTarget>, frames: Seq<int>, n: int) -> nat
    decreases n,
{
    if n <= 0 {
        0
    } else {
        rows_of_frames(ts, frames, n - 1) + spec::target_rows(ts[frames[n - 1]])
    }
}

/// Residual rows of key group `k`.
pub open spec fn key_rows(spec: &MeritSpec, sim: &SimCurves, k: int) -> nat {
    let ts = spec.target_seq();
    let frames = frames_of(ts, sim.wavelengths@, k, ts.len() as int);
    rows_of_frames(ts, frames, frames.len() as int) + colors_of(
        spec.color_seq(),
        k,
        spec.color_seq().len() as int,
    ).len()
}

fn first_not_below(grid: &Vec<Scalar>, w: Scalar) -> (r: usize)
    ensures
        lead_below(grid@, w, r as int),
{
    let mut i: usize = 0;
    while i < grid.len() && grid[i].lt(w)
        invariant
            i <= grid.len(),
            forall|j: int| 0 <= j < i ==> scalar::less(#[trigger] grid@[j], w),
        decreases grid.len() - i,
    {
        i += 1;
    }
    i
}

/// Whether the target grid is a block of the simulated grid, and where it
/// would start.
fn alignment(t_wl: &Vec<Scalar>, sim_wl: &Vec<Scalar>) -> (r: (bool, usize))
    requires
        t_wl.len() > 0,
        t_wl.len() + sim_wl.len() <= usize::MAX,
    ensures
        lead_below(sim_wl@, t_wl@[0], r.1 as int),
        r.0 == block_at(t_wl@, sim_wl@, r.1 as int),
{
    let offset: usize = first_not_below(sim_wl, t_wl[0]);
    if offset + t_wl.len() > sim_wl.len() {
        return (false, offset);
    }
    let mut i: usize = 0;
    while i < t_wl.len()
        invariant
            i <= t_wl.len(),
            t_wl.len() > 0,
            lead_below(sim_wl@, t_wl@[0], offset as int),
            offset + t_wl.len() <= sim_wl.len(),
            forall|j: int| 0 <= j < i ==> #[trigger] t_wl@[j] == sim_wl@[offset + j],
        decreases t_wl.len() - i,
    {
        if t_wl[i].bits != sim_wl[offset + i].bits {
            assert(t_wl@[i as int] != sim_wl@[offset + i as int]);
            return (false, offset);
        }
        i += 1;
    }
    (true, offset)
}

/// Where a point at `w` reads; the pointer moves forward from `p`.
fn resolve_sample<A: Numeric>(num: &A, sim_wl: &Vec<Scalar>, p: usize, w: Scalar) -> (r: (
    usize,
    SampleRef,
))
    requires
        p < sim_wl.len(),
        num.sound(),
    ensures
        r.0 < sim_wl.len(),
        moved_to(sim_wl@, p as int, r.0 as int, w),
        r.1 == sampled_at(*num, sim_wl@, r.0 as int, w),
        on_grid(r.1, sim_wl@.len() as int),
{
    let mut q: usize = p;
    while q + 1 < sim_wl.len() && sim_wl[q + 1].lt(w)
        invariant
            p <= q < sim_wl.len(),
            forall|i: int|
                p < i <= q ==> i < sim_wl@.len() && scalar::less(#[trigger] sim_wl@[i], w),
        decreases sim_wl.len() - q,
    {
        q += 1;
    }
    if q + 1 < sim_wl.len() && sim_wl[q].le(w) {
        let d: Scalar = gap_between(num, sim_wl[q + 1], sim_wl[q]);
        let s: SampleRef = if d.lt(Scalar { bits: SAME_POINT_BITS }) {
            SampleRef::Direct { at: q }
        } else {
            SampleRef::Between { at: q }
        };
        (q, s)
    } else {
        (q, SampleRef::Direct { at: q })
    }
}

/// The samples of a frame that overlaps the simulated grid.
fn sample_frame<A: Numeric>(num: &A, t_wl: &Vec<Scalar>, sim_wl: &Vec<Scalar>) -> (r: Vec<
    SampleRef,
>)
    requires
        t_wl.len() > 0,
        sim_wl.len() > 0,
        t_wl.len() + sim_wl.len() <= usize::MAX,
        num.sound(),
    ensures
        sampled(*num, t_wl@, sim_wl@, r@),
        forall|i: int| 0 <= i < r@.len() ==> on_grid(#[trigger] r@[i], sim_wl@.len() as int),
{
    let (aligned, offset) = alignment(t_wl, sim_wl);
    let mut out: Vec<SampleRef> = Vec::with_capacity(t_wl.len());
    let mut i: usize = 0;
    if aligned {
        while i < t_wl.len()
            invariant
                i <= t_wl.len(),
                offset + t_wl.len() <= sim_wl.len(),
                out.len() == i,
                forall|j: int|
                    0 <= j < i ==> #[trigger] out@[j] == (SampleRef::Direct {
                        at: (offset + j) as usize,
                    }) && on_grid(out@[j], sim_wl@.len() as int),
            decreases t_wl.len() - i,
        {
            out.push(SampleRef::Direct { at: offset + i });
            i += 1;
        }
        return out;
    }
    let mut p: usize = 0;
    let ghost mut path: Seq<int> = seq![];
    while i < t_wl.len()
        invariant
            i <= t_wl.len(),
            p < sim_wl.len(),
            num.sound(),
            out.len() == i,
            path.len() == i,
            i > 0 ==> path.last() == p,
            i == 0 ==> p == 0,
            forall|j: int|
                0 <= j < i ==> moved_to(
                    sim_wl@,
                    if j == 0 {
                        0
                    } else {
                        path[j - 1]
                    },
                    #[trigger] path[j],
                    t_wl@[j],
                ),
            forall|j: int|
                0 <= j < i ==> #[trigger] out@[j] == sampled_at(
                    *num,
                    sim_wl@,
                    path[j],
                    t_wl@[j],
                ) && on_grid(out@[j], sim_wl@.len() as int),
        decreases t_wl.len() - i,
    {
        let (q, s) = resolve_sample(num, sim_wl, p, t_wl[i]);
        proof {
            path = path.push(q as int);
        }
        p = q;
        out.push(s);
        i += 1;
    }
    assert(pointer_path(t_wl@, sim_wl@, path));
    out
}

fn is_covered(t_wl: &Vec<Scalar>, sim_wl: &Vec<Scalar>) -> (r: bool)
    ensures
        r == covered(t_wl@, sim_wl@),
{
    t_wl.len() > 0 && sim_wl.len() > 0 && !sim_wl[sim_wl.len() - 1].lt(t_wl[0]) && !t_wl[t_wl.len()
        - 1].lt(sim_wl[0])
}

fn has_intensity(sim: &SimCurves, id: CurveId) -> (r: bool)
    requires
        sim.wf(),
    ensures
        r == (sim.intensity(id) is Some),
{
    if id.is_back() {
        sim.back_curve(id).is_some()
    } else {
        sim.curve(id).is_some()
    }
}

pub(crate) fn is_present(sim: &SimCurves, curve: CurveId, phase: bool) -> (r: bool)
    requires
        sim.wf(),
    ensures
        r == present(sim, curve, phase),
{
    if phase {
        if curve.is_back() {
            sim.complex_back_curve(curve).is_some()
        } else {
            sim.complex_curve(curve).is_some()
        }
    } else {
        match curve.absorption_companions() {
            Some(pair) => has_intensity(sim, pair.0) && has_intensity(sim, pair.1),
            None => has_intensity(sim, curve),
        }
    }
}

impl MeritSpec {
    /// What key group `key_idx` reads of a simulation, or the curve that is
    /// missing.
    pub fn plan_key<A: Numeric>(&self, num: &A, sim: &SimCurves, key_idx: usize) -> (r: Result<
        KeyPlan,
        CurveId,
    >)
        requires
            self.wf(),
            sim.wf(),
            key_idx < self.key_seq().len(),
            sim.angles@.len() > 0 || sim.wavelengths@.len() == 0,
            forall|j: int|
                0 <= j < self.target_seq().len() ==> (
                #[trigger] self.target_seq()[j]).wavelengths@.len() + sim.wavelengths@.len()
                    <= usize::MAX,
            num.sound(),
        ensures
            match r {
                Ok(p) => {
                    &&& readable(self, sim, key_idx as int)
                    &&& planned(*num, self, sim, key_idx as int, &p)
                },
                Err(c) => {
                    &&& !readable(self, sim, key_idx as int)
                    &&& c == self.key_seq()[key_idx as int].curve
                },
            },
    {
        let key: MeritKey = self.keys()[key_idx];
        let ghost k = key_idx as int;
        let ghost ts = self.target_seq();
        let ghost cs = self.color_seq();
        let ghost sim_wl = sim.wavelengths@;
        let angle_row: usize = sim.angle_row(num, key.angle);
        let targets: &Vec<MeritTarget> = self.targets();
        let mut frames: Vec<FramePlan> = Vec::new();
        let mut j: usize = 0;
        while j < targets.len()
            invariant
                j <= targets.len(),
                targets@ == ts,
                ts == self.target_seq(),
                sim_wl == sim.wavelengths@,
                k == key_idx,
                key == self.key_seq()[k],
                sim.wf(),
                num.sound(),
                forall|j: int|
                    0 <= j < ts.len() ==> (#[trigger] ts[j]).wavelengths@.len() + sim_wl.len()
                        <= usize::MAX,
                forall|i: int|
                    0 <= i < j && (#[trigger] ts[i]).key_idx == k ==> present(
                        sim,
                        key.curve,
                        ts[i].phase,
                    ),
                frames@.len() == frames_of(ts, sim_wl, k, j as int).len(),
                forall|g: int|
                    0 <= g < frames@.len() ==> {
                        let f = #[trigger] frames@[g];
                        &&& f.target == frames_of(ts, sim_wl, k, j as int)[g]
                        &&& f.target < ts.len()
                        &&& sampled(
                            *num,
                            ts[frames_of(ts, sim_wl, k, j as int)[g]].wavelengths@,
                            sim_wl,
                            f.samples@,
                        )
                        &&& forall|i: int|
                            0 <= i < f.samples@.len() ==> on_grid(
                                #[trigger] f.samples@[i],
                                sim_wl.len() as int,
                            )
                    },
            decreases targets.len() - j,
        {
            let t: &MeritTarget = &targets[j];
            assert(*t == ts[j as int]);
            if t.key_idx as usize == key_idx {
                if !is_present(sim, key.curve, t.phase) {
                    return Err(key.curve);
                }
                if is_covered(&t.wavelengths, &sim.wavelengths) {
                    let samples: Vec<SampleRef> = sample_frame(
                        num,
                        &t.wavelengths,
                        &sim.wavelengths,
                    );
                    frames.push(FramePlan { target: j, samples });
                }
            }
            j += 1;
        }
        let demands: &Vec<ColorDemand> = self.color_demands();
        let mut colors: Vec<usize> = Vec::new();
        let mut c: usize = 0;
        while c < demands.len()
            invariant
                c <= demands.len(),
                demands@ == cs,
                cs == self.color_seq(),
                k == key_idx,
                key == self.key_seq()[k],
                sim.wf(),
                forall|i: int|
                    0 <= i < c && (#[trigger] cs[i]).key_idx == k ==> !key.curve.back()
                        && sim.intensity(key.curve) is Some,
                colors@.len() == colors_of(cs, k, c as int).len(),
                forall|g: int|
                    0 <= g < colors@.len() ==> #[trigger] colors@[g] == colors_of(cs, k, c as int)[g]
                        && colors@[g] < cs.len(),
            decreases demands.len() - c,
        {
            assert(demands@[c as int] == cs[c as int]);
            if demands[c].key_idx as usize == key_idx {
                if key.curve.is_back() || !has_intensity(sim, key.curve) {
                    return Err(key.curve);
                }
                colors.push(c);
            }
            c += 1;
        }
        Ok(KeyPlan { angle_row, frames, colors })
    }
}

/// The pointer can only have moved to one place.
proof fn one_move(sim_wl: Seq<Scalar>, from: int, a: int, b: int, w: Scalar)
    requires
        0 <= from < sim_wl.len(),
        moved_to(sim_wl, from, a, w),
        moved_to(sim_wl, from, b, w),
    ensures
        a == b,
{
    if a < b {
        assert(scalar::less(sim_wl[a + 1], w));
    } else if b < a {
        assert(scalar::less(sim_wl[b + 1], w));
    }
}

/// The pointer can only have taken one way.
proof fn one_path(t_wl: Seq<Scalar>, sim_wl: Seq<Scalar>, a: Seq<int>, b: Seq<int>, n: int)
    requires
        pointer_path(t_wl, sim_wl, a),
        pointer_path(t_wl, sim_wl, b),
        sim_wl.len() > 0,
        0 <= n < t_wl.len(),
    ensures
        a[n] == b[n],
        0 <= a[n] < sim_wl.len(),
    decreases n,
{
    let from = if n == 0 {
        0
    } else {
        a[n - 1]
    };
    if n > 0 {
        one_path(t_wl, sim_wl, a, b, n - 1);
    }
    assert(moved_to(sim_wl, from, a[n], t_wl[n]));
    assert(moved_to(sim_wl, from, b[n], t_wl[n]));
    one_move(sim_wl, from, a[n], b[n], t_wl[n]);
    if from < a[n] {
        assert(scalar::less(sim_wl[a[n]], t_wl[n]));
    }
}

/// A frame has one list of samples.
pub proof fn samples_are_settled<A: Numeric>(
    num: A,
    t_wl: Seq<Scalar>,
    sim_wl: Seq<Scalar>,
    a: Seq<SampleRef>,
    b: Seq<SampleRef>,
)
    requires
        sampled(num, t_wl, sim_wl, a),
        sampled(num, t_wl, sim_wl, b),
        sim_wl.len() > 0,
    ensures
        a == b,
{
    let x = choose|offset: int|
        {
            &&& #[trigger] lead_below(sim_wl, t_wl[0], offset)
            &&& if block_at(t_wl, sim_wl, offset) {
                forall|i: int|
                    0 <= i < a.len() ==> #[trigger] a[i] == (SampleRef::Direct {
                        at: (offset + i) as usize,
                    })
            } else {
                exists|path: Seq<int>|
                    {
                        &&& #[trigger] pointer_path(t_wl, sim_wl, path)
                        &&& forall|i: int|
                            0 <= i < a.len() ==> #[trigger] a[i] == sampled_at(
                                num,
                                sim_wl,
                                path[i],
                                t_wl[i],
                            )
                    }
            }
        };
    let y = choose|offset: int|
        {
            &&& #[trigger] lead_below(sim_wl, t_wl[0], offset)
            &&& if block_at(t_wl, sim_wl, offset) {
                forall|i: int|
                    0 <= i < b.len() ==> #[trigger] b[i] == (SampleRef::Direct {
                        at: (offset + i) as usize,
                    })
            } else {
                exists|path: Seq<int>|
                    {
                        &&& #[trigger] pointer_path(t_wl, sim_wl, path)
                        &&& forall|i: int|
                            0 <= i < b.len() ==> #[trigger] b[i] == sampled_at(
                                num,
                                sim_wl,
                                path[i],
                                t_wl[i],
                            )
                    }
            }
        };
    if x < y {
        assert(scalar::less(sim_wl[x], t_wl[0]));
    } else if y < x {
        assert(scalar::less(sim_wl[y], t_wl[0]));
    }
    if !block_at(t_wl, sim_wl, x) {
        let pa = choose|path: Seq<int>|
            {
                &&& #[trigger] pointer_path(t_wl, sim_wl, path)
                &&& forall|i: int|
                    0 <= i < a.len() ==> #[trigger] a[i] == sampled_at(
                        num,
                        sim_wl,
                        path[i],
                        t_wl[i],
                    )
            };
        let pb = choose|path: Seq<int>|
            {
                &&& #[trigger] pointer_path(t_wl, sim_wl, path)
                &&& forall|i: int|
                    0 <= i < b.len() ==> #[trigger] b[i] == sampled_at(
                        num,
                        sim_wl,
                        path[i],
                        t_wl[i],
                    )
            };
        assert forall|i: int| 0 <= i < a.len() implies a[i] == b[i] by {
            one_path(t_wl, sim_wl, pa, pb, i);
        }
    }
    assert(a =~= b);
}

/// A key group has one plan: the angle row, the frames and where each of
/// their points reads depend on the demands and the simulation alone.
pub proof fn a_plan_is_settled<A: Numeric>(
    num: A,
    spec: &MeritSpec,
    sim: &SimCurves,
    k: int,
    p: KeyPlan,
    q: KeyPlan,
)
    requires
        planned(num, spec, sim, k, &p),
        planned(num, spec, sim, k, &q),
    ensures
        p.angle_row == q.angle_row,
        p.frames@.len() == q.frames@.len(),
        forall|g: int|
            0 <= g < p.frames@.len() ==> (#[trigger] p.frames@[g]).target == q.frames@[g].target
                && p.frames@[g].samples@ == q.frames@[g].samples@,
        p.colors@ == q.colors@,
{
    let ts = spec.target_seq();
    let wl = sim.wavelengths@;
    let frames = frames_of(ts, wl, k, ts.len() as int);
    nearest::first_least_is_unique(
        nearest::distances(num, sim.angles@, spec.key_seq()[k].angle),
        p.angle_row as int,
        q.angle_row as int,
    );
    assert forall|g: int| 0 <= g < p.frames@.len() implies (#[trigger] p.frames@[g]).target
        == q.frames@[g].target && p.frames@[g].samples@ == q.frames@[g].samples@ by {
        assert(q.frames@[g].target == frames[g]);
        frames_are_covered(ts, wl, k, ts.len() as int, g);
        samples_are_settled(
            num,
            ts[frames[g]].wavelengths@,
            wl,
            p.frames@[g].samples@,
            q.frames@[g].samples@,
        );
    }
    assert(p.colors@ =~= q.colors@);
}

/// A frame that takes part overlaps the simulated grid.
pub proof fn frames_are_covered(ts: Seq<MeritTarget>, sim_wl: Seq<Scalar>, k: int, n: int, g: int)
    requires
        0 <= g < frames_of(ts, sim_wl, k, n).len(),
        n <= ts.len(),
    ensures
        0 <= frames_of(ts, sim_wl, k, n)[g] < n,
        ts[frames_of(ts, sim_wl, k, n)[g]].key_idx == k,
        covered(ts[frames_of(ts, sim_wl, k, n)[g]].wavelengths@, sim_wl),
    decreases n,
{
    if n > 0 && g < frames_of(ts, sim_wl, k, n - 1).len() {
        frames_are_covered(ts, sim_wl, k, n - 1, g);
    }
}

} // verus!
