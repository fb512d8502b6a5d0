//! From a target set to a merit specification.
use crate::merit::spec::{ColorDemand, MeritKey, MeritSpec, MeritTarget, TargetFault};
use crate::merit::{ConstraintKind, CurveId, SimTransform};
use crate::numeric;
use crate::numeric::Numeric;
use crate::scalar;
use crate::scalar::Scalar;
use crate::spectralweave::targetweaver::{ResolvedNormMode, TargetKind, TINY_BITS};
use crate::sorting;
use crate::sorting::sort_positions;
use crate::targets;
use crate::targets::color;
use crate::targets::color::{
    check_color_demand, check_curve, ColorRefusal, ColorRequest, ColorTables, RequestView,
};
use crate::targets::join;
use crate::targets::join::{
    export_all, join_all, list_angles, Export, ExportView,
};
use crate::targets::{
    differential, named_curve, ColorTargetJson, Place, TargetSet, Trouble, What,
};
use vstd::prelude::*;

verus! {

/// Why a target set was not compiled.
#[derive(Debug)]
pub enum CompileFault {
    /// A spectral or angular target is at fault.
    Curve { trouble: Trouble },
    /// A color demand was refused.
    Color { at: usize, refusal: ColorRefusal },
    /// The colorimetry did not accept a color demand.
    Inadmissible { at: usize, reason: String },
}

/// What a target frame holds.
#[verifier::ext_equal]
pub struct TargetView {
    pub key_idx: u32,
    pub wavelengths: Seq<Scalar>,
    pub kind: ConstraintKind,
    pub transform: SimTransform,
    pub norm_factor: Scalar,
    pub normalized_targets: Seq<Scalar>,
    pub tolerances: Seq<Scalar>,
    pub band: Seq<Scalar>,
    pub phase: bool,
    pub differential_passes: Option<Scalar>,
    pub weight: Scalar,
    pub count_norm: Option<Scalar>,
    pub integral: bool,
}

/// What a target frame holds.
pub open spec fn target_view(t: MeritTarget) -> TargetView {
    TargetView {
        key_idx: t.key_idx,
        wavelengths: t.wavelengths@,
        kind: t.kind,
        transform: t.transform,
        norm_factor: t.norm_factor,
        normalized_targets: t.normalized_targets@,
        tolerances: t.tolerances@,
        band: t.band@,
        phase: t.phase,
        differential_passes: t.differential_passes,
        weight: t.weight,
        count_norm: t.count_norm,
        integral: t.integral,
    }
}

/// What all target frames hold.
pub open spec fn targets_view(ts: Seq<MeritTarget>) -> Seq<TargetView> {
    ts.map_values(|t: MeritTarget| target_view(t))
}

/// A frame is refused, or not, by what it holds.
pub open spec fn view_fault(keys: Seq<MeritKey>, v: TargetView) -> Option<TargetFault> {
    crate::merit::spec::target_fault(keys, choose|t: MeritTarget| target_view(t) == v)
}

proof fn fault_of_view(keys: Seq<MeritKey>, t: MeritTarget)
    ensures
        crate::merit::spec::target_fault(keys, t) == view_fault(keys, target_view(t)),
{
    let v = target_view(t);
    let u = choose|u: MeritTarget| target_view(u) == v;
    assert(target_view(u) == v);
}

/// The constraint kind that a target kind stands for.
pub open spec fn constraint_of(k: TargetKind) -> ConstraintKind {
    match k {
        TargetKind::Exact => ConstraintKind::Exact,
        TargetKind::Above => ConstraintKind::Above,
        TargetKind::Below => ConstraintKind::Below,
        TargetKind::Range => ConstraintKind::Range,
        TargetKind::CenterBand => ConstraintKind::CenterBand,
    }
}

/// The transform that a normalization stands for.
pub open spec fn transform_of(m: ResolvedNormMode) -> SimTransform {
    match m {
        ResolvedNormMode::Linear => SimTransform::Linear,
        ResolvedNormMode::Log => SimTransform::Log,
        ResolvedNormMode::Phase => SimTransform::Phase,
        ResolvedNormMode::Complex => SimTransform::Complex,
    }
}

/// Targets and constraints share their codes, and so do normalizations and
/// transforms.
pub proof fn vocabularies_agree(k: TargetKind, m: ResolvedNormMode)
    ensures
        constraint_of(k).code() == k.code(),
        transform_of(m).code() == m.code(),
{
}

fn to_constraint(k: TargetKind) -> (r: ConstraintKind)
    ensures
        r == constraint_of(k),
{
    match k {
        TargetKind::Exact => ConstraintKind::Exact,
        TargetKind::Above => ConstraintKind::Above,
        TargetKind::Below => ConstraintKind::Below,
        TargetKind::Range => ConstraintKind::Range,
        TargetKind::CenterBand => ConstraintKind::CenterBand,
    }
}

fn to_transform(m: ResolvedNormMode) -> (r: SimTransform)
    ensures
        r == transform_of(m),
{
    match m {
        ResolvedNormMode::Linear => SimTransform::Linear,
        ResolvedNormMode::Log => SimTransform::Log,
        ResolvedNormMode::Phase => SimTransform::Phase,
        ResolvedNormMode::Complex => SimTransform::Complex,
    }
}

// ---------------------------------------------------------------------------
// Keys
// ---------------------------------------------------------------------------
/// The first key from `i` on for an angle (by its pattern) and a curve.
pub open spec fn key_at(keys: Seq<MeritKey>, angle: Scalar, curve: CurveId, i: int) -> int
    decreases keys.len() - i,
{
    if i >= keys.len() {
        keys.len() as int
    } else if keys[i].angle.bits == angle.bits && keys[i].curve == curve {
        i
    } else {
        key_at(keys, angle, curve, i + 1)
    }
}

/// The keys with one for an angle and a curve; the same keys if it is there.
pub open spec fn with_key(keys: Seq<MeritKey>, angle: Scalar, curve: CurveId) -> Seq<MeritKey> {
    if key_at(keys, angle, curve, 0) < keys.len() {
        keys
    } else {
        keys.push(MeritKey { angle, curve })
    }
}

/// A key's index among keys that have it.
fn get_key(spec: &mut MeritSpec, angle: Scalar, curve: CurveId) -> (r: u32)
    requires
        old(spec).wf(),
        old(spec).key_seq().len() < u32::MAX,
    ensures
        final(spec).wf(),
        final(spec).key_seq() == with_key(old(spec).key_seq(), angle, curve),
        final(spec).target_seq() == old(spec).target_seq(),
        final(spec).color_seq() == old(spec).color_seq(),
        r == key_at(old(spec).key_seq(), angle, curve, 0),
        r < final(spec).key_seq().len(),
{
    let ghost keys = spec.key_seq();
    let n: usize = spec.key_count();
    let mut i: usize = 0;
    while i < n
        invariant
            spec.wf(),
            n == keys.len(),
            n < u32::MAX,
            keys == spec.key_seq(),
            keys == old(spec).key_seq(),
            spec.target_seq() == old(spec).target_seq(),
            spec.color_seq() == old(spec).color_seq(),
            i <= n,
            key_at(keys, angle, curve, i as int) == key_at(keys, angle, curve, 0),
        decreases n - i,
    {
        let k: MeritKey = spec.keys()[i];
        if k.angle.bits == angle.bits && k.curve == curve {
            return i as u32;
        }
        i += 1;
    }
    let at: usize = spec.add_key(MeritKey { angle, curve });
    at as u32
}

/// Looking a key up again finds it where it was put.
pub proof fn a_key_stays_where_it_is(keys: Seq<MeritKey>, angle: Scalar, curve: CurveId)
    ensures
        with_key(with_key(keys, angle, curve), angle, curve) == with_key(keys, angle, curve),
        key_at(with_key(keys, angle, curve), angle, curve, 0) == key_at(keys, angle, curve, 0),
{
    let after = with_key(keys, angle, curve);
    key_at_push(keys, angle, curve, 0);
    assert(key_at(after, angle, curve, 0) < after.len());
}

proof fn key_at_push(keys: Seq<MeritKey>, angle: Scalar, curve: CurveId, i: int)
    requires
        0 <= i <= keys.len(),
    ensures
        key_at(keys, angle, curve, i) <= keys.len(),
        key_at(keys.push(MeritKey { angle, curve }), angle, curve, i) == key_at(
            keys,
            angle,
            curve,
            i,
        ),
    decreases keys.len() - i,
{
    let after = keys.push(MeritKey { angle, curve });
    if i < keys.len() {
        assert(after[i] == keys[i]);
        key_at_push(keys, angle, curve, i + 1);
    } else {
        assert(after[i] == (MeritKey { angle, curve }));
    }
}

// ---------------------------------------------------------------------------
// Jobs
// ---------------------------------------------------------------------------
/// One frame to write: an entry, and the target it belongs to.
#[derive(Clone, Copy, Debug, PartialEq, Eq, Structural)]
pub struct Job {
    pub group: usize,
    pub entry: usize,
    pub place: Place,
}

/// The jobs of one target with its frame: one for a spectral target, one per
/// angle in ascending order for an angular one.
pub open spec fn jobs_of(
    gs: Seq<Seq<ExportView>>,
    set: TargetSet,
    picked: Seq<Option<usize>>,
    k: int,
) -> Seq<Job> {
    let g = picked[k]->0;
    if k < set.spectral@.len() {
        seq![Job { group: g, entry: 0, place: join::place_of(set, k) }]
    } else {
        let order = sorting::order_of(join::angles_of(gs[g as int]));
        Seq::new(
            order.len(),
            |j: int| Job { group: g, entry: order[j], place: join::place_of(set, k) },
        )
    }
}

/// The jobs of the first `k` targets.
pub open spec fn jobs_upto(
    gs: Seq<Seq<ExportView>>,
    set: TargetSet,
    picked: Seq<Option<usize>>,
    k: int,
) -> Seq<Job>
    decreases k,
{
    if k <= 0 {
        seq![]
    } else {
        jobs_upto(gs, set, picked, k - 1) + jobs_of(gs, set, picked, k - 1)
    }
}

/// What of a target goes into its frames: labels, phase and weight.
pub struct Asked {
    pub spectral: Seq<char>,
    pub polarization: Seq<char>,
    pub phase: bool,
    pub weight: Scalar,
}

pub open spec fn asked_at(set: TargetSet, place: Place) -> Asked {
    match place {
        Place::Spectral { at } => {
            let t = set.spectral@[at as int];
            Asked {
                spectral: t.spectral@,
                polarization: t.polarization@,
                phase: t.phase,
                weight: t.weight,
            }
        },
        Place::Angular { at } => {
            let t = set.angular@[at as int];
            Asked {
                spectral: t.spectral@,
                polarization: t.polarization@,
                phase: t.phase,
                weight: t.weight,
            }
        },
    }
}

/// Keys and frames written so far.
#[verifier::ext_equal]
pub struct Written {
    pub keys: Seq<MeritKey>,
    pub frames: Seq<TargetView>,
}

/// Every value divided.
pub open spec fn divided<A: Numeric>(num: A, vs: Seq<Scalar>, by: Scalar) -> Seq<Scalar> {
    Seq::new(vs.len(), |i: int| num.quotient(vs[i], by))
}

/// The frame of an entry. A phase goes back to raw values: the factor is
/// divided out of targets and half-widths and becomes one.
pub open spec fn frame_of<A: Numeric>(
    num: A,
    e: ExportView,
    ask: Asked,
    key_idx: u32,
) -> TargetView {
    let by = scalar::greater(e.entry.norm_factor, (Scalar { bits: TINY_BITS }));
    TargetView {
        key_idx,
        wavelengths: e.wavelengths,
        kind: constraint_of(e.entry.kind),
        transform: if ask.phase {
            SimTransform::Phase
        } else {
            transform_of(e.entry.resolved_mode)
        },
        norm_factor: if ask.phase {
            Scalar::one()
        } else {
            e.entry.norm_factor
        },
        normalized_targets: if ask.phase {
            divided(num, e.entry.normalized_targets, by)
        } else {
            e.entry.normalized_targets
        },
        tolerances: e.entry.tolerances,
        band: if ask.phase {
            divided(num, e.entry.band, by)
        } else {
            e.entry.band
        },
        phase: ask.phase,
        differential_passes: if targets::reference_phase(ask.spectral) is Some {
            Some(Scalar::one())
        } else {
            None
        },
        weight: ask.weight,
        count_norm: e.entry.count_norm,
        integral: e.entry.integral,
    }
}

/// The frame that a job writes after `w`.
pub open spec fn job_frame<A: Numeric>(
    num: A,
    gs: Seq<Seq<ExportView>>,
    set: TargetSet,
    w: Written,
    job: Job,
) -> TargetView {
    let e = gs[job.group as int][job.entry as int];
    let ask = asked_at(set, job.place);
    let curve = targets::curve_named(ask.spectral, ask.polarization);
    frame_of(num, e, ask, key_at(w.keys, e.angle, curve, 0) as u32)
}

/// The keys after a job.
pub open spec fn job_keys(
    gs: Seq<Seq<ExportView>>,
    set: TargetSet,
    w: Written,
    job: Job,
) -> Seq<MeritKey> {
    let e = gs[job.group as int][job.entry as int];
    let ask = asked_at(set, job.place);
    with_key(w.keys, e.angle, targets::curve_named(ask.spectral, ask.polarization))
}

/// What is wrong with a job after `w`.
pub open spec fn job_fault<A: Numeric>(
    num: A,
    gs: Seq<Seq<ExportView>>,
    set: TargetSet,
    w: Written,
    job: Job,
) -> Option<What> {
    let ask = asked_at(set, job.place);
    if !targets::labels_known(ask.spectral, ask.polarization) {
        Some(What::Curve)
    } else if targets::reference_phase(ask.spectral) is Some && !ask.phase {
        Some(What::NeedsPhase)
    } else {
        match view_fault(job_keys(gs, set, w, job), job_frame(num, gs, set, w, job)) {
            Some(refusal) => Some(What::Refused { refusal }),
            None => None,
        }
    }
}

/// Keys and frames after the first `n` jobs.
pub open spec fn written<A: Numeric>(
    num: A,
    gs: Seq<Seq<ExportView>>,
    set: TargetSet,
    jobs: Seq<Job>,
    n: int,
) -> Written
    decreases n,
{
    if n <= 0 {
        Written { keys: seq![], frames: seq![] }
    } else {
        let w = written(num, gs, set, jobs, n - 1);
        Written {
            keys: job_keys(gs, set, w, jobs[n - 1]),
            frames: w.frames.push(job_frame(num, gs, set, w, jobs[n - 1])),
        }
    }
}

/// The first job from `n` on that fails.
pub open spec fn job_trouble<A: Numeric>(
    num: A,
    gs: Seq<Seq<ExportView>>,
    set: TargetSet,
    jobs: Seq<Job>,
    n: int,
) -> Option<Trouble>
    decreases jobs.len() - n,
{
    if n >= jobs.len() {
        None
    } else {
        match job_fault(num, gs, set, written(num, gs, set, jobs, n), jobs[n]) {
            Some(what) => Some(Trouble { place: jobs[n].place, what }),
            None => job_trouble(num, gs, set, jobs, n + 1),
        }
    }
}

/// The jobs of a whole set.
pub open spec fn all_jobs<A: Numeric, L: Fn(Scalar) -> Scalar>(
    num: A,
    log10: L,
    set: TargetSet,
) -> Seq<Job> {
    let gs = join::exported(num, log10, set);
    let n = join::curve_count(set);
    jobs_upto(gs, set, join::picks(num, gs, set, n), n)
}

/// The first thing wrong with the curve targets of a set: on intake, in the
/// join, or when a frame is written.
pub open spec fn curve_trouble<A: Numeric, L: Fn(Scalar) -> Scalar>(
    num: A,
    log10: L,
    set: TargetSet,
) -> Option<Trouble> {
    let gs = join::exported(num, log10, set);
    let picked = join::picks(num, gs, set, join::curve_count(set));
    if join::intake_trouble(set) is Some {
        join::intake_trouble(set)
    } else if join::unmatched_from(set, picked, 0) is Some {
        join::unmatched_from(set, picked, 0)
    } else {
        job_trouble(num, gs, set, all_jobs(num, log10, set), 0)
    }
}

/// Keys and frames of the curve targets of a set.
pub open spec fn curves_written<A: Numeric, L: Fn(Scalar) -> Scalar>(
    num: A,
    log10: L,
    set: TargetSet,
) -> Written {
    let jobs = all_jobs(num, log10, set);
    written(num, join::exported(num, log10, set), set, jobs, jobs.len() as int)
}

// ---------------------------------------------------------------------------
// Color
// ---------------------------------------------------------------------------
/// The colorimetry was asked for what `want` holds, and answered.
pub open spec fn asked<F: Fn(ColorRequest) -> Result<usize, String>>(
    accept: F,
    want: RequestView,
    answer: Result<usize, String>,
) -> bool {
    exists|q: ColorRequest| #[trigger] call_ensures(accept, (q,), answer) && q@ == want
}

/// The first `n` color demands are acceptable and were accepted.
pub open spec fn accepted<F: Fn(ColorRequest) -> Result<usize, String>>(
    accept: F,
    colors: Seq<ColorTargetJson>,
    tables: ColorTables,
    answers: Seq<Result<usize, String>>,
    n: int,
) -> bool {
    forall|c: int|
        0 <= c < n ==> {
            &&& color::color_fault(colors[c]) is None
            &&& (#[trigger] answers[c]) is Ok
            &&& asked(accept, color::request_of(colors[c], tables), answers[c])
        }
}

/// The keys after the first `n` color demands.
pub open spec fn color_keys(
    keys: Seq<MeritKey>,
    colors: Seq<ColorTargetJson>,
    n: int,
) -> Seq<MeritKey>
    decreases n,
{
    if n <= 0 {
        keys
    } else {
        with_key(
            color_keys(keys, colors, n - 1),
            colors[n - 1].angle,
            color::coded_curve(colors[n - 1].curve@),
        )
    }
}

/// The `c`-th color demand as it is written: under the key of its angle and
/// curve, which it shares with curve targets, and by the name it was given.
pub open spec fn color_written(
    keys: Seq<MeritKey>,
    colors: Seq<ColorTargetJson>,
    answers: Seq<Result<usize, String>>,
    c: int,
) -> ColorDemand {
    ColorDemand {
        key_idx: key_at(
            color_keys(keys, colors, c),
            colors[c].angle,
            color::coded_curve(colors[c].curve@),
            0,
        ) as u32,
        id: answers[c]->Ok_0,
    }
}

/// What comes of the color demands, given what the colorimetry answered.
pub open spec fn colored<F: Fn(ColorRequest) -> Result<usize, String>>(
    accept: F,
    set: TargetSet,
    tables: ColorTables,
    w: Written,
    answers: Seq<Result<usize, String>>,
    r: Result<MeritSpec, CompileFault>,
) -> bool {
    let colors = set.color@;
    match r {
        Ok(spec) => {
            &&& answers.len() == colors.len()
            &&& accepted(accept, colors, tables, answers, colors.len() as int)
            &&& spec.wf()
            &&& spec.key_seq() == color_keys(w.keys, colors, colors.len() as int)
            &&& targets_view(spec.target_seq()) == w.frames
            &&& spec.color_seq() == Seq::new(
                colors.len(),
                |c: int| color_written(w.keys, colors, answers, c),
            )
        },
        Err(CompileFault::Color { at, refusal }) => {
            &&& at < colors.len()
            &&& answers.len() == at
            &&& accepted(accept, colors, tables, answers, at as int)
            &&& color::color_fault(colors[at as int]) == Some(refusal)
        },
        Err(CompileFault::Inadmissible { at, reason }) => {
            &&& at < colors.len()
            &&& answers.len() == at + 1
            &&& accepted(accept, colors, tables, answers, at as int)
            &&& color::color_fault(colors[at as int]) is None
            &&& answers[at as int] == Err::<usize, String>(reason)
            &&& asked(accept, color::request_of(colors[at as int], tables), answers[at as int])
        },
        Err(_) => false,
    }
}

// ---------------------------------------------------------------------------
// Compilation
// ---------------------------------------------------------------------------
/// How many frames and color demands a set asks for, at most: the angles of
/// the first `n` angular targets.
pub open spec fn angle_count(set: TargetSet, n: int) -> nat
    decreases n,
{
    if n <= 0 {
        0
    } else {
        angle_count(set, n - 1) + set.angular@[n - 1].angles@.len()
    }
}

/// How many frames and color demands a set asks for.
pub open spec fn demand_count(set: TargetSet) -> nat {
    set.spectral@.len() + angle_count(set, set.angular@.len() as int) + set.color@.len()
}

fn divide_all<A: Numeric>(num: &A, vs: &Vec<Scalar>, by: Scalar) -> (r: Vec<Scalar>)
    requires
        num.sound(),
    ensures
        r@ == divided(*num, vs@, by),
{
    let ghost goal = divided(*num, vs@, by);
    let mut out: Vec<Scalar> = Vec::with_capacity(vs.len());
    let mut i: usize = 0;
    while i < vs.len()
        invariant
            num.sound(),
            goal == divided(*num, vs@, by),
            i <= vs@.len(),
            out@ == goal.take(i as int),
        decreases vs.len() - i,
    {
        out.push(num.over(vs[i], by));
        i += 1;
        assert(out@ =~= goal.take(i as int));
    }
    assert(out@ =~= goal);
    out
}

/// All picked frames exist and those of angular targets have an entry per
/// angle.
spec fn picks_fit(gs: Seq<Seq<ExportView>>, set: TargetSet, v: Seq<usize>) -> bool {
    forall|k: int|
        0 <= k < v.len() ==> {
            &&& (#[trigger] v[k]) < gs.len()
            &&& k < set.spectral@.len() ==> gs[v[k] as int].len() == 1
            &&& k >= set.spectral@.len() ==> gs[v[k] as int].len() == set.angular@[k
                - set.spectral@.len()].angles@.len()
        }
}

proof fn found_spectral_fits<A: Numeric>(
    num: A,
    gs: Seq<Seq<ExportView>>,
    taken: Seq<Option<usize>>,
    t: targets::SpectralTarget,
    i: int,
)
    requires
        0 <= i,
        gs.len() <= usize::MAX,
    ensures
        join::free_spectral(num, gs, taken, t, i) matches Some(g) ==> g < gs.len()
            && join::fits_spectral(num, gs[g as int], t),
    decreases gs.len() - i,
{
    if i < gs.len() {
        found_spectral_fits(num, gs, taken, t, i + 1);
    }
}

proof fn found_angular_fits<A: Numeric>(
    num: A,
    gs: Seq<Seq<ExportView>>,
    taken: Seq<Option<usize>>,
    t: targets::AngularTarget,
    i: int,
)
    requires
        0 <= i,
        gs.len() <= usize::MAX,
    ensures
        join::free_angular(num, gs, taken, t, i) matches Some(g) ==> g < gs.len()
            && join::fits_angular(num, gs[g as int], t),
    decreases gs.len() - i,
{
    if i < gs.len() {
        found_angular_fits(num, gs, taken, t, i + 1);
    }
}

/// Every target that has a frame has one that fits it.
pub proof fn picked_frames_fit<A: Numeric>(
    num: A,
    gs: Seq<Seq<ExportView>>,
    set: TargetSet,
    n: int,
    k: int,
)
    requires
        0 <= k < n,
        gs.len() <= usize::MAX,
    ensures
        join::picks(num, gs, set, n)[k] matches Some(g) ==> {
            &&& g < gs.len()
            &&& k < set.spectral@.len() ==> join::fits_spectral(
                num,
                gs[g as int],
                set.spectral@[k],
            )
            &&& k >= set.spectral@.len() ==> join::fits_angular(
                num,
                gs[g as int],
                set.angular@[k - set.spectral@.len()],
            )
        },
    decreases n,
{
    join::picks_len(num, gs, set, n - 1);
    if k < n - 1 {
        picked_frames_fit(num, gs, set, n - 1, k);
    } else {
        let before = join::picks(num, gs, set, k);
        if k < set.spectral@.len() {
            found_spectral_fits(num, gs, before, set.spectral@[k], 0);
        } else {
            found_angular_fits(
                num,
                gs,
                before,
                set.angular@[k - set.spectral@.len()],
                0,
            );
        }
    }
}

/// Lists the jobs of all targets.
fn list_jobs(
    groups: &Vec<Vec<Export>>,
    set: &TargetSet,
    picked: &Vec<usize>,
    Ghost(p): Ghost<Seq<Option<usize>>>,
) -> (r: Vec<Job>)
    requires
        set.spectral@.len() <= picked@.len(),
        picked@.len() == join::curve_count(*set),
        p.len() == picked@.len(),
        forall|k: int| 0 <= k < picked@.len() ==> p[k] == Some(#[trigger] picked@[k]),
        picks_fit(join::groups_view(groups@), *set, picked@),
    ensures
        r@ == jobs_upto(join::groups_view(groups@), *set, p, picked@.len() as int),
        jobs_point(r@, join::groups_view(groups@), *set),
        r@.len() == set.spectral@.len() + angle_count(*set, set.angular@.len() as int),
{
    let ghost gs = join::groups_view(groups@);
    let ns: usize = set.spectral.len();
    let mut out: Vec<Job> = Vec::new();
    let mut k: usize = 0;
    while k < picked.len()
        invariant
            gs == join::groups_view(groups@),
            ns == set.spectral@.len(),
            picked@.len() == join::curve_count(*set),
            p.len() == picked@.len(),
            forall|k: int| 0 <= k < picked@.len() ==> p[k] == Some(#[trigger] picked@[k]),
            picks_fit(gs, *set, picked@),
            k <= picked@.len(),
            out@ == jobs_upto(gs, *set, p, k as int),
            jobs_point(out@, gs, *set),
            k <= ns ==> out@.len() == k,
            k >= ns ==> out@.len() == ns + angle_count(*set, k - ns),
        decreases picked.len() - k,
    {
        let g: usize = picked[k];
        let ghost before = out@;
        if k < ns {
            let job: Job = Job { group: g, entry: 0, place: Place::Spectral { at: k } };
            out.push(job);
            assert(out@ =~= before + jobs_of(gs, *set, p, k as int));
        } else {
            let place: Place = Place::Angular { at: k - ns };
            assert(gs[g as int] == join::group_view(groups@[g as int]@));
            let order: Vec<usize> = sort_positions(&list_angles(&groups[g]));
            let ghost more = jobs_of(gs, *set, p, k as int);
            let mut j: usize = 0;
            assert(more.take(0) =~= seq![]);
            while j < order.len()
                invariant
                    gs == join::groups_view(groups@),
                    ns == set.spectral@.len(),
                    ns <= k < picked@.len(),
                    picked@.len() == join::curve_count(*set),
                    g < gs.len(),
                    place == (Place::Angular { at: (k - ns) as usize }),
                    order@ == sorting::order_of(join::angles_of(gs[g as int])),
                    order@.len() == gs[g as int].len(),
                    forall|i: int|
                        0 <= i < order@.len() ==> (#[trigger] order@[i]) < gs[g as int].len(),
                    p[k as int] == Some(g),
                    more == jobs_of(gs, *set, p, k as int),
                    j <= order@.len(),
                    out@ == before + more.take(j as int),
                    jobs_point(out@, gs, *set),
                decreases order.len() - j,
            {
                let job: Job = Job { group: g, entry: order[j], place };
                let ghost prev = out@;
                out.push(job);
                assert(more[j as int] == job);
                j += 1;
                assert(out@ =~= before + more.take(j as int));
            }
            assert(more.take(j as int) =~= more);
            assert(more.len() == set.angular@[k - ns].angles@.len()) by {
                assert(picked@[k as int] == g);
            }
        }
        k += 1;
    }
    out
}

/// Jobs point at entries and targets that exist.
spec fn jobs_point(jobs: Seq<Job>, gs: Seq<Seq<ExportView>>, set: TargetSet) -> bool {
    forall|n: int| 0 <= n < jobs.len() ==> points(#[trigger] jobs[n], gs, set)
}

spec fn points(job: Job, gs: Seq<Seq<ExportView>>, set: TargetSet) -> bool {
    &&& job.group < gs.len()
    &&& job.entry < gs[job.group as int].len()
    &&& match job.place {
        Place::Spectral { at } => at < set.spectral@.len(),
        Place::Angular { at } => at < set.angular@.len(),
    }
}

/// Writes one frame, or says what is wrong.
fn run_job<A: Numeric>(
    num: &A,
    groups: &Vec<Vec<Export>>,
    set: &TargetSet,
    job: Job,
    spec: &mut MeritSpec,
) -> (r: Option<What>)
    requires
        num.sound(),
        old(spec).wf(),
        old(spec).key_seq().len() < u32::MAX,
        points(job, join::groups_view(groups@), *set),
    ensures
        ({
            let gs = join::groups_view(groups@);
            let w = Written {
                keys: old(spec).key_seq(),
                frames: targets_view(old(spec).target_seq()),
            };
            &&& r == job_fault(*num, gs, *set, w, job)
            &&& r is None ==> {
                &&& final(spec).wf()
                &&& final(spec).key_seq() == job_keys(gs, *set, w, job)
                &&& targets_view(final(spec).target_seq()) == w.frames.push(
                    job_frame(*num, gs, *set, w, job),
                )
                &&& final(spec).color_seq() == old(spec).color_seq()
            }
        }),
{
    let ghost gs = join::groups_view(groups@);
    let ghost w = Written {
        keys: spec.key_seq(),
        frames: targets_view(spec.target_seq()),
    };
    let e: &Export = &groups[job.group][job.entry];
    proof {
        assert(gs[job.group as int] == join::group_view(groups@[job.group as int]@));
        assert(gs[job.group as int][job.entry as int] == e@);
    }
    let (spectral, polarization, phase, weight): (&String, &String, bool, Scalar) =
        match job.place {
        Place::Spectral { at } => {
            let t: &targets::SpectralTarget = &set.spectral[at];
            (&t.spectral, &t.polarization, t.phase, t.weight)
        },
        Place::Angular { at } => {
            let t: &targets::AngularTarget = &set.angular[at];
            (&t.spectral, &t.polarization, t.phase, t.weight)
        },
    };
    let curve: CurveId = match named_curve(spectral.as_str(), polarization.as_str()) {
        Some(c) => c,
        None => {
            return Some(What::Curve);
        },
    };
    proof {
        assert(targets::labels_known(spectral@, polarization@));
    }
    let key_idx: u32 = get_key(spec, e.angle, curve);
    let passes: Option<Scalar> = match differential(spectral.as_str()) {
        Some((_, _, n)) => Some(n),
        None => None,
    };
    if passes.is_some() && !phase {
        return Some(What::NeedsPhase);
    }
    let (values, band, transform, factor): (Vec<Scalar>, Vec<Scalar>, SimTransform, Scalar) =
        if phase {
        let by: Scalar = e.entry.norm_factor.max(Scalar { bits: TINY_BITS });
        (
            divide_all(num, &e.entry.normalized_targets, by),
            divide_all(num, &e.entry.band, by),
            SimTransform::Phase,
            Scalar::one(),
        )
    } else {
        (
            numeric::copy(&e.entry.normalized_targets),
            numeric::copy(&e.entry.band),
            to_transform(e.entry.resolved_mode),
            e.entry.norm_factor,
        )
    };
    let frame: MeritTarget = MeritTarget {
        key_idx,
        wavelengths: numeric::copy(&e.wavelengths),
        kind: to_constraint(e.entry.kind),
        transform,
        norm_factor: factor,
        normalized_targets: values,
        tolerances: numeric::copy(&e.entry.tolerances),
        band,
        phase,
        differential_passes: passes,
        weight,
        count_norm: e.entry.count_norm,
        integral: e.entry.integral,
    };
    let ghost before = spec.target_seq();
    let ghost keys = spec.key_seq();
    proof {
        assert(target_view(frame) =~= job_frame(*num, gs, *set, w, job));
        fault_of_view(keys, frame);
    }
    match spec.add_target(frame) {
        Ok(_) => {
            assert(targets_view(spec.target_seq()) =~= targets_view(before).push(
                target_view(frame),
            ));
            None
        },
        Err(refusal) => Some(What::Refused { refusal }),
    }
}

/// Compiles the curve targets of a set.
fn compile_curves<A: Numeric, L: Fn(Scalar) -> Scalar>(
    num: &A,
    log10: &L,
    set: &TargetSet,
) -> (r: Result<MeritSpec, Trouble>)
    requires
        num.sound(),
        numeric::settled_image(*log10),
        demand_count(*set) < u32::MAX,
        set.spectral@.len() + set.angular@.len() <= usize::MAX,
        join::intake_trouble(*set) is None ==> join::sortable(
            *num,
            join::exported(*num, *log10, *set),
            *set,
        ),
    ensures
        match r {
            Ok(spec) => {
                let w = curves_written(*num, *log10, *set);
                &&& curve_trouble(*num, *log10, *set) is None
                &&& spec.wf()
                &&& spec.key_seq() == w.keys
                &&& targets_view(spec.target_seq()) == w.frames
                &&& spec.color_seq() == Seq::<ColorDemand>::empty()
                &&& spec.key_seq().len() + set.color@.len() < u32::MAX
            },
            Err(f) => curve_trouble(*num, *log10, *set) == Some(f),
        },
{
    let groups: Vec<Vec<Export>> = match export_all(num, log10, set) {
        Ok(g) => g,
        Err(f) => {
            return Err(f);
        },
    };
    let ghost gs = join::groups_view(groups@);
    let ghost p = join::picks(*num, gs, *set, join::curve_count(*set));
    let picked: Vec<usize> = match join_all(num, &groups, set) {
        Ok(v) => v,
        Err(f) => {
            return Err(f);
        },
    };
    let many: usize = groups.len();
    proof {
        join::picks_len(*num, gs, *set, join::curve_count(*set));
        assert(gs.len() == many);
        assert forall|k: int| 0 <= k < picked@.len() implies {
            &&& (#[trigger] picked@[k]) < gs.len()
            &&& k < set.spectral@.len() ==> gs[picked@[k] as int].len() == 1
            &&& k >= set.spectral@.len() ==> gs[picked@[k] as int].len() == set.angular@[k
                - set.spectral@.len()].angles@.len()
        } by {
            picked_frames_fit(*num, gs, *set, join::curve_count(*set), k);
            assert(p[k] == Some(picked@[k]));
        }
    }
    let jobs: Vec<Job> = list_jobs(&groups, set, &picked, Ghost(p));
    let mut spec: MeritSpec = MeritSpec::new();
    assert(targets_view(spec.target_seq()) =~= seq![]);
    let mut n: usize = 0;
    while n < jobs.len()
        invariant
            num.sound(),
            gs == join::groups_view(groups@),
            gs == join::exported(*num, *log10, *set),
            jobs@ == all_jobs(*num, *log10, *set),
            jobs_point(jobs@, gs, *set),
            jobs@.len() + set.color@.len() < u32::MAX,
            curve_trouble(*num, *log10, *set) == job_trouble(*num, gs, *set, jobs@, 0),
            n <= jobs@.len(),
            spec.wf(),
            spec.key_seq() == written(*num, gs, *set, jobs@, n as int).keys,
            targets_view(spec.target_seq()) == written(*num, gs, *set, jobs@, n as int).frames,
            spec.color_seq() == Seq::<ColorDemand>::empty(),
            spec.key_seq().len() <= n,
            job_trouble(*num, gs, *set, jobs@, n as int) == job_trouble(
                *num,
                gs,
                *set,
                jobs@,
                0,
            ),
        decreases jobs.len() - n,
    {
        assert(points(jobs@[n as int], gs, *set));
        let ghost w = written(*num, gs, *set, jobs@, n as int);
        assert(w =~= Written {
            keys: spec.key_seq(),
            frames: targets_view(spec.target_seq()),
        });
        match run_job(num, &groups, set, jobs[n], &mut spec) {
            Some(what) => {
                return Err(Trouble { place: jobs[n].place, what });
            },
            None => {},
        }
        n += 1;
    }
    Ok(spec)
}

/// Compiles a target set. `accept` lets the colorimetry take a resolved color
/// demand and name it, or say why not.
pub fn compile_merit_spec<
    A: Numeric,
    L: Fn(Scalar) -> Scalar,
    F: Fn(ColorRequest) -> Result<usize, String>,
>(num: &A, log10: &L, set: &TargetSet, tables: &ColorTables, accept: &F) -> (r: Result<
    MeritSpec,
    CompileFault,
>)
    requires
        num.sound(),
        numeric::settled_image(*log10),
        forall|q: ColorRequest| #[trigger] call_requires(*accept, (q,)),
        demand_count(*set) < u32::MAX,
        set.spectral@.len() + set.angular@.len() <= usize::MAX,
        join::intake_trouble(*set) is None ==> join::sortable(
            *num,
            join::exported(*num, *log10, *set),
            *set,
        ),
    ensures
        match curve_trouble(*num, *log10, *set) {
            Some(trouble) => r == Err::<MeritSpec, CompileFault>(CompileFault::Curve { trouble }),
            None => exists|answers: Seq<Result<usize, String>>|
                #[trigger] colored(
                    *accept,
                    *set,
                    *tables,
                    curves_written(*num, *log10, *set),
                    answers,
                    r,
                ),
        },
{
    let mut spec: MeritSpec = match compile_curves(num, log10, set) {
        Ok(s) => s,
        Err(trouble) => {
            return Err(CompileFault::Curve { trouble });
        },
    };
    let ghost w = curves_written(*num, *log10, *set);
    let ghost mut answers: Seq<Result<usize, String>> = seq![];
    let ghost colors = set.color@;
    let mut c: usize = 0;
    while c < set.color.len()
        invariant
            forall|q: ColorRequest| #[trigger] call_requires(*accept, (q,)),
            colors == set.color@,
            curve_trouble(*num, *log10, *set) is None,
            w == curves_written(*num, *log10, *set),
            c <= colors.len(),
            answers.len() == c,
            accepted(*accept, colors, *tables, answers, c as int),
            spec.wf(),
            spec.key_seq() == color_keys(w.keys, colors, c as int),
            spec.key_seq().len() + (colors.len() - c) < u32::MAX,
            targets_view(spec.target_seq()) == w.frames,
            spec.color_seq() == Seq::new(
                c as nat,
                |i: int| color_written(w.keys, colors, answers, i),
            ),
        decreases set.color.len() - c,
    {
        let t: &ColorTargetJson = &set.color[c];
        let request: ColorRequest = match check_color_demand(t, tables) {
            Ok(q) => q,
            Err(refusal) => {
                let r: Result<MeritSpec, CompileFault> = Err(
                    CompileFault::Color { at: c, refusal },
                );
                assert(colored(*accept, *set, *tables, w, answers, r));
                return r;
            },
        };
        let ghost want = request@;
        let answer: Result<usize, String> = accept(request);
        proof {
            assert(asked(*accept, want, answer));
        }
        let ghost before = answers;
        proof {
            answers = answers.push(answer);
            assert forall|i: int| 0 <= i < c implies {
                &&& color::color_fault(colors[i]) is None
                &&& (#[trigger] answers[i]) is Ok
                &&& asked(*accept, color::request_of(colors[i], *tables), answers[i])
            } by {
                assert(answers[i] == before[i]);
            }
        }
        let id: usize = match answer {
            Ok(id) => id,
            Err(reason) => {
                let r: Result<MeritSpec, CompileFault> = Err(
                    CompileFault::Inadmissible { at: c, reason },
                );
                assert(colored(*accept, *set, *tables, w, answers, r));
                return r;
            },
        };
        match check_curve(t.curve.as_str()) {
            Ok(curve) => {
                let ghost list = spec.color_seq();
                let key_idx: u32 = get_key(&mut spec, t.angle, curve);
                let _r: Result<(), TargetFault> = spec.add_color_demand(
                    ColorDemand { key_idx, id },
                );
                assert(spec.color_seq() =~= Seq::new(
                    (c + 1) as nat,
                    |i: int| color_written(w.keys, colors, answers, i),
                )) by {
                    assert forall|i: int| 0 <= i < c implies spec.color_seq()[i]
                        == color_written(w.keys, colors, answers, i) by {
                        assert(list[i] == color_written(w.keys, colors, before, i));
                        assert(answers[i] == before[i]);
                    }
                }
            },
            Err(_) => {},
        }
        c += 1;
    }
    let r: Result<MeritSpec, CompileFault> = Ok(spec);
    assert(colored(*accept, *set, *tables, w, answers, r));
    r
}

/// Where every target fits its own frame, every target gets its own frame.
pub proof fn targets_find_their_own_frames<A: Numeric>(
    num: A,
    gs: Seq<Seq<ExportView>>,
    set: TargetSet,
    n: int,
)
    requires
        0 <= n <= gs.len() <= usize::MAX,
        n <= join::curve_count(set),
        forall|k: int|
            0 <= k < n && k < set.spectral@.len() ==> join::fits_spectral(
                num,
                #[trigger] gs[k],
                set.spectral@[k],
            ),
        forall|k: int|
            set.spectral@.len() <= k < n ==> join::fits_angular(
                num,
                #[trigger] gs[k],
                set.angular@[k - set.spectral@.len()],
            ),
    ensures
        join::picks(num, gs, set, n) == Seq::new(n as nat, |k: int| Some(k as usize)),
    decreases n,
{
    let goal = Seq::new(n as nat, |k: int| Some(k as usize));
    if n > 0 {
        targets_find_their_own_frames(num, gs, set, n - 1);
        let before = join::picks(num, gs, set, n - 1);
        let k = n - 1;
        assert forall|i: int| 0 <= i < k implies #[trigger] taken_at(before, i) by {
            assert(before[i] == Some(i as usize));
        }
        assert(!before.contains(Some(k as usize))) by {
            assert forall|i: int| 0 <= i < before.len() implies before[i] != Some(k as usize) by {
                assert(before[i] == Some(i as usize));
            }
        }
        if k < set.spectral@.len() {
            skip_to_spectral(num, gs, before, set.spectral@[k], 0, k);
        } else {
            skip_to_angular(num, gs, before, set.angular@[k - set.spectral@.len()], 0, k);
        }
        assert(join::picks(num, gs, set, n) =~= goal);
    } else {
        assert(join::picks(num, gs, set, n) =~= goal);
    }
}

spec fn taken_at(taken: Seq<Option<usize>>, i: int) -> bool {
    taken.contains(Some(i as usize))
}

proof fn skip_to_spectral<A: Numeric>(
    num: A,
    gs: Seq<Seq<ExportView>>,
    taken: Seq<Option<usize>>,
    t: targets::SpectralTarget,
    i: int,
    k: int,
)
    requires
        0 <= i <= k < gs.len() <= usize::MAX,
        forall|j: int| i <= j < k ==> #[trigger] taken_at(taken, j),
        !taken.contains(Some(k as usize)),
        join::fits_spectral(num, gs[k], t),
    ensures
        join::free_spectral(num, gs, taken, t, i) == Some(k as usize),
    decreases k - i,
{
    if i < k {
        assert(taken_at(taken, i));
        skip_to_spectral(num, gs, taken, t, i + 1, k);
    }
}

proof fn skip_to_angular<A: Numeric>(
    num: A,
    gs: Seq<Seq<ExportView>>,
    taken: Seq<Option<usize>>,
    t: targets::AngularTarget,
    i: int,
    k: int,
)
    requires
        0 <= i <= k < gs.len() <= usize::MAX,
        forall|j: int| i <= j < k ==> #[trigger] taken_at(taken, j),
        !taken.contains(Some(k as usize)),
        join::fits_angular(num, gs[k], t),
    ensures
        join::free_angular(num, gs, taken, t, i) == Some(k as usize),
    decreases k - i,
{
    if i < k {
        assert(taken_at(taken, i));
        skip_to_angular(num, gs, taken, t, i + 1, k);
    }
}

} // verus!
