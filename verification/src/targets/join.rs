//! Ingested entries, and which of them belong to which target.
use crate::numeric;
use crate::numeric::Numeric;
use crate::scalar;
use crate::scalar::Scalar;
use crate::spectralweave::frame::check_grid;
use crate::spectralweave::targetweaver;
use crate::spectralweave::targetweaver::{
    prepare_entry, EntryView, ResolvedNormMode, TargetEntry, TargetKind, TargetWeaver, Weighing,
};
use crate::targets;
use crate::targets::{
    check_integral, check_weight, resolve_band, AngularTarget, Place, SpectralTarget, TargetSet,
    Trouble, What,
};
use crate::sorting;
use crate::sorting::sorted_values;
use crate::text::same_text;
use vstd::prelude::*;

verus! {

/// 1e-8.
pub const CLOSE_ABS_BITS: u64 = 0x3e45_798e_e230_8c3a;

/// 1e-5.
pub const CLOSE_REL_BITS: u64 = 0x3ee4_f8b5_88e3_68f1;

/// `|x - y| <= 1e-8 + 1e-5 |y|`.
pub open spec fn close<A: Numeric>(num: A, x: Scalar, y: Scalar) -> bool {
    scalar::at_most(
        scalar::absolute(num.difference(x, y)),
        num.sum(
            (Scalar { bits: CLOSE_ABS_BITS }),
            num.product((Scalar { bits: CLOSE_REL_BITS }), scalar::absolute(y)),
        ),
    )
}

/// Same length, and close point by point.
pub open spec fn all_close<A: Numeric>(num: A, a: Seq<Scalar>, b: Seq<Scalar>) -> bool {
    a.len() == b.len() && forall|i: int| 0 <= i < a.len() ==> close(num, #[trigger] a[i], b[i])
}

fn is_close<A: Numeric>(num: &A, x: Scalar, y: Scalar) -> (r: bool)
    requires
        num.sound(),
    ensures
        r == close(*num, x, y),
{
    let slack: Scalar = num.plus(
        Scalar { bits: CLOSE_ABS_BITS },
        num.times(Scalar { bits: CLOSE_REL_BITS }, y.abs()),
    );
    num.minus(x, y).abs().le(slack)
}

/// Whether two grids have the same length and agree to within rounding.
pub fn allclose<A: Numeric>(num: &A, a: &Vec<Scalar>, b: &Vec<Scalar>) -> (r: bool)
    requires
        num.sound(),
    ensures
        r == all_close(*num, a@, b@),
{
    if a.len() != b.len() {
        return false;
    }
    let mut i: usize = 0;
    while i < a.len()
        invariant
            num.sound(),
            a@.len() == b@.len(),
            i <= a@.len(),
            forall|k: int| 0 <= k < i ==> close(*num, #[trigger] a@[k], b@[k]),
        decreases a.len() - i,
    {
        if !is_close(num, a[i], b[i]) {
            assert(!close(*num, a@[i as int], b@[i as int]));
            return false;
        }
        i += 1;
    }
    true
}

// ---------------------------------------------------------------------------
// Intake
// ---------------------------------------------------------------------------
/// An ingested entry with its labels and its grid.
#[derive(Debug)]
pub struct Export {
    pub angle: Scalar,
    pub polarization: String,
    pub spectral: String,
    pub wavelengths: Vec<Scalar>,
    pub entry: TargetEntry,
}

/// What an ingested entry holds.
#[verifier::ext_equal]
pub struct ExportView {
    pub angle: Scalar,
    pub polarization: Seq<char>,
    pub spectral: Seq<char>,
    pub wavelengths: Seq<Scalar>,
    pub entry: EntryView,
}

impl View for Export {
    type V = ExportView;

    open spec fn view(&self) -> ExportView {
        ExportView {
            angle: self.angle,
            polarization: self.polarization@,
            spectral: self.spectral@,
            wavelengths: self.wavelengths@,
            entry: self.entry@,
        }
    }
}

/// The entries of one frame.
pub open spec fn group_view(g: Seq<Export>) -> Seq<ExportView> {
    g.map_values(|e: Export| e@)
}

/// The entries by frame.
pub open spec fn groups_view(gs: Seq<Vec<Export>>) -> Seq<Seq<ExportView>> {
    gs.map_values(|g: Vec<Export>| group_view(g@))
}

/// The kind with a code.
pub open spec fn kind_of(code: Seq<char>) -> TargetKind {
    choose|k: TargetKind| #[trigger] k.code() == code
}

/// The normalization that applies: a phase against a reference is always a
/// phase.
pub open spec fn mode_name(spectral: Seq<char>, asked: Seq<char>) -> Seq<char> {
    if targets::reference_phase(spectral) is Some {
        "phase"@
    } else {
        asked
    }
}

/// Mode and factor of a curve by the name of its normalization.
pub open spec fn norm_of<A: Numeric, L: Fn(Scalar) -> Scalar>(
    num: A,
    log10: L,
    values: Seq<Scalar>,
    name: Seq<char>,
) -> (ResolvedNormMode, Scalar) {
    let mode = targetweaver::mode_for(num, values, name);
    (mode, targetweaver::factor_for(num, log10, mode, values))
}

/// The divisor of a target of `n` points.
pub open spec fn divisor<A: Numeric>(num: A, asked: bool, n: nat) -> Option<Scalar> {
    if asked {
        Some(num.whole(n as usize))
    } else {
        None
    }
}

/// The entry of a spectral target.
pub open spec fn spectral_export<A: Numeric, L: Fn(Scalar) -> Scalar>(
    num: A,
    log10: L,
    floor: Scalar,
    t: SpectralTarget,
) -> ExportView {
    let n = t.values@.len();
    ExportView {
        angle: t.angle,
        polarization: t.polarization@,
        spectral: t.spectral@,
        wavelengths: t.wavelengths@,
        entry: targetweaver::entry_for(
            num,
            log10,
            floor,
            t.values@,
            t.tolerances@,
            targets::band_values(t.band, n),
            norm_of(num, log10, t.values@, mode_name(t.spectral@, t.normalization_mode@)),
            Weighing {
                kind: kind_of(t.kind@),
                weight: t.weight,
                count_norm: divisor(num, t.normalize_count, n),
                integral: t.integral,
            },
        ),
    }
}

/// The entry of one angle of an angular target: mode and factor come from the
/// whole curve.
pub open spec fn angular_export<A: Numeric, L: Fn(Scalar) -> Scalar>(
    num: A,
    log10: L,
    floor: Scalar,
    t: AngularTarget,
    i: int,
) -> ExportView {
    let n = t.values@.len();
    let band = targets::band_values(t.band, n);
    ExportView {
        angle: t.angles@[i],
        polarization: t.polarization@,
        spectral: t.spectral@,
        wavelengths: seq![t.wavelength],
        entry: targetweaver::entry_for(
            num,
            log10,
            floor,
            seq![t.values@[i]],
            seq![t.tolerances@[i]],
            if band.len() == 0 {
                seq![]
            } else {
                seq![band[i]]
            },
            norm_of(num, log10, t.values@, mode_name(t.spectral@, t.normalization_mode@)),
            Weighing {
                kind: kind_of(t.kind@),
                weight: t.weight,
                count_norm: divisor(num, t.normalize_count, n),
                integral: t.integral,
            },
        ),
    }
}

/// No later angle has the same pattern: a later entry replaces an earlier one.
pub open spec fn lasting(angles: Seq<Scalar>, i: int) -> bool {
    forall|j: int| i < j < angles.len() ==> (#[trigger] angles[j]).bits != angles[i].bits
}

/// The entries of an angular target, from its first `n` angles.
pub open spec fn angular_group<A: Numeric, L: Fn(Scalar) -> Scalar>(
    num: A,
    log10: L,
    floor: Scalar,
    t: AngularTarget,
    n: int,
) -> Seq<ExportView>
    decreases n,
{
    if n <= 0 {
        seq![]
    } else {
        let before = angular_group(num, log10, floor, t, n - 1);
        if lasting(t.angles@, n - 1) {
            before.push(angular_export(num, log10, floor, t, n - 1))
        } else {
            before
        }
    }
}

/// The entries of all targets by frame: one frame per target, spectral targets
/// first.
pub open spec fn exported<A: Numeric, L: Fn(Scalar) -> Scalar>(
    num: A,
    log10: L,
    set: TargetSet,
) -> Seq<Seq<ExportView>> {
    Seq::new(
        set.spectral@.len() + set.angular@.len(),
        |g: int|
            if g < set.spectral@.len() {
                seq![spectral_export(num, log10, set.tolerance_floor, set.spectral@[g])]
            } else {
                let t = set.angular@[g - set.spectral@.len()];
                angular_group(num, log10, set.tolerance_floor, t, t.angles@.len() as int)
            },
    )
}

/// The first spectral target from `i` on that is refused on intake.
pub open spec fn first_bad_spectral(ts: Seq<SpectralTarget>, i: int) -> Option<Trouble>
    decreases ts.len() - i,
{
    if i >= ts.len() {
        None
    } else {
        match targets::spectral_fault(ts[i]) {
            Some(what) => Some(Trouble { place: Place::Spectral { at: i as usize }, what }),
            None => first_bad_spectral(ts, i + 1),
        }
    }
}

/// The first angular target from `i` on that is refused on intake.
pub open spec fn first_bad_angular(ts: Seq<AngularTarget>, i: int) -> Option<Trouble>
    decreases ts.len() - i,
{
    if i >= ts.len() {
        None
    } else {
        match targets::angular_fault(ts[i]) {
            Some(what) => Some(Trouble { place: Place::Angular { at: i as usize }, what }),
            None => first_bad_angular(ts, i + 1),
        }
    }
}

/// The first target that is refused on intake.
pub open spec fn intake_trouble(set: TargetSet) -> Option<Trouble> {
    match first_bad_spectral(set.spectral@, 0) {
        Some(t) => Some(t),
        None => first_bad_angular(set.angular@, 0),
    }
}

fn find_kind(code: &str) -> (r: Option<TargetKind>)
    ensures
        match r {
            Some(k) => targets::kind_known(code@) && k == kind_of(code@),
            None => !targets::kind_known(code@),
        },
{
    let r: Option<TargetKind> = TargetKind::from_str(code);
    proof {
        if let Some(k) = r {
            assert(k.code() == code@);
            targetweaver::kind_codes_differ(k, kind_of(code@));
        }
    }
    r
}

fn resolve<A: Numeric, L: Fn(Scalar) -> Scalar>(
    num: &A,
    log10: &L,
    values: &Vec<Scalar>,
    spectral: &str,
    asked: &str,
) -> (r: (ResolvedNormMode, Scalar))
    requires
        num.sound(),
        numeric::settled_image(*log10),
    ensures
        r == norm_of(*num, *log10, values@, mode_name(spectral@, asked@)),
{
    if same_text(spectral, "PDts") || same_text(spectral, "PDtp") {
        TargetWeaver::<A>::resolve_norm(num, log10, values, "phase")
    } else {
        TargetWeaver::<A>::resolve_norm(num, log10, values, asked)
    }
}

fn count_divisor<A: Numeric>(num: &A, asked: bool, n: usize) -> (r: Option<Scalar>)
    requires
        num.sound(),
    ensures
        r == divisor(*num, asked, n as nat),
{
    if asked {
        Some(num.count(n))
    } else {
        None
    }
}

/// Takes in a spectral target.
pub fn ingest_spectral<A: Numeric, L: Fn(Scalar) -> Scalar>(
    num: &A,
    log10: &L,
    floor: Scalar,
    t: &SpectralTarget,
) -> (r: Result<Export, What>)
    requires
        num.sound(),
        numeric::settled_image(*log10),
    ensures
        match r {
            Ok(e) => targets::spectral_fault(*t) is None && e@ == spectral_export(
                *num,
                *log10,
                floor,
                *t,
            ),
            Err(w) => targets::spectral_fault(*t) == Some(w),
        },
{
    if !check_weight(t.weight) {
        return Err(What::Weight);
    }
    match check_integral(t.integral, t.normalize_count, "SpectralTarget") {
        Ok(_) => {},
        Err(_) => {
            return Err(What::IntegralCount);
        },
    }
    let n: usize = t.values.len();
    if t.wavelengths.len() != n || t.tolerances.len() != n {
        return Err(What::Shape);
    }
    let band: Vec<Scalar> = match resolve_band(&t.band, n) {
        Ok(b) => b,
        Err(w) => {
            return Err(w);
        },
    };
    let kind: TargetKind = match find_kind(t.kind.as_str()) {
        Some(k) => k,
        None => {
            return Err(What::Kind);
        },
    };
    match check_grid(&t.wavelengths) {
        Some(fault) => {
            return Err(What::Grid { fault });
        },
        None => {},
    }
    let norm: (ResolvedNormMode, Scalar) = resolve(
        num,
        log10,
        &t.values,
        t.spectral.as_str(),
        t.normalization_mode.as_str(),
    );
    let how: Weighing = Weighing {
        kind,
        weight: t.weight,
        count_norm: count_divisor(num, t.normalize_count, n),
        integral: t.integral,
    };
    let entry: TargetEntry = prepare_entry(
        num,
        log10,
        floor,
        &t.values,
        &t.tolerances,
        &band,
        norm,
        how,
    );
    Ok(
        Export {
            angle: t.angle,
            polarization: t.polarization.clone(),
            spectral: t.spectral.clone(),
            wavelengths: numeric::copy(&t.wavelengths),
            entry,
        },
    )
}

fn is_lasting(angles: &Vec<Scalar>, i: usize) -> (r: bool)
    requires
        i < angles@.len(),
    ensures
        r == lasting(angles@, i as int),
{
    let n: usize = angles.len();
    let mut j: usize = i + 1;
    while j < n
        invariant
            n == angles@.len(),
            i < j <= n,
            forall|k: int| i < k < j ==> (#[trigger] angles@[k]).bits != angles@[i as int].bits,
        decreases n - j,
    {
        if angles[j].bits == angles[i].bits {
            assert(angles@[j as int].bits == angles@[i as int].bits);
            return false;
        }
        j += 1;
    }
    true
}

fn one(x: Scalar) -> (r: Vec<Scalar>)
    ensures
        r@ == seq![x],
{
    let mut v: Vec<Scalar> = Vec::with_capacity(1);
    v.push(x);
    assert(v@ =~= seq![x]);
    v
}

/// Takes in an angular target: one entry per angle, all in one frame.
pub fn ingest_angular<A: Numeric, L: Fn(Scalar) -> Scalar>(
    num: &A,
    log10: &L,
    floor: Scalar,
    t: &AngularTarget,
) -> (r: Result<Vec<Export>, What>)
    requires
        num.sound(),
        numeric::settled_image(*log10),
    ensures
        match r {
            Ok(g) => targets::angular_fault(*t) is None && group_view(g@) == angular_group(
                *num,
                *log10,
                floor,
                *t,
                t.angles@.len() as int,
            ),
            Err(w) => targets::angular_fault(*t) == Some(w),
        },
{
    if !check_weight(t.weight) {
        return Err(What::Weight);
    }
    match check_integral(t.integral, t.normalize_count, "AngularTarget") {
        Ok(_) => {},
        Err(_) => {
            return Err(What::IntegralCount);
        },
    }
    let n: usize = t.values.len();
    if t.angles.len() != n || t.tolerances.len() != n {
        return Err(What::Shape);
    }
    let band: Vec<Scalar> = match resolve_band(&t.band, n) {
        Ok(b) => b,
        Err(w) => {
            return Err(w);
        },
    };
    let kind: TargetKind = match find_kind(t.kind.as_str()) {
        Some(k) => k,
        None => {
            return Err(What::Kind);
        },
    };
    let norm: (ResolvedNormMode, Scalar) = resolve(
        num,
        log10,
        &t.values,
        t.spectral.as_str(),
        t.normalization_mode.as_str(),
    );
    let count_norm: Option<Scalar> = count_divisor(num, t.normalize_count, n);
    let mut out: Vec<Export> = Vec::new();
    let mut i: usize = 0;
    assert(group_view(out@) =~= seq![]);
    while i < n
        invariant
            num.sound(),
            numeric::settled_image(*log10),
            n == t.values@.len(),
            n == t.angles@.len(),
            n == t.tolerances@.len(),
            band@ == targets::band_values(t.band, n as nat),
            band@.len() == 0 || band@.len() == n,
            kind == kind_of(t.kind@),
            norm == norm_of(
                *num,
                *log10,
                t.values@,
                mode_name(t.spectral@, t.normalization_mode@),
            ),
            count_norm == divisor(*num, t.normalize_count, n as nat),
            i <= n,
            group_view(out@) == angular_group(*num, *log10, floor, *t, i as int),
        decreases n - i,
    {
        if is_lasting(&t.angles, i) {
            let width: Vec<Scalar> = if band.len() == 0 {
                Vec::new()
            } else {
                one(band[i])
            };
            assert(width@ =~= if band@.len() == 0 {
                seq![]
            } else {
                seq![band@[i as int]]
            });
            let how: Weighing = Weighing { kind, weight: t.weight, count_norm, integral: t.integral };
            let value: Vec<Scalar> = one(t.values[i]);
            let tolerance: Vec<Scalar> = one(t.tolerances[i]);
            let entry: TargetEntry = prepare_entry(
                num,
                log10,
                floor,
                &value,
                &tolerance,
                &width,
                norm,
                how,
            );
            let e: Export = Export {
                angle: t.angles[i],
                polarization: t.polarization.clone(),
                spectral: t.spectral.clone(),
                wavelengths: one(t.wavelength),
                entry,
            };
            let ghost before = group_view(out@);
            assert(e@ =~= angular_export(*num, *log10, floor, *t, i as int));
            out.push(e);
            assert(group_view(out@) =~= before.push(e@));
        }
        i += 1;
    }
    Ok(out)
}

/// Takes in all targets, or names the first that is refused.
pub fn export_all<A: Numeric, L: Fn(Scalar) -> Scalar>(
    num: &A,
    log10: &L,
    set: &TargetSet,
) -> (r: Result<Vec<Vec<Export>>, Trouble>)
    requires
        num.sound(),
        numeric::settled_image(*log10),
    ensures
        match r {
            Ok(gs) => intake_trouble(*set) is None && groups_view(gs@) == exported(
                *num,
                *log10,
                *set,
            ),
            Err(f) => intake_trouble(*set) == Some(f),
        },
{
    let ghost goal = exported(*num, *log10, *set);
    let mut out: Vec<Vec<Export>> = Vec::new();
    let ns: usize = set.spectral.len();
    let na: usize = set.angular.len();
    let mut i: usize = 0;
    assert(groups_view(out@) =~= goal.take(0));
    while i < ns
        invariant
            num.sound(),
            numeric::settled_image(*log10),
            ns == set.spectral@.len(),
            goal == exported(*num, *log10, *set),
            i <= ns,
            first_bad_spectral(set.spectral@, i as int) == first_bad_spectral(
                set.spectral@,
                0,
            ),
            groups_view(out@) == goal.take(i as int),
        decreases ns - i,
    {
        match ingest_spectral(num, log10, set.tolerance_floor, &set.spectral[i]) {
            Ok(e) => {
                let ghost before = groups_view(out@);
                let mut g: Vec<Export> = Vec::with_capacity(1);
                g.push(e);
                assert(group_view(g@) =~= goal[i as int]);
                out.push(g);
                assert(groups_view(out@) =~= before.push(goal[i as int]));
            },
            Err(what) => {
                return Err(Trouble { place: Place::Spectral { at: i }, what });
            },
        }
        i += 1;
        assert(groups_view(out@) =~= goal.take(i as int));
    }
    let mut a: usize = 0;
    while a < na
        invariant
            num.sound(),
            numeric::settled_image(*log10),
            ns == set.spectral@.len(),
            na == set.angular@.len(),
            goal == exported(*num, *log10, *set),
            first_bad_spectral(set.spectral@, 0) is None,
            a <= na,
            first_bad_angular(set.angular@, a as int) == first_bad_angular(set.angular@, 0),
            groups_view(out@) == goal.take(ns + a),
        decreases na - a,
    {
        match ingest_angular(num, log10, set.tolerance_floor, &set.angular[a]) {
            Ok(g) => {
                let ghost before = groups_view(out@);
                assert(group_view(g@) == goal[ns + a]);
                out.push(g);
                assert(groups_view(out@) =~= before.push(goal[ns + a]));
            },
            Err(what) => {
                return Err(Trouble { place: Place::Angular { at: a }, what });
            },
        }
        a += 1;
        assert(groups_view(out@) =~= goal.take(ns + a));
    }
    assert(goal.take(ns + a) =~= goal);
    Ok(out)
}

// ---------------------------------------------------------------------------
// Join
// ---------------------------------------------------------------------------
/// A frame's entries are those of a spectral target.
pub open spec fn fits_spectral<A: Numeric>(
    num: A,
    g: Seq<ExportView>,
    t: SpectralTarget,
) -> bool {
    &&& g.len() == 1
    &&& g[0].spectral == t.spectral@
    &&& g[0].polarization == t.polarization@
    &&& scalar::same(g[0].angle, t.angle)
    &&& all_close(num, g[0].wavelengths, t.wavelengths@)
}

/// The angles of a frame's entries.
pub open spec fn angles_of(g: Seq<ExportView>) -> Seq<Scalar> {
    g.map_values(|e: ExportView| e.angle)
}

/// An entry is one of an angular target.
pub open spec fn fits_point<A: Numeric>(num: A, e: ExportView, t: AngularTarget) -> bool {
    &&& e.spectral == t.spectral@
    &&& e.polarization == t.polarization@
    &&& e.wavelengths.len() == 1
    &&& close(num, e.wavelengths[0], t.wavelength)
}

/// A frame's entries are those of an angular target.
pub open spec fn fits_angular<A: Numeric>(num: A, g: Seq<ExportView>, t: AngularTarget) -> bool {
    &&& g.len() > 0
    &&& g.len() == t.angles@.len()
    &&& all_close(num, sorting::arranged(angles_of(g)), sorting::arranged(t.angles@))
    &&& forall|i: int| 0 <= i < g.len() ==> fits_point(num, #[trigger] g[i], t)
}

/// The first free frame from `i` on for a spectral target.
pub open spec fn free_spectral<A: Numeric>(
    num: A,
    gs: Seq<Seq<ExportView>>,
    taken: Seq<Option<usize>>,
    t: SpectralTarget,
    i: int,
) -> Option<usize>
    decreases gs.len() - i,
{
    if i >= gs.len() {
        None
    } else if !taken.contains(Some(i as usize)) && fits_spectral(num, gs[i], t) {
        Some(i as usize)
    } else {
        free_spectral(num, gs, taken, t, i + 1)
    }
}

/// The first free frame from `i` on for an angular target.
pub open spec fn free_angular<A: Numeric>(
    num: A,
    gs: Seq<Seq<ExportView>>,
    taken: Seq<Option<usize>>,
    t: AngularTarget,
    i: int,
) -> Option<usize>
    decreases gs.len() - i,
{
    if i >= gs.len() {
        None
    } else if !taken.contains(Some(i as usize)) && fits_angular(num, gs[i], t) {
        Some(i as usize)
    } else {
        free_angular(num, gs, taken, t, i + 1)
    }
}

/// The frames of the first `k` targets, spectral ones first; none for a target
/// that has no frame.
pub open spec fn picks<A: Numeric>(
    num: A,
    gs: Seq<Seq<ExportView>>,
    set: TargetSet,
    k: int,
) -> Seq<Option<usize>>
    decreases k,
{
    if k <= 0 {
        seq![]
    } else {
        let before = picks(num, gs, set, k - 1);
        let ns = set.spectral@.len();
        before.push(
            if k - 1 < ns {
                free_spectral(num, gs, before, set.spectral@[k - 1], 0)
            } else {
                free_angular(num, gs, before, set.angular@[k - 1 - ns], 0)
            },
        )
    }
}

/// Which target is number `k` of a set.
pub open spec fn place_of(set: TargetSet, k: int) -> Place {
    let ns = set.spectral@.len();
    if k < ns {
        Place::Spectral { at: k as usize }
    } else {
        Place::Angular { at: (k - ns) as usize }
    }
}

/// The first target from `k` on that has no frame.
pub open spec fn unmatched_from(set: TargetSet, p: Seq<Option<usize>>, k: int) -> Option<Trouble>
    decreases p.len() - k,
{
    if k >= p.len() {
        None
    } else if p[k] is None {
        Some(Trouble { place: place_of(set, k), what: What::Unmatched })
    } else {
        unmatched_from(set, p, k + 1)
    }
}

/// How many curve targets a set has.
pub open spec fn curve_count(set: TargetSet) -> int {
    (set.spectral@.len() + set.angular@.len()) as int
}

fn suits_spectral<A: Numeric>(num: &A, g: &Vec<Export>, t: &SpectralTarget) -> (r: bool)
    requires
        num.sound(),
    ensures
        r == fits_spectral(*num, group_view(g@), *t),
{
    if g.len() != 1 {
        return false;
    }
    let e: &Export = &g[0];
    assert(group_view(g@)[0] == e@);
    same_text(e.spectral.as_str(), t.spectral.as_str()) && same_text(
        e.polarization.as_str(),
        t.polarization.as_str(),
    ) && e.angle.same_value(t.angle) && allclose(num, &e.wavelengths, &t.wavelengths)
}

/// The angles of a frame's entries.
pub fn list_angles(g: &Vec<Export>) -> (r: Vec<Scalar>)
    ensures
        r@ == angles_of(group_view(g@)),
{
    let ghost goal = angles_of(group_view(g@));
    let mut out: Vec<Scalar> = Vec::with_capacity(g.len());
    let mut i: usize = 0;
    while i < g.len()
        invariant
            goal == angles_of(group_view(g@)),
            i <= g@.len(),
            out@ == goal.take(i as int),
        decreases g.len() - i,
    {
        assert(goal[i as int] == g@[i as int].angle);
        out.push(g[i].angle);
        i += 1;
        assert(out@ =~= goal.take(i as int));
    }
    assert(out@ =~= goal);
    out
}

fn suits_angular<A: Numeric>(num: &A, g: &Vec<Export>, t: &AngularTarget) -> (r: bool)
    requires
        num.sound(),
    ensures
        r == fits_angular(*num, group_view(g@), *t),
{
    let ghost v = group_view(g@);
    if g.len() == 0 || g.len() != t.angles.len() {
        return false;
    }
    let got: Vec<Scalar> = sorted_values(&list_angles(g));
    let want: Vec<Scalar> = sorted_values(&t.angles);
    if !allclose(num, &got, &want) {
        return false;
    }
    let mut i: usize = 0;
    while i < g.len()
        invariant
            num.sound(),
            v == group_view(g@),
            i <= g@.len(),
            forall|k: int| 0 <= k < i ==> fits_point(*num, #[trigger] v[k], *t),
        decreases g.len() - i,
    {
        let e: &Export = &g[i];
        assert(v[i as int] == e@);
        let ok: bool = same_text(e.spectral.as_str(), t.spectral.as_str()) && same_text(
            e.polarization.as_str(),
            t.polarization.as_str(),
        ) && e.wavelengths.len() == 1 && is_close(num, e.wavelengths[0], t.wavelength);
        if !ok {
            assert(!fits_point(*num, v[i as int], *t));
            return false;
        }
        i += 1;
    }
    true
}

/// `used` marks the frames that are taken.
pub open spec fn marks(used: Seq<bool>, taken: Seq<Option<usize>>) -> bool {
    forall|i: int|
        0 <= i < used.len() ==> (#[trigger] used[i]) == taken.contains(Some(i as usize))
}

/// Finds the frame of every target, or names the first target without one.
pub fn join_all<A: Numeric>(num: &A, groups: &Vec<Vec<Export>>, set: &TargetSet) -> (r: Result<
    Vec<usize>,
    Trouble,
>)
    requires
        num.sound(),
        set.spectral@.len() + set.angular@.len() <= usize::MAX,
        sortable(*num, groups_view(groups@), *set),
    ensures
        ({
            let p = picks(*num, groups_view(groups@), *set, curve_count(*set));
            match r {
                Ok(v) => {
                    &&& unmatched_from(*set, p, 0) is None
                    &&& v@.len() == curve_count(*set)
                    &&& forall|k: int|
                        0 <= k < v@.len() ==> p[k] == Some(#[trigger] v@[k]) && v@[k]
                            < groups@.len()
                },
                Err(f) => unmatched_from(*set, p, 0) == Some(f),
            }
        }),
{
    let ghost gs = groups_view(groups@);
    let ns: usize = set.spectral.len();
    let total: usize = ns + set.angular.len();
    let ghost p = picks(*num, gs, *set, total as int);
    let m: usize = groups.len();
    let mut used: Vec<bool> = Vec::with_capacity(m);
    let mut z: usize = 0;
    while z < m
        invariant
            z <= m,
            used@.len() == z,
            forall|i: int| 0 <= i < z ==> !(#[trigger] used@[i]),
        decreases m - z,
    {
        used.push(false);
        z += 1;
    }
    let mut out: Vec<usize> = Vec::with_capacity(total);
    let mut k: usize = 0;
    while k < total
        invariant
            num.sound(),
            gs == groups_view(groups@),
            ns == set.spectral@.len(),
            total == ns + set.angular@.len(),
            m == groups@.len(),
            p == picks(*num, gs, *set, total as int),
            k <= total,
            used@.len() == m,
            marks(used@, picks(*num, gs, *set, k as int)),
            out@.len() == k,
            forall|j: int|
                0 <= j < k ==> p[j] == Some(#[trigger] out@[j]) && out@[j] < m,
            unmatched_from(*set, p, k as int) == unmatched_from(*set, p, 0),
        decreases total - k,
    {
        let ghost taken = picks(*num, gs, *set, k as int);
        proof {
            picks_extend(*num, gs, *set, k + 1, total as int);
            picks_len(*num, gs, *set, k as int);
            picks_len(*num, gs, *set, total as int);
        }
        let mut found: Option<usize> = None;
        let mut i: usize = 0;
        while i < m && found.is_none()
            invariant
                num.sound(),
                gs == groups_view(groups@),
                ns == set.spectral@.len(),
                total == ns + set.angular@.len(),
                m == groups@.len(),
                k < total,
                used@.len() == m,
                marks(used@, taken),
                i <= m,
                found matches Some(f) ==> f < m,
                k < ns ==> free_spectral(*num, gs, taken, set.spectral@[k as int], 0) == (
                if found is Some {
                    found
                } else {
                    free_spectral(*num, gs, taken, set.spectral@[k as int], i as int)
                }),
                k >= ns ==> free_angular(*num, gs, taken, set.angular@[k - ns], 0) == (
                if found is Some {
                    found
                } else {
                    free_angular(*num, gs, taken, set.angular@[k - ns], i as int)
                }),
            decreases m - i,
        {
            assert(gs[i as int] == group_view(groups@[i as int]@));
            if !used[i] {
                let fits: bool = if k < ns {
                    suits_spectral(num, &groups[i], &set.spectral[k])
                } else {
                    suits_angular(num, &groups[i], &set.angular[k - ns])
                };
                if fits {
                    found = Some(i);
                }
            }
            i += 1;
        }
        assert(p[k as int] == found);
        match found {
            Some(f) => {
                used.set(f, true);
                out.push(f);
                proof {
                    let after = picks(*num, gs, *set, k + 1);
                    assert(after =~= taken.push(Some(f)));
                    assert forall|i: int| 0 <= i < used@.len() implies (#[trigger] used@[i])
                        == after.contains(Some(i as usize)) by {
                        if i == f {
                            assert(after[k as int] == Some(i as usize));
                        } else if taken.contains(Some(i as usize)) {
                            let j = choose|j: int|
                                0 <= j < taken.len() && taken[j] == Some(i as usize);
                            assert(after[j] == Some(i as usize));
                        }
                    }
                }
            },
            None => {
                if k < ns {
                    return Err(
                        Trouble { place: Place::Spectral { at: k }, what: What::Unmatched },
                    );
                }
                return Err(
                    Trouble { place: Place::Angular { at: k - ns }, what: What::Unmatched },
                );
            },
        }
        k += 1;
    }
    proof {
        picks_len(*num, gs, *set, total as int);
    }
    Ok(out)
}

/// The angles can be put in order: two or more must all be numbers.
pub open spec fn orderly(angles: Seq<Scalar>) -> bool {
    angles.len() >= 2 ==> forall|i: int|
        0 <= i < angles.len() ==> !(#[trigger] angles[i]).nan()
}

/// The angular targets can be looked for: their angles are put in order once
/// every spectral target has its frame.
pub open spec fn sortable<A: Numeric>(
    num: A,
    gs: Seq<Seq<ExportView>>,
    set: TargetSet,
) -> bool {
    let ns = set.spectral@.len() as int;
    (forall|k: int| 0 <= k < ns ==> (#[trigger] picks(num, gs, set, ns)[k]) is Some) ==> forall|
        a: int,
    |
        0 <= a < set.angular@.len() ==> orderly((#[trigger] set.angular@[a]).angles@)
}

pub proof fn picks_len<A: Numeric>(num: A, gs: Seq<Seq<ExportView>>, set: TargetSet, k: int)
    requires
        0 <= k,
    ensures
        picks(num, gs, set, k).len() == k,
    decreases k,
{
    if k > 0 {
        picks_len(num, gs, set, k - 1);
    }
}

proof fn picks_extend<A: Numeric>(
    num: A,
    gs: Seq<Seq<ExportView>>,
    set: TargetSet,
    k: int,
    n: int,
)
    requires
        0 <= k <= n,
    ensures
        forall|j: int| 0 <= j < k ==> picks(num, gs, set, n)[j] == picks(num, gs, set, k)[j],
    decreases n,
{
    picks_len(num, gs, set, k);
    if k < n {
        picks_extend(num, gs, set, k, n - 1);
        picks_len(num, gs, set, n - 1);
    }
}

/// No frame serves two targets.
pub proof fn frames_are_used_once<A: Numeric>(
    num: A,
    gs: Seq<Seq<ExportView>>,
    set: TargetSet,
    n: int,
    i: int,
    j: int,
)
    requires
        0 <= i < j < n,
        gs.len() <= usize::MAX,
        picks(num, gs, set, n)[i] is Some,
    ensures
        picks(num, gs, set, n)[i] != picks(num, gs, set, n)[j],
{
    let before = picks(num, gs, set, j);
    picks_len(num, gs, set, j);
    picks_extend(num, gs, set, j, n);
    picks_extend(num, gs, set, j + 1, n);
    assert(before[i] == picks(num, gs, set, n)[i]);
    let ns = set.spectral@.len();
    if j < ns {
        free_spectral_is_free(num, gs, before, set.spectral@[j], 0);
    } else {
        free_angular_is_free(num, gs, before, set.angular@[j - ns], 0);
    }
}

proof fn free_spectral_is_free<A: Numeric>(
    num: A,
    gs: Seq<Seq<ExportView>>,
    taken: Seq<Option<usize>>,
    t: SpectralTarget,
    i: int,
)
    requires
        0 <= i,
        gs.len() <= usize::MAX,
    ensures
        free_spectral(num, gs, taken, t, i) is Some ==> !taken.contains(
            free_spectral(num, gs, taken, t, i),
        ),
    decreases gs.len() - i,
{
    if i < gs.len() {
        free_spectral_is_free(num, gs, taken, t, i + 1);
    }
}

proof fn free_angular_is_free<A: Numeric>(
    num: A,
    gs: Seq<Seq<ExportView>>,
    taken: Seq<Option<usize>>,
    t: AngularTarget,
    i: int,
)
    requires
        0 <= i,
        gs.len() <= usize::MAX,
    ensures
        free_angular(num, gs, taken, t, i) is Some ==> !taken.contains(
            free_angular(num, gs, taken, t, i),
        ),
    decreases gs.len() - i,
{
    if i < gs.len() {
        free_angular_is_free(num, gs, taken, t, i + 1);
    }
}

} // verus!
