//! Messages on target sets that were not compiled.
use crate::merit::fault;
use crate::numeric::Numeric;
use crate::scalar::Scalar;
use crate::spectralweave::frame;
use crate::targets;
use crate::targets::color;
use crate::targets::compile;
use crate::targets::compile::CompileFault;
use crate::targets::join;
use crate::targets::join::ExportView;
use crate::targets::{check_integral, curve_id, Place, TargetSet, Trouble, What};
use crate::text;
use crate::text::{debug_text, decimal_text};
use vstd::prelude::*;
use vstd::string::*;

verus! {

/// The name of the kind of target at a place.
pub open spec fn label_of(place: Place) -> Seq<char> {
    match place {
        Place::Spectral { .. } => "SpectralTarget"@,
        Place::Angular { .. } => "AngularTarget"@,
    }
}

/// Which target has no entry: its labels, and its angle or wavelength as
/// `debug` shows it.
pub open spec fn unmatched_text<D: Fn(Scalar) -> String>(
    set: TargetSet,
    place: Place,
    debug: D,
) -> Seq<char> {
    match place {
        Place::Spectral { at } => {
            let t = set.spectral@[at as int];
            "compile_merit_spec: no exported entry matches a spectral target (spectral="@
                + text::quoted(t.spectral@) + ", polarization="@ + text::quoted(t.polarization@)
                + ", angle="@ + text::shown(debug, t.angle) + ")."@
        },
        Place::Angular { at } => {
            let t = set.angular@[at as int];
            "compile_merit_spec: no exported entries match an angular target (spectral="@
                + text::quoted(t.spectral@) + ", polarization="@ + text::quoted(t.polarization@)
                + ", wavelength="@ + text::shown(debug, t.wavelength) + ")."@
        },
    }
}

/// The message on a curve target.
pub open spec fn trouble_text<S: Fn(Scalar) -> String, D: Fn(Scalar) -> String>(
    set: TargetSet,
    f: Trouble,
    show: S,
    debug: D,
) -> Seq<char> {
    let label = label_of(f.place);
    let ask = compile::asked_at(set, f.place);
    match f.what {
        What::Weight => label + ": weight must be finite and >= 0 (got "@ + text::shown(
            show,
            ask.weight,
        ) + ")."@,
        What::IntegralCount => targets::integral_text(label),
        What::Shape => label + " shape mismatch"@,
        What::BandNegative => label + ": band must be >= 0."@,
        What::BandShape { got, want } => label + " band shape mismatch: "@ + text::decimal(
            got as nat,
        ) + " != "@ + text::decimal(want as nat) + "."@,
        What::Kind => "Invalid kind (use 'e', 'a', 'b', 'r', or 'c')"@,
        What::Grid { fault } => frame::frame_text(fault),
        What::Unmatched => unmatched_text(set, f.place, debug),
        What::Curve => targets::labels_text(ask.spectral, ask.polarization),
        What::NeedsPhase => "spectral="@ + text::quoted(ask.spectral)
            + " is differential-phase: pass phase=True."@,
        What::Refused { refusal } => "compile_merit_spec: "@ + fault::target_text(refusal, show),
    }
}

/// The place is one of the set.
pub open spec fn place_exists(set: TargetSet, place: Place) -> bool {
    match place {
        Place::Spectral { at } => at < set.spectral@.len(),
        Place::Angular { at } => at < set.angular@.len(),
    }
}

/// The fault is one of the set.
pub open spec fn fault_concerns(set: TargetSet, f: CompileFault) -> bool {
    match f {
        CompileFault::Curve { trouble } => {
            let ask = compile::asked_at(set, trouble.place);
            &&& place_exists(set, trouble.place)
            &&& trouble.what is Curve ==> !targets::labels_known(ask.spectral, ask.polarization)
        },
        CompileFault::Color { at, refusal } => at < set.color@.len() && color::color_fault(
            set.color@[at as int],
        ) == Some(refusal),
        CompileFault::Inadmissible { .. } => true,
    }
}

/// The message of a fault.
pub open spec fn compile_text<S: Fn(Scalar) -> String, D: Fn(Scalar) -> String>(
    set: TargetSet,
    f: CompileFault,
    show: S,
    debug: D,
) -> Seq<char> {
    match f {
        CompileFault::Curve { trouble } => trouble_text(set, trouble, show, debug),
        CompileFault::Color { at, refusal } => color::color_text(
            set.color@[at as int],
            refusal,
            show,
        ),
        CompileFault::Inadmissible { reason, .. } => reason@,
    }
}

fn label(place: Place) -> (r: &'static str)
    ensures
        r@ == label_of(place),
{
    match place {
        Place::Spectral { .. } => "SpectralTarget",
        Place::Angular { .. } => "AngularTarget",
    }
}

fn unmatched<D: Fn(Scalar) -> String>(set: &TargetSet, place: Place, debug: &D) -> (r: String)
    requires
        text::shows(*debug),
        place_exists(*set, place),
    ensures
        r@ == unmatched_text(*set, place, *debug),
{
    match place {
        Place::Spectral { at } => {
            let x: String = debug(set.spectral[at].angle);
            String::from_str(
                "compile_merit_spec: no exported entry matches a spectral target (spectral=",
            ).concat(debug_text(set.spectral[at].spectral.as_str()).as_str()).concat(
                ", polarization=",
            ).concat(debug_text(set.spectral[at].polarization.as_str()).as_str()).concat(
                ", angle=",
            ).concat(x.as_str()).concat(").")
        },
        Place::Angular { at } => {
            let x: String = debug(set.angular[at].wavelength);
            String::from_str(
                "compile_merit_spec: no exported entries match an angular target (spectral=",
            ).concat(debug_text(set.angular[at].spectral.as_str()).as_str()).concat(
                ", polarization=",
            ).concat(debug_text(set.angular[at].polarization.as_str()).as_str()).concat(
                ", wavelength=",
            ).concat(x.as_str()).concat(").")
        },
    }
}

impl CompileFault {
    /// The message on the set that was not compiled: `show` shows numbers in
    /// plain text, `debug` as they are written in code.
    pub fn message<S: Fn(Scalar) -> String, D: Fn(Scalar) -> String>(
        &self,
        set: &TargetSet,
        show: &S,
        debug: &D,
    ) -> (r: String)
        requires
            text::shows(*show),
            text::shows(*debug),
            fault_concerns(*set, *self),
        ensures
            r@ == compile_text(*set, *self, *show, *debug),
    {
        let f: Trouble = match self {
            CompileFault::Curve { trouble } => *trouble,
            CompileFault::Color { at, refusal } => {
                return refusal.message(&set.color[*at], show);
            },
            CompileFault::Inadmissible { reason, .. } => {
                return reason.clone();
            },
        };
        let (spectral, polarization, weight): (&String, &String, Scalar) = match f.place {
            Place::Spectral { at } => (
                &set.spectral[at].spectral,
                &set.spectral[at].polarization,
                set.spectral[at].weight,
            ),
            Place::Angular { at } => (
                &set.angular[at].spectral,
                &set.angular[at].polarization,
                set.angular[at].weight,
            ),
        };
        let head: String = String::from_str(label(f.place));
        match f.what {
            What::Weight => {
                let w: String = show(weight);
                head.concat(": weight must be finite and >= 0 (got ").concat(w.as_str()).concat(
                    ").",
                )
            },
            What::IntegralCount => match check_integral(true, true, label(f.place)) {
                Err(m) => m,
                Ok(_) => head,
            },
            What::Shape => head.concat(" shape mismatch"),
            What::BandNegative => head.concat(": band must be >= 0."),
            What::BandShape { got, want } => head.concat(" band shape mismatch: ").concat(
                decimal_text(got as u64).as_str(),
            ).concat(" != ").concat(decimal_text(want as u64).as_str()).concat("."),
            What::Kind => String::from_str("Invalid kind (use 'e', 'a', 'b', 'r', or 'c')"),
            What::Grid { fault } => fault.message(),
            What::Unmatched => unmatched(set, f.place, debug),
            What::Curve => match curve_id(spectral.as_str(), polarization.as_str()) {
                Err(m) => m,
                Ok(code) => code,
            },
            What::NeedsPhase => String::from_str("spectral=").concat(
                debug_text(spectral.as_str()).as_str(),
            ).concat(" is differential-phase: pass phase=True."),
            What::Refused { refusal } => String::from_str("compile_merit_spec: ").concat(
                refusal.message(show).as_str(),
            ),
        }
    }
}

/// What compilation reports is about a target that exists, so that there is
/// always a message for it.
pub proof fn reported_trouble_concerns_the_set<A: Numeric, L: Fn(Scalar) -> Scalar>(
    num: A,
    log10: L,
    set: TargetSet,
    trouble: Trouble,
)
    requires
        compile::curve_trouble(num, log10, set) == Some(trouble),
        set.spectral@.len() + set.angular@.len() <= usize::MAX,
    ensures
        fault_concerns(set, (CompileFault::Curve { trouble })),
{
    let gs = join::exported(num, log10, set);
    let n = join::curve_count(set);
    let picked = join::picks(num, gs, set, n);
    join::picks_len(num, gs, set, n);
    spectral_place(set, 0);
    angular_place(set, 0);
    unmatched_place(set, picked, 0);
    let jobs = compile::all_jobs(num, log10, set);
    job_places(gs, set, picked, n);
    job_place(num, gs, set, jobs, 0);
}

proof fn spectral_place(set: TargetSet, i: int)
    requires
        0 <= i,
        set.spectral@.len() <= usize::MAX,
    ensures
        join::first_bad_spectral(set.spectral@, i) matches Some(t) ==> place_exists(set, t.place)
            && !(t.what is Curve),
    decreases set.spectral@.len() - i,
{
    if i < set.spectral@.len() {
        spectral_place(set, i + 1);
    }
}

proof fn angular_place(set: TargetSet, i: int)
    requires
        0 <= i,
        set.angular@.len() <= usize::MAX,
    ensures
        join::first_bad_angular(set.angular@, i) matches Some(t) ==> place_exists(set, t.place)
            && !(t.what is Curve),
    decreases set.angular@.len() - i,
{
    if i < set.angular@.len() {
        angular_place(set, i + 1);
    }
}

proof fn unmatched_place(set: TargetSet, p: Seq<Option<usize>>, k: int)
    requires
        0 <= k,
        p.len() == join::curve_count(set),
        p.len() <= usize::MAX,
    ensures
        join::unmatched_from(set, p, k) matches Some(t) ==> place_exists(set, t.place) && !(
        t.what is Curve),
    decreases p.len() - k,
{
    if k < p.len() {
        unmatched_place(set, p, k + 1);
    }
}

proof fn job_places(
    gs: Seq<Seq<ExportView>>,
    set: TargetSet,
    p: Seq<Option<usize>>,
    k: int,
)
    requires
        0 <= k <= join::curve_count(set) <= usize::MAX,
    ensures
        forall|n: int|
            0 <= n < compile::jobs_upto(gs, set, p, k).len() ==> place_exists(
                set,
                (#[trigger] compile::jobs_upto(gs, set, p, k)[n]).place,
            ),
    decreases k,
{
    if k > 0 {
        job_places(gs, set, p, k - 1);
        let before = compile::jobs_upto(gs, set, p, k - 1);
        let more = compile::jobs_of(gs, set, p, k - 1);
        let all = compile::jobs_upto(gs, set, p, k);
        assert forall|n: int| 0 <= n < all.len() implies place_exists(
            set,
            (#[trigger] all[n]).place,
        ) by {
            if n < before.len() {
                assert(all[n] == before[n]);
            } else {
                assert(all[n] == more[n - before.len()]);
            }
        }
    }
}

proof fn job_place<A: Numeric>(
    num: A,
    gs: Seq<Seq<ExportView>>,
    set: TargetSet,
    jobs: Seq<compile::Job>,
    n: int,
)
    requires
        0 <= n,
        forall|i: int| 0 <= i < jobs.len() ==> place_exists(set, (#[trigger] jobs[i]).place),
    ensures
        compile::job_trouble(num, gs, set, jobs, n) matches Some(t) ==> fault_concerns(
            set,
            (CompileFault::Curve { trouble: t }),
        ),
    decreases jobs.len() - n,
{
    if n < jobs.len() {
        job_place(num, gs, set, jobs, n + 1);
    }
}

} // verus!
