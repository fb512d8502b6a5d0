//! Where a demand's points read the simulated grid.
use crate::merit::formula;
use crate::merit::plan;
use crate::merit::plan::SampleRef;
use crate::merit::sim::SimCurves;
use crate::merit::spec::{MeritKey, MeritTarget};
use crate::numeric::Numeric;
use crate::optics::Optics;
use crate::reading;
use crate::reading::Reading;
use crate::scalar;
use crate::scalar::Scalar;
use vstd::prelude::*;

verus! {

/// A sample reads where its wavelength lies: between two grid points that
/// enclose it, or at one grid point. The latter is the wavelength itself, or
/// the first or last of the grid beyond its ends, or one of two grid points
/// that count as the same.
pub open spec fn reads_at<A: Numeric>(
    num: A,
    sim_wl: Seq<Scalar>,
    w: Scalar,
    s: SampleRef,
) -> bool {
    match s {
        SampleRef::Between { at } => {
            &&& at + 1 < sim_wl.len()
            &&& scalar::at_most(sim_wl[at as int], w)
            &&& !scalar::less(sim_wl[at + 1], w)
        },
        SampleRef::Direct { at } => {
            &&& at < sim_wl.len()
            &&& {
                ||| sim_wl[at as int] == w
                ||| at + 1 == sim_wl.len()
                ||| !scalar::at_most(sim_wl[at as int], w)
                ||| scalar::less(
                    scalar::absolute(num.difference(sim_wl[at + 1], sim_wl[at as int])),
                    Scalar { bits: 0x3d06_849b_86a1_2b9b },
                )
            }
        },
    }
}

proof fn path_stays_on_the_grid(t_wl: Seq<Scalar>, sim_wl: Seq<Scalar>, path: Seq<int>, i: int)
    requires
        plan::pointer_path(t_wl, sim_wl, path),
        sim_wl.len() > 0,
        0 <= i < path.len(),
    ensures
        0 <= path[i] < sim_wl.len(),
        path[i] + 1 < sim_wl.len() ==> !scalar::less(sim_wl[path[i] + 1], t_wl[i]),
    decreases i,
{
    if i > 0 {
        path_stays_on_the_grid(t_wl, sim_wl, path, i - 1);
    }
    let from = if i == 0 {
        0
    } else {
        path[i - 1]
    };
    assert(plan::moved_to(sim_wl, from, path[i], t_wl[i]));
    if path[i] > from {
        assert(scalar::less(sim_wl[path[i]], t_wl[i]));
    }
}

/// Every point of a frame reads where its wavelength lies.
pub proof fn samples_read_where_they_lie<A: Numeric>(
    num: A,
    t_wl: Seq<Scalar>,
    sim_wl: Seq<Scalar>,
    samples: Seq<SampleRef>,
    i: int,
)
    requires
        plan::sampled(num, t_wl, sim_wl, samples),
        0 < sim_wl.len() <= usize::MAX,
        0 <= i < samples.len(),
    ensures
        reads_at(num, sim_wl, t_wl[i], samples[i]),
{
    let offset = choose|offset: int|
        {
            &&& #[trigger] plan::lead_below(sim_wl, t_wl[0], offset)
            &&& if plan::block_at(t_wl, sim_wl, offset) {
                forall|i: int|
                    0 <= i < samples.len() ==> #[trigger] samples[i] == (SampleRef::Direct {
                        at: (offset + i) as usize,
                    })
            } else {
                exists|path: Seq<int>|
                    {
                        &&& #[trigger] plan::pointer_path(t_wl, sim_wl, path)
                        &&& forall|i: int|
                            0 <= i < samples.len() ==> #[trigger] samples[i] == plan::sampled_at(
                                num,
                                sim_wl,
                                path[i],
                                t_wl[i],
                            )
                    }
            }
        };
    if plan::block_at(t_wl, sim_wl, offset) {
        assert(samples[i] == (SampleRef::Direct { at: (offset + i) as usize }));
        assert(t_wl[i] == sim_wl[offset + i]);
    } else {
        let path = choose|path: Seq<int>|
            {
                &&& #[trigger] plan::pointer_path(t_wl, sim_wl, path)
                &&& forall|i: int|
                    0 <= i < samples.len() ==> #[trigger] samples[i] == plan::sampled_at(
                        num,
                        sim_wl,
                        path[i],
                        t_wl[i],
                    )
            };
        path_stays_on_the_grid(t_wl, sim_wl, path, i);
        assert(samples[i] == plan::sampled_at(num, sim_wl, path[i], t_wl[i]));
    }
}

/// A differential phase is the phase of the amplitude less that of the
/// reference, which lies in the medium that light comes from.
pub proof fn a_differential_phase_is_less_the_reference<A: Numeric, O: Optics>(
    num: A,
    ph: O,
    k: Reading,
    sim: &SimCurves,
    key: MeritKey,
    t: MeritTarget,
    w: Scalar,
    z: (Scalar, Scalar),
)
    requires
        reading::exact(num, k),
        t.differential_passes matches Some(passes) ==> {
            let n = if key.curve.back() {
                sim.n_back_re
            } else {
                sim.n_front_re
            };
            let r = ph.reference(w, n, key.angle, sim.total_d, passes);
            &&& r.finite() && ph.argument(z.0, z.1).finite()
            &&& k.holds(k.of(ph.argument(z.0, z.1)) - k.of(r))
        },
    ensures
        match t.differential_passes {
            None => formula::phase_value(num, ph, sim, key, t, w, z) == ph.argument(z.0, z.1),
            Some(passes) => {
                let n = if key.curve.back() {
                    sim.n_back_re
                } else {
                    sim.n_front_re
                };
                k.of(formula::phase_value(num, ph, sim, key, t, w, z)) + k.of(
                    ph.reference(w, n, key.angle, sim.total_d, passes),
                ) == k.of(ph.argument(z.0, z.1))
            },
        },
{
}

} // verus!
