//! The spectral problem that the needle pass works on.
use crate::merit::spec::MeritSpec;
use crate::needle_pass::buckets;
use crate::needle_pass::buckets::{build_needle_targets, GradTerm, NeedleTargets};
use crate::needle_pass::fold;
use crate::needle_pass::fold::NeedleFault;
use crate::numeric::Numeric;
use crate::optics::Optics;
use crate::scalar::Scalar;
use vstd::prelude::*;

verus! {

/// A fixed grid and the demands folded on it.
#[derive(Debug)]
pub struct SpectralInputs {
    pub wavls: Vec<Scalar>,
    /// Sines of the angles of incidence.
    pub sin_theta: Vec<Scalar>,
    /// The demands, folded without a simulation.
    pub fold: NeedleTargets,
    pub spec: MeritSpec,
    pub angles_deg: Vec<Scalar>,
}

/// Chunks without terms give no terms.
proof fn nothing_joined(chunks: Seq<Seq<GradTerm>>)
    requires
        forall|i: int| 0 <= i < chunks.len() ==> (#[trigger] chunks[i]).len() == 0,
    ensures
        buckets::grads_joined(chunks) == Seq::<GradTerm>::empty(),
    decreases chunks.len(),
{
    if chunks.len() > 0 {
        let fewer = chunks.drop_last();
        assert forall|i: int| 0 <= i < fewer.len() implies (#[trigger] fewer[i]).len() == 0 by {
            assert(fewer[i] == chunks[i]);
        }
        nothing_joined(fewer);
        assert(chunks.last() == chunks[chunks.len() - 1]);
        assert(buckets::grads_joined(chunks) =~= Seq::<GradTerm>::empty());
    }
}

impl SpectralInputs {
    /// Folds the demands on a grid, before anything was simulated: color
    /// demands then add nothing, and one-sided and banded ones count as exact.
    pub fn from_spec<A: Numeric, O: Optics>(
        num: &A,
        ph: &O,
        spec: MeritSpec,
        angles_deg: Vec<Scalar>,
        wavls: Vec<Scalar>,
    ) -> (r: Result<Self, NeedleFault>)
        requires
            num.sound(),
            ph.lawful(),
            spec.wf(),
            forall|j: int|
                0 <= j < spec.target_seq().len() ==> fold::foldable(
                    #[trigger] spec.target_seq()[j],
                ),
            spec.target_seq().len() + spec.color_seq().len() > 0 ==> angles_deg@.len() > 0
                && wavls@.len() > 0,
            angles_deg@.len() * wavls@.len() <= usize::MAX,
        ensures
            match r {
                Ok(s) => {
                    &&& forall|j: int|
                        0 <= j < spec.target_seq().len() ==> #[trigger] fold::bucket_fault(
                            &spec,
                            j,
                        ) is None
                    &&& s.wavls == wavls
                    &&& s.angles_deg == angles_deg
                    &&& s.spec == spec
                    &&& s.sin_theta@ == angles_deg@.map_values(|a: Scalar| ph.sine_of(a))
                    &&& buckets::folded(
                        *num,
                        fold::targets_outcome(
                            *num,
                            *ph,
                            &spec,
                            angles_deg@,
                            wavls@,
                            None,
                            spec.target_seq().len() as int,
                        ),
                        Seq::<GradTerm>::empty(),
                        angles_deg@.len() * wavls@.len(),
                        s.fold,
                    )
                },
                Err(e) => exists|j: int|
                    {
                        &&& 0 <= j < spec.target_seq().len()
                        &&& #[trigger] fold::bucket_fault(&spec, j) == Some(e)
                        &&& forall|i: int|
                            0 <= i < j ==> #[trigger] fold::bucket_fault(&spec, i) is None
                    },
            },
    {
        let color = |c: usize, a: usize| -> (r: Result<Vec<(usize, Scalar)>, String>)
            ensures
                r matches Ok(v) && v@.len() == 0,
            { Ok(Vec::new()) };
        let folded: Result<NeedleTargets, NeedleFault> = build_needle_targets(
            num,
            ph,
            &color,
            &spec,
            &angles_deg,
            &wavls,
            None,
        );
        let targets: NeedleTargets = match folded {
            Ok(t) => t,
            Err(e) => {
                return Err(e);
            },
        };
        let ghost grads = choose|grads: Seq<Seq<GradTerm>>|
            {
                &&& grads.len() == spec.color_seq().len()
                &&& forall|c: int|
                    0 <= c < grads.len() ==> buckets::color_outcome(
                        *num,
                        color,
                        &spec,
                        angles_deg@,
                        wavls@,
                        None,
                        c,
                        Ok::<Seq<GradTerm>, NeedleFault>(#[trigger] grads[c]),
                    )
                &&& buckets::folded(
                    *num,
                    fold::targets_outcome(
                        *num,
                        *ph,
                        &spec,
                        angles_deg@,
                        wavls@,
                        None,
                        spec.target_seq().len() as int,
                    ),
                    #[trigger] buckets::grads_joined(grads),
                    angles_deg@.len() * wavls@.len(),
                    targets,
                )
            };
        proof {
            nothing_joined(grads);
        }
        let ghost sines = angles_deg@.map_values(|a: Scalar| ph.sine_of(a));
        let mut sin_theta: Vec<Scalar> = Vec::with_capacity(angles_deg.len());
        let mut i: usize = 0;
        while i < angles_deg.len()
            invariant
                i <= angles_deg.len(),
                ph.lawful(),
                sines == angles_deg@.map_values(|a: Scalar| ph.sine_of(a)),
                sin_theta@ == sines.take(i as int),
            decreases angles_deg.len() - i,
        {
            sin_theta.push(ph.sine(angles_deg[i]));
            i += 1;
            assert(sin_theta@ =~= sines.take(i as int));
        }
        assert(sin_theta@ =~= sines);
        Ok(SpectralInputs { wavls, sin_theta, fold: targets, spec, angles_deg })
    }
}

} // verus!
