//! The merit that a phase ends with, and when it ends the run.
use crate::inflate::InflateResult;
use crate::pipeline::machine;
use crate::pipeline::PipelineConfig;
use crate::scalar;
use crate::scalar::Scalar;
use vstd::prelude::*;

verus! {

/// A phase ends with its last merit: what came before a step does not count
/// once the step has given one.
pub proof fn the_last_merit_counts(
    a: Scalar,
    b: Scalar,
    cleaned: Option<Scalar>,
    inflated: Option<InflateResult>,
)
    ensures
        inflated is Some ==> machine::mf_at_end(a, cleaned, inflated) == machine::mf_at_end(
            b,
            None,
            inflated,
        ),
        inflated is Some ==> Some(machine::mf_at_end(a, cleaned, inflated)) == machine::merit_of(
            inflated,
        ),
        inflated is None && cleaned is Some ==> Some(machine::mf_at_end(a, cleaned, inflated))
            == cleaned,
        machine::mf_at_end(a, None, None) == a,
{
}

/// A lower merit ends the run wherever a higher one does.
pub proof fn a_better_merit_is_good_enough_too(cfg: PipelineConfig, a: Scalar, b: Scalar)
    requires
        scalar::at_most(a, b),
        machine::merit_budget(cfg, b) is Some,
    ensures
        machine::merit_budget(cfg, a) is Some,
{
}

/// The merit that is aimed at ends the run, and any above it does not.
pub proof fn the_aim_ends_the_run(cfg: PipelineConfig, mf: Scalar)
    requires
        !cfg.merit_target.nan(),
    ensures
        machine::merit_budget(cfg, cfg.merit_target) is Some,
        scalar::less(cfg.merit_target, mf) ==> machine::merit_budget(cfg, mf) is None,
        machine::aims(cfg) <==> scalar::less(Scalar { bits: 0 }, cfg.merit_target),
{
}

/// A final pass raises thin films where every pass does, and no pass raises
/// them where they are to be removed.
pub proof fn thin_films_are_raised_as_asked(cfg: PipelineConfig)
    ensures
        cfg.thin_layer_policy.raises(false) ==> cfg.thin_layer_policy.raises(true),
        cfg.thin_layer_policy is Remove ==> !cfg.thin_layer_policy.raises(true),
        cfg.thin_layer_policy is ClampUpFinal ==> cfg.thin_layer_policy.raises(true)
            && !cfg.thin_layer_policy.raises(false),
        cfg.thin_layer_policy is ClampUpAlways ==> cfg.thin_layer_policy.raises(false),
{
}

} // verus!
