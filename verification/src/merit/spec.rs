//! The demands themselves, and what makes one acceptable.
use crate::merit::{ConstraintKind, CurveId, SimTransform};
use crate::scalar;
use crate::scalar::{Scalar, ONE_BITS};
use vstd::prelude::*;

verus! {

/// One demanded curve at one angle (in degrees).
#[derive(Clone, Copy, Debug, PartialEq, Eq, Structural)]
pub struct MeritKey {
    pub angle: Scalar,
    pub curve: CurveId,
}

/// One target frame on its own wavelength grid.
#[derive(Debug)]
pub struct MeritTarget {
    /// The key group it belongs to.
    pub key_idx: u32,
    pub wavelengths: Vec<Scalar>,
    pub kind: ConstraintKind,
    pub transform: SimTransform,
    pub norm_factor: Scalar,
    pub normalized_targets: Vec<Scalar>,
    pub tolerances: Vec<Scalar>,
    /// Half-widths for the band kinds; empty when unused.
    pub band: Vec<Scalar>,
    /// Reads the phase of a complex row instead of an intensity.
    pub phase: bool,
    /// Passes through the reference medium that are subtracted from a phase.
    pub differential_passes: Option<Scalar>,
    pub weight: Scalar,
    /// Divisor of the frame's sum.
    pub count_norm: Option<Scalar>,
    /// Constrains the mean over the frame rather than each point.
    pub integral: bool,
}

/// One color demand of a key group; `id` names it to whoever evaluates it.
#[derive(Clone, Copy, Debug, PartialEq, Eq, Structural)]
pub struct ColorDemand {
    pub key_idx: u32,
    pub id: usize,
}

/// Why a demand was refused.
#[derive(Clone, Copy, Debug, PartialEq, Eq, Structural)]
pub enum TargetFault {
    LengthMismatch { wl: usize, targets: usize, tols: usize },
    BandMismatch { wl: usize, band: usize },
    KeyOutOfRange { key_idx: u32, keys: usize },
    /// Absorbed and unpolarized light has no phase.
    NoPhase { curve: CurveId },
    /// A phase transform scales nothing, so it needs raw values.
    PhaseNorm { norm_factor: Scalar },
    DifferentialWithoutPhase,
    BadPasses { passes: Scalar },
    BadWeight { weight: Scalar },
    BadCount { count: Scalar },
    /// A mean is already normalized by its count.
    IntegralCount,
}

/// `|x - 1| > 1e-12` on doubles. Between one half and two the difference is
/// exact, so the bound is a distance in units in the last place: 4503 steps
/// above one and 9007 of the half-sized steps below it are still within.
pub open spec fn off_unity(x: Scalar) -> bool {
    !x.nan() && (x.key() > ONE_BITS + 4503 || x.key() < ONE_BITS - 9007)
}

/// The first thing wrong with a target, in the order it is looked for.
pub open spec fn target_fault(keys: Seq<MeritKey>, t: MeritTarget) -> Option<TargetFault> {
    let n = t.wavelengths@.len();
    if t.normalized_targets@.len() != n || t.tolerances@.len() != n {
        Some(
            TargetFault::LengthMismatch {
                wl: n as usize,
                targets: t.normalized_targets@.len() as usize,
                tols: t.tolerances@.len() as usize,
            },
        )
    } else if t.band@.len() != 0 && t.band@.len() != n {
        Some(TargetFault::BandMismatch { wl: n as usize, band: t.band@.len() as usize })
    } else if t.key_idx >= keys.len() {
        Some(TargetFault::KeyOutOfRange { key_idx: t.key_idx, keys: keys.len() as usize })
    } else if t.phase && !keys[t.key_idx as int].curve.has_phase() {
        Some(TargetFault::NoPhase { curve: keys[t.key_idx as int].curve })
    } else if t.transform is Phase && off_unity(t.norm_factor) {
        Some(TargetFault::PhaseNorm { norm_factor: t.norm_factor })
    } else if t.differential_passes is Some && !t.phase {
        Some(TargetFault::DifferentialWithoutPhase)
    } else if t.differential_passes is Some && !(scalar::at_most(
        Scalar::zero(),
        t.differential_passes->0,
    ) && t.differential_passes->0.finite()) {
        Some(TargetFault::BadPasses { passes: t.differential_passes->0 })
    } else if !t.weight.finite() || scalar::less(t.weight, Scalar::zero()) {
        Some(TargetFault::BadWeight { weight: t.weight })
    } else if t.count_norm is Some && (!t.count_norm->0.finite() || scalar::at_most(
        t.count_norm->0,
        Scalar::zero(),
    )) {
        Some(TargetFault::BadCount { count: t.count_norm->0 })
    } else if t.integral && t.count_norm is Some {
        Some(TargetFault::IntegralCount)
    } else {
        None
    }
}

/// Residual rows of one target: one for a mean, else one per point.
pub open spec fn target_rows(t: MeritTarget) -> nat {
    if t.integral {
        1
    } else {
        t.wavelengths@.len()
    }
}

/// Residual rows of the first `n` targets.
pub open spec fn rows_of_targets(ts: Seq<MeritTarget>, n: int) -> nat
    decreases n,
{
    if n <= 0 {
        0
    } else {
        rows_of_targets(ts, n - 1) + target_rows(ts[n - 1])
    }
}

/// A flat description of all demands.
#[derive(Debug)]
pub struct MeritSpec {
    keys: Vec<MeritKey>,
    targets: Vec<MeritTarget>,
    color: Vec<ColorDemand>,
}

fn is_off_unity(x: Scalar) -> (r: bool)
    ensures
        r == off_unity(x),
{
    let hi: Scalar = Scalar { bits: ONE_BITS + 4503 };
    let lo: Scalar = Scalar { bits: ONE_BITS - 9007 };
    x.gt(hi) || x.lt(lo)
}

/// The fault of a target, computed.
fn find_fault(keys: &Vec<MeritKey>, t: &MeritTarget) -> (r: Option<TargetFault>)
    ensures
        r == target_fault(keys@, *t),
{
    let n: usize = t.wavelengths.len();
    if t.normalized_targets.len() != n || t.tolerances.len() != n {
        return Some(
            TargetFault::LengthMismatch {
                wl: n,
                targets: t.normalized_targets.len(),
                tols: t.tolerances.len(),
            },
        );
    }
    if t.band.len() != 0 && t.band.len() != n {
        return Some(TargetFault::BandMismatch { wl: n, band: t.band.len() });
    }
    if t.key_idx as usize >= keys.len() {
        return Some(TargetFault::KeyOutOfRange { key_idx: t.key_idx, keys: keys.len() });
    }
    let curve: CurveId = keys[t.key_idx as usize].curve;
    if t.phase && curve.phase_channel().is_none() {
        return Some(TargetFault::NoPhase { curve });
    }
    if t.transform == SimTransform::Phase && is_off_unity(t.norm_factor) {
        return Some(TargetFault::PhaseNorm { norm_factor: t.norm_factor });
    }
    match t.differential_passes {
        Some(passes) => {
            if !t.phase {
                return Some(TargetFault::DifferentialWithoutPhase);
            }
            if !passes.ge(Scalar::zero()) || !passes.is_finite() {
                return Some(TargetFault::BadPasses { passes });
            }
        },
        None => {},
    }
    if !t.weight.is_finite() || t.weight.lt(Scalar::zero()) {
        return Some(TargetFault::BadWeight { weight: t.weight });
    }
    match t.count_norm {
        Some(count) => {
            if !count.is_finite() || count.le(Scalar::zero()) {
                return Some(TargetFault::BadCount { count });
            }
            if t.integral {
                return Some(TargetFault::IntegralCount);
            }
        },
        None => {},
    }
    None
}

impl MeritSpec {
    pub closed spec fn key_seq(&self) -> Seq<MeritKey> {
        self.keys@
    }

    pub closed spec fn target_seq(&self) -> Seq<MeritTarget> {
        self.targets@
    }

    pub closed spec fn color_seq(&self) -> Seq<ColorDemand> {
        self.color@
    }

    /// Every demand was acceptable when it was added.
    pub open spec fn wf(&self) -> bool {
        &&& forall|i: int|
            0 <= i < self.target_seq().len() ==> target_fault(
                self.key_seq(),
                #[trigger] self.target_seq()[i],
            ) is None
        &&& forall|i: int|
            0 <= i < self.color_seq().len() ==> (#[trigger] self.color_seq()[i]).key_idx
                < self.key_seq().len()
    }

    /// Number of residual rows when the simulation covers every frame.
    pub open spec fn full_rows(&self) -> nat {
        rows_of_targets(self.target_seq(), self.target_seq().len() as int) + self.color_seq().len()
    }

    pub fn new() -> (r: MeritSpec)
        ensures
            r.wf(),
            r.key_seq() == Seq::<MeritKey>::empty(),
            r.target_seq() == Seq::<MeritTarget>::empty(),
            r.color_seq() == Seq::<ColorDemand>::empty(),
    {
        MeritSpec { keys: Vec::new(), targets: Vec::new(), color: Vec::new() }
    }

    /// Registers a key group and returns its index.
    pub fn add_key(&mut self, key: MeritKey) -> (r: usize)
        requires
            old(self).wf(),
        ensures
            final(self).wf(),
            r == old(self).key_seq().len(),
            final(self).key_seq() == old(self).key_seq().push(key),
            final(self).target_seq() == old(self).target_seq(),
            final(self).color_seq() == old(self).color_seq(),
    {
        let r: usize = self.keys.len();
        self.keys.push(key);
        proof {
            assert forall|i: int| 0 <= i < self.target_seq().len() implies target_fault(
                self.key_seq(),
                #[trigger] self.target_seq()[i],
            ) is None by {
                assert(target_fault(old(self).key_seq(), old(self).target_seq()[i]) is None);
            }
            assert forall|i: int| 0 <= i < self.color_seq().len() implies (
            #[trigger] self.color_seq()[i]).key_idx < self.key_seq().len() by {
                assert(old(self).color_seq()[i].key_idx < old(self).key_seq().len());
            }
        }
        r
    }

    /// Appends a target frame, or says what is wrong with it.
    pub fn add_target(&mut self, target: MeritTarget) -> (r: Result<(), TargetFault>)
        requires
            old(self).wf(),
        ensures
            final(self).wf(),
            final(self).key_seq() == old(self).key_seq(),
            final(self).color_seq() == old(self).color_seq(),
            match r {
                Ok(_) => {
                    &&& target_fault(old(self).key_seq(), target) is None
                    &&& final(self).target_seq() == old(self).target_seq().push(target)
                },
                Err(e) => {
                    &&& target_fault(old(self).key_seq(), target) == Some(e)
                    &&& final(self).target_seq() == old(self).target_seq()
                },
            },
    {
        match find_fault(&self.keys, &target) {
            Some(e) => Err(e),
            None => {
                self.targets.push(target);
                proof {
                    assert forall|i: int| 0 <= i < self.target_seq().len() implies target_fault(
                        self.key_seq(),
                        #[trigger] self.target_seq()[i],
                    ) is None by {
                        if i < old(self).target_seq().len() {
                            assert(target_fault(old(self).key_seq(), old(self).target_seq()[i])
                                is None);
                        }
                    }
                    assert forall|i: int| 0 <= i < self.color_seq().len() implies (
                    #[trigger] self.color_seq()[i]).key_idx < self.key_seq().len() by {
                        assert(old(self).color_seq()[i].key_idx < old(self).key_seq().len());
                    }
                }
                Ok(())
            },
        }
    }

    /// Appends a color demand.
    pub fn add_color_demand(&mut self, demand: ColorDemand) -> (r: Result<(), TargetFault>)
        requires
            old(self).wf(),
        ensures
            final(self).wf(),
            final(self).key_seq() == old(self).key_seq(),
            final(self).target_seq() == old(self).target_seq(),
            r == (if demand.key_idx >= old(self).key_seq().len() {
                Err(
                    TargetFault::KeyOutOfRange {
                        key_idx: demand.key_idx,
                        keys: old(self).key_seq().len() as usize,
                    },
                )
            } else {
                Ok(())
            }),
            final(self).color_seq() == (if r is Ok {
                old(self).color_seq().push(demand)
            } else {
                old(self).color_seq()
            }),
    {
        if demand.key_idx as usize >= self.keys.len() {
            return Err(
                TargetFault::KeyOutOfRange { key_idx: demand.key_idx, keys: self.keys.len() },
            );
        }
        self.color.push(demand);
        proof {
            assert forall|i: int| 0 <= i < self.target_seq().len() implies target_fault(
                self.key_seq(),
                #[trigger] self.target_seq()[i],
            ) is None by {
                assert(target_fault(old(self).key_seq(), old(self).target_seq()[i]) is None);
            }
            assert forall|i: int| 0 <= i < self.color_seq().len() implies (
            #[trigger] self.color_seq()[i]).key_idx < self.key_seq().len() by {
                if i < old(self).color_seq().len() {
                    assert(old(self).color_seq()[i].key_idx < old(self).key_seq().len());
                }
            }
        }
        Ok(())
    }

    pub fn key_count(&self) -> (r: usize)
        ensures
            r == self.key_seq().len(),
    {
        self.keys.len()
    }

    pub fn target_count(&self) -> (r: usize)
        ensures
            r == self.target_seq().len(),
    {
        self.targets.len()
    }

    pub fn keys(&self) -> (r: &Vec<MeritKey>)
        ensures
            r@ == self.key_seq(),
    {
        &self.keys
    }

    pub fn targets(&self) -> (r: &Vec<MeritTarget>)
        ensures
            r@ == self.target_seq(),
    {
        &self.targets
    }

    pub fn color_demands(&self) -> (r: &Vec<ColorDemand>)
        ensures
            r@ == self.color_seq(),
    {
        &self.color
    }

    /// Some demand reads complex amplitudes.
    pub fn uses_phase(&self) -> (r: bool)
        ensures
            r == exists|i: int|
                0 <= i < self.target_seq().len() && (#[trigger] self.target_seq()[i]).phase,
    {
        let mut i: usize = 0;
        while i < self.targets.len()
            invariant
                i <= self.targets.len(),
                forall|j: int| 0 <= j < i ==> !(#[trigger] self.target_seq()[j]).phase,
            decreases self.targets.len() - i,
        {
            assert(self.target_seq()[i as int] == self.targets@[i as int]);
            if self.targets[i].phase {
                return true;
            }
            i += 1;
        }
        false
    }

    /// Some demand subtracts a reference phase.
    pub fn uses_differential(&self) -> (r: bool)
        ensures
            r == exists|i: int|
                0 <= i < self.target_seq().len() && (
                #[trigger] self.target_seq()[i]).differential_passes is Some,
    {
        let mut i: usize = 0;
        while i < self.targets.len()
            invariant
                i <= self.targets.len(),
                forall|j: int|
                    0 <= j < i ==> (#[trigger] self.target_seq()[j]).differential_passes is None,
            decreases self.targets.len() - i,
        {
            assert(self.target_seq()[i as int] == self.targets@[i as int]);
            if self.targets[i].differential_passes.is_some() {
                return true;
            }
            i += 1;
        }
        false
    }

    /// Residual rows when the simulation covers every frame: one per point of
    /// a pointwise frame, one per mean, one per color demand.
    pub fn n_residuals(&self) -> (r: usize)
        requires
            self.full_rows() <= usize::MAX,
        ensures
            r == self.full_rows(),
    {
        let mut n: usize = 0;
        let mut i: usize = 0;
        while i < self.targets.len()
            invariant
                i <= self.targets.len(),
                n == rows_of_targets(self.targets@, i as int),
                self.full_rows() <= usize::MAX,
            decreases self.targets.len() - i,
        {
            proof {
                rows_grow(self.targets@, i + 1, self.targets@.len() as int);
            }
            n = n + (if self.targets[i].integral {
                1
            } else {
                self.targets[i].wavelengths.len()
            });
            i += 1;
        }
        n + self.color.len()
    }
}

proof fn rows_grow(ts: Seq<MeritTarget>, m: int, n: int)
    requires
        0 <= m <= n,
    ensures
        rows_of_targets(ts, m) <= rows_of_targets(ts, n),
    decreases n,
{
    if m < n {
        rows_grow(ts, m, n - 1);
    }
}

} // verus!
