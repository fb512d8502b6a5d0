//! From a demanded curve to the frame that the merit evaluates.
use crate::merit::formula;
use crate::merit::spec::MeritKey;
use crate::merit::CurveId;
use crate::numeric::Numeric;
use crate::optics::Optics;
use crate::reading;
use crate::reading::{over, size, times, Reading};
use crate::scalar;
use crate::scalar::Scalar;
use crate::spectralweave::plan;
use crate::spectralweave::targetweaver;
use crate::spectralweave::targetweaver::{ResolvedNormMode, Weighing};
use crate::targets::compile;
use crate::targets::compile::Asked;
use crate::targets::join;
use crate::targets::join::ExportView;
use crate::targets::scaling;
use vstd::prelude::*;

verus! {

/// A curve that is what was demanded has no gap in the frame that is compiled
/// from the demand: at every point the scaled difference of the demanded raw
/// value is a number less itself.
pub proof fn a_demanded_curve_has_no_gap<A: Numeric, O: Optics, L: Fn(Scalar) -> Scalar>(
    num: A,
    ph: O,
    log10: L,
    floor: Scalar,
    raw: Seq<Scalar>,
    tolerances: Seq<Scalar>,
    band: Seq<Scalar>,
    norm: (ResolvedNormMode, Scalar),
    how: Weighing,
    e: ExportView,
    ask: Asked,
    key_idx: u32,
    i: int,
)
    requires
        scaling::one_logarithm(ph, log10),
        e.entry == targetweaver::entry_for(
            num,
            log10,
            floor,
            raw,
            tolerances,
            band,
            norm,
            how,
        ),
        !ask.phase,
        !(norm.0 is Phase),
        0 <= i < raw.len(),
        norm.0 is Complex ==> num.product(raw[i], norm.1) == raw[i],
    ensures
        ({
            let f = compile::frame_of(num, e, ask, key_idx);
            let x = f.normalized_targets[i];
            &&& f.normalized_targets.len() == raw.len()
            &&& f.band.len() == raw.len()
            &&& formula::scaled_gap(num, ph, f.transform, f.norm_factor, raw[i], x)
                == num.difference(x, x)
        }),
{
    scaling::values_and_targets_are_scaled_alike(num, ph, log10, norm.0, norm.1, raw[i], raw[i]);
}

/// A phase demand is compiled back to raw values: a target that was scaled by
/// the factor comes out as it was demanded, and the frame's factor is one.
pub proof fn a_phase_comes_out_as_demanded<A: Numeric>(
    num: A,
    k: Reading,
    e: ExportView,
    ask: Asked,
    key_idx: u32,
    v: real,
    b: real,
    i: int,
)
    requires
        reading::exact(num, k),
        ask.phase,
        0 <= i < e.entry.normalized_targets.len(),
        e.entry.band.len() == e.entry.normalized_targets.len(),
        e.entry.norm_factor.finite(),
        e.entry.normalized_targets[i].finite() && e.entry.band[i].finite(),
        k.of(e.entry.norm_factor) > 0real,
        k.of(e.entry.norm_factor) >= k.of(Scalar { bits: 0x01a5_6e1f_c2f8_f359 }),
        k.of(e.entry.normalized_targets[i]) == times(v, k.of(e.entry.norm_factor)),
        k.of(e.entry.band[i]) == times(b, k.of(e.entry.norm_factor)),
        k.holds(v) && k.holds(b),
    ensures
        ({
            let f = compile::frame_of(num, e, ask, key_idx);
            &&& k.is(f.normalized_targets[i], v)
            &&& k.is(f.band[i], b)
            &&& k.is(f.norm_factor, 1real)
            &&& f.transform is Phase
            &&& f.phase
        }),
{
    let tiny = Scalar { bits: 0x01a5_6e1f_c2f8_f359 };
    let factor = e.entry.norm_factor;
    reading::order_reads(k, factor, tiny);
    let by = scalar::greater(factor, tiny);
    assert(k.is(by, k.of(factor)));
    undo(v, k.of(factor));
    undo(b, k.of(factor));
}

proof fn undo(v: real, f: real)
    requires
        f != 0real,
    ensures
        over(times(v, f), f) == v,
{
    reading::undone(times(v, f), f);
    reading::divided_out(over(times(v, f), f), v, f);
}

/// What a frame takes over unchanged: the demand's weight, the entry's
/// tolerances, count and way of averaging, and, but for a phase, its targets,
/// half-widths and factor.
pub proof fn a_frame_takes_over_its_entry<A: Numeric>(
    num: A,
    e: ExportView,
    ask: Asked,
    key_idx: u32,
)
    ensures
        ({
            let f = compile::frame_of(num, e, ask, key_idx);
            &&& f.wavelengths == e.wavelengths
            &&& f.tolerances == e.entry.tolerances
            &&& f.count_norm == e.entry.count_norm
            &&& f.integral == e.entry.integral
            &&& f.weight == ask.weight
            &&& f.kind.code() == e.entry.kind.code()
            &&& !ask.phase ==> {
                &&& f.transform.code() == e.entry.resolved_mode.code()
                &&& f.norm_factor == e.entry.norm_factor
                &&& f.normalized_targets == e.entry.normalized_targets
                &&& f.band == e.entry.band
            }
        }),
{
    compile::vocabularies_agree(e.entry.kind, e.entry.resolved_mode);
}

/// A key is found where it stands: the first with the angle and the curve.
pub proof fn a_key_is_found(
    keys: Seq<MeritKey>,
    angle: Scalar,
    curve: CurveId,
)
    ensures
        ({
            let all = compile::with_key(keys, angle, curve);
            let at = compile::key_at(all, angle, curve, 0);
            &&& 0 <= at < all.len()
            &&& all[at].angle.bits == angle.bits && all[at].curve == curve
            &&& forall|j: int|
                0 <= j < at ==> !((#[trigger] all[j]).angle.bits == angle.bits && all[j].curve
                    == curve)
        }),
{
    let all = compile::with_key(keys, angle, curve);
    first_key(keys, angle, curve, 0);
    first_key(all, angle, curve, 0);
    if compile::key_at(keys, angle, curve, 0) >= keys.len() {
        let last = keys.len() as int;
        assert(all[last].angle.bits == angle.bits && all[last].curve == curve);
    }
}

proof fn first_key(keys: Seq<MeritKey>, angle: Scalar, curve: CurveId, i: int)
    requires
        0 <= i <= keys.len(),
    ensures
        ({
            let at = compile::key_at(keys, angle, curve, i);
            &&& i <= at <= keys.len()
            &&& at < keys.len() ==> keys[at].angle.bits == angle.bits && keys[at].curve == curve
            &&& forall|j: int|
                i <= j < at ==> !((#[trigger] keys[j]).angle.bits == angle.bits && keys[j].curve
                    == curve)
        }),
    decreases keys.len() - i,
{
    if i < keys.len() {
        first_key(keys, angle, curve, i + 1);
    }
}

/// Two numbers are close within an absolute tolerance and one relative to the
/// second.
pub proof fn closeness_is_a_tolerance<A: Numeric>(num: A, k: Reading, x: Scalar, y: Scalar)
    requires
        reading::exact(num, k),
        x.finite() && y.finite(),
        ({
            let plain = k.of(Scalar { bits: 0x3e45_798e_e230_8c3a });
            let share = k.of(Scalar { bits: 0x3ee4_f8b5_88e3_68f1 });
            &&& k.holds(k.of(x) - k.of(y))
            &&& k.holds(times(share, size(k.of(y))))
            &&& k.holds(plain + times(share, size(k.of(y))))
        }),
    ensures
        ({
            let plain = k.of(Scalar { bits: 0x3e45_798e_e230_8c3a });
            let share = k.of(Scalar { bits: 0x3ee4_f8b5_88e3_68f1 });
            join::close(num, x, y) <==> size(k.of(x) - k.of(y)) <= plain + times(
                share,
                size(k.of(y)),
            )
        }),
{
    let zero = Scalar { bits: 0 };
    let plain = Scalar { bits: 0x3e45_798e_e230_8c3a };
    let share = Scalar { bits: 0x3ee4_f8b5_88e3_68f1 };
    let d = num.difference(x, y);
    assert(k.is(d, k.of(x) - k.of(y)));
    reading::order_reads(k, d, zero);
    reading::order_reads(k, y, zero);
    let rel = num.product(share, scalar::absolute(y));
    assert(k.is(rel, times(k.of(share), size(k.of(y)))));
    let limit = num.sum(plain, rel);
    assert(k.is(limit, k.of(plain) + k.of(rel)));
    reading::order_reads(k, scalar::absolute(d), limit);
}

/// Two points count as one wavelength where they are nearer than the limit.
pub proof fn matching_is_nearness<A: Numeric>(num: A, k: Reading, a: Scalar, b: Scalar)
    requires
        reading::exact(num, k),
        a.finite() && b.finite(),
        k.holds(k.of(a) - k.of(b)),
    ensures
        plan::matching(num, a, b) <==> size(k.of(a) - k.of(b)) < k.of(
            Scalar { bits: 0x3d71_9799_812d_ea11 },
        ),
{
    let zero = Scalar { bits: 0 };
    let limit = Scalar { bits: 0x3d71_9799_812d_ea11 };
    let d = num.difference(a, b);
    assert(k.is(d, k.of(a) - k.of(b)));
    reading::order_reads(k, d, zero);
    reading::order_reads(k, scalar::absolute(d), limit);
}

} // verus!
