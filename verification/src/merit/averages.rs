//! Means, and the terms that a row is made of.
use crate::merit::formula;
use crate::merit::plan::SampleRef;
use crate::merit::sensitivity;
use crate::merit::sensitivity::{CurveTerm, Slot};
use crate::merit::sim::SimCurves;
use crate::merit::spec::{MeritKey, MeritTarget};
use crate::merit::{CurveId, Quantity};
use crate::numeric;
use crate::numeric::Numeric;
use crate::optics::Optics;
use crate::reading;
use crate::reading::{add_up, over, times, Reading};
use crate::scalar;
use crate::scalar::Scalar;
use vstd::prelude::*;

verus! {

proof fn sums_read<A: Numeric>(num: A, k: Reading, xs: Seq<Scalar>, n: int)
    requires
        reading::exact(num, k),
        reading::summable(k, xs),
        0 <= n <= xs.len(),
    ensures
        k.is(formula::tally(num, xs, n), add_up(k, xs, n)),
        k.is(numeric::sum_of(num, xs, n), add_up(k, xs, n)),
    decreases n,
{
    let zero = Scalar { bits: 0 };
    let none = Scalar { bits: 0x8000_0000_0000_0000 };
    assert(none == scalar::negated(zero));
    assert(k.of(scalar::negated(zero)) == -k.of(zero));
    if n > 0 {
        sums_read(num, k, xs, n - 1);
        assert(xs[n - 1].finite());
        assert(k.holds(add_up(k, xs, n)));
    }
}

/// The residual and its terms are taken at the same means: the sum of the
/// numbers over how many there are, whichever way it is worked out.
pub proof fn both_passes_take_one_mean<A: Numeric>(num: A, k: Reading, xs: Seq<Scalar>)
    requires
        reading::exact(num, k),
        reading::summable(k, xs),
        0 < xs.len() <= usize::MAX,
        k.holds(xs.len() as real),
        k.holds(over(add_up(k, xs, xs.len() as int), xs.len() as real)),
    ensures
        ({
            let m = k.of(formula::average(num, xs));
            &&& formula::average(num, xs).finite()
            &&& times(m, xs.len() as real) == add_up(k, xs, xs.len() as int)
            &&& k.is(sensitivity::mean_over(num, xs, xs.len()), m)
        }),
{
    let n = xs.len() as int;
    sums_read(num, k, xs, n);
    assert(k.is(num.whole(xs.len() as usize), xs.len() as real));
    reading::undone(add_up(k, xs, n), xs.len() as real);
}

/// The terms of a mean share its slope: each point's slope, as many times as
/// there are points, is the slope of the residual of the means, taken at the
/// mean difference, the mean tolerance and the mean half-width.
pub proof fn a_mean_shares_its_slope<A: Numeric, O: Optics>(
    num: A,
    ph: O,
    k: Reading,
    sim: &SimCurves,
    key: MeritKey,
    t: MeritTarget,
    samples: Seq<SampleRef>,
    angle_row: usize,
    i: int,
)
    requires
        reading::exact(num, k),
        t.integral,
        0 <= i < samples.len(),
        0 < t.wavelengths@.len() <= usize::MAX,
        k.holds(t.wavelengths@.len() as real),
        ({
            let s = whole_slope(num, ph, sim, key, t, samples, angle_row, i);
            s.finite() && k.holds(over(k.of(s), t.wavelengths@.len() as real))
        }),
    ensures
        exists|slope: Scalar|
            {
                &&& times(k.of(slope), t.wavelengths@.len() as real) == k.of(
                    whole_slope(num, ph, sim, key, t, samples, angle_row, i),
                )
                &&& sensitivity::parts_of(num, ph, sim, key, t, samples, angle_row)[i]
                    == #[trigger] sensitivity::point_terms(
                    num,
                    sim,
                    sensitivity::channels_of(key.curve),
                    angle_row,
                    samples[i],
                    t.wavelengths@[i],
                    slope,
                )
            },
{
    let s = whole_slope(num, ph, sim, key, t, samples, angle_row, i);
    let n = t.wavelengths@.len() as real;
    let count = num.whole(t.wavelengths@.len() as usize);
    assert(k.is(count, n));
    let slope = num.quotient(s, count);
    reading::undone(k.of(s), n);
    let terms = sensitivity::point_terms(
        num,
        sim,
        sensitivity::channels_of(key.curve),
        angle_row,
        samples[i],
        t.wavelengths@[i],
        slope,
    );
    assert(sensitivity::parts_of(num, ph, sim, key, t, samples, angle_row)[i] == terms);
}

/// The slope of the residual of the means by the value of point `i`.
pub open spec fn whole_slope<A: Numeric, O: Optics>(
    num: A,
    ph: O,
    sim: &SimCurves,
    key: MeritKey,
    t: MeritTarget,
    samples: Seq<SampleRef>,
    angle_row: usize,
    i: int,
) -> Scalar {
    let xs = sensitivity::frame_raws(num, sim, key, t, samples, angle_row as int);
    let n = t.wavelengths@.len();
    sensitivity::point_slope(
        num,
        t,
        (
            sensitivity::mean_over(num, sensitivity::frame_gaps(num, ph, t, xs), n),
            scalar::greater(
                sensitivity::mean_over(num, t.tolerances@, n),
                Scalar { bits: 0x01a5_6e1f_c2f8_f359 },
            ),
            sensitivity::mean_over(num, t.band@, n),
        ),
        xs[i],
    )
}

/// A sample reads each channel once on a grid point, and twice between two:
/// below and above.
pub proof fn every_channel_is_read(channels: Seq<CurveId>, at: usize, c: int)
    requires
        0 <= c < channels.len(),
    ensures
        ({
            let on = sensitivity::slots_of(channels, SampleRef::Direct { at });
            let between = sensitivity::slots_of(channels, SampleRef::Between { at });
            &&& on.len() == channels.len()
            &&& on[c].curve == channels[c] && on[c].wavelength == at
            &&& between.len() == 2 * channels.len()
            &&& between[2 * c].curve == channels[c] && between[2 * c].wavelength == at
                && !between[2 * c].upper
            &&& between[2 * c + 1].curve == channels[c] && between[2 * c + 1].wavelength == at + 1
                && between[2 * c + 1].upper
        }),
{
}

/// What the first `n` terms make of a change of the curves.
pub open spec fn term_sum(
    k: Reading,
    terms: Seq<CurveTerm>,
    change: spec_fn(CurveId, int) -> real,
    n: int,
) -> real
    decreases n,
{
    if n <= 0 {
        0real
    } else {
        term_sum(k, terms, change, n - 1) + times(
            k.of(terms[n - 1].d_residual),
            change(terms[n - 1].curve, terms[n - 1].wavelength as int),
        )
    }
}

/// What the first `n` curve values make of a change, each by its weight.
pub open spec fn slot_sum(
    k: Reading,
    slots: Seq<Slot>,
    ws: Seq<Scalar>,
    change: spec_fn(CurveId, int) -> real,
    n: int,
) -> real
    decreases n,
{
    if n <= 0 {
        0real
    } else {
        slot_sum(k, slots, ws, change, n - 1) + times(
            k.of(ws[n - 1]),
            change(slots[n - 1].curve, slots[n - 1].wavelength),
        )
    }
}

proof fn prefixes_sum_alike(
    k: Reading,
    a: Seq<CurveTerm>,
    b: Seq<CurveTerm>,
    change: spec_fn(CurveId, int) -> real,
    n: int,
)
    requires
        n <= a.len(),
        n <= b.len(),
        forall|i: int| 0 <= i < n ==> #[trigger] a[i] == b[i],
    ensures
        term_sum(k, a, change, n) == term_sum(k, b, change, n),
    decreases n,
{
    if n > 0 {
        prefixes_sum_alike(k, a, b, change, n - 1);
        assert(a[n - 1] == b[n - 1]);
    }
}

/// Leaving out the terms that vanish changes nothing: whatever the curves do,
/// the terms that are kept make of it what all the weights make of it.
pub proof fn kept_terms_carry_every_change(
    k: Reading,
    slots: Seq<Slot>,
    ws: Seq<Scalar>,
    angle_row: usize,
    change: spec_fn(CurveId, int) -> real,
    n: int,
)
    requires
        reading::readable(k),
        0 <= n <= slots.len(),
        ws.len() == slots.len(),
        forall|j: int| 0 <= j < ws.len() ==> (#[trigger] ws[j]).finite(),
        forall|j: int| 0 <= j < slots.len() ==> 0 <= (#[trigger] slots[j]).wavelength <= usize::MAX,
    ensures
        ({
            let terms = sensitivity::kept(slots, ws, angle_row, n);
            &&& term_sum(k, terms, change, terms.len() as int) == slot_sum(
                k,
                slots,
                ws,
                change,
                n,
            )
            &&& forall|i: int|
                0 <= i < terms.len() ==> (#[trigger] terms[i]).angle_row == angle_row && k.of(
                    terms[i].d_residual,
                ) != 0real
        }),
    decreases n,
{
    if n > 0 {
        kept_terms_carry_every_change(k, slots, ws, angle_row, change, n - 1);
        let before = sensitivity::kept(slots, ws, angle_row, n - 1);
        let terms = sensitivity::kept(slots, ws, angle_row, n);
        let zero = Scalar { bits: 0 };
        let w = ws[n - 1];
        assert(w.finite());
        reading::order_reads(k, w, zero);
        let c = change(slots[n - 1].curve, slots[n - 1].wavelength);
        reading::units(c, c);
        assert(0 <= slots[n - 1].wavelength <= usize::MAX);
        if !scalar::same(w, zero) {
            prefixes_sum_alike(k, before, terms, change, before.len() as int);
            assert(terms.last().wavelength as int == slots[n - 1].wavelength);
        }
    }
}

/// The curves of a key keep its polarization and its side: an absorptance is
/// made of the reflectance and the transmittance next to it.
pub proof fn companions_stay_alike(curve: CurveId)
    ensures
        ({
            let cs = sensitivity::channels_of(curve);
            &&& forall|c: int|
                0 <= c < cs.len() ==> (#[trigger] cs[c]).pol() == curve.pol() && cs[c].back()
                    == curve.back()
            &&& curve.quantity() is Absorbed ==> cs.len() == 2 && cs[0].quantity() is Reflected
                && cs[1].quantity() is Transmitted
            &&& !(curve.quantity() is Absorbed) ==> cs.len() == 1 && cs[0] == curve
            &&& formula::companion(curve, Quantity::Reflected).pol() == curve.pol()
            &&& formula::companion(curve, Quantity::Transmitted).back() == curve.back()
        }),
{
}

} // verus!
