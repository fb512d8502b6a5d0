//! How a residual row follows the curves: a sample lies on the line between
//! its grid points, a key's value is made of its curves, and the terms of a
//! row carry a change of the curves over to the residual.
use crate::merit::formula;
use crate::merit::plan::SampleRef;
use crate::merit::sensitivity;
use crate::merit::sim::SimCurves;
use crate::merit::CurveId;
use crate::numeric;
use crate::numeric::Numeric;
use crate::reading;
use crate::reading::{over, times, Reading};
use crate::scalar;
use crate::scalar::Scalar;
use vstd::prelude::*;

verus! {

/// The numbers that a reading between two points meets can be held.
pub open spec fn traceable(k: Reading, w0: real, v0: real, w1: real, v1: real, w: real) -> bool {
    let part = over(w - w0, w1 - w0);
    &&& w0 != w1
    &&& k.holds(w - w0)
    &&& k.holds(w1 - w0)
    &&& k.holds(v1 - v0)
    &&& k.holds(times(w - w0, v1 - v0))
    &&& k.holds(part)
    &&& k.holds(1real - part)
    &&& k.holds(times(part, v1 - v0))
    &&& k.holds(v0 + times(part, v1 - v0))
}

/// A sample between two grid points lies on the line through them, whichever
/// way it is worked out.
pub proof fn a_sample_lies_on_the_line<A: Numeric>(
    num: A,
    k: Reading,
    sim: &SimCurves,
    row: Seq<Scalar>,
    a: int,
    at: usize,
    w: Scalar,
)
    requires
        reading::exact(num, k),
        ({
            let w0 = sim.wavelengths@[at as int];
            let w1 = sim.wavelengths@[at + 1];
            let v0 = row[formula::place(sim, a, at as int)];
            let v1 = row[formula::place(sim, a, at + 1)];
            &&& w0.finite() && w1.finite() && v0.finite() && v1.finite() && w.finite()
            &&& traceable(k, k.of(w0), k.of(v0), k.of(w1), k.of(v1), k.of(w))
        }),
    ensures
        ({
            let s = SampleRef::Between { at };
            let w0 = k.of(sim.wavelengths@[at as int]);
            let w1 = k.of(sim.wavelengths@[at + 1]);
            let v0 = k.of(row[formula::place(sim, a, at as int)]);
            let v1 = k.of(row[formula::place(sim, a, at + 1)]);
            let y = formula::level(num, sim, row, a, s, w);
            &&& k.is(y, v0 + times(over(k.of(w) - w0, w1 - w0), v1 - v0))
            &&& k.is(sensitivity::blended(num, sim, row, a, s, w), k.of(y))
            &&& k.is(sensitivity::share_of(num, sim, at as int, w), over(k.of(w) - w0, w1 - w0))
            &&& times(over(k.of(w) - w0, w1 - w0), w1 - w0) == k.of(w) - w0
        }),
{
    let w0 = sim.wavelengths@[at as int];
    let w1 = sim.wavelengths@[at + 1];
    let v0 = row[formula::place(sim, a, at as int)];
    let v1 = row[formula::place(sim, a, at + 1)];
    let p = k.of(w) - k.of(w0);
    let q = k.of(v1) - k.of(v0);
    let d = k.of(w1) - k.of(w0);
    reading::factored(p, q, d);
    reading::undone(p, d);
    assert(k.is(num.difference(w, w0), p));
    assert(k.is(num.difference(v1, v0), q));
    assert(k.is(num.difference(w1, w0), d));
    assert(k.is(num.product(num.difference(w, w0), num.difference(v1, v0)), times(p, q)));
    let part = over(p, d);
    assert(k.is(num.quotient(num.difference(w, w0), num.difference(w1, w0)), part));
}

/// A complex sample lies on the line through its two grid points.
pub proof fn an_amplitude_lies_on_the_line<A: Numeric>(
    num: A,
    k: Reading,
    sim: &SimCurves,
    row: Seq<(Scalar, Scalar)>,
    a: int,
    at: usize,
    w: Scalar,
)
    requires
        reading::exact(num, k),
        ({
            let w0 = sim.wavelengths@[at as int];
            let w1 = sim.wavelengths@[at + 1];
            let v0 = row[formula::place(sim, a, at as int)];
            let v1 = row[formula::place(sim, a, at + 1)];
            &&& w0.finite() && w1.finite() && w.finite()
            &&& v0.0.finite() && v1.0.finite() && v0.1.finite() && v1.1.finite()
            &&& traceable(k, k.of(w0), k.of(v0.0), k.of(w1), k.of(v1.0), k.of(w))
            &&& traceable(k, k.of(w0), k.of(v0.1), k.of(w1), k.of(v1.1), k.of(w))
        }),
    ensures
        ({
            let w0 = k.of(sim.wavelengths@[at as int]);
            let w1 = k.of(sim.wavelengths@[at + 1]);
            let v0 = row[formula::place(sim, a, at as int)];
            let v1 = row[formula::place(sim, a, at + 1)];
            let part = over(k.of(w) - w0, w1 - w0);
            let z = formula::amplitude(num, sim, row, a, SampleRef::Between { at }, w);
            &&& k.is(z.0, k.of(v0.0) + times(part, k.of(v1.0) - k.of(v0.0)))
            &&& k.is(z.1, k.of(v0.1) + times(part, k.of(v1.1) - k.of(v0.1)))
            &&& times(part, w1 - w0) == k.of(w) - w0
        }),
{
    let w0 = sim.wavelengths@[at as int];
    let w1 = sim.wavelengths@[at + 1];
    let v0 = row[formula::place(sim, a, at as int)];
    let v1 = row[formula::place(sim, a, at + 1)];
    let p = k.of(w) - k.of(w0);
    let d = k.of(w1) - k.of(w0);
    reading::undone(p, d);
    reading::units(over(p, d), k.of(v1.0) - k.of(v0.0));
    reading::units(over(p, d), k.of(v1.1) - k.of(v0.1));
    let f = formula::fraction(num, w0, w1, w);
    assert(k.is(f, over(p, d)));
}

/// What is absorbed, reflected and transmitted adds up to all the light.
pub proof fn the_light_adds_up<A: Numeric>(num: A, k: Reading, r: Scalar, t: Scalar)
    requires
        reading::exact(num, k),
        r.finite() && t.finite(),
        k.holds(1real - k.of(r)),
        k.holds(1real - k.of(r) - k.of(t)),
    ensures
        formula::absorbed(num, r, t).finite(),
        k.of(formula::absorbed(num, r, t)) + k.of(r) + k.of(t) == 1real,
{
    let one = Scalar { bits: 0x3FF0_0000_0000_0000 };
    assert(k.is(num.difference(one, r), 1real - k.of(r)));
}

/// The value that the terms are taken of is the simulated value: a single
/// curve as it is, an absorptance as what its two companions leave.
pub proof fn the_terms_are_taken_of_the_value<A: Numeric>(
    num: A,
    k: Reading,
    sim: &SimCurves,
    channels: Seq<CurveId>,
    a: int,
    s: SampleRef,
    w: Scalar,
)
    requires
        reading::exact(num, k),
        channels.len() == 1 || channels.len() == 2,
        forall|c: int|
            0 <= c < channels.len() ==> sensitivity::blended(
                num,
                sim,
                sim.intensity(#[trigger] channels[c])->0@,
                a,
                s,
                w,
            ).finite(),
        channels.len() == 2 ==> {
            let r = k.of(sensitivity::blended(num, sim, sim.intensity(channels[0])->0@, a, s, w));
            let t = k.of(sensitivity::blended(num, sim, sim.intensity(channels[1])->0@, a, s, w));
            &&& k.holds(-r - t)
            &&& k.holds(1real - r - t)
        },
    ensures
        ({
            let r = k.of(sensitivity::blended(num, sim, sim.intensity(channels[0])->0@, a, s, w));
            let t = k.of(sensitivity::blended(num, sim, sim.intensity(channels[1])->0@, a, s, w));
            let v = sensitivity::carried(num, sim, channels, a, s, w);
            k.is(
                v,
                if channels.len() == 2 {
                    1real - r - t
                } else {
                    r
                },
            )
        }),
{
    let es = sensitivity::entries(num, sim, channels, a, s, w);
    let zero = Scalar { bits: 0 };
    let one = Scalar { bits: 0x3FF0_0000_0000_0000 };
    let minus = Scalar { bits: 0xBFF0_0000_0000_0000 };
    let none = Scalar { bits: 0x8000_0000_0000_0000 };
    assert(none == scalar::negated(zero));
    assert(k.of(scalar::negated(zero)) == -k.of(zero));
    assert(minus == scalar::negated(one));
    assert(k.of(scalar::negated(one)) == -k.of(one));
    let b0 = sensitivity::blended(num, sim, sim.intensity(channels[0])->0@, a, s, w);
    let r = k.of(b0);
    assert(k.holds(r));
    assert(k.holds(k.of(scalar::negated(b0))));
    reading::units(r, r);
    assert(numeric::sum_of(num, es, 0) == none);
    if channels.len() == 1 {
        assert(k.is(es[0], r));
        assert(k.is(numeric::sum_of(num, es, 1), r)) by {
            assert(numeric::sum_of(num, es, 1) == num.sum(numeric::sum_of(num, es, 0), es[0]));
        }
    } else {
        let b1 = sensitivity::blended(num, sim, sim.intensity(channels[1])->0@, a, s, w);
        let t = k.of(b1);
        assert(k.holds(k.of(scalar::negated(b1))));
        reading::units(t, t);
        assert(k.is(es[0], -r));
        assert(k.is(es[1], -t));
        assert(k.is(numeric::sum_of(num, es, 1), -r)) by {
            assert(numeric::sum_of(num, es, 1) == num.sum(numeric::sum_of(num, es, 0), es[0]));
        }
        assert(k.is(numeric::sum_of(num, es, 2), -r - t)) by {
            assert(numeric::sum_of(num, es, 2) == num.sum(numeric::sum_of(num, es, 1), es[1]));
        }
    }
}

/// The terms of a point carry a change of the curves: between two grid points
/// the lower one has the share that the upper one leaves of the slope, with
/// the sign with which the curve enters.
pub proof fn the_terms_share_the_slope<A: Numeric>(
    num: A,
    k: Reading,
    sim: &SimCurves,
    channels: Seq<CurveId>,
    at: usize,
    w: Scalar,
    slope: Scalar,
    below: real,
    above: real,
)
    requires
        reading::exact(num, k),
        slope.finite(),
        ({
            let w0 = sim.wavelengths@[at as int];
            let w1 = sim.wavelengths@[at + 1];
            let part = over(k.of(w) - k.of(w0), k.of(w1) - k.of(w0));
            let whole = if channels.len() == 2 {
                -k.of(slope)
            } else {
                k.of(slope)
            };
            &&& w0.finite() && w1.finite() && w.finite()
            &&& k.of(w0) != k.of(w1)
            &&& k.holds(k.of(w) - k.of(w0))
            &&& k.holds(k.of(w1) - k.of(w0))
            &&& k.holds(part)
            &&& k.holds(1real - part)
            &&& k.holds(times(whole, part))
            &&& k.holds(times(whole, 1real - part))
        }),
    ensures
        ({
            let s = SampleRef::Between { at };
            let lower = sensitivity::weight_of(num, sim, channels, s, w, slope, false);
            let upper = sensitivity::weight_of(num, sim, channels, s, w, slope, true);
            let direct = sensitivity::weight_of(
                num,
                sim,
                channels,
                SampleRef::Direct { at },
                w,
                slope,
                false,
            );
            let w0 = k.of(sim.wavelengths@[at as int]);
            let w1 = k.of(sim.wavelengths@[at + 1]);
            let part = over(k.of(w) - w0, w1 - w0);
            let whole = if channels.len() == 2 {
                -k.of(slope)
            } else {
                k.of(slope)
            };
            &&& k.is(direct, whole)
            &&& times(k.of(lower), below) + times(k.of(upper), above) == times(
                whole,
                below + times(part, above - below),
            )
            &&& times(part, w1 - w0) == k.of(w) - w0
        }),
{
    let one = Scalar { bits: 0x3FF0_0000_0000_0000 };
    let minus = Scalar { bits: 0xBFF0_0000_0000_0000 };
    assert(minus == scalar::negated(one));
    assert(k.of(scalar::negated(one)) == -k.of(one));
    assert(k.holds(k.of(slope)));
    assert(k.holds(k.of(scalar::negated(slope))));
    let w0 = sim.wavelengths@[at as int];
    let w1 = sim.wavelengths@[at + 1];
    let p = k.of(w) - k.of(w0);
    let d = k.of(w1) - k.of(w0);
    let part = over(p, d);
    let sl = k.of(slope);
    let whole = if channels.len() == 2 {
        -sl
    } else {
        sl
    };
    reading::units(sl, sl);
    assert(k.is(num.product(slope, sensitivity::entry_sign(channels)), whole));
    assert(k.is(sensitivity::share_of(num, sim, at as int, w), part));
    reading::undone(p, d);
    let s = SampleRef::Between { at };
    let lower = k.of(sensitivity::weight_of(num, sim, channels, s, w, slope, false));
    let upper = k.of(sensitivity::weight_of(num, sim, channels, s, w, slope, true));
    assert(lower == times(whole, 1real - part));
    assert(upper == times(whole, part));
    shares(whole, part, below, above);
}

proof fn shares(whole: real, part: real, below: real, above: real)
    ensures
        times(times(whole, 1real - part), below) + times(times(whole, part), above) == times(
            whole,
            below + times(part, above - below),
        ),
{
    reading::units(whole, part);
    reading::spread_out(1real, part, whole);
    reading::spread_out(whole, times(whole, part), below);
    reading::spread_out(above, below, part);
    reading::spread_out(below, times(part, above - below), whole);
    reading::spread_out(times(part, above), times(part, below), whole);
    reading::regrouped(whole, part, above);
    reading::regrouped(whole, part, below);
}

} // verus!
