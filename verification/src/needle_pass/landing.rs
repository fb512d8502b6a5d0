//! Where the terms of a demand land: on the solver point nearest to the
//! demand's own.
use crate::merit::sim::SimCurves;
use crate::merit::spec::{MeritKey, MeritTarget};
use crate::nearest;
use crate::needle_pass::buckets;
use crate::needle_pass::fold;
use crate::needle_pass::fold::{Bucket, Place};
use crate::numeric::Numeric;
use crate::optics::Optics;
use crate::scalar::Scalar;
use vstd::prelude::*;

verus! {

/// The nearest entry is the only one.
proof fn nearest_is<A: Numeric>(num: A, xs: Seq<Scalar>, x: Scalar, at: int)
    requires
        nearest::nearest(num, xs, x, at),
    ensures
        nearest::nearest_to(num, xs, x) == at,
{
    let r = nearest::nearest_to(num, xs, x);
    assert(nearest::nearest(num, xs, x, r));
    nearest::first_least_is_unique(nearest::distances(num, xs, x), r, at);
}

/// A term lands in its place's row, on the solver wavelength nearest to its
/// own, and carries the pair unchanged.
pub proof fn a_term_lands_on_the_nearest_point<A: Numeric, O: Optics>(
    num: A,
    ph: O,
    sim: Option<&SimCurves>,
    key: MeritKey,
    t: MeritTarget,
    place: Place,
    i: int,
    pair: (Scalar, Scalar),
    s: Scalar,
    at: int,
)
    requires
        nearest::nearest(num, place.wavelengths, t.wavelengths@[i], at),
        0 <= place.row * place.wavelengths.len() + at <= usize::MAX,
    ensures
        ({
            let e = fold::emission_of(num, ph, sim, key, t, place, i, pair, s);
            &&& e.k == place.row * place.wavelengths.len() + at
            &&& e.bucket == place.bucket
            &&& e.target == pair.0 && e.weight == pair.1
            &&& e.shift is Some <==> place.bucket is Phi && t.differential_passes is Some
                && place.op_row is Some
        }),
{
    nearest_is(num, place.wavelengths, t.wavelengths@[i], at);
}

/// A target's row is that of the solver angle nearest to its own, and it is
/// read at the simulated angle nearest to that.
pub proof fn a_target_is_placed_at_the_nearest_angle<A: Numeric>(
    num: A,
    key: MeritKey,
    t: MeritTarget,
    bucket: Bucket,
    angles: Seq<Scalar>,
    wavelengths: Seq<Scalar>,
    sim: Option<&SimCurves>,
    row: int,
    read: int,
)
    requires
        nearest::nearest(num, angles, key.angle, row),
        fold::op_readable(sim, key.curve, t.phase) ==> nearest::nearest(
            num,
            sim->0.angles@,
            key.angle,
            read,
        ) && 0 <= read <= usize::MAX,
    ensures
        ({
            let p = fold::place_of(num, key, t, bucket, angles, wavelengths, sim);
            &&& p.row == row
            &&& p.bucket == bucket
            &&& p.wavelengths == wavelengths
            &&& p.op_row == (if fold::op_readable(sim, key.curve, t.phase) {
                Some(read as usize)
            } else {
                None
            })
        }),
{
    nearest_is(num, angles, key.angle, row);
    if fold::op_readable(sim, key.curve, t.phase) {
        nearest_is(num, sim->0.angles@, key.angle, read);
    }
}

/// A color term lands like any other: in the row of the nearest angle, on the
/// nearest wavelength.
pub proof fn a_color_term_lands_on_the_nearest_point<A: Numeric>(
    num: A,
    key: MeritKey,
    angles: Seq<Scalar>,
    wavelengths: Seq<Scalar>,
    sim_wl: Seq<Scalar>,
    pts: Seq<(usize, Scalar)>,
    i: int,
    row: int,
    at: int,
)
    requires
        0 <= i < pts.len(),
        nearest::nearest(num, angles, key.angle, row),
        nearest::nearest(num, wavelengths, sim_wl[pts[i].0 as int], at),
        0 <= row * wavelengths.len() + at <= usize::MAX,
    ensures
        buckets::color_terms(num, key, angles, wavelengths, sim_wl, pts)[i].k == row
            * wavelengths.len() + at,
{
    nearest_is(num, angles, key.angle, row);
    nearest_is(num, wavelengths, sim_wl[pts[i].0 as int], at);
}

} // verus!
