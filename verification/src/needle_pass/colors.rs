//! The color gradient of a demand: each branch of an unpolarized curve takes
//! half of it, a polarized curve all of its own.
use crate::merit::residuals;
use crate::merit::spec::MeritKey;
use crate::needle_pass::buckets;
use crate::numeric::Numeric;
use crate::reading;
use crate::reading::{times, Reading};
use crate::scalar::Scalar;
use vstd::prelude::*;

verus! {

/// How many branches a curve's gradient is spread over.
pub open spec fn branches(key: MeritKey) -> real {
    if key.curve.pol() is U {
        2real
    } else {
        1real
    }
}

/// The shares of the branches make up the gradient of the covered point, on
/// the side of the curve.
pub proof fn the_branches_make_up_the_gradient<A: Numeric>(
    num: A,
    k: Reading,
    key: MeritKey,
    angles: Seq<Scalar>,
    wavelengths: Seq<Scalar>,
    sim_wl: Seq<Scalar>,
    pts: Seq<(usize, Scalar)>,
    i: int,
)
    requires
        reading::exact(num, k),
        0 <= i < pts.len(),
        pts[i].1.finite(),
        k.holds(times(k.of(Scalar { bits: 0x3FE0_0000_0000_0000 }), k.of(pts[i].1))),
    ensures
        ({
            let terms = buckets::color_terms(num, key, angles, wavelengths, sim_wl, pts);
            &&& terms.len() == pts.len()
            &&& times(branches(key), k.of(terms[i].value)) == k.of(pts[i].1)
            &&& terms[i].reflect == (key.curve.quantity() is Reflected)
        }),
{
    let half = k.of(Scalar { bits: 0x3FE0_0000_0000_0000 });
    let g = k.of(pts[i].1);
    assert(k.holds(g));
    reading::units(g, g);
    reading::spread_out(1real, 1real, times(half, g));
    reading::units(times(half, g), 1real);
    reading::spread_out(half, half, g);
    assert(half + half == 1real);
    let terms = buckets::color_terms(num, key, angles, wavelengths, sim_wl, pts);
    assert(terms[i].value == num.product(buckets::branch_share(key.curve), pts[i].1));
    reading::units(k.of(terms[i].value), g);
}

/// A product of complex numbers, part by part; a factor of one changes
/// nothing.
pub proof fn a_complex_product_is_taken_part_by_part<A: Numeric>(
    num: A,
    k: Reading,
    x: (Scalar, Scalar),
    y: (Scalar, Scalar),
)
    requires
        reading::exact(num, k),
        x.0.finite() && x.1.finite() && y.0.finite() && y.1.finite(),
        k.holds(times(k.of(x.0), k.of(y.0))),
        k.holds(times(k.of(x.1), k.of(y.1))),
        k.holds(times(k.of(x.0), k.of(y.1))),
        k.holds(times(k.of(x.1), k.of(y.0))),
        k.holds(times(k.of(x.0), k.of(y.0)) - times(k.of(x.1), k.of(y.1))),
        k.holds(times(k.of(x.0), k.of(y.1)) + times(k.of(x.1), k.of(y.0))),
    ensures
        ({
            let z = residuals::complex_product(num, x, y);
            &&& k.is(z.0, times(k.of(x.0), k.of(y.0)) - times(k.of(x.1), k.of(y.1)))
            &&& k.is(z.1, times(k.of(x.0), k.of(y.1)) + times(k.of(x.1), k.of(y.0)))
            &&& k.of(y.0) == 1real && k.of(y.1) == 0real ==> k.of(z.0) == k.of(x.0) && k.of(z.1)
                == k.of(x.1)
        }),
{
    reading::units(k.of(x.0), k.of(y.0));
    reading::units(k.of(x.1), k.of(y.0));
    assert(k.is(num.product(x.0, y.0), times(k.of(x.0), k.of(y.0))));
    assert(k.is(num.product(x.1, y.1), times(k.of(x.1), k.of(y.1))));
    assert(k.is(num.product(x.0, y.1), times(k.of(x.0), k.of(y.1))));
    assert(k.is(num.product(x.1, y.0), times(k.of(x.1), k.of(y.0))));
}

} // verus!
