//! A quarter wave is measured where the material is known best: at a grid
//! point nearest to the reference wavelength.
use crate::inflate::{closest, closest_point, deltas_of, grown, index_at, index_fault, quarter_wave};
use crate::numeric::Numeric;
use crate::reading;
use crate::reading::Reading;
use crate::scalar;
use crate::scalar::Scalar;
use crate::structure::LayerView;
use vstd::prelude::*;

verus! {

/// The distance of grid point `i` from `x`.
pub open spec fn distance<A: Numeric>(num: A, ws: Seq<Scalar>, x: Scalar, i: int) -> Scalar {
    scalar::absolute(num.difference(ws[i], x))
}

/// No grid point is nearer to `x` than point `i`.
pub open spec fn near<A: Numeric>(num: A, ws: Seq<Scalar>, x: Scalar, i: int) -> bool {
    &&& 0 <= i < ws.len()
    &&& forall|j: int|
        0 <= j < ws.len() ==> scalar::at_most(
            distance(num, ws, x, i),
            #[trigger] distance(num, ws, x, j),
        )
}

/// Every grid point lies at a finite distance from `x`.
pub open spec fn measurable<A: Numeric>(num: A, ws: Seq<Scalar>, x: Scalar) -> bool {
    &&& ws.len() > 0
    &&& forall|j: int| 0 <= j < ws.len() ==> (#[trigger] distance(num, ws, x, j)).finite()
}

proof fn closest_so_far<A: Numeric>(num: A, ws: Seq<Scalar>, x: Scalar, n: int)
    requires
        measurable(num, ws, x),
        0 < n <= ws.len(),
    ensures
        0 <= closest(num, ws, x, n).0 < n,
        closest(num, ws, x, n).1 == distance(num, ws, x, closest(num, ws, x, n).0),
        forall|j: int|
            0 <= j < n ==> scalar::at_most(
                closest(num, ws, x, n).1,
                #[trigger] distance(num, ws, x, j),
            ),
    decreases n,
{
    assert(distance(num, ws, x, n - 1).finite());
    if n > 1 {
        closest_so_far(num, ws, x, n - 1);
        assert(distance(num, ws, x, closest(num, ws, x, n - 1).0).finite());
    }
}

/// The index is that of a nearest grid point.
pub proof fn the_index_is_read_at_a_nearest_point<A: Numeric>(
    num: A,
    nk: Seq<(Scalar, Scalar)>,
    ws: Seq<Scalar>,
    x: Scalar,
)
    requires
        measurable(num, ws, x),
    ensures
        exists|i: int| #[trigger] near(num, ws, x, i) && index_at(num, nk, ws, x) == nk[i].0,
{
    closest_so_far(num, ws, x, ws.len() as int);
    assert(near(num, ws, x, closest_point(num, ws, x)));
}

/// A quarter wave is the reference wavelength over four times the index of a
/// nearest grid point: four of them, through the index, are the wavelength.
pub proof fn four_quarters_make_a_wave<A: Numeric>(
    num: A,
    k: Reading,
    nk: Seq<(Scalar, Scalar)>,
    ws: Seq<Scalar>,
    x: Scalar,
)
    requires
        reading::faithful(num, k),
        measurable(num, ws, x),
        x.finite(),
        forall|i: int| #[trigger]
            near(num, ws, x, i) ==> {
                &&& nk[i].0.finite()
                &&& k.of(nk[i].0) > 0real
                &&& k.holds(4real * k.of(nk[i].0))
                &&& k.holds(k.of(x) / (4real * k.of(nk[i].0)))
            },
    ensures
        exists|i: int| #[trigger]
            near(num, ws, x, i) && k.of(quarter_wave(num, nk, ws, x)) * (4real * k.of(nk[i].0))
                == k.of(x),
{
    the_index_is_read_at_a_nearest_point(num, nk, ws, x);
    let i = choose|i: int| #[trigger]
        near(num, ws, x, i) && index_at(num, nk, ws, x) == nk[i].0;
    assert(near(num, ws, x, i));
    let four = Scalar { bits: 0x4010_0000_0000_0000 };
    let optical = 4real * k.of(nk[i].0);
    assert(k.is(num.product(four, nk[i].0), optical));
    reading::over_and_back(k.of(x), optical);
}

/// Only the nearest grid points count: two materials that agree there have the
/// same quarter wave, and are refused alike.
pub proof fn materials_that_agree_nearby_measure_alike<A: Numeric>(
    num: A,
    a: Seq<(Scalar, Scalar)>,
    b: Seq<(Scalar, Scalar)>,
    ws: Seq<Scalar>,
    x: Scalar,
)
    requires
        measurable(num, ws, x),
        forall|i: int| #[trigger] near(num, ws, x, i) ==> a[i].0 == b[i].0,
    ensures
        quarter_wave(num, a, ws, x) == quarter_wave(num, b, ws, x),
        index_fault(num, a, ws, x) == index_fault(num, b, ws, x),
{
    closest_so_far(num, ws, x, ws.len() as int);
    assert(near(num, ws, x, closest_point(num, ws, x)));
}

/// An index is refused exactly where the nearest grid point has none that is
/// positive, and the refusal names a nearest wavelength.
pub proof fn a_refused_index_is_not_positive<A: Numeric>(
    num: A,
    nk: Seq<(Scalar, Scalar)>,
    ws: Seq<Scalar>,
    x: Scalar,
)
    requires
        measurable(num, ws, x),
    ensures
        match index_fault(num, nk, ws, x) {
            Some((n, w)) => scalar::at_most(n, Scalar { bits: 0 }) && exists|i: int|
                #[trigger] near(num, ws, x, i) && nk[i].0 == n && ws[i] == w,
            None => exists|i: int| #[trigger]
                near(num, ws, x, i) && !scalar::at_most(nk[i].0, Scalar { bits: 0 }),
        },
{
    closest_so_far(num, ws, x, ws.len() as int);
    assert(near(num, ws, x, closest_point(num, ws, x)));
}

/// A film grows by the asked number of its quarter waves, and not below zero.
pub proof fn a_film_grows_by_quarter_waves<A: Numeric>(
    num: A,
    k: Reading,
    rows: Seq<LayerView>,
    ws: Seq<Scalar>,
    addon: Scalar,
    x: Scalar,
    i: int,
)
    requires
        reading::faithful(num, k),
        0 <= i < rows.len(),
        rows[i].d_nm.finite(),
        addon.finite(),
        ({
            let q = quarter_wave(num, rows[i].nk, ws, x);
            &&& q.finite()
            &&& k.holds(k.of(addon) * k.of(q))
            &&& k.holds(k.of(rows[i].d_nm) + k.of(addon) * k.of(q))
        }),
    ensures
        ({
            let q = quarter_wave(num, rows[i].nk, ws, x);
            let thick = k.of(rows[i].d_nm) + k.of(addon) * k.of(q);
            let r = grown(num, rows[i].d_nm, deltas_of(num, rows, ws, addon, x)[i]);
            k.of(r) == (if thick < 0real {
                0real
            } else {
                thick
            })
        }),
{
    let q = quarter_wave(num, rows[i].nk, ws, x);
    let zero = Scalar { bits: 0 };
    let delta = num.product(addon, q);
    assert(k.is(delta, k.of(addon) * k.of(q)));
    let sum = num.sum(rows[i].d_nm, delta);
    assert(k.is(sum, k.of(rows[i].d_nm) + k.of(addon) * k.of(q)));
    reading::order_reads(k, sum, zero);
}

} // verus!
