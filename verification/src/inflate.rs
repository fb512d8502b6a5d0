//! Thickness in quarter waves: inflating the most telling films, and rounding.
use crate::numeric;
use crate::numeric::{sum_all, Numeric};
use crate::scalar;
use crate::scalar::Scalar;
use crate::sorting;
use crate::sorting::sort_positions;
use crate::structure;
use crate::structure::refusal::StackError;
use crate::structure::{row_thicknesses, DesignStack, LayerSpec, LayerView};
use crate::text;
use vstd::prelude::*;
use vstd::string::*;

pub mod chosen;
pub mod halves;
pub mod quarter;

verus! {

/// 4.
pub const FOUR_BITS: u64 = 0x4010_0000_0000_0000;

/// 2.
pub const TWO_BITS: u64 = 0x4000_0000_0000_0000;

/// 0.5.
pub const HALF_BITS: u64 = 0x3FE0_0000_0000_0000;

/// Why films were not inflated or rounded.
#[derive(Debug)]
pub enum InflateFault {
    /// A film's index is not positive where its quarter wave is measured.
    Index { n: Scalar, wl: Scalar },
    /// The rounding step is not positive.
    Resolution { resolution: Scalar },
    /// Evaluating or optimizing the stack failed.
    Failed { reason: String },
}

/// The message of a fault.
pub open spec fn inflate_text<S: Fn(Scalar) -> String>(f: InflateFault, show: S) -> Seq<char> {
    match f {
        InflateFault::Index { n, wl } => "material has non-positive n="@ + text::shown(show, n)
            + " at \u{3bb}="@ + text::shown(show, wl) + " nm"@,
        InflateFault::Resolution { resolution } => "resolution must be positive, got "@
            + text::shown(show, resolution),
        InflateFault::Failed { reason } => reason@,
    }
}

impl InflateFault {
    /// The message, numbers shown by `show`.
    pub fn message<S: Fn(Scalar) -> String>(&self, show: &S) -> (r: String)
        requires
            text::shows(*show),
        ensures
            r@ == inflate_text(*self, *show),
    {
        match self {
            InflateFault::Index { n, wl } => {
                let a: String = show(*n);
                let b: String = show(*wl);
                String::from_str("material has non-positive n=").concat(a.as_str()).concat(
                    " at \u{3bb}=",
                ).concat(b.as_str()).concat(" nm")
            },
            InflateFault::Resolution { resolution } => {
                let a: String = show(*resolution);
                String::from_str("resolution must be positive, got ").concat(a.as_str())
            },
            InflateFault::Failed { reason } => reason.clone(),
        }
    }
}

// ---------------------------------------------------------------------------
// Quarter waves
// ---------------------------------------------------------------------------
/// The first of the first `n` grid points that is nearest to `x`, and its
/// distance; the first point at an infinite distance if none is any nearer.
pub open spec fn closest<A: Numeric>(num: A, ws: Seq<Scalar>, x: Scalar, n: int) -> (int, Scalar)
    decreases n,
{
    if n <= 0 {
        (0, Scalar::infinity())
    } else {
        let before = closest(num, ws, x, n - 1);
        let d = scalar::absolute(num.difference(ws[n - 1], x));
        if scalar::less(d, before.1) {
            (n - 1, d)
        } else {
            before
        }
    }
}

/// The grid point nearest to `x`.
pub open spec fn closest_point<A: Numeric>(num: A, ws: Seq<Scalar>, x: Scalar) -> int {
    closest(num, ws, x, ws.len() as int).0
}

/// The index at the grid point nearest to `x`.
pub open spec fn index_at<A: Numeric>(
    num: A,
    nk: Seq<(Scalar, Scalar)>,
    ws: Seq<Scalar>,
    x: Scalar,
) -> Scalar {
    nk[closest_point(num, ws, x)].0
}

/// The index can be read off, and named if it is refused.
pub open spec fn readable<A: Numeric>(
    num: A,
    nk: Seq<(Scalar, Scalar)>,
    ws: Seq<Scalar>,
    x: Scalar,
) -> bool {
    &&& closest_point(num, ws, x) < nk.len()
    &&& ws.len() > 0 || !scalar::at_most(nk[0].0, Scalar::zero())
}

/// What is wrong with a material's index.
pub open spec fn index_fault<A: Numeric>(
    num: A,
    nk: Seq<(Scalar, Scalar)>,
    ws: Seq<Scalar>,
    x: Scalar,
) -> Option<(Scalar, Scalar)> {
    let n = index_at(num, nk, ws, x);
    if scalar::at_most(n, Scalar::zero()) {
        Some((n, ws[closest_point(num, ws, x)]))
    } else {
        None
    }
}

/// One quarter wave: `x / (4 n)`.
pub open spec fn quarter_wave<A: Numeric>(
    num: A,
    nk: Seq<(Scalar, Scalar)>,
    ws: Seq<Scalar>,
    x: Scalar,
) -> Scalar {
    num.quotient(x, num.product((Scalar { bits: FOUR_BITS }), index_at(num, nk, ws, x)))
}

/// The nearest point lies on the grid.
pub proof fn closest_is_on_the_grid<A: Numeric>(num: A, ws: Seq<Scalar>, x: Scalar, n: int)
    requires
        0 <= n <= ws.len(),
    ensures
        0 <= closest(num, ws, x, n).0,
        n > 0 ==> closest(num, ws, x, n).0 < n,
        n == 0 ==> closest(num, ws, x, n).0 == 0,
    decreases n,
{
    if n > 0 {
        closest_is_on_the_grid(num, ws, x, n - 1);
    }
}

/// No grid point is nearer than the nearest.
pub proof fn closest_is_nearest<A: Numeric>(num: A, ws: Seq<Scalar>, x: Scalar, n: int, i: int)
    requires
        0 <= i < n <= ws.len(),
    ensures
        !scalar::less(
            scalar::absolute(num.difference(ws[i], x)),
            closest(num, ws, x, n).1,
        ),
    decreases n,
{
    if i < n - 1 {
        closest_is_nearest(num, ws, x, n - 1, i);
    }
}

/// The grid point nearest to `x`; the first place of an empty grid.
pub fn nearest_point<A: Numeric>(num: &A, wavls: &Vec<Scalar>, x: Scalar) -> (r: usize)
    requires
        num.sound(),
    ensures
        r == closest_point(*num, wavls@, x),
{
    let mut best: usize = 0;
    let mut distance: Scalar = Scalar::infinity();
    let mut i: usize = 0;
    while i < wavls.len()
        invariant
            num.sound(),
            i <= wavls@.len(),
            (best as int, distance) == closest(*num, wavls@, x, i as int),
        decreases wavls.len() - i,
    {
        let d: Scalar = num.minus(wavls[i], x).abs();
        if d.lt(distance) {
            distance = d;
            best = i;
        }
        i += 1;
    }
    best
}

/// One quarter wave (nm) of a material at a reference wavelength, with the
/// index at the nearest grid point.
pub fn qwot_nm<A: Numeric>(
    num: &A,
    layer_nk: &Vec<(Scalar, Scalar)>,
    wavls: &Vec<Scalar>,
    reference_wl: Scalar,
) -> (r: Result<Scalar, InflateFault>)
    requires
        num.sound(),
        readable(*num, layer_nk@, wavls@, reference_wl),
    ensures
        match r {
            Ok(q) => {
                &&& index_fault(*num, layer_nk@, wavls@, reference_wl) is None
                &&& q == quarter_wave(*num, layer_nk@, wavls@, reference_wl)
            },
            Err(InflateFault::Index { n, wl }) => index_fault(
                *num,
                layer_nk@,
                wavls@,
                reference_wl,
            ) == Some((n, wl)),
            Err(_) => false,
        },
{
    let best: usize = nearest_point(num, wavls, reference_wl);
    proof {
        closest_is_on_the_grid(*num, wavls@, reference_wl, wavls@.len() as int);
    }
    let n: Scalar = layer_nk[best].0;
    if n.le(Scalar::zero()) {
        return Err(InflateFault::Index { n, wl: wavls[best] });
    }
    Ok(num.over(reference_wl, num.times(Scalar { bits: FOUR_BITS }, n)))
}

/// A thickness in quarter waves.
pub fn thickness_to_qwot<A: Numeric>(num: &A, thickness_nm: Scalar, qwot_nm: Scalar) -> (r: Scalar)
    requires
        num.sound(),
    ensures
        r == num.quotient(thickness_nm, qwot_nm),
{
    num.over(thickness_nm, qwot_nm)
}

/// The thickness of a number of quarter waves.
pub fn qwot_to_thickness<A: Numeric>(num: &A, qwot: Scalar, qwot_nm: Scalar) -> (r: Scalar)
    requires
        num.sound(),
    ensures
        r == num.product(qwot, qwot_nm),
{
    num.times(qwot, qwot_nm)
}

// ---------------------------------------------------------------------------
// Rounding
// ---------------------------------------------------------------------------
/// Half-to-even rounding made of rounding away from zero (`round`), cutting
/// off (`trunc`) and the remainder (`rem`): an exact half whose neighbour away
/// from zero is odd goes the other way.
pub open spec fn half_even<
    A: Numeric,
    R: Fn(Scalar) -> Scalar,
    T: Fn(Scalar) -> Scalar,
    M: Fn(Scalar, Scalar) -> Scalar,
>(num: A, round: R, trunc: T, rem: M, x: Scalar) -> Scalar {
    let away = numeric::image_of(round, x);
    let part = scalar::absolute(num.difference(x, numeric::image_of(trunc, x)));
    if scalar::same(part, (Scalar { bits: HALF_BITS })) && !scalar::same(
        numeric::result_of(rem, away, (Scalar { bits: TWO_BITS })),
        Scalar::zero(),
    ) {
        num.difference(away, scalar::signed_as(Scalar::one(), x))
    } else {
        away
    }
}

/// Rounds half to even.
pub fn round_half_even<
    A: Numeric,
    R: Fn(Scalar) -> Scalar,
    T: Fn(Scalar) -> Scalar,
    M: Fn(Scalar, Scalar) -> Scalar,
>(num: &A, round: &R, trunc: &T, rem: &M, x: Scalar) -> (r: Scalar)
    requires
        num.sound(),
        numeric::settled_image(*round),
        numeric::settled_image(*trunc),
        numeric::settled(*rem),
    ensures
        r == half_even(*num, *round, *trunc, *rem, x),
{
    let away: Scalar = round(x);
    let cut: Scalar = trunc(x);
    if num.minus(x, cut).abs().same_value(Scalar { bits: HALF_BITS }) {
        let odd: Scalar = rem(away, Scalar { bits: TWO_BITS });
        if !odd.same_value(Scalar::zero()) {
            return num.minus(away, Scalar::one().copysign(x));
        }
    }
    away
}

// ---------------------------------------------------------------------------
// Inflation
// ---------------------------------------------------------------------------
/// What an inflation did.
#[derive(Clone, Copy, Debug)]
pub struct InflateResult {
    pub merit_before: Scalar,
    pub merit_after: Scalar,
    pub total_thickness_before: Scalar,
    pub total_thickness_after: Scalar,
    pub layer_count: usize,
    pub addon_qwot: Scalar,
    pub reference_wavelength: Scalar,
}

/// The total thickness of rows.
pub open spec fn total_of<A: Numeric>(num: A, rows: Seq<LayerView>) -> Scalar {
    numeric::sum_of(num, structure::thicknesses(rows), rows.len() as int)
}

/// The total thickness of the films, added from the first.
pub fn total_thickness<A: Numeric>(num: &A, stack: &DesignStack) -> (r: Scalar)
    requires
        num.sound(),
    ensures
        r == total_of(*num, stack.rows()),
{
    let films: &Vec<LayerSpec> = stack.films();
    let n: usize = films.len();
    let ds: Vec<Scalar> = row_thicknesses(films, 0, n);
    assert(stack.rows().subrange(0, n as int) =~= stack.rows());
    sum_all(num, &ds)
}

/// `s` is `base` with other film rows.
pub open spec fn with_rows(s: DesignStack, base: DesignStack, rows: Seq<LayerView>) -> bool {
    &&& s.wf()
    &&& s.same_frame(&base)
    &&& s.span_seq() == base.span_seq()
    &&& s.rows() == rows
}

/// The stack `base` with these rows was evaluated, with this answer.
pub open spec fn evaluated<E: Fn(&DesignStack) -> Result<Scalar, String>>(
    evaluate: E,
    base: DesignStack,
    rows: Seq<LayerView>,
    answer: Result<Scalar, String>,
) -> bool {
    exists|s: DesignStack| #[trigger]
        call_ensures(evaluate, (&s,), answer) && with_rows(s, base, rows)
}

/// The stack `base` with these rows was optimized, with this outcome.
pub open spec fn optimized<O: Fn(DesignStack) -> (DesignStack, Result<Scalar, String>)>(
    optimize: O,
    base: DesignStack,
    rows: Seq<LayerView>,
    out: (DesignStack, Result<Scalar, String>),
) -> bool {
    exists|s: DesignStack| #[trigger]
        call_ensures(optimize, (s,), out) && with_rows(s, base, rows)
}

/// The functions take every valid stack, and optimizing returns a valid one.
pub open spec fn usable<
    E: Fn(&DesignStack) -> Result<Scalar, String>,
    O: Fn(DesignStack) -> (DesignStack, Result<Scalar, String>),
>(evaluate: E, optimize: O) -> bool {
    &&& forall|s: DesignStack| s.wf() ==> #[trigger] call_requires(evaluate, (&s,))
    &&& forall|s: DesignStack| s.wf() ==> #[trigger] call_requires(optimize, (s,))
    &&& forall|s: DesignStack, out: (DesignStack, Result<Scalar, String>)|
        s.wf() && #[trigger] call_ensures(optimize, (s,), out) ==> out.0.wf()
}

/// Every film's index can be read off.
pub open spec fn all_readable<A: Numeric>(
    num: A,
    rows: Seq<LayerView>,
    ws: Seq<Scalar>,
    x: Scalar,
) -> bool {
    forall|i: int| 0 <= i < rows.len() ==> readable(num, (#[trigger] rows[i]).nk, ws, x)
}

/// Whether every film's index can be read off.
pub fn films_readable<A: Numeric>(
    num: &A,
    stack: &DesignStack,
    wavls: &Vec<Scalar>,
    reference_wl: Scalar,
) -> (r: bool)
    requires
        num.sound(),
    ensures
        r == all_readable(*num, stack.rows(), wavls@, reference_wl),
{
    let films: &Vec<LayerSpec> = stack.films();
    let at: usize = nearest_point(num, wavls, reference_wl);
    proof {
        closest_is_on_the_grid(*num, wavls@, reference_wl, wavls@.len() as int);
    }
    let mut i: usize = 0;
    while i < films.len()
        invariant
            structure::layer_views(films@) == stack.rows(),
            at == closest_point(*num, wavls@, reference_wl),
            wavls@.len() == 0 ==> at == 0,
            i <= films@.len(),
            forall|k: int|
                0 <= k < i ==> readable(
                    *num,
                    (#[trigger] stack.rows()[k]).nk,
                    wavls@,
                    reference_wl,
                ),
        decreases films.len() - i,
    {
        let nk: &Vec<(Scalar, Scalar)> = &films[i].nk;
        assert(stack.rows()[i as int] == films@[i as int]@);
        if at >= nk.len() || (wavls.len() == 0 && nk[0].0.le(Scalar::zero())) {
            assert(!readable(*num, stack.rows()[i as int].nk, wavls@, reference_wl));
            return false;
        }
        i += 1;
    }
    true
}

/// The first film from `i` on whose index is not positive.
pub open spec fn first_index_fault<A: Numeric>(
    num: A,
    rows: Seq<LayerView>,
    ws: Seq<Scalar>,
    x: Scalar,
    i: int,
) -> Option<(Scalar, Scalar)>
    decreases rows.len() - i,
{
    if i >= rows.len() {
        None
    } else if index_fault(num, rows[i].nk, ws, x) is Some {
        index_fault(num, rows[i].nk, ws, x)
    } else {
        first_index_fault(num, rows, ws, x, i + 1)
    }
}

/// What each film is inflated by.
pub open spec fn deltas_of<A: Numeric>(
    num: A,
    rows: Seq<LayerView>,
    ws: Seq<Scalar>,
    addon: Scalar,
    x: Scalar,
) -> Seq<Scalar> {
    Seq::new(rows.len(), |i: int| num.product(addon, quarter_wave(num, rows[i].nk, ws, x)))
}

/// A thickness with its increment, not below zero.
pub open spec fn grown<A: Numeric>(num: A, d: Scalar, delta: Scalar) -> Scalar {
    scalar::greater(num.sum(d, delta), Scalar::zero())
}

/// One film inflated.
pub open spec fn inflated_at<A: Numeric>(
    num: A,
    rows: Seq<LayerView>,
    deltas: Seq<Scalar>,
    i: int,
) -> Seq<LayerView> {
    rows.update(i, rows[i].at(grown(num, rows[i].d_nm, deltas[i])))
}

/// The first `n` chosen films inflated.
pub open spec fn inflated<A: Numeric>(
    num: A,
    rows: Seq<LayerView>,
    deltas: Seq<Scalar>,
    chosen: Seq<usize>,
    n: int,
) -> Seq<LayerView>
    decreases n,
{
    if n <= 0 {
        rows
    } else {
        inflated_at(num, inflated(num, rows, deltas, chosen, n - 1), deltas, chosen[n - 1] as int)
    }
}

/// Only some of the films are to be inflated.
pub open spec fn selective(max_layers: Option<usize>, n: nat) -> bool {
    max_layers matches Some(m) && m < n
}

/// The films to inflate: those whose trial has the lowest merit, ties in film
/// order, or all of them.
pub open spec fn chosen_films(scores: Seq<Scalar>, max_layers: Option<usize>, n: nat) -> Seq<usize> {
    if selective(max_layers, n) {
        sorting::order_of(scores).take(max_layers->0 as int)
    } else {
        Seq::new(n, |i: int| i as usize)
    }
}

/// Every film was tried on its own, and these are the merits.
pub open spec fn tried<A: Numeric, E: Fn(&DesignStack) -> Result<Scalar, String>>(
    num: A,
    evaluate: E,
    base: DesignStack,
    deltas: Seq<Scalar>,
    scores: Seq<Scalar>,
) -> bool {
    forall|i: int|
        0 <= i < scores.len() ==> evaluated(
            evaluate,
            base,
            inflated_at(num, base.rows(), deltas, i),
            Ok(#[trigger] scores[i]),
        )
}

/// Trying the films one by one failed with this reason, after those before had
/// these merits.
pub open spec fn trial_fails<A: Numeric, E: Fn(&DesignStack) -> Result<Scalar, String>>(
    num: A,
    evaluate: E,
    base: DesignStack,
    deltas: Seq<Scalar>,
    scores: Seq<Scalar>,
    reason: String,
) -> bool {
    &&& scores.len() < base.rows().len()
    &&& tried(num, evaluate, base, deltas, scores)
    &&& evaluated(
        evaluate,
        base,
        inflated_at(num, base.rows(), deltas, scores.len() as int),
        Err(reason),
    )
}

/// Some trial failed with this reason.
pub open spec fn trials_fail<A: Numeric, E: Fn(&DesignStack) -> Result<Scalar, String>>(
    num: A,
    evaluate: E,
    base: DesignStack,
    deltas: Seq<Scalar>,
    reason: String,
) -> bool {
    exists|scores: Seq<Scalar>| #[trigger]
        trial_fails(num, evaluate, base, deltas, scores, reason)
}

/// How an inflation ends, given the trial merits: the chosen films are
/// inflated, and the last evaluation or optimization gives this answer.
pub open spec fn inflates<
    A: Numeric,
    E: Fn(&DesignStack) -> Result<Scalar, String>,
    O: Fn(DesignStack) -> (DesignStack, Result<Scalar, String>),
>(
    num: A,
    evaluate: E,
    optimize: O,
    before: DesignStack,
    after: DesignStack,
    deltas: Seq<Scalar>,
    max_layers: Option<usize>,
    reoptimize: bool,
    scores: Seq<Scalar>,
    answer: Result<Scalar, String>,
) -> bool {
    let n = before.rows().len();
    let chosen = chosen_films(scores, max_layers, n);
    let rows = inflated(num, before.rows(), deltas, chosen, chosen.len() as int);
    &&& selective(max_layers, n) ==> scores.len() == n
    &&& selective(max_layers, n) ==> tried(num, evaluate, before, deltas, scores)
    &&& if reoptimize && n > 0 {
        optimized(optimize, before, rows, (after, answer))
    } else {
        &&& with_rows(after, before, rows)
        &&& evaluated(evaluate, before, rows, answer)
    }
}

/// How an inflation ends for some trial merits.
pub open spec fn inflation<
    A: Numeric,
    E: Fn(&DesignStack) -> Result<Scalar, String>,
    O: Fn(DesignStack) -> (DesignStack, Result<Scalar, String>),
>(
    num: A,
    evaluate: E,
    optimize: O,
    before: DesignStack,
    after: DesignStack,
    deltas: Seq<Scalar>,
    max_layers: Option<usize>,
    reoptimize: bool,
    answer: Result<Scalar, String>,
) -> bool {
    exists|scores: Seq<Scalar>| #[trigger]
        inflates(
            num,
            evaluate,
            optimize,
            before,
            after,
            deltas,
            max_layers,
            reoptimize,
            scores,
            answer,
        )
}

/// Works out the increments of all films.
pub fn inflation_deltas<A: Numeric>(
    num: &A,
    stack: &DesignStack,
    wavls: &Vec<Scalar>,
    addon_qwot: Scalar,
    reference_wl: Scalar,
) -> (r: Result<Vec<Scalar>, InflateFault>)
    requires
        num.sound(),
        all_readable(*num, stack.rows(), wavls@, reference_wl),
    ensures
        match r {
            Ok(d) => {
                &&& first_index_fault(*num, stack.rows(), wavls@, reference_wl, 0) is None
                &&& d@ == deltas_of(*num, stack.rows(), wavls@, addon_qwot, reference_wl)
            },
            Err(InflateFault::Index { n, wl }) => first_index_fault(
                *num,
                stack.rows(),
                wavls@,
                reference_wl,
                0,
            ) == Some((n, wl)),
            Err(_) => false,
        },
{
    let ghost rows = stack.rows();
    let ghost goal = deltas_of(*num, rows, wavls@, addon_qwot, reference_wl);
    let films: &Vec<LayerSpec> = stack.films();
    let mut out: Vec<Scalar> = Vec::with_capacity(films.len());
    let mut i: usize = 0;
    while i < films.len()
        invariant
            num.sound(),
            rows == stack.rows(),
            structure::layer_views(films@) == rows,
            all_readable(*num, rows, wavls@, reference_wl),
            goal == deltas_of(*num, rows, wavls@, addon_qwot, reference_wl),
            i <= films@.len(),
            out@ == goal.take(i as int),
            first_index_fault(*num, rows, wavls@, reference_wl, i as int) == first_index_fault(
                *num,
                rows,
                wavls@,
                reference_wl,
                0,
            ),
        decreases films.len() - i,
    {
        assert(rows[i as int] == films@[i as int]@);
        match qwot_nm(num, &films[i].nk, wavls, reference_wl) {
            Ok(q) => {
                out.push(num.times(addon_qwot, q));
            },
            Err(e) => {
                return Err(e);
            },
        }
        i += 1;
        assert(out@ =~= goal.take(i as int));
    }
    assert(out@ =~= goal);
    Ok(out)
}

/// Inflates one film of a stack.
fn grow_film<A: Numeric>(num: &A, stack: &mut DesignStack, deltas: &Vec<Scalar>, i: usize)
    requires
        num.sound(),
        old(stack).wf(),
        i < old(stack).rows().len(),
        deltas@.len() == old(stack).rows().len(),
    ensures
        with_rows(
            *final(stack),
            *old(stack),
            inflated_at(*num, old(stack).rows(), deltas@, i as int),
        ),
{
    let d: Scalar = match stack.film(i) {
        Some(f) => f.d_nm,
        None => Scalar::zero(),
    };
    let ghost rows = stack.rows();
    assert(d == rows[i as int].d_nm);
    let _r: Result<(), StackError> = stack.set_thickness(
        i,
        num.plus(d, deltas[i]).max(Scalar::zero()),
    );
}

/// Tries every film on its own and returns the merits.
fn try_films<A: Numeric, E: Fn(&DesignStack) -> Result<Scalar, String>>(
    num: &A,
    stack: &DesignStack,
    deltas: &Vec<Scalar>,
    evaluate: &E,
) -> (r: Result<Vec<Scalar>, String>)
    requires
        num.sound(),
        stack.wf(),
        deltas@.len() == stack.rows().len(),
        forall|s: DesignStack| s.wf() ==> #[trigger] call_requires(*evaluate, (&s,)),
    ensures
        match r {
            Ok(v) => {
                &&& v@.len() == stack.rows().len()
                &&& tried(*num, *evaluate, *stack, deltas@, v@)
            },
            Err(reason) => trials_fail(*num, *evaluate, *stack, deltas@, reason),
        },
{
    let n: usize = stack.films().len();
    assert(n == stack.rows().len());
    let mut scores: Vec<Scalar> = Vec::with_capacity(n);
    let mut i: usize = 0;
    while i < n
        invariant
            num.sound(),
            stack.wf(),
            n == stack.rows().len(),
            deltas@.len() == n,
            forall|s: DesignStack| s.wf() ==> #[trigger] call_requires(*evaluate, (&s,)),
            i <= n,
            scores@.len() == i,
            tried(*num, *evaluate, *stack, deltas@, scores@),
        decreases n - i,
    {
        let mut trial: DesignStack = stack.cloned();
        grow_film(num, &mut trial, deltas, i);
        let ghost rows = inflated_at(*num, stack.rows(), deltas@, i as int);
        assert(with_rows(trial, *stack, rows));
        let answer: Result<Scalar, String> = evaluate(&trial);
        assert(evaluated(*evaluate, *stack, rows, answer));
        match answer {
            Ok(mf) => {
                scores.push(mf);
            },
            Err(reason) => {
                assert(trial_fails(*num, *evaluate, *stack, deltas@, scores@, reason));
                return Err(reason);
            },
        }
        i += 1;
    }
    Ok(scores)
}

/// Which films to inflate, given the trial merits.
pub fn choose_films(scores: &Vec<Scalar>, max_layers: Option<usize>, n: usize) -> (r: Vec<usize>)
    requires
        selective(max_layers, n as nat) ==> scores@.len() == n,
    ensures
        r@ == chosen_films(scores@, max_layers, n as nat),
        forall|k: int| 0 <= k < r@.len() ==> (#[trigger] r@[k]) < n,
{
    let mut out: Vec<usize> = Vec::new();
    let mut i: usize = 0;
    if let Some(m) = max_layers {
        if m < n {
            let order: Vec<usize> = sort_positions(scores);
            while i < m
                invariant
                    order@ == sorting::order_of(scores@),
                    order@.len() == n,
                    forall|k: int| 0 <= k < order@.len() ==> (#[trigger] order@[k]) < n,
                    m < n,
                    i <= m,
                    out@ == order@.take(i as int),
                decreases m - i,
            {
                out.push(order[i]);
                i += 1;
                assert(out@ =~= order@.take(i as int));
            }
            return out;
        }
    }
    let ghost goal = Seq::new(n as nat, |i: int| i as usize);
    while i < n
        invariant
            goal == Seq::new(n as nat, |i: int| i as usize),
            i <= n,
            out@ == goal.take(i as int),
        decreases n - i,
    {
        out.push(i);
        i += 1;
        assert(out@ =~= goal.take(i as int));
    }
    assert(out@ =~= goal);
    out
}

/// Optimizes or evaluates a stack.
fn finish<
    E: Fn(&DesignStack) -> Result<Scalar, String>,
    O: Fn(DesignStack) -> (DesignStack, Result<Scalar, String>),
>(stack: &mut DesignStack, reoptimize: bool, evaluate: &E, optimize: &O) -> (r: Result<
    Scalar,
    String,
>)
    requires
        old(stack).wf(),
        usable(*evaluate, *optimize),
    ensures
        final(stack).wf(),
        if reoptimize && old(stack).rows().len() > 0 {
            optimized(*optimize, *old(stack), old(stack).rows(), (*final(stack), r))
        } else {
            &&& with_rows(*final(stack), *old(stack), old(stack).rows())
            &&& evaluated(*evaluate, *old(stack), old(stack).rows(), r)
        },
{
    if reoptimize && stack.films().len() > 0 {
        let copy: DesignStack = stack.cloned();
        assert(with_rows(copy, *old(stack), old(stack).rows()));
        let out: (DesignStack, Result<Scalar, String>) = optimize(copy);
        assert(optimized(*optimize, *old(stack), old(stack).rows(), out));
        *stack = out.0;
        out.1
    } else {
        let r: Result<Scalar, String> = evaluate(stack);
        assert(evaluated(*evaluate, *old(stack), old(stack).rows(), r));
        r
    }
}

/// Frames carry over.
proof fn frames_chain<
    E: Fn(&DesignStack) -> Result<Scalar, String>,
    O: Fn(DesignStack) -> (DesignStack, Result<Scalar, String>),
>(
    evaluate: E,
    optimize: O,
    base: DesignStack,
    mid: DesignStack,
    rows: Seq<LayerView>,
    answer: Result<Scalar, String>,
    out: (DesignStack, Result<Scalar, String>),
)
    requires
        mid.same_frame(&base),
        mid.span_seq() == base.span_seq(),
    ensures
        evaluated(evaluate, mid, rows, answer) ==> evaluated(evaluate, base, rows, answer),
        optimized(optimize, mid, rows, out) ==> optimized(optimize, base, rows, out),
{
    if evaluated(evaluate, mid, rows, answer) {
        let s = choose|s: DesignStack| #[trigger]
            call_ensures(evaluate, (&s,), answer) && with_rows(s, mid, rows);
        assert(with_rows(s, base, rows));
    }
    if optimized(optimize, mid, rows, out) {
        let s = choose|s: DesignStack| #[trigger]
            call_ensures(optimize, (s,), out) && with_rows(s, mid, rows);
        assert(with_rows(s, base, rows));
    }
}

/// An inflation of `before` gives `r` and leaves `after`.
pub open spec fn inflation_gives<
    A: Numeric,
    E: Fn(&DesignStack) -> Result<Scalar, String>,
    O: Fn(DesignStack) -> (DesignStack, Result<Scalar, String>),
>(
    num: A,
    evaluate: E,
    optimize: O,
    before: DesignStack,
    after: DesignStack,
    wavls: Seq<Scalar>,
    addon_qwot: Scalar,
    reference_wl: Scalar,
    max_layers: Option<usize>,
    reoptimize: bool,
    r: Result<InflateResult, InflateFault>,
) -> bool {
    let rows = before.rows();
    let fault = first_index_fault(num, rows, wavls, reference_wl, 0);
    let deltas = deltas_of(num, rows, wavls, addon_qwot, reference_wl);
    match r {
        Ok(res) => {
            &&& evaluated(evaluate, before, rows, Ok(res.merit_before))
            &&& fault is None
            &&& inflation(
                num,
                evaluate,
                optimize,
                before,
                after,
                deltas,
                max_layers,
                reoptimize,
                Ok(res.merit_after),
            )
            &&& res.total_thickness_before == total_of(num, rows)
            &&& res.total_thickness_after == total_of(num, after.rows())
            &&& res.layer_count == after.rows().len()
            &&& res.addon_qwot == addon_qwot
            &&& res.reference_wavelength == reference_wl
        },
        Err(InflateFault::Index { n, wl }) => {
            &&& exists|mf: Scalar| #[trigger] evaluated(evaluate, before, rows, Ok(mf))
            &&& fault == Some((n, wl))
            &&& with_rows(after, before, rows)
        },
        Err(InflateFault::Failed { reason }) => {
            ||| {
                &&& evaluated(evaluate, before, rows, Err(reason))
                &&& with_rows(after, before, rows)
            }
            ||| {
                &&& exists|mf: Scalar| #[trigger] evaluated(evaluate, before, rows, Ok(mf))
                &&& fault is None
                &&& selective(max_layers, rows.len())
                &&& trials_fail(num, evaluate, before, deltas, reason)
                &&& with_rows(after, before, rows)
            }
            ||| {
                &&& exists|mf: Scalar| #[trigger] evaluated(evaluate, before, rows, Ok(mf))
                &&& fault is None
                &&& inflation(
                    num,
                    evaluate,
                    optimize,
                    before,
                    after,
                    deltas,
                    max_layers,
                    reoptimize,
                    Err(reason),
                )
            }
        },
        Err(InflateFault::Resolution { .. }) => false,
    }
}

/// Inflates the films whose trial inflation has the lowest merit by a number
/// of quarter waves, then optimizes again. Where the number of films is not
/// limited, all are inflated and none is tried.
pub fn inflate_design<
    A: Numeric,
    E: Fn(&DesignStack) -> Result<Scalar, String>,
    O: Fn(DesignStack) -> (DesignStack, Result<Scalar, String>),
>(
    num: &A,
    stack: &mut DesignStack,
    wavls: &Vec<Scalar>,
    addon_qwot: Scalar,
    reference_wl: Scalar,
    max_layers: Option<usize>,
    reoptimize: bool,
    evaluate: &E,
    optimize: &O,
) -> (r: Result<InflateResult, InflateFault>)
    requires
        num.sound(),
        old(stack).wf(),
        usable(*evaluate, *optimize),
        all_readable(*num, old(stack).rows(), wavls@, reference_wl),
    ensures
        final(stack).wf(),
        inflation_gives(
            *num,
            *evaluate,
            *optimize,
            *old(stack),
            *final(stack),
            wavls@,
            addon_qwot,
            reference_wl,
            max_layers,
            reoptimize,
            r,
        ),
{
    let ghost start = *stack;
    let ghost rows = stack.rows();
    let first: Result<Scalar, String> = evaluate(stack);
    assert(evaluated(*evaluate, start, rows, first));
    let merit_before: Scalar = match first {
        Ok(mf) => mf,
        Err(reason) => {
            return Err(InflateFault::Failed { reason });
        },
    };
    let n: usize = stack.films().len();
    assert(n == rows.len());
    let total_before: Scalar = total_thickness(num, stack);
    let deltas: Vec<Scalar> = match inflation_deltas(
        num,
        stack,
        wavls,
        addon_qwot,
        reference_wl,
    ) {
        Ok(d) => d,
        Err(e) => {
            return Err(e);
        },
    };
    let trials: bool = match max_layers {
        Some(m) => m < n,
        None => false,
    };
    let scores: Vec<Scalar> = if trials {
        match try_films(num, stack, &deltas, evaluate) {
            Ok(v) => v,
            Err(reason) => {
                return Err(InflateFault::Failed { reason });
            },
        }
    } else {
        Vec::new()
    };
    let chosen: Vec<usize> = choose_films(&scores, max_layers, n);
    let mut k: usize = 0;
    while k < chosen.len()
        invariant
            num.sound(),
            start.wf(),
            rows == start.rows(),
            n == rows.len(),
            deltas@.len() == n,
            forall|k: int| 0 <= k < chosen@.len() ==> (#[trigger] chosen@[k]) < n,
            k <= chosen@.len(),
            with_rows(*stack, start, inflated(*num, rows, deltas@, chosen@, k as int)),
            stack.rows().len() == n,
        decreases chosen.len() - k,
    {
        grow_film(num, stack, &deltas, chosen[k]);
        k += 1;
    }
    let ghost goal = inflated(*num, rows, deltas@, chosen@, chosen@.len() as int);
    let ghost mid = *stack;
    let answer: Result<Scalar, String> = finish(stack, reoptimize, evaluate, optimize);
    proof {
        frames_chain(*evaluate, *optimize, start, mid, goal, answer, (*stack, answer));
    }
    assert(inflates(
        *num,
        *evaluate,
        *optimize,
        start,
        *stack,
        deltas@,
        max_layers,
        reoptimize,
        scores@,
        answer,
    ));
    assert(inflation(
        *num,
        *evaluate,
        *optimize,
        start,
        *stack,
        deltas@,
        max_layers,
        reoptimize,
        answer,
    ));
    match answer {
        Err(reason) => Err(InflateFault::Failed { reason }),
        Ok(merit_after) => {
            Ok(
                InflateResult {
                    merit_before,
                    merit_after,
                    total_thickness_before: total_before,
                    total_thickness_after: total_thickness(num, stack),
                    layer_count: stack.films().len(),
                    addon_qwot,
                    reference_wavelength: reference_wl,
                },
            )
        },
    }
}

/// A film is never inflated below zero.
pub proof fn inflation_is_not_negative<A: Numeric>(num: A, d: Scalar, delta: Scalar)
    ensures
        scalar::at_most(Scalar::zero(), grown(num, d, delta)),
{
}

// ---------------------------------------------------------------------------
// Rounding to quarter waves
// ---------------------------------------------------------------------------
/// The rounding step of a film.
pub open spec fn step_of<A: Numeric>(
    num: A,
    row: LayerView,
    ws: Seq<Scalar>,
    x: Scalar,
    resolution: Scalar,
) -> Scalar {
    num.product(resolution, quarter_wave(num, row.nk, ws, x))
}

/// A thickness at the nearest multiple of a step, one step at least.
pub open spec fn snapped<
    A: Numeric,
    R: Fn(Scalar) -> Scalar,
    T: Fn(Scalar) -> Scalar,
    M: Fn(Scalar, Scalar) -> Scalar,
>(num: A, round: R, trunc: T, rem: M, d: Scalar, step: Scalar) -> Scalar {
    scalar::greater(
        num.product(half_even(num, round, trunc, rem, num.quotient(d, step)), step),
        step,
    )
}

/// The first `n` films at their nearest multiples.
pub open spec fn rounded<
    A: Numeric,
    R: Fn(Scalar) -> Scalar,
    T: Fn(Scalar) -> Scalar,
    M: Fn(Scalar, Scalar) -> Scalar,
>(
    num: A,
    round: R,
    trunc: T,
    rem: M,
    rows: Seq<LayerView>,
    ws: Seq<Scalar>,
    x: Scalar,
    resolution: Scalar,
    n: int,
) -> Seq<LayerView> {
    Seq::new(
        rows.len(),
        |i: int|
            if i < n {
                rows[i].at(
                    snapped(
                        num,
                        round,
                        trunc,
                        rem,
                        rows[i].d_nm,
                        step_of(num, rows[i], ws, x, resolution),
                    ),
                )
            } else {
                rows[i]
            },
    )
}

/// The first film from `i` on whose index is not positive.
pub open spec fn index_fault_at<A: Numeric>(
    num: A,
    rows: Seq<LayerView>,
    ws: Seq<Scalar>,
    x: Scalar,
    i: int,
) -> int
    decreases rows.len() - i,
{
    if i >= rows.len() {
        rows.len() as int
    } else if index_fault(num, rows[i].nk, ws, x) is Some {
        i
    } else {
        index_fault_at(num, rows, ws, x, i + 1)
    }
}

/// Snaps every film to the nearest multiple of a fraction of a quarter wave,
/// one step at least, then optimizes or evaluates. A film without a positive
/// index stops the rounding; the films before it stay rounded.
pub fn round_to_qwot<
    A: Numeric,
    R: Fn(Scalar) -> Scalar,
    T: Fn(Scalar) -> Scalar,
    M: Fn(Scalar, Scalar) -> Scalar,
    E: Fn(&DesignStack) -> Result<Scalar, String>,
    O: Fn(DesignStack) -> (DesignStack, Result<Scalar, String>),
>(
    num: &A,
    round: &R,
    trunc: &T,
    rem: &M,
    stack: &mut DesignStack,
    wavls: &Vec<Scalar>,
    reference_wl: Scalar,
    resolution: Scalar,
    reoptimize: bool,
    evaluate: &E,
    optimize: &O,
) -> (r: Result<Scalar, InflateFault>)
    requires
        num.sound(),
        numeric::settled_image(*round),
        numeric::settled_image(*trunc),
        numeric::settled(*rem),
        old(stack).wf(),
        usable(*evaluate, *optimize),
        all_readable(*num, old(stack).rows(), wavls@, reference_wl),
    ensures
        final(stack).wf(),
        ({
            let rows = old(stack).rows();
            let at = index_fault_at(*num, rows, wavls@, reference_wl, 0);
            let goal = rounded(
                *num,
                *round,
                *trunc,
                *rem,
                rows,
                wavls@,
                reference_wl,
                resolution,
                at,
            );
            if scalar::at_most(resolution, Scalar::zero()) {
                &&& r == Err::<Scalar, InflateFault>(InflateFault::Resolution { resolution })
                &&& with_rows(*final(stack), *old(stack), rows)
            } else if at < rows.len() {
                &&& r matches Err(InflateFault::Index { n, wl }) && index_fault(
                    *num,
                    rows[at].nk,
                    wavls@,
                    reference_wl,
                ) == Some((n, wl))
                &&& with_rows(*final(stack), *old(stack), goal)
            } else {
                match r {
                    Ok(mf) => if reoptimize && rows.len() > 0 {
                        optimized(*optimize, *old(stack), goal, (*final(stack), Ok(mf)))
                    } else {
                        &&& with_rows(*final(stack), *old(stack), goal)
                        &&& evaluated(*evaluate, *old(stack), goal, Ok(mf))
                    },
                    Err(InflateFault::Failed { reason }) => if reoptimize && rows.len() > 0 {
                        optimized(*optimize, *old(stack), goal, (*final(stack), Err(reason)))
                    } else {
                        &&& with_rows(*final(stack), *old(stack), goal)
                        &&& evaluated(*evaluate, *old(stack), goal, Err(reason))
                    },
                    Err(_) => false,
                }
            }
        }),
{
    let ghost start = *stack;
    let ghost rows = stack.rows();
    let ghost ws = wavls@;
    if resolution.le(Scalar::zero()) {
        return Err(InflateFault::Resolution { resolution });
    }
    let n: usize = stack.films().len();
    assert(n == rows.len());
    let mut i: usize = 0;
    assert(rounded(*num, *round, *trunc, *rem, rows, ws, reference_wl, resolution, 0) =~= rows);
    while i < n
        invariant
            num.sound(),
            numeric::settled_image(*round),
            numeric::settled_image(*trunc),
            numeric::settled(*rem),
            start.wf(),
            start == *old(stack),
            ws == wavls@,
            rows == start.rows(),
            n == rows.len(),
            all_readable(*num, rows, ws, reference_wl),
            !scalar::at_most(resolution, Scalar::zero()),
            i <= n,
            index_fault_at(*num, rows, ws, reference_wl, i as int) == index_fault_at(
                *num,
                rows,
                ws,
                reference_wl,
                0,
            ),
            with_rows(
                *stack,
                start,
                rounded(
                    *num,
                    *round,
                    *trunc,
                    *rem,
                    rows,
                    ws,
                    reference_wl,
                    resolution,
                    i as int,
                ),
            ),
        decreases n - i,
    {
        let (q, d): (Result<Scalar, InflateFault>, Scalar) = match stack.film(i) {
            Some(f) => {
                assert(f@ == rows[i as int]);
                (qwot_nm(num, &f.nk, wavls, reference_wl), f.d_nm)
            },
            None => (Ok(Scalar::zero()), Scalar::zero()),
        };
        let step: Scalar = match q {
            Ok(q) => num.times(resolution, q),
            Err(e) => {
                return Err(e);
            },
        };
        let even: Scalar = round_half_even(num, round, trunc, rem, num.over(d, step));
        let to: Scalar = num.times(even, step).max(step);
        let _r: Result<(), StackError> = stack.set_thickness(i, to);
        i += 1;
        assert(stack.rows() =~= rounded(
            *num,
            *round,
            *trunc,
            *rem,
            rows,
            ws,
            reference_wl,
            resolution,
            i as int,
        ));
    }
    let ghost goal = rounded(
        *num,
        *round,
        *trunc,
        *rem,
        rows,
        ws,
        reference_wl,
        resolution,
        n as int,
    );
    let ghost mid = *stack;
    let answer: Result<Scalar, String> = finish(stack, reoptimize, evaluate, optimize);
    proof {
        frames_chain(*evaluate, *optimize, start, mid, goal, answer, (*stack, answer));
    }
    match answer {
        Ok(mf) => Ok(mf),
        Err(reason) => Err(InflateFault::Failed { reason }),
    }
}

} // verus!
