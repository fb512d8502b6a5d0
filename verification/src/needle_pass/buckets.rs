//! The folded demands: one target and one weight per solver point and
//! quantity, gain shifts, and color gradients.
//!
//! Overlapping terms fold exactly: weights add up, weighted targets add up,
//! and the quotient of the sums is the joint target.
use crate::merit::formula;
use crate::merit::sim::SimCurves;
use crate::merit::spec::{ColorDemand, MeritKey, MeritSpec};
use crate::merit::CurveId;
use crate::nearest;
use crate::nearest::nearest_index;
use crate::needle_pass::fold;
use crate::needle_pass::fold::{emissions, Bucket, Emission, NeedleFault};
use crate::numeric::Numeric;
use crate::optics::Optics;
use crate::scalar;
use crate::scalar::Scalar;
use vstd::prelude::*;

verus! {

/// The pattern of one half.
pub const HALF_BITS: u64 = 0x3FE0_0000_0000_0000;

/// One color gradient term.
#[derive(Clone, Copy, Debug, PartialEq, Eq, Structural)]
pub struct GradTerm {
    /// On the reflectance; else on the transmittance.
    pub reflect: bool,
    pub k: usize,
    pub value: Scalar,
}

/// Folded needle inputs: targets and weights per quantity, angle-major.
#[derive(Debug)]
pub struct NeedleTargets {
    pub r: (Vec<Scalar>, Vec<Scalar>),
    pub t: (Vec<Scalar>, Vec<Scalar>),
    pub a: (Vec<Scalar>, Vec<Scalar>),
    pub rb: (Vec<Scalar>, Vec<Scalar>),
    pub tb: (Vec<Scalar>, Vec<Scalar>),
    pub ab: (Vec<Scalar>, Vec<Scalar>),
    /// One pair per scattering element.
    pub phi: Vec<(Vec<Scalar>, Vec<Scalar>)>,
    /// What a differential reference adds to the gain, per element.
    pub phi_gain_shift: Vec<Scalar>,
    pub grad_r: Vec<Scalar>,
    pub grad_t: Vec<Scalar>,
}

/// The values that fall on solver point `k` of a bucket, in order.
pub open spec fn picked(
    es: Seq<Emission>,
    vals: Seq<Scalar>,
    bucket: Bucket,
    k: int,
    n: int,
) -> Seq<Scalar>
    decreases n,
{
    if n <= 0 {
        seq![]
    } else if es[n - 1].bucket == bucket && es[n - 1].k == k {
        picked(es, vals, bucket, k, n - 1).push(vals[n - 1])
    } else {
        picked(es, vals, bucket, k, n - 1)
    }
}

/// The terms' weights.
pub open spec fn weights(es: Seq<Emission>) -> Seq<Scalar> {
    es.map_values(|e: Emission| e.weight)
}

/// The terms' weighted targets.
pub open spec fn products<A: Numeric>(num: A, es: Seq<Emission>) -> Seq<Scalar> {
    es.map_values(|e: Emission| num.product(e.weight, e.target))
}

/// The sum, from zero, of what the first `n` terms put on solver point `k`.
pub open spec fn summed<A: Numeric>(
    num: A,
    es: Seq<Emission>,
    vals: Seq<Scalar>,
    bucket: Bucket,
    k: int,
    n: int,
) -> Scalar {
    let xs = picked(es, vals, bucket, k, n);
    formula::tally(num, xs, xs.len() as int)
}

/// The summed weights of a bucket at solver point `k`.
pub open spec fn joint_weight<A: Numeric>(num: A, es: Seq<Emission>, bucket: Bucket, k: int) -> Scalar {
    summed(num, es, weights(es), bucket, k, es.len() as int)
}

/// The joint target there: the summed weighted targets, divided by the weights
/// where they are positive.
pub open spec fn joint_target<A: Numeric>(num: A, es: Seq<Emission>, bucket: Bucket, k: int) -> Scalar {
    let s = summed(num, es, products(num, es), bucket, k, es.len() as int);
    let w = joint_weight(num, es, bucket, k);
    if scalar::less(Scalar::zero(), w) {
        num.quotient(s, w)
    } else {
        s
    }
}

/// The pair of a bucket: joint targets and weights on `n` solver points.
pub open spec fn pair_of<A: Numeric>(
    num: A,
    es: Seq<Emission>,
    bucket: Bucket,
    n: nat,
    pair: (Vec<Scalar>, Vec<Scalar>),
) -> bool {
    &&& pair.0@ == Seq::new(n, |k: int| joint_target(num, es, bucket, k))
    &&& pair.1@ == Seq::new(n, |k: int| joint_weight(num, es, bucket, k))
}

/// The gain shifts of element `ch`, in order.
pub open spec fn shifts(es: Seq<Emission>, ch: usize, n: int) -> Seq<Scalar>
    decreases n,
{
    if n <= 0 {
        seq![]
    } else {
        let before = shifts(es, ch, n - 1);
        match es[n - 1].shift {
            Some(g) => if es[n - 1].bucket == (Bucket::Phi { ch }) {
                before.push(g)
            } else {
                before
            },
            None => before,
        }
    }
}

/// The color terms on solver point `k`, in order.
pub open spec fn grads_at(gs: Seq<GradTerm>, reflect: bool, k: int, n: int) -> Seq<Scalar>
    decreases n,
{
    if n <= 0 {
        seq![]
    } else if gs[n - 1].reflect == reflect && gs[n - 1].k == k {
        grads_at(gs, reflect, k, n - 1).push(gs[n - 1].value)
    } else {
        grads_at(gs, reflect, k, n - 1)
    }
}

/// The gain shift of element `ch`.
pub open spec fn shift_sum<A: Numeric>(num: A, es: Seq<Emission>, ch: usize) -> Scalar {
    let xs = shifts(es, ch, es.len() as int);
    formula::tally(num, xs, xs.len() as int)
}

/// The summed color terms on solver point `k` of the first `n`.
pub open spec fn grad_sum<A: Numeric>(
    num: A,
    gs: Seq<GradTerm>,
    reflect: bool,
    k: int,
    n: int,
) -> Scalar {
    let xs = grads_at(gs, reflect, k, n);
    formula::tally(num, xs, xs.len() as int)
}

/// The summed color terms of `n` solver points.
pub open spec fn grads_summed<A: Numeric>(
    num: A,
    gs: Seq<GradTerm>,
    reflect: bool,
    n: nat,
) -> Seq<Scalar> {
    Seq::new(n, |k: int| grad_sum(num, gs, reflect, k, gs.len() as int))
}

/// The folded demands of a list of terms.
pub open spec fn folded<A: Numeric>(
    num: A,
    es: Seq<Emission>,
    gs: Seq<GradTerm>,
    n: nat,
    out: NeedleTargets,
) -> bool {
    &&& pair_of(num, es, Bucket::R, n, out.r)
    &&& pair_of(num, es, Bucket::T, n, out.t)
    &&& pair_of(num, es, Bucket::A, n, out.a)
    &&& pair_of(num, es, Bucket::Rb, n, out.rb)
    &&& pair_of(num, es, Bucket::Tb, n, out.tb)
    &&& pair_of(num, es, Bucket::Ab, n, out.ab)
    &&& out.phi@.len() == 4
    &&& forall|ch: int|
        0 <= ch < 4 ==> pair_of(
            num,
            es,
            Bucket::Phi { ch: ch as usize },
            n,
            #[trigger] out.phi@[ch],
        )
    &&& out.phi_gain_shift@ == Seq::new(4, |ch: int| shift_sum(num, es, ch as usize))
    &&& out.grad_r@ == grads_summed(num, gs, true, n)
    &&& out.grad_t@ == grads_summed(num, gs, false, n)
}

fn zeros(n: usize) -> (r: Vec<Scalar>)
    ensures
        r@ == Seq::new(n as nat, |i: int| Scalar::zero()),
{
    let mut out: Vec<Scalar> = Vec::with_capacity(n);
    let mut i: usize = 0;
    while i < n
        invariant
            i <= n,
            out@ == Seq::new(i as nat, |i: int| Scalar::zero()),
        decreases n - i,
    {
        out.push(Scalar::zero());
        i += 1;
        assert(out@ =~= Seq::new(i as nat, |i: int| Scalar::zero()));
    }
    out
}

/// Folds the terms of one bucket.
fn fold_bucket<A: Numeric>(num: &A, es: &Vec<Emission>, bucket: Bucket, n: usize) -> (r: (
    Vec<Scalar>,
    Vec<Scalar>,
))
    requires
        num.sound(),
        forall|j: int| 0 <= j < es@.len() ==> (#[trigger] es@[j]).k < n,
    ensures
        pair_of(*num, es@, bucket, n as nat, r),
{
    let mut ts: Vec<Scalar> = zeros(n);
    let mut ws: Vec<Scalar> = zeros(n);
    let ghost ps = products(*num, es@);
    let ghost us = weights(es@);
    let mut j: usize = 0;
    while j < es.len()
        invariant
            j <= es.len(),
            num.sound(),
            forall|j: int| 0 <= j < es@.len() ==> (#[trigger] es@[j]).k < n,
            ts.len() == n,
            ws.len() == n,
            ps == products(*num, es@),
            us == weights(es@),
            forall|k: int|
                0 <= k < n ==> #[trigger] ws@[k] == summed(*num, es@, us, bucket, k, j as int),
            forall|k: int|
                0 <= k < n ==> #[trigger] ts@[k] == summed(*num, es@, ps, bucket, k, j as int),
        decreases es.len() - j,
    {
        let e: Emission = es[j];
        let ghost ws0 = ws@;
        let ghost ts0 = ts@;
        assert(es@[j as int].k < n);
        if e.bucket == bucket {
            let p: Scalar = num.times(e.weight, e.target);
            let w: Scalar = num.plus(ws[e.k], e.weight);
            ws.set(e.k, w);
            let t: Scalar = num.plus(ts[e.k], p);
            ts.set(e.k, t);
        }
        proof {
            assert forall|k: int| 0 <= k < n implies #[trigger] ws@[k] == summed(
                *num,
                es@,
                us,
                bucket,
                k,
                j + 1,
            ) by {
                assert(ws0[k] == summed(*num, es@, us, bucket, k, j as int));
                if e.bucket == bucket && e.k == k {
                    formula::tally_goes_on(
                        *num,
                        picked(es@, us, bucket, k, j as int),
                        us[j as int],
                    );
                }
            }
            assert forall|k: int| 0 <= k < n implies #[trigger] ts@[k] == summed(
                *num,
                es@,
                ps,
                bucket,
                k,
                j + 1,
            ) by {
                assert(ts0[k] == summed(*num, es@, ps, bucket, k, j as int));
                if e.bucket == bucket && e.k == k {
                    formula::tally_goes_on(
                        *num,
                        picked(es@, ps, bucket, k, j as int),
                        ps[j as int],
                    );
                }
            }
        }
        j += 1;
    }
    let ghost sums = ts@;
    let mut k: usize = 0;
    while k < n
        invariant
            k <= n,
            num.sound(),
            ts.len() == n,
            ws.len() == n,
            sums.len() == n,
            forall|i: int|
                0 <= i < n ==> #[trigger] sums[i] == summed(
                    *num,
                    es@,
                    products(*num, es@),
                    bucket,
                    i,
                    es@.len() as int,
                ),
            forall|i: int|
                0 <= i < n ==> #[trigger] ws@[i] == joint_weight(*num, es@, bucket, i),
            forall|i: int| k <= i < n ==> #[trigger] ts@[i] == sums[i],
            forall|i: int|
                0 <= i < k ==> #[trigger] ts@[i] == joint_target(*num, es@, bucket, i),
        decreases n - k,
    {
        assert(ts@[k as int] == sums[k as int]);
        assert(ws@[k as int] == joint_weight(*num, es@, bucket, k as int));
        if ws[k].gt(Scalar::zero()) {
            let t: Scalar = num.over(ts[k], ws[k]);
            ts.set(k, t);
        }
        k += 1;
    }
    assert(ts@ =~= Seq::new(n as nat, |k: int| joint_target(*num, es@, bucket, k)));
    assert(ws@ =~= Seq::new(n as nat, |k: int| joint_weight(*num, es@, bucket, k)));
    (ts, ws)
}

/// Sums the gain shifts of one element.
fn fold_shift<A: Numeric>(num: &A, es: &Vec<Emission>, ch: usize) -> (r: Scalar)
    requires
        num.sound(),
    ensures
        r == shift_sum(*num, es@, ch),
{
    let mut acc: Scalar = Scalar::zero();
    let mut j: usize = 0;
    while j < es.len()
        invariant
            j <= es.len(),
            num.sound(),
            acc == formula::tally(
                *num,
                shifts(es@, ch, j as int),
                shifts(es@, ch, j as int).len() as int,
            ),
        decreases es.len() - j,
    {
        let e: Emission = es[j];
        match e.shift {
            Some(g) => {
                if e.bucket == (Bucket::Phi { ch }) {
                    proof {
                        formula::tally_goes_on(*num, shifts(es@, ch, j as int), g);
                    }
                    acc = num.plus(acc, g);
                }
            },
            None => {},
        }
        j += 1;
    }
    acc
}

/// Sums the color terms of one channel.
fn fold_grads<A: Numeric>(num: &A, gs: &Vec<GradTerm>, reflect: bool, n: usize) -> (r: Vec<Scalar>)
    requires
        num.sound(),
        forall|j: int| 0 <= j < gs@.len() ==> (#[trigger] gs@[j]).k < n,
    ensures
        r@ == grads_summed(*num, gs@, reflect, n as nat),
{
    let mut out: Vec<Scalar> = zeros(n);
    let mut j: usize = 0;
    while j < gs.len()
        invariant
            j <= gs.len(),
            num.sound(),
            forall|j: int| 0 <= j < gs@.len() ==> (#[trigger] gs@[j]).k < n,
            out.len() == n,
            forall|k: int|
                0 <= k < n ==> #[trigger] out@[k] == grad_sum(*num, gs@, reflect, k, j as int),
        decreases gs.len() - j,
    {
        let g: GradTerm = gs[j];
        let ghost out0 = out@;
        assert(gs@[j as int].k < n);
        if g.reflect == reflect {
            let v: Scalar = num.plus(out[g.k], g.value);
            out.set(g.k, v);
        }
        proof {
            assert forall|k: int| 0 <= k < n implies #[trigger] out@[k] == grad_sum(
                *num,
                gs@,
                reflect,
                k,
                j + 1,
            ) by {
                assert(out0[k] == grad_sum(*num, gs@, reflect, k, j as int));
                if g.reflect == reflect && g.k == k {
                    formula::tally_goes_on(*num, grads_at(gs@, reflect, k, j as int), g.value);
                }
            }
        }
        j += 1;
    }
    assert(out@ =~= grads_summed(*num, gs@, reflect, n as nat));
    out
}

/// Folds all terms onto `n` solver points.
pub fn fold_terms<A: Numeric>(
    num: &A,
    es: &Vec<Emission>,
    gs: &Vec<GradTerm>,
    n: usize,
) -> (r: NeedleTargets)
    requires
        num.sound(),
        forall|j: int| 0 <= j < es@.len() ==> (#[trigger] es@[j]).k < n,
        forall|j: int| 0 <= j < gs@.len() ==> (#[trigger] gs@[j]).k < n,
    ensures
        folded(*num, es@, gs@, n as nat, r),
{
    let mut phi: Vec<(Vec<Scalar>, Vec<Scalar>)> = Vec::with_capacity(4);
    let mut phi_gain_shift: Vec<Scalar> = Vec::with_capacity(4);
    let mut ch: usize = 0;
    while ch < 4
        invariant
            ch <= 4,
            num.sound(),
            forall|j: int| 0 <= j < es@.len() ==> (#[trigger] es@[j]).k < n,
            phi.len() == ch,
            phi_gain_shift.len() == ch,
            forall|c: int|
                0 <= c < ch ==> pair_of(
                    *num,
                    es@,
                    Bucket::Phi { ch: c as usize },
                    n as nat,
                    #[trigger] phi@[c],
                ),
            forall|c: int|
                0 <= c < ch ==> #[trigger] phi_gain_shift@[c] == shift_sum(
                    *num,
                    es@,
                    c as usize,
                ),
        decreases 4 - ch,
    {
        let pair: (Vec<Scalar>, Vec<Scalar>) = fold_bucket(num, es, Bucket::Phi { ch }, n);
        phi.push(pair);
        let s: Scalar = fold_shift(num, es, ch);
        phi_gain_shift.push(s);
        ch += 1;
    }
    assert(phi_gain_shift@ =~= Seq::new(4, |ch: int| shift_sum(*num, es@, ch as usize)));
    NeedleTargets {
        r: fold_bucket(num, es, Bucket::R, n),
        t: fold_bucket(num, es, Bucket::T, n),
        a: fold_bucket(num, es, Bucket::A, n),
        rb: fold_bucket(num, es, Bucket::Rb, n),
        tb: fold_bucket(num, es, Bucket::Tb, n),
        ab: fold_bucket(num, es, Bucket::Ab, n),
        phi,
        phi_gain_shift,
        grad_r: fold_grads(num, gs, true, n),
        grad_t: fold_grads(num, gs, false, n),
    }
}

/// Points without a term stay at zero, target and weight.
pub proof fn untouched_points_stay_zero<A: Numeric>(
    num: A,
    es: Seq<Emission>,
    bucket: Bucket,
    n: nat,
    pair: (Vec<Scalar>, Vec<Scalar>),
    k: int,
)
    requires
        pair_of(num, es, bucket, n, pair),
        0 <= k < n,
        forall|j: int|
            0 <= j < es.len() ==> !((#[trigger] es[j]).bucket == bucket && es[j].k == k),
    ensures
        pair.1@[k] == Scalar::zero(),
        pair.0@[k] == Scalar::zero(),
{
    nothing_picked(es, weights(es), bucket, k, es.len() as int);
    nothing_picked(es, products(num, es), bucket, k, es.len() as int);
    assert(pair.1@[k] == joint_weight(num, es, bucket, k));
    assert(pair.0@[k] == joint_target(num, es, bucket, k));
}

proof fn nothing_picked(es: Seq<Emission>, vals: Seq<Scalar>, bucket: Bucket, k: int, n: int)
    requires
        0 <= n <= es.len(),
        forall|j: int|
            0 <= j < es.len() ==> !((#[trigger] es[j]).bucket == bucket && es[j].k == k),
    ensures
        picked(es, vals, bucket, k, n) == Seq::<Scalar>::empty(),
    decreases n,
{
    if n > 0 {
        nothing_picked(es, vals, bucket, k, n - 1);
        assert(!(es[n - 1].bucket == bucket && es[n - 1].k == k));
    }
}

// ---------------------------------------------------------------------------
// Color demands
// ---------------------------------------------------------------------------

/// The demand adds a gradient: it is on a front reflectance or transmittance
/// whose simulated row is there.
pub open spec fn color_reads(sim: Option<&SimCurves>, curve: CurveId) -> bool {
    &&& !curve.back()
    &&& !(curve.quantity() is Absorbed)
    &&& sim matches Some(s) && s.wavelengths@.len() > 0 && s.intensity(curve) is Some
}

/// Covered points lie on the simulated grid.
pub open spec fn points_within(pts: Seq<(usize, Scalar)>, n: nat) -> bool {
    forall|i: int| 0 <= i < pts.len() ==> (#[trigger] pts[i]).0 < n
}

/// Whatever a color evaluation covers lies on the simulated grid.
pub open spec fn color_in_range<C: Fn(usize, usize) -> Result<Vec<(usize, Scalar)>, String>>(
    color: C,
    sim: Option<&SimCurves>,
) -> bool {
    forall|c: usize, a: usize, pts: Vec<(usize, Scalar)>|
        #[trigger] call_ensures(color, (c, a), Ok::<Vec<(usize, Scalar)>, String>(pts)) && sim
            is Some ==> points_within(pts@, sim->0.wavelengths@.len())
}

/// The share of an unpolarized curve's branches in its gradient, and of a
/// polarized one in its own.
pub open spec fn branch_share(curve: CurveId) -> Scalar {
    if curve.pol() is U {
        Scalar { bits: HALF_BITS }
    } else {
        Scalar::one()
    }
}

/// The gradient terms for the covered points `pts`, each at the nearest solver
/// wavelength.
pub open spec fn color_terms<A: Numeric>(
    num: A,
    key: MeritKey,
    angles: Seq<Scalar>,
    wavelengths: Seq<Scalar>,
    sim_wl: Seq<Scalar>,
    pts: Seq<(usize, Scalar)>,
) -> Seq<GradTerm> {
    let row = nearest::nearest_to(num, angles, key.angle);
    Seq::new(
        pts.len(),
        |i: int|
            GradTerm {
                reflect: key.curve.quantity() is Reflected,
                k: (row * wavelengths.len() + nearest::nearest_to(
                    num,
                    wavelengths,
                    sim_wl[pts[i].0 as int],
                )) as usize,
                value: num.product(branch_share(key.curve), pts[i].1),
            },
    )
}

/// What becomes of color demand `c`.
pub open spec fn color_outcome<
    A: Numeric,
    C: Fn(usize, usize) -> Result<Vec<(usize, Scalar)>, String>,
>(
    num: A,
    color: C,
    spec: &MeritSpec,
    angles: Seq<Scalar>,
    wavelengths: Seq<Scalar>,
    sim: Option<&SimCurves>,
    c: int,
    r: Result<Seq<GradTerm>, NeedleFault>,
) -> bool {
    let key = spec.key_seq()[spec.color_seq()[c].key_idx as int];
    if !color_reads(sim, key.curve) {
        r matches Ok(terms) && terms.len() == 0
    } else {
        let a = nearest::nearest_to(num, sim->0.angles@, key.angle) as usize;
        exists|res: Result<Vec<(usize, Scalar)>, String>|
            {
                &&& #[trigger] call_ensures(color, (c as usize, a), res)
                &&& match res {
                    Ok(pts) => r matches Ok(terms) && terms == color_terms(
                        num,
                        key,
                        angles,
                        wavelengths,
                        sim->0.wavelengths@,
                        pts@,
                    ),
                    Err(message) => r matches Err(e) && e == (NeedleFault::Color {
                        curve: key.curve,
                        message,
                    }),
                }
            }
    }
}

/// The chunks one after the other.
pub open spec fn grads_joined(chunks: Seq<Seq<GradTerm>>) -> Seq<GradTerm>
    decreases chunks.len(),
{
    if chunks.len() == 0 {
        seq![]
    } else {
        grads_joined(chunks.drop_last()) + chunks.last()
    }
}

/// The gradient terms of one color demand.
fn fold_color<A: Numeric, C: Fn(usize, usize) -> Result<Vec<(usize, Scalar)>, String>>(
    num: &A,
    color: &C,
    spec: &MeritSpec,
    c: usize,
    angles: &Vec<Scalar>,
    wavelengths: &Vec<Scalar>,
    sim: Option<&SimCurves>,
) -> (r: Result<Vec<GradTerm>, NeedleFault>)
    requires
        spec.wf(),
        c < spec.color_seq().len(),
        sim matches Some(s) ==> s.wf(),
        angles@.len() > 0,
        wavelengths@.len() > 0,
        angles@.len() * wavelengths@.len() <= usize::MAX,
        num.sound(),
        forall|c: usize, a: usize| #[trigger] call_requires(*color, (c, a)),
        color_in_range(*color, sim),
    ensures
        match r {
            Ok(ts) => {
                &&& color_outcome(
                    *num,
                    *color,
                    spec,
                    angles@,
                    wavelengths@,
                    sim,
                    c as int,
                    Ok::<Seq<GradTerm>, NeedleFault>(ts@),
                )
                &&& forall|i: int|
                    0 <= i < ts@.len() ==> (#[trigger] ts@[i]).k < angles@.len()
                        * wavelengths@.len()
            },
            Err(e) => color_outcome(
                *num,
                *color,
                spec,
                angles@,
                wavelengths@,
                sim,
                c as int,
                Err::<Seq<GradTerm>, NeedleFault>(e),
            ),
        },
{
    let demand: ColorDemand = spec.color_demands()[c];
    let ghost gk = spec.color_seq()[c as int].key_idx;
    assert(gk < spec.key_seq().len());
    let key: MeritKey = spec.keys()[demand.key_idx as usize];
    let mut terms: Vec<GradTerm> = Vec::new();
    if key.curve.is_back() || key.curve.is_absorption() {
        return Ok(terms);
    }
    let s: &SimCurves = match sim {
        None => {
            return Ok(terms);
        },
        Some(s) => s,
    };
    if s.wavelengths.len() == 0 || s.curve(key.curve).is_none() {
        return Ok(terms);
    }
    assert(color_reads(sim, key.curve));
    let row: usize = nearest_index(num, angles, key.angle);
    let a: usize = s.angle_row(num, key.angle);
    let res: Result<Vec<(usize, Scalar)>, String> = color(c, a);
    let ghost res0 = res;
    assert(call_ensures(*color, ((c as int) as usize, a), res0));
    let pts: Vec<(usize, Scalar)> = match res {
        Ok(pts) => pts,
        Err(message) => {
            return Err(NeedleFault::Color { curve: key.curve, message });
        },
    };
    let reflect: bool = matches!(key.curve, CurveId::Rs | CurveId::Rp | CurveId::Ru);
    let share: Scalar = if matches!(key.curve, CurveId::Ru | CurveId::Tu) {
        Scalar { bits: HALF_BITS }
    } else {
        Scalar::one()
    };
    let nw: usize = wavelengths.len();
    assert((row + 1) * nw <= angles@.len() * nw) by (nonlinear_arith)
        requires
            row + 1 <= angles@.len(),
            0 <= nw,
    ;
    assert(row * nw + nw == (row + 1) * nw) by (nonlinear_arith);
    assert(0 <= row * nw) by (nonlinear_arith)
        requires
            0 <= row,
            0 <= nw,
    ;
    let ghost all = color_terms(*num, key, angles@, wavelengths@, s.wavelengths@, pts@);
    let mut i: usize = 0;
    while i < pts.len()
        invariant
            i <= pts.len(),
            num.sound(),
            0 <= row * nw,
            row * nw + nw <= angles@.len() * nw <= usize::MAX,
            row == nearest::nearest_to(*num, angles@, key.angle),
            nw == wavelengths@.len(),
            nw > 0,
            sim == Some(s),
            reflect == (key.curve.quantity() is Reflected),
            share == branch_share(key.curve),
            call_ensures(*color, (c, a), Ok::<Vec<(usize, Scalar)>, String>(pts)),
            color_in_range(*color, sim),
            all == color_terms(*num, key, angles@, wavelengths@, s.wavelengths@, pts@),
            terms@ == all.take(i as int),
            forall|j: int|
                0 <= j < i ==> (#[trigger] terms@[j]).k < angles@.len() * wavelengths@.len(),
        decreases pts.len() - i,
    {
        let (at, g) = pts[i];
        assert(points_within(pts@, s.wavelengths@.len()));
        let w: usize = nearest_index(num, wavelengths, s.wavelengths[at]);
        let value: Scalar = num.times(share, g);
        terms.push(GradTerm { reflect, k: row * nw + w, value });
        i += 1;
        assert(terms@ =~= all.take(i as int));
    }
    assert(terms@ =~= all);
    Ok(terms)
}

/// The first color demands gave these gradient terms, one list each.
pub open spec fn colors_settled<
    A: Numeric,
    C: Fn(usize, usize) -> Result<Vec<(usize, Scalar)>, String>,
>(
    num: A,
    color: C,
    spec: &MeritSpec,
    angles: Seq<Scalar>,
    wavelengths: Seq<Scalar>,
    sim: Option<&SimCurves>,
    grads: Seq<Seq<GradTerm>>,
) -> bool {
    forall|c: int|
        0 <= c < grads.len() ==> color_outcome(
            num,
            color,
            spec,
            angles,
            wavelengths,
            sim,
            c,
            Ok::<Seq<GradTerm>, NeedleFault>(#[trigger] grads[c]),
        )
}

/// The gradient terms of all color demands, or the fault of the first one that
/// could not be evaluated.
pub fn color_grads<A: Numeric, C: Fn(usize, usize) -> Result<Vec<(usize, Scalar)>, String>>(
    num: &A,
    color: &C,
    spec: &MeritSpec,
    angles: &Vec<Scalar>,
    wavelengths: &Vec<Scalar>,
    sim: Option<&SimCurves>,
) -> (r: Result<Vec<GradTerm>, NeedleFault>)
    requires
        spec.wf(),
        sim matches Some(s) ==> s.wf(),
        spec.color_seq().len() > 0 ==> angles@.len() > 0 && wavelengths@.len() > 0,
        angles@.len() * wavelengths@.len() <= usize::MAX,
        num.sound(),
        forall|c: usize, a: usize| #[trigger] call_requires(*color, (c, a)),
        color_in_range(*color, sim),
    ensures
        exists|chunks: Seq<Seq<GradTerm>>|
            {
                &&& #[trigger] colors_settled(
                    *num,
                    *color,
                    spec,
                    angles@,
                    wavelengths@,
                    sim,
                    chunks,
                )
                &&& match r {
                    Ok(ts) => {
                        &&& chunks.len() == spec.color_seq().len()
                        &&& ts@ == grads_joined(chunks)
                        &&& forall|i: int|
                            0 <= i < ts@.len() ==> (#[trigger] ts@[i]).k < angles@.len()
                                * wavelengths@.len()
                    },
                    Err(e) => {
                        &&& chunks.len() < spec.color_seq().len()
                        &&& color_outcome(
                            *num,
                            *color,
                            spec,
                            angles@,
                            wavelengths@,
                            sim,
                            chunks.len() as int,
                            Err::<Seq<GradTerm>, NeedleFault>(e),
                        )
                    },
                }
            },
{
    let mut out: Vec<GradTerm> = Vec::new();
    let ghost mut chunks: Seq<Seq<GradTerm>> = seq![];
    let n: usize = spec.color_demands().len();
    let mut c: usize = 0;
    assert(grads_joined(chunks) =~= seq![]);
    while c < n
        invariant
            c <= n == spec.color_seq().len(),
            spec.wf(),
            sim matches Some(s) ==> s.wf(),
            n > 0 ==> angles@.len() > 0 && wavelengths@.len() > 0,
            angles@.len() * wavelengths@.len() <= usize::MAX,
            num.sound(),
            forall|c: usize, a: usize| #[trigger] call_requires(*color, (c, a)),
            color_in_range(*color, sim),
            chunks.len() == c,
            forall|j: int|
                0 <= j < c ==> color_outcome(
                    *num,
                    *color,
                    spec,
                    angles@,
                    wavelengths@,
                    sim,
                    j,
                    Ok::<Seq<GradTerm>, NeedleFault>(#[trigger] chunks[j]),
                ),
            out@ == grads_joined(chunks),
            forall|i: int|
                0 <= i < out@.len() ==> (#[trigger] out@[i]).k < angles@.len()
                    * wavelengths@.len(),
        decreases n - c,
    {
        match fold_color(num, color, spec, c, angles, wavelengths, sim) {
            Ok(ts) => {
                let mut ts = ts;
                let ghost chunk = ts@;
                let ghost before = out@;
                out.append(&mut ts);
                proof {
                    assert(chunks.push(chunk).drop_last() =~= chunks);
                    chunks = chunks.push(chunk);
                    assert forall|i: int| 0 <= i < out@.len() implies (#[trigger] out@[i]).k
                        < angles@.len() * wavelengths@.len() by {
                        if i < before.len() {
                            assert(out@[i] == before[i]);
                        } else {
                            assert(out@[i] == chunk[i - before.len()]);
                        }
                    }
                }
            },
            Err(e) => {
                assert(colors_settled(*num, *color, spec, angles@, wavelengths@, sim, chunks));
                return Err(e);
            },
        }
        c += 1;
    }
    assert(colors_settled(*num, *color, spec, angles@, wavelengths@, sim, chunks));
    Ok(out)
}

/// Folds a specification into needle inputs: the emissions of its targets and
/// the gradients of its color demands, summed per solver point. The targets
/// are looked at before the color demands, and the first fault ends it.
pub fn build_needle_targets<
    A: Numeric,
    O: Optics,
    C: Fn(usize, usize) -> Result<Vec<(usize, Scalar)>, String>,
>(
    num: &A,
    ph: &O,
    color: &C,
    spec: &MeritSpec,
    angles: &Vec<Scalar>,
    wavelengths: &Vec<Scalar>,
    sim: Option<&SimCurves>,
) -> (r: Result<NeedleTargets, NeedleFault>)
    requires
        num.sound(),
        ph.lawful(),
        spec.wf(),
        forall|j: int|
            0 <= j < spec.target_seq().len() ==> fold::foldable(#[trigger] spec.target_seq()[j]),
        fold::all_legible(sim, spec),
        sim matches Some(s) ==> s.wf(),
        spec.target_seq().len() + spec.color_seq().len() > 0 ==> angles@.len() > 0
            && wavelengths@.len() > 0,
        angles@.len() * wavelengths@.len() <= usize::MAX,
        forall|c: usize, a: usize| #[trigger] call_requires(*color, (c, a)),
        color_in_range(*color, sim),
    ensures
        match r {
            Ok(out) => {
                &&& forall|j: int|
                    0 <= j < spec.target_seq().len() ==> #[trigger] fold::bucket_fault(spec, j)
                        is None
                &&& exists|grads: Seq<Seq<GradTerm>>|
                    {
                        &&& grads.len() == spec.color_seq().len()
                        &&& #[trigger] colors_settled(
                            *num,
                            *color,
                            spec,
                            angles@,
                            wavelengths@,
                            sim,
                            grads,
                        )
                        &&& folded(
                            *num,
                            fold::targets_outcome(
                                *num,
                                *ph,
                                spec,
                                angles@,
                                wavelengths@,
                                sim,
                                spec.target_seq().len() as int,
                            ),
                            grads_joined(grads),
                            angles@.len() * wavelengths@.len(),
                            out,
                        )
                    }
            },
            Err(e) => {
                ||| exists|j: int|
                    {
                        &&& 0 <= j < spec.target_seq().len()
                        &&& #[trigger] fold::bucket_fault(spec, j) == Some(e)
                        &&& forall|i: int|
                            0 <= i < j ==> #[trigger] fold::bucket_fault(spec, i) is None
                    }
                ||| {
                    &&& forall|j: int|
                        0 <= j < spec.target_seq().len() ==> #[trigger] fold::bucket_fault(spec, j)
                            is None
                    &&& exists|grads: Seq<Seq<GradTerm>>|
                        {
                            &&& #[trigger] colors_settled(
                                *num,
                                *color,
                                spec,
                                angles@,
                                wavelengths@,
                                sim,
                                grads,
                            )
                            &&& grads.len() < spec.color_seq().len()
                            &&& color_outcome(
                                *num,
                                *color,
                                spec,
                                angles@,
                                wavelengths@,
                                sim,
                                grads.len() as int,
                                Err::<Seq<GradTerm>, NeedleFault>(e),
                            )
                        }
                }
            },
        },
{
    let es: Vec<Emission> = match emissions(num, ph, spec, angles, wavelengths, sim) {
        Ok(es) => es,
        Err(e) => {
            return Err(e);
        },
    };
    let gs: Vec<GradTerm> = match color_grads(num, color, spec, angles, wavelengths, sim) {
        Ok(gs) => gs,
        Err(e) => {
            proof {
                let grads = choose|grads: Seq<Seq<GradTerm>>|
                    {
                        &&& #[trigger] colors_settled(
                            *num,
                            *color,
                            spec,
                            angles@,
                            wavelengths@,
                            sim,
                            grads,
                        )
                        &&& grads.len() < spec.color_seq().len()
                        &&& color_outcome(
                            *num,
                            *color,
                            spec,
                            angles@,
                            wavelengths@,
                            sim,
                            grads.len() as int,
                            Err::<Seq<GradTerm>, NeedleFault>(e),
                        )
                    };
                assert(colors_settled(*num, *color, spec, angles@, wavelengths@, sim, grads));
            }
            return Err(e);
        },
    };
    let n: usize = angles.len() * wavelengths.len();
    Ok(fold_terms(num, &es, &gs, n))
}

} // verus!
