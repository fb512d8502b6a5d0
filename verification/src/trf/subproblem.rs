//! The trust-region subproblem on the triangular factor.
use crate::linalg;
use crate::linalg::{back_substitute, factor_damped, forward_substitute_transpose};
use crate::numeric;
use crate::numeric::{dot, norm, scale_vec, Numeric};
use crate::scalar;
use crate::scalar::Scalar;
use vstd::prelude::*;

verus! {

/// The double's epsilon.
pub const EPS_BITS: u64 = 0x3cb0_0000_0000_0000;

/// Relative tolerance of the radius equation: 0.01.
pub const ALPHA_RTOL_BITS: u64 = 0x3f84_7ae1_47ae_147b;

/// Fraction of the upper bound that damping starts from: 0.001.
pub const ALPHA_SEED_BITS: u64 = 0x3f50_624d_d2f1_a9fc;

/// How many Newton steps the radius equation gets.
pub const ALPHA_MAX_ITER: usize = 10;

/// The least magnitude on the diagonal, of the first `k` entries.
pub open spec fn least_pivot(r: Seq<Seq<Scalar>>, k: int) -> Scalar
    decreases k,
{
    if k <= 0 {
        Scalar::infinity()
    } else {
        scalar::lesser(least_pivot(r, k - 1), scalar::absolute(r[k - 1][k - 1]))
    }
}

/// The greatest magnitude on the diagonal, of the first `k` entries.
pub open spec fn greatest_pivot(r: Seq<Seq<Scalar>>, k: int) -> Scalar
    decreases k,
{
    if k <= 0 {
        Scalar::zero()
    } else {
        scalar::greater(greatest_pivot(r, k - 1), scalar::absolute(r[k - 1][k - 1]))
    }
}

/// The factor of an m-row system has full rank.
pub open spec fn has_full_rank<A: Numeric>(
    num: A,
    r: Seq<Seq<Scalar>>,
    m: usize,
    n: int,
) -> bool {
    m >= n && scalar::less(
        num.product(
            num.product((Scalar { bits: EPS_BITS }), num.whole(m)),
            greatest_pivot(r, n),
        ),
        least_pivot(r, n),
    )
}

/// The step at damping `alpha`, its norm, and the norm that its derivative
/// needs; nothing if the damped system cannot be solved.
pub open spec fn damped_at<A: Numeric>(
    num: A,
    r: Seq<Seq<Scalar>>,
    q: Seq<Scalar>,
    n: int,
    alpha: Scalar,
) -> Option<(Seq<Scalar>, Scalar, Scalar)> {
    let root = num.square_root(scalar::greater(alpha, Scalar::zero()));
    let diag = Seq::new(n as nat, |k: int| root);
    match linalg::damped_factor(num, r, q, diag) {
        None => None,
        Some((h, c)) => match linalg::upper_tail(num, h, c, n, 0) {
            None => None,
            Some(p) => match linalg::transposed_head(num, h, p, n) {
                None => None,
                Some(w) => Some((p, numeric::norm_of(num, p), numeric::norm_of(num, w))),
            },
        },
    }
}

/// Solves the damped system.
pub fn damped_step<A: Numeric>(
    num: &A,
    r_tri: &Vec<Vec<Scalar>>,
    qtf: &Vec<Scalar>,
    n: usize,
    alpha: Scalar,
) -> (s: Option<(Vec<Scalar>, Scalar, Scalar)>)
    requires
        num.sound(),
        r_tri@.len() == n,
        qtf@.len() == n,
        linalg::wide(linalg::grid(r_tri@), n as int),
        linalg::grid(r_tri@) == linalg::triangle(linalg::grid(r_tri@), n as int),
    ensures
        match s {
            None => damped_at(*num, linalg::grid(r_tri@), qtf@, n as int, alpha) is None,
            Some((p, pn, qn)) => {
                &&& damped_at(*num, linalg::grid(r_tri@), qtf@, n as int, alpha) == Some(
                    (p@, pn, qn),
                )
                &&& p@.len() == n
            },
        },
{
    let root: Scalar = num.root(alpha.max(Scalar::zero()));
    let diag: Vec<Scalar> = repeat(root, n);
    match factor_damped(num, r_tri, qtf, &diag) {
        Err(_) => None,
        Ok((h, c)) => match back_substitute(num, &h, &c, n) {
            Err(_) => None,
            Ok(p) => match forward_substitute_transpose(num, &h, &p, n) {
                Err(_) => None,
                Ok(w) => {
                    let pn: Scalar = norm(num, &p);
                    let wn: Scalar = norm(num, &w);
                    Some((p, pn, wn))
                },
            },
        },
    }
}

fn repeat(x: Scalar, n: usize) -> (r: Vec<Scalar>)
    ensures
        r@ == Seq::new(n as nat, |k: int| x),
{
    let mut out: Vec<Scalar> = Vec::with_capacity(n);
    let mut i: usize = 0;
    while i < n
        invariant
            i <= n,
            out@ == Seq::new(i as nat, |k: int| x),
        decreases n - i,
    {
        out.push(x);
        i += 1;
        assert(out@ =~= Seq::new(i as nat, |k: int| x));
    }
    out
}

/// The damping to start from between two bounds.
pub open spec fn seed<A: Numeric>(num: A, lower: Scalar, upper: Scalar) -> Scalar {
    scalar::greater(
        num.product((Scalar { bits: ALPHA_SEED_BITS }), upper),
        num.square_root(num.product(lower, upper)),
    )
}

/// The step and the damping after at most `k` Newton steps on the radius
/// equation: the damping is kept between its bounds, the bounds close in on
/// it, and the iteration stops where the equation is flat or met.
pub open spec fn newton<A: Numeric>(
    num: A,
    r: Seq<Seq<Scalar>>,
    q: Seq<Scalar>,
    n: int,
    delta: Scalar,
    alpha_in: Scalar,
    lower: Scalar,
    upper: Scalar,
    k: int,
) -> Option<(Seq<Scalar>, Scalar)>
    decreases k,
{
    let alpha = if scalar::less(alpha_in, lower) || scalar::less(upper, alpha_in) {
        seed(num, lower, upper)
    } else {
        alpha_in
    };
    match damped_at(num, r, q, n, alpha) {
        None => None,
        Some((p, pn, qn)) => {
            let phi = num.difference(pn, delta);
            let slope = if scalar::less(Scalar::zero(), pn) {
                num.quotient(scalar::negated(num.product(qn, qn)), pn)
            } else {
                Scalar::zero()
            };
            let upper2 = if scalar::less(phi, Scalar::zero()) {
                alpha
            } else {
                upper
            };
            if scalar::same(slope, Scalar::zero()) {
                Some((p, alpha))
            } else {
                let ratio = num.quotient(phi, slope);
                let lower2 = scalar::greater(lower, num.difference(alpha, ratio));
                let alpha2 = num.difference(
                    alpha,
                    num.quotient(num.product(num.sum(phi, delta), ratio), delta),
                );
                if k <= 1 || scalar::less(
                    scalar::absolute(phi),
                    num.product((Scalar { bits: ALPHA_RTOL_BITS }), delta),
                ) {
                    Some((p, alpha2))
                } else {
                    newton(num, r, q, n, delta, alpha2, lower2, upper2, k - 1)
                }
            }
        },
    }
}

/// The step brought onto the boundary.
pub open spec fn onto_boundary<A: Numeric>(
    num: A,
    p: Seq<Scalar>,
    delta: Scalar,
) -> Seq<Scalar> {
    let pn = numeric::norm_of(num, p);
    if scalar::less(Scalar::zero(), pn) {
        numeric::scaled(num, p, num.quotient(delta, pn))
    } else {
        p
    }
}

/// The step from the damping bounds on.
pub open spec fn bounded_step<A: Numeric>(
    num: A,
    r: Seq<Seq<Scalar>>,
    q: Seq<Scalar>,
    n: int,
    delta: Scalar,
    full_rank: bool,
    initial: Scalar,
    lower: Scalar,
    upper: Scalar,
) -> Option<(Seq<Scalar>, Scalar)> {
    let start = if !full_rank && scalar::same(initial, Scalar::zero()) {
        seed(num, lower, upper)
    } else {
        initial
    };
    match newton(num, r, q, n, delta, start, lower, upper, ALPHA_MAX_ITER as int) {
        None => None,
        Some((p, alpha)) => Some((onto_boundary(num, p, delta), alpha)),
    }
}

/// The step that minimizes the model within `delta`, and its damping. A
/// full-rank system takes the undamped step where that fits.
pub open spec fn region_step<A: Numeric>(
    num: A,
    r: Seq<Seq<Scalar>>,
    q: Seq<Scalar>,
    m: usize,
    n: int,
    g_norm: Scalar,
    delta: Scalar,
    initial: Scalar,
) -> Option<(Seq<Scalar>, Scalar)> {
    let upper = num.quotient(g_norm, delta);
    if has_full_rank(num, r, m, n) {
        match linalg::upper_tail(num, r, numeric::flipped(q), n, 0) {
            None => None,
            Some(p) => {
                let pn = numeric::norm_of(num, p);
                if scalar::at_most(pn, delta) {
                    Some((p, Scalar::zero()))
                } else {
                    match linalg::transposed_head(num, r, p, n) {
                        None => None,
                        Some(w) => {
                            let slope = num.quotient(
                                scalar::negated(numeric::dot_of(num, w, w)),
                                pn,
                            );
                            let lower = if scalar::same(slope, Scalar::zero()) {
                                Scalar::zero()
                            } else {
                                num.quotient(
                                    scalar::negated(num.difference(pn, delta)),
                                    slope,
                                )
                            };
                            bounded_step(num, r, q, n, delta, true, initial, lower, upper)
                        },
                    }
                }
            },
        }
    } else {
        bounded_step(num, r, q, n, delta, false, initial, Scalar::zero(), upper)
    }
}

fn solve_bounded<A: Numeric>(
    num: &A,
    r_tri: &Vec<Vec<Scalar>>,
    qtf: &Vec<Scalar>,
    n: usize,
    delta: Scalar,
    full_rank: bool,
    initial: Scalar,
    lower0: Scalar,
    upper0: Scalar,
) -> (s: Option<(Vec<Scalar>, Scalar)>)
    requires
        num.sound(),
        r_tri@.len() == n,
        qtf@.len() == n,
        linalg::wide(linalg::grid(r_tri@), n as int),
        linalg::grid(r_tri@) == linalg::triangle(linalg::grid(r_tri@), n as int),
    ensures
        match s {
            None => bounded_step(
                *num,
                linalg::grid(r_tri@),
                qtf@,
                n as int,
                delta,
                full_rank,
                initial,
                lower0,
                upper0,
            ) is None,
            Some((p, alpha)) => {
                &&& bounded_step(
                    *num,
                    linalg::grid(r_tri@),
                    qtf@,
                    n as int,
                    delta,
                    full_rank,
                    initial,
                    lower0,
                    upper0,
                ) == Some((p@, alpha))
                &&& p@.len() == n
            },
        },
{
    let ghost r = linalg::grid(r_tri@);
    let mut alpha: Scalar = if !full_rank && initial.same_value(Scalar::zero()) {
        num.times(Scalar::from_bits(ALPHA_SEED_BITS), upper0).max(
            num.root(num.times(lower0, upper0)),
        )
    } else {
        initial
    };
    let ghost start = alpha;
    let mut lower: Scalar = lower0;
    let mut upper: Scalar = upper0;
    let mut left: usize = ALPHA_MAX_ITER;
    loop
        invariant
            num.sound(),
            r == linalg::grid(r_tri@),
            r_tri@.len() == n,
            qtf@.len() == n,
            linalg::wide(r, n as int),
            r == linalg::triangle(r, n as int),
            1 <= left <= ALPHA_MAX_ITER,
            start == if !full_rank && scalar::same(initial, Scalar::zero()) {
                seed(*num, lower0, upper0)
            } else {
                initial
            },
            newton(*num, r, qtf@, n as int, delta, alpha, lower, upper, left as int) == newton(
                *num,
                r,
                qtf@,
                n as int,
                delta,
                start,
                lower0,
                upper0,
                ALPHA_MAX_ITER as int,
            ),
        decreases left,
    {
        if alpha.lt(lower) || alpha.gt(upper) {
            alpha = num.times(Scalar::from_bits(ALPHA_SEED_BITS), upper).max(
                num.root(num.times(lower, upper)),
            );
        }
        let (p, pn, qn): (Vec<Scalar>, Scalar, Scalar) = match damped_step(
            num,
            r_tri,
            qtf,
            n,
            alpha,
        ) {
            None => {
                return None;
            },
            Some(t) => t,
        };
        let phi: Scalar = num.minus(pn, delta);
        let slope: Scalar = if pn.gt(Scalar::zero()) {
            num.over(num.times(qn, qn).neg(), pn)
        } else {
            Scalar::zero()
        };
        if phi.lt(Scalar::zero()) {
            upper = alpha;
        }
        let flat: bool = slope.same_value(Scalar::zero());
        let mut met: bool = false;
        if !flat {
            let ratio: Scalar = num.over(phi, slope);
            lower = lower.max(num.minus(alpha, ratio));
            alpha = num.minus(
                alpha,
                num.over(num.times(num.plus(phi, delta), ratio), delta),
            );
            met = phi.abs().lt(num.times(Scalar::from_bits(ALPHA_RTOL_BITS), delta));
        }
        if flat || met || left == 1 {
            let size: Scalar = norm(num, &p);
            if size.gt(Scalar::zero()) {
                let scaled: Vec<Scalar> = scale_vec(num, &p, num.over(delta, size));
                return Some((scaled, alpha));
            }
            return Some((p, alpha));
        }
        left -= 1;
    }
}

/// Minimizes the model within `delta` and returns the step with its damping;
/// nothing if a system on the way cannot be solved.
pub fn solve_lsq_trust_region<A: Numeric>(
    num: &A,
    r_tri: &Vec<Vec<Scalar>>,
    qtf: &Vec<Scalar>,
    m: usize,
    n: usize,
    g_h_norm: Scalar,
    delta: Scalar,
    initial_alpha: Scalar,
) -> (s: Option<(Vec<Scalar>, Scalar)>)
    requires
        num.sound(),
        r_tri@.len() == n,
        qtf@.len() == n,
        linalg::wide(linalg::grid(r_tri@), n as int),
        linalg::grid(r_tri@) == linalg::triangle(linalg::grid(r_tri@), n as int),
    ensures
        match s {
            None => region_step(
                *num,
                linalg::grid(r_tri@),
                qtf@,
                m,
                n as int,
                g_h_norm,
                delta,
                initial_alpha,
            ) is None,
            Some((p, alpha)) => {
                &&& region_step(
                    *num,
                    linalg::grid(r_tri@),
                    qtf@,
                    m,
                    n as int,
                    g_h_norm,
                    delta,
                    initial_alpha,
                ) == Some((p@, alpha))
                &&& p@.len() == n
            },
        },
{
    let ghost r = linalg::grid(r_tri@);
    let mut rmin: Scalar = Scalar::infinity();
    let mut rmax: Scalar = Scalar::zero();
    let mut i: usize = 0;
    while i < n
        invariant
            r == linalg::grid(r_tri@),
            r_tri@.len() == n,
            linalg::wide(r, n as int),
            i <= n,
            rmin == least_pivot(r, i as int),
            rmax == greatest_pivot(r, i as int),
        decreases n - i,
    {
        assert(r[i as int].len() == n);
        let v: Scalar = r_tri[i][i].abs();
        rmin = rmin.min(v);
        rmax = rmax.max(v);
        i += 1;
    }
    let full_rank: bool = m >= n && rmin.gt(
        num.times(num.times(Scalar::from_bits(EPS_BITS), num.count(m)), rmax),
    );
    let upper: Scalar = num.over(g_h_norm, delta);
    if !full_rank {
        return solve_bounded(
            num,
            r_tri,
            qtf,
            n,
            delta,
            false,
            initial_alpha,
            Scalar::zero(),
            upper,
        );
    }
    let minus_q: Vec<Scalar> = numeric::neg(qtf);
    let p: Vec<Scalar> = match back_substitute(num, r_tri, &minus_q, n) {
        Err(_) => {
            return None;
        },
        Ok(p) => p,
    };
    let pn: Scalar = norm(num, &p);
    if pn.le(delta) {
        return Some((p, Scalar::zero()));
    }
    let w: Vec<Scalar> = match forward_substitute_transpose(num, r_tri, &p, n) {
        Err(_) => {
            return None;
        },
        Ok(w) => w,
    };
    let slope: Scalar = num.over(dot(num, &w, &w).neg(), pn);
    let lower: Scalar = if slope.same_value(Scalar::zero()) {
        Scalar::zero()
    } else {
        num.over(num.minus(pn, delta).neg(), slope)
    };
    solve_bounded(num, r_tri, qtf, n, delta, true, initial_alpha, lower, upper)
}

} // verus!
