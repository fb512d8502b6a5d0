//! The analytic Jacobian: residual sensitivities times curve deposits.
use crate::merit::sensitivity::{CurveTerm, MeritSensitivity};
use crate::merit::CurveId;
use crate::numeric::Numeric;
use crate::scalar::Scalar;
use crate::text;
use crate::text::decimal_text;
use vstd::prelude::*;
use vstd::string::*;

pub mod rows;

verus! {

/// The storage slot of a curve among the deposits.
pub open spec fn channel_of(id: CurveId) -> Option<usize> {
    match id {
        CurveId::Rs => Some(0),
        CurveId::Rp => Some(1),
        CurveId::Ts => Some(2),
        CurveId::Tp => Some(3),
        _ => None,
    }
}

/// The curves with deposits, in the order of their slots.
pub fn deposit_channels() -> (r: [CurveId; 4])
    ensures
        forall|c: int| 0 <= c < 4 ==> channel_of(#[trigger] r@[c]) == Some(c as usize),
{
    [CurveId::Rs, CurveId::Rp, CurveId::Ts, CurveId::Tp]
}

/// The storage slot of a curve; none where a pass has no deposits for it.
pub fn deposit_channel(id: CurveId) -> (r: Option<usize>)
    ensures
        r == channel_of(id),
{
    match id {
        CurveId::Rs => Some(0),
        CurveId::Rp => Some(1),
        CurveId::Ts => Some(2),
        CurveId::Tp => Some(3),
        _ => None,
    }
}

/// Different curves have different slots.
pub proof fn channels_differ(a: CurveId, b: CurveId)
    requires
        channel_of(a) is Some,
        channel_of(a) == channel_of(b),
    ensures
        a == b,
{
}

/// Why deposits or a Jacobian were refused.
#[derive(Clone, Copy, Debug, PartialEq, Eq, Structural)]
pub enum JacobianFault {
    /// A point's row does not have four values per parameter.
    RowLength { stride: usize },
    /// A residual row's dependence is not known.
    Uncovered { row: usize },
    NoDeposits { row: usize, curve: CurveId },
    PointRange { row: usize, point: usize, points: usize },
}

/// The message of a fault.
pub open spec fn jacobian_text(f: JacobianFault) -> Seq<char> {
    match f {
        JacobianFault::RowLength { stride } =>
            "curve deposits: every point row must hold 4\u{b7}n_par = "@ + text::decimal(
            stride as nat,
        ) + " entries"@,
        JacobianFault::Uncovered { row } => "analytic jacobian: residual row "@ + text::decimal(
            row as nat,
        )
            + " has no curve sensitivity (phase target or color demand) \u{2014} use the finite-difference path"@,
        JacobianFault::NoDeposits { row, curve } =>
            "analytic jacobian: no deposits for curve "@ + curve.code() + " (row "@
            + text::decimal(row as nat) + ")"@,
        JacobianFault::PointRange { row, point, points } => "analytic jacobian: row "@
            + text::decimal(row as nat) + " reads grid point "@ + text::decimal(point as nat)
            + ", but the deposits cover "@ + text::decimal(points as nat) + " points"@,
    }
}

impl JacobianFault {
    /// The message.
    pub fn message(&self) -> (r: String)
        ensures
            r@ == jacobian_text(*self),
    {
        match self {
            JacobianFault::RowLength { stride } => String::from_str(
                "curve deposits: every point row must hold 4\u{b7}n_par = ",
            ).concat(decimal_text(*stride as u64).as_str()).concat(" entries"),
            JacobianFault::Uncovered { row } => String::from_str(
                "analytic jacobian: residual row ",
            ).concat(decimal_text(*row as u64).as_str()).concat(
                " has no curve sensitivity (phase target or color demand) \u{2014} use the finite-difference path",
            ),
            JacobianFault::NoDeposits { row, curve } => String::from_str(
                "analytic jacobian: no deposits for curve ",
            ).concat(curve.as_str()).concat(" (row ").concat(
                decimal_text(*row as u64).as_str(),
            ).concat(")"),
            JacobianFault::PointRange { row, point, points } => String::from_str(
                "analytic jacobian: row ",
            ).concat(decimal_text(*row as u64).as_str()).concat(" reads grid point ").concat(
                decimal_text(*point as u64).as_str(),
            ).concat(", but the deposits cover ").concat(
                decimal_text(*points as u64).as_str(),
            ).concat(" points"),
        }
    }
}

/// How each curve value moves with each optimized thickness.
#[derive(Debug)]
pub struct CurveDeposits {
    rows: Vec<Vec<Scalar>>,
    n_par: usize,
}

impl CurveDeposits {
    pub closed spec fn points(&self) -> nat {
        self.rows@.len()
    }

    pub closed spec fn parameters(&self) -> nat {
        self.n_par as nat
    }

    /// The derivative of the curve in slot `channel` at a grid point by one
    /// parameter.
    pub closed spec fn slope(&self, channel: int, point: int, par: int) -> Scalar {
        self.rows@[point]@[channel * self.n_par + par]
    }

    /// Every point has four values per parameter.
    pub closed spec fn wf(&self) -> bool {
        &&& 4 * self.n_par <= usize::MAX
        &&& forall|p: int|
            0 <= p < self.rows@.len() ==> (#[trigger] self.rows@[p])@.len() == 4 * self.n_par
    }

    /// Takes one row per grid point, each with the parameters of one curve
    /// after those of the other.
    pub fn from_point_rows(rows: Vec<Vec<Scalar>>, n_par: usize) -> (r: Result<
        Self,
        JacobianFault,
    >)
        requires
            4 * n_par <= usize::MAX,
        ensures
            match r {
                Ok(d) => {
                    &&& forall|p: int|
                        0 <= p < rows@.len() ==> (#[trigger] rows@[p])@.len() == 4 * n_par
                    &&& d.wf()
                    &&& d.points() == rows@.len()
                    &&& d.parameters() == n_par
                    &&& forall|c: int, p: int, k: int|
                        0 <= c < 4 && 0 <= p < rows@.len() && 0 <= k < n_par
                            ==> #[trigger] d.slope(c, p, k) == rows@[p]@[c * n_par + k]
                },
                Err(e) => {
                    &&& e == JacobianFault::RowLength { stride: (4 * n_par) as usize }
                    &&& exists|p: int|
                        0 <= p < rows@.len() && (#[trigger] rows@[p])@.len() != 4 * n_par
                },
            },
    {
        let stride: usize = 4 * n_par;
        let mut p: usize = 0;
        while p < rows.len()
            invariant
                stride == 4 * n_par,
                p <= rows@.len(),
                forall|q: int| 0 <= q < p ==> (#[trigger] rows@[q])@.len() == stride,
            decreases rows.len() - p,
        {
            if rows[p].len() != stride {
                assert(rows@[p as int]@.len() != stride);
                return Err(JacobianFault::RowLength { stride });
            }
            p += 1;
        }
        Ok(CurveDeposits { rows, n_par })
    }

    /// How many grid points there are.
    pub fn n_points(&self) -> (r: usize)
        ensures
            r == self.points(),
    {
        self.rows.len()
    }

    /// How many parameters there are.
    pub fn n_par(&self) -> (r: usize)
        ensures
            r == self.parameters(),
    {
        self.n_par
    }

    /// One derivative.
    pub fn get(&self, channel: usize, point: usize, par: usize) -> (r: Scalar)
        requires
            self.wf(),
            channel < 4,
            point < self.points(),
            par < self.parameters(),
        ensures
            r == self.slope(channel as int, point as int, par as int),
    {
        assert(channel * self.n_par + par < 4 * self.n_par) by (nonlinear_arith)
            requires
                channel < 4,
                par < self.n_par,
        ;
        assert(channel * self.n_par <= channel * self.n_par + par);
        assert(self.rows@[point as int]@.len() == 4 * self.n_par);
        self.rows[point][channel * self.n_par + par]
    }
}

/// The flat grid point of a term.
pub open spec fn point_of(t: CurveTerm, n_wav: usize) -> int {
    t.angle_row * n_wav + t.wavelength
}

/// What is wrong with a term.
pub open spec fn term_fault(
    dep: CurveDeposits,
    n_wav: usize,
    row: int,
    t: CurveTerm,
) -> Option<JacobianFault> {
    if channel_of(t.curve) is None {
        Some(JacobianFault::NoDeposits { row: row as usize, curve: t.curve })
    } else if point_of(t, n_wav) >= dep.points() {
        Some(
            JacobianFault::PointRange {
                row: row as usize,
                point: point_of(t, n_wav) as usize,
                points: dep.points() as usize,
            },
        )
    } else {
        None
    }
}

/// The sum over the first `t` terms of a row for one parameter, from the left.
pub open spec fn element<A: Numeric>(
    num: A,
    row: Seq<CurveTerm>,
    dep: CurveDeposits,
    n_wav: usize,
    par: int,
    t: int,
) -> Scalar
    decreases t,
{
    if t <= 0 {
        Scalar::zero()
    } else {
        let term = row[t - 1];
        num.sum(
            element(num, row, dep, n_wav, par, t - 1),
            num.product(
                term.d_residual,
                dep.slope(channel_of(term.curve)->0 as int, point_of(term, n_wav), par),
            ),
        )
    }
}

/// The flat matrix with the rows before `i` complete, row `i` summed over its
/// first `t` terms, and zeros after it.
pub open spec fn matrix_upto<A: Numeric>(
    num: A,
    sens: MeritSensitivity,
    dep: CurveDeposits,
    n_wav: usize,
    i: int,
    t: int,
) -> Seq<Scalar> {
    let n = dep.parameters();
    Seq::new(
        sens.rows@.len() * n,
        |x: int|
            {
                let r = x / n as int;
                let row = sens.rows@[r]@;
                if r < i {
                    element(num, row, dep, n_wav, x % n as int, row.len() as int)
                } else if r == i {
                    element(num, row, dep, n_wav, x % n as int, t)
                } else {
                    Scalar::zero()
                }
            },
    )
}

/// The first failing term, and where it stands.
pub open spec fn fails_at(
    sens: MeritSensitivity,
    dep: CurveDeposits,
    n_wav: usize,
    i: int,
    t: int,
    e: JacobianFault,
) -> bool {
    &&& 0 <= i < sens.rows@.len()
    &&& 0 <= t < sens.rows@[i]@.len()
    &&& term_fault(dep, n_wav, i, sens.rows@[i]@[t]) == Some(e)
    &&& forall|a: int, b: int|
        0 <= a < sens.rows@.len() && 0 <= b < sens.rows@[a]@.len() && (a < i || (a == i && b
            < t)) ==> term_fault(dep, n_wav, a, #[trigger] sens.rows@[a]@[b]) is None
}

/// No term fails.
pub open spec fn all_terms_good(sens: MeritSensitivity, dep: CurveDeposits, n_wav: usize) -> bool {
    forall|a: int, b: int|
        0 <= a < sens.rows@.len() && 0 <= b < sens.rows@[a]@.len() ==> term_fault(
            dep,
            n_wav,
            a,
            #[trigger] sens.rows@[a]@[b],
        ) is None
}

/// Assembles the Jacobian row by row. A row whose dependence is not known is
/// refused before anything is written; a failing term leaves what was summed
/// before it.
pub fn assemble_jacobian<A: Numeric>(
    num: &A,
    sens: &MeritSensitivity,
    dep: &CurveDeposits,
    n_wav: usize,
    jac: &mut Vec<Scalar>,
) -> (r: Result<(), JacobianFault>)
    requires
        num.sound(),
        dep.wf(),
        sens.rows@.len() * dep.parameters() <= usize::MAX,
        forall|a: int, b: int|
            0 <= a < sens.rows@.len() && 0 <= b < sens.rows@[a]@.len() ==> point_of(
                #[trigger] sens.rows@[a]@[b],
                n_wav,
            ) <= usize::MAX,
    ensures
        match r {
            Ok(_) => {
                &&& sens.uncovered@.len() == 0
                &&& all_terms_good(*sens, *dep, n_wav)
                &&& final(jac)@ == matrix_upto(
                    *num,
                    *sens,
                    *dep,
                    n_wav,
                    sens.rows@.len() as int,
                    0,
                )
            },
            Err(e) => if sens.uncovered@.len() > 0 {
                &&& e == JacobianFault::Uncovered { row: sens.uncovered@[0] }
                &&& final(jac)@ == old(jac)@
            } else {
                exists|i: int, t: int|
                    {
                        &&& #[trigger] fails_at(*sens, *dep, n_wav, i, t, e)
                        &&& final(jac)@ == matrix_upto(*num, *sens, *dep, n_wav, i, t)
                    }
            },
        },
{
    if sens.uncovered.len() > 0 {
        return Err(JacobianFault::Uncovered { row: sens.uncovered[0] });
    }
    let m: usize = sens.rows.len();
    let n: usize = dep.n_par();
    let size: usize = m * n;
    jac.clear();
    let mut z: usize = 0;
    while z < size
        invariant
            z <= size,
            jac@.len() == z,
            forall|x: int| 0 <= x < z ==> (#[trigger] jac@[x]) == Scalar::zero(),
        decreases size - z,
    {
        jac.push(Scalar::zero());
        z += 1;
    }
    assert(jac@ =~= matrix_upto(*num, *sens, *dep, n_wav, 0, 0)) by {
        let goal = matrix_upto(*num, *sens, *dep, n_wav, 0, 0);
        assert forall|x: int| 0 <= x < size implies #[trigger] goal[x] == Scalar::zero() by {
            quotient_bounds(x, m as int, n as int);
        }
    }
    let mut i: usize = 0;
    while i < m
        invariant
            num.sound(),
            dep.wf(),
            m == sens.rows@.len(),
            n == dep.parameters(),
            size == m * n,
            sens.uncovered@.len() == 0,
            forall|a: int, b: int|
                0 <= a < sens.rows@.len() && 0 <= b < sens.rows@[a]@.len() ==> point_of(
                    #[trigger] sens.rows@[a]@[b],
                    n_wav,
                ) <= usize::MAX,
            i <= m,
            forall|a: int, b: int|
                0 <= a < i && 0 <= b < sens.rows@[a]@.len() ==> term_fault(
                    *dep,
                    n_wav,
                    a,
                    #[trigger] sens.rows@[a]@[b],
                ) is None,
            jac@ == matrix_upto(*num, *sens, *dep, n_wav, i as int, 0),
        decreases m - i,
    {
        let row: &Vec<CurveTerm> = &sens.rows[i];
        let mut t: usize = 0;
        while t < row.len()
            invariant
                num.sound(),
                dep.wf(),
                m == sens.rows@.len(),
                n == dep.parameters(),
                size == m * n,
                sens.uncovered@.len() == 0,
                forall|a: int, b: int|
                    0 <= a < sens.rows@.len() && 0 <= b < sens.rows@[a]@.len() ==> point_of(
                        #[trigger] sens.rows@[a]@[b],
                        n_wav,
                    ) <= usize::MAX,
                i < m,
                *row == sens.rows@[i as int],
                t <= row@.len(),
                forall|a: int, b: int|
                    0 <= a < sens.rows@.len() && 0 <= b < sens.rows@[a]@.len() && (a < i || (a
                        == i && b < t)) ==> term_fault(
                        *dep,
                        n_wav,
                        a,
                        #[trigger] sens.rows@[a]@[b],
                    ) is None,
                jac@ == matrix_upto(*num, *sens, *dep, n_wav, i as int, t as int),
            decreases row.len() - t,
        {
            let term: CurveTerm = row[t];
            assert(term == sens.rows@[i as int]@[t as int]);
            assert(point_of(sens.rows@[i as int]@[t as int], n_wav) <= usize::MAX);
            let channel: usize = match deposit_channel(term.curve) {
                Some(c) => c,
                None => {
                    let e: JacobianFault = JacobianFault::NoDeposits {
                        row: i,
                        curve: term.curve,
                    };
                    assert(fails_at(*sens, *dep, n_wav, i as int, t as int, e));
                    return Err(e);
                },
            };
            assert(0 <= term.angle_row * n_wav) by (nonlinear_arith)
                requires
                    0 <= term.angle_row,
                    0 <= n_wav,
            ;
            let point: usize = term.angle_row * n_wav + term.wavelength;
            if point >= dep.n_points() {
                let e: JacobianFault = JacobianFault::PointRange {
                    row: i,
                    point,
                    points: dep.n_points(),
                };
                assert(fails_at(*sens, *dep, n_wav, i as int, t as int, e));
                return Err(e);
            }
            add_term(num, dep, channel, point, term, i, jac, Ghost(*sens), Ghost(n_wav), t);
            t += 1;
        }
        assert(matrix_upto(*num, *sens, *dep, n_wav, i as int, t as int) =~= matrix_upto(
            *num,
            *sens,
            *dep,
            n_wav,
            i + 1,
            0,
        )) by {
            let a = matrix_upto(*num, *sens, *dep, n_wav, i as int, t as int);
            let b = matrix_upto(*num, *sens, *dep, n_wav, i + 1, 0);
            assert forall|x: int| 0 <= x < a.len() implies a[x] == b[x] by {
                quotient_bounds(x, m as int, n as int);
            }
        }
        i += 1;
    }
    Ok(())
}

proof fn quotient_bounds(x: int, m: int, n: int)
    requires
        0 <= x < m * n,
        0 <= m,
        0 <= n,
    ensures
        n > 0,
        0 <= x / n < m,
        0 <= x % n < n,
        x == (x / n) * n + x % n,
{
    assert(n > 0) by (nonlinear_arith)
        requires
            0 <= x < m * n,
            0 <= n,
    ;
    vstd::arithmetic::div_mod::lemma_fundamental_div_mod(x, n);
    assert(0 <= x / n < m && 0 <= x % n < n && x == (x / n) * n + x % n) by (nonlinear_arith)
        requires
            0 <= x < m * n,
            n > 0,
            x == n * (x / n) + x % n,
    ;
}

proof fn position(i: int, k: int, m: int, n: int)
    requires
        0 <= i < m,
        0 <= k < n,
    ensures
        0 <= i * n + k < m * n,
        (i * n + k) / n == i,
        (i * n + k) % n == k,
{
    assert(0 <= i * n + k < m * n) by (nonlinear_arith)
        requires
            0 <= i < m,
            0 <= k < n,
    ;
    vstd::arithmetic::div_mod::lemma_fundamental_div_mod_converse(i * n + k, n, i, k);
}

/// Adds one term to its row.
fn add_term<A: Numeric>(
    num: &A,
    dep: &CurveDeposits,
    channel: usize,
    point: usize,
    term: CurveTerm,
    i: usize,
    jac: &mut Vec<Scalar>,
    Ghost(sens): Ghost<MeritSensitivity>,
    Ghost(n_wav): Ghost<usize>,
    t: usize,
)
    requires
        num.sound(),
        dep.wf(),
        channel < 4,
        channel_of(term.curve) == Some(channel),
        point == point_of(term, n_wav),
        point < dep.points(),
        i < sens.rows@.len(),
        t < sens.rows@[i as int]@.len(),
        term == sens.rows@[i as int]@[t as int],
        sens.rows@.len() * dep.parameters() <= usize::MAX,
        old(jac)@ == matrix_upto(*num, sens, *dep, n_wav, i as int, t as int),
    ensures
        final(jac)@ == matrix_upto(*num, sens, *dep, n_wav, i as int, t + 1),
{
    let n: usize = dep.n_par();
    let ghost m = sens.rows@.len() as int;
    let ghost start = jac@;
    let ghost goal = matrix_upto(*num, sens, *dep, n_wav, i as int, t + 1);
    let mut k: usize = 0;
    while k < n
        invariant
            num.sound(),
            dep.wf(),
            n == dep.parameters(),
            channel < 4,
            channel_of(term.curve) == Some(channel),
            point == point_of(term, n_wav),
            point < dep.points(),
            m == sens.rows@.len(),
            i < m,
            t < sens.rows@[i as int]@.len(),
            term == sens.rows@[i as int]@[t as int],
            m * n <= usize::MAX,
            start == matrix_upto(*num, sens, *dep, n_wav, i as int, t as int),
            goal == matrix_upto(*num, sens, *dep, n_wav, i as int, t + 1),
            jac@.len() == m * n,
            k <= n,
            forall|x: int|
                0 <= x < m * n ==> (#[trigger] jac@[x]) == (if i * n <= x < i * n + k {
                    goal[x]
                } else {
                    start[x]
                }),
        decreases n - k,
    {
        proof {
            position(i as int, k as int, m, n as int);
            assert(0 <= i * n) by (nonlinear_arith)
                requires
                    0 <= i,
                    0 <= n,
            ;
        }
        let x: usize = i * n + k;
        let g: Scalar = dep.get(channel, point, k);
        let v: Scalar = num.plus(jac[x], num.times(term.d_residual, g));
        assert(v == goal[x as int]);
        jac.set(x, v);
        k += 1;
    }
    assert(jac@ =~= goal) by {
        assert forall|x: int| 0 <= x < m * n implies jac@[x] == goal[x] by {
            quotient_bounds(x, m, n as int);
            if !(i * n <= x < i * n + n) {
                assert(x / n as int != i) by (nonlinear_arith)
                    requires
                        x == (x / n as int) * n + x % n as int,
                        0 <= x % n as int,
                        x % (n as int) < n,
                        !(i * n <= x < i * n + n),
                ;
            }
        }
    }
}

} // verus!
