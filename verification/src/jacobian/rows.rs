//! An entry of the matrix is the sum of its row's terms, each times the slope
//! of its curve.
use crate::jacobian::{channel_of, element, point_of, CurveDeposits};
use crate::merit::sensitivity::CurveTerm;
use crate::numeric::Numeric;
use crate::reading;
use crate::reading::{times, Reading};
use crate::scalar::Scalar;
use vstd::prelude::*;

verus! {

/// The slope of a term's curve at its grid point by a parameter.
pub open spec fn slope_under(dep: CurveDeposits, n_wav: usize, term: CurveTerm, par: int) -> Scalar {
    dep.slope(
        channel_of(term.curve)->0 as int,
        term.angle_row * n_wav + term.wavelength,
        par,
    )
}

/// The first `n` terms, each times the slope of its curve, added up.
pub open spec fn follow_up(
    k: Reading,
    row: Seq<CurveTerm>,
    dep: CurveDeposits,
    n_wav: usize,
    par: int,
    n: int,
) -> real
    decreases n,
{
    if n <= 0 {
        0real
    } else {
        follow_up(k, row, dep, n_wav, par, n - 1) + times(
            k.of(row[n - 1].d_residual),
            k.of(slope_under(dep, n_wav, row[n - 1], par)),
        )
    }
}

/// A residual's slope by a parameter follows the chain rule: the terms of its
/// row, each times the slope of its curve, add up.
pub proof fn an_entry_follows_the_chain_rule<A: Numeric>(
    num: A,
    k: Reading,
    row: Seq<CurveTerm>,
    dep: CurveDeposits,
    n_wav: usize,
    par: int,
    n: int,
)
    requires
        reading::exact(num, k),
        0 <= n <= row.len(),
        forall|t: int|
            0 <= t < row.len() ==> {
                let s = slope_under(dep, n_wav, #[trigger] row[t], par);
                &&& row[t].d_residual.finite() && s.finite()
                &&& k.holds(times(k.of(row[t].d_residual), k.of(s)))
            },
        forall|t: int|
            0 <= t <= row.len() ==> k.holds(#[trigger] follow_up(k, row, dep, n_wav, par, t)),
    ensures
        k.is(element(num, row, dep, n_wav, par, n), follow_up(k, row, dep, n_wav, par, n)),
    decreases n,
{
    if n > 0 {
        an_entry_follows_the_chain_rule(num, k, row, dep, n_wav, par, n - 1);
        assert(row[n - 1].d_residual.finite());
        assert(k.holds(follow_up(k, row, dep, n_wav, par, n)));
        assert(point_of(row[n - 1], n_wav) == row[n - 1].angle_row * n_wav + row[n - 1].wavelength);
    }
}

} // verus!
