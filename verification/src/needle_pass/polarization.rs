//! What a sweep over both polarizations gives of the sweeps over one.
use crate::arith;
use crate::needle_pass::buckets::NeedleTargets;
use crate::needle_pass::point;
use crate::needle_pass::point::{Drive, PointInputs, PointView};
use crate::needle_pass::scan;
use crate::needle_pass::scan::{Kernel, NeedlePassInput, NeedlePassResult, ScanFault};
use crate::needle_pass::sites::ScanSite;
use crate::scalar::Scalar;
use vstd::prelude::*;

verus! {

/// The same sweep with other polarizations on.
pub open spec fn switched<'a>(
    input: &NeedlePassInput<'a>,
    calc_s: bool,
    calc_p: bool,
) -> NeedlePassInput<'a> {
    NeedlePassInput { calc_s, calc_p, ..*input }
}

/// The kernel gives the same values for the same inputs and demand.
pub open spec fn steady<K: Fn(&PointInputs, Drive) -> Vec<Scalar>>(kernel: K) -> bool {
    forall|at: PointView, d: Drive, a: Vec<Scalar>, b: Vec<Scalar>| #[trigger]
        scan::answered(kernel, at, d, a) && #[trigger] scan::answered(kernel, at, d, b) ==> a@
            == b@
}

/// The answers that a sweep asks for lie within `bound`.
pub open spec fn modest<'a, K: Fn(&PointInputs, Drive) -> Vec<Scalar>>(
    kernel: K,
    input: &NeedlePassInput<'a>,
    sites: Seq<ScanSite>,
    value: spec_fn(Scalar) -> int,
    bound: int,
) -> bool {
    forall|k: int, branch: usize, which: Kernel, row: Vec<Scalar>| #[trigger]
        scan::answered(
            kernel,
            point::point_inputs(input, sites, k, branch),
            point::drive_of(input.fold, which, k),
            row,
        ) && 0 <= k < input.points() ==> arith::all_within(value, row@, bound)
}

/// The row that a call gets.
spec fn row_for<'a, K: Fn(&PointInputs, Drive) -> Vec<Scalar>>(
    kernel: K,
    input: &NeedlePassInput<'a>,
    sites: Seq<ScanSite>,
    k: int,
    call: (usize, Kernel),
) -> Vec<Scalar> {
    choose|row: Vec<Scalar>|
        scan::answered(
            kernel,
            point::point_inputs(input, sites, k, call.0),
            point::drive_of(input.fold, call.1, k),
            row,
        )
}

/// What the calls of spectral point `k` give at site `z`.
spec fn gains<'a, K: Fn(&PointInputs, Drive) -> Vec<Scalar>>(
    kernel: K,
    input: &NeedlePassInput<'a>,
    sites: Seq<ScanSite>,
    k: int,
    cs: Seq<(usize, Kernel)>,
    z: int,
) -> Seq<Scalar> {
    Seq::new(cs.len(), |i: int| row_for(kernel, input, sites, k, cs[i])@[z])
}

/// What the first `n` spectral points give at site `z`, all in all.
spec fn gain<'a, K: Fn(&PointInputs, Drive) -> Vec<Scalar>>(
    kernel: K,
    input: &NeedlePassInput<'a>,
    sites: Seq<ScanSite>,
    value: spec_fn(Scalar) -> int,
    bs: Seq<usize>,
    z: int,
    n: int,
) -> int
    decreases n,
{
    if n <= 0 {
        0
    } else {
        gain(kernel, input, sites, value, bs, z, n - 1) + arith::total(
            value,
            gains(
                kernel,
                input,
                sites,
                n - 1,
                scan::calls(bs, scan::active_at(input.fold, n - 1)),
                z,
            ),
        )
    }
}

proof fn gains_add_up<'a, K: Fn(&PointInputs, Drive) -> Vec<Scalar>>(
    kernel: K,
    input: &NeedlePassInput<'a>,
    sites: Seq<ScanSite>,
    value: spec_fn(Scalar) -> int,
    z: int,
    n: int,
)
    ensures
        gain(kernel, input, sites, value, scan::branches(true, true), z, n) == gain(
            kernel,
            input,
            sites,
            value,
            scan::branches(true, false),
            z,
            n,
        ) + gain(kernel, input, sites, value, scan::branches(false, true), z, n),
    decreases n,
{
    if n > 0 {
        gains_add_up(kernel, input, sites, value, z, n - 1);
        let k = n - 1;
        let ks = scan::active_at(input.fold, k);
        scan::both_branches_call_in_turn(ks);
        let s = scan::calls(scan::branches(true, false), ks);
        let p = scan::calls(scan::branches(false, true), ks);
        let a = gains(kernel, input, sites, k, s, z);
        let b = gains(kernel, input, sites, k, p, z);
        assert(gains(kernel, input, sites, k, s + p, z) =~= a + b);
        arith::total_of_two(value, a, b);
    }
}

proof fn active_are_few(f: &NeedleTargets, order: Seq<Kernel>, k: int, n: int)
    ensures
        scan::active(f, order, k, n).len() <= n || n < 0,
        n < 0 ==> scan::active(f, order, k, n).len() == 0,
    decreases n,
{
    if n > 0 {
        active_are_few(f, order, k, n - 1);
    }
}

/// How many kernels there are.
pub open spec fn kernel_count(f: &NeedleTargets) -> int {
    f.phi@.len() + 8int
}

proof fn calls_are_few(f: &NeedleTargets, bs: Seq<usize>, k: int)
    ensures
        scan::calls(bs, scan::active_at(f, k)).len() <= bs.len() * kernel_count(f),
{
    let order = scan::kernel_order(f.phi@.len());
    let ks = scan::active_at(f, k);
    assert(order.len() == kernel_count(f));
    active_are_few(f, order, k, order.len() as int);
    assert(bs.len() * ks.len() <= bs.len() * kernel_count(f)) by (nonlinear_arith)
        requires
            ks.len() <= kernel_count(f),
            0 <= bs.len(),
    ;
}

/// The rows of a point, read at one site, are what its calls give.
proof fn rows_are_gains<'a, K: Fn(&PointInputs, Drive) -> Vec<Scalar>>(
    kernel: K,
    input: &NeedlePassInput<'a>,
    sites: Seq<ScanSite>,
    k: int,
    cs: Seq<(usize, Kernel)>,
    rows: Seq<Vec<Scalar>>,
    z: int,
)
    requires
        steady(kernel),
        scan::point_answers(kernel, input, sites, k, cs, rows),
    ensures
        scan::column(rows, z) == gains(kernel, input, sites, k, cs, z),
{
    let got = scan::column(rows, z);
    let want = gains(kernel, input, sites, k, cs, z);
    assert forall|i: int| 0 <= i < got.len() implies #[trigger] got[i] == want[i] by {
        let at = point::point_inputs(input, sites, k, cs[i].0);
        let d = point::drive_of(input.fold, cs[i].1, k);
        assert(scan::answered(kernel, at, d, rows[i]));
        assert(scan::answered(kernel, at, d, row_for(kernel, input, sites, k, cs[i])));
    }
    assert(got =~= want);
}

/// The profile of one point is near what its calls give.
proof fn a_point_is_near<
    'a,
    K: Fn(&PointInputs, Drive) -> Vec<Scalar>,
    P: Fn(Scalar, Scalar) -> Scalar,
>(
    kernel: K,
    plus: P,
    input: &NeedlePassInput<'a>,
    sites: Seq<ScanSite>,
    value: spec_fn(Scalar) -> int,
    reach: int,
    slack: int,
    bound: int,
    bs: Seq<usize>,
    m: int,
    k: int,
    row: Seq<Scalar>,
    z: int,
)
    requires
        0 <= slack,
        0 <= bound,
        value(Scalar::zero()) == 0,
        arith::rounds(plus, value, reach, slack),
        scan::serves(kernel),
        steady(kernel),
        modest(kernel, input, sites, value, bound),
        m == bs.len() * kernel_count(input.fold),
        m * (bound + slack) <= reach,
        0 <= k < input.points(),
        scan::point_profile(kernel, plus, input, bs, sites, k, row),
        0 <= z < row.len(),
        row.len() == sites.len(),
    ensures
        arith::within(
            value(row[z]) - arith::total(
                value,
                gains(kernel, input, sites, k, scan::calls(bs, scan::active_at(input.fold, k)), z),
            ),
            m * slack,
        ),
        arith::within(value(row[z]), m * (bound + slack)),
{
    let cs = scan::calls(bs, scan::active_at(input.fold, k));
    calls_are_few(input.fold, bs, k);
    let rows = choose|rows: Seq<Vec<Scalar>>|
        {
            &&& scan::point_answers(kernel, input, sites, k, cs, rows)
            &&& #[trigger] scan::column_sums(plus, rows, row)
        };
    rows_are_gains(kernel, input, sites, k, cs, rows, z);
    let got = scan::column(rows, z);
    assert forall|i: int| 0 <= i < got.len() implies arith::within(
        value(#[trigger] got[i]),
        bound,
    ) by {
        let at = point::point_inputs(input, sites, k, cs[i].0);
        let d = point::drive_of(input.fold, cs[i].1, k);
        assert(scan::answered(kernel, at, d, rows[i]));
        let p = choose|p: PointInputs| #[trigger]
            call_ensures(kernel, (&p, d), rows[i]) && p@ == at;
        assert(rows[i]@.len() == p.depths@.len());
        assert(p@.depths == point::depths_of(sites));
        assert(arith::all_within(value, rows[i]@, bound));
        let _ = rows[i]@[z];
    }
    let n = cs.len() as int;
    assert(n * (bound + slack) <= m * (bound + slack) && n * slack <= m * slack)
        by (nonlinear_arith)
        requires
            n <= m,
            0 <= slack,
            0 <= bound,
    ;
    assert(arith::folds(plus, seq![Scalar::zero()] + got, row[z]));
    arith::a_sum_is_near(plus, value, reach, slack, bound, got, row[z]);
}

/// The points' profiles added up are near what all calls give.
proof fn the_points_are_near<
    'a,
    K: Fn(&PointInputs, Drive) -> Vec<Scalar>,
    P: Fn(Scalar, Scalar) -> Scalar,
>(
    kernel: K,
    plus: P,
    input: &NeedlePassInput<'a>,
    sites: Seq<ScanSite>,
    value: spec_fn(Scalar) -> int,
    reach: int,
    slack: int,
    bound: int,
    bs: Seq<usize>,
    m: int,
    rows: Seq<Vec<Scalar>>,
    z: int,
    n: int,
)
    requires
        0 <= slack,
        0 <= bound,
        value(Scalar::zero()) == 0,
        arith::rounds(plus, value, reach, slack),
        scan::serves(kernel),
        steady(kernel),
        modest(kernel, input, sites, value, bound),
        m == bs.len() * kernel_count(input.fold),
        m * (bound + slack) <= reach,
        rows.len() == input.points(),
        forall|k: int|
            0 <= k < rows.len() ==> (#[trigger] rows[k])@.len() == sites.len()
                && scan::point_profile(kernel, plus, input, bs, sites, k, rows[k]@),
        0 <= z < sites.len(),
        0 <= n <= rows.len(),
    ensures
        arith::within(
            arith::total(value, scan::column(rows, z).take(n)) - gain(
                kernel,
                input,
                sites,
                value,
                bs,
                z,
                n,
            ),
            n * (m * slack),
        ),
        arith::all_within(value, scan::column(rows, z).take(n), m * (bound + slack)),
    decreases n,
{
    let col = scan::column(rows, z);
    if n > 0 {
        the_points_are_near(
            kernel,
            plus,
            input,
            sites,
            value,
            reach,
            slack,
            bound,
            bs,
            m,
            rows,
            z,
            n - 1,
        );
        let k = n - 1;
        assert(rows[k]@.len() == sites.len());
        a_point_is_near(
            kernel,
            plus,
            input,
            sites,
            value,
            reach,
            slack,
            bound,
            bs,
            m,
            k,
            rows[k]@,
            z,
        );
        assert(col.take(n).drop_last() =~= col.take(n - 1));
        assert(col.take(n).last() == rows[k]@[z]);
        assert(n * (m * slack) == (n - 1) * (m * slack) + m * slack) by (nonlinear_arith);
        assert forall|i: int| 0 <= i < n implies arith::within(
            value(#[trigger] col.take(n)[i]),
            m * (bound + slack),
        ) by {
            if i < n - 1 {
                assert(col.take(n)[i] == col.take(n - 1)[i]);
            }
        }
    } else {
        assert(col.take(0) =~= seq![]);
        assert(0 * (m * slack) == 0) by (nonlinear_arith);
    }
}

/// A sweep's profile is near what all its calls give.
proof fn a_sweep_is_near<
    'a,
    K: Fn(&PointInputs, Drive) -> Vec<Scalar>,
    P: Fn(Scalar, Scalar) -> Scalar,
>(
    kernel: K,
    plus: P,
    input: &NeedlePassInput<'a>,
    sites: Seq<ScanSite>,
    value: spec_fn(Scalar) -> int,
    reach: int,
    slack: int,
    bound: int,
    calc_s: bool,
    calc_p: bool,
    m: int,
    out: NeedlePassResult,
    z: int,
)
    requires
        0 <= slack,
        0 <= bound,
        value(Scalar::zero()) == 0,
        arith::rounds(plus, value, reach, slack),
        scan::serves(kernel),
        steady(kernel),
        modest(kernel, input, sites, value, bound),
        m == scan::branches(calc_s, calc_p).len() * kernel_count(input.fold),
        m * (bound + slack) <= reach,
        input.points() * (m * (bound + slack) + slack) <= reach,
        scan::swept(kernel, plus, &switched(input, calc_s, calc_p), sites, Ok(out)),
        0 <= z < sites.len(),
    ensures
        arith::within(
            value(out.p_profile@[z]) - gain(
                kernel,
                input,
                sites,
                value,
                scan::branches(calc_s, calc_p),
                z,
                input.points() as int,
            ),
            input.points() * (m * slack) + input.points() * slack,
        ),
        arith::within(value(out.p_profile@[z]), reach),
{
    let other = switched(input, calc_s, calc_p);
    let bs = scan::branches(calc_s, calc_p);
    let n = input.points() as int;
    let rows = choose|rows: Seq<Vec<Scalar>>|
        {
            &&& rows.len() == other.points()
            &&& forall|k: int|
                0 <= k < rows.len() ==> (#[trigger] rows[k])@.len() == sites.len()
                    && scan::point_profile(kernel, plus, &other, bs, sites, k, rows[k]@)
            &&& #[trigger] scan::column_sums(plus, rows, out.p_profile@)
        };
    assert forall|k: int| 0 <= k < rows.len() implies (#[trigger] rows[k])@.len() == sites.len()
        && scan::point_profile(kernel, plus, input, bs, sites, k, rows[k]@) by {
        same_profile(kernel, plus, input, calc_s, calc_p, bs, sites, k, rows[k]@);
    }
    let col = scan::column(rows, z);
    the_points_are_near(
        kernel,
        plus,
        input,
        sites,
        value,
        reach,
        slack,
        bound,
        bs,
        m,
        rows,
        z,
        n,
    );
    assert(col.take(n) =~= col);
    assert(0 <= m * (bound + slack)) by (nonlinear_arith)
        requires
            0 <= m,
            0 <= bound,
            0 <= slack,
    ;
    assert(arith::folds(plus, seq![Scalar::zero()] + col, out.p_profile@[z]));
    arith::a_sum_is_near(
        plus,
        value,
        reach,
        slack,
        m * (bound + slack),
        col,
        out.p_profile@[z],
    );
}

proof fn same_profile<
    'a,
    K: Fn(&PointInputs, Drive) -> Vec<Scalar>,
    P: Fn(Scalar, Scalar) -> Scalar,
>(
    kernel: K,
    plus: P,
    input: &NeedlePassInput<'a>,
    calc_s: bool,
    calc_p: bool,
    bs: Seq<usize>,
    sites: Seq<ScanSite>,
    k: int,
    row: Seq<Scalar>,
)
    requires
        scan::point_profile(kernel, plus, &switched(input, calc_s, calc_p), bs, sites, k, row),
    ensures
        scan::point_profile(kernel, plus, input, bs, sites, k, row),
{
    let other = switched(input, calc_s, calc_p);
    let cs = scan::calls(bs, scan::active_at(input.fold, k));
    let rows = choose|rows: Seq<Vec<Scalar>>|
        {
            &&& scan::point_answers(kernel, &other, sites, k, cs, rows)
            &&& #[trigger] scan::column_sums(plus, rows, row)
        };
    assert forall|branch: usize| #[trigger] point::point_inputs(input, sites, k, branch)
        == point::point_inputs(&other, sites, k, branch) by {
    }
    assert(scan::point_answers(kernel, input, sites, k, cs, rows));
}

/// Where the polarizations are swept together and each on its own, all three
/// sweeps succeed, and at every site the value for both is the sum of the two
/// values, up to the slack of the additions: exactly, where the addition has
/// none. The kernel is steady, its answers lie within `bound`, and the
/// additions stay within `reach`. With neither polarization on, a sweep over
/// any site is refused.
pub proof fn both_polarizations_are_the_sum<
    'a,
    K: Fn(&PointInputs, Drive) -> Vec<Scalar>,
    P: Fn(Scalar, Scalar) -> Scalar,
>(
    kernel: K,
    plus: P,
    input: &NeedlePassInput<'a>,
    sites: Seq<ScanSite>,
    value: spec_fn(Scalar) -> int,
    reach: int,
    slack: int,
    bound: int,
    s: Result<NeedlePassResult, ScanFault>,
    p: Result<NeedlePassResult, ScanFault>,
    both: Result<NeedlePassResult, ScanFault>,
    none: Result<NeedlePassResult, ScanFault>,
)
    requires
        input.layout_fault() is None,
        scan::swept(kernel, plus, &switched(input, true, false), sites, s),
        scan::swept(kernel, plus, &switched(input, false, true), sites, p),
        scan::swept(kernel, plus, &switched(input, true, true), sites, both),
        scan::swept(kernel, plus, &switched(input, false, false), sites, none),
        scan::serves(kernel),
        steady(kernel),
        modest(kernel, input, sites, value, bound),
        0 <= slack,
        0 <= bound,
        value(Scalar::zero()) == 0,
        arith::rounds(plus, value, reach, slack),
        input.points() * (2 * kernel_count(input.fold) * (bound + slack) + slack) <= reach,
    ensures
        s is Ok && p is Ok && both is Ok,
        s->Ok_0.sites@ == sites && p->Ok_0.sites@ == sites && both->Ok_0.sites@ == sites,
        s->Ok_0.p_profile@.len() == sites.len(),
        p->Ok_0.p_profile@.len() == sites.len(),
        both->Ok_0.p_profile@.len() == sites.len(),
        sites.len() > 0 ==> none == Err::<NeedlePassResult, ScanFault>(ScanFault::NoBranch),
        forall|z: int|
            0 <= z < sites.len() ==> arith::within(
                value(#[trigger] both->Ok_0.p_profile@[z]) - value(s->Ok_0.p_profile@[z]) - value(
                    p->Ok_0.p_profile@[z],
                ),
                input.points() * (4 * kernel_count(input.fold) + 3) * slack,
            ),
        forall|z: int, r: Scalar|
            0 <= z < sites.len() && #[trigger] call_ensures(
                plus,
                (s->Ok_0.p_profile@[z], p->Ok_0.p_profile@[z]),
                r,
            ) ==> arith::within(
                value(both->Ok_0.p_profile@[z]) - value(r),
                (input.points() * (4 * kernel_count(input.fold) + 3) + 1) * slack,
            ),
{
    let n = input.points() as int;
    let t = kernel_count(input.fold);
    assert(switched(input, true, false).layout_fault() is None);
    assert(switched(input, false, true).layout_fault() is None);
    assert(switched(input, true, true).layout_fault() is None);
    assert(switched(input, false, false).layout_fault() is None);
    assert(scan::branches(true, true).len() == 2);
    assert(scan::branches(true, false).len() == 1);
    assert(scan::branches(false, true).len() == 1);
    assert(n > 0) by (nonlinear_arith)
        requires
            n == input.sin_theta@.len() * input.wavls@.len(),
            input.sin_theta@.len() > 0,
            input.wavls@.len() > 0,
    ;
    let one = t * (bound + slack);
    let two = 2 * t * (bound + slack);
    assert(0 <= one <= two && 2 * t * (bound + slack) == (2 * t) * (bound + slack) && 1 * t == t)
        by (nonlinear_arith)
        requires
            0 <= t,
            0 <= bound,
            0 <= slack,
            one == t * (bound + slack),
            two == 2 * t * (bound + slack),
    ;
    assert(two <= n * (two + slack) && one <= n * (two + slack) && n * (one + slack) <= n * (two
        + slack)) by (nonlinear_arith)
        requires
            n > 0,
            0 <= one <= two,
            0 <= slack,
    ;
    assert forall|z: int| 0 <= z < sites.len() implies arith::within(
        value(#[trigger] both->Ok_0.p_profile@[z]) - value(s->Ok_0.p_profile@[z]) - value(
            p->Ok_0.p_profile@[z],
        ),
        n * (4 * t + 3) * slack,
    ) && arith::within(value(s->Ok_0.p_profile@[z]), reach) && arith::within(
        value(p->Ok_0.p_profile@[z]),
        reach,
    ) by {
        a_sweep_is_near(
            kernel,
            plus,
            input,
            sites,
            value,
            reach,
            slack,
            bound,
            true,
            true,
            2 * t,
            both->Ok_0,
            z,
        );
        a_sweep_is_near(
            kernel,
            plus,
            input,
            sites,
            value,
            reach,
            slack,
            bound,
            true,
            false,
            t,
            s->Ok_0,
            z,
        );
        a_sweep_is_near(
            kernel,
            plus,
            input,
            sites,
            value,
            reach,
            slack,
            bound,
            false,
            true,
            t,
            p->Ok_0,
            z,
        );
        gains_add_up(kernel, input, sites, value, z, n);
        assert(n * ((2 * t) * slack) + n * slack + 2 * (n * (t * slack) + n * slack) == n * (4 * t
            + 3) * slack) by (nonlinear_arith);
    }
    assert((n * (4 * t + 3) + 1) * slack == n * (4 * t + 3) * slack + slack) by (nonlinear_arith);
    assert forall|z: int, r: Scalar|
        0 <= z < sites.len() && #[trigger] call_ensures(
            plus,
            (s->Ok_0.p_profile@[z], p->Ok_0.p_profile@[z]),
            r,
        ) implies arith::within(
        value(both->Ok_0.p_profile@[z]) - value(r),
        (n * (4 * t + 3) + 1) * slack,
    ) by {
        let _ = both->Ok_0.p_profile@[z];
    }
}

/// What each of the spectral points gives at site `z`.
spec fn gathered_points<'a, K: Fn(&PointInputs, Drive) -> Vec<Scalar>>(
    kernel: K,
    input: &NeedlePassInput<'a>,
    sites: Seq<ScanSite>,
    joint: spec_fn(Scalar, Scalar) -> Scalar,
    bs: Seq<usize>,
    z: int,
) -> Seq<Scalar> {
    Seq::new(
        input.points(),
        |k: int|
            arith::gathered(
                joint,
                gains(kernel, input, sites, k, scan::calls(bs, scan::active_at(input.fold, k)), z),
            ),
    )
}

proof fn a_sweep_gathers<
    'a,
    K: Fn(&PointInputs, Drive) -> Vec<Scalar>,
    P: Fn(Scalar, Scalar) -> Scalar,
>(
    kernel: K,
    plus: P,
    input: &NeedlePassInput<'a>,
    sites: Seq<ScanSite>,
    joint: spec_fn(Scalar, Scalar) -> Scalar,
    calc_s: bool,
    calc_p: bool,
    out: NeedlePassResult,
    z: int,
)
    requires
        arith::regroups(plus, joint),
        steady(kernel),
        scan::swept(kernel, plus, &switched(input, calc_s, calc_p), sites, Ok(out)),
        0 <= z < sites.len(),
    ensures
        out.p_profile@[z] == arith::gathered(
            joint,
            gathered_points(kernel, input, sites, joint, scan::branches(calc_s, calc_p), z),
        ),
{
    let other = switched(input, calc_s, calc_p);
    let bs = scan::branches(calc_s, calc_p);
    let rows = choose|rows: Seq<Vec<Scalar>>|
        {
            &&& rows.len() == other.points()
            &&& forall|k: int|
                0 <= k < rows.len() ==> (#[trigger] rows[k])@.len() == sites.len()
                    && scan::point_profile(kernel, plus, &other, bs, sites, k, rows[k]@)
            &&& #[trigger] scan::column_sums(plus, rows, out.p_profile@)
        };
    let col = scan::column(rows, z);
    let want = gathered_points(kernel, input, sites, joint, bs, z);
    assert forall|k: int| 0 <= k < col.len() implies #[trigger] col[k] == want[k] by {
        assert(rows[k]@.len() == sites.len());
        same_profile(kernel, plus, input, calc_s, calc_p, bs, sites, k, rows[k]@);
        let cs = scan::calls(bs, scan::active_at(input.fold, k));
        let answers = choose|answers: Seq<Vec<Scalar>>|
            {
                &&& scan::point_answers(kernel, input, sites, k, cs, answers)
                &&& #[trigger] scan::column_sums(plus, answers, rows[k]@)
            };
        rows_are_gains(kernel, input, sites, k, cs, answers, z);
        assert(arith::folds(
            plus,
            seq![Scalar::zero()] + scan::column(answers, z),
            rows[k]@[z],
        ));
        arith::a_sum_gathers(plus, joint, scan::column(answers, z), rows[k]@[z]);
    }
    assert(col =~= want);
    assert(arith::folds(plus, seq![Scalar::zero()] + col, out.p_profile@[z]));
    arith::a_sum_gathers(plus, joint, col, out.p_profile@[z]);
}

/// With an addition that may be regrouped, the profile of a sweep over both
/// polarizations is, site by site, the sum of the two profiles themselves.
pub proof fn regrouped_polarizations_are_the_sum<
    'a,
    K: Fn(&PointInputs, Drive) -> Vec<Scalar>,
    P: Fn(Scalar, Scalar) -> Scalar,
>(
    kernel: K,
    plus: P,
    input: &NeedlePassInput<'a>,
    sites: Seq<ScanSite>,
    joint: spec_fn(Scalar, Scalar) -> Scalar,
    s: NeedlePassResult,
    p: NeedlePassResult,
    both: NeedlePassResult,
)
    requires
        scan::swept(kernel, plus, &switched(input, true, false), sites, Ok(s)),
        scan::swept(kernel, plus, &switched(input, false, true), sites, Ok(p)),
        scan::swept(kernel, plus, &switched(input, true, true), sites, Ok(both)),
        steady(kernel),
        arith::regroups(plus, joint),
    ensures
        both.p_profile@.len() == s.p_profile@.len() == p.p_profile@.len(),
        forall|z: int|
            0 <= z < sites.len() ==> #[trigger] both.p_profile@[z] == joint(
                s.p_profile@[z],
                p.p_profile@[z],
            ),
{
    assert forall|z: int| 0 <= z < sites.len() implies #[trigger] both.p_profile@[z] == joint(
        s.p_profile@[z],
        p.p_profile@[z],
    ) by {
        a_sweep_gathers(kernel, plus, input, sites, joint, true, false, s, z);
        a_sweep_gathers(kernel, plus, input, sites, joint, false, true, p, z);
        a_sweep_gathers(kernel, plus, input, sites, joint, true, true, both, z);
        let xs = gathered_points(kernel, input, sites, joint, scan::branches(true, false), z);
        let ys = gathered_points(kernel, input, sites, joint, scan::branches(false, true), z);
        let zs = gathered_points(kernel, input, sites, joint, scan::branches(true, true), z);
        assert forall|k: int| 0 <= k < zs.len() implies #[trigger] zs[k] == joint(xs[k], ys[k]) by {
            let ks = scan::active_at(input.fold, k);
            scan::both_branches_call_in_turn(ks);
            let sc = scan::calls(scan::branches(true, false), ks);
            let pc = scan::calls(scan::branches(false, true), ks);
            let a = gains(kernel, input, sites, k, sc, z);
            let b = gains(kernel, input, sites, k, pc, z);
            assert(gains(kernel, input, sites, k, sc + pc, z) =~= a + b);
            arith::gathered_in_two(plus, joint, a, b);
        }
        arith::gathered_pairwise(plus, joint, xs, ys, zs);
    }
}

} // verus!
