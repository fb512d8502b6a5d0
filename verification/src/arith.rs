//! Arithmetic handed in by the caller, and what is said about it.
//!
//! A caller's function may be anything; the contracts below only say which
//! operands it is called with and that its answers are the ones used.
use crate::scalar::Scalar;
use vstd::prelude::*;

verus! {

/// The binary operation accepts every pair of operands.
pub open spec fn accepts_pairs<F: Fn(Scalar, Scalar) -> Scalar>(f: F) -> bool {
    forall|a: Scalar, b: Scalar| #[trigger] call_requires(f, (a, b))
}

/// `acc` holds the running results of combining `xs` from the left by `f`.
pub open spec fn running<F: Fn(Scalar, Scalar) -> Scalar>(
    f: F,
    xs: Seq<Scalar>,
    acc: Seq<Scalar>,
) -> bool {
    &&& acc.len() == xs.len()
    &&& xs.len() > 0
    &&& acc[0] == xs[0]
    &&& forall|i: int| 1 <= i < xs.len() ==> call_ensures(f, (acc[i - 1], xs[i]), #[trigger] acc[i])
}

/// `r` is what `f` makes of the non-empty list `xs`, taken from the left.
pub open spec fn folds<F: Fn(Scalar, Scalar) -> Scalar>(f: F, xs: Seq<Scalar>, r: Scalar) -> bool {
    exists|acc: Seq<Scalar>| #[trigger] running(f, xs, acc) && r == acc.last()
}

/// A fold goes on with one more operand.
pub proof fn folds_push<F: Fn(Scalar, Scalar) -> Scalar>(
    f: F,
    xs: Seq<Scalar>,
    p: Scalar,
    x: Scalar,
    r: Scalar,
)
    requires
        folds(f, xs, p),
        call_ensures(f, (p, x), r),
    ensures
        folds(f, xs.push(x), r),
{
    let acc = choose|acc: Seq<Scalar>| #[trigger] running(f, xs, acc) && p == acc.last();
    let next = acc.push(r);
    assert(running(f, xs.push(x), next));
}

/// A fold of one operand is that operand.
pub proof fn folds_one<F: Fn(Scalar, Scalar) -> Scalar>(f: F, x: Scalar)
    ensures
        folds(f, seq![x], x),
{
    assert(running(f, seq![x], seq![x]));
}

/// A result of `xs` from which going on with `ys` leads to `r`.
pub open spec fn midway<F: Fn(Scalar, Scalar) -> Scalar>(
    f: F,
    xs: Seq<Scalar>,
    ys: Seq<Scalar>,
    r: Scalar,
) -> Scalar {
    choose|m: Scalar| #[trigger] folds(f, xs, m) && folds(f, seq![m] + ys, r)
}

/// A fold can be taken in two parts.
pub proof fn folds_split<F: Fn(Scalar, Scalar) -> Scalar>(
    f: F,
    xs: Seq<Scalar>,
    ys: Seq<Scalar>,
    r: Scalar,
)
    requires
        xs.len() > 0,
        folds(f, xs + ys, r),
    ensures
        folds(f, xs, midway(f, xs, ys, r)),
        folds(f, seq![midway(f, xs, ys, r)] + ys, r),
{
    let acc = choose|acc: Seq<Scalar>| #[trigger] running(f, xs + ys, acc) && r == acc.last();
    let m = acc[xs.len() - 1];
    assert(opaque_running(f, xs + ys, acc)) by {
        reveal(opaque_running);
    }
    assert((xs + ys)[0] == xs[0]);
    head_runs(f, xs, ys, acc);
    tail_runs(f, xs, ys, acc);
    assert(acc.take(xs.len() as int).last() == m);
    assert(acc.skip(xs.len() - 1).last() == r);
    assert(folds(f, xs, m) && folds(f, seq![m] + ys, r));
}

/// The running results, taken step by step.
#[verifier::opaque]
spec fn opaque_running<F: Fn(Scalar, Scalar) -> Scalar>(
    f: F,
    xs: Seq<Scalar>,
    acc: Seq<Scalar>,
) -> bool {
    running(f, xs, acc)
}

proof fn opaque_step<F: Fn(Scalar, Scalar) -> Scalar>(
    f: F,
    xs: Seq<Scalar>,
    acc: Seq<Scalar>,
    i: int,
)
    requires
        opaque_running(f, xs, acc),
        1 <= i < xs.len(),
    ensures
        call_ensures(f, (acc[i - 1], xs[i]), acc[i]),
{
    reveal(opaque_running);
    let _ = acc[i];
}

proof fn head_runs<F: Fn(Scalar, Scalar) -> Scalar>(
    f: F,
    xs: Seq<Scalar>,
    ys: Seq<Scalar>,
    acc: Seq<Scalar>,
)
    requires
        xs.len() > 0,
        acc.len() == xs.len() + ys.len(),
        acc[0] == xs[0],
        opaque_running(f, xs + ys, acc),
    ensures
        running(f, xs, acc.take(xs.len() as int)),
{
    let n = xs.len() as int;
    let head = acc.take(n);
    assert forall|i: int| 1 <= i < n implies call_ensures(
        f,
        (head[i - 1], xs[i]),
        #[trigger] head[i],
    ) by {
        opaque_step(f, xs + ys, acc, i);
        assert((xs + ys)[i] == xs[i]);
    }
}

proof fn tail_runs<F: Fn(Scalar, Scalar) -> Scalar>(
    f: F,
    xs: Seq<Scalar>,
    ys: Seq<Scalar>,
    acc: Seq<Scalar>,
)
    requires
        xs.len() > 0,
        acc.len() == xs.len() + ys.len(),
        opaque_running(f, xs + ys, acc),
    ensures
        running(f, seq![acc[xs.len() - 1]] + ys, acc.skip(xs.len() - 1)),
{
    let n = xs.len() as int;
    let tail = acc.skip(n - 1);
    let rest = seq![acc[n - 1]] + ys;
    assert forall|i: int| 1 <= i < rest.len() implies call_ensures(
        f,
        (tail[i - 1], rest[i]),
        #[trigger] tail[i],
    ) by {
        opaque_step(f, xs + ys, acc, n - 1 + i);
        assert((xs + ys)[n - 1 + i] == rest[i]);
    }
}

/// The values of a list, added up.
pub open spec fn total(value: spec_fn(Scalar) -> int, xs: Seq<Scalar>) -> int
    decreases xs.len(),
{
    if xs.len() == 0 {
        0
    } else {
        total(value, xs.drop_last()) + value(xs.last())
    }
}

/// `x` lies within `bound` of zero.
pub open spec fn within(x: int, bound: int) -> bool {
    -bound <= x <= bound
}

/// The addition is off by at most `slack` wherever both operands lie within
/// `reach`. `value` reads a double as a number, say in units of the smallest
/// one; an addition that may be regrouped has no slack.
pub open spec fn rounds<F: Fn(Scalar, Scalar) -> Scalar>(
    f: F,
    value: spec_fn(Scalar) -> int,
    reach: int,
    slack: int,
) -> bool {
    forall|a: Scalar, b: Scalar, r: Scalar| #[trigger]
        call_ensures(f, (a, b), r) && within(value(a), reach) && within(value(b), reach)
            ==> within(value(r) - value(a) - value(b), slack)
}

/// All values of a list lie within `bound`.
pub open spec fn all_within(value: spec_fn(Scalar) -> int, xs: Seq<Scalar>, bound: int) -> bool {
    forall|i: int| 0 <= i < xs.len() ==> within(value(#[trigger] xs[i]), bound)
}

pub proof fn total_of_two(value: spec_fn(Scalar) -> int, xs: Seq<Scalar>, ys: Seq<Scalar>)
    ensures
        total(value, xs + ys) == total(value, xs) + total(value, ys),
    decreases ys.len(),
{
    if ys.len() == 0 {
        assert(xs + ys =~= xs);
    } else {
        assert((xs + ys).drop_last() =~= xs + ys.drop_last());
        total_of_two(value, xs, ys.drop_last());
    }
}

proof fn running_is_near<F: Fn(Scalar, Scalar) -> Scalar>(
    f: F,
    value: spec_fn(Scalar) -> int,
    reach: int,
    slack: int,
    bound: int,
    xs: Seq<Scalar>,
    acc: Seq<Scalar>,
    n: int,
)
    requires
        0 <= slack,
        0 <= bound,
        rounds(f, value, reach, slack),
        all_within(value, xs, bound),
        xs.len() * (bound + slack) <= reach,
        value(Scalar::zero()) == 0,
        opaque_running(f, seq![Scalar::zero()] + xs, acc),
        acc.len() == xs.len() + 1,
        acc[0] == Scalar::zero(),
        0 <= n <= xs.len(),
    ensures
        within(value(acc[n]) - total(value, xs.take(n)), n * slack),
        within(value(acc[n]), n * (bound + slack)),
    decreases n,
{
    if n > 0 {
        running_is_near(f, value, reach, slack, bound, xs, acc, n - 1);
        opaque_step(f, seq![Scalar::zero()] + xs, acc, n);
        assert((seq![Scalar::zero()] + xs)[n] == xs[n - 1]);
        let before = xs.take(n - 1);
        assert(xs.take(n).drop_last() =~= before);
        assert(xs.take(n).last() == xs[n - 1]);
        assert(within(value(xs[n - 1]), bound));
        let m = xs.len() as int;
        let step = bound + slack;
        assert((n - 1) * step <= m * step && step <= m * step && n * step == (n - 1) * step + step
            && n * slack == (n - 1) * slack + slack) by (nonlinear_arith)
            requires
                1 <= n <= m,
                0 <= step,
        ;
    } else {
        assert(xs.take(0) =~= seq![]);
        assert(0 * slack == 0 && 0 * (bound + slack) == 0) by (nonlinear_arith);
    }
}

/// A sum is off by at most the slack of its additions.
pub proof fn a_sum_is_near<F: Fn(Scalar, Scalar) -> Scalar>(
    f: F,
    value: spec_fn(Scalar) -> int,
    reach: int,
    slack: int,
    bound: int,
    xs: Seq<Scalar>,
    r: Scalar,
)
    requires
        0 <= slack,
        0 <= bound,
        rounds(f, value, reach, slack),
        all_within(value, xs, bound),
        xs.len() * (bound + slack) <= reach,
        value(Scalar::zero()) == 0,
        folds(f, seq![Scalar::zero()] + xs, r),
    ensures
        within(value(r) - total(value, xs), xs.len() * slack),
        within(value(r), xs.len() * (bound + slack)),
{
    let all = seq![Scalar::zero()] + xs;
    let acc = choose|acc: Seq<Scalar>| #[trigger] running(f, all, acc) && r == acc.last();
    assert(opaque_running(f, all, acc)) by {
        reveal(opaque_running);
    }
    running_is_near(f, value, reach, slack, bound, xs, acc, xs.len() as int);
    assert(xs.take(xs.len() as int) =~= xs);
}

/// Three operands may be taken in any order, and zero adds nothing.
pub open spec fn orderless_at(
    joint: spec_fn(Scalar, Scalar) -> Scalar,
    a: Scalar,
    b: Scalar,
    c: Scalar,
) -> bool {
    &&& joint(a, b) == joint(b, a)
    &&& joint(joint(a, b), c) == joint(a, joint(b, c))
    &&& joint(Scalar::zero(), a) == a
}

/// All operands may be taken in any order.
pub open spec fn orderless(joint: spec_fn(Scalar, Scalar) -> Scalar) -> bool {
    forall|a: Scalar, b: Scalar, c: Scalar| #[trigger] orderless_at(joint, a, b, c)
}

/// `f` answers with `joint`, an addition that may be regrouped.
pub open spec fn regroups<F: Fn(Scalar, Scalar) -> Scalar>(
    f: F,
    joint: spec_fn(Scalar, Scalar) -> Scalar,
) -> bool {
    &&& forall|a: Scalar, b: Scalar, r: Scalar| #[trigger]
        call_ensures(f, (a, b), r) ==> r == joint(a, b)
    &&& orderless(joint)
}

/// A list gathered by an addition.
pub open spec fn gathered(joint: spec_fn(Scalar, Scalar) -> Scalar, xs: Seq<Scalar>) -> Scalar
    decreases xs.len(),
{
    if xs.len() == 0 {
        Scalar::zero()
    } else {
        joint(gathered(joint, xs.drop_last()), xs.last())
    }
}

pub proof fn gathered_in_two<F: Fn(Scalar, Scalar) -> Scalar>(
    f: F,
    joint: spec_fn(Scalar, Scalar) -> Scalar,
    xs: Seq<Scalar>,
    ys: Seq<Scalar>,
)
    requires
        regroups(f, joint),
    ensures
        gathered(joint, xs + ys) == joint(gathered(joint, xs), gathered(joint, ys)),
    decreases ys.len(),
{
    let x = gathered(joint, xs);
    if ys.len() == 0 {
        assert(xs + ys =~= xs);
        assert(orderless_at(joint, x, Scalar::zero(), x));
    } else {
        assert((xs + ys).drop_last() =~= xs + ys.drop_last());
        gathered_in_two(f, joint, xs, ys.drop_last());
        let y = gathered(joint, ys.drop_last());
        assert(orderless_at(joint, x, y, ys.last()));
    }
}

/// Lists added entry by entry gather to the sum of what each gathers to.
pub proof fn gathered_pairwise<F: Fn(Scalar, Scalar) -> Scalar>(
    f: F,
    joint: spec_fn(Scalar, Scalar) -> Scalar,
    xs: Seq<Scalar>,
    ys: Seq<Scalar>,
    zs: Seq<Scalar>,
)
    requires
        regroups(f, joint),
        xs.len() == ys.len() == zs.len(),
        forall|i: int| 0 <= i < zs.len() ==> #[trigger] zs[i] == joint(xs[i], ys[i]),
    ensures
        gathered(joint, zs) == joint(gathered(joint, xs), gathered(joint, ys)),
    decreases xs.len(),
{
    if xs.len() == 0 {
        assert(orderless_at(joint, Scalar::zero(), Scalar::zero(), Scalar::zero()));
    } else {
        gathered_pairwise(f, joint, xs.drop_last(), ys.drop_last(), zs.drop_last());
        let a = gathered(joint, xs.drop_last());
        let b = gathered(joint, ys.drop_last());
        let x = xs.last();
        let y = ys.last();
        assert(zs.last() == joint(x, y));
        assert(orderless_at(joint, a, b, joint(x, y)));
        assert(orderless_at(joint, b, x, y));
        assert(orderless_at(joint, x, b, y));
        assert(orderless_at(joint, a, x, joint(b, y)));
    }
}

proof fn running_gathers<F: Fn(Scalar, Scalar) -> Scalar>(
    f: F,
    joint: spec_fn(Scalar, Scalar) -> Scalar,
    xs: Seq<Scalar>,
    acc: Seq<Scalar>,
    n: int,
)
    requires
        regroups(f, joint),
        opaque_running(f, seq![Scalar::zero()] + xs, acc),
        acc[0] == Scalar::zero(),
        0 <= n <= xs.len(),
    ensures
        acc[n] == gathered(joint, xs.take(n)),
    decreases n,
{
    if n > 0 {
        running_gathers(f, joint, xs, acc, n - 1);
        opaque_step(f, seq![Scalar::zero()] + xs, acc, n);
        assert((seq![Scalar::zero()] + xs)[n] == xs[n - 1]);
        assert(xs.take(n).drop_last() =~= xs.take(n - 1));
    } else {
        assert(xs.take(0) =~= seq![]);
    }
}

/// A sum from zero is what the list gathers to.
pub proof fn a_sum_gathers<F: Fn(Scalar, Scalar) -> Scalar>(
    f: F,
    joint: spec_fn(Scalar, Scalar) -> Scalar,
    xs: Seq<Scalar>,
    r: Scalar,
)
    requires
        regroups(f, joint),
        folds(f, seq![Scalar::zero()] + xs, r),
    ensures
        r == gathered(joint, xs),
{
    let all = seq![Scalar::zero()] + xs;
    let acc = choose|acc: Seq<Scalar>| #[trigger] running(f, all, acc) && r == acc.last();
    assert(opaque_running(f, all, acc)) by {
        reveal(opaque_running);
    }
    running_gathers(f, joint, xs, acc, xs.len() as int);
    assert(xs.take(xs.len() as int) =~= xs);
}

/// Combines a non-empty list from the left.
pub fn fold<F: Fn(Scalar, Scalar) -> Scalar>(f: &F, xs: &Vec<Scalar>) -> (r: Scalar)
    requires
        xs.len() > 0,
        accepts_pairs(*f),
    ensures
        folds(*f, xs@, r),
{
    let mut acc: Scalar = xs[0];
    let mut i: usize = 1;
    let ghost mut trail: Seq<Scalar> = seq![acc];
    while i < xs.len()
        invariant
            1 <= i <= xs.len(),
            running(*f, xs@.take(i as int), trail),
            trail.last() == acc,
            accepts_pairs(*f),
        decreases xs.len() - i,
    {
        acc = f(acc, xs[i]);
        proof {
            trail = trail.push(acc);
        }
        i += 1;
    }
    assert(xs@.take(i as int) =~= xs@);
    acc
}

} // verus!
