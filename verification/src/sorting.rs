//! Putting positions in the order of their values.
use crate::scalar;
use crate::scalar::Scalar;
use vstd::prelude::*;

verus! {

/// The first place from `p` on whose value is above `x`.
pub open spec fn slot_for(vs: Seq<Scalar>, order: Seq<usize>, x: Scalar, p: int) -> int
    decreases order.len() - p,
{
    if p >= order.len() || scalar::less(x, vs[order[p] as int]) {
        p
    } else {
        slot_for(vs, order, x, p + 1)
    }
}

/// The first `n` positions by their values; equal values keep their order.
pub open spec fn order_upto(vs: Seq<Scalar>, n: int) -> Seq<usize>
    decreases n,
{
    if n <= 0 {
        seq![]
    } else {
        let before = order_upto(vs, n - 1);
        before.insert(slot_for(vs, before, vs[n - 1], 0), (n - 1) as usize)
    }
}

/// The positions by their values.
pub open spec fn order_of(vs: Seq<Scalar>) -> Seq<usize> {
    order_upto(vs, vs.len() as int)
}

/// The values in order.
pub open spec fn arranged(vs: Seq<Scalar>) -> Seq<Scalar> {
    Seq::new(order_of(vs).len(), |i: int| vs[order_of(vs)[i] as int])
}

proof fn slot_bounds(vs: Seq<Scalar>, order: Seq<usize>, x: Scalar, p: int)
    requires
        0 <= p <= order.len(),
    ensures
        p <= slot_for(vs, order, x, p) <= order.len(),
        forall|j: int|
            p <= j < slot_for(vs, order, x, p) ==> !scalar::less(
                x,
                vs[#[trigger] order[j] as int],
            ),
        slot_for(vs, order, x, p) < order.len() ==> scalar::less(
            x,
            vs[order[slot_for(vs, order, x, p)] as int],
        ),
    decreases order.len() - p,
{
    if p < order.len() {
        slot_bounds(vs, order, x, p + 1);
    }
}

/// Ordering neither drops nor repeats a position.
pub proof fn order_is_a_permutation(vs: Seq<Scalar>, n: int)
    requires
        0 <= n <= vs.len() <= usize::MAX,
    ensures
        order_upto(vs, n).len() == n,
        forall|i: int| 0 <= i < n ==> (#[trigger] order_upto(vs, n)[i]) < n,
        order_upto(vs, n).no_duplicates(),
    decreases n,
{
    if n > 0 {
        order_is_a_permutation(vs, n - 1);
        let before = order_upto(vs, n - 1);
        let after = order_upto(vs, n);
        let at = slot_for(vs, before, vs[n - 1], 0);
        slot_bounds(vs, before, vs[n - 1], 0);
        assert forall|i: int| 0 <= i < n implies (#[trigger] after[i]) < n by {
            if i < at {
                assert(after[i] == before[i]);
            } else if i > at {
                assert(after[i] == before[i - 1]);
            }
        }
        assert forall|i: int, j: int| 0 <= i < j < n implies after[i] != after[j] by {
            let bi = if i < at {
                i
            } else {
                i - 1
            };
            let bj = if j < at {
                j
            } else {
                j - 1
            };
            if i != at {
                assert(after[i] == before[bi]);
            }
            if j != at {
                assert(after[j] == before[bj]);
            }
        }
    }
}

/// Numbers come out in ascending order.
pub proof fn order_ascends(vs: Seq<Scalar>, n: int)
    requires
        0 <= n <= vs.len() <= usize::MAX,
        forall|i: int| 0 <= i < vs.len() ==> !(#[trigger] vs[i]).nan(),
    ensures
        forall|i: int, j: int|
            0 <= i < j < n ==> scalar::at_most(
                vs[#[trigger] order_upto(vs, n)[i] as int],
                vs[#[trigger] order_upto(vs, n)[j] as int],
            ),
    decreases n,
{
    if n > 0 {
        order_ascends(vs, n - 1);
        order_is_a_permutation(vs, n - 1);
        order_is_a_permutation(vs, n);
        let before = order_upto(vs, n - 1);
        let after = order_upto(vs, n);
        let x = vs[n - 1];
        let at = slot_for(vs, before, x, 0);
        slot_bounds(vs, before, x, 0);
        assert forall|i: int, j: int| 0 <= i < j < n implies scalar::at_most(
            vs[#[trigger] after[i] as int],
            vs[#[trigger] after[j] as int],
        ) by {
            let bi = if i < at {
                i
            } else {
                i - 1
            };
            let bj = if j < at {
                j
            } else {
                j - 1
            };
            if i != at {
                assert(after[i] == before[bi]);
                assert(!vs[before[bi] as int].nan());
            }
            if j != at {
                assert(after[j] == before[bj]);
                assert(!vs[before[bj] as int].nan());
            }
            if i == at {
                assert(scalar::less(x, vs[before[at] as int]));
                if at < bj {
                    assert(scalar::at_most(vs[before[at] as int], vs[before[bj] as int]));
                }
            } else if j == at {
                assert(!scalar::less(x, vs[before[bi] as int]));
            }
        }
    }
}

/// Equal numbers keep the order they came in.
pub proof fn ties_keep_their_order(vs: Seq<Scalar>, n: int)
    requires
        0 <= n <= vs.len() <= usize::MAX,
        forall|i: int| 0 <= i < vs.len() ==> !(#[trigger] vs[i]).nan(),
    ensures
        forall|i: int, j: int|
            0 <= i < j < n && scalar::same(
                vs[#[trigger] order_upto(vs, n)[i] as int],
                vs[#[trigger] order_upto(vs, n)[j] as int],
            ) ==> order_upto(vs, n)[i] < order_upto(vs, n)[j],
    decreases n,
{
    if n > 0 {
        ties_keep_their_order(vs, n - 1);
        order_ascends(vs, n - 1);
        order_is_a_permutation(vs, n - 1);
        order_is_a_permutation(vs, n);
        let before = order_upto(vs, n - 1);
        let after = order_upto(vs, n);
        let x = vs[n - 1];
        let at = slot_for(vs, before, x, 0);
        slot_bounds(vs, before, x, 0);
        assert forall|i: int, j: int|
            0 <= i < j < n && scalar::same(
                vs[#[trigger] after[i] as int],
                vs[#[trigger] after[j] as int],
            ) implies after[i] < after[j] by {
            let bi = if i < at {
                i
            } else {
                i - 1
            };
            let bj = if j < at {
                j
            } else {
                j - 1
            };
            if i != at {
                assert(after[i] == before[bi]);
                assert(!vs[before[bi] as int].nan());
            }
            if j != at {
                assert(after[j] == before[bj]);
                assert(!vs[before[bj] as int].nan());
            }
            if i == at {
                assert(scalar::less(x, vs[before[at] as int]));
                if at < bj {
                    assert(scalar::at_most(vs[before[at] as int], vs[before[bj] as int]));
                }
            }
        }
    }
}

/// Orders positions by their values.
pub fn sort_positions(vs: &Vec<Scalar>) -> (r: Vec<usize>)
    ensures
        r@ == order_of(vs@),
        r@.len() == vs@.len(),
        forall|i: int| 0 <= i < r@.len() ==> (#[trigger] r@[i]) < vs@.len(),
{
    let mut order: Vec<usize> = Vec::with_capacity(vs.len());
    let mut n: usize = 0;
    while n < vs.len()
        invariant
            n <= vs@.len(),
            order@ == order_upto(vs@, n as int),
        decreases vs.len() - n,
    {
        proof {
            order_is_a_permutation(vs@, n as int);
        }
        let x: Scalar = vs[n];
        let mut p: usize = 0;
        while p < order.len()
            invariant_except_break
                slot_for(vs@, order@, x, p as int) == slot_for(vs@, order@, x, 0),
            invariant
                p <= order@.len(),
                n < vs@.len(),
                forall|i: int| 0 <= i < order@.len() ==> (#[trigger] order@[i]) < n,
            ensures
                p == slot_for(vs@, order@, x, 0),
            decreases order.len() - p,
        {
            if x.lt(vs[order[p]]) {
                break;
            }
            p += 1;
        }
        order.insert(p, n);
        n += 1;
    }
    proof {
        order_is_a_permutation(vs@, vs@.len() as int);
    }
    order
}

/// The values in order.
pub fn sorted_values(vs: &Vec<Scalar>) -> (r: Vec<Scalar>)
    ensures
        r@ == arranged(vs@),
{
    let order: Vec<usize> = sort_positions(vs);
    let ghost goal = arranged(vs@);
    let mut out: Vec<Scalar> = Vec::with_capacity(order.len());
    let mut i: usize = 0;
    while i < order.len()
        invariant
            order@ == order_of(vs@),
            goal == arranged(vs@),
            forall|k: int| 0 <= k < order@.len() ==> (#[trigger] order@[k]) < vs@.len(),
            i <= order@.len(),
            out@ == goal.take(i as int),
        decreases order.len() - i,
    {
        out.push(vs[order[i]]);
        i += 1;
        assert(out@ =~= goal.take(i as int));
    }
    assert(out@ =~= goal);
    out
}

} // verus!
