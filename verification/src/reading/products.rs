//! What sums of products mean over real numbers.
use crate::numeric;
use crate::numeric::Numeric;
use crate::reading;
use crate::reading::{times, Reading};
use crate::scalar;
use crate::scalar::Scalar;
use vstd::prelude::*;

verus! {

/// The products of two lists, added up.
pub open spec fn multiply_up(k: Reading, us: Seq<Scalar>, vs: Seq<Scalar>, n: int) -> real
    decreases n,
{
    if n <= 0 {
        0real
    } else {
        multiply_up(k, us, vs, n - 1) + times(k.of(us[n - 1]), k.of(vs[n - 1]))
    }
}

/// Two lists of finite doubles whose products, and their sums from the left,
/// can all be held.
pub open spec fn multipliable(k: Reading, us: Seq<Scalar>, vs: Seq<Scalar>) -> bool {
    &&& us.len() == vs.len()
    &&& forall|i: int|
        0 <= i < us.len() ==> #[trigger] us[i].finite() && vs[i].finite() && k.holds(
            times(k.of(us[i]), k.of(vs[i])),
        )
    &&& forall|i: int| 0 <= i <= us.len() ==> k.holds(#[trigger] multiply_up(k, us, vs, i))
}

/// An inner product adds the products of the entries up.
pub proof fn an_inner_product_adds_up<A: Numeric>(
    num: A,
    k: Reading,
    us: Seq<Scalar>,
    vs: Seq<Scalar>,
    n: int,
)
    requires
        reading::exact(num, k),
        multipliable(k, us, vs),
        0 <= n <= us.len(),
    ensures
        k.is(
            numeric::dot_from(num, Scalar { bits: 0 }, us, vs, 0, n),
            multiply_up(k, us, vs, n),
        ),
        k.is(
            numeric::dot_from(num, Scalar { bits: 0x8000_0000_0000_0000 }, us, vs, 0, n),
            multiply_up(k, us, vs, n),
        ),
        n == us.len() ==> k.is(numeric::dot_of(num, us, vs), multiply_up(k, us, vs, n)),
    decreases n,
{
    let zero = Scalar { bits: 0 };
    let none = Scalar { bits: 0x8000_0000_0000_0000 };
    assert(none == scalar::negated(zero));
    assert(k.of(scalar::negated(zero)) == -k.of(zero));
    if n > 0 {
        an_inner_product_adds_up(num, k, us, vs, n - 1);
        assert(us[n - 1].finite());
        assert(k.holds(multiply_up(k, us, vs, n)));
    }
}

/// The square of a norm is the inner product of the vector with itself.
pub proof fn a_norm_squares_to_the_inner_product<A: Numeric>(
    num: A,
    k: Reading,
    us: Seq<Scalar>,
    root: real,
)
    requires
        reading::exact(num, k),
        multipliable(k, us, us),
        k.holds(root),
        root >= 0real,
        times(root, root) == multiply_up(k, us, us, us.len() as int),
    ensures
        k.is(numeric::norm_of(num, us), root),
{
    an_inner_product_adds_up(num, k, us, us, us.len() as int);
}

/// Entry by entry: products, sums and multiples.
pub proof fn entries_are_taken_in_pairs<A: Numeric>(
    num: A,
    k: Reading,
    us: Seq<Scalar>,
    vs: Seq<Scalar>,
    c: Scalar,
    i: int,
)
    requires
        reading::exact(num, k),
        us.len() == vs.len(),
        0 <= i < us.len(),
        us[i].finite() && vs[i].finite() && c.finite(),
        k.holds(times(k.of(us[i]), k.of(vs[i]))),
        k.holds(k.of(us[i]) + k.of(vs[i])),
        k.holds(times(k.of(us[i]), k.of(c))),
    ensures
        numeric::hadamard(num, us, vs).len() == us.len(),
        k.is(numeric::hadamard(num, us, vs)[i], times(k.of(us[i]), k.of(vs[i]))),
        numeric::added(num, us, vs).len() == us.len(),
        k.is(numeric::added(num, us, vs)[i], k.of(us[i]) + k.of(vs[i])),
        numeric::scaled(num, us, c).len() == us.len(),
        k.is(numeric::scaled(num, us, c)[i], times(k.of(us[i]), k.of(c))),
{
}

/// Inner products do not depend on the order of their operands.
pub proof fn products_go_either_way(k: Reading, us: Seq<Scalar>, vs: Seq<Scalar>, n: int)
    ensures
        multiply_up(k, us, vs, n) == multiply_up(k, vs, us, n),
    decreases n,
{
    if n > 0 {
        products_go_either_way(k, us, vs, n - 1);
        reading::units(k.of(us[n - 1]), k.of(vs[n - 1]));
    }
}

} // verus!
