//! Doubles read as real numbers.
//!
//! The laws about formulas are stated over real numbers: an arithmetic that
//! rounds correctly gives the exact result of an operation whenever a double
//! can hold it, and what a formula computes then is what it means.
use crate::numeric::Numeric;
use crate::scalar;
use crate::scalar::Scalar;
use vstd::prelude::*;

pub mod products;

verus! {

/// What a finite double stands for, and which numbers a double can hold.
pub struct Reading {
    pub value: spec_fn(Scalar) -> real,
    pub held: spec_fn(real) -> bool,
}

impl Reading {
    /// The number that a double stands for.
    pub open spec fn of(self, x: Scalar) -> real {
        (self.value)(x)
    }

    /// A double can hold the number.
    pub open spec fn holds(self, x: real) -> bool {
        (self.held)(x)
    }

    /// The double is finite and stands for the number.
    pub open spec fn is(self, x: Scalar, v: real) -> bool {
        x.finite() && self.of(x) == v
    }
}

/// The size of a number.
pub open spec fn size(x: real) -> real {
    if x < 0real {
        -x
    } else {
        x
    }
}

/// Finite doubles are read in their order, a sign flips the number, a double
/// holds what it stands for, and the patterns of the small whole numbers and
/// of one half stand for them.
pub open spec fn readable(k: Reading) -> bool {
    &&& forall|a: Scalar, b: Scalar|
        a.finite() && b.finite() ==> (#[trigger] k.of(a) < #[trigger] k.of(b) <==> a.key()
            < b.key())
    &&& forall|a: Scalar|
        a.finite() ==> #[trigger] k.of(scalar::negated(a)) == -k.of(a)
    &&& forall|a: Scalar| a.finite() ==> k.holds(#[trigger] k.of(a))
    &&& k.of(Scalar { bits: 0 }) == 0real
    &&& k.of(Scalar { bits: 0x3FF0_0000_0000_0000 }) == 1real
    &&& k.of(Scalar { bits: 0x4000_0000_0000_0000 }) == 2real
    &&& k.of(Scalar { bits: 0x4010_0000_0000_0000 }) == 4real
    &&& k.of(Scalar { bits: 0x4059_0000_0000_0000 }) == 100real
    &&& k.of(Scalar { bits: 0x3FE0_0000_0000_0000 }) * 2real == 1real
}

/// The arithmetic rounds correctly: a result that a double can hold is exact.
pub open spec fn faithful<A: Numeric>(num: A, k: Reading) -> bool {
    &&& readable(k)
    &&& forall|a: Scalar, b: Scalar|
        a.finite() && b.finite() && k.holds(k.of(a) + k.of(b)) ==> k.is(
            #[trigger] num.sum(a, b),
            k.of(a) + k.of(b),
        )
    &&& forall|a: Scalar, b: Scalar|
        a.finite() && b.finite() && k.holds(k.of(a) - k.of(b)) ==> k.is(
            #[trigger] num.difference(a, b),
            k.of(a) - k.of(b),
        )
    &&& forall|a: Scalar, b: Scalar|
        a.finite() && b.finite() && k.holds(k.of(a) * k.of(b)) ==> k.is(
            #[trigger] num.product(a, b),
            k.of(a) * k.of(b),
        )
    &&& forall|a: Scalar, b: Scalar|
        a.finite() && b.finite() && k.of(b) != 0real && k.holds(k.of(a) / k.of(b)) ==> k.is(
            #[trigger] num.quotient(a, b),
            k.of(a) / k.of(b),
        )
    &&& forall|a: Scalar, r: real|
        a.finite() && 0real <= r && k.of(a) == r * r && #[trigger] k.holds(r) ==> k.is(
            #[trigger] num.square_root(a),
            r,
        )
    &&& forall|n: usize|
        k.holds(n as real) ==> k.is(#[trigger] num.whole(n), n as real)
}

/// Comparing doubles compares their numbers.
pub proof fn order_reads(k: Reading, a: Scalar, b: Scalar)
    requires
        readable(k),
        a.finite(),
        b.finite(),
    ensures
        scalar::less(a, b) <==> k.of(a) < k.of(b),
        scalar::at_most(a, b) <==> k.of(a) <= k.of(b),
        scalar::same(a, b) <==> k.of(a) == k.of(b),
        k.of(scalar::absolute(a)) == size(k.of(a)),
        scalar::absolute(a).finite(),
        k.of(scalar::greater(a, b)) == (if k.of(a) < k.of(b) {
            k.of(b)
        } else {
            k.of(a)
        }),
{
    let zero = Scalar { bits: 0 };
    assert(k.of(a) < k.of(b) <==> a.key() < b.key());
    assert(k.of(b) < k.of(a) <==> b.key() < a.key());
    assert(k.of(a) < k.of(zero) <==> a.key() < zero.key());
    assert(k.of(zero) < k.of(a) <==> zero.key() < a.key());
    let m = scalar::absolute(a);
    if a.negative() {
        assert(m == scalar::negated(a));
    } else {
        assert(m == a);
    }
}

/// The numbers of a list, added up.
pub open spec fn add_up(k: Reading, xs: Seq<Scalar>, n: int) -> real
    decreases n,
{
    if n <= 0 {
        0real
    } else {
        add_up(k, xs, n - 1) + k.of(xs[n - 1])
    }
}

/// A list of finite doubles whose sums from the left can all be held.
pub open spec fn summable(k: Reading, xs: Seq<Scalar>) -> bool {
    &&& forall|i: int| 0 <= i < xs.len() ==> (#[trigger] xs[i]).finite()
    &&& forall|i: int| 0 <= i <= xs.len() ==> k.holds(#[trigger] add_up(k, xs, i))
}

/// A quotient times its divisor.
pub proof fn over_and_back(x: real, y: real)
    requires
        y != 0real,
    ensures
        (x / y) * y == x,
        x * (1real / y) == x / y,
{
    assert((x / y) * y == x) by (nonlinear_arith)
        requires
            y != 0real,
    ;
    assert(x * (1real / y) == x / y) by (nonlinear_arith)
        requires
            y != 0real,
    ;
}

/// A product over one of its factors.
pub proof fn cancelled(x: real, y: real)
    requires
        y != 0real,
    ensures
        (x * y) / y == x,
        (y * x) / y == x,
        y / y == 1real,
        0real / y == 0real,
{
    assert((x * y) / y == x) by (nonlinear_arith)
        requires
            y != 0real,
    ;
    assert(x * y == y * x) by (nonlinear_arith);
    assert(y / y == 1real) by (nonlinear_arith)
        requires
            y != 0real,
    ;
    assert(0real / y == 0real) by (nonlinear_arith)
        requires
            y != 0real,
    ;
}

/// Quotients by one divisor.
pub proof fn over_one_divisor(a: real, b: real, y: real)
    requires
        y != 0real,
    ensures
        a / y - b / y == (a - b) / y,
        a / y - b / y == (a - b) * (1real / y),
        (-a) / y == -(a / y),
{
    assert(a / y - b / y == (a - b) / y) by (nonlinear_arith)
        requires
            y != 0real,
    ;
    assert((-a) / y == -(a / y)) by (nonlinear_arith)
        requires
            y != 0real,
    ;
    over_and_back(a - b, y);
}

/// One with the sign of a number.
pub open spec fn sign(x: real) -> real {
    if x < 0real {
        -1real
    } else {
        1real
    }
}

/// A product, by name.
#[verifier::opaque]
pub open spec fn times(x: real, y: real) -> real {
    x * y
}

/// A quotient, by name.
#[verifier::opaque]
pub open spec fn over(x: real, y: real) -> real {
    x / y
}

/// `faithful` with products and quotients by name.
pub open spec fn exact<A: Numeric>(num: A, k: Reading) -> bool {
    &&& readable(k)
    &&& forall|a: Scalar, b: Scalar|
        a.finite() && b.finite() && k.holds(k.of(a) + k.of(b)) ==> k.is(
            #[trigger] num.sum(a, b),
            k.of(a) + k.of(b),
        )
    &&& forall|a: Scalar, b: Scalar|
        a.finite() && b.finite() && k.holds(k.of(a) - k.of(b)) ==> k.is(
            #[trigger] num.difference(a, b),
            k.of(a) - k.of(b),
        )
    &&& forall|a: Scalar, b: Scalar|
        a.finite() && b.finite() && k.holds(times(k.of(a), k.of(b))) ==> k.is(
            #[trigger] num.product(a, b),
            times(k.of(a), k.of(b)),
        )
    &&& forall|a: Scalar, b: Scalar|
        a.finite() && b.finite() && k.of(b) != 0real && k.holds(over(k.of(a), k.of(b)))
            ==> k.is(#[trigger] num.quotient(a, b), over(k.of(a), k.of(b)))
    &&& forall|a: Scalar, r: real|
        a.finite() && 0real <= r && k.of(a) == times(r, r) && #[trigger] k.holds(r) ==> k.is(
            #[trigger] num.square_root(a),
            r,
        )
    &&& forall|n: usize|
        k.holds(n as real) ==> k.is(#[trigger] num.whole(n), n as real)
}

/// Products with one, minus one and zero, and either way round.
pub proof fn units(x: real, y: real)
    ensures
        times(1real, x) == x,
        times(x, 1real) == x,
        times(-1real, x) == -x,
        times(x, -1real) == -x,
        times(0real, x) == 0real,
        times(x, 0real) == 0real,
        times(x, y) == times(y, x),
{
    reveal(times);
    assert(x * y == y * x) by (nonlinear_arith);
    assert(1real * x == x && x * 1real == x && (-1real) * x == -x && x * (-1real) == -x && 0real * x
        == 0real && x * 0real == 0real) by (nonlinear_arith);
}

/// A quotient times its divisor, by name.
pub proof fn undone(x: real, y: real)
    requires
        y != 0real,
    ensures
        times(over(x, y), y) == x,
{
    reveal(times);
    reveal(over);
    over_and_back(x, y);
}

/// A product over a divisor, the quotient of one factor first.
pub proof fn factored(p: real, q: real, d: real)
    requires
        d != 0real,
    ensures
        over(times(p, q), d) == times(over(p, d), q),
{
    reveal(times);
    reveal(over);
    assert((p * q) / d == (p / d) * q) by (nonlinear_arith)
        requires
            d != 0real,
    ;
}

/// Products of differences.
pub proof fn spread_out(x: real, y: real, f: real)
    ensures
        times(x - y, f) == times(x, f) - times(y, f),
        times(f, x - y) == times(f, x) - times(f, y),
        times(x + y, f) == times(x, f) + times(y, f),
        times(f, x + y) == times(f, x) + times(f, y),
{
    reveal(times);
    assert((x - y) * f == x * f - y * f) by (nonlinear_arith);
    assert(f * (x - y) == f * x - f * y) by (nonlinear_arith);
    assert((x + y) * f == x * f + y * f) by (nonlinear_arith);
    assert(f * (x + y) == f * x + f * y) by (nonlinear_arith);
}

/// Products of three.
pub proof fn regrouped(x: real, y: real, z: real)
    ensures
        times(times(x, y), z) == times(x, times(y, z)),
        times(times(x, y), z) == times(times(x, z), y),
{
    reveal(times);
    assert((x * y) * z == x * (y * z)) by (nonlinear_arith);
    assert((x * y) * z == (x * z) * y) by (nonlinear_arith);
}

/// Equal multiples of a divisor that is not zero are equal.
pub proof fn divided_out(x: real, y: real, d: real)
    requires
        d != 0real,
        times(x, d) == times(y, d),
    ensures
        x == y,
{
    reveal(times);
    cancelled(x, d);
    cancelled(y, d);
}

/// Quotients by one divisor, by name.
pub proof fn over_alike(x: real, y: real, t: real)
    requires
        t != 0real,
    ensures
        over(x, t) - over(y, t) == times(x - y, over(1real, t)),
        over(-1real, t) == -over(1real, t),
        times(-x, y) == -times(x, y),
        times(x, -y) == -times(x, y),
{
    reveal(times);
    reveal(over);
    over_one_divisor(x, y, t);
    over_one_divisor(1real, 0real, t);
    assert((-x) * y == -(x * y)) by (nonlinear_arith);
    assert(x * (-y) == -(x * y)) by (nonlinear_arith);
}

/// The square of a number that is not zero.
pub proof fn squared(x: real)
    requires
        x != 0real,
    ensures
        times(x, x) > 0real,
{
    reveal(times);
    assert(x * x > 0real) by (nonlinear_arith)
        requires
            x != 0real,
    ;
}

} // verus!
