//! IEEE-754 doubles as bit patterns: order, equality, sign and neighbours.
use vstd::prelude::*;

verus! {

/// The sign bit.
pub const SIGN: u64 = 0x8000_0000_0000_0000;

/// The magnitude of an infinity; larger magnitudes are NaNs.
pub const INF_MAG: u64 = 0x7FF0_0000_0000_0000;

/// The bit pattern of a double.
#[derive(Clone, Copy, Debug, PartialEq, Eq, Structural, Hash)]
pub struct Scalar {
    pub bits: u64,
}

/// Positive infinity's pattern.
pub const INFINITY_BITS: u64 = 0x7FF0_0000_0000_0000;

/// Negative infinity's pattern.
pub const NEG_INFINITY_BITS: u64 = 0xFFF0_0000_0000_0000;

/// One's pattern.
pub const ONE_BITS: u64 = 0x3FF0_0000_0000_0000;

impl Scalar {
    /// The pattern carries a sign.
    pub open spec fn negative(self) -> bool {
        self.bits >= SIGN
    }

    /// The pattern without its sign.
    pub open spec fn mag(self) -> int {
        if self.negative() {
            self.bits - SIGN
        } else {
            self.bits as int
        }
    }

    pub open spec fn nan(self) -> bool {
        self.mag() > INF_MAG
    }

    pub open spec fn finite(self) -> bool {
        self.mag() < INF_MAG
    }

    /// Position on the number line: doubles that are not NaN are ordered as
    /// these integers are, and the two zeros share one position.
    pub open spec fn key(self) -> int {
        if self.negative() {
            -self.mag()
        } else {
            self.mag()
        }
    }

    /// Position in the total order over all patterns, NaNs and signed zeros
    /// included.
    pub open spec fn total_key(self) -> int {
        if self.negative() {
            -self.mag() - 1
        } else {
            self.mag()
        }
    }
}

/// `a < b` on doubles: false as soon as one side is NaN.
pub open spec fn less(a: Scalar, b: Scalar) -> bool {
    !a.nan() && !b.nan() && a.key() < b.key()
}

/// `a <= b` on doubles.
pub open spec fn at_most(a: Scalar, b: Scalar) -> bool {
    !a.nan() && !b.nan() && a.key() <= b.key()
}

/// `a == b` on doubles: the zeros are equal and a NaN equals nothing.
pub open spec fn same(a: Scalar, b: Scalar) -> bool {
    !a.nan() && !b.nan() && a.key() == b.key()
}

/// The lesser of two in the sense of `fmin`: a NaN yields to the other side.
pub open spec fn lesser(a: Scalar, b: Scalar) -> Scalar {
    if a.nan() {
        b
    } else if less(b, a) {
        b
    } else {
        a
    }
}

/// The greater of two in the sense of `fmax`.
pub open spec fn greater(a: Scalar, b: Scalar) -> Scalar {
    if a.nan() {
        b
    } else if less(a, b) {
        b
    } else {
        a
    }
}

/// `x` confined to `[lo, hi]`; a NaN passes through.
pub open spec fn confined(x: Scalar, lo: Scalar, hi: Scalar) -> Scalar {
    if less(x, lo) {
        lo
    } else if less(hi, x) {
        hi
    } else {
        x
    }
}

/// The magnitude with a positive sign.
pub open spec fn absolute(x: Scalar) -> Scalar {
    Scalar { bits: x.mag() as u64 }
}

/// The pattern with its sign flipped.
pub open spec fn negated(x: Scalar) -> Scalar {
    if x.negative() {
        Scalar { bits: (x.bits - SIGN) as u64 }
    } else {
        Scalar { bits: (x.bits + SIGN) as u64 }
    }
}

/// The magnitude of `x` with the sign of `s`.
pub open spec fn signed_as(x: Scalar, s: Scalar) -> Scalar {
    if s.negative() {
        negated(absolute(x))
    } else {
        absolute(x)
    }
}

/// The least double above `x`; a NaN and positive infinity stay put.
pub open spec fn above(x: Scalar) -> Scalar {
    if x.nan() || x.bits == INFINITY_BITS {
        x
    } else if x.mag() == 0 {
        Scalar { bits: 1 }
    } else if x.negative() {
        Scalar { bits: (x.bits - 1) as u64 }
    } else {
        Scalar { bits: (x.bits + 1) as u64 }
    }
}

/// The greatest double below `x`; a NaN and negative infinity stay put.
pub open spec fn below(x: Scalar) -> Scalar {
    negated(above(negated(x)))
}

impl Scalar {
    /// Positive zero.
    #[verifier::allow_in_spec]
    pub fn zero() -> Scalar
        returns
            (Scalar { bits: 0 }),
    {
        Scalar { bits: 0 }
    }

    /// One.
    #[verifier::allow_in_spec]
    pub fn one() -> Scalar
        returns
            (Scalar { bits: ONE_BITS }),
    {
        Scalar { bits: ONE_BITS }
    }

    /// Positive infinity.
    #[verifier::allow_in_spec]
    pub fn infinity() -> Scalar
        returns
            (Scalar { bits: INFINITY_BITS }),
    {
        Scalar { bits: INFINITY_BITS }
    }

    /// Negative infinity.
    #[verifier::allow_in_spec]
    pub fn neg_infinity() -> Scalar
        returns
            (Scalar { bits: NEG_INFINITY_BITS }),
    {
        Scalar { bits: NEG_INFINITY_BITS }
    }

    /// The double's pattern taken as it is.
    pub fn from_bits(bits: u64) -> (r: Scalar)
        ensures
            r.bits == bits,
    {
        Scalar { bits }
    }

    pub fn to_bits(self) -> (r: u64)
        ensures
            r == self.bits,
    {
        self.bits
    }

    fn magnitude(self) -> (r: u64)
        ensures
            r == self.mag(),
    {
        if self.bits >= SIGN {
            self.bits - SIGN
        } else {
            self.bits
        }
    }

    pub fn is_nan(self) -> (r: bool)
        ensures
            r == self.nan(),
    {
        self.magnitude() > INF_MAG
    }

    pub fn is_finite(self) -> (r: bool)
        ensures
            r == self.finite(),
    {
        self.magnitude() < INF_MAG
    }

    pub fn is_negative(self) -> (r: bool)
        ensures
            r == self.negative(),
    {
        self.bits >= SIGN
    }

    pub fn lt(self, other: Scalar) -> (r: bool)
        ensures
            r == less(self, other),
    {
        if self.is_nan() || other.is_nan() {
            return false;
        }
        let a: u64 = self.magnitude();
        let b: u64 = other.magnitude();
        if self.is_negative() {
            if other.is_negative() {
                a > b
            } else {
                a > 0 || b > 0
            }
        } else {
            !other.is_negative() && a < b
        }
    }

    pub fn le(self, other: Scalar) -> (r: bool)
        ensures
            r == at_most(self, other),
    {
        !self.is_nan() && !other.is_nan() && !other.lt(self)
    }

    pub fn gt(self, other: Scalar) -> (r: bool)
        ensures
            r == less(other, self),
    {
        other.lt(self)
    }

    pub fn ge(self, other: Scalar) -> (r: bool)
        ensures
            r == at_most(other, self),
    {
        other.le(self)
    }

    /// Equality as doubles compare, not pattern by pattern.
    pub fn same_value(self, other: Scalar) -> (r: bool)
        ensures
            r == same(self, other),
    {
        self.le(other) && other.le(self)
    }

    /// Strictly before in the total order over all patterns.
    pub fn precedes(self, other: Scalar) -> (r: bool)
        ensures
            r == (self.total_key() < other.total_key()),
    {
        let a: u64 = self.magnitude();
        let b: u64 = other.magnitude();
        if self.is_negative() {
            if other.is_negative() {
                a > b
            } else {
                true
            }
        } else {
            !other.is_negative() && a < b
        }
    }

    pub fn min(self, other: Scalar) -> (r: Scalar)
        ensures
            r == lesser(self, other),
    {
        if self.is_nan() {
            other
        } else if other.lt(self) {
            other
        } else {
            self
        }
    }

    pub fn max(self, other: Scalar) -> (r: Scalar)
        ensures
            r == greater(self, other),
    {
        if self.is_nan() {
            other
        } else if self.lt(other) {
            other
        } else {
            self
        }
    }

    /// The nearest value inside `[lo, hi]`.
    pub fn clamp(self, lo: Scalar, hi: Scalar) -> (r: Scalar)
        requires
            at_most(lo, hi),
        ensures
            r == confined(self, lo, hi),
            !self.nan() ==> at_most(lo, r) && at_most(r, hi),
            self.nan() ==> r == self,
    {
        if self.lt(lo) {
            lo
        } else if hi.lt(self) {
            hi
        } else {
            self
        }
    }

    pub fn abs(self) -> (r: Scalar)
        ensures
            r == absolute(self),
    {
        Scalar { bits: self.magnitude() }
    }

    pub fn neg(self) -> (r: Scalar)
        ensures
            r == negated(self),
    {
        if self.bits >= SIGN {
            Scalar { bits: self.bits - SIGN }
        } else {
            Scalar { bits: self.bits + SIGN }
        }
    }

    /// The magnitude of this with the sign of `sign`.
    pub fn copysign(self, sign: Scalar) -> (r: Scalar)
        ensures
            r == signed_as(self, sign),
    {
        if sign.is_negative() {
            self.abs().neg()
        } else {
            self.abs()
        }
    }

    pub fn next_up(self) -> (r: Scalar)
        ensures
            r == above(self),
    {
        if self.is_nan() || self.bits == INFINITY_BITS {
            self
        } else if self.magnitude() == 0 {
            Scalar { bits: 1 }
        } else if self.bits >= SIGN {
            Scalar { bits: self.bits - 1 }
        } else {
            Scalar { bits: self.bits + 1 }
        }
    }

    pub fn next_down(self) -> (r: Scalar)
        ensures
            r == below(self),
    {
        self.neg().next_up().neg()
    }
}

/// Two doubles that are not NaN stand in exactly one of the three relations.
pub proof fn order_is_total(a: Scalar, b: Scalar)
    requires
        !a.nan(),
        !b.nan(),
    ensures
        less(a, b) || same(a, b) || less(b, a),
        !(less(a, b) && same(a, b)),
        !(less(a, b) && less(b, a)),
        !(same(a, b) && less(b, a)),
        at_most(a, b) <==> !less(b, a),
{
}

/// The order is transitive, also where one side only bounds the other weakly.
pub proof fn order_is_transitive(a: Scalar, b: Scalar, c: Scalar)
    ensures
        less(a, b) && less(b, c) ==> less(a, c),
        at_most(a, b) && less(b, c) ==> less(a, c),
        less(a, b) && at_most(b, c) ==> less(a, c),
        at_most(a, b) && at_most(b, c) ==> at_most(a, c),
{
}

/// The total order tells any two different patterns apart and agrees with the
/// double order wherever the latter decides.
pub proof fn total_order_refines(a: Scalar, b: Scalar)
    ensures
        a.total_key() == b.total_key() <==> a == b,
        less(a, b) ==> a.total_key() < b.total_key(),
{
}

/// Nothing lies strictly between a double and its upper neighbour.
pub proof fn next_up_is_adjacent(x: Scalar, y: Scalar)
    requires
        !x.nan(),
        x.bits != INFINITY_BITS,
    ensures
        less(x, above(x)),
        less(x, y) ==> at_most(above(x), y),
{
}

/// Nothing lies strictly between a double and its lower neighbour.
pub proof fn next_down_is_adjacent(x: Scalar, y: Scalar)
    requires
        !x.nan(),
        x.bits != NEG_INFINITY_BITS,
    ensures
        less(below(x), x),
        less(y, x) ==> at_most(y, below(x)),
{
}

} // verus!
