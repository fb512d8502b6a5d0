//! The interior map: an unbounded variable for every bounded one.
use crate::numeric;
use crate::numeric::Numeric;
use crate::scalar;
use crate::scalar::Scalar;
use crate::text;
use crate::text::decimal_text;
use crate::trf::HALF_BITS;
use vstd::prelude::*;
use vstd::string::*;

verus! {

/// The hyperbolic tangent is kept below this before it is inverted:
/// 1 - 1e-14.
pub const ATANH_CLAMP_BITS: u64 = 0x3fef_ffff_ffff_ffa6;

/// Why there is no map.
#[derive(Clone, Copy, Debug, PartialEq, Eq, Structural)]
pub enum IntervalFault {
    Length,
    NotFinite { index: usize, lo: Scalar, hi: Scalar },
    Crossed { index: usize },
}

/// The message of a fault.
pub open spec fn interval_fault_text<S: Fn(Scalar) -> String>(
    f: IntervalFault,
    show: S,
) -> Seq<char> {
    match f {
        IntervalFault::Length => "IntervalMap: bound length mismatch"@,
        IntervalFault::NotFinite { index, lo, hi } => "IntervalMap: bound "@ + text::decimal(
            index as nat,
        ) + " is not finite (["@ + text::shown(show, lo) + ", "@ + text::shown(show, hi)
            + "]) \u{2014} an unbounded backend needs a finite box to be reparametrized into"@,
        IntervalFault::Crossed { index } => "IntervalMap: lb["@ + text::decimal(index as nat)
            + "] > ub["@ + text::decimal(index as nat) + "]"@,
    }
}

impl IntervalFault {
    /// The message, numbers shown by `show`.
    pub fn message<S: Fn(Scalar) -> String>(&self, show: &S) -> (r: String)
        requires
            text::shows(*show),
        ensures
            r@ == interval_fault_text(*self, *show),
    {
        match self {
            IntervalFault::Length => String::from_str("IntervalMap: bound length mismatch"),
            IntervalFault::NotFinite { index, lo, hi } => {
                let l: String = show(*lo);
                let h: String = show(*hi);
                String::from_str("IntervalMap: bound ").concat(
                    decimal_text(*index as u64).as_str(),
                ).concat(" is not finite ([").concat(l.as_str()).concat(", ").concat(
                    h.as_str(),
                ).concat(
                    "]) \u{2014} an unbounded backend needs a finite box to be reparametrized into",
                )
            },
            IntervalFault::Crossed { index } => String::from_str("IntervalMap: lb[").concat(
                decimal_text(*index as u64).as_str(),
            ).concat("] > ub[").concat(decimal_text(*index as u64).as_str()).concat("]"),
        }
    }
}

/// `x = mid + half * tanh(u)`, coordinate by coordinate.
#[derive(Debug)]
pub struct IntervalMap {
    mid: Vec<Scalar>,
    half: Vec<Scalar>,
}

/// What is wrong with interval `k`.
pub open spec fn interval_fault(lo: Scalar, hi: Scalar, k: int) -> Option<IntervalFault> {
    if !lo.finite() || !hi.finite() {
        Some(IntervalFault::NotFinite { index: k as usize, lo, hi })
    } else if scalar::less(hi, lo) {
        Some(IntervalFault::Crossed { index: k as usize })
    } else {
        None
    }
}

/// The first fault from interval `k` on.
pub open spec fn first_interval_fault(lo: Seq<Scalar>, hi: Seq<Scalar>, k: int) -> Option<
    IntervalFault,
>
    decreases lo.len() - k,
{
    if k >= lo.len() {
        None
    } else {
        match interval_fault(lo[k], hi[k], k) {
            Some(f) => Some(f),
            None => first_interval_fault(lo, hi, k + 1),
        }
    }
}

/// What is wrong with the bounds of a map.
pub open spec fn map_fault(lo: Seq<Scalar>, hi: Seq<Scalar>) -> Option<IntervalFault> {
    if lo.len() != hi.len() {
        Some(IntervalFault::Length)
    } else {
        first_interval_fault(lo, hi, 0)
    }
}

/// The middles of the intervals.
pub open spec fn middles<A: Numeric>(num: A, lo: Seq<Scalar>, hi: Seq<Scalar>) -> Seq<Scalar> {
    Seq::new(
        lo.len(),
        |k: int| num.product((Scalar { bits: HALF_BITS }), num.sum(lo[k], hi[k])),
    )
}

/// Half the widths of the intervals.
pub open spec fn half_widths<A: Numeric>(num: A, lo: Seq<Scalar>, hi: Seq<Scalar>) -> Seq<
    Scalar,
> {
    Seq::new(
        lo.len(),
        |k: int| num.product((Scalar { bits: HALF_BITS }), num.difference(hi[k], lo[k])),
    )
}

impl IntervalMap {
    pub closed spec fn mids(&self) -> Seq<Scalar> {
        self.mid@
    }

    pub closed spec fn halves(&self) -> Seq<Scalar> {
        self.half@
    }

    /// A middle and a half width per coordinate.
    pub open spec fn wf(&self) -> bool {
        self.mids().len() == self.halves().len()
    }

    /// The map of a box with finite bounds; equal bounds pin a coordinate.
    pub fn new<A: Numeric>(num: &A, lb: &Vec<Scalar>, ub: &Vec<Scalar>) -> (r: Result<
        Self,
        IntervalFault,
    >)
        requires
            num.sound(),
        ensures
            match r {
                Err(e) => map_fault(lb@, ub@) == Some(e),
                Ok(m) => {
                    &&& map_fault(lb@, ub@) is None
                    &&& m.wf()
                    &&& m.mids() == middles(*num, lb@, ub@)
                    &&& m.halves() == half_widths(*num, lb@, ub@)
                },
            },
    {
        if lb.len() != ub.len() {
            return Err(IntervalFault::Length);
        }
        let n: usize = lb.len();
        let ghost tm = middles(*num, lb@, ub@);
        let ghost th = half_widths(*num, lb@, ub@);
        let mut mid: Vec<Scalar> = Vec::with_capacity(n);
        let mut half: Vec<Scalar> = Vec::with_capacity(n);
        let mut k: usize = 0;
        while k < n
            invariant
                num.sound(),
                n == lb@.len(),
                n == ub@.len(),
                tm == middles(*num, lb@, ub@),
                th == half_widths(*num, lb@, ub@),
                k <= n,
                mid@ == tm.take(k as int),
                half@ == th.take(k as int),
                first_interval_fault(lb@, ub@, k as int) == first_interval_fault(lb@, ub@, 0),
            decreases n - k,
        {
            let lo: Scalar = lb[k];
            let hi: Scalar = ub[k];
            if !lo.is_finite() || !hi.is_finite() {
                return Err(IntervalFault::NotFinite { index: k, lo, hi });
            }
            if lo.gt(hi) {
                return Err(IntervalFault::Crossed { index: k });
            }
            mid.push(num.times(Scalar::from_bits(HALF_BITS), num.plus(lo, hi)));
            half.push(num.times(Scalar::from_bits(HALF_BITS), num.minus(hi, lo)));
            k += 1;
            assert(mid@ =~= tm.take(k as int));
            assert(half@ =~= th.take(k as int));
        }
        assert(mid@ =~= tm);
        assert(half@ =~= th);
        Ok(IntervalMap { mid, half })
    }

    /// How many coordinates the map has.
    pub fn len(&self) -> (r: usize)
        ensures
            r == self.mids().len(),
    {
        self.mid.len()
    }

    /// Whether the map has no coordinate.
    pub fn is_empty(&self) -> (r: bool)
        ensures
            r == (self.mids().len() == 0),
    {
        self.mid.len() == 0
    }

    /// The bounded point of an unbounded one.
    pub open spec fn bounded<A: Numeric, T: Fn(Scalar) -> Scalar>(
        &self,
        num: A,
        tanh: T,
        u: Seq<Scalar>,
    ) -> Seq<Scalar> {
        Seq::new(
            u.len(),
            |k: int|
                num.sum(
                    self.mids()[k],
                    num.product(self.halves()[k], numeric::image_of(tanh, u[k])),
                ),
        )
    }

    /// From unbounded to bounded.
    pub fn to_bounded<A: Numeric, T: Fn(Scalar) -> Scalar>(
        &self,
        num: &A,
        tanh: &T,
        u: &Vec<Scalar>,
    ) -> (r: Vec<Scalar>)
        requires
            num.sound(),
            numeric::settled_image(*tanh),
            self.wf(),
            u@.len() <= self.mids().len(),
        ensures
            r@ == self.bounded(*num, *tanh, u@),
    {
        let ghost target = self.bounded(*num, *tanh, u@);
        let mut out: Vec<Scalar> = Vec::with_capacity(u.len());
        let mut k: usize = 0;
        while k < u.len()
            invariant
                num.sound(),
                numeric::settled_image(*tanh),
                self.wf(),
                u@.len() <= self.mids().len(),
                target == self.bounded(*num, *tanh, u@),
                k <= u.len(),
                out@ == target.take(k as int),
            decreases u.len() - k,
        {
            out.push(num.plus(self.mid[k], num.times(self.half[k], tanh(u[k]))));
            k += 1;
            assert(out@ =~= target.take(k as int));
        }
        assert(out@ =~= target);
        out
    }

    /// The unbounded coordinate of a bounded one: zero where the interval is a
    /// point, saturated near and beyond the ends.
    pub open spec fn unbounded_at<A: Numeric, T: Fn(Scalar) -> Scalar>(
        &self,
        num: A,
        atanh: T,
        k: int,
        x: Scalar,
    ) -> Scalar {
        if scalar::same(self.halves()[k], Scalar::zero()) {
            Scalar::zero()
        } else {
            let clamp = Scalar { bits: ATANH_CLAMP_BITS };
            numeric::image_of(
                atanh,
                scalar::confined(
                    num.quotient(num.difference(x, self.mids()[k]), self.halves()[k]),
                    scalar::negated(clamp),
                    clamp,
                ),
            )
        }
    }

    /// From bounded to unbounded.
    pub fn to_unbounded<A: Numeric, T: Fn(Scalar) -> Scalar>(
        &self,
        num: &A,
        atanh: &T,
        x: &Vec<Scalar>,
    ) -> (r: Vec<Scalar>)
        requires
            num.sound(),
            numeric::settled_image(*atanh),
            self.wf(),
            x@.len() <= self.mids().len(),
        ensures
            r@ == Seq::new(x@.len(), |k: int| self.unbounded_at(*num, *atanh, k, x@[k])),
    {
        let ghost target = Seq::new(
            x@.len(),
            |k: int| self.unbounded_at(*num, *atanh, k, x@[k]),
        );
        let clamp: Scalar = Scalar::from_bits(ATANH_CLAMP_BITS);
        let mut out: Vec<Scalar> = Vec::with_capacity(x.len());
        let mut k: usize = 0;
        while k < x.len()
            invariant
                num.sound(),
                numeric::settled_image(*atanh),
                self.wf(),
                x@.len() <= self.mids().len(),
                clamp == (Scalar { bits: ATANH_CLAMP_BITS }),
                target == Seq::new(
                    x@.len(),
                    |k: int| self.unbounded_at(*num, *atanh, k, x@[k]),
                ),
                k <= x.len(),
                out@ == target.take(k as int),
            decreases x.len() - k,
        {
            if self.half[k].same_value(Scalar::zero()) {
                out.push(Scalar::zero());
            } else {
                let t: Scalar = num.over(num.minus(x[k], self.mid[k]), self.half[k]);
                out.push(atanh(t.clamp(clamp.neg(), clamp)));
            }
            k += 1;
            assert(out@ =~= target.take(k as int));
        }
        assert(out@ =~= target);
        out
    }

    /// The slope of coordinate `k` at `u`: half the width over the squared
    /// hyperbolic cosine.
    pub open spec fn slope_at<A: Numeric, C: Fn(Scalar) -> Scalar>(
        &self,
        num: A,
        cosh: C,
        k: int,
        u: Scalar,
    ) -> Scalar {
        let c = numeric::image_of(cosh, u);
        num.quotient(self.halves()[k], num.product(c, c))
    }

    /// The slope of coordinate `k` at `uk`.
    pub fn slope<A: Numeric, C: Fn(Scalar) -> Scalar>(
        &self,
        num: &A,
        cosh: &C,
        k: usize,
        uk: Scalar,
    ) -> (r: Scalar)
        requires
            num.sound(),
            numeric::settled_image(*cosh),
            self.wf(),
            k < self.mids().len(),
        ensures
            r == self.slope_at(*num, *cosh, k as int, uk),
    {
        let c: Scalar = cosh(uk);
        num.over(self.half[k], num.times(c, c))
    }

    /// Entry `e` of a flat Jacobian seen from `u`: its column's slope times
    /// it.
    pub open spec fn chained<A: Numeric, C: Fn(Scalar) -> Scalar>(
        &self,
        num: A,
        cosh: C,
        u: Seq<Scalar>,
        flat: Seq<Scalar>,
    ) -> Seq<Scalar> {
        let n = u.len() as int;
        Seq::new(
            flat.len(),
            |e: int| num.product(flat[e], self.slope_at(num, cosh, e % n, u[e % n])),
        )
    }

    /// A flat Jacobian seen from `u`: the same rows, each column scaled by its
    /// slope.
    pub fn chain_rule<A: Numeric, C: Fn(Scalar) -> Scalar>(
        &self,
        num: &A,
        cosh: &C,
        u: &Vec<Scalar>,
        flat: &Vec<Scalar>,
    ) -> (r: Vec<Scalar>)
        requires
            num.sound(),
            numeric::settled_image(*cosh),
            self.wf(),
            u@.len() == self.mids().len(),
            u@.len() > 0,
        ensures
            r@ == self.chained(*num, *cosh, u@, flat@),
    {
        let n: usize = u.len();
        let ghost target = self.chained(*num, *cosh, u@, flat@);
        let mut out: Vec<Scalar> = Vec::with_capacity(flat.len());
        let mut e: usize = 0;
        while e < flat.len()
            invariant
                num.sound(),
                numeric::settled_image(*cosh),
                self.wf(),
                n == u@.len(),
                n > 0,
                n == self.mids().len(),
                target == self.chained(*num, *cosh, u@, flat@),
                e <= flat.len(),
                out@ == target.take(e as int),
            decreases flat.len() - e,
        {
            let k: usize = e % n;
            let s: Scalar = self.slope(num, cosh, k, u[k]);
            out.push(num.times(flat[e], s));
            e += 1;
            assert(out@ =~= target.take(e as int));
        }
        assert(out@ =~= target);
        out
    }
}

/// The number whose inverse hyperbolic tangent is taken lies strictly between
/// -1 and 1, however far outside its interval the coordinate is.
pub proof fn coordinates_saturate(q: Scalar)
    requires
        !q.nan(),
    ensures
        ({
            let clamp = Scalar { bits: ATANH_CLAMP_BITS };
            let t = scalar::confined(q, scalar::negated(clamp), clamp);
            &&& scalar::less(scalar::negated(Scalar::one()), t)
            &&& scalar::less(t, Scalar::one())
        }),
{
    let clamp = Scalar { bits: ATANH_CLAMP_BITS };
    let low = scalar::negated(clamp);
    let least = scalar::negated(Scalar::one());
    assert(scalar::less(clamp, Scalar::one()));
    assert(scalar::less(least, low));
}

} // verus!
