//! Machine arithmetic as a parameter.
//!
//! The algorithms of this crate are stated over any arithmetic on doubles
//! whose results depend on the operands alone. `Arith` builds one from
//! functions.
use crate::scalar::Scalar;
use vstd::prelude::*;

verus! {

/// What a two-operand function returns.
pub open spec fn result_of<F: Fn(Scalar, Scalar) -> Scalar>(
    f: F,
    a: Scalar,
    b: Scalar,
) -> Scalar {
    choose|r: Scalar| call_ensures(f, (a, b), r)
}

/// The function takes all operands and its result depends on them alone.
pub open spec fn settled<F: Fn(Scalar, Scalar) -> Scalar>(f: F) -> bool {
    &&& forall|a: Scalar, b: Scalar| #[trigger] call_requires(f, (a, b))
    &&& forall|a: Scalar, b: Scalar, r: Scalar| #[trigger]
        call_ensures(f, (a, b), r) ==> r == result_of(f, a, b)
}

/// What a one-operand function returns.
pub open spec fn image_of<F: Fn(Scalar) -> Scalar>(f: F, a: Scalar) -> Scalar {
    choose|r: Scalar| call_ensures(f, (a,), r)
}

/// `settled` for one operand.
pub open spec fn settled_image<F: Fn(Scalar) -> Scalar>(f: F) -> bool {
    &&& forall|a: Scalar| #[trigger] call_requires(f, (a,))
    &&& forall|a: Scalar, r: Scalar| #[trigger]
        call_ensures(f, (a,), r) ==> r == image_of(f, a)
}

/// The double that stands for a count.
pub open spec fn count_of<F: Fn(usize) -> Scalar>(f: F, n: usize) -> Scalar {
    choose|r: Scalar| call_ensures(f, (n,), r)
}

/// `settled` for counts.
pub open spec fn settled_count<F: Fn(usize) -> Scalar>(f: F) -> bool {
    &&& forall|n: usize| #[trigger] call_requires(f, (n,))
    &&& forall|n: usize, r: Scalar| #[trigger]
        call_ensures(f, (n,), r) ==> r == count_of(f, n)
}

/// Arithmetic on doubles.
pub trait Numeric: Sized {
    /// The operations take all operands and return what the functions below
    /// say.
    spec fn sound(self) -> bool;

    spec fn sum(self, a: Scalar, b: Scalar) -> Scalar;

    spec fn difference(self, a: Scalar, b: Scalar) -> Scalar;

    spec fn product(self, a: Scalar, b: Scalar) -> Scalar;

    spec fn quotient(self, a: Scalar, b: Scalar) -> Scalar;

    spec fn square_root(self, a: Scalar) -> Scalar;

    spec fn whole(self, n: usize) -> Scalar;

    fn plus(&self, a: Scalar, b: Scalar) -> (r: Scalar)
        requires
            self.sound(),
        ensures
            r == self.sum(a, b),
    ;

    fn minus(&self, a: Scalar, b: Scalar) -> (r: Scalar)
        requires
            self.sound(),
        ensures
            r == self.difference(a, b),
    ;

    fn times(&self, a: Scalar, b: Scalar) -> (r: Scalar)
        requires
            self.sound(),
        ensures
            r == self.product(a, b),
    ;

    fn over(&self, a: Scalar, b: Scalar) -> (r: Scalar)
        requires
            self.sound(),
        ensures
            r == self.quotient(a, b),
    ;

    fn root(&self, a: Scalar) -> (r: Scalar)
        requires
            self.sound(),
        ensures
            r == self.square_root(a),
    ;

    fn count(&self, n: usize) -> (r: Scalar)
        requires
            self.sound(),
        ensures
            r == self.whole(n),
    ;
}

/// Arithmetic made of functions.
pub struct Arith<P, M, T, D, R, C> {
    pub plus: P,
    pub minus: M,
    pub times: T,
    pub over: D,
    pub root: R,
    pub count: C,
}

impl<
    P: Fn(Scalar, Scalar) -> Scalar,
    M: Fn(Scalar, Scalar) -> Scalar,
    T: Fn(Scalar, Scalar) -> Scalar,
    D: Fn(Scalar, Scalar) -> Scalar,
    R: Fn(Scalar) -> Scalar,
    C: Fn(usize) -> Scalar,
> Numeric for Arith<P, M, T, D, R, C> {
    open spec fn sound(self) -> bool {
        &&& settled(self.plus)
        &&& settled(self.minus)
        &&& settled(self.times)
        &&& settled(self.over)
        &&& settled_image(self.root)
        &&& settled_count(self.count)
    }

    open spec fn sum(self, a: Scalar, b: Scalar) -> Scalar {
        result_of(self.plus, a, b)
    }

    open spec fn difference(self, a: Scalar, b: Scalar) -> Scalar {
        result_of(self.minus, a, b)
    }

    open spec fn product(self, a: Scalar, b: Scalar) -> Scalar {
        result_of(self.times, a, b)
    }

    open spec fn quotient(self, a: Scalar, b: Scalar) -> Scalar {
        result_of(self.over, a, b)
    }

    open spec fn square_root(self, a: Scalar) -> Scalar {
        image_of(self.root, a)
    }

    open spec fn whole(self, n: usize) -> Scalar {
        count_of(self.count, n)
    }

    fn plus(&self, a: Scalar, b: Scalar) -> (r: Scalar) {
        (self.plus)(a, b)
    }

    fn minus(&self, a: Scalar, b: Scalar) -> (r: Scalar) {
        (self.minus)(a, b)
    }

    fn times(&self, a: Scalar, b: Scalar) -> (r: Scalar) {
        (self.times)(a, b)
    }

    fn over(&self, a: Scalar, b: Scalar) -> (r: Scalar) {
        (self.over)(a, b)
    }

    fn root(&self, a: Scalar) -> (r: Scalar) {
        (self.root)(a)
    }

    fn count(&self, n: usize) -> (r: Scalar) {
        (self.count)(n)
    }
}

/// Negative zero, the neutral element of addition.
pub const NEG_ZERO_BITS: u64 = 0x8000_0000_0000_0000;

/// `start + us[lo] * vs[lo] + ... + us[hi - 1] * vs[hi - 1]`, from the left.
pub open spec fn dot_from<A: Numeric>(
    num: A,
    start: Scalar,
    us: Seq<Scalar>,
    vs: Seq<Scalar>,
    lo: int,
    hi: int,
) -> Scalar
    decreases hi - lo,
{
    if hi <= lo {
        start
    } else {
        num.sum(
            dot_from(num, start, us, vs, lo, hi - 1),
            num.product(us[hi - 1], vs[hi - 1]),
        )
    }
}

/// `start - us[lo] * vs[lo] - ... - us[hi - 1] * vs[hi - 1]`, from the left.
pub open spec fn less_dot<A: Numeric>(
    num: A,
    start: Scalar,
    us: Seq<Scalar>,
    vs: Seq<Scalar>,
    lo: int,
    hi: int,
) -> Scalar
    decreases hi - lo,
{
    if hi <= lo {
        start
    } else {
        num.difference(
            less_dot(num, start, us, vs, lo, hi - 1),
            num.product(us[hi - 1], vs[hi - 1]),
        )
    }
}

/// The inner product.
pub open spec fn dot_of<A: Numeric>(num: A, us: Seq<Scalar>, vs: Seq<Scalar>) -> Scalar {
    dot_from(num, (Scalar { bits: NEG_ZERO_BITS }), us, vs, 0, us.len() as int)
}

/// The Euclidean norm.
pub open spec fn norm_of<A: Numeric>(num: A, us: Seq<Scalar>) -> Scalar {
    num.square_root(dot_of(num, us, us))
}

/// Computes `dot_from`.
pub fn dot_range<A: Numeric>(
    num: &A,
    start: Scalar,
    us: &Vec<Scalar>,
    vs: &Vec<Scalar>,
    lo: usize,
    hi: usize,
) -> (r: Scalar)
    requires
        num.sound(),
        hi <= us@.len(),
        hi <= vs@.len(),
    ensures
        r == dot_from(*num, start, us@, vs@, lo as int, hi as int),
{
    let mut acc: Scalar = start;
    let mut i: usize = lo;
    while i < hi
        invariant
            num.sound(),
            lo <= i,
            lo <= hi ==> i <= hi,
            lo > hi ==> i == lo,
            hi <= us@.len(),
            hi <= vs@.len(),
            acc == dot_from(*num, start, us@, vs@, lo as int, i as int),
        decreases hi - i,
    {
        acc = num.plus(acc, num.times(us[i], vs[i]));
        i += 1;
    }
    acc
}

/// Computes `less_dot`.
pub fn less_dot_range<A: Numeric>(
    num: &A,
    start: Scalar,
    us: &Vec<Scalar>,
    vs: &Vec<Scalar>,
    lo: usize,
    hi: usize,
) -> (r: Scalar)
    requires
        num.sound(),
        hi <= us@.len(),
        hi <= vs@.len(),
    ensures
        r == less_dot(*num, start, us@, vs@, lo as int, hi as int),
{
    let mut acc: Scalar = start;
    let mut i: usize = lo;
    while i < hi
        invariant
            num.sound(),
            lo <= i,
            lo <= hi ==> i <= hi,
            lo > hi ==> i == lo,
            hi <= us@.len(),
            hi <= vs@.len(),
            acc == less_dot(*num, start, us@, vs@, lo as int, i as int),
        decreases hi - i,
    {
        acc = num.minus(acc, num.times(us[i], vs[i]));
        i += 1;
    }
    acc
}

/// The inner product of two vectors of one length.
pub fn dot<A: Numeric>(num: &A, us: &Vec<Scalar>, vs: &Vec<Scalar>) -> (r: Scalar)
    requires
        num.sound(),
        us@.len() == vs@.len(),
    ensures
        r == dot_of(*num, us@, vs@),
{
    dot_range(num, Scalar::from_bits(NEG_ZERO_BITS), us, vs, 0, us.len())
}

/// The Euclidean norm of a vector.
pub fn norm<A: Numeric>(num: &A, us: &Vec<Scalar>) -> (r: Scalar)
    requires
        num.sound(),
    ensures
        r == norm_of(*num, us@),
{
    num.root(dot(num, us, us))
}

/// Each entry times its partner.
pub open spec fn hadamard<A: Numeric>(num: A, us: Seq<Scalar>, vs: Seq<Scalar>) -> Seq<Scalar> {
    Seq::new(us.len(), |i: int| num.product(us[i], vs[i]))
}

/// Each entry plus its partner.
pub open spec fn added<A: Numeric>(num: A, us: Seq<Scalar>, vs: Seq<Scalar>) -> Seq<Scalar> {
    Seq::new(us.len(), |i: int| num.sum(us[i], vs[i]))
}

/// Each entry times one factor.
pub open spec fn scaled<A: Numeric>(num: A, us: Seq<Scalar>, c: Scalar) -> Seq<Scalar> {
    Seq::new(us.len(), |i: int| num.product(us[i], c))
}

/// Computes `hadamard`.
pub fn entrywise<A: Numeric>(num: &A, us: &Vec<Scalar>, vs: &Vec<Scalar>) -> (r: Vec<Scalar>)
    requires
        num.sound(),
        us@.len() == vs@.len(),
    ensures
        r@ == hadamard(*num, us@, vs@),
{
    let mut out: Vec<Scalar> = Vec::with_capacity(us.len());
    let mut i: usize = 0;
    while i < us.len()
        invariant
            num.sound(),
            us@.len() == vs@.len(),
            i <= us.len(),
            out@ == hadamard(*num, us@, vs@).take(i as int),
        decreases us.len() - i,
    {
        out.push(num.times(us[i], vs[i]));
        i += 1;
        assert(out@ =~= hadamard(*num, us@, vs@).take(i as int));
    }
    assert(hadamard(*num, us@, vs@).take(i as int) =~= hadamard(*num, us@, vs@));
    out
}

/// Computes `added`.
pub fn sum_vec<A: Numeric>(num: &A, us: &Vec<Scalar>, vs: &Vec<Scalar>) -> (r: Vec<Scalar>)
    requires
        num.sound(),
        us@.len() == vs@.len(),
    ensures
        r@ == added(*num, us@, vs@),
{
    let mut out: Vec<Scalar> = Vec::with_capacity(us.len());
    let mut i: usize = 0;
    while i < us.len()
        invariant
            num.sound(),
            us@.len() == vs@.len(),
            i <= us.len(),
            out@ == added(*num, us@, vs@).take(i as int),
        decreases us.len() - i,
    {
        out.push(num.plus(us[i], vs[i]));
        i += 1;
        assert(out@ =~= added(*num, us@, vs@).take(i as int));
    }
    assert(added(*num, us@, vs@).take(i as int) =~= added(*num, us@, vs@));
    out
}

/// Computes `scaled`.
pub fn scale_vec<A: Numeric>(num: &A, us: &Vec<Scalar>, c: Scalar) -> (r: Vec<Scalar>)
    requires
        num.sound(),
    ensures
        r@ == scaled(*num, us@, c),
{
    let mut out: Vec<Scalar> = Vec::with_capacity(us.len());
    let mut i: usize = 0;
    while i < us.len()
        invariant
            num.sound(),
            i <= us.len(),
            out@ == scaled(*num, us@, c).take(i as int),
        decreases us.len() - i,
    {
        out.push(num.times(us[i], c));
        i += 1;
        assert(out@ =~= scaled(*num, us@, c).take(i as int));
    }
    assert(scaled(*num, us@, c).take(i as int) =~= scaled(*num, us@, c));
    out
}

/// Each entry with its sign flipped.
pub open spec fn flipped(us: Seq<Scalar>) -> Seq<Scalar> {
    us.map_values(|u: Scalar| crate::scalar::negated(u))
}

/// Computes `flipped`.
pub fn neg(us: &Vec<Scalar>) -> (r: Vec<Scalar>)
    ensures
        r@ == flipped(us@),
{
    let mut out: Vec<Scalar> = Vec::with_capacity(us.len());
    let mut i: usize = 0;
    while i < us.len()
        invariant
            i <= us.len(),
            out@ == flipped(us@).take(i as int),
        decreases us.len() - i,
    {
        out.push(us[i].neg());
        i += 1;
        assert(out@ =~= flipped(us@).take(i as int));
    }
    assert(flipped(us@).take(i as int) =~= flipped(us@));
    out
}

/// Copies a vector.
pub fn copy(us: &Vec<Scalar>) -> (r: Vec<Scalar>)
    ensures
        r@ == us@,
{
    let mut out: Vec<Scalar> = Vec::with_capacity(us.len());
    let mut i: usize = 0;
    while i < us.len()
        invariant
            i <= us.len(),
            out@ == us@.take(i as int),
        decreases us.len() - i,
    {
        out.push(us[i]);
        i += 1;
        assert(out@ =~= us@.take(i as int));
    }
    assert(us@.take(i as int) =~= us@);
    out
}

/// The sum of the first `n` values, from the left.
pub open spec fn sum_of<A: Numeric>(num: A, vs: Seq<Scalar>, n: int) -> Scalar
    decreases n,
{
    if n <= 0 {
        Scalar { bits: NEG_ZERO_BITS }
    } else {
        num.sum(sum_of(num, vs, n - 1), vs[n - 1])
    }
}

/// The sum of all values.
pub fn sum_all<A: Numeric>(num: &A, vs: &Vec<Scalar>) -> (r: Scalar)
    requires
        num.sound(),
    ensures
        r == sum_of(*num, vs@, vs@.len() as int),
{
    let mut total: Scalar = Scalar { bits: NEG_ZERO_BITS };
    let mut i: usize = 0;
    while i < vs.len()
        invariant
            num.sound(),
            i <= vs@.len(),
            total == sum_of(*num, vs@, i as int),
        decreases vs.len() - i,
    {
        total = num.plus(total, vs[i]);
        i += 1;
    }
    total
}

} // verus!
