//! Functions on doubles beyond arithmetic, as a parameter.
//!
//! Logarithm, rounding, sine, the argument of a complex amplitude, rotations and
//! the reference phase of the incidence medium come from the caller. All that is asked of
//! them is that their results depend on the operands alone.
use crate::numeric;
use crate::scalar::Scalar;
use vstd::prelude::*;

verus! {

/// What a five-operand function returns.
pub open spec fn phase_of<F: Fn(Scalar, Scalar, Scalar, Scalar, Scalar) -> Scalar>(
    f: F,
    wl: Scalar,
    n: Scalar,
    angle: Scalar,
    d: Scalar,
    passes: Scalar,
) -> Scalar {
    choose|r: Scalar| call_ensures(f, (wl, n, angle, d, passes), r)
}

/// The function takes all operands and its result depends on them alone.
pub open spec fn settled_phase<F: Fn(Scalar, Scalar, Scalar, Scalar, Scalar) -> Scalar>(
    f: F,
) -> bool {
    &&& forall|wl: Scalar, n: Scalar, angle: Scalar, d: Scalar, passes: Scalar| #[trigger]
        call_requires(f, (wl, n, angle, d, passes))
    &&& forall|wl: Scalar, n: Scalar, angle: Scalar, d: Scalar, passes: Scalar, r: Scalar|
        #[trigger]
        call_ensures(f, (wl, n, angle, d, passes), r) ==> r == phase_of(f, wl, n, angle, d, passes)
}

/// What a three-operand function returns.
pub open spec fn number_of<F: Fn(Scalar, Scalar, Scalar) -> Scalar>(
    f: F,
    wl: Scalar,
    n: Scalar,
    angle: Scalar,
) -> Scalar {
    choose|r: Scalar| call_ensures(f, (wl, n, angle), r)
}

/// `settled_phase` for three operands.
pub open spec fn settled_number<F: Fn(Scalar, Scalar, Scalar) -> Scalar>(f: F) -> bool {
    &&& forall|wl: Scalar, n: Scalar, angle: Scalar| #[trigger] call_requires(f, (wl, n, angle))
    &&& forall|wl: Scalar, n: Scalar, angle: Scalar, r: Scalar| #[trigger]
        call_ensures(f, (wl, n, angle), r) ==> r == number_of(f, wl, n, angle)
}

/// What a function to complex numbers returns.
pub open spec fn pair_of<F: Fn(Scalar) -> (Scalar, Scalar)>(f: F, x: Scalar) -> (Scalar, Scalar) {
    choose|r: (Scalar, Scalar)| call_ensures(f, (x,), r)
}

/// `settled_phase` for a function to complex numbers.
pub open spec fn settled_pair<F: Fn(Scalar) -> (Scalar, Scalar)>(f: F) -> bool {
    &&& forall|x: Scalar| #[trigger] call_requires(f, (x,))
    &&& forall|x: Scalar, r: (Scalar, Scalar)| #[trigger]
        call_ensures(f, (x,), r) ==> r == pair_of(f, x)
}

/// The functions that the merit needs beyond arithmetic.
pub trait Optics: Sized {
    /// The functions take all operands and return what is said below.
    spec fn lawful(self) -> bool;

    /// The decadic logarithm.
    spec fn decadic(self, x: Scalar) -> Scalar;

    /// The nearest whole number.
    spec fn rounded(self, x: Scalar) -> Scalar;

    /// The sine of an angle in degrees.
    spec fn sine_of(self, degrees: Scalar) -> Scalar;

    /// The factor that takes a phase away: `exp(-i x)`.
    spec fn turned(self, x: Scalar) -> (Scalar, Scalar);

    /// The argument of a complex number.
    spec fn argument(self, re: Scalar, im: Scalar) -> Scalar;

    /// The phase gained in the incidence medium on the way through a stack.
    spec fn reference(
        self,
        wl: Scalar,
        n: Scalar,
        angle: Scalar,
        d: Scalar,
        passes: Scalar,
    ) -> Scalar;

    /// The wave number of that phase.
    spec fn wavenumber(self, wl: Scalar, n: Scalar, angle: Scalar) -> Scalar;

    fn log10(&self, x: Scalar) -> (r: Scalar)
        requires
            self.lawful(),
        ensures
            r == self.decadic(x),
    ;

    fn round(&self, x: Scalar) -> (r: Scalar)
        requires
            self.lawful(),
        ensures
            r == self.rounded(x),
    ;

    fn sine(&self, degrees: Scalar) -> (r: Scalar)
        requires
            self.lawful(),
        ensures
            r == self.sine_of(degrees),
    ;

    fn turn(&self, x: Scalar) -> (r: (Scalar, Scalar))
        requires
            self.lawful(),
        ensures
            r == self.turned(x),
    ;

    fn arg(&self, re: Scalar, im: Scalar) -> (r: Scalar)
        requires
            self.lawful(),
        ensures
            r == self.argument(re, im),
    ;

    fn reference_phase(
        &self,
        wl: Scalar,
        n: Scalar,
        angle: Scalar,
        d: Scalar,
        passes: Scalar,
    ) -> (r: Scalar)
        requires
            self.lawful(),
        ensures
            r == self.reference(wl, n, angle, d, passes),
    ;

    fn reference_wavenumber(&self, wl: Scalar, n: Scalar, angle: Scalar) -> (r: Scalar)
        requires
            self.lawful(),
        ensures
            r == self.wavenumber(wl, n, angle),
    ;
}

/// The functions, each given as one.
pub struct Physics<L, R, S, T, G, F, K> {
    pub log10: L,
    pub round: R,
    pub sine: S,
    pub turn: T,
    pub arg: G,
    pub reference_phase: F,
    pub reference_wavenumber: K,
}

impl<
    L: Fn(Scalar) -> Scalar,
    R: Fn(Scalar) -> Scalar,
    S: Fn(Scalar) -> Scalar,
    T: Fn(Scalar) -> (Scalar, Scalar),
    G: Fn(Scalar, Scalar) -> Scalar,
    F: Fn(Scalar, Scalar, Scalar, Scalar, Scalar) -> Scalar,
    K: Fn(Scalar, Scalar, Scalar) -> Scalar,
> Optics for Physics<L, R, S, T, G, F, K> {
    open spec fn lawful(self) -> bool {
        &&& numeric::settled_image(self.log10)
        &&& numeric::settled_image(self.round)
        &&& numeric::settled_image(self.sine)
        &&& settled_pair(self.turn)
        &&& numeric::settled(self.arg)
        &&& settled_phase(self.reference_phase)
        &&& settled_number(self.reference_wavenumber)
    }

    open spec fn decadic(self, x: Scalar) -> Scalar {
        numeric::image_of(self.log10, x)
    }

    open spec fn rounded(self, x: Scalar) -> Scalar {
        numeric::image_of(self.round, x)
    }

    open spec fn sine_of(self, degrees: Scalar) -> Scalar {
        numeric::image_of(self.sine, degrees)
    }

    open spec fn turned(self, x: Scalar) -> (Scalar, Scalar) {
        pair_of(self.turn, x)
    }

    open spec fn argument(self, re: Scalar, im: Scalar) -> Scalar {
        numeric::result_of(self.arg, re, im)
    }

    open spec fn reference(
        self,
        wl: Scalar,
        n: Scalar,
        angle: Scalar,
        d: Scalar,
        passes: Scalar,
    ) -> Scalar {
        phase_of(self.reference_phase, wl, n, angle, d, passes)
    }

    open spec fn wavenumber(self, wl: Scalar, n: Scalar, angle: Scalar) -> Scalar {
        number_of(self.reference_wavenumber, wl, n, angle)
    }

    fn log10(&self, x: Scalar) -> (r: Scalar) {
        (self.log10)(x)
    }

    fn round(&self, x: Scalar) -> (r: Scalar) {
        (self.round)(x)
    }

    fn sine(&self, degrees: Scalar) -> (r: Scalar) {
        (self.sine)(degrees)
    }

    fn turn(&self, x: Scalar) -> (r: (Scalar, Scalar)) {
        (self.turn)(x)
    }

    fn arg(&self, re: Scalar, im: Scalar) -> (r: Scalar) {
        (self.arg)(re, im)
    }

    fn reference_phase(
        &self,
        wl: Scalar,
        n: Scalar,
        angle: Scalar,
        d: Scalar,
        passes: Scalar,
    ) -> (r: Scalar) {
        (self.reference_phase)(wl, n, angle, d, passes)
    }

    fn reference_wavenumber(&self, wl: Scalar, n: Scalar, angle: Scalar) -> (r: Scalar) {
        (self.reference_wavenumber)(wl, n, angle)
    }
}

} // verus!
