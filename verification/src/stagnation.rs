//! Telling a search that no longer gets anywhere.
pub mod line;
pub mod trend;

use crate::numeric;
use crate::numeric::Numeric;
use crate::scalar;
use crate::scalar::Scalar;
use crate::text;
use crate::text::decimal_text;
use vstd::prelude::*;
use vstd::string::*;

verus! {

/// Why a run ended.
#[derive(Clone, Copy, Debug, PartialEq, Eq, Structural)]
pub enum TerminationReason {
    MaxIterationsReached,
    LayerBudgetReached,
    ThicknessBudgetReached,
    MeritTargetReached,
    StagnationPlateau,
    StagnationOscillation,
    StagnationDivergence,
    UserAbort,
}

/// 2.
pub const TWO_BITS: u64 = 0x4000_0000_0000_0000;

/// 100.
pub const HUNDRED_BITS: u64 = 0x4059_0000_0000_0000;

/// Watches the merit over a sliding window.
#[derive(Debug)]
pub struct StagnationDetector {
    window: usize,
    gradient_tol: Scalar,
    oscillation_ratio: Scalar,
    divergence_count: usize,
    history: Vec<Scalar>,
}

/// The limits of a detector.
pub struct Watch {
    pub window: usize,
    pub gradient_tol: Scalar,
    pub oscillation_ratio: Scalar,
    pub divergence_count: usize,
}

/// The limits as they take effect: windows and streaks are at least two.
pub open spec fn effective(w: Watch) -> Watch {
    Watch {
        window: if w.window < 2 {
            2
        } else {
            w.window
        },
        divergence_count: if w.divergence_count < 2 {
            2
        } else {
            w.divergence_count
        },
        ..w
    }
}

/// The last `window` samples.
pub open spec fn tail(h: Seq<Scalar>, window: usize) -> Seq<Scalar> {
    if h.len() <= window {
        h
    } else {
        h.subrange(h.len() - window, h.len() as int)
    }
}

/// How far sample `i` lies from the middle of the window.
pub open spec fn offset<A: Numeric>(num: A, i: int, x_mean: Scalar) -> Scalar {
    num.difference(num.whole(i as usize), x_mean)
}

/// The sum of offset times deviation over the first `n` samples.
pub open spec fn rise<A: Numeric>(
    num: A,
    y: Seq<Scalar>,
    x_mean: Scalar,
    y_mean: Scalar,
    n: int,
) -> Scalar
    decreases n,
{
    if n <= 0 {
        Scalar::zero()
    } else {
        num.sum(
            rise(num, y, x_mean, y_mean, n - 1),
            num.product(offset(num, n - 1, x_mean), num.difference(y[n - 1], y_mean)),
        )
    }
}

/// The sum of squared offsets over the first `n` samples.
pub open spec fn run<A: Numeric>(num: A, x_mean: Scalar, n: int) -> Scalar
    decreases n,
{
    if n <= 0 {
        Scalar::zero()
    } else {
        num.sum(
            run(num, x_mean, n - 1),
            num.product(offset(num, n - 1, x_mean), offset(num, n - 1, x_mean)),
        )
    }
}

/// The regression slope over the window, by the mean; negative infinity for
/// fewer than two samples, zero for a zero mean.
pub open spec fn gradient<A: Numeric>(num: A, h: Seq<Scalar>, window: usize) -> Scalar {
    if h.len() < 2 {
        Scalar::neg_infinity()
    } else {
        let y = tail(h, window);
        let k = y.len() as int;
        let n = num.whole(k as usize);
        let x_mean = num.quotient(
            num.difference(n, Scalar::one()),
            (Scalar { bits: TWO_BITS }),
        );
        let y_mean = num.quotient(numeric::sum_of(num, y, k), n);
        let den = run(num, x_mean, k);
        if scalar::same(y_mean, Scalar::zero()) || scalar::same(den, Scalar::zero()) {
            Scalar::zero()
        } else {
            num.quotient(
                num.quotient(rise(num, y, x_mean, y_mean, k), den),
                scalar::absolute(y_mean),
            )
        }
    }
}

/// The directions of the changes that are not flat, among the first `n`
/// samples: up is true.
pub open spec fn directions<A: Numeric>(num: A, y: Seq<Scalar>, n: int) -> Seq<bool>
    decreases n,
{
    if n < 2 {
        seq![]
    } else {
        let before = directions(num, y, n - 1);
        let d = num.difference(y[n - 1], y[n - 2]);
        if scalar::less(Scalar::zero(), d) {
            before.push(true)
        } else if scalar::less(d, Scalar::zero()) {
            before.push(false)
        } else {
            before
        }
    }
}

/// How often the direction changes among the first `n`.
pub open spec fn turns(s: Seq<bool>, n: int) -> nat
    decreases n,
{
    if n < 2 {
        0
    } else if s[n - 1] != s[n - 2] {
        turns(s, n - 1) + 1
    } else {
        turns(s, n - 1)
    }
}

/// The fraction of changes of direction; zero with too little data.
pub open spec fn wobble<A: Numeric>(num: A, h: Seq<Scalar>, window: usize) -> Scalar {
    let y = tail(h, window);
    let s = directions(num, y, y.len() as int);
    if h.len() < 3 || s.len() < 2 {
        Scalar::zero()
    } else {
        num.quotient(
            num.whole(turns(s, s.len() as int) as usize),
            num.whole((s.len() - 1) as usize),
        )
    }
}

/// How many samples up to `i` in a row are not below the one before.
pub open spec fn streak(h: Seq<Scalar>, i: int) -> nat
    decreases i,
{
    if i < 1 || !scalar::at_most(h[i - 1], h[i]) {
        0
    } else {
        streak(h, i - 1) + 1
    }
}

/// The verdict on a history: nothing before the window is full; then
/// divergence before oscillation before plateau.
pub open spec fn verdict<A: Numeric>(num: A, h: Seq<Scalar>, w: Watch) -> Option<
    TerminationReason,
> {
    let g = gradient(num, h, w.window);
    if h.len() < w.window {
        None
    } else if streak(h, h.len() - 1) >= w.divergence_count {
        Some(TerminationReason::StagnationDivergence)
    } else if scalar::at_most(w.oscillation_ratio, wobble(num, h, w.window)) {
        Some(TerminationReason::StagnationOscillation)
    } else if scalar::less(scalar::absolute(g), w.gradient_tol) || scalar::less(
        Scalar::zero(),
        g,
    ) {
        Some(TerminationReason::StagnationPlateau)
    } else {
        None
    }
}

/// The newest samples in a row that are not below the one before.
pub open spec fn increases(h: Seq<Scalar>) -> nat {
    if h.len() < 2 {
        0
    } else {
        streak(h, h.len() - 1)
    }
}

/// A detector's state in words.
pub open spec fn summary_text<
    A: Numeric,
    S: Fn(Scalar) -> String,
    W: Fn(Scalar) -> String,
>(num: A, signed: S, whole: W, h: Seq<Scalar>, window: usize) -> Seq<char> {
    "StagnationDetector(samples="@ + text::decimal(h.len()) + ", gradient="@ + text::shown(
        signed,
        gradient(num, h, window),
    ) + ", oscillation="@ + text::shown(
        whole,
        num.product(wobble(num, h, window), Scalar { bits: HUNDRED_BITS }),
    ) + "%, consecutive_up="@ + text::decimal(increases(h)) + ")"@
}

impl StagnationDetector {
    pub closed spec fn samples(&self) -> Seq<Scalar> {
        self.history@
    }

    pub closed spec fn watch(&self) -> Watch {
        Watch {
            window: self.window,
            gradient_tol: self.gradient_tol,
            oscillation_ratio: self.oscillation_ratio,
            divergence_count: self.divergence_count,
        }
    }

    /// A detector without samples; windows and streaks are at least two.
    pub fn new(
        window: usize,
        gradient_tol: Scalar,
        oscillation_ratio: Scalar,
        divergence_count: usize,
    ) -> (r: Self)
        ensures
            r.samples() == Seq::<Scalar>::empty(),
            r.watch() == effective(
                (Watch { window, gradient_tol, oscillation_ratio, divergence_count }),
            ),
    {
        StagnationDetector {
            window: if window < 2 {
                2
            } else {
                window
            },
            gradient_tol,
            oscillation_ratio,
            divergence_count: if divergence_count < 2 {
                2
            } else {
                divergence_count
            },
            history: Vec::new(),
        }
    }

    /// The same as `new`.
    pub fn from_params(
        window: usize,
        gradient_tol: Scalar,
        oscillation_ratio: Scalar,
        divergence_count: usize,
    ) -> (r: Self)
        ensures
            r.samples() == Seq::<Scalar>::empty(),
            r.watch() == effective(
                (Watch { window, gradient_tol, oscillation_ratio, divergence_count }),
            ),
    {
        Self::new(window, gradient_tol, oscillation_ratio, divergence_count)
    }

    /// Takes a sample.
    pub fn record(&mut self, mf: Scalar)
        ensures
            final(self).samples() == old(self).samples().push(mf),
            final(self).watch() == old(self).watch(),
    {
        self.history.push(mf);
    }

    /// How many samples there are.
    pub fn count(&self) -> (r: usize)
        ensures
            r == self.samples().len(),
    {
        self.history.len()
    }

    /// The samples.
    pub fn history(&self) -> (r: &Vec<Scalar>)
        ensures
            r@ == self.samples(),
    {
        &self.history
    }

    /// Forgets all samples.
    pub fn reset(&mut self)
        ensures
            final(self).samples() == Seq::<Scalar>::empty(),
            final(self).watch() == old(self).watch(),
    {
        self.history.clear();
    }

    /// Where the window starts.
    fn recent(&self) -> (r: usize)
        ensures
            r <= self.samples().len(),
            tail(self.samples(), self.watch().window) == self.samples().subrange(
                r as int,
                self.samples().len() as int,
            ),
    {
        let n: usize = self.history.len();
        assert(self.samples().subrange(0, n as int) =~= self.samples());
        if n <= self.window {
            0
        } else {
            n - self.window
        }
    }

    /// The regression slope over the window, by the mean: negative while the
    /// merit improves.
    pub fn normalised_gradient<A: Numeric>(&self, num: &A) -> (r: Scalar)
        requires
            num.sound(),
        ensures
            r == gradient(*num, self.samples(), self.watch().window),
    {
        if self.history.len() < 2 {
            return Scalar::neg_infinity();
        }
        let start: usize = self.recent();
        let ghost y = tail(self.samples(), self.watch().window);
        let len: usize = self.history.len();
        let k: usize = len - start;
        let n: Scalar = num.count(k);
        let x_mean: Scalar = num.over(
            num.minus(n, Scalar::one()),
            Scalar { bits: TWO_BITS },
        );
        let mut total: Scalar = Scalar { bits: numeric::NEG_ZERO_BITS };
        let mut i: usize = 0;
        while i < k
            invariant
                num.sound(),
                len == self.history@.len(),
                start <= len,
                k == len - start,
                y == self.history@.subrange(start as int, self.history@.len() as int),
                i <= k,
                total == numeric::sum_of(*num, y, i as int),
            decreases k - i,
        {
            total = num.plus(total, self.history[start + i]);
            i += 1;
        }
        let y_mean: Scalar = num.over(total, n);
        if y_mean.same_value(Scalar::zero()) {
            return Scalar::zero();
        }
        let mut up: Scalar = Scalar::zero();
        let mut den: Scalar = Scalar::zero();
        let mut j: usize = 0;
        while j < k
            invariant
                num.sound(),
                len == self.history@.len(),
                start <= len,
                k == len - start,
                y == self.history@.subrange(start as int, self.history@.len() as int),
                j <= k,
                up == rise(*num, y, x_mean, y_mean, j as int),
                den == run(*num, x_mean, j as int),
            decreases k - j,
        {
            let dx: Scalar = num.minus(num.count(j), x_mean);
            let dy: Scalar = num.minus(self.history[start + j], y_mean);
            up = num.plus(up, num.times(dx, dy));
            den = num.plus(den, num.times(dx, dx));
            j += 1;
        }
        if den.same_value(Scalar::zero()) {
            return Scalar::zero();
        }
        num.over(num.over(up, den), y_mean.abs())
    }

    /// The fraction of changes of direction in the window; flat steps do not
    /// count.
    pub fn oscillation_fraction<A: Numeric>(&self, num: &A) -> (r: Scalar)
        requires
            num.sound(),
        ensures
            r == wobble(*num, self.samples(), self.watch().window),
    {
        if self.history.len() < 3 {
            return Scalar::zero();
        }
        let start: usize = self.recent();
        let ghost y = tail(self.samples(), self.watch().window);
        let len: usize = self.history.len();
        let k: usize = len - start;
        let zero: Scalar = Scalar::zero();
        let mut signs: Vec<bool> = Vec::new();
        let mut i: usize = 1;
        if k >= 1 {
            while i < k
                invariant
                    num.sound(),
                    zero == Scalar::zero(),
                    len == self.history@.len(),
                    start <= len,
                    k == len - start,
                    y == self.history@.subrange(start as int, self.history@.len() as int),
                    1 <= i <= k,
                    signs@ == directions(*num, y, i as int),
                decreases k - i,
            {
                let d: Scalar = num.minus(
                    self.history[start + i],
                    self.history[start + i - 1],
                );
                assert(d == num.difference(y[i as int], y[i - 1]));
                if d.gt(zero) {
                    signs.push(true);
                } else if d.lt(zero) {
                    signs.push(false);
                }
                i += 1;
            }
        }
        let m: usize = signs.len();
        if m < 2 {
            return zero;
        }
        let mut changes: usize = 0;
        let mut j: usize = 1;
        while j < m
            invariant
                m == signs@.len(),
                1 <= j <= m,
                changes == turns(signs@, j as int),
                changes < j,
            decreases m - j,
        {
            if signs[j] != signs[j - 1] {
                changes = changes + 1;
            }
            j += 1;
        }
        num.over(num.count(changes), num.count(m - 1))
    }

    /// The state in words: `signed` shows the gradient with its sign and two
    /// decimals of its mantissa, `whole` a percentage without decimals.
    pub fn summary<A: Numeric, S: Fn(Scalar) -> String, W: Fn(Scalar) -> String>(
        &self,
        num: &A,
        signed: &S,
        whole: &W,
    ) -> (r: String)
        requires
            num.sound(),
            text::shows(*signed),
            text::shows(*whole),
        ensures
            r@ == summary_text(*num, *signed, *whole, self.samples(), self.watch().window),
    {
        let slope: String = signed(self.normalised_gradient(num));
        let share: String = whole(
            num.times(self.oscillation_fraction(num), Scalar { bits: HUNDRED_BITS }),
        );
        String::from_str("StagnationDetector(samples=").concat(
            decimal_text(self.count() as u64).as_str(),
        ).concat(", gradient=").concat(slope.as_str()).concat(", oscillation=").concat(
            share.as_str(),
        ).concat("%, consecutive_up=").concat(
            decimal_text(self.consecutive_increases() as u64).as_str(),
        ).concat(")")
    }

    /// How many of the newest samples in a row are not below the one before;
    /// flat steps count.
    pub fn consecutive_increases(&self) -> (r: usize)
        ensures
            r == increases(self.samples()),
    {
        let n: usize = self.history.len();
        if n < 2 {
            return 0;
        }
        let mut i: usize = n - 1;
        let mut found: usize = 0;
        while i >= 1 && self.history[i].ge(self.history[i - 1])
            invariant
                n == self.history@.len(),
                i < n,
                found + i == n - 1,
                found + streak(self.history@, i as int) == streak(self.history@, n - 1),
            decreases i,
        {
            found = found + 1;
            i = i - 1;
        }
        found
    }

    /// Whether to stop, and why.
    pub fn check<A: Numeric>(&self, num: &A) -> (r: Option<TerminationReason>)
        requires
            num.sound(),
            self.watch().window >= 2,
        ensures
            r == verdict(*num, self.samples(), self.watch()),
    {
        if self.history.len() < self.window {
            return None;
        }
        if self.consecutive_increases() >= self.divergence_count {
            return Some(TerminationReason::StagnationDivergence);
        }
        if self.oscillation_fraction(num).ge(self.oscillation_ratio) {
            return Some(TerminationReason::StagnationOscillation);
        }
        let g: Scalar = self.normalised_gradient(num);
        if g.abs().lt(self.gradient_tol) || g.gt(Scalar::zero()) {
            return Some(TerminationReason::StagnationPlateau);
        }
        None
    }
}

/// Nothing is said before the window is full.
pub proof fn silent_before_the_window_is_full<A: Numeric>(num: A, h: Seq<Scalar>, w: Watch)
    requires
        h.len() < w.window,
    ensures
        verdict(num, h, w) is None,
{
}

/// The most urgent reason is named: a full window that rises long enough is a
/// divergence, whatever else it is.
pub proof fn divergence_comes_first<A: Numeric>(num: A, h: Seq<Scalar>, w: Watch)
    requires
        h.len() >= w.window,
        streak(h, h.len() - 1) >= w.divergence_count,
    ensures
        verdict(num, h, w) == Some(TerminationReason::StagnationDivergence),
{
}

/// A history that never falls diverges as soon as it is long enough.
pub proof fn a_rising_history_diverges<A: Numeric>(num: A, h: Seq<Scalar>, w: Watch)
    requires
        h.len() >= w.window,
        h.len() > w.divergence_count,
        forall|i: int| 0 < i < h.len() ==> scalar::at_most(h[i - 1], #[trigger] h[i]),
    ensures
        verdict(num, h, w) == Some(TerminationReason::StagnationDivergence),
{
    rising_streak(h, h.len() - 1);
}

proof fn rising_streak(h: Seq<Scalar>, i: int)
    requires
        0 <= i < h.len(),
        forall|k: int| 0 < k < h.len() ==> scalar::at_most(h[k - 1], #[trigger] h[k]),
    ensures
        streak(h, i) == i,
    decreases i,
{
    if i > 0 {
        rising_streak(h, i - 1);
        assert(scalar::at_most(h[i - 1], h[i]));
    }
}

} // verus!
