//! What the detector sees: the newest samples and no others, and how often a
//! history turns.
use crate::numeric::Numeric;
use crate::reading;
use crate::reading::Reading;
use crate::scalar;
use crate::scalar::Scalar;
use crate::stagnation::{
    directions, effective, gradient, streak, tail, turns, verdict, wobble, TerminationReason, Watch,
};
use vstd::prelude::*;

verus! {

/// The newest samples of two histories agree, `n` of them.
pub open spec fn newest_agree(h: Seq<Scalar>, g: Seq<Scalar>, n: int) -> bool {
    &&& n <= h.len()
    &&& n <= g.len()
    &&& forall|i: int| 0 < i <= n ==> #[trigger] newest(h, i) == newest(g, i)
}

/// The `i`-th sample from the end; the last is the first.
pub open spec fn newest(h: Seq<Scalar>, i: int) -> Scalar {
    h[h.len() - i]
}

/// The window is the end of the history, and no longer than it says.
pub proof fn the_window_is_the_end_of_the_history(h: Seq<Scalar>, window: usize)
    ensures
        tail(h, window).len() == (if h.len() < window {
            h.len() as int
        } else {
            window as int
        }),
        forall|i: int|
            0 < i <= tail(h, window).len() ==> newest(tail(h, window), i) == #[trigger] newest(
                h,
                i,
            ),
{
}

/// Only the window counts: two histories whose newest samples agree have the
/// same slope and turn equally often, whatever came before.
pub proof fn only_the_window_counts<A: Numeric>(
    num: A,
    h: Seq<Scalar>,
    g: Seq<Scalar>,
    window: usize,
)
    requires
        window >= 2,
        newest_agree(h, g, window as int),
    ensures
        gradient(num, h, window) == gradient(num, g, window),
        wobble(num, h, window) == wobble(num, g, window),
{
    let a = tail(h, window);
    let b = tail(g, window);
    the_window_is_the_end_of_the_history(h, window);
    the_window_is_the_end_of_the_history(g, window);
    assert forall|i: int| 0 <= i < window implies a[i] == b[i] by {
        let j = window - i;
        assert(newest(h, j) == newest(g, j));
        assert(newest(a, j) == newest(h, j));
        assert(newest(b, j) == newest(g, j));
    }
    assert(a =~= b);
    if window == 2 {
        few_directions(num, a, 2);
    }
}

/// There are fewer directions than samples.
proof fn few_directions<A: Numeric>(num: A, y: Seq<Scalar>, n: int)
    ensures
        n >= 1 ==> directions(num, y, n).len() < n,
        n < 1 ==> directions(num, y, n).len() == 0,
    decreases n,
{
    if n >= 2 {
        few_directions(num, y, n - 1);
    }
}

/// Sample `j` is not below the one before.
pub open spec fn keeps_up(h: Seq<Scalar>, j: int) -> bool {
    scalar::at_most(h[j - 1], h[j])
}

/// A streak is as long as the history does not fall: it reaches `c` exactly
/// where none of the last `c` samples is below the one before it.
pub proof fn a_streak_does_not_fall(h: Seq<Scalar>, i: int, c: int)
    requires
        0 <= i < h.len(),
        0 <= c,
    ensures
        streak(h, i) >= c <==> c <= i && forall|j: int|
            i - c < j <= i ==> #[trigger] keeps_up(h, j),
    decreases i,
{
    if c > 0 && i > 0 {
        a_streak_does_not_fall(h, i - 1, c - 1);
        assert(keeps_up(h, i) <==> scalar::at_most(h[i - 1], h[i]));
    }
    if c > i {
        short_streak(h, i);
    }
}

proof fn short_streak(h: Seq<Scalar>, i: int)
    requires
        0 <= i,
    ensures
        streak(h, i) <= i,
    decreases i,
{
    if i > 0 {
        short_streak(h, i - 1);
    }
}

/// The last `window` samples go up at every step, or down at every step.
pub open spec fn one_way<A: Numeric>(num: A, y: Seq<Scalar>, up: bool) -> bool {
    forall|i: int| 0 < i < y.len() ==> #[trigger] heads(num, y, i, up)
}

/// The samples go up and down in turn.
pub open spec fn zigzag<A: Numeric>(num: A, y: Seq<Scalar>, first: bool) -> bool {
    forall|i: int| 0 < i < y.len() ==> #[trigger] alternates(num, y, i, first)
}

/// Sample `i` lies on the given side of the one before.
pub open spec fn heads<A: Numeric>(num: A, y: Seq<Scalar>, i: int, up: bool) -> bool {
    let zero = Scalar { bits: 0 };
    let d = num.difference(y[i], y[i - 1]);
    if up {
        scalar::less(zero, d)
    } else {
        scalar::less(d, zero)
    }
}

/// Sample `i` lies on its side of the one before, the sides taking turns.
pub open spec fn alternates<A: Numeric>(num: A, y: Seq<Scalar>, i: int, first: bool) -> bool {
    heads(num, y, i, (i % 2 == 1) == first)
}

/// A history that goes one way does not oscillate.
pub proof fn one_way_does_not_oscillate<A: Numeric>(
    num: A,
    k: Reading,
    h: Seq<Scalar>,
    window: usize,
    up: bool,
)
    requires
        reading::faithful(num, k),
        k.holds(0real),
        h.len() >= window >= 3,
        k.holds((window - 2) as real),
        one_way(num, tail(h, window), up),
    ensures
        k.is(wobble(num, h, window), 0real),
{
    let y = tail(h, window);
    let n = y.len() as int;
    one_way_directions(num, y, up, n);
    let s = directions(num, y, n);
    no_turns(s, up, s.len() as int);
    let m = (window - 2) as usize;
    assert(k.is(num.whole(m), m as real));
    assert(k.is(num.whole(0), 0real));
    reading::cancelled(0real, m as real);
}

proof fn one_way_directions<A: Numeric>(num: A, y: Seq<Scalar>, up: bool, n: int)
    requires
        1 <= n <= y.len(),
        one_way(num, y, up),
    ensures
        directions(num, y, n).len() == n - 1,
        forall|i: int| 0 <= i < n - 1 ==> #[trigger] directions(num, y, n)[i] == up,
    decreases n,
{
    if n >= 2 {
        one_way_directions(num, y, up, n - 1);
        assert(heads(num, y, n - 1, up));
    }
}

proof fn no_turns(s: Seq<bool>, up: bool, n: int)
    requires
        0 <= n <= s.len(),
        forall|i: int| 0 <= i < s.len() ==> #[trigger] s[i] == up,
    ensures
        turns(s, n) == 0,
    decreases n,
{
    if n >= 2 {
        no_turns(s, up, n - 1);
    }
}

/// A history that goes up and down in turn oscillates all the time.
pub proof fn a_zigzag_oscillates_all_the_time<A: Numeric>(
    num: A,
    k: Reading,
    h: Seq<Scalar>,
    window: usize,
    first: bool,
)
    requires
        reading::faithful(num, k),
        k.holds(1real),
        h.len() >= window >= 3,
        k.holds((window - 2) as real),
        zigzag(num, tail(h, window), first),
    ensures
        k.is(wobble(num, h, window), 1real),
{
    let y = tail(h, window);
    let n = y.len() as int;
    zigzag_directions(num, y, first, n);
    let s = directions(num, y, n);
    all_turns(s, s.len() as int);
    let m = (window - 2) as usize;
    assert(k.is(num.whole(m), m as real));
    reading::cancelled(1real, m as real);
}

proof fn zigzag_directions<A: Numeric>(num: A, y: Seq<Scalar>, first: bool, n: int)
    requires
        1 <= n <= y.len(),
        zigzag(num, y, first),
    ensures
        directions(num, y, n).len() == n - 1,
        forall|i: int|
            0 <= i < n - 1 ==> #[trigger] directions(num, y, n)[i] == ((i % 2 == 0) == first),
    decreases n,
{
    if n >= 2 {
        zigzag_directions(num, y, first, n - 1);
        assert(alternates(num, y, n - 1, first));
        let zero = Scalar { bits: 0 };
        let d = num.difference(y[n - 1], y[n - 2]);
        assert(!(scalar::less(zero, d) && scalar::less(d, zero)));
    }
}

proof fn all_turns(s: Seq<bool>, n: int)
    requires
        1 <= n <= s.len(),
        forall|i: int, j: int|
            #![trigger s[i], s[j]]
            0 <= i < s.len() && j == i + 1 && j < s.len() ==> s[i] != s[j],
    ensures
        turns(s, n) == n - 1,
    decreases n,
{
    if n >= 2 {
        all_turns(s, n - 1);
        assert(s[n - 2] != s[n - 1]);
    }
}

/// A window that goes up, or does not move by more than the tolerance, ends
/// the run; one that falls by more, turns seldom and has not risen for long
/// does not.
pub proof fn only_a_falling_history_goes_on<A: Numeric>(num: A, h: Seq<Scalar>, w: Watch)
    requires
        h.len() >= w.window,
        w.window >= 2,
    ensures
        ({
            let zero = Scalar { bits: 0 };
            let g = gradient(num, h, w.window);
            let falls = !scalar::less(zero, g) && !scalar::less(
                scalar::absolute(g),
                w.gradient_tol,
            );
            let turns_often = scalar::at_most(w.oscillation_ratio, wobble(num, h, w.window));
            let rises = streak(h, h.len() - 1) >= w.divergence_count;
            &&& verdict(num, h, w) is None <==> falls && !turns_often && !rises
            &&& verdict(num, h, w) == Some(TerminationReason::StagnationOscillation)
                <==> turns_often && !rises
        }),
{
}

/// What the detector says of a full window is settled by the newest samples:
/// those of the window, and one more than a streak takes.
pub proof fn only_the_newest_samples_decide<A: Numeric>(
    num: A,
    h: Seq<Scalar>,
    g: Seq<Scalar>,
    w: Watch,
    n: int,
)
    requires
        w.window >= 2,
        n >= w.window,
        n > w.divergence_count,
        newest_agree(h, g, n),
    ensures
        verdict(num, h, w) == verdict(num, g, w),
{
    let c = w.divergence_count as int;
    assert(newest_agree(h, g, w.window as int)) by {
        assert forall|i: int| 0 < i <= w.window implies #[trigger] newest(h, i) == newest(g, i) by {}
    }
    only_the_window_counts(num, h, g, w.window);
    a_streak_does_not_fall(h, h.len() - 1, c);
    a_streak_does_not_fall(g, g.len() - 1, c);
    let (a, b) = (h.len() as int, g.len() as int);
    assert forall|j: int| a - 1 - c < j <= a - 1 implies (#[trigger] keeps_up(h, j) <==> keeps_up(
        g,
        j - a + b,
    )) by {
        let i = a - j;
        assert(newest(h, i) == newest(g, i));
        assert(newest(h, i + 1) == newest(g, i + 1));
    }
    assert forall|j: int| b - 1 - c < j <= b - 1 implies (#[trigger] keeps_up(g, j) <==> keeps_up(
        h,
        j - b + a,
    )) by {
        let i = b - j;
        assert(newest(h, i) == newest(g, i));
        assert(newest(h, i + 1) == newest(g, i + 1));
    }
}

/// Windows and streaks take effect with two samples at least, and as they are
/// from there on; the limits stay.
pub proof fn limits_take_effect_from_two(w: Watch)
    ensures
        effective(w).window >= 2,
        effective(w).divergence_count >= 2,
        w.window >= 2 ==> effective(w).window == w.window,
        w.divergence_count >= 2 ==> effective(w).divergence_count == w.divergence_count,
        effective(w).gradient_tol == w.gradient_tol,
        effective(w).oscillation_ratio == w.oscillation_ratio,
{
}

} // verus!
