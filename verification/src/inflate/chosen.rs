//! Which films are inflated, and that the others are left alone.
use crate::inflate::{chosen_films, grown, inflated, selective};
use crate::numeric::Numeric;
use crate::scalar;
use crate::scalar::Scalar;
use crate::sorting;
use crate::structure::LayerView;
use vstd::prelude::*;

verus! {

/// Only the chosen films grow, each of them once: the others keep every value,
/// and a chosen one changes in its thickness alone.
pub proof fn only_the_chosen_films_grow<A: Numeric>(
    num: A,
    rows: Seq<LayerView>,
    deltas: Seq<Scalar>,
    chosen: Seq<usize>,
    n: int,
    i: int,
)
    requires
        0 <= n <= chosen.len(),
        0 <= i < rows.len(),
        chosen.no_duplicates(),
        forall|j: int| 0 <= j < chosen.len() ==> (#[trigger] chosen[j]) < rows.len(),
    ensures
        ({
            let out = inflated(num, rows, deltas, chosen, n);
            &&& out.len() == rows.len()
            &&& (forall|j: int| 0 <= j < n ==> #[trigger] chosen[j] != i) ==> out[i] == rows[i]
            &&& (exists|j: int| 0 <= j < n && #[trigger] chosen[j] == i) ==> out[i]
                == rows[i].at(grown(num, rows[i].d_nm, deltas[i]))
        }),
    decreases n,
{
    if n > 0 {
        only_the_chosen_films_grow(num, rows, deltas, chosen, n - 1, i);
        let last = chosen[n - 1];
        assert(last < rows.len());
        only_the_chosen_films_grow(num, rows, deltas, chosen, n - 1, last as int);
        assert forall|j: int| 0 <= j < n - 1 implies #[trigger] chosen[j] != last by {}
        if last == i {
            assert(chosen[n - 1] == i);
        } else if exists|j: int| 0 <= j < n && #[trigger] chosen[j] == i {
            let j = choose|j: int| 0 <= j < n && #[trigger] chosen[j] == i;
            assert(0 <= j < n - 1 && chosen[j] == i);
        }
    }
}

/// The chosen films are the most telling: as many as asked for, no two the
/// same, none with a higher merit than one that was passed over; all films
/// where no limit bites.
pub proof fn the_chosen_films_are_the_best(
    scores: Seq<Scalar>,
    max_layers: Option<usize>,
    a: int,
    b: int,
)
    requires
        scores.len() <= usize::MAX,
        forall|i: int| 0 <= i < scores.len() ==> !(#[trigger] scores[i]).nan(),
        selective(max_layers, scores.len()),
        0 <= a < max_layers->0,
        max_layers->0 <= b < scores.len(),
    ensures
        ({
            let chosen = chosen_films(scores, max_layers, scores.len());
            &&& chosen.len() == max_layers->0
            &&& chosen.no_duplicates()
            &&& forall|i: int| 0 <= i < chosen.len() ==> (#[trigger] chosen[i]) < scores.len()
            &&& scalar::at_most(
                scores[chosen[a] as int],
                scores[sorting::order_of(scores)[b] as int],
            )
        }),
{
    let n = scores.len() as int;
    sorting::order_is_a_permutation(scores, n);
    sorting::order_ascends(scores, n);
    let order = sorting::order_of(scores);
    let chosen = chosen_films(scores, max_layers, scores.len());
    assert(chosen[a] == order[a]);
    assert forall|i: int, j: int| 0 <= i < chosen.len() && 0 <= j < chosen.len() && i != j implies
        chosen[i] != chosen[j] by {
        assert(order[i] != order[j]);
    }
}

/// Without a limit, or with one that does not bite, every film is chosen.
pub proof fn without_a_limit_every_film_is_chosen(
    scores: Seq<Scalar>,
    max_layers: Option<usize>,
    n: nat,
)
    requires
        !selective(max_layers, n),
        n <= usize::MAX,
    ensures
        chosen_films(scores, max_layers, n).len() == n,
        forall|i: int|
            0 <= i < n ==> #[trigger] chosen_films(scores, max_layers, n)[i] == i,
        max_layers matches Some(m) ==> m >= n,
{
}

} // verus!
