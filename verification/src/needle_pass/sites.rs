//! Candidate insertion sites.
use crate::arith;
use crate::scalar;
use crate::scalar::Scalar;
use crate::structure::span;
use crate::structure::span::{span_index_of_row, Span};
use crate::structure::LayerSpec;
use vstd::prelude::*;

verus! {

/// One candidate insertion site.
#[derive(Clone, Copy, Debug, PartialEq, Eq, Structural)]
pub struct ScanSite {
    pub film_idx: usize,
    /// Depth below the top of the film.
    pub depth_into_layer_nm: Scalar,
    /// Depth below the top of the stack.
    pub z_nm: Scalar,
}

/// Film `i` takes needles: it is flagged, it has a thickness, and, where the
/// spans are given, its span has exactly one bulk row.
pub open spec fn admissible(films: Seq<LayerSpec>, spans: Seq<Span>, i: int) -> bool {
    &&& films[i].needle
    &&& scalar::less(Scalar::zero(), films[i].d_nm)
    &&& spans.len() == 0 || spans[span::owner(spans, i)].singleton_bulk()
}

/// `tops` holds the depth of the top of each film, and of the bottom.
pub open spec fn film_tops<P: Fn(Scalar, Scalar) -> Scalar>(
    plus: P,
    films: Seq<LayerSpec>,
    tops: Seq<Scalar>,
) -> bool {
    &&& tops.len() == films.len() + 1
    &&& tops[0] == Scalar::zero()
    &&& forall|i: int|
        0 <= i < films.len() ==> call_ensures(
            plus,
            (tops[i], films[i].d_nm),
            #[trigger] tops[i + 1],
        )
}

/// `chunk` holds the sites of film `i`: the interior multiples of the step.
pub open spec fn film_sites<
    N: Fn(Scalar, Scalar) -> i32,
    K: Fn(i32, Scalar) -> Scalar,
    P: Fn(Scalar, Scalar) -> Scalar,
>(
    steps: N,
    multiple: K,
    plus: P,
    films: Seq<LayerSpec>,
    spans: Seq<Span>,
    step: Scalar,
    top: Scalar,
    i: int,
    chunk: Seq<ScanSite>,
) -> bool {
    if admissible(films, spans, i) {
        exists|n: i32|
            {
                &&& #[trigger] call_ensures(steps, (films[i].d_nm, step), n)
                &&& chunk.len() == (if n > 1 { n - 1 } else { 0 })
                &&& forall|k: int|
                    0 <= k < chunk.len() ==> {
                        let s = #[trigger] chunk[k];
                        &&& s.film_idx == i
                        &&& call_ensures(multiple, ((k + 1) as i32, step), s.depth_into_layer_nm)
                        &&& call_ensures(plus, (top, s.depth_into_layer_nm), s.z_nm)
                    }
            }
    } else {
        chunk.len() == 0
    }
}

/// The chunks one after the other.
pub open spec fn joined(chunks: Seq<Seq<ScanSite>>) -> Seq<ScanSite>
    decreases chunks.len(),
{
    if chunks.len() == 0 {
        seq![]
    } else {
        joined(chunks.drop_last()) + chunks.last()
    }
}

/// `sites` are the candidates of a stack, in order of depth.
pub open spec fn candidate_sites<
    N: Fn(Scalar, Scalar) -> i32,
    K: Fn(i32, Scalar) -> Scalar,
    P: Fn(Scalar, Scalar) -> Scalar,
>(
    steps: N,
    multiple: K,
    plus: P,
    films: Seq<LayerSpec>,
    spans: Seq<Span>,
    step: Scalar,
    sites: Seq<ScanSite>,
) -> bool {
    exists|tops: Seq<Scalar>, chunks: Seq<Seq<ScanSite>>|
        {
            &&& #[trigger] film_tops(plus, films, tops)
            &&& chunks.len() == films.len()
            &&& forall|i: int|
                0 <= i < films.len() ==> film_sites(
                    steps,
                    multiple,
                    plus,
                    films,
                    spans,
                    step,
                    tops[i],
                    i,
                    #[trigger] chunks[i],
                )
            &&& sites == #[trigger] joined(chunks)
        }
}

/// Lists the candidate sites. `steps` says how many whole steps fit into a
/// thickness, `multiple` multiplies the step, `plus` adds. Films that take no
/// needle only add to the depth. Without spans the films' flags alone decide.
pub fn build_scan_sites<
    N: Fn(Scalar, Scalar) -> i32,
    K: Fn(i32, Scalar) -> Scalar,
    P: Fn(Scalar, Scalar) -> Scalar,
>(
    films: &Vec<LayerSpec>,
    spans: &Vec<Span>,
    scan_step_nm: Scalar,
    steps: &N,
    multiple: &K,
    plus: &P,
) -> (r: Vec<ScanSite>)
    requires
        scalar::less(Scalar::zero(), scan_step_nm),
        spans@.len() == 0 || span::partition(spans@, films@.len() as int),
        forall|d: Scalar, s: Scalar| #[trigger] call_requires(*steps, (d, s)),
        forall|k: i32, s: Scalar| #[trigger] call_requires(*multiple, (k, s)),
        arith::accepts_pairs(*plus),
    ensures
        candidate_sites(*steps, *multiple, *plus, films@, spans@, scan_step_nm, r@),
{
    let mut sites: Vec<ScanSite> = Vec::new();
    let mut top: Scalar = Scalar::zero();
    let ghost mut tops: Seq<Scalar> = seq![top];
    let ghost mut chunks: Seq<Seq<ScanSite>> = seq![];
    let mut i: usize = 0;
    while i < films.len()
        invariant
            i <= films.len(),
            spans@.len() == 0 || span::partition(spans@, films@.len() as int),
            forall|d: Scalar, s: Scalar| #[trigger] call_requires(*steps, (d, s)),
            forall|k: i32, s: Scalar| #[trigger] call_requires(*multiple, (k, s)),
            arith::accepts_pairs(*plus),
            tops.len() == i + 1,
            tops[0] == Scalar::zero(),
            tops.last() == top,
            forall|j: int|
                0 <= j < i ==> call_ensures(
                    *plus,
                    (tops[j], films@[j].d_nm),
                    #[trigger] tops[j + 1],
                ),
            chunks.len() == i,
            forall|j: int|
                0 <= j < i ==> film_sites(
                    *steps,
                    *multiple,
                    *plus,
                    films@,
                    spans@,
                    scan_step_nm,
                    tops[j],
                    j,
                    #[trigger] chunks[j],
                ),
            sites@ == joined(chunks),
        decreases films.len() - i,
    {
        let film: &LayerSpec = &films[i];
        let mut host: bool = film.needle && film.d_nm.gt(Scalar::zero());
        if host && spans.len() > 0 {
            let k: usize = span_index_of_row(spans, i);
            proof {
                span::owner_is(spans@, films@.len() as int, i as int, k as int);
            }
            host = spans[k].is_singleton_bulk();
        }
        assert(host == admissible(films@, spans@, i as int));
        let ghost before = sites@;
        let ghost mut chunk: Seq<ScanSite> = seq![];
        assert(before + chunk =~= before);
        if host {
            let n: i32 = steps(film.d_nm, scan_step_nm);
            let mut k: i32 = 1;
            while k < n
                invariant
                    1 <= k,
                    k <= n || n < 1 && k == 1,
                    forall|k: i32, s: Scalar| #[trigger] call_requires(*multiple, (k, s)),
                    arith::accepts_pairs(*plus),
                    chunk.len() == k - 1,
                    forall|j: int|
                        0 <= j < chunk.len() ==> {
                            let s = #[trigger] chunk[j];
                            &&& s.film_idx == i
                            &&& call_ensures(
                                *multiple,
                                ((j + 1) as i32, scan_step_nm),
                                s.depth_into_layer_nm,
                            )
                            &&& call_ensures(*plus, (top, s.depth_into_layer_nm), s.z_nm)
                        },
                    sites@ == before + chunk,
                decreases n - k,
            {
                let depth: Scalar = multiple(k, scan_step_nm);
                let z: Scalar = plus(top, depth);
                let s: ScanSite = ScanSite { film_idx: i, depth_into_layer_nm: depth, z_nm: z };
                sites.push(s);
                proof {
                    assert(sites@ =~= before + chunk.push(s));
                    chunk = chunk.push(s);
                }
                k += 1;
            }
            proof {
                assert(call_ensures(*steps, (films@[i as int].d_nm, scan_step_nm), n));
            }
        }
        proof {
            assert(film_sites(
                *steps,
                *multiple,
                *plus,
                films@,
                spans@,
                scan_step_nm,
                tops[i as int],
                i as int,
                chunk,
            ));
            assert(chunks.push(chunk).drop_last() =~= chunks);
            chunks = chunks.push(chunk);
        }
        top = plus(top, film.d_nm);
        proof {
            let tops0 = tops;
            tops = tops.push(top);
            assert forall|j: int| 0 <= j < i + 1 implies call_ensures(
                *plus,
                (tops[j], films@[j].d_nm),
                #[trigger] tops[j + 1],
            ) by {
                if j < i {
                    assert(tops[j + 1] == tops0[j + 1]);
                }
            }
        }
        i += 1;
    }
    assert(film_tops(*plus, films@, tops));
    sites
}

/// Every candidate lies in an admissible film.
pub proof fn candidates_are_admissible<
    N: Fn(Scalar, Scalar) -> i32,
    K: Fn(i32, Scalar) -> Scalar,
    P: Fn(Scalar, Scalar) -> Scalar,
>(
    steps: N,
    multiple: K,
    plus: P,
    films: Seq<LayerSpec>,
    spans: Seq<Span>,
    step: Scalar,
    sites: Seq<ScanSite>,
)
    requires
        candidate_sites(steps, multiple, plus, films, spans, step, sites),
    ensures
        forall|q: int|
            0 <= q < sites.len() ==> (#[trigger] sites[q]).film_idx < films.len() && admissible(
                films,
                spans,
                sites[q].film_idx as int,
            ),
{
    let (tops, chunks) = choose|tops: Seq<Scalar>, chunks: Seq<Seq<ScanSite>>|
        {
            &&& #[trigger] film_tops(plus, films, tops)
            &&& chunks.len() == films.len()
            &&& forall|i: int|
                0 <= i < films.len() ==> film_sites(
                    steps,
                    multiple,
                    plus,
                    films,
                    spans,
                    step,
                    tops[i],
                    i,
                    #[trigger] chunks[i],
                )
            &&& sites == #[trigger] joined(chunks)
        };
    assert forall|i: int| 0 <= i < chunks.len() implies all_in_film(
        films,
        spans,
        i,
        #[trigger] chunks[i],
    ) by {
        assert(film_sites(steps, multiple, plus, films, spans, step, tops[i], i, chunks[i]));
    }
    joined_members(films, spans, chunks);
}

/// All sites of a chunk lie in film `i`, which is admissible if there are any.
spec fn all_in_film(
    films: Seq<LayerSpec>,
    spans: Seq<Span>,
    i: int,
    chunk: Seq<ScanSite>,
) -> bool {
    forall|k: int|
        0 <= k < chunk.len() ==> (#[trigger] chunk[k]).film_idx == i && admissible(films, spans, i)
}

proof fn joined_members(films: Seq<LayerSpec>, spans: Seq<Span>, chunks: Seq<Seq<ScanSite>>)
    requires
        chunks.len() <= films.len(),
        forall|i: int|
            0 <= i < chunks.len() ==> all_in_film(films, spans, i, #[trigger] chunks[i]),
    ensures
        forall|q: int|
            0 <= q < joined(chunks).len() ==> (#[trigger] joined(chunks)[q]).film_idx
                < films.len() && admissible(films, spans, joined(chunks)[q].film_idx as int),
    decreases chunks.len(),
{
    if chunks.len() > 0 {
        let front = chunks.drop_last();
        joined_members(films, spans, front);
        let all = joined(chunks);
        let n = joined(front).len();
        let last = chunks.len() - 1;
        assert(all_in_film(films, spans, last, chunks[last]));
        assert forall|q: int| 0 <= q < all.len() implies (#[trigger] all[q]).film_idx
            < films.len() && admissible(films, spans, all[q].film_idx as int) by {
            if q < n {
                assert(all[q] == joined(front)[q]);
            } else {
                assert(all[q] == chunks[last][q - n]);
            }
        }
    }
}

} // verus!
