//! The design stack: fixed ambient and substrate around mutable film rows,
//! and the spans that partition those rows.
use crate::scalar::Scalar;
use vstd::prelude::*;
use vstd::string::*;

pub mod arrays;
pub mod clamp;
pub mod clamp_twice;
pub mod design;
pub mod insert;
pub mod nk_table;
pub mod merge;
pub mod merged;
pub mod refusal;
pub mod remove;
pub mod rows;
pub mod span;
pub mod wording;

use crate::arith;
use crate::numeric;
use crate::structure::refusal::StackError;
use crate::structure::span::{span_index_of_row, Span};

verus! {

// ---------------------------------------------------------------------------
// Layers
// ---------------------------------------------------------------------------

/// One layer of the stack. `nk` holds the complex index, one (real, imaginary)
/// pair per simulation wavelength.
#[derive(Debug)]
pub struct LayerSpec {
    pub material: String,
    pub nk: Vec<(Scalar, Scalar)>,
    /// Physical thickness in nm.
    pub d_nm: Scalar,
    pub coherent: bool,
    pub rough_type: i32,
    pub rough_val: Scalar,
    /// Takes part in thickness optimization.
    pub optimize: bool,
    /// May host a needle.
    pub needle: bool,
}

/// A layer as a mathematical value.
pub struct LayerView {
    pub material: Seq<char>,
    pub nk: Seq<(Scalar, Scalar)>,
    pub d_nm: Scalar,
    pub coherent: bool,
    pub rough_type: i32,
    pub rough_val: Scalar,
    pub optimize: bool,
    pub needle: bool,
}

impl View for LayerSpec {
    type V = LayerView;

    open spec fn view(&self) -> LayerView {
        LayerView {
            material: self.material@,
            nk: self.nk@,
            d_nm: self.d_nm,
            coherent: self.coherent,
            rough_type: self.rough_type,
            rough_val: self.rough_val,
            optimize: self.optimize,
            needle: self.needle,
        }
    }
}

impl LayerView {
    /// The same layer at another thickness.
    pub open spec fn at(self, d_nm: Scalar) -> LayerView {
        LayerView { d_nm, ..self }
    }
}

/// The layers' values.
pub open spec fn layer_views(films: Seq<LayerSpec>) -> Seq<LayerView> {
    films.map_values(|f: LayerSpec| f@)
}

/// The rows' thicknesses.
pub open spec fn thicknesses(rows: Seq<LayerView>) -> Seq<Scalar> {
    rows.map_values(|f: LayerView| f.d_nm)
}

pub(crate) fn copy_nk(nk: &Vec<(Scalar, Scalar)>) -> (r: Vec<(Scalar, Scalar)>)
    ensures
        r@ == nk@,
{
    let mut out: Vec<(Scalar, Scalar)> = Vec::with_capacity(nk.len());
    let mut i: usize = 0;
    while i < nk.len()
        invariant
            i <= nk.len(),
            out@ == nk@.take(i as int),
        decreases nk.len() - i,
    {
        out.push(nk[i]);
        i += 1;
        assert(nk@.take(i as int) =~= nk@.take(i - 1).push(nk@[i - 1]));
    }
    assert(nk@.take(i as int) =~= nk@);
    out
}

impl LayerSpec {
    /// A layer whose index is the same at every wavelength.
    pub fn constant(
        material: &str,
        n_re: Scalar,
        n_im: Scalar,
        d_nm: Scalar,
        num_wavs: usize,
    ) -> (r: LayerSpec)
        ensures
            r@ == (LayerView {
                material: material@,
                nk: Seq::new(num_wavs as nat, |i: int| (n_re, n_im)),
                d_nm,
                coherent: true,
                rough_type: 0,
                rough_val: Scalar::zero(),
                optimize: true,
                needle: true,
            }),
    {
        let mut nk: Vec<(Scalar, Scalar)> = Vec::with_capacity(num_wavs);
        let mut i: usize = 0;
        while i < num_wavs
            invariant
                i <= num_wavs,
                nk@ == Seq::new(i as nat, |i: int| (n_re, n_im)),
            decreases num_wavs - i,
        {
            nk.push((n_re, n_im));
            i += 1;
            assert(nk@ =~= Seq::new(i as nat, |i: int| (n_re, n_im)));
        }
        LayerSpec {
            material: String::from_str(material),
            nk,
            d_nm,
            coherent: true,
            rough_type: 0,
            rough_val: Scalar::zero(),
            optimize: true,
            needle: true,
        }
    }

    /// An independent copy.
    pub fn cloned(&self) -> (r: LayerSpec)
        ensures
            r@ == self@,
    {
        LayerSpec {
            material: self.material.clone(),
            nk: copy_nk(&self.nk),
            d_nm: self.d_nm,
            coherent: self.coherent,
            rough_type: self.rough_type,
            rough_val: self.rough_val,
            optimize: self.optimize,
            needle: self.needle,
        }
    }

    pub(crate) fn cloned_at(&self, d_nm: Scalar) -> (r: LayerSpec)
        ensures
            r@ == self@.at(d_nm),
    {
        let mut r: LayerSpec = self.cloned();
        r.d_nm = d_nm;
        r
    }
}

// ---------------------------------------------------------------------------
// The stack
// ---------------------------------------------------------------------------

/// Fixed ambient, films, fixed substrate, and the spans the film rows belong
/// to.
#[derive(Debug)]
pub struct DesignStack {
    ambient: LayerSpec,
    substrate: LayerSpec,
    films: Vec<LayerSpec>,
    spans: Vec<Span>,
    num_wavs: usize,
}

impl DesignStack {
    pub closed spec fn rows(&self) -> Seq<LayerView> {
        layer_views(self.films@)
    }

    pub closed spec fn span_seq(&self) -> Seq<Span> {
        self.spans@
    }

    pub closed spec fn ambient_view(&self) -> LayerView {
        self.ambient@
    }

    pub closed spec fn substrate_view(&self) -> LayerView {
        self.substrate@
    }

    pub closed spec fn grid_len(&self) -> usize {
        self.num_wavs
    }

    /// Every film row belongs to exactly one span.
    pub open spec fn wf(&self) -> bool {
        span::partition(self.span_seq(), self.rows().len() as int)
    }

    /// Every layer has one index per wavelength of the grid.
    pub open spec fn gridded(&self) -> bool {
        &&& self.ambient_view().nk.len() == self.grid_len()
        &&& self.substrate_view().nk.len() == self.grid_len()
        &&& forall|i: int|
            0 <= i < self.rows().len() ==> (#[trigger] self.rows()[i]).nk.len() == self.grid_len()
    }

    /// Everything but the films and their spans is as in `other`.
    pub open spec fn same_frame(&self, other: &DesignStack) -> bool {
        &&& self.ambient_view() == other.ambient_view()
        &&& self.substrate_view() == other.substrate_view()
        &&& self.grid_len() == other.grid_len()
    }

    /// Nothing at all differs from `other`.
    pub open spec fn unchanged(&self, other: &DesignStack) -> bool {
        &&& self.same_frame(other)
        &&& self.rows() == other.rows()
        &&& self.span_seq() == other.span_seq()
    }
}

/// The span of each row when every row stands alone.
pub open spec fn singleton_spans(n: nat) -> Seq<Span> {
    Seq::new(
        n,
        |i: int|
            Span {
                start: i as usize,
                end: (i + 1) as usize,
                logical: i as usize,
                slice: false,
                bulk_start: i as usize,
            },
    )
}

/// The layer whose index table has the wrong length, if there is one: the
/// substrate is looked at before the films.
pub open spec fn length_fault(
    ambient: LayerView,
    substrate: LayerView,
    films: Seq<LayerView>,
    e: StackError,
) -> bool {
    let n = ambient.nk.len();
    if substrate.nk.len() != n {
        e matches StackError::SubstrateLength { found, expected } && found == substrate.nk.len()
            && expected == n
    } else {
        e matches StackError::FilmLength { film, material, found, expected } && film < films.len()
            && films[film as int].nk.len() != n && (forall|i: int|
            0 <= i < film ==> (#[trigger] films[i]).nk.len() == n) && material@
            == films[film as int].material && found == films[film as int].nk.len() && expected == n
    }
}

/// All index tables have the ambient's length.
pub open spec fn lengths_agree(
    ambient: LayerView,
    substrate: LayerView,
    films: Seq<LayerView>,
) -> bool {
    &&& substrate.nk.len() == ambient.nk.len()
    &&& forall|i: int|
        0 <= i < films.len() ==> (#[trigger] films[i]).nk.len() == ambient.nk.len()
}

impl DesignStack {
    /// A stack in which every film row is a span of its own.
    pub fn with_films(ambient: LayerSpec, substrate: LayerSpec, films: Vec<LayerSpec>) -> (r: Result<
        DesignStack,
        StackError,
    >)
        ensures
            match r {
                Ok(s) => {
                    &&& lengths_agree(ambient@, substrate@, layer_views(films@))
                    &&& s.wf()
                    &&& s.gridded()
                    &&& s.ambient_view() == ambient@
                    &&& s.substrate_view() == substrate@
                    &&& s.rows() == layer_views(films@)
                    &&& s.span_seq() == singleton_spans(films@.len())
                    &&& s.grid_len() == ambient@.nk.len()
                },
                Err(e) => {
                    &&& !lengths_agree(ambient@, substrate@, layer_views(films@))
                    &&& length_fault(ambient@, substrate@, layer_views(films@), e)
                },
            },
    {
        let mut spans: Vec<Span> = Vec::with_capacity(films.len());
        let mut i: usize = 0;
        while i < films.len()
            invariant
                i <= films.len(),
                spans@ == singleton_spans(i as nat),
            decreases films.len() - i,
        {
            spans.push(
                Span { start: i, end: i + 1, logical: i, slice: false, bulk_start: i },
            );
            i += 1;
            assert(spans@ =~= singleton_spans(i as nat));
        }
        proof {
            singletons_partition(films@.len());
        }
        Self::from_parts(ambient, substrate, films, spans)
    }

    /// A stack over rows whose spans are known.
    pub(crate) fn from_parts(
        ambient: LayerSpec,
        substrate: LayerSpec,
        films: Vec<LayerSpec>,
        spans: Vec<Span>,
    ) -> (r: Result<DesignStack, StackError>)
        requires
            span::partition(spans@, films@.len() as int),
        ensures
            match r {
                Ok(s) => {
                    &&& lengths_agree(ambient@, substrate@, layer_views(films@))
                    &&& s.wf()
                    &&& s.gridded()
                    &&& s.ambient_view() == ambient@
                    &&& s.substrate_view() == substrate@
                    &&& s.rows() == layer_views(films@)
                    &&& s.span_seq() == spans@
                    &&& s.grid_len() == ambient@.nk.len()
                },
                Err(e) => {
                    &&& !lengths_agree(ambient@, substrate@, layer_views(films@))
                    &&& length_fault(ambient@, substrate@, layer_views(films@), e)
                },
            },
    {
        let num_wavs: usize = ambient.nk.len();
        if substrate.nk.len() != num_wavs {
            return Err(
                StackError::SubstrateLength { found: substrate.nk.len(), expected: num_wavs },
            );
        }
        let mut i: usize = 0;
        let ghost rows = layer_views(films@);
        while i < films.len()
            invariant
                i <= films.len(),
                rows == layer_views(films@),
                num_wavs == ambient@.nk.len(),
                substrate@.nk.len() == num_wavs,
                forall|j: int| 0 <= j < i ==> (#[trigger] rows[j]).nk.len() == num_wavs,
            decreases films.len() - i,
        {
            assert(rows[i as int] == films@[i as int]@);
            if films[i].nk.len() != num_wavs {
                let e: StackError = StackError::FilmLength {
                    film: i,
                    material: films[i].material.clone(),
                    found: films[i].nk.len(),
                    expected: num_wavs,
                };
                assert(length_fault(ambient@, substrate@, rows, e));
                return Err(e);
            }
            i += 1;
        }
        Ok(DesignStack { ambient, substrate, films, spans, num_wavs })
    }

    pub fn num_wavs(&self) -> (r: usize)
        ensures
            r == self.grid_len(),
    {
        self.num_wavs
    }

    pub fn ambient(&self) -> (r: &LayerSpec)
        ensures
            r@ == self.ambient_view(),
    {
        &self.ambient
    }

    pub fn substrate(&self) -> (r: &LayerSpec)
        ensures
            r@ == self.substrate_view(),
    {
        &self.substrate
    }

    /// The film layers, without ambient and substrate.
    pub fn films(&self) -> (r: &Vec<LayerSpec>)
        ensures
            layer_views(r@) == self.rows(),
    {
        &self.films
    }

    pub fn film(&self, idx: usize) -> (r: Option<&LayerSpec>)
        ensures
            match r {
                Some(f) => idx < self.rows().len() && f@ == self.rows()[idx as int],
                None => idx >= self.rows().len(),
            },
    {
        if idx < self.films.len() {
            Some(&self.films[idx])
        } else {
            None
        }
    }

    /// Number of layers the solver sees, boundaries included.
    pub fn total_layer_count(&self) -> (r: usize)
        requires
            self.rows().len() + 2 <= usize::MAX,
        ensures
            r == self.rows().len() + 2,
    {
        self.films.len() + 2
    }

    /// Thickness of all films together; the empty sum, negative zero, when
    /// there are none.
    pub fn total_thickness_nm<P: Fn(Scalar, Scalar) -> Scalar>(&self, plus: &P) -> (r: Scalar)
        requires
            arith::accepts_pairs(*plus),
        ensures
            self.rows().len() == 0 ==> r == (Scalar { bits: numeric::NEG_ZERO_BITS }),
            self.rows().len() > 0 ==> arith::folds(*plus, thicknesses(self.rows()), r),
    {
        if self.films.len() == 0 {
            return Scalar::from_bits(numeric::NEG_ZERO_BITS);
        }
        let ds: Vec<Scalar> = row_thicknesses(&self.films, 0, self.films.len());
        assert(self.rows().subrange(0, self.rows().len() as int) =~= self.rows());
        arith::fold(plus, &ds)
    }

    /// The spans of the film rows.
    pub fn spans(&self) -> (r: &Vec<Span>)
        ensures
            r@ == self.span_seq(),
    {
        &self.spans
    }

    /// The span that contains `row`.
    pub fn span_of_row(&self, row: usize) -> (r: &Span)
        requires
            self.wf(),
            row < self.rows().len(),
        ensures
            *r == self.span_seq()[span::owner(self.span_seq(), row as int)],
            r.holds(row as int),
    {
        let k: usize = span_index_of_row(&self.spans, row);
        proof {
            span::owner_is(self.spans@, self.films@.len() as int, row as int, k as int);
        }
        &self.spans[k]
    }

    /// Why a film is not an admissible needle host: it lies in a span that
    /// does not have exactly one bulk row. Range is not judged here.
    pub fn needle_host_refusal(&self, film_idx: usize) -> (r: Option<StackError>)
        requires
            self.wf(),
        ensures
            r is Some <==> film_idx < self.rows().len() && !self.span_seq()[span::owner(
                self.span_seq(),
                film_idx as int,
            )].singleton_bulk(),
            r matches Some(e) ==> {
                let sp = self.span_seq()[span::owner(self.span_seq(), film_idx as int)];
                e matches StackError::NotAHost { film_idx: i, material, start, end } && i == film_idx
                    && material@ == self.rows()[film_idx as int].material && start == sp.start && end
                    == sp.end
            },
    {
        if film_idx >= self.films.len() {
            return None;
        }
        let sp: Span = *self.span_of_row(film_idx);
        proof {
            span::partition_covers(self.spans@, self.films@.len() as int, film_idx as int);
        }
        if sp.is_singleton_bulk() {
            None
        } else {
            Some(
                StackError::NotAHost {
                    film_idx,
                    material: self.films[film_idx].material.clone(),
                    start: sp.start,
                    end: sp.end,
                },
            )
        }
    }

    /// Sets one film's thickness.
    pub fn set_thickness(&mut self, film_idx: usize, d_nm: Scalar) -> (r: Result<(), StackError>)
        ensures
            final(self).same_frame(old(self)),
            final(self).span_seq() == old(self).span_seq(),
            match r {
                Ok(_) => {
                    &&& film_idx < old(self).rows().len()
                    &&& final(self).rows() == old(self).rows().update(
                        film_idx as int,
                        old(self).rows()[film_idx as int].at(d_nm),
                    )
                },
                Err(e) => {
                    &&& film_idx >= old(self).rows().len()
                    &&& final(self).unchanged(old(self))
                    &&& e == (StackError::NoSuchFilm { film_idx })
                },
            },
            old(self).wf() ==> final(self).wf(),
            old(self).gridded() ==> final(self).gridded(),
    {
        if film_idx >= self.films.len() {
            return Err(StackError::NoSuchFilm { film_idx });
        }
        let ghost rows0 = self.rows();
        let film: LayerSpec = self.films[film_idx].cloned_at(d_nm);
        self.films.set(film_idx, film);
        assert(self.rows() =~= rows0.update(film_idx as int, rows0[film_idx as int].at(d_nm)));
        Ok(())
    }

    /// An independent copy.
    pub fn cloned(&self) -> (r: DesignStack)
        ensures
            r.unchanged(self),
    {
        let films: Vec<LayerSpec> = clone_rows(&self.films, 0, self.films.len());
        assert(layer_views(self.films@).subrange(0, self.films@.len() as int) =~= layer_views(
            self.films@,
        ));
        let mut spans: Vec<Span> = Vec::with_capacity(self.spans.len());
        let mut i: usize = 0;
        while i < self.spans.len()
            invariant
                i <= self.spans.len(),
                spans@ == self.spans@.take(i as int),
            decreases self.spans.len() - i,
        {
            spans.push(self.spans[i]);
            i += 1;
            assert(self.spans@.take(i as int) =~= self.spans@.take(i - 1).push(
                self.spans@[i - 1],
            ));
        }
        assert(self.spans@.take(i as int) =~= self.spans@);
        DesignStack {
            ambient: self.ambient.cloned(),
            substrate: self.substrate.cloned(),
            films,
            spans,
            num_wavs: self.num_wavs,
        }
    }
}

proof fn singletons_partition(n: nat)
    requires
        n <= usize::MAX,
    ensures
        span::partition(singleton_spans(n), n as int),
{
    let s = singleton_spans(n);
    assert forall|i: int| 0 <= i < s.len() implies s[i].start == #[trigger] span::begin(
        s,
        0,
        i,
    ) by {}
}

/// Copies of the rows `a..b`.
pub(crate) fn clone_rows(films: &Vec<LayerSpec>, a: usize, b: usize) -> (r: Vec<LayerSpec>)
    requires
        a <= b <= films.len(),
    ensures
        layer_views(r@) == layer_views(films@).subrange(a as int, b as int),
{
    let mut out: Vec<LayerSpec> = Vec::with_capacity(b - a);
    let mut i: usize = a;
    while i < b
        invariant
            a <= i <= b <= films.len(),
            layer_views(out@) == layer_views(films@).subrange(a as int, i as int),
        decreases b - i,
    {
        let ghost before = out@;
        let row: LayerSpec = films[i].cloned();
        let ghost v = row@;
        out.push(row);
        i += 1;
        assert(layer_views(out@) =~= layer_views(before).push(v));
        assert(layer_views(films@).subrange(a as int, i as int) =~= layer_views(films@).subrange(
            a as int,
            i - 1,
        ).push(v));
    }
    out
}

/// Thicknesses of the rows `a..b`.
pub(crate) fn row_thicknesses(films: &Vec<LayerSpec>, a: usize, b: usize) -> (r: Vec<Scalar>)
    requires
        a <= b <= films.len(),
    ensures
        r@ == thicknesses(layer_views(films@).subrange(a as int, b as int)),
{
    let mut out: Vec<Scalar> = Vec::with_capacity(b - a);
    let mut i: usize = a;
    while i < b
        invariant
            a <= i <= b <= films.len(),
            out@ == thicknesses(layer_views(films@).subrange(a as int, i as int)),
        decreases b - i,
    {
        out.push(films[i].d_nm);
        i += 1;
        assert(out@ =~= thicknesses(layer_views(films@).subrange(a as int, i as int)));
    }
    out
}

} // verus!
