//! Building a stack from design layers.
//!
//! Profiled films take one of two ways: a film named as background keeps its
//! profile and is pinned; any other is treated as homogeneous, with a warning.
//! A gradient film has no index of its own to fall back on, so its two
//! endpoint materials are mixed at its mid fraction.
use crate::scalar::Scalar;
use crate::structure;
use crate::structure::nk_table::NkTable;
use crate::structure::refusal::StackError;
use crate::structure::span;
use crate::structure::span::Span;
use crate::structure::{copy_nk, DesignStack, LayerSpec, LayerView};
use crate::text::same_text;
use vstd::prelude::*;

verus! {

/// A mixture gradient between two named materials. `params` is read only by
/// the functions the caller supplies.
#[derive(Debug)]
pub struct Gradient {
    pub material_a: String,
    pub material_b: String,
    /// Name of the mixing model.
    pub ema: String,
    pub params: Vec<Scalar>,
}

pub struct GradientView {
    pub material_a: Seq<char>,
    pub material_b: Seq<char>,
    pub ema: Seq<char>,
    pub params: Seq<Scalar>,
}

impl View for Gradient {
    type V = GradientView;

    open spec fn view(&self) -> GradientView {
        GradientView {
            material_a: self.material_a@,
            material_b: self.material_b@,
            ema: self.ema@,
            params: self.params@,
        }
    }
}

/// One authored film.
#[derive(Debug)]
pub struct DesignLayer {
    pub material: String,
    pub thickness: Scalar,
    pub optimize: bool,
    pub needle: bool,
    /// Carries a graded profile of its own index.
    pub inhomogen: bool,
    pub gradient: Option<Gradient>,
}

pub struct DesignLayerView {
    pub material: Seq<char>,
    pub thickness: Scalar,
    pub optimize: bool,
    pub needle: bool,
    pub inhomogen: bool,
    pub gradient: Option<GradientView>,
}

impl View for DesignLayer {
    type V = DesignLayerView;

    open spec fn view(&self) -> DesignLayerView {
        DesignLayerView {
            material: self.material@,
            thickness: self.thickness,
            optimize: self.optimize,
            needle: self.needle,
            inhomogen: self.inhomogen,
            gradient: match self.gradient {
                Some(g) => Some(g@),
                None => None,
            },
        }
    }
}

/// The films' values.
pub open spec fn film_views(films: Seq<DesignLayer>) -> Seq<DesignLayerView> {
    films.map_values(|f: DesignLayer| f@)
}

/// What was corrected on the way, rather than refused.
#[derive(Debug)]
pub enum DesignWarning {
    /// The incident medium's absorption was dropped.
    Incident { message: String },
    /// A graded film is treated as homogeneous.
    Graded { material: String },
    /// A gradient film is treated as its mixture at `f_mid`.
    Gradient {
        material: String,
        material_a: String,
        material_b: String,
        ema: String,
        f_mid: Scalar,
    },
}

/// Why no stack could be built.
#[derive(Debug)]
pub enum DesignError {
    /// The gradient itself is not usable.
    Gradient { layer: String, message: String },
    /// The first endpoint has no index table.
    EndpointMissingA { layer: String, material: String },
    /// The second endpoint has no index table.
    EndpointMissingB { layer: String, material: String },
    /// An endpoint's index table does not match the grid.
    EndpointLength { layer: String, a: usize, b: usize, grid: usize },
    /// Ambient or substrate does not match the grid.
    BoundaryGrid,
    /// The expansion was refused.
    Expansion { message: String },
    Stack { error: StackError },
}

/// Solver rows of a sequence of design layers, with the spans they form.
#[derive(Debug)]
pub struct Expansion {
    pub nk: Vec<Vec<(Scalar, Scalar)>>,
    pub thicknesses: Vec<Scalar>,
    pub incoherent: Vec<bool>,
    pub rough_types: Vec<i32>,
    pub rough_vals: Vec<Scalar>,
    pub spans: Vec<Span>,
}

impl Expansion {
    /// One entry of each kind per row, rows partitioned by spans, spans
    /// belonging to one of `films` films.
    pub open spec fn wf(&self, films: nat) -> bool {
        &&& self.nk@.len() == self.thicknesses@.len()
        &&& self.incoherent@.len() == self.thicknesses@.len()
        &&& self.rough_types@.len() == self.thicknesses@.len()
        &&& self.rough_vals@.len() == self.thicknesses@.len()
        &&& span::partition(self.spans@, self.thicknesses@.len() as int)
        &&& forall|k: int| 0 <= k < self.spans@.len() ==> (#[trigger] self.spans@[k]).logical < films
    }
}

/// Row `r` of span `k`: physics from the expansion, identity and flags from
/// the film it came from; a slice row is never free.
pub open spec fn expanded_row(
    e: &Expansion,
    films: Seq<DesignLayerView>,
    k: int,
    r: int,
) -> LayerView {
    let sp = e.spans@[k];
    let film = films[sp.logical as int];
    let slice = sp.slice && r == sp.start;
    LayerView {
        material: film.material,
        nk: e.nk@[r]@,
        d_nm: e.thicknesses@[r],
        coherent: !e.incoherent@[r],
        rough_type: e.rough_types@[r],
        rough_val: e.rough_vals@[r],
        optimize: film.optimize && !slice,
        needle: film.needle && !slice,
    }
}

/// All rows of an expansion.
pub open spec fn expanded_rows(e: &Expansion, films: Seq<DesignLayerView>) -> Seq<LayerView> {
    Seq::new(
        e.thicknesses@.len(),
        |r: int| expanded_row(e, films, span::owner(e.spans@, r), r),
    )
}

/// The film carries a profile and is not background.
pub open spec fn homogenized(film: DesignLayerView, background: Seq<String>) -> bool {
    (film.inhomogen || film.gradient is Some) && !named(background, film.material)
}

/// The name is among `names`.
pub open spec fn named(names: Seq<String>, name: Seq<char>) -> bool {
    exists|i: int| 0 <= i < names.len() && (#[trigger] names[i])@ == name
}

/// `row` is the mixture of two index rows at fraction `f`.
pub open spec fn mixes<
    X: Fn(&Gradient, &Vec<(Scalar, Scalar)>, &Vec<(Scalar, Scalar)>, Scalar) -> Vec<
        (Scalar, Scalar),
    >,
>(
    mix: X,
    g: Gradient,
    b: Seq<(Scalar, Scalar)>,
    a: Seq<(Scalar, Scalar)>,
    f: Scalar,
    row: Seq<(Scalar, Scalar)>,
) -> bool {
    exists|vb: Vec<(Scalar, Scalar)>, va: Vec<(Scalar, Scalar)>, out: Vec<(Scalar, Scalar)>|
        {
            &&& vb@ == b
            &&& va@ == a
            &&& out@ == row
            &&& #[trigger] call_ensures(mix, (&g, &vb, &va, f), out)
        }
}

/// What becomes of one film: the film handed on, the index table after it,
/// and its warning.
pub open spec fn film_step<
    E: Fn(&Gradient) -> Option<String>,
    M: Fn(&Gradient, Scalar) -> Scalar,
    X: Fn(&Gradient, &Vec<(Scalar, Scalar)>, &Vec<(Scalar, Scalar)>, Scalar) -> Vec<
        (Scalar, Scalar),
    >,
>(
    fault: E,
    mid: M,
    mix: X,
    background: Seq<String>,
    grid: usize,
    film: DesignLayer,
    table: Map<Seq<char>, Seq<(Scalar, Scalar)>>,
    out: DesignLayerView,
    after: Map<Seq<char>, Seq<(Scalar, Scalar)>>,
    warning: Option<DesignWarning>,
) -> bool {
    let v = film@;
    if !(v.inhomogen || v.gradient is Some) {
        out == v && after == table && warning is None
    } else if named(background, v.material) {
        out == (DesignLayerView { optimize: false, needle: false, ..v }) && after == table
            && warning is None
    } else if v.inhomogen {
        &&& out == (DesignLayerView { inhomogen: false, ..v })
        &&& after == table
        &&& warning matches Some(DesignWarning::Graded { material }) && material@ == v.material
    } else {
        let g = film.gradient->0;
        &&& call_ensures(fault, (&g,), None::<String>)
        &&& table.contains_key(g@.material_a) && table[g@.material_a].len() == grid
        &&& table.contains_key(g@.material_b) && table[g@.material_b].len() == grid
        &&& out == (DesignLayerView { gradient: None, ..v })
        &&& warning matches Some(
            DesignWarning::Gradient { material, material_a, material_b, ema, f_mid },
        ) && {
            &&& material@ == v.material
            &&& material_a@ == g@.material_a
            &&& material_b@ == g@.material_b
            &&& ema@ == g@.ema
            &&& call_ensures(mid, (&g, v.thickness), f_mid)
            &&& exists|row: Seq<(Scalar, Scalar)>|
                {
                    &&& #[trigger] mixes(
                        mix,
                        g,
                        table[g@.material_b],
                        table[g@.material_a],
                        f_mid,
                        row,
                    )
                    &&& after == table.insert(v.material, row)
                }
        }
    }
}

/// Why a film ends the construction: only a gradient film that is to be
/// homogenized can, and the faults are looked for in this order.
pub open spec fn film_fault<E: Fn(&Gradient) -> Option<String>>(
    fault: E,
    background: Seq<String>,
    grid: usize,
    film: DesignLayer,
    table: Map<Seq<char>, Seq<(Scalar, Scalar)>>,
    e: DesignError,
) -> bool {
    let v = film@;
    let g = film.gradient->0;
    &&& homogenized(v, background)
    &&& !v.inhomogen
    &&& match e {
        DesignError::Gradient { layer, message } => layer@ == v.material && call_ensures(
            fault,
            (&g,),
            Some(message),
        ),
        DesignError::EndpointMissingA { layer, material } => {
            &&& call_ensures(fault, (&g,), None::<String>)
            &&& layer@ == v.material
            &&& material@ == g@.material_a
            &&& !table.contains_key(g@.material_a)
        },
        DesignError::EndpointMissingB { layer, material } => {
            &&& call_ensures(fault, (&g,), None::<String>)
            &&& layer@ == v.material
            &&& material@ == g@.material_b
            &&& table.contains_key(g@.material_a)
            &&& !table.contains_key(g@.material_b)
        },
        DesignError::EndpointLength { layer, a, b, grid: n } => {
            &&& call_ensures(fault, (&g,), None::<String>)
            &&& layer@ == v.material
            &&& table.contains_key(g@.material_a) && a == table[g@.material_a].len()
            &&& table.contains_key(g@.material_b) && b == table[g@.material_b].len()
            &&& n == grid
            &&& a != grid || b != grid
        },
        _ => false,
    }
}

/// The films in front of position `k` went through, one after the other.
pub open spec fn films_pass<
    E: Fn(&Gradient) -> Option<String>,
    M: Fn(&Gradient, Scalar) -> Scalar,
    X: Fn(&Gradient, &Vec<(Scalar, Scalar)>, &Vec<(Scalar, Scalar)>, Scalar) -> Vec<
        (Scalar, Scalar),
    >,
>(
    fault: E,
    mid: M,
    mix: X,
    background: Seq<String>,
    grid: usize,
    films: Seq<DesignLayer>,
    tables: Seq<Map<Seq<char>, Seq<(Scalar, Scalar)>>>,
    outs: Seq<DesignLayerView>,
    warnings: Seq<Option<DesignWarning>>,
) -> bool {
    &&& outs.len() <= films.len()
    &&& tables.len() == outs.len() + 1
    &&& warnings.len() == outs.len()
    &&& forall|i: int|
        0 <= i < outs.len() ==> film_step(
            fault,
            mid,
            mix,
            background,
            grid,
            films[i],
            tables[i],
            #[trigger] outs[i],
            tables[i + 1],
            warnings[i],
        )
}

/// The warnings that were given, in order.
pub open spec fn given(warnings: Seq<Option<DesignWarning>>) -> Seq<DesignWarning>
    decreases warnings.len(),
{
    if warnings.len() == 0 {
        seq![]
    } else {
        match warnings.last() {
            Some(w) => given(warnings.drop_last()).push(w),
            None => given(warnings.drop_last()),
        }
    }
}

/// The ambient after the absorption check, and the warning it gave.
pub open spec fn sanitized<
    S: Fn(&Vec<(Scalar, Scalar)>) -> Option<(Vec<(Scalar, Scalar)>, String)>,
>(
    sanitize: S,
    ambient: LayerSpec,
    used: LayerView,
    warnings: Seq<DesignWarning>,
) -> bool {
    ||| {
        &&& call_ensures(sanitize, (&ambient.nk,), None::<(Vec<(Scalar, Scalar)>, String)>)
        &&& used == ambient@
        &&& warnings.len() == 0
    }
    ||| exists|nk: Vec<(Scalar, Scalar)>, message: String|
        {
            &&& #[trigger] call_ensures(sanitize, (&ambient.nk,), Some((nk, message)))
            &&& used == (LayerView { nk: nk@, ..ambient@ })
            &&& warnings == seq![DesignWarning::Incident { message }]
        }
}

fn contains_name(names: &Vec<String>, name: &String) -> (r: bool)
    ensures
        r == named(names@, name@),
{
    let mut i: usize = 0;
    while i < names.len()
        invariant
            i <= names.len(),
            forall|j: int| 0 <= j < i ==> (#[trigger] names@[j])@ != name@,
        decreases names.len() - i,
    {
        if same_text(names[i].as_str(), name.as_str()) {
            return true;
        }
        i += 1;
    }
    false
}

fn copy_params(xs: &Vec<Scalar>) -> (r: Vec<Scalar>)
    ensures
        r@ == xs@,
{
    let mut out: Vec<Scalar> = Vec::with_capacity(xs.len());
    let mut i: usize = 0;
    while i < xs.len()
        invariant
            i <= xs.len(),
            out@ == xs@.take(i as int),
        decreases xs.len() - i,
    {
        out.push(xs[i]);
        i += 1;
        assert(xs@.take(i as int) =~= xs@.take(i - 1).push(xs@[i - 1]));
    }
    assert(xs@.take(i as int) =~= xs@);
    out
}

impl Gradient {
    /// An independent copy.
    pub fn cloned(&self) -> (r: Gradient)
        ensures
            r@ == self@,
    {
        Gradient {
            material_a: self.material_a.clone(),
            material_b: self.material_b.clone(),
            ema: self.ema.clone(),
            params: copy_params(&self.params),
        }
    }
}

impl DesignLayer {
    /// An independent copy.
    pub fn cloned(&self) -> (r: DesignLayer)
        ensures
            r@ == self@,
    {
        DesignLayer {
            material: self.material.clone(),
            thickness: self.thickness,
            optimize: self.optimize,
            needle: self.needle,
            inhomogen: self.inhomogen,
            gradient: match &self.gradient {
                Some(g) => Some(g.cloned()),
                None => None,
            },
        }
    }
}

/// Mixes a gradient film's endpoints into the table under the film's name.
fn homogenize_gradient<
    E: Fn(&Gradient) -> Option<String>,
    M: Fn(&Gradient, Scalar) -> Scalar,
    X: Fn(&Gradient, &Vec<(Scalar, Scalar)>, &Vec<(Scalar, Scalar)>, Scalar) -> Vec<
        (Scalar, Scalar),
    >,
>(
    film: &DesignLayer,
    table: &mut NkTable,
    background: &Vec<String>,
    grid: usize,
    fault: &E,
    mid: &M,
    mix: &X,
) -> (r: Result<(DesignLayer, DesignWarning), DesignError>)
    requires
        old(table).wf(),
        film.gradient is Some,
        homogenized(film@, background@),
        !film.inhomogen,
        forall|g: &Gradient| #[trigger] call_requires(*fault, (g,)),
        forall|g: &Gradient, d: Scalar| #[trigger] call_requires(*mid, (g, d)),
        forall|g: &Gradient, b: &Vec<(Scalar, Scalar)>, a: &Vec<(Scalar, Scalar)>, f: Scalar|
            #[trigger] call_requires(*mix, (g, b, a, f)),
    ensures
        final(table).wf(),
        match r {
            Ok((out, w)) => film_step(
                *fault,
                *mid,
                *mix,
                background@,
                grid,
                *film,
                old(table)@,
                out@,
                final(table)@,
                Some(w),
            ),
            Err(e) => film_fault(*fault, background@, grid, *film, old(table)@, e),
        },
{
    let ghost g0 = film.gradient->0;
    match &film.gradient {
        None => Err(DesignError::BoundaryGrid),
        Some(g) => {
            match fault(g) {
                Some(message) => {
                    return Err(DesignError::Gradient { layer: film.material.clone(), message });
                },
                None => {},
            }
            let nk_a: Vec<(Scalar, Scalar)> = match table.get(g.material_a.as_str()) {
                Some(row) => copy_nk(row),
                None => {
                    return Err(
                        DesignError::EndpointMissingA {
                            layer: film.material.clone(),
                            material: g.material_a.clone(),
                        },
                    );
                },
            };
            let nk_b: Vec<(Scalar, Scalar)> = match table.get(g.material_b.as_str()) {
                Some(row) => copy_nk(row),
                None => {
                    return Err(
                        DesignError::EndpointMissingB {
                            layer: film.material.clone(),
                            material: g.material_b.clone(),
                        },
                    );
                },
            };
            if nk_a.len() != grid || nk_b.len() != grid {
                return Err(
                    DesignError::EndpointLength {
                        layer: film.material.clone(),
                        a: nk_a.len(),
                        b: nk_b.len(),
                        grid,
                    },
                );
            }
            let f_mid: Scalar = mid(g, film.thickness);
            let row: Vec<(Scalar, Scalar)> = mix(g, &nk_b, &nk_a, f_mid);
            let ghost mixed = row@;
            assert(mixes(*mix, g0, nk_b@, nk_a@, f_mid, mixed));
            table.insert(film.material.as_str(), row);
            let mut out: DesignLayer = film.cloned();
            out.gradient = None;
            Ok(
                (
                    out,
                    DesignWarning::Gradient {
                        material: film.material.clone(),
                        material_a: g.material_a.clone(),
                        material_b: g.material_b.clone(),
                        ema: g.ema.clone(),
                        f_mid,
                    },
                ),
            )
        },
    }
}

/// Assembles the solver rows of an expansion.
fn assemble_rows(e: &Expansion, films: &Vec<DesignLayer>) -> (r: Vec<LayerSpec>)
    requires
        e.wf(films@.len()),
    ensures
        structure::layer_views(r@) == expanded_rows(e, film_views(films@)),
{
    let ghost n = e.thicknesses@.len() as int;
    let ghost views = film_views(films@);
    let mut rows: Vec<LayerSpec> = Vec::with_capacity(e.thicknesses.len());
    let mut k: usize = 0;
    while k < e.spans.len()
        invariant
            k <= e.spans.len(),
            e.wf(films@.len()),
            n == e.thicknesses@.len(),
            views == film_views(films@),
            rows@.len() == span::begin(e.spans@, 0, k as int),
            rows@.len() <= n,
            forall|r: int|
                0 <= r < rows@.len() ==> (#[trigger] rows@[r])@ == expanded_row(
                    e,
                    views,
                    span::owner(e.spans@, r),
                    r,
                ),
        decreases e.spans.len() - k,
    {
        let sp: Span = e.spans[k];
        proof {
            span::laid_bounds(e.spans@, 0, n, k as int);
            assert(sp.start == span::begin(e.spans@, 0, k as int));
            assert(e.spans@[k as int].logical < films@.len());
        }
        let film: &DesignLayer = &films[sp.logical];
        let mut r: usize = sp.start;
        while r < sp.end
            invariant
                k < e.spans.len(),
                e.wf(films@.len()),
                n == e.thicknesses@.len(),
                views == film_views(films@),
                sp == e.spans@[k as int],
                sp.start <= r <= sp.end <= n,
                sp.logical < films@.len(),
                film == films@[sp.logical as int],
                rows@.len() == r,
                forall|i: int|
                    0 <= i < r ==> (#[trigger] rows@[i])@ == expanded_row(
                        e,
                        views,
                        span::owner(e.spans@, i),
                        i,
                    ),
            decreases sp.end - r,
        {
            let slice: bool = sp.slice && r == sp.start;
            proof {
                span::owner_is(e.spans@, n, r as int, k as int);
                assert(views[sp.logical as int] == film@);
            }
            rows.push(
                LayerSpec {
                    material: film.material.clone(),
                    nk: copy_nk(&e.nk[r]),
                    d_nm: e.thicknesses[r],
                    coherent: !e.incoherent[r],
                    rough_type: e.rough_types[r],
                    rough_val: e.rough_vals[r],
                    optimize: film.optimize && !slice,
                    needle: film.needle && !slice,
                },
            );
            r += 1;
        }
        k += 1;
    }
    assert(structure::layer_views(rows@) =~= expanded_rows(e, views));
    rows
}

impl DesignStack {
    /// Builds a stack from design films.
    ///
    /// `sanitize` answers with the incident index to use instead, if the given
    /// one absorbs, and a message; `fault` says what is wrong with a gradient,
    /// `mid` its mid fraction at a thickness, `mix` the mixture of the second
    /// and first endpoint's rows; `expand` turns the prepared films into
    /// solver rows. Films are prepared in order, and a mixed film's row
    /// replaces what the table had under its name, for later films too.
    pub fn from_design<
        S: Fn(&Vec<(Scalar, Scalar)>) -> Option<(Vec<(Scalar, Scalar)>, String)>,
        E: Fn(&Gradient) -> Option<String>,
        M: Fn(&Gradient, Scalar) -> Scalar,
        X: Fn(&Gradient, &Vec<(Scalar, Scalar)>, &Vec<(Scalar, Scalar)>, Scalar) -> Vec<
            (Scalar, Scalar),
        >,
        G: Fn(&Vec<DesignLayer>, &NkTable) -> Result<Expansion, String>,
    >(
        ambient: LayerSpec,
        substrate: LayerSpec,
        films: &Vec<DesignLayer>,
        nk: &NkTable,
        grid: usize,
        background: &Vec<String>,
        sanitize: &S,
        fault: &E,
        mid: &M,
        mix: &X,
        expand: &G,
    ) -> (r: Result<(DesignStack, Vec<DesignWarning>), DesignError>)
        requires
            nk.wf(),
            call_requires(*sanitize, (&ambient.nk,)),
            forall|g: &Gradient| #[trigger] call_requires(*fault, (g,)),
            forall|g: &Gradient, d: Scalar| #[trigger] call_requires(*mid, (g, d)),
            forall|g: &Gradient, b: &Vec<(Scalar, Scalar)>, a: &Vec<(Scalar, Scalar)>, f: Scalar|
                #[trigger] call_requires(*mix, (g, b, a, f)),
            forall|fs: &Vec<DesignLayer>, t: &NkTable| #[trigger] call_requires(*expand, (fs, t)),
            forall|fs: &Vec<DesignLayer>, t: &NkTable, e: Expansion|
                #[trigger] call_ensures(*expand, (fs, t), Ok::<Expansion, String>(e)) ==> e.wf(
                    fs@.len(),
                ),
        ensures
            exists|
                tables: Seq<Map<Seq<char>, Seq<(Scalar, Scalar)>>>,
                outs: Seq<DesignLayerView>,
                warnings: Seq<Option<DesignWarning>>,
                used: LayerView,
                first: Seq<DesignWarning>,
            |
                {
                    &&& #[trigger] films_pass(
                        *fault,
                        *mid,
                        *mix,
                        background@,
                        grid,
                        films@,
                        tables,
                        outs,
                        warnings,
                    )
                    &&& tables[0] == nk@
                    &&& #[trigger] sanitized(*sanitize, ambient, used, first)
                    &&& match r {
                        Ok((stack, ws)) => {
                            &&& outs.len() == films@.len()
                            &&& used.nk.len() == grid && substrate@.nk.len() == grid
                            &&& ws@ == first + given(warnings)
                            &&& stack.wf()
                            &&& stack.gridded()
                            &&& stack.ambient_view() == used
                            &&& stack.substrate_view() == substrate@
                            &&& expanded_to(*expand, outs, tables.last(), &stack)
                        },
                        Err(DesignError::BoundaryGrid) => {
                            &&& outs.len() == films@.len()
                            &&& used.nk.len() != grid || substrate@.nk.len() != grid
                        },
                        Err(DesignError::Expansion { message }) => {
                            &&& outs.len() == films@.len()
                            &&& used.nk.len() == grid && substrate@.nk.len() == grid
                            &&& expansion_refused(*expand, outs, tables.last(), message)
                        },
                        Err(DesignError::Stack { error }) => {
                            &&& outs.len() == films@.len()
                            &&& used.nk.len() == grid && substrate@.nk.len() == grid
                            &&& badly_expanded(
                                *expand,
                                outs,
                                tables.last(),
                                used,
                                substrate@,
                                error,
                            )
                        },
                        Err(e) => {
                            &&& outs.len() < films@.len()
                            &&& film_fault(
                                *fault,
                                background@,
                                grid,
                                films@[outs.len() as int],
                                tables.last(),
                                e,
                            )
                        },
                    }
                },
    {
        let mut ambient_used: LayerSpec = ambient.cloned();
        let mut ws: Vec<DesignWarning> = Vec::new();
        match sanitize(&ambient.nk) {
            Some(pair) => {
                let (nk_fixed, message) = pair;
                ambient_used.nk = nk_fixed;
                ws.push(DesignWarning::Incident { message });
                assert(ws@ =~= seq![DesignWarning::Incident { message }]);
            },
            None => {},
        }
        let ghost used = ambient_used@;
        let ghost first = ws@;
        assert(sanitized(*sanitize, ambient, used, first));
        let mut table: NkTable = nk.cloned();
        let mut flat: Vec<DesignLayer> = Vec::with_capacity(films.len());
        let ghost mut tables: Seq<Map<Seq<char>, Seq<(Scalar, Scalar)>>> = seq![table@];
        let ghost mut warnings: Seq<Option<DesignWarning>> = seq![];
        let mut i: usize = 0;
        assert(first + given(warnings) =~= first);
        assert(film_views(flat@) =~= seq![]);
        while i < films.len()
            invariant
                i <= films.len(),
                flat@.len() == i,
                table.wf(),
                table@ == tables.last(),
                tables[0] == nk@,
                tables.len() == i + 1,
                ws@ == first + given(warnings),
                sanitized(*sanitize, ambient, used, first),
                films_pass(
                    *fault,
                    *mid,
                    *mix,
                    background@,
                    grid,
                    films@,
                    tables,
                    film_views(flat@),
                    warnings,
                ),
                forall|g: &Gradient| #[trigger] call_requires(*fault, (g,)),
                forall|g: &Gradient, d: Scalar| #[trigger] call_requires(*mid, (g, d)),
                forall|
                    g: &Gradient,
                    b: &Vec<(Scalar, Scalar)>,
                    a: &Vec<(Scalar, Scalar)>,
                    f: Scalar,
                |
                    #[trigger] call_requires(*mix, (g, b, a, f)),
            decreases films.len() - i,
        {
            let ghost flat0 = flat@;
            let ghost outs0 = film_views(flat@);
            let ghost tables0 = tables;
            let ghost warnings0 = warnings;
            let film: &DesignLayer = &films[i];
            let mut w: Option<DesignWarning> = None;
            let mut out: DesignLayer = film.cloned();
            if film.inhomogen || film.gradient.is_some() {
                if contains_name(background, &film.material) {
                    out.optimize = false;
                    out.needle = false;
                } else if film.inhomogen {
                    out.inhomogen = false;
                    w = Some(DesignWarning::Graded { material: film.material.clone() });
                } else {
                    match homogenize_gradient(film, &mut table, background, grid, fault, mid, mix) {
                        Ok(pair) => {
                            let (o, x) = pair;
                            out = o;
                            w = Some(x);
                        },
                        Err(e) => {
                            assert(film_fault(
                                *fault,
                                background@,
                                grid,
                                films@[outs0.len() as int],
                                tables.last(),
                                e,
                            ));
                            return Err(e);
                        },
                    }
                }
            }
            let ghost ov = out@;
            let ghost wv = w;
            proof {
                tables = tables.push(table@);
                warnings = warnings.push(w);
                assert(warnings.drop_last() =~= warnings0);
                assert(film_step(
                    *fault,
                    *mid,
                    *mix,
                    background@,
                    grid,
                    *film,
                    tables0.last(),
                    ov,
                    table@,
                    w,
                ));
            }
            match w {
                Some(x) => {
                    ws.push(x);
                },
                None => {},
            }
            flat.push(out);
            proof {
                assert(film_views(flat@) =~= outs0.push(ov));
                assert(ws@ =~= first + given(warnings));
                let outs = film_views(flat@);
                assert forall|j: int| 0 <= j < outs.len() implies film_step(
                    *fault,
                    *mid,
                    *mix,
                    background@,
                    grid,
                    films@[j],
                    tables[j],
                    #[trigger] outs[j],
                    tables[j + 1],
                    warnings[j],
                ) by {
                    if j < i {
                        assert(outs[j] == outs0[j]);
                    }
                }
            }
            i += 1;
        }
        let ghost outs = film_views(flat@);
        if ambient_used.nk.len() != grid || substrate.nk.len() != grid {
            return Err(DesignError::BoundaryGrid);
        }
        let e: Expansion = match expand(&flat, &table) {
            Ok(e) => e,
            Err(message) => {
                assert(expansion_refused(*expand, outs, tables.last(), message)) by {
                    assert(call_ensures(
                        *expand,
                        (&flat, &table),
                        Err::<Expansion, String>(message),
                    ));
                }
                return Err(DesignError::Expansion { message });
            },
        };
        let rows: Vec<LayerSpec> = assemble_rows(&e, &flat);
        let ghost rows_v = structure::layer_views(rows@);
        let ghost e0 = e;
        assert(rows@.len() == rows_v.len());
        match DesignStack::from_parts(ambient_used, substrate, rows, e.spans) {
            Ok(stack) => {
                assert(expanded_to(*expand, outs, tables.last(), &stack)) by {
                    assert(call_ensures(*expand, (&flat, &table), Ok::<Expansion, String>(e0)));
                }
                Ok((stack, ws))
            },
            Err(error) => {
                assert(badly_expanded(
                    *expand,
                    outs,
                    tables.last(),
                    used,
                    substrate@,
                    error,
                )) by {
                    assert(call_ensures(*expand, (&flat, &table), Ok::<Expansion, String>(e0)));
                }
                Err(DesignError::Stack { error })
            },
        }
    }
}

/// The stack's rows and spans are an expansion of the prepared films.
pub open spec fn expanded_to<G: Fn(&Vec<DesignLayer>, &NkTable) -> Result<Expansion, String>>(
    expand: G,
    films: Seq<DesignLayerView>,
    table: Map<Seq<char>, Seq<(Scalar, Scalar)>>,
    stack: &DesignStack,
) -> bool {
    exists|fs: Vec<DesignLayer>, t: NkTable, e: Expansion|
        {
            &&& film_views(fs@) == films
            &&& t@ == table
            &&& #[trigger] call_ensures(expand, (&fs, &t), Ok::<Expansion, String>(e))
            &&& stack.rows() == expanded_rows(&e, films)
            &&& stack.span_seq() == e.spans@
        }
}

/// The prepared films could not be expanded.
pub open spec fn expansion_refused<
    G: Fn(&Vec<DesignLayer>, &NkTable) -> Result<Expansion, String>,
>(
    expand: G,
    films: Seq<DesignLayerView>,
    table: Map<Seq<char>, Seq<(Scalar, Scalar)>>,
    message: String,
) -> bool {
    exists|fs: Vec<DesignLayer>, t: NkTable|
        {
            &&& film_views(fs@) == films
            &&& t@ == table
            &&& #[trigger] call_ensures(expand, (&fs, &t), Err::<Expansion, String>(message))
        }
}

/// The expansion of the prepared films has a row whose index table does not
/// fit.
pub open spec fn badly_expanded<G: Fn(&Vec<DesignLayer>, &NkTable) -> Result<Expansion, String>>(
    expand: G,
    films: Seq<DesignLayerView>,
    table: Map<Seq<char>, Seq<(Scalar, Scalar)>>,
    ambient: LayerView,
    substrate: LayerView,
    error: StackError,
) -> bool {
    exists|fs: Vec<DesignLayer>, t: NkTable, e: Expansion|
        {
            &&& film_views(fs@) == films
            &&& t@ == table
            &&& #[trigger] call_ensures(expand, (&fs, &t), Ok::<Expansion, String>(e))
            &&& structure::length_fault(ambient, substrate, expanded_rows(&e, films), error)
        }
}

} // verus!
