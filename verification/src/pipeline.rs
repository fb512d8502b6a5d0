//! The macro-loop of the needle method: what it is given, what it refuses, and
//! how it goes from one piece of work to the next.
use crate::numeric;
use crate::numeric::{sum_all, Numeric};
use crate::scalar;
use crate::scalar::Scalar;
use crate::structure;
use crate::structure::span;
use crate::structure::span::Span;
use crate::structure::{row_thicknesses, DesignStack, LayerSpec, LayerView};
use crate::text;
use crate::text::{decimal_text, same_text};
use vstd::prelude::*;
use vstd::string::*;

pub mod laws;
pub mod machine;
pub mod merits;
pub mod run;
pub mod spectral;
pub mod sweep;

verus! {

/// What happens to a film below the floor.
#[derive(Clone, Copy, Debug, PartialEq, Eq, Structural)]
pub enum ThinLayerPolicy {
    /// It is removed.
    Remove,
    /// It is removed, but raised to the floor in the last pass.
    ClampUpFinal,
    /// It is raised to the floor in every pass.
    ClampUpAlways,
}

impl ThinLayerPolicy {
    pub open spec fn code(self) -> Seq<char> {
        match self {
            ThinLayerPolicy::Remove => "remove"@,
            ThinLayerPolicy::ClampUpFinal => "clamp_up_final"@,
            ThinLayerPolicy::ClampUpAlways => "clamp_up_always"@,
        }
    }

    /// A clamp pass raises thin films.
    pub open spec fn raises(self, final_pass: bool) -> bool {
        self is ClampUpAlways || (self is ClampUpFinal && final_pass)
    }

    /// The policy with a given name.
    pub fn parse(s: &str) -> (r: Option<ThinLayerPolicy>)
        ensures
            match r {
                Some(p) => s@ == p.code(),
                None => forall|p: ThinLayerPolicy| s@ != #[trigger] p.code(),
            },
    {
        if same_text(s, "remove") {
            Some(ThinLayerPolicy::Remove)
        } else if same_text(s, "clamp_up_final") {
            Some(ThinLayerPolicy::ClampUpFinal)
        } else if same_text(s, "clamp_up_always") {
            Some(ThinLayerPolicy::ClampUpAlways)
        } else {
            None
        }
    }

    /// Whether a clamp pass raises thin films rather than removing them.
    pub fn clamps_up(self, final_pass: bool) -> (r: bool)
        ensures
            r == self.raises(final_pass),
    {
        match self {
            ThinLayerPolicy::Remove => false,
            ThinLayerPolicy::ClampUpFinal => final_pass,
            ThinLayerPolicy::ClampUpAlways => true,
        }
    }
}

/// The limits of a run.
#[derive(Clone, Copy, Debug)]
pub struct PipelineConfig {
    pub max_macro_cycles: usize,
    /// Physical layers: a graded film counts once.
    pub max_film_layers: usize,
    pub max_total_thickness_nm: Scalar,
    /// A merit that is good enough; not looked at unless positive.
    pub merit_target: Scalar,
    pub needles_per_cycle: usize,
    pub enable_cleanup: bool,
    /// Films below this are up for removal; the floor of the clamp passes
    /// where none is given.
    pub cleanup_min_nm: Option<Scalar>,
    pub cleanup_max_removals: Option<usize>,
    pub enable_inflate: bool,
    /// How many quarter waves the inflation adds, and at which wavelength.
    pub inflate_addon_qwot: Scalar,
    pub inflate_reference_wl: Scalar,
    pub inflate_max_layers: Option<usize>,
    pub clamp_min_nm: Scalar,
    pub clamp_max_nm: Scalar,
    pub thin_layer_policy: ThinLayerPolicy,
    pub stagnation_window: usize,
    pub stagnation_gradient_tol: Scalar,
    pub stagnation_oscillation_ratio: Scalar,
    pub stagnation_divergence_count: usize,
}

impl PipelineConfig {
    /// The thickness below which the cleanup looks at a film.
    pub open spec fn cleanup_floor(self) -> Scalar {
        match self.cleanup_min_nm {
            Some(m) => m,
            None => self.clamp_min_nm,
        }
    }
}

/// Why a run was refused.
#[derive(Debug)]
pub enum PipelineFault {
    /// A fixed profile is thicker than the ceiling.
    PinnedSpan { material: String, d_nm: Scalar, max_nm: Scalar },
    /// With every film raised, a rejected needle could never leave.
    ClampUpAlways { needles: usize },
}

/// The message of a fault, thicknesses with one decimal.
pub open spec fn pipeline_text<S: Fn(Scalar) -> String>(
    f: PipelineFault,
    one_decimal: S,
) -> Seq<char> {
    match f {
        PipelineFault::PinnedSpan { material, d_nm, max_nm } => "NeedlePipeline: span '"@
            + material@ + "' is "@ + text::shown(one_decimal, d_nm)
            + " nm thick, above the                      clamp_max_nm ceiling of "@ + text::shown(
            one_decimal,
            max_nm,
        )
            + " nm - refusing rather than                      rescaling a pinned profile"@,
        PipelineFault::ClampUpAlways { needles } =>
            "NeedlePipeline: thin_layer_policy 'clamp_up_always' conflicts with needles_per_cycle = "@
            + text::decimal(needles as nat)
            + " - with the floor as a hard LM bound nothing can ever be eliminated, so a rejected seed parks at the floor and the layer count only ever grows. Use 'clamp_up_final' (the documented default for needle runs) or set needles_per_cycle = 0."@,
    }
}

impl PipelineFault {
    /// The message, thicknesses shown by `one_decimal`.
    pub fn message<S: Fn(Scalar) -> String>(&self, one_decimal: &S) -> (r: String)
        requires
            text::shows(*one_decimal),
        ensures
            r@ == pipeline_text(*self, *one_decimal),
    {
        match self {
            PipelineFault::PinnedSpan { material, d_nm, max_nm } => {
                let d: String = one_decimal(*d_nm);
                let m: String = one_decimal(*max_nm);
                String::from_str("NeedlePipeline: span '").concat(material.as_str()).concat(
                    "' is ",
                ).concat(d.as_str()).concat(
                    " nm thick, above the                      clamp_max_nm ceiling of ",
                ).concat(m.as_str()).concat(
                    " nm - refusing rather than                      rescaling a pinned profile",
                )
            },
            PipelineFault::ClampUpAlways { needles } => String::from_str(
                "NeedlePipeline: thin_layer_policy 'clamp_up_always' conflicts with needles_per_cycle = ",
            ).concat(decimal_text(*needles as u64).as_str()).concat(
                " - with the floor as a hard LM bound nothing can ever be eliminated, so a rejected seed parks at the floor and the layer count only ever grows. Use 'clamp_up_final' (the documented default for needle runs) or set needles_per_cycle = 0.",
            ),
        }
    }
}

/// Every bulk row of a span takes part in the optimization.
pub open spec fn scalable(rows: Seq<LayerView>, sp: Span) -> bool {
    forall|i: int| sp.bulk_start <= i < sp.end ==> (#[trigger] rows[i]).optimize
}

/// The thickness of a span, its slice included.
pub open spec fn span_total<A: Numeric>(num: A, rows: Seq<LayerView>, sp: Span) -> Scalar {
    numeric::sum_of(
        num,
        structure::thicknesses(rows.subrange(sp.start as int, sp.end as int)),
        sp.end - sp.start,
    )
}

/// A fixed profile of several rows is above the ceiling.
pub open spec fn pinned_above<A: Numeric>(
    num: A,
    rows: Seq<LayerView>,
    sp: Span,
    max_nm: Scalar,
) -> bool {
    &&& sp.multi_row()
    &&& !scalable(rows, sp)
    &&& scalar::less(max_nm, span_total(num, rows, sp))
}

/// The first span from `k` on that is fixed and above the ceiling.
pub open spec fn first_pinned<A: Numeric>(
    num: A,
    rows: Seq<LayerView>,
    spans: Seq<Span>,
    max_nm: Scalar,
    k: int,
) -> int
    decreases spans.len() - k,
{
    if k >= spans.len() {
        spans.len() as int
    } else if pinned_above(num, rows, spans[k], max_nm) {
        k
    } else {
        first_pinned(num, rows, spans, max_nm, k + 1)
    }
}

/// With every film raised and needles on, films only ever get more.
pub open spec fn conflicting(cfg: PipelineConfig) -> bool {
    cfg.thin_layer_policy is ClampUpAlways && cfg.needles_per_cycle > 0
}

impl DesignStack {
    /// Whether every bulk row of a span takes part in the optimization.
    pub fn span_is_scalable(&self, sp: &Span) -> (r: bool)
        requires
            sp.end <= self.rows().len(),
        ensures
            r == scalable(self.rows(), *sp),
    {
        let films: &Vec<LayerSpec> = self.films();
        let mut i: usize = sp.bulk_start;
        while i < sp.end
            invariant
                structure::layer_views(films@) == self.rows(),
                sp.end <= films@.len(),
                sp.bulk_start <= i,
                forall|k: int| sp.bulk_start <= k < i ==> (#[trigger] self.rows()[k]).optimize,
            decreases sp.end - i,
        {
            assert(self.rows()[i as int] == films@[i as int]@);
            if !films[i].optimize {
                return false;
            }
            i += 1;
        }
        true
    }
}

/// Says why a run on a stack is refused: a fixed profile above the ceiling, or
/// a policy under which nothing can be removed.
pub fn check_run<A: Numeric>(num: &A, stack: &DesignStack, cfg: &PipelineConfig) -> (r: Option<
    PipelineFault,
>)
    requires
        num.sound(),
        stack.wf(),
    ensures
        ({
            let rows = stack.rows();
            let spans = stack.span_seq();
            let k = first_pinned(*num, rows, spans, cfg.clamp_max_nm, 0);
            if k < spans.len() {
                r matches Some(PipelineFault::PinnedSpan { material, d_nm, max_nm }) && material@
                    == rows[spans[k].start as int].material && d_nm == span_total(
                    *num,
                    rows,
                    spans[k],
                ) && max_nm == cfg.clamp_max_nm
            } else if conflicting(*cfg) {
                r == Some(PipelineFault::ClampUpAlways { needles: cfg.needles_per_cycle })
            } else {
                r is None
            }
        }),
{
    let ghost rows = stack.rows();
    let spans: &Vec<Span> = stack.spans();
    let films: &Vec<LayerSpec> = stack.films();
    let mut k: usize = 0;
    while k < spans.len()
        invariant
            num.sound(),
            stack.wf(),
            rows == stack.rows(),
            spans@ == stack.span_seq(),
            structure::layer_views(films@) == rows,
            k <= spans@.len(),
            first_pinned(*num, rows, spans@, cfg.clamp_max_nm, k as int) == first_pinned(
                *num,
                rows,
                spans@,
                cfg.clamp_max_nm,
                0,
            ),
        decreases spans.len() - k,
    {
        let sp: Span = spans[k];
        proof {
            span::laid_bounds(spans@, 0, rows.len() as int, k as int);
        }
        if sp.end - sp.start > 1 && !stack.span_is_scalable(&sp) {
            let ds: Vec<Scalar> = row_thicknesses(films, sp.start, sp.end);
            let d: Scalar = sum_all(num, &ds);
            if d.gt(cfg.clamp_max_nm) {
                assert(rows[sp.start as int] == films@[sp.start as int]@);
                return Some(
                    PipelineFault::PinnedSpan {
                        material: films[sp.start].material.clone(),
                        d_nm: d,
                        max_nm: cfg.clamp_max_nm,
                    },
                );
            }
        }
        k += 1;
    }
    match cfg.thin_layer_policy {
        ThinLayerPolicy::ClampUpAlways => {
            if cfg.needles_per_cycle > 0 {
                return Some(PipelineFault::ClampUpAlways { needles: cfg.needles_per_cycle });
            }
        },
        _ => {},
    }
    None
}

} // verus!
