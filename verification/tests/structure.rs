use navette::numeric::{Arith, Numeric};
use navette::scalar::Scalar;

fn s(x: f64) -> Scalar {
    Scalar::from_bits(x.to_bits())
}

#[allow(dead_code)]
fn f(x: Scalar) -> f64 {
    f64::from_bits(x.to_bits())
}

#[allow(dead_code)]
fn sv(v: &[f64]) -> Vec<Scalar> {
    v.iter().map(|x| s(*x)).collect()
}

#[allow(dead_code)]
fn fv(v: &[Scalar]) -> Vec<f64> {
    v.iter().map(|x| f(*x)).collect()
}

#[allow(dead_code)]
fn num() -> impl Numeric {
    Arith {
        plus: |a, b| s(f(a) + f(b)),
        minus: |a, b| s(f(a) - f(b)),
        times: |a, b| s(f(a) * f(b)),
        over: |a, b| s(f(a) / f(b)),
        root: |a| s(f(a).sqrt()),
        count: |n: usize| s(n as f64),
    }
}

use navette::structure::design::{DesignError, DesignLayer, DesignWarning, Expansion, Gradient};
use navette::structure::nk_table::NkTable;
use navette::structure::refusal::StackError;
use navette::structure::span::Span;
use navette::structure::{DesignStack, LayerSpec};
use navette::needle_pass::sites::build_scan_sites;

const NW: usize = 8;

fn one_decimal(x: Scalar) -> String {
    format!("{:.1}", f(x))
}

fn six_decimals(x: Scalar) -> String {
    format!("{:.6}", f(x))
}

fn plus(a: Scalar, b: Scalar) -> Scalar {
    s(f(a) + f(b))
}

fn minus(a: Scalar, b: Scalar) -> Scalar {
    s(f(a) - f(b))
}

fn total(st: &DesignStack) -> f64 {
    f(st.total_thickness_nm(&plus))
}

fn outer(name: &str, n: f64) -> LayerSpec {
    let mut l = LayerSpec::constant(name, s(n), s(0.0), s(0.0), NW);
    l.optimize = false;
    l.needle = false;
    l
}

fn air() -> LayerSpec {
    outer("air", 1.0)
}

fn sub() -> LayerSpec {
    outer("sub", 1.52)
}

fn h(d: f64) -> LayerSpec {
    LayerSpec::constant("H", s(2.35), s(0.0), s(d), NW)
}

fn l(d: f64) -> LayerSpec {
    LayerSpec::constant("L", s(1.46), s(0.0), s(d), NW)
}

fn stack(films: Vec<LayerSpec>) -> DesignStack {
    DesignStack::with_films(air(), sub(), films).ok().unwrap()
}

fn thick(st: &DesignStack, i: usize) -> f64 {
    f(st.films()[i].d_nm)
}

fn row(re: f64, im: f64) -> Vec<(Scalar, Scalar)> {
    vec![(s(re), s(im)); NW]
}

fn film(d: f64, name: &str) -> DesignLayer {
    DesignLayer {
        material: name.to_string(),
        thickness: s(d),
        optimize: true,
        needle: true,
        inhomogen: false,
        gradient: None,
    }
}

fn graded(d: f64, name: &str) -> DesignLayer {
    DesignLayer { inhomogen: true, ..film(d, name) }
}

/// How the design's films become rows: the interface thickness of each film,
/// and how many slices a profile has, each a little apart from the next.
struct Model {
    iface: Vec<f64>,
    slices: usize,
    step: f64,
}

impl Model {
    fn plain(n: usize) -> Model {
        Model { iface: vec![0.0; n], slices: 1, step: 0.0 }
    }

    fn sliced(slices: usize, step: f64) -> Model {
        Model { iface: vec![0.0], slices, step }
    }

    fn expand(&self, films: &Vec<DesignLayer>, nk: &NkTable) -> Result<Expansion, String> {
        let mut e = Expansion {
            nk: Vec::new(),
            thicknesses: Vec::new(),
            incoherent: Vec::new(),
            rough_types: Vec::new(),
            rough_vals: Vec::new(),
            spans: Vec::new(),
        };
        for (i, layer) in films.iter().enumerate() {
            let own = nk.get(&layer.material).ok_or("no index table".to_string())?;
            let start = e.nk.len();
            let slice = self.iface[i] > 0.0;
            if slice {
                let before = nk.get(&films[i - 1].material).unwrap();
                let mixed = own
                    .iter()
                    .zip(before)
                    .map(|(a, b)| {
                        let cube = (f(a.0) * f(a.0)).cbrt() / 2.0 + (f(b.0) * f(b.0)).cbrt() / 2.0;
                        (s((cube * cube * cube).sqrt()), s(0.0))
                    })
                    .collect();
                e.nk.push(mixed);
                e.thicknesses.push(s(self.iface[i]));
            }
            let bulk_start = e.nk.len();
            let bulk = f(layer.thickness) - self.iface[i];
            let profiled = layer.inhomogen || layer.gradient.is_some();
            let n = if profiled { self.slices } else { 1 };
            for j in 0..n {
                let shift = if n == 1 { 0.0 } else { self.step * j as f64 };
                e.nk.push(own.iter().map(|z| (s(f(z.0) + shift), z.1)).collect());
                e.thicknesses.push(s(bulk / n as f64));
            }
            let end = e.nk.len();
            e.spans.push(Span { start, end, logical: i, slice, bulk_start });
        }
        let n = e.nk.len();
        e.incoherent = vec![false; n];
        e.rough_types = vec![0; n];
        e.rough_vals = vec![s(0.0); n];
        Ok(e)
    }
}

/// The mixture is the mean of the two endpoints.
fn mean_row(
    _: &Gradient,
    a: &Vec<(Scalar, Scalar)>,
    b: &Vec<(Scalar, Scalar)>,
    part: Scalar,
) -> Vec<(Scalar, Scalar)> {
    a.iter()
        .zip(b)
        .map(|(x, y)| {
            let mix = |p: Scalar, q: Scalar| s(f(p) * f(part) + f(q) * (1.0 - f(part)));
            (mix(x.0, y.0), mix(x.1, y.1))
        })
        .collect()
}

/// Drops the imaginary parts, and says on how many wavelengths.
fn sanitize(nk: &Vec<(Scalar, Scalar)>) -> Option<(Vec<(Scalar, Scalar)>, String)> {
    let bad: Vec<usize> = (0..nk.len()).filter(|i| f(nk[*i].1) != 0.0).collect();
    if bad.is_empty() {
        return None;
    }
    let text = format!(
        "incident medium (layer 0) is absorbing at {} of {} wavelengths (first at index {})",
        bad.len(),
        nk.len(),
        bad[0]
    );
    Some((nk.iter().map(|z| (z.0, s(0.0))).collect(), text))
}

fn design_in(
    ambient: LayerSpec,
    substrate: LayerSpec,
    films: &Vec<DesignLayer>,
    nk: &NkTable,
    background: &[&str],
    model: &Model,
) -> Result<(DesignStack, Vec<DesignWarning>), DesignError> {
    let bg: Vec<String> = background.iter().map(|x| x.to_string()).collect();
    DesignStack::from_design(
        ambient,
        substrate,
        films,
        nk,
        NW,
        &bg,
        &sanitize,
        &|g: &Gradient| {
            if g.params.is_empty() { Some("no profile parameters".to_string()) } else { None }
        },
        &|g: &Gradient, _: Scalar| s((f(g.params[0]) + f(g.params[1])) / 2.0),
        &mean_row,
        &|films: &Vec<DesignLayer>, nk: &NkTable| model.expand(films, nk),
    )
}

fn design(films: &Vec<DesignLayer>, nk: &NkTable, background: &[&str], model: &Model) -> DesignStack {
    design_in(air(), sub(), films, nk, background, model).ok().unwrap().0
}

fn one(name: &str, n: f64) -> NkTable {
    let mut t = NkTable::new();
    t.insert(name, row(n, 0.0));
    t
}

fn span_rows(st: &DesignStack) -> Vec<(usize, usize, usize, bool, usize)> {
    st.spans().iter().map(|sp| (sp.start, sp.end, sp.logical, sp.slice, sp.bulk_start)).collect()
}

/// A plain film below one with a leading interface.
fn interfaced(d0: f64, d1: f64, iface: f64, n: f64) -> DesignStack {
    let films = vec![film(d0, "H"), film(d1, "H")];
    let model = Model { iface: vec![0.0, iface], slices: 1, step: 0.0 };
    design(&films, &one("H", n), &[], &model)
}

#[test]
fn gradient_homogenize_is_bitwise_the_ema_and_background_expands() {
    let mut nk = NkTable::new();
    nk.insert("H", row(2.35, 0.01));
    nk.insert("L", row(1.46, 0.0));
    let mut g = film(100.0, "H");
    g.gradient = Some(Gradient {
        material_a: "H".to_string(),
        material_b: "L".to_string(),
        ema: "Bruggeman".to_string(),
        params: sv(&[0.0, 1.0]),
    });
    let films = vec![g];
    let model = Model::sliced(6, 0.01);

    let (st, warns) = design_in(air(), sub(), &films, &nk, &[], &model).ok().unwrap();
    assert_eq!(st.films().len(), 1);
    assert!((thick(&st, 0) - 100.0).abs() < 1e-12);
    let want = mean_row(
        films[0].gradient.as_ref().unwrap(),
        &row(1.46, 0.0),
        &row(2.35, 0.01),
        s(0.5),
    );
    assert_eq!(st.films()[0].nk, want);
    assert_eq!(warns.len(), 1);
    let text = warns[0].message(&six_decimals);
    assert!(text.contains("'H'") && text.contains("'L'"), "{text}");
    assert!(text.contains("f_mid = 0.5"), "{text}");
    assert!(text.contains("Bruggeman"), "{text}");

    let (b, warns) = design_in(air(), sub(), &films, &nk, &["H"], &model).ok().unwrap();
    assert!(warns.is_empty());
    assert!(b.films().len() > 1);
    assert!((total(&b) - 100.0).abs() < 1e-9);
    assert!(b.films().iter().all(|x| !x.optimize && !x.needle));
    assert!(!b.span_of_row(0).is_singleton_bulk());

    let mut partial = NkTable::new();
    partial.insert("H", row(2.35, 0.01));
    let err = design_in(air(), sub(), &films, &partial, &[], &model)
        .err()
        .unwrap()
        .message(&one_decimal);
    assert!(err.contains("layer 'H'"), "{err}");
    assert!(err.contains("'L'"), "{err}");
}

#[test]
fn from_design_expands_interfaces_and_refuses_grading() {
    let nk = one("H", 2.35);
    let films = vec![film(20.0, "H"), film(50.0, "H")];
    let model = Model { iface: vec![0.0, 5.0], slices: 1, step: 0.0 };
    let (st, warns) = design_in(air(), sub(), &films, &nk, &[], &model).ok().unwrap();
    assert!(warns.is_empty());
    assert_eq!(st.films().len(), 3);
    assert!((thick(&st, 1) - 5.0).abs() < 1e-12);
    assert!((thick(&st, 2) - 45.0).abs() < 1e-12);
    assert!(!st.films()[1].optimize && !st.films()[1].needle);
    assert!(st.films()[2].optimize && st.films()[2].needle);
    assert_eq!(st.films()[1].material, "H");

    let g = vec![graded(50.0, "H")];
    let model = Model::sliced(11, 0.02);
    let (gs, warns) = design_in(air(), sub(), &g, &nk, &[], &model).ok().unwrap();
    assert_eq!(warns.len(), 1);
    assert!(warns[0].message(&six_decimals).contains("homogeneous"));
    assert_eq!(gs.films().len(), 1);
    assert!((thick(&gs, 0) - 50.0).abs() < 1e-12);

    let (bs, warns) = design_in(air(), sub(), &g, &nk, &["H"], &model).ok().unwrap();
    assert!(warns.is_empty());
    assert_eq!(bs.films().len(), 11);
    assert!(bs.films().iter().all(|x| !x.optimize && !x.needle));
    let mut ms = bs;
    assert_eq!(ms.merge_adjacent(&plus), 0);
    assert!((total(&ms) - 50.0).abs() < 1e-12);
}

#[test]
fn from_design_drops_ambient_absorption_once_and_says_so() {
    let mut nk = NkTable::new();
    nk.insert("H", row(2.35, 0.3));
    let films = vec![film(50.0, "H")];
    let mut amb = air();
    amb.nk = row(1.33, 0.02);
    let mut absorbing = sub();
    absorbing.nk = row(1.52, 0.1);
    let model = Model::plain(1);
    let (st, warns) = design_in(amb, absorbing, &films, &nk, &[], &model).ok().unwrap();
    assert_eq!(warns.len(), 1);
    let text = warns[0].message(&six_decimals);
    assert!(text.contains("incident medium (layer 0) is absorbing"), "{text}");
    assert!(text.contains(&format!("{NW} of {NW} wavelengths")), "{text}");
    assert!(st.ambient().nk.iter().all(|z| f(z.1) == 0.0));
    assert!(st.ambient().nk.iter().all(|z| (f(z.0) - 1.33).abs() < 1e-15));
    assert!(st.substrate().nk.iter().all(|z| (f(z.1) - 0.1).abs() < 1e-15));
    assert!(st.films()[0].nk.iter().all(|z| (f(z.1) - 0.3).abs() < 1e-15));

    let mut st = st;
    st.insert_needle_seed(0, s(25.0), h(0.0), &minus).ok().unwrap();
    st.merge_adjacent(&plus);
    st.clamp_all(s(0.5), s(500.0), false, &plus, &one_decimal).ok().unwrap();
    st.set_thickness(0, s(12.0)).ok().unwrap();
    assert!(st.ambient().nk.iter().all(|z| f(z.1) == 0.0));

    let mut spotty = air();
    spotty.nk[3] = (s(1.0), s(1e-12));
    let (_, warns) = design_in(spotty, sub(), &films, &nk, &[], &model).ok().unwrap();
    assert_eq!(warns.len(), 1);
    let text = warns[0].message(&six_decimals);
    assert!(text.contains(&format!("1 of {NW} wavelengths")), "{text}");
    assert!(text.contains("first at index 3"), "{text}");

    let (_, warns) = design_in(air(), sub(), &films, &nk, &[], &model).ok().unwrap();
    assert!(warns.is_empty());
}

#[test]
fn basic_properties() {
    let st = stack(vec![h(100.0), l(50.0)]);
    assert_eq!(st.films().len(), 2);
    assert_eq!(st.total_layer_count(), 4);
    assert!((total(&st) - 150.0).abs() < 1e-12);
    assert_eq!(st.num_wavs(), NW);
}

#[test]
fn mismatched_nk_lengths_rejected() {
    let mut bad = h(10.0);
    bad.nk = vec![(s(2.35), s(0.0)); NW - 1];
    assert!(DesignStack::with_films(air(), sub(), vec![bad]).is_err());
}

#[test]
fn insert_needle_seed_splits_host() {
    let mut st = stack(vec![h(100.0)]);
    st.insert_needle_seed(0, s(60.0), l(5.0), &minus).ok().unwrap();
    let fs = st.films();
    assert_eq!(fs.len(), 3);
    assert_eq!(fs[0].material, "H");
    assert!((f(fs[0].d_nm) - 60.0).abs() < 1e-12);
    assert_eq!(fs[1].material, "L");
    assert!((f(fs[1].d_nm) - 5.0).abs() < 1e-12);
    assert_eq!(fs[2].material, "H");
    assert!((f(fs[2].d_nm) - 40.0).abs() < 1e-12);
    assert!((total(&st) - 105.0).abs() < 1e-12);
    assert!(fs[0].optimize && fs[0].needle);
    assert!(fs[2].optimize && fs[2].needle);
}

#[test]
fn insert_out_of_range_errors() {
    let mut st = stack(vec![h(100.0)]);
    assert!(st.insert_needle_seed(3, s(5.0), l(1.0), &minus).is_err());
}

#[test]
fn merge_adjacent_sums_and_keeps_first_props() {
    let mut first_h = h(20.0);
    first_h.optimize = false;
    let mut st = stack(vec![h(50.0), l(30.0), first_h, h(40.0), l(60.0)]);
    assert_eq!(st.merge_adjacent(&plus), 1);
    let fs = st.films();
    assert_eq!(fs.len(), 4);
    assert_eq!(fs[2].material, "H");
    assert!((f(fs[2].d_nm) - 60.0).abs() < 1e-12);
    assert!(!fs[2].optimize);
    assert!(fs[2].needle);
    assert!((total(&st) - 200.0).abs() < 1e-12);
}

#[test]
fn merge_adjacent_respects_nk() {
    let mut b = h(10.0);
    b.nk = row(2.5, 0.0);
    let mut st = stack(vec![h(10.0), b]);
    assert_eq!(st.merge_adjacent(&plus), 0);
    assert_eq!(st.films().len(), 2);
    let mut slice = h(4.0);
    slice.optimize = false;
    slice.needle = false;
    slice.nk = row(1.9, 0.0);
    let mut st = stack(vec![slice, h(46.0)]);
    assert_eq!(st.merge_adjacent(&plus), 0);
    assert!(!st.films()[0].optimize);
}

#[test]
fn merge_full_run_collapses() {
    let mut st = stack(vec![h(1.0), h(2.0), h(3.0)]);
    assert_eq!(st.merge_adjacent(&plus), 2);
    assert_eq!(st.films().len(), 1);
    assert!((thick(&st, 0) - 6.0).abs() < 1e-12);
}

#[test]
fn clamp_removes_thin_caps_thick() {
    let mut st = stack(vec![h(1.0), l(5000.0), h(50.0), l(2.0 - 1e-9)]);
    let rep = st.clamp_all(s(2.0), s(1000.0), false, &plus, &one_decimal).ok().unwrap();
    assert_eq!((rep.rows_removed, rep.spans_capped), (2, 1));
    assert_eq!(st.films().len(), 2);
    assert!((thick(&st, 0) - 1000.0).abs() < 1e-12);
    assert!((thick(&st, 1) - 50.0).abs() < 1e-12);
}

#[test]
fn clamp_boundary_values_survive() {
    let mut st = stack(vec![h(2.0), l(1000.0)]);
    let rep = st.clamp_all(s(2.0), s(1000.0), false, &plus, &one_decimal).ok().unwrap();
    assert_eq!((rep.rows_removed, rep.spans_capped), (0, 0));
    assert_eq!(st.films().len(), 2);
}

#[test]
fn remove_film_returns_layer() {
    let mut st = stack(vec![h(10.0), l(20.0)]);
    let removed = st.remove_film(0).ok().unwrap();
    assert_eq!(removed.material, "H");
    assert_eq!(st.films().len(), 1);
    assert!(st.remove_film(5).is_err());
}

#[test]
fn solver_arrays_layout_matches_smatrix_convention() {
    let st = stack(vec![h(10.0)]);
    let sa = st.solver_arrays();
    assert_eq!(sa.n_layers, 3);
    assert_eq!(sa.n_stack_cache.len(), NW * 3 * 2);
    assert_eq!(sa.thicknesses.len(), 3);
    let d = fv(&sa.thicknesses);
    assert!(d[0].abs() < 1e-15);
    assert!((d[1] - 10.0).abs() < 1e-12);
    assert!(d[2].abs() < 1e-15);
    let c = fv(&sa.n_stack_cache);
    for w in 0..NW {
        let base = w * 3 * 2;
        assert!((c[base] - 1.0).abs() < 1e-12);
        assert!(c[base + 1].abs() < 1e-12);
        assert!((c[base + 2] - 2.35).abs() < 1e-12);
        assert!((c[base + 4] - 1.52).abs() < 1e-12);
    }
    assert!(sa.incoherent_flags.iter().all(|&v| v == 0));
}

#[test]
fn incoherent_flag_and_roughness_passthrough() {
    let mut sp = LayerSpec::constant("spacer", s(1.45), s(0.0), s(1_000_000.0), NW);
    sp.coherent = false;
    sp.rough_type = 2;
    sp.rough_val = s(7.5);
    let sa = stack(vec![sp]).solver_arrays();
    assert_eq!(sa.incoherent_flags, vec![0, 1, 0]);
    assert_eq!(sa.rough_types[1], 2);
    assert!((f(sa.rough_vals[1]) - 7.5).abs() < 1e-12);
}

#[test]
fn from_design_keeps_spans() {
    let st = interfaced(20.0, 50.0, 1.0, 2.0);
    assert_eq!(st.films().len(), 3);
    assert_eq!(span_rows(&st), vec![(0, 1, 0, false, 0), (1, 3, 1, true, 2)]);
    assert!(st.span_of_row(1).is_singleton_bulk());
    assert!(st.span_of_row(2).is_singleton_bulk());
}

#[test]
fn n1_interface_film_bulk_is_still_a_host() {
    let st = interfaced(100.0, 50.0, 1.0, 2.0);
    let steps = |d: Scalar, step: Scalar| (f(d) / f(step)) as i32;
    let multiple = |k: i32, step: Scalar| s(k as f64 * f(step));
    let sites = |spans: &Vec<Span>| {
        build_scan_sites(st.films(), spans, s(10.0), &steps, &multiple, &plus)
            .iter()
            .map(|x| (x.film_idx, f(x.depth_into_layer_nm), f(x.z_nm)))
            .collect::<Vec<_>>()
    };
    let with_spans = sites(st.spans());
    assert_eq!(with_spans, sites(&Vec::new()));
    assert!(with_spans.iter().any(|x| x.0 == 2 && x.1 == 10.0));
    assert!(with_spans.iter().all(|x| x.0 != 1));
    assert!(st.films()[2].optimize && thick(&st, 2) < 2.0 * 25.0);
}

#[test]
fn needle_refusal_at_the_mutator_names_span_and_range() {
    let nk = one("H", 2.0);
    let mut st = design(&vec![graded(50.0, "H")], &nk, &["H"], &Model::sliced(11, 0.02));
    assert_eq!(st.films().len(), 11);
    let err = st
        .insert_needle_seed(3, s(5.0), h(5.0), &minus)
        .err()
        .unwrap()
        .message(&one_decimal);
    assert!(err.contains("multi-row span"), "{err}");
    assert!(err.contains("rows 0..11"), "{err}");
    assert!(err.contains("'H'"), "{err}");
    assert_eq!(st.films().len(), 11);
    let mut s2 = design(&vec![film(50.0, "H")], &nk, &[], &Model::plain(1));
    s2.insert_needle_seed(0, s(25.0), h(5.0), &minus).ok().unwrap();
    assert_eq!(s2.films().len(), 3);
}

#[test]
fn merge_bookkeeping_intra_and_cross_span() {
    let nk = one("H", 2.0);
    let mut g = design(&vec![graded(50.0, "H")], &nk, &["H"], &Model::sliced(8, 0.0));
    let n_before = g.films().len();
    assert!(n_before > 1);
    assert_eq!(g.merge_adjacent(&plus), n_before - 1);
    assert_eq!(span_rows(&g), vec![(0, 1, 0, false, 0)]);
    assert!((total(&g) - 50.0).abs() < 1e-12);

    let two = vec![film(20.0, "H"), film(30.0, "H")];
    let mut s2 = design(&two, &nk, &[], &Model::plain(2));
    assert_eq!(span_rows(&s2).len(), 2);
    assert_eq!(s2.merge_adjacent(&plus), 1);
    assert_eq!(span_rows(&s2), vec![(0, 1, 0, false, 0)]);
    assert!((total(&s2) - 50.0).abs() < 1e-12);
}

#[test]
fn merge_absorbing_a_slice_drops_the_flag_it_no_longer_carries() {
    let mut st = interfaced(20.0, 50.0, 1.0, 1.0);
    assert_eq!(st.merge_adjacent(&plus), 2);
    assert_eq!(st.films().len(), 1);
    assert!((thick(&st, 0) - 70.0).abs() < 1e-12);
    assert_eq!(span_rows(&st), vec![(0, 1, 0, false, 0)]);
}

#[test]
fn insert_splits_the_span_like_the_rows() {
    let base = interfaced(20.0, 50.0, 1.0, 2.0);
    let mut st = base.cloned();
    st.insert_needle_seed(2, s(10.0), l(5.0), &minus).ok().unwrap();
    assert_eq!(st.films().len(), 5);
    assert_eq!(
        span_rows(&st),
        vec![(0, 1, 0, false, 0), (1, 3, 1, true, 2), (3, 4, 3, false, 3), (4, 5, 1, false, 4)]
    );
    assert!((thick(&st, 2) - 10.0).abs() < 1e-12);
    assert!((thick(&st, 4) - 39.0).abs() < 1e-12);

    let mut st = base;
    st.insert_needle_seed(1, s(10.0), l(5.0), &minus).ok().unwrap();
    assert_eq!(st.films().len(), 5);
    assert_eq!(
        span_rows(&st),
        vec![(0, 1, 0, false, 0), (1, 2, 1, true, 2), (2, 3, 2, false, 2), (3, 5, 1, true, 4)]
    );
}

#[test]
fn remove_updates_the_span_partition() {
    let base = interfaced(20.0, 50.0, 1.0, 2.0);
    let mut st = base.cloned();
    st.remove_film(2).ok().unwrap();
    assert_eq!(span_rows(&st), vec![(0, 1, 0, false, 0), (1, 2, 1, true, 2)]);
    assert!(!st.span_of_row(1).is_singleton_bulk());
    let mut st = base.cloned();
    st.remove_film(1).ok().unwrap();
    assert_eq!(span_rows(&st), vec![(0, 1, 0, false, 0), (1, 2, 1, false, 1)]);
    assert!(st.span_of_row(1).is_singleton_bulk());
    let mut st = base;
    st.remove_film(0).ok().unwrap();
    assert_eq!(span_rows(&st), vec![(0, 2, 1, true, 1)]);
}

#[test]
fn clamp_records_surviving_rows_per_span() {
    let mut nk = NkTable::new();
    nk.insert("SiO2", row(1.46, 0.0));
    nk.insert("TiO2", row(2.35, 0.0));
    let films = vec![film(100.0, "SiO2"), film(50.0, "TiO2")];
    let model = |t: f64| Model { iface: vec![0.0, t], slices: 1, step: 0.0 };
    let mut st = design(&films, &nk, &[], &model(1.0));
    let rep = st.clamp_all(s(2.0), s(1000.0), false, &plus, &one_decimal).ok().unwrap();
    assert_eq!((rep.rows_removed, rep.spans_capped), (0, 0));
    assert!(rep.is_empty());
    assert_eq!(st.films().len(), 3);
    assert_eq!(span_rows(&st), vec![(0, 1, 0, false, 0), (1, 3, 1, true, 2)]);
    assert!((thick(&st, 1) - 1.0).abs() < 1e-12);
    assert!((thick(&st, 2) - 49.0).abs() < 1e-12);
    assert!((total(&st) - 150.0).abs() < 1e-12);

    let mut c3 = design(&films, &nk, &[], &model(3.0));
    let rep3 = c3.clamp_all(s(2.0), s(1000.0), false, &plus, &one_decimal).ok().unwrap();
    assert!(rep3.is_empty());
    assert!((total(&c3) - 150.0).abs() < 1e-12);

    let mut g = design(&vec![graded(50.0, "TiO2")], &nk, &["TiO2"], &Model::sliced(11, 0.02));
    let n_rows = g.films().len();
    assert!(n_rows > 1);
    let rep = g.clamp_all(s(100.0), s(1000.0), false, &plus, &one_decimal).ok().unwrap();
    assert_eq!(rep.rows_removed, n_rows);
    assert_eq!(rep.spans_removed.len(), 1);
    assert!(rep.spans_removed[0].starts_with("TiO2"), "{}", rep.spans_removed[0]);
    assert!(g.films().is_empty());
    // The sum of no doubles is negative zero.
    assert_eq!(total(&g).to_bits(), (-0.0f64).to_bits());
    assert!(g.spans().is_empty());
}

fn thin_profile() -> DesignStack {
    design(&vec![graded(5.0, "TiO2")], &one("TiO2", 2.35), &["TiO2"], &Model::sliced(4, 0.01))
}

#[test]
fn f02_floor_leaves_a_sub_floor_graded_span_whole() {
    let mut st = thin_profile();
    assert_eq!(st.films().len(), 4);
    let rep = st.clamp_all(s(2.0), s(1000.0), false, &plus, &one_decimal).ok().unwrap();
    assert!(rep.is_empty());
    assert_eq!(st.films().len(), 4);
    assert!((total(&st) - 5.0).abs() < 1e-12);
}

#[test]
fn f02_floor_above_a_span_removes_it_whole_and_names_it() {
    let mut st = thin_profile();
    let rep = st.clamp_all(s(6.0), s(1000.0), false, &plus, &one_decimal).ok().unwrap();
    assert_eq!(rep.rows_removed, 4);
    assert_eq!(rep.spans_removed.len(), 1);
    assert!(rep.spans_removed[0].starts_with("TiO2 (5.0 nm)"), "{}", rep.spans_removed[0]);
    assert!(st.films().is_empty());
}

#[test]
fn f02_cap_refuses_a_multirow_span_above_the_ceiling() {
    let nk = one("TiO2", 2.35);
    let films = vec![graded(1000.0, "TiO2")];
    let mut st = design(&films, &nk, &["TiO2"], &Model::sliced(57, 0.01));
    assert_eq!(st.films().len(), 57);
    let before = total(&st);
    let err = st
        .clamp_all(s(2.0), s(300.0), false, &plus, &one_decimal)
        .err()
        .unwrap()
        .message(&one_decimal);
    assert!(err.contains("'TiO2'"), "{err}");
    assert!(err.contains("1000.0"), "{err}");
    assert!(err.contains("300.0"), "{err}");
    assert!(err.contains("refusing"), "{err}");
    assert_eq!(st.films().len(), 57);
    assert!((total(&st) - before).abs() < 1e-12);
    let mut st2 = design(&films, &nk, &["TiO2"], &Model::sliced(57, 0.01));
    let rep = st2.clamp_all(s(2.0), s(1500.0), false, &plus, &one_decimal).ok().unwrap();
    assert!(rep.is_empty());
}

#[test]
fn f02_one_row_cap_unchanged() {
    let mut st = stack(vec![h(5000.0)]);
    let rep = st.clamp_all(s(2.0), s(1000.0), false, &plus, &one_decimal).ok().unwrap();
    assert_eq!(rep.spans_capped, 1);
    assert!(rep.spans_removed.is_empty());
    assert!((thick(&st, 0) - 1000.0).abs() < 1e-12);
}

#[test]
fn the_refusals_of_a_stack_read_as_they_should() {
    let mut bad = h(10.0);
    bad.nk = vec![(s(2.35), s(0.0)); NW - 1];
    let e = DesignStack::with_films(air(), sub(), vec![l(1.0), bad]).err().unwrap();
    assert_eq!(e.message(&one_decimal), "film 1 ('H') nk length 7 != ambient nk length 8");
    let mut short = sub();
    short.nk = vec![(s(1.52), s(0.0)); 2];
    let e = DesignStack::with_films(air(), short, vec![]).err().unwrap();
    assert_eq!(e.message(&one_decimal), "substrate nk length 2 != ambient nk length 8");
    let mut st = stack(vec![h(1.0)]);
    let e = st.remove_film(5).err().unwrap();
    assert!(matches!(e, StackError::FilmOutOfRange { film_idx: 5, films: 1 }));
    assert_eq!(e.message(&one_decimal), "film_idx 5 out of range (1 films)");
    let e = st.set_thickness(9, s(1.0)).err().unwrap();
    assert_eq!(e.message(&one_decimal), "film_idx 9 out of range");
}

#[test]
fn a_bad_gradient_or_grid_is_refused() {
    let nk = one("H", 2.0);
    let mut g = film(10.0, "H");
    g.gradient = Some(Gradient {
        material_a: "H".to_string(),
        material_b: "L".to_string(),
        ema: "linear".to_string(),
        params: vec![],
    });
    let e = design_in(air(), sub(), &vec![g], &nk, &[], &Model::plain(1)).err().unwrap();
    assert_eq!(e.message(&one_decimal), "layer 'H': no profile parameters");
    let mut short = sub();
    short.nk = vec![(s(1.52), s(0.0)); 2];
    let e = design_in(air(), short, &vec![], &nk, &[], &Model::plain(0)).err().unwrap();
    assert_eq!(
        e.message(&one_decimal),
        "DesignStack::from_design: boundary nk length != grid length."
    );
    let e = design_in(air(), sub(), &vec![film(1.0, "X")], &nk, &[], &Model::plain(1));
    assert_eq!(e.err().unwrap().message(&one_decimal), "no index table");
    let mut t = one("H", 2.0);
    t.insert("L", vec![(s(1.0), s(0.0)); 3]);
    let mut g = film(10.0, "H");
    g.gradient = Some(Gradient {
        material_a: "H".to_string(),
        material_b: "L".to_string(),
        ema: "linear".to_string(),
        params: sv(&[0.0, 1.0]),
    });
    let e = design_in(air(), sub(), &vec![g], &t, &[], &Model::plain(1)).err().unwrap();
    assert_eq!(
        e.message(&one_decimal),
        "layer 'H': endpoint spectrum length 8 / 3 != grid length 8"
    );
}

#[test]
fn a_refused_host_is_named_before_anything_is_tried() {
    let nk = one("H", 2.0);
    let st = design(&vec![graded(50.0, "H")], &nk, &["H"], &Model::sliced(11, 0.02));
    let e = st.needle_host_refusal(3).unwrap();
    assert!(matches!(&e, StackError::NotAHost { film_idx: 3, start: 0, end: 11, .. }));
    assert!(e.message(&one_decimal).contains("rows 0..11"));
    assert!(st.needle_host_refusal(11).is_none());
    let plain = design(&vec![film(50.0, "H")], &nk, &[], &Model::plain(1));
    assert!(plain.needle_host_refusal(0).is_none());
}

#[test]
fn clamping_again_finds_nothing_to_do() {
    let films = || {
        [0.5, 3.0, 2000.0, 700.0]
            .iter()
            .map(|d| LayerSpec::constant("H", s(2.35), s(0.0), s(*d), NW))
            .collect::<Vec<_>>()
    };
    for (clamp_up, left) in
        [(false, vec![3.0, 1000.0, 700.0]), (true, vec![2.0, 3.0, 1000.0, 700.0])]
    {
        let mut st = DesignStack::with_films(air(), sub(), films()).unwrap();
        let first = st.clamp_all(s(2.0), s(1000.0), clamp_up, &plus, &one_decimal).ok().unwrap();
        assert!(!first.is_empty());
        let again = st.clamp_all(s(2.0), s(1000.0), clamp_up, &plus, &one_decimal).ok().unwrap();
        assert!(again.is_empty());
        assert_eq!(fv(&st.films().iter().map(|l| l.d_nm).collect::<Vec<_>>()), left);
    }
}
