use navette::numeric::{Arith, Numeric};
use navette::scalar::Scalar;

fn s(x: f64) -> Scalar {
    Scalar::from_bits(x.to_bits())
}

#[allow(dead_code)]
fn f(x: Scalar) -> f64 {
    f64::from_bits(x.to_bits())
}

#[allow(dead_code)]
fn sv(v: &[f64]) -> Vec<Scalar> {
    v.iter().map(|x| s(*x)).collect()
}

#[allow(dead_code)]
fn fv(v: &[Scalar]) -> Vec<f64> {
    v.iter().map(|x| f(*x)).collect()
}

#[allow(dead_code)]
fn num() -> impl Numeric {
    Arith {
        plus: |a, b| s(f(a) + f(b)),
        minus: |a, b| s(f(a) - f(b)),
        times: |a, b| s(f(a) * f(b)),
        over: |a, b| s(f(a) / f(b)),
        root: |a| s(f(a).sqrt()),
        count: |n: usize| s(n as f64),
    }
}

use navette::merit::spec::MeritSpec;
use navette::targets::color::{check_color_demand, ColorRefusal, ColorRequest, ColorTables};
use navette::targets::compile::compile_merit_spec;
use navette::targets::{
    check_integral, check_weight, resolve_band, AngularTarget, Band, CmfJson, CmfTable,
    ColorReference, ColorTargetJson, IllumJson, IllumTable, ReferenceJson, SpectralTarget,
    TargetSet, What,
};
use std::cell::RefCell;

fn show(x: Scalar) -> String {
    format!("{}", f(x))
}

fn debug(x: Scalar) -> String {
    format!("{:?}", f(x))
}

fn spec_target() -> SpectralTarget {
    SpectralTarget {
        wavelengths: sv(&[500.0, 600.0]),
        values: sv(&[0.05, 0.05]),
        tolerances: sv(&[0.01, 0.01]),
        angle: s(0.0),
        polarization: "s".to_string(),
        spectral: "R".to_string(),
        kind: "e".to_string(),
        normalization_mode: "auto".to_string(),
        band: None,
        phase: false,
        weight: s(1.0),
        normalize_count: false,
        integral: false,
    }
}

fn ang_target() -> AngularTarget {
    AngularTarget {
        wavelength: s(550.0),
        angles: sv(&[0.0, 30.0]),
        values: sv(&[0.25, 0.75]),
        tolerances: sv(&[0.01, 0.02]),
        polarization: "p".to_string(),
        spectral: "T".to_string(),
        kind: "e".to_string(),
        normalization_mode: "none".to_string(),
        band: None,
        phase: false,
        weight: s(1.0),
        normalize_count: false,
        integral: false,
    }
}

fn set_of(spectral: Vec<SpectralTarget>, color: Vec<ColorTargetJson>) -> TargetSet {
    TargetSet { spectral, angular: vec![], color, cache_size: 128, tolerance_floor: s(1e-12) }
}

fn tables() -> ColorTables {
    ColorTables {
        illum_wl: sv(&[400.0, 700.0]),
        illum: sv(&[2.0, 3.0]),
        cmf_wl: sv(&[400.0, 700.0]),
        cmf_xyz: vec![[s(0.1), s(0.2), s(0.3)], [s(0.4), s(0.5), s(0.6)]],
        yi_cx: s(1.3013),
        yi_cz: s(1.1498),
    }
}

fn compile(set: &TargetSet) -> Result<MeritSpec, String> {
    let log10 = |x: Scalar| s(f(x).log10());
    compile_merit_spec(&num(), &log10, set, &tables(), &|_: ColorRequest| Ok(7))
        .map_err(|e| e.message(set, &show, &debug))
}

fn refused(set: &TargetSet) -> String {
    match compile(set) {
        Ok(_) => panic!("a refusal was expected"),
        Err(e) => e,
    }
}

#[test]
fn compiles_flat_spec() {
    let spec = compile(&set_of(vec![spec_target()], vec![])).ok().unwrap();
    assert_eq!(spec.key_count(), 1);
    assert_eq!(spec.target_count(), 1);
}

#[test]
fn refuses_bad_targets() {
    let mut set = set_of(vec![spec_target()], vec![]);
    set.spectral[0].weight = s(-1.0);
    assert!(compile(&set).is_err());
    set.spectral[0].weight = s(1.0);
    set.spectral[0].integral = true;
    set.spectral[0].normalize_count = true;
    assert!(compile(&set).is_err());
    set.spectral[0].integral = false;
    set.spectral[0].normalize_count = false;
    set.spectral[0].spectral = "Nope".to_string();
    assert!(compile(&set).is_err());
}

fn color_target() -> ColorTargetJson {
    ColorTargetJson {
        curve: "Ru".to_string(),
        angle: s(0.0),
        illuminant: IllumJson::Table(IllumTable {
            wavelengths: sv(&[500.0, 600.0]),
            values: sv(&[1.0, 1.0]),
        }),
        observer: CmfJson::Table(CmfTable {
            wavelengths: sv(&[500.0, 600.0]),
            xyz: vec![[s(0.10), s(0.20), s(0.05)], [s(0.11), s(0.21), s(0.055)]],
        }),
        quantity: "Lab".to_string(),
        reference: ReferenceJson::Valid(ColorReference::Triple([s(60.0), s(10.0), s(-20.0)])),
        distance: "DeltaE2000".to_string(),
        weight: s(1.0),
        yi_cx: None,
        yi_cz: None,
        kind: "Exact".to_string(),
        transform: "linear".to_string(),
        integral: false,
        count_norm: None,
        phase: false,
        band: None,
    }
}

#[test]
fn compiles_color_demand_and_dedupes_keys() {
    let mut st = spec_target();
    st.polarization = "u".to_string();
    let spec = compile(&set_of(vec![st], vec![color_target()])).ok().unwrap();
    assert_eq!(spec.key_count(), 1);
    assert_eq!(spec.target_count(), 1);
    assert_eq!(spec.color_demands().len(), 1);
    assert_eq!(spec.n_residuals(), 2 + 1);
    assert_eq!(spec.color_demands()[0].id, 7);
}

#[test]
fn color_refusals_name_both_sides() {
    let bad = |f: &dyn Fn(&mut ColorTargetJson)| {
        let mut t = color_target();
        f(&mut t);
        refused(&set_of(vec![], vec![t]))
    };
    assert!(bad(&|t| t.curve = "Nope".to_string()).contains("front R/T"));
    assert!(bad(&|t| t.curve = "As".to_string()).contains("front R/T"));
    assert!(bad(&|t| t.curve = "RBs".to_string()).contains("back-incidence"));
    assert!(bad(&|t| t.kind = "e".to_string()).contains("Exact"));
    assert!(bad(&|t| t.transform = "log".to_string()).contains("linear"));
    assert!(bad(&|t| t.integral = true).contains("integral"));
    assert!(bad(&|t| t.count_norm = Some(s(2.0))).contains("count_norm"));
    assert!(bad(&|t| t.phase = true).contains("phase"));
    assert!(bad(&|t| t.band = Some(Band::Scalar(s(0.1)))).contains("band"));
    assert!(bad(&|t| t.quantity = "Nope".to_string()).contains("unknown quantity"));
    assert!(bad(&|t| t.distance = "DIN99".to_string()).contains("unknown distance"));
    assert!(bad(&|t| t.quantity = "XyY".to_string()).contains("XyY"));
    assert!(
        bad(&|t| t.illuminant = IllumJson::Name("F2".to_string())).contains("unknown illuminant")
    );
    assert!(
        bad(&|t| t.observer = CmfJson::Name("1964_10deg".to_string())).contains("unknown observer")
    );
    assert!(bad(&|t| t.reference = ReferenceJson::Valid(ColorReference::Scalar(s(1.0))))
        .contains("scalar reference"));
    assert!(bad(&|t| t.weight = s(-1.0)).contains("weight"));
    assert!(bad(&|t| t.reference = ReferenceJson::Other("[1.0,2.0,3.0,4.0]".to_string()))
        .contains("[3] triple"));
}

fn triple(a: f64, b: f64, c: f64) -> ReferenceJson {
    ReferenceJson::Valid(ColorReference::Triple([s(a), s(b), s(c)]))
}

fn pair(a: f64, b: f64) -> ReferenceJson {
    ReferenceJson::Valid(ColorReference::Pair([s(a), s(b)]))
}

fn single(a: f64) -> ReferenceJson {
    ReferenceJson::Valid(ColorReference::Scalar(s(a)))
}

/// What becomes of a demand on this quantity: nothing wrong, or the words.
fn color_words(q: &str, r: ReferenceJson, d: &str) -> Result<(), String> {
    let mut t = color_target();
    t.quantity = q.to_string();
    t.reference = r;
    t.distance = d.to_string();
    let set = set_of(vec![], vec![t]);
    compile(&set).map(|_| ())
}

#[test]
fn p2_quantities_compile_and_gate_pairs() {
    let ok = color_words;
    assert!(ok("LCh", triple(60.0, 20.0, 100.0), "DeltaE2000").is_ok());
    assert!(ok("LCh", triple(60.0, 20.0, 100.0), "Channels").is_ok());
    assert!(ok("Oklab", triple(0.5, 0.01, 0.02), "Channels").is_ok());
    assert!(ok("Y", single(0.5), "Channels").is_ok());
    assert!(ok("Oklab", triple(0.5, 0.0, 0.0), "DeltaE76").unwrap_err().contains("Oklab"));
    assert!(ok("Y", single(0.5), "DeltaE76").unwrap_err().contains("'Y'"));
    assert!(ok("Y", triple(0.5, 0.0, 0.0), "Channels").unwrap_err().contains("scalar"));
}

#[test]
fn coordinate_quantities_compile_channels_only() {
    for q in ["sRGB", "Luv", "XYZ"] {
        assert!(color_words(q, triple(60.0, 10.0, -20.0), "Channels").is_ok(), "{q}");
        let e = color_words(q, triple(60.0, 10.0, -20.0), "DeltaE76").unwrap_err();
        assert!(e.contains("take Channels"), "{q}");
    }
}

#[test]
fn index_quantities_compile_channels_only() {
    assert!(color_words("Din99", triple(50.0, 5.0, 5.0), "Channels").is_ok());
    assert!(color_words("White", pair(90.0, 2.0), "Channels").is_ok());
    assert!(color_words("Yellow", single(5.0), "Channels").is_ok());
    for (q, r) in
        [("Din99", triple(50.0, 5.0, 5.0)), ("White", pair(90.0, 2.0)), ("Yellow", single(5.0))]
    {
        assert!(color_words(q, r, "DeltaE76").unwrap_err().contains("Channels"), "{q}");
    }
    // Explicit coefficients ride through.
    let mut t = color_target();
    t.quantity = "Yellow".to_string();
    t.reference = single(5.0);
    t.distance = "Channels".to_string();
    t.yi_cx = Some(s(1.2769));
    t.yi_cz = Some(s(1.0592));
    let r = check_color_demand(&t, &tables()).ok().unwrap();
    assert_eq!((f(r.yi_cx), f(r.yi_cz)), (1.2769, 1.0592));
}

#[test]
fn color_json_shapes_refuse_loud() {
    let words = |r: ReferenceJson| color_words("Lab", r, "DeltaE2000").unwrap_err();
    assert!(words(pair(1.0, 2.0)).contains("pair reference"));
    assert!(words(ReferenceJson::Other("[1.0,2.0,3.0,4.0]".to_string())).contains("[3] triple"));
}

#[test]
fn a_refused_intake_comes_before_the_angles() {
    let mut set = set_of(vec![spec_target()], vec![]);
    set.angular.push(ang_target());
    set.angular[0].angles = sv(&[0.0, f64::NAN]);
    set.spectral[0].weight = s(-1.0);
    assert!(refused(&set).contains("weight"));
}

#[test]
fn references_have_the_shape_of_their_quantity() {
    let words = |q: &str, r: ReferenceJson| color_words(q, r, "Channels").unwrap_err();
    assert!(color_words("DomWl", pair(550.0, 0.9), "Channels").is_ok());
    assert!(words("DomWl", triple(1.0, 2.0, 3.0)).contains("takes a pair, got a triple reference"));
    assert!(words("Lab", pair(1.0, 2.0)).contains("pair reference"));
    assert!(words("White", single(1.0)).contains("scalar reference"));
}

#[test]
fn what_the_colorimetry_refuses_is_passed_on() {
    let set = set_of(vec![], vec![color_target()]);
    let log10 = |x: Scalar| s(f(x).log10());
    let e = compile_merit_spec(&num(), &log10, &set, &tables(), &|_: ColorRequest| {
        Err("the tables do not overlap".to_string())
    })
    .err()
    .unwrap()
    .message(&set, &show, &debug);
    assert!(e.contains("the tables do not overlap"), "{e}");
}

#[test]
fn named_tables_are_looked_up() {
    let mut t = color_target();
    t.illuminant = IllumJson::Name("D65".to_string());
    t.observer = CmfJson::Name("1931_2deg".to_string());
    t.yi_cx = Some(s(1.2769));
    let r = check_color_demand(&t, &tables()).ok().unwrap();
    assert_eq!(fv(&r.illum), vec![2.0, 3.0]);
    assert_eq!(fv(&r.illum_wl), vec![400.0, 700.0]);
    assert_eq!(fv(&r.cmf_wl), vec![400.0, 700.0]);
    assert_eq!(f(r.cmf[1][2]), 0.6);
    assert_eq!(f(r.yi_cx), 1.2769);
    assert_eq!(f(r.yi_cz), 1.1498);
    t.illuminant = IllumJson::Name("F2".to_string());
    assert_eq!(check_color_demand(&t, &tables()).err(), Some(ColorRefusal::Illuminant));
}

#[test]
fn every_demand_reaches_the_colorimetry() {
    let mut other = color_target();
    other.weight = s(2.5);
    other.angle = s(30.0);
    let set = set_of(vec![], vec![color_target(), other]);
    let seen: RefCell<Vec<f64>> = RefCell::new(Vec::new());
    let log10 = |x: Scalar| s(f(x).log10());
    let spec = compile_merit_spec(&num(), &log10, &set, &tables(), &|r: ColorRequest| {
        seen.borrow_mut().push(f(r.weight));
        Ok(seen.borrow().len())
    })
    .ok()
    .unwrap();
    assert_eq!(*seen.borrow(), vec![1.0, 2.5]);
    assert_eq!(spec.key_count(), 2);
    assert_eq!(spec.color_demands()[1].key_idx, 1);
    assert_eq!(spec.color_demands()[1].id, 2);
}

#[test]
fn the_compiled_frame_carries_the_normalised_numbers() {
    let mut t = spec_target();
    t.values = sv(&[0.25, 0.75]);
    t.tolerances = sv(&[0.5, 1.0]);
    t.normalization_mode = "none".to_string();
    t.band = Some(Band::Points(sv(&[0.1, 0.2])));
    t.weight = s(3.0);
    t.normalize_count = true;
    let spec = compile(&set_of(vec![t], vec![])).ok().unwrap();
    let m = &spec.targets()[0];
    assert_eq!(fv(&m.wavelengths), vec![500.0, 600.0]);
    assert_eq!(fv(&m.normalized_targets), vec![0.5, 1.5]);
    assert_eq!(fv(&m.tolerances), vec![0.5, 1.0]);
    assert_eq!(fv(&m.band), vec![0.2, 0.4]);
    assert_eq!(f(m.norm_factor), 2.0);
    assert_eq!(f(m.weight), 3.0);
    assert_eq!(m.count_norm.map(f), Some(2.0));
}

#[test]
fn an_angular_target_gives_one_frame_per_angle() {
    let mut set = set_of(vec![], vec![]);
    set.angular.push(ang_target());
    let spec = compile(&set).ok().unwrap();
    assert_eq!(spec.key_count(), 2);
    assert_eq!(spec.target_count(), 2);
    assert_eq!(f(spec.keys()[1].angle), 30.0);
    assert_eq!(fv(&spec.targets()[1].normalized_targets), vec![1.5]);
    assert_eq!(fv(&spec.targets()[1].wavelengths), vec![550.0]);
}

#[test]
fn a_ragged_target_is_refused() {
    let mut second = spec_target();
    second.values = sv(&[0.5]);
    let e = refused(&set_of(vec![spec_target(), second], vec![]));
    assert_eq!(e, "SpectralTarget shape mismatch");
}

#[test]
fn weights_bands_and_integrals_are_checked() {
    assert!(check_weight(s(1.0)));
    assert!(check_weight(s(0.0)));
    assert!(!check_weight(s(-1.0)));
    assert!(!check_weight(s(f64::NAN)));
    assert!(!check_weight(s(f64::INFINITY)));
    assert!(check_integral(true, false, "x").is_ok());
    assert!(check_integral(true, true, "x").is_err());
    assert_eq!(fv(&resolve_band(&Some(Band::Scalar(s(0.5))), 3).ok().unwrap()), vec![0.5; 3]);
    assert!(resolve_band(&None, 3).ok().unwrap().is_empty());
    assert_eq!(
        resolve_band(&Some(Band::Points(sv(&[1.0]))), 3).err(),
        Some(What::BandShape { got: 1, want: 3 })
    );
    assert_eq!(
        resolve_band(&Some(Band::Scalar(s(-0.5))), 3).err(),
        Some(What::BandNegative)
    );
}
