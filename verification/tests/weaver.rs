use navette::numeric::{Arith, Numeric};
use navette::scalar::Scalar;

fn s(x: f64) -> Scalar {
    Scalar::from_bits(x.to_bits())
}

#[allow(dead_code)]
fn f(x: Scalar) -> f64 {
    f64::from_bits(x.to_bits())
}

#[allow(dead_code)]
fn sv(v: &[f64]) -> Vec<Scalar> {
    v.iter().map(|x| s(*x)).collect()
}

#[allow(dead_code)]
fn fv(v: &[Scalar]) -> Vec<f64> {
    v.iter().map(|x| f(*x)).collect()
}

#[allow(dead_code)]
fn num() -> impl Numeric {
    Arith {
        plus: |a, b| s(f(a) + f(b)),
        minus: |a, b| s(f(a) - f(b)),
        times: |a, b| s(f(a) * f(b)),
        over: |a, b| s(f(a) / f(b)),
        root: |a| s(f(a).sqrt()),
        count: |n: usize| s(n as f64),
    }
}

use navette::spectralweave::collection::OpticalCollection;
use navette::spectralweave::frame::{FrameFault, SpectralData, SpectralDataFrame};
use navette::spectralweave::key::{
    convert_unit, parse_intensity, parse_spectral, spell, unit_to_str, wl_bits_eq, wl_signature,
    OpticalKey, Unit,
};
use navette::spectralweave::plan::{build_distribution_plan, SharedSource, SliceOrIndices};
use navette::spectralweave::targetweaver::{
    prepare_entry, ResolvedNormMode, TargetKind, TargetWeaver, Weighing,
};
use navette::spectralweave::weaver::{
    worth_a_pool, OpticalWeaver, WeaveFault, UNWEAVE_PAR_FRAGMENTS,
};
use std::sync::Arc;

fn show(x: Scalar) -> String {
    format!("{}", f(x))
}

fn key(wl: f64, pol: &str) -> OpticalKey {
    OpticalKey::new(s(wl), "R".to_string(), pol.to_string())
}

fn steps(n: usize) -> Vec<Scalar> {
    (0..n).map(|i| s(i as f64)).collect()
}

fn part(grid: &Vec<Scalar>, lo: usize, hi: usize) -> Vec<Scalar> {
    grid[lo..hi].to_vec()
}

/// A weaver whose frames tile the grid in equal blocks.
fn tiled(n: usize, frames: usize) -> (OpticalWeaver<impl Numeric>, Vec<Scalar>) {
    let grid = steps(n);
    let mut w = OpticalWeaver::new(num(), 16);
    let block = n / frames;
    let seed = key(0.0, "seed");
    for i in 0..frames {
        let sub = part(&grid, i * block, (i + 1) * block);
        w.set_data(&seed, &vec![s(0.0); sub.len()], &sub, Unit::NM, Unit::RAW, i)
            .ok()
            .unwrap();
    }
    (w, grid)
}

fn curve(grid: &[Scalar], scale: f64) -> Vec<Scalar> {
    grid.iter().map(|x| s(f(*x) * scale + 1.0)).collect()
}

#[test]
fn a_short_curve_in_a_batch_is_an_error_not_a_panic() {
    let (mut w, grid) = tiled(64, 4);
    let batch = vec![(key(500.0, "s"), vec![s(0.0); 32])];
    let err = w.unweave_collection(&grid, &batch).err().unwrap().message(&show);
    assert!(err.contains("32 value(s) for a 64-point grid"), "{err}");
    assert!(err.contains("one value per wavelength"), "{err}");
}

#[test]
fn the_length_error_names_the_key_it_came_from() {
    let (mut w, grid) = tiled(64, 4);
    let batch = vec![(key(633.0, "p"), vec![s(0.0); 10])];
    let err = w.unweave_collection(&grid, &batch).err().unwrap().message(&show);
    assert!(err.contains("(633, R, p)"), "{err}");
}

#[test]
fn a_long_curve_is_rejected_too() {
    let (mut w, grid) = tiled(64, 4);
    let long = vec![s(0.0); 65];
    assert!(w.unweave(&key(500.0, "s"), &grid, &long).is_err());
}

#[test]
fn a_grid_that_misses_part_of_a_frame_writes_nothing() {
    let (mut w, grid) = tiled(64, 4);
    let every_other: Vec<Scalar> = grid.iter().step_by(2).copied().collect();
    let data = curve(&every_other, 1.0);
    let batch: Vec<(OpticalKey, Vec<Scalar>)> =
        ["s", "p"].iter().map(|pol| (key(500.0, pol), data.clone())).collect();
    let fault = w.unweave_collection(&every_other, &batch).err().unwrap();
    assert!(matches!(fault, WeaveFault::Coverage { .. }));
    assert!(!w.inner().contains_key(&key(500.0, "s")));
    assert!(!w.inner().contains_key(&key(500.0, "p")));
}

#[test]
fn a_batch_writes_exactly_what_the_per_key_calls_would() {
    let (mut batched, grid) = tiled(600, 6);
    let (mut singly, _) = tiled(600, 6);
    let batch: Vec<(OpticalKey, Vec<Scalar>)> = (0..8)
        .map(|i| (key(400.0 + i as f64, "s"), curve(&grid, i as f64 + 0.5)))
        .collect();
    assert_eq!(batched.unweave_collection(&grid, &batch).ok(), Some(8 * 6));
    for (k, c) in &batch {
        singly.unweave(k, &grid, c).ok().unwrap();
    }
    for (k, c) in &batch {
        let (bw, bd) = batched.get_weaved(k).ok().unwrap();
        let (sw, sd) = singly.get_weaved(k).ok().unwrap();
        assert_eq!(fv(&bd), fv(&sd));
        assert_eq!(fv(&bw), fv(&sw));
        assert_eq!(fv(&bd), fv(c));
    }
}

#[test]
fn the_parallel_path_writes_what_the_serial_path_writes() {
    let n = 1024;
    let (mut par, grid) = tiled(n, 64);
    let (mut ser, _) = tiled(n, 4);
    let batch: Vec<(OpticalKey, Vec<Scalar>)> =
        (0..256).map(|i| (key(i as f64, "s"), curve(&grid, i as f64))).collect();
    assert!(64 * 256 >= UNWEAVE_PAR_FRAGMENTS);
    assert!(4 * 256 < UNWEAVE_PAR_FRAGMENTS);
    assert!(worth_a_pool(64, 256));
    assert!(!worth_a_pool(4, 256));
    assert_eq!(par.unweave_collection(&grid, &batch).ok(), Some(256 * 64));
    assert_eq!(ser.unweave_collection(&grid, &batch).ok(), Some(256 * 4));
    for (k, c) in &batch {
        assert_eq!(fv(&par.get_weaved(k).ok().unwrap().1), fv(c));
        assert_eq!(fv(&ser.get_weaved(k).ok().unwrap().1), fv(c));
    }
}

#[test]
fn every_key_records_its_frames_in_plan_order() {
    let n = 1024;
    let (mut w, grid) = tiled(n, 64);
    let batch: Vec<(OpticalKey, Vec<Scalar>)> =
        (0..256).map(|i| (key(i as f64, "s"), curve(&grid, i as f64))).collect();
    w.unweave_collection(&grid, &batch).ok().unwrap();
    let reference = w.inner().frames_for_key(&batch[0].0).unwrap();
    assert_eq!(reference.len(), 64);
    for (k, _) in &batch[1..] {
        assert_eq!(w.inner().frames_for_key(k).unwrap(), reference);
    }
}

#[test]
fn a_plan_reaching_only_the_tail_of_the_curve_still_gathers_the_tail() {
    let grid = steps(600);
    let mut w = OpticalWeaver::new(num(), 8);
    let seed = key(0.0, "seed");
    for (i, (lo, hi)) in [(300, 450), (450, 600)].into_iter().enumerate() {
        w.set_data(&seed, &vec![s(0.0); hi - lo], &part(&grid, lo, hi), Unit::NM, Unit::RAW, i)
            .ok()
            .unwrap();
    }
    let c = curve(&grid, 3.0);
    let k = key(500.0, "s");
    assert_eq!(w.unweave_collection(&grid, &vec![(k.cloned(), c.clone())]).ok(), Some(2));
    let (wl, data) = w.get_weaved(&k).ok().unwrap();
    assert_eq!(fv(&wl), fv(&grid[300..]));
    assert_eq!(fv(&data), fv(&c[300..]));
}

#[test]
fn shared_span_is_none_when_no_fragment_is_contiguous() {
    let grid = steps(200);
    let strided: Vec<Scalar> = grid.iter().step_by(2).copied().collect();
    let mut w = OpticalWeaver::new(num(), 8);
    w.set_data(
        &key(0.0, "seed"),
        &vec![s(0.0); strided.len()],
        &strided,
        Unit::NM,
        Unit::RAW,
        0,
    )
    .ok()
    .unwrap();
    let c = curve(&grid, 2.0);
    let k = key(500.0, "s");
    assert_eq!(w.unweave(&k, &grid, &c).ok(), Some(1));
    let data = w.get_weaved(&k).ok().unwrap().1;
    assert_eq!(fv(&data), c.iter().step_by(2).map(|x| f(*x)).collect::<Vec<f64>>());
}

#[test]
fn mapping_the_same_frames_twice_adds_nothing() {
    let (mut w, grid) = tiled(64, 4);
    let c = curve(&grid, 1.0);
    let k = key(500.0, "s");
    for _ in 0..3 {
        assert_eq!(w.unweave_collection(&grid, &vec![(k.cloned(), c.clone())]).ok(), Some(4));
    }
    assert_eq!(w.inner().frames_for_key(&k).unwrap().len(), 4);
    assert_eq!(w.inner().len_keys(), 2);
}

#[test]
fn map_frames_to_key_reports_only_what_was_new() {
    let mut c = OpticalCollection::new();
    let grid = steps(64);
    for i in 0..4 {
        c.push_frame(i, &part(&grid, i * 16, (i + 1) * 16)).ok().unwrap();
    }
    let frames = c.frames_snapshot();
    assert_eq!(frames, vec![0, 1, 2, 3]);
    let k = key(500.0, "s");
    assert_eq!(c.map_frames_to_key(&k, &frames), 4);
    assert_eq!(c.map_frames_to_key(&k, &frames), 0);
    assert!(!c.map_frame_to_key(&k, frames[0]));
}

#[test]
fn an_empty_batch_is_a_no_op() {
    let (mut w, grid) = tiled(64, 4);
    assert_eq!(w.unweave_collection(&grid, &Vec::new()).ok(), Some(0));
    assert_eq!(w.inner().len_keys(), 1);
}

#[test]
fn overwriting_a_key_does_not_re_count_it_as_new() {
    let (mut w, grid) = tiled(64, 4);
    let a = curve(&grid, 1.0);
    let b = curve(&grid, 7.0);
    let k = key(500.0, "s");
    for c in [&a, &b] {
        w.unweave_collection(&grid, &vec![(k.cloned(), c.clone())]).ok().unwrap();
    }
    assert_eq!(fv(&w.get_weaved(&k).ok().unwrap().1), fv(&b));
}

#[test]
fn the_signature_is_the_hash_of_the_bytes() {
    let wl = [400.0, 500.5, -0.0, 1e-300];
    let bytes: &[u8] = bytemuck::cast_slice(&wl);
    assert_eq!(wl_signature(&sv(&wl)), xxhash_rust::xxh3::xxh3_128(bytes));
    assert_ne!(wl_signature(&sv(&wl)), wl_signature(&sv(&[400.0, 500.5, 0.0, 1e-300])));
    assert_eq!(spell(&sv(&[1.0])), 1.0f64.to_ne_bytes().to_vec());
    assert!(wl_bits_eq(&sv(&[1.0, 2.0]), &sv(&[1.0, 2.0])));
    assert!(!wl_bits_eq(&sv(&[0.0]), &sv(&[-0.0])));
}

#[test]
fn units_are_named_and_parsed() {
    assert_eq!(unit_to_str(Unit::NM), "NM");
    assert_eq!(unit_to_str(parse_spectral(Some("NM"))), "NM");
    assert_eq!(unit_to_str(parse_intensity(None)), unit_to_str(Unit::RAW));
    let v = sv(&[1.0, 2.0]);
    assert_eq!(fv(&convert_unit(&v, Unit::NM, Unit::NM)), vec![1.0, 2.0]);
}

#[test]
fn a_frame_keeps_one_curve_per_key() {
    let mut fr = SpectralDataFrame::new(3, sv(&[1.0, 2.0])).ok().unwrap();
    assert_eq!(fr.uid(), 3);
    assert!(fr.is_empty());
    let data = |a: f64, b: f64| SpectralData::from_arc(Arc::new(sv(&[a, b])));
    assert!(fr.set_data(&key(1.0, "s"), data(5.0, 6.0), None).ok().unwrap());
    assert!(!fr.set_data(&key(1.0, "s"), data(7.0, 8.0), None).ok().unwrap());
    assert!(fr.set_data(&key(1.0, "p"), data(9.0, 9.5), None).ok().unwrap());
    assert_eq!(fr.len(), 2);
    assert_eq!(fv(&fr.get_data(&key(1.0, "s")).unwrap().to_vec()), vec![7.0, 8.0]);
    assert_eq!(fv(&fr.get_data(&key(1.0, "p")).unwrap().to_vec()), vec![9.0, 9.5]);
    assert!(fr.get_data(&key(2.0, "s")).is_none());
    let mut pols: Vec<String> = fr.keys().into_iter().map(|k| k.polarisation).collect();
    pols.sort();
    assert_eq!(pols, vec!["p", "s"]);
    assert_eq!((f(fr.wl_bounds().0), f(fr.wl_bounds().1)), (1.0, 2.0));
    fr.remove(&key(1.0, "s")).ok().unwrap();
    assert!(fr.get_data(&key(1.0, "s")).is_none());
    assert_eq!(fv(&fr.get_data(&key(1.0, "p")).unwrap().to_vec()), vec![9.0, 9.5]);
    assert!(matches!(fr.remove(&key(1.0, "s")), Err(FrameFault::KeyNotFound)));
}

#[test]
fn frames_refuse_bad_grids_and_lengths() {
    assert!(matches!(SpectralDataFrame::new(0, vec![]), Err(FrameFault::EmptyGrid)));
    assert!(matches!(
        SpectralDataFrame::new(0, sv(&[2.0, 1.0])),
        Err(FrameFault::NotIncreasing)
    ));
    let mut fr = SpectralDataFrame::new(4, sv(&[1.0, 2.0])).ok().unwrap();
    let short = SpectralData::from_arc(Arc::new(sv(&[1.0])));
    let e = fr.set_data(&key(1.0, "s"), short, None).err().unwrap();
    assert!(matches!(e, FrameFault::Length { uid: 4, values: 1, points: 2 }));
    let e = fr
        .set_data(
            &key(1.0, "s"),
            SpectralData::from_arc(Arc::new(sv(&[1.0, 2.0]))),
            Some(&sv(&[1.0, 3.0])),
        )
        .err()
        .unwrap();
    assert!(matches!(e, FrameFault::GridConflict { uid: 4 }));
    assert!(!e.message().is_empty());
}

#[test]
fn a_grid_has_one_frame_and_display_units_are_kept() {
    let mut c = OpticalCollection::new();
    let wl = sv(&[1.0, 2.0, 3.0]);
    let first = c.get_or_create_frame(&wl, 10).ok().unwrap();
    let again = c.get_or_create_frame(&wl, 11).ok().unwrap();
    assert_eq!(first, (0, true));
    assert_eq!(again, (0, false));
    assert_eq!(c.frame_count(), 1);
    assert_eq!(c.frame_at(0).unwrap().uid(), 10);
    assert!(c.frame_at(1).is_none());
    c.set_display_spectral(Unit::NM);
    c.set_display_intensity(Unit::RAW);
    assert_eq!(unit_to_str(c.display_spectral()), "NM");
    c.set_data(&key(5.0, "s"), &sv(&[4.0, 5.0, 6.0]), &wl, Unit::NM, Unit::RAW, 12).ok().unwrap();
    let (curves, grids) = c.get_converted(&key(5.0, "s")).unwrap();
    assert_eq!(fv(&grids[0]), vec![1.0, 2.0, 3.0]);
    assert_eq!(fv(&curves[0]), vec![4.0, 5.0, 6.0]);
    assert_eq!(c.keys().len(), 1);
    assert!(c.get_converted(&key(6.0, "s")).is_none());
}

#[test]
fn a_plan_takes_runs_where_it_can() {
    let full = steps(6);
    let run = sv(&[1.0, 2.0, 3.0]);
    let points = sv(&[0.0, 2.0, 5.0]);
    let apart = sv(&[50.0, 51.0]);
    let plan = build_distribution_plan(&num(), &full, &vec![&run, &points, &apart]);
    assert_eq!(plan.len(), 2);
    assert!(matches!(plan[0], (0, SliceOrIndices::Slice { from: 1, upto: 4 })));
    match &plan[1] {
        (1, SliceOrIndices::Indices { at }) => assert_eq!(*at, vec![0, 2, 5]),
        _ => panic!("single points were expected"),
    }
    let data = curve(&full, 10.0);
    let shared = SharedSource { buf: Arc::new(part(&data, 1, 6)), base: 1 };
    let from_copy = plan[0].1.gather(&data, Some(&shared)).to_vec();
    assert_eq!(fv(&from_copy), vec![11.0, 21.0, 31.0]);
    assert_eq!(fv(&plan[1].1.gather(&data, None).to_vec()), vec![1.0, 21.0, 51.0]);
}

#[test]
fn cached_plans_change_nothing() {
    let (mut w, grid) = tiled(64, 4);
    let c = curve(&grid, 2.0);
    let before = w.generation();
    for _ in 0..2 {
        assert_eq!(w.unweave(&key(1.0, "s"), &grid, &c).ok(), Some(4));
    }
    w.invalidate_cache();
    assert_eq!(w.unweave(&key(1.0, "s"), &grid, &c).ok(), Some(4));
    assert_eq!(fv(&w.get_weaved(&key(1.0, "s")).ok().unwrap().1), fv(&c));
    assert!(w.generation() >= before);
    // A new frame makes the cached plan stale.
    let more = sv(&[0.0, 32.0, 63.0]);
    w.add_frame(99, &more).ok().unwrap();
    assert_eq!(w.unweave(&key(1.0, "s"), &grid, &c).ok(), Some(5));
    assert!(w.get_weaved(&key(77.0, "s")).is_err());
}

#[test]
fn a_cache_of_one_plan_still_distributes() {
    let grid = steps(8);
    let other: Vec<Scalar> = (0..16).map(|i| s(i as f64 / 2.0)).collect();
    let mut w = OpticalWeaver::new(num(), 1);
    w.set_data(&key(0.0, "seed"), &vec![s(0.0); 4], &part(&grid, 0, 4), Unit::NM, Unit::RAW, 0)
        .ok()
        .unwrap();
    for _ in 0..2 {
        assert_eq!(w.unweave(&key(1.0, "a"), &grid, &curve(&grid, 1.0)).ok(), Some(1));
        assert_eq!(w.unweave(&key(1.0, "b"), &other, &curve(&other, 1.0)).ok(), Some(1));
    }
    let a = w.get_weaved(&key(1.0, "a")).ok().unwrap().1;
    let b = w.get_weaved(&key(1.0, "b")).ok().unwrap().1;
    assert_eq!(fv(&a), fv(&b));
}

#[test]
fn woven_groups_share_their_grid() {
    let (mut w, grid) = tiled(16, 2);
    w.unweave_collection(
        &grid,
        &vec![(key(1.0, "a"), curve(&grid, 1.0)), (key(1.0, "b"), curve(&grid, 2.0))],
    )
    .ok()
    .unwrap();
    let groups = w.get_weaved_collections();
    assert_eq!(groups.iter().map(|g| g.curves.len()).sum::<usize>(), 3);
    for g in &groups {
        assert_eq!(fv(&g.wavelength), fv(&grid));
    }
}

fn exact(weight: f64) -> Weighing {
    Weighing { kind: TargetKind::Exact, weight: s(weight), count_norm: None, integral: false }
}

#[test]
fn registered_targets_are_read_back() {
    let log10 = |x: Scalar| s(f(x).log10());
    let mut t = TargetWeaver::new(num(), 8, s(1e-12));
    let wl = sv(&[500.0, 600.0]);
    let i = t.create_dedicated_frame(42, &wl).ok().unwrap();
    t.put_in_frame(i, &key(0.0, "s"), sv(&[0.25, 0.75])).ok().unwrap();
    assert_eq!(t.weaver().inner().frame_count(), 1);
    t.register_metadata(
        &num(),
        &log10,
        42,
        &key(0.0, "s"),
        &sv(&[0.25, 0.75]),
        &sv(&[0.5, 0.0]),
        "linear",
        &vec![],
        exact(2.0),
    );
    let m = t.metadata(42).unwrap();
    assert_eq!(m.len(), 1);
    let e = m.get(&key(0.0, "s")).unwrap();
    assert_eq!(f(e.norm_factor), 2.0);
    assert_eq!(fv(&e.normalized_targets), vec![0.5, 1.5]);
    assert_eq!(fv(&e.tolerances), vec![0.5, 1e-12]);
    assert_eq!(f(e.weight), 2.0);
    assert!(m.get(&key(0.0, "p")).is_none());
    assert!(t.metadata(43).is_none());
}

#[test]
fn phases_keep_their_numbers() {
    let log10 = |x: Scalar| s(f(x).log10());
    let e = prepare_entry(
        &num(),
        &log10,
        s(1e-12),
        &sv(&[1.5, -2.0]),
        &sv(&[0.1, 0.2]),
        &sv(&[0.3, 0.4]),
        (ResolvedNormMode::Phase, s(1.0)),
        exact(1.0),
    );
    assert_eq!(fv(&e.normalized_targets), vec![1.5, -2.0]);
    assert_eq!(fv(&e.tolerances), vec![0.1, 0.2]);
    assert_eq!(fv(&e.band), vec![0.3, 0.4]);
    assert_eq!(e.resolved_mode.as_str(), "phase");
}

#[test]
fn wide_ranges_are_taken_on_a_log_scale() {
    let log10 = |x: Scalar| s(f(x).log10());
    fn of<A: Numeric>(_: &A, log10: &impl Fn(Scalar) -> Scalar, n: &A, v: &[f64]) -> String {
        TargetWeaver::<A>::resolve_norm(n, log10, &sv(v), "auto").0.as_str().to_string()
    }
    let n = num();
    assert_eq!(of(&n, &log10, &n, &[0.5, 0.6]), "linear");
    assert_eq!(of(&n, &log10, &n, &[1e-4, 0.5]), "log");
    assert_eq!(TargetKind::from_str("e").map(|k| k.as_str().to_string()), Some("e".to_string()));
    assert!(TargetKind::from_str("nope").is_none());
}

#[test]
fn a_bumped_generation_is_a_new_one() {
    let (mut w, grid) = tiled(16, 2);
    let before = w.generation();
    w.bump_generation();
    assert_eq!(w.generation(), before + 1);
    let c = curve(&grid, 2.0);
    assert_eq!(w.unweave(&key(1.0, "s"), &grid, &c).ok(), Some(2));
    assert_eq!(w.generation(), before + 2);
}

#[test]
fn a_new_frame_or_key_mapping_is_a_structural_change() {
    let grid = steps(4);
    let mut w = OpticalWeaver::new(num(), 16);
    assert_eq!(w.generation(), 0);
    let c = curve(&grid, 1.0);
    for k in ["s", "p"] {
        w.set_data(&key(1.0, k), &c, &grid, Unit::NM, Unit::RAW, 0).ok().unwrap();
    }
    assert_eq!(w.generation(), 2);
    assert_eq!((w.inner().frame_count(), w.inner().len_keys()), (1, 2));
    // Overwriting changes no structure; distributing under a new key does, once.
    w.set_data(&key(1.0, "s"), &c, &grid, Unit::NM, Unit::RAW, 0).ok().unwrap();
    assert_eq!(w.generation(), 2);
    for _ in 0..2 {
        assert_eq!(w.unweave(&key(2.0, "s"), &grid, &c).ok(), Some(1));
        assert_eq!(w.generation(), 3);
    }
    let batch = vec![(key(3.0, "s"), c.clone()), (key(1.0, "p"), c.clone()), (key(4.0, "s"), c)];
    assert_eq!(w.unweave_collection(&grid, &batch).ok(), Some(3));
    assert_eq!(w.generation(), 5);
}

#[test]
fn tiles_in_any_order_give_the_curve_back() {
    let grid = steps(12);
    let mut w = OpticalWeaver::new(num(), 16);
    for (i, lo) in [8, 0, 4].into_iter().enumerate() {
        w.add_frame(i, &part(&grid, lo, lo + 4)).ok().unwrap();
    }
    // A new key, then the same key again.
    for scale in [2.0, 5.0] {
        let c = curve(&grid, scale);
        assert_eq!(w.unweave(&key(1.0, "s"), &grid, &c).ok(), Some(3));
        let (wl, data) = w.get_weaved(&key(1.0, "s")).ok().unwrap();
        assert_eq!((fv(&wl), fv(&data)), (fv(&grid), fv(&c)));
    }
    // The last curve of a key in a batch is the one that is read.
    let (a, b) = (curve(&grid, 7.0), curve(&grid, 9.0));
    let batch = vec![(key(1.0, "s"), a.clone()), (key(2.0, "s"), a.clone()), (key(1.0, "s"), b.clone())];
    assert_eq!(w.unweave_collection(&grid, &batch).ok(), Some(9));
    assert_eq!(fv(&w.get_weaved(&key(1.0, "s")).ok().unwrap().1), fv(&b));
    assert_eq!(fv(&w.get_weaved(&key(2.0, "s")).ok().unwrap().1), fv(&a));
    // Frames that tile a part of a longer grid give that part back.
    let long = steps(16);
    let c = curve(&long, 3.0);
    assert_eq!(w.unweave(&key(5.0, "s"), &long, &c).ok(), Some(3));
    assert_eq!(fv(&w.get_weaved(&key(5.0, "s")).ok().unwrap().1), fv(&c[..12]));
}

#[test]
fn a_frame_apart_from_the_grid_is_left_out() {
    let long = steps(16);
    let grid = part(&long, 0, 8);
    let mut w = OpticalWeaver::new(num(), 16);
    for (i, lo) in [12, 4, 0].into_iter().enumerate() {
        w.add_frame(i, &part(&long, lo, lo + 4)).ok().unwrap();
    }
    let c = curve(&grid, 2.0);
    assert_eq!(w.unweave(&key(1.0, "s"), &grid, &c).ok(), Some(2));
    let (wl, data) = w.get_weaved(&key(1.0, "s")).ok().unwrap();
    assert_eq!((fv(&wl), fv(&data)), (fv(&grid), fv(&c)));
}

#[test]
fn a_grid_out_of_order_that_is_refused_writes_nothing() {
    let mut w = OpticalWeaver::new(num(), 16);
    w.add_frame(0, &sv(&[1.0, 2.0, 3.0])).ok().unwrap();
    assert!(w.unweave(&key(1.0, "s"), &sv(&[3.0, 1.0, 2.0]), &sv(&[7.0, 8.0, 9.0])).is_err());
    let batch = vec![(key(1.0, "s"), sv(&[7.0, 8.0, 9.0]))];
    assert!(w.unweave_collection(&sv(&[3.0, 1.0, 2.0]), &batch).is_err());
    assert!(w.get_weaved(&key(1.0, "s")).is_err());
    assert!(w.inner().keys().is_empty());
}
