use navette::numeric::{Arith, Numeric};
use navette::scalar::Scalar;

fn s(x: f64) -> Scalar {
    Scalar::from_bits(x.to_bits())
}

#[allow(dead_code)]
fn f(x: Scalar) -> f64 {
    f64::from_bits(x.to_bits())
}

#[allow(dead_code)]
fn sv(v: &[f64]) -> Vec<Scalar> {
    v.iter().map(|x| s(*x)).collect()
}

#[allow(dead_code)]
fn fv(v: &[Scalar]) -> Vec<f64> {
    v.iter().map(|x| f(*x)).collect()
}

#[allow(dead_code)]
fn num() -> impl Numeric {
    Arith {
        plus: |a, b| s(f(a) + f(b)),
        minus: |a, b| s(f(a) - f(b)),
        times: |a, b| s(f(a) * f(b)),
        over: |a, b| s(f(a) / f(b)),
        root: |a| s(f(a).sqrt()),
        count: |n: usize| s(n as f64),
    }
}

use navette::jacobian::{assemble_jacobian, deposit_channel, deposit_channels, CurveDeposits};
use navette::merit::sensitivity::{CurveTerm, MeritSensitivity};
use navette::merit::CurveId;

fn term(curve: CurveId, angle_row: usize, wavelength: usize, d: f64) -> CurveTerm {
    CurveTerm { curve, angle_row, wavelength, d_residual: s(d) }
}

/// Two grid points, two parameters: Rs, Rp, Ts, Tp after one another.
fn deposits() -> CurveDeposits {
    CurveDeposits::from_point_rows(
        vec![
            sv(&[1.0, 2.0, 3.0, 4.0, 5.0, 6.0, 7.0, 8.0]),
            sv(&[10.0, 20.0, 30.0, 40.0, 50.0, 60.0, 70.0, 80.0]),
        ],
        2,
    )
    .ok()
    .unwrap()
}

fn assembled(rows: Vec<Vec<CurveTerm>>, uncovered: Vec<usize>) -> Result<Vec<f64>, String> {
    let mut jac = sv(&[9.0]);
    let sens = MeritSensitivity { rows, uncovered };
    match assemble_jacobian(&num(), &sens, &deposits(), 2, &mut jac) {
        Ok(()) => Ok(fv(&jac)),
        Err(e) => Err(e.message()),
    }
}

#[test]
fn a_row_sums_its_terms_over_the_deposits() {
    let rows = vec![
        vec![term(CurveId::Rs, 0, 0, 2.0), term(CurveId::Tp, 0, 1, -1.0)],
        vec![],
        vec![term(CurveId::Rp, 0, 1, 0.5)],
    ];
    assert_eq!(
        assembled(rows, vec![]),
        Ok(vec![2.0 - 70.0, 4.0 - 80.0, 0.0, 0.0, 15.0, 20.0])
    );
}

#[test]
fn an_uncovered_row_is_refused_and_nothing_is_written() {
    let mut jac = sv(&[9.0]);
    let sens = MeritSensitivity { rows: vec![vec![], vec![]], uncovered: vec![1] };
    let e = assemble_jacobian(&num(), &sens, &deposits(), 2, &mut jac).err().unwrap();
    assert!(e.message().starts_with("analytic jacobian: residual row 1 has no curve sensitivity"));
    assert_eq!(fv(&jac), vec![9.0]);
}

#[test]
fn a_curve_without_deposits_is_refused() {
    assert_eq!(
        assembled(vec![vec![term(CurveId::RBs, 0, 0, 1.0)]], vec![]),
        Err("analytic jacobian: no deposits for curve RBs (row 0)".to_string())
    );
}

#[test]
fn a_grid_point_past_the_deposits_is_refused() {
    assert_eq!(
        assembled(vec![vec![], vec![term(CurveId::Ts, 1, 0, 1.0)]], vec![]),
        Err(
            "analytic jacobian: row 1 reads grid point 2, but the deposits cover 2 points"
                .to_string()
        )
    );
}

#[test]
fn deposits_want_four_values_per_parameter() {
    let d = deposits();
    assert_eq!((d.n_points(), d.n_par()), (2, 2));
    assert_eq!(f(d.get(2, 1, 0)), 50.0);
    let e = CurveDeposits::from_point_rows(vec![sv(&[1.0; 8]), sv(&[1.0; 7])], 2).err().unwrap();
    assert_eq!(
        e.message(),
        "curve deposits: every point row must hold 4\u{b7}n_par = 8 entries"
    );
}

#[test]
fn each_front_curve_has_its_slot() {
    for (c, id) in deposit_channels().iter().enumerate() {
        assert_eq!(deposit_channel(*id), Some(c));
    }
    assert_eq!(deposit_channel(CurveId::Ru), None);
    assert_eq!(deposit_channel(CurveId::As), None);
}
