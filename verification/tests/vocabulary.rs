use navette::merit::{ConstraintKind, CurveId, SimTransform};
use navette::targets::curve_id;

#[test]
fn constraint_kind_from_str() {
    assert_eq!(ConstraintKind::from_str("e"), Some(ConstraintKind::Exact));
    assert_eq!(ConstraintKind::from_str("a"), Some(ConstraintKind::Above));
    assert_eq!(ConstraintKind::from_str("b"), Some(ConstraintKind::Below));
    assert_eq!(ConstraintKind::from_str("r"), Some(ConstraintKind::Range));
    assert_eq!(ConstraintKind::from_str("c"), Some(ConstraintKind::CenterBand));
    assert_eq!(ConstraintKind::from_str("x"), None);
}

#[test]
fn curve_vocabulary_matches() {
    assert_eq!(curve_id("R", "s").unwrap(), "Rs");
    assert_eq!(curve_id("PDts", "s").unwrap(), "Ts");
    assert!(curve_id("PDts", "p").is_err());
    assert!(curve_id("Nope", "s").is_err());
}

#[test]
fn label_refusals_quote_the_labels() {
    assert_eq!(
        curve_id("No\"pe", "s").unwrap_err(),
        "Cannot convert spectral=\"No\\\"pe\", polarization=\"s\"."
    );
    assert_eq!(
        curve_id("PDts", "p").unwrap_err(),
        "Cannot convert spectral=\"PDts\", polarization=\"p\": \"PDts\" is s-polarized (label encodes polarization)."
    );
}

#[test]
fn every_curve_code_round_trips() {
    for c in CurveId::all() {
        assert_eq!(CurveId::from_str(c.as_str()), Some(c));
    }
    assert_eq!(CurveId::from_str("Xs"), None);
}

#[test]
fn transforms_are_read_by_name() {
    assert_eq!(SimTransform::from_str("linear"), Some(SimTransform::Linear));
    assert_eq!(SimTransform::from_str("log"), Some(SimTransform::Log));
    assert_eq!(SimTransform::from_str("phase"), Some(SimTransform::Phase));
    assert_eq!(SimTransform::from_str("complex"), Some(SimTransform::Complex));
    assert_eq!(SimTransform::from_str("Linear"), None);
}
