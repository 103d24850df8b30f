use recipes::recipe::units::{canonicalize, format_display, format_number, parse_decimal, Canonical, Dimension, UnitError};

const M: u128 = 1_000_000;

fn c(value: u128, unit: Option<&str>) -> Canonical {
    canonicalize(value, unit).unwrap()
}

#[test]
fn mass_to_grams() {
    assert_eq!(c(2 * M, Some("kg")).amount, 2000 * M);
    assert_eq!(c(500 * M, Some("g")).amount, 500 * M);
    assert_eq!(c(M, Some("Grams")).amount, M); // case-insensitive
}

#[test]
fn volume_to_ml() {
    assert_eq!(c(M, Some("l")).amount, 1000 * M);
    assert_eq!(c(2 * M, Some("dl")).amount, 200 * M);
    assert_eq!(c(5 * M, Some("cl")).amount, 50 * M);
    assert_eq!(c(750 * M, Some("ml")).amount, 750 * M);
}

#[test]
fn count_with_or_without_unit() {
    assert_eq!(c(2 * M, None).dimension, Dimension::Count);
    assert_eq!(c(3 * M, Some("pcs")).dimension, Dimension::Count);
}

#[test]
fn unknown_unit_is_err() {
    assert!(matches!(canonicalize(M, Some("oz")), Err(UnitError::UnknownUnit(_))));
    assert!(matches!(canonicalize(M, Some("tsp")), Err(UnitError::UnknownUnit(_))));
    assert_eq!(
        canonicalize(M, Some("tsp")).unwrap_err().message(),
        "unknown unit `tsp`; expected metric (g, ml, l, kg, dl, cl, pc, …) or none"
    );
}

#[test]
fn units_are_trimmed() {
    assert_eq!(c(M, Some(" KG ")).amount, 1000 * M);
}

#[test]
fn display_mass_promotes_to_kg() {
    assert_eq!(format_display(Canonical { amount: 1500 * M, dimension: Dimension::Mass }), "1.50 kg");
    assert_eq!(format_display(Canonical { amount: 250 * M, dimension: Dimension::Mass }), "250 g");
}

#[test]
fn display_volume_promotes_to_l() {
    assert_eq!(format_display(Canonical { amount: 1250 * M, dimension: Dimension::Volume }), "1.25 l");
    assert_eq!(format_display(Canonical { amount: 200 * M, dimension: Dimension::Volume }), "200 ml");
}

#[test]
fn display_count_integer_or_decimal() {
    assert_eq!(format_display(Canonical { amount: 3 * M, dimension: Dimension::Count }), "3");
    assert_eq!(format_display(Canonical { amount: 1_500_000, dimension: Dimension::Count }), "1.5");
}

#[test]
fn display_fractional_grams() {
    assert_eq!(format_display(Canonical { amount: 2_500_000, dimension: Dimension::Mass }), "2.5 g");
    assert_eq!(format_display(Canonical { amount: 2_040_000, dimension: Dimension::Mass }), "2 g");
    assert_eq!(format_display(Canonical { amount: 33_333_333, dimension: Dimension::Mass }), "33.3 g");
}

#[test]
fn decimals_parse_to_millionths() {
    assert_eq!(parse_decimal("200"), Some(200 * M));
    assert_eq!(parse_decimal("1.5"), Some(1_500_000));
    assert_eq!(parse_decimal("0.3333333333333333"), Some(333_333));
    assert_eq!(parse_decimal("0.00000050"), Some(1));
    assert_eq!(parse_decimal("NaN"), None);
    assert_eq!(parse_decimal("inf"), None);
    assert_eq!(parse_decimal(""), None);
    assert_eq!(parse_decimal("1."), None);
    assert_eq!(parse_decimal(".5"), None);
}

#[test]
fn numbers_drop_trailing_zeros() {
    assert_eq!(format_number(2 * M), "2");
    assert_eq!(format_number(2_500_000), "2.5");
    assert_eq!(format_number(2_125_000), "2.12");
    assert_eq!(format_number(2_135_000), "2.14");
    assert_eq!(format_number(1_999_000), "2");
}

#[test]
fn display_rounds_exact_ties_to_even() {
    assert_eq!(format_display(Canonical { amount: 2_250_000, dimension: Dimension::Count }), "2.2");
    assert_eq!(format_display(Canonical { amount: 2_350_000, dimension: Dimension::Count }), "2.4");
    assert_eq!(format_display(Canonical { amount: 1125 * M, dimension: Dimension::Mass }), "1.12 kg");
    assert_eq!(format_display(Canonical { amount: 1135 * M, dimension: Dimension::Mass }), "1.14 kg");
    assert_eq!(format_display(Canonical { amount: 2_250_000, dimension: Dimension::Mass }), "2.2 g");
    assert_eq!(format_display(Canonical { amount: 2_250_001, dimension: Dimension::Volume }), "2.3 ml");
}
