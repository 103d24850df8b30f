use recipes::recipe::parse::{is_noise_warning, parse_str, ParseError};
use recipes::recipe::{declared_servings, recipe_changelog, recipe_title, QtyValue};

#[test]
fn parses_metadata_and_ingredients() {
    let out = parse_str(">> title: Garlic Bread\n>> servings: 2\n>> changelog:  Less butter. \n\nMix @butter{40%g} with @garlic{3}(minced).\n").unwrap();
    let r = &out.recipe;
    assert_eq!(recipe_title(r).as_deref(), Some("Garlic Bread"));
    assert_eq!(declared_servings(r), 2);
    assert_eq!(recipe_changelog(r).as_deref(), Some("Less butter."));
    assert_eq!(r.ingredients.len(), 2);
    assert_eq!(r.ingredients[0].name, "butter");
    let q = r.ingredients[0].quantity.as_ref().unwrap();
    assert!(matches!(&q.value, QtyValue::Number(n) if n == "40"));
    assert_eq!(q.unit.as_deref(), Some("g"));
    assert_eq!(r.ingredients[1].note.as_deref(), Some("minced"));
    assert!(out.warnings.iter().all(|w| !is_noise_warning(w)));
}

#[test]
fn servings_default_to_one() {
    let out = parse_str("Mix @a{}.\n").unwrap();
    assert_eq!(declared_servings(&out.recipe), 1);
    assert_eq!(recipe_title(&out.recipe), None);
    assert_eq!(recipe_changelog(&out.recipe), None);
}

#[test]
fn parse_error_is_reported() {
    let r = parse_str(">> title: Bad\n\nMix @flour{1/0%g}.\n");
    match r {
        Err(ParseError::Cooklang(m)) => assert!(!m.is_empty()),
        other => panic!("expected an error, got {other:?}"),
    }
}

#[test]
fn noise_warnings() {
    assert!(is_noise_warning("  '>>' syntax for metadata is deprecated, use ..."));
    assert!(is_noise_warning("Unsupported value for key: servings"));
    assert!(!is_noise_warning("something else"));
}
