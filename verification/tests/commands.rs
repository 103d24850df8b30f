use recipes::commands::list::list_report;
use recipes::commands::shopping::{parse_multipliers, parse_servings_overrides, shopping_report};
use recipes::commands::versions::versions_report;
use recipes::index::assemble::{assemble_index, load, scan_entry, AisleInput, ScanDecision};
use recipes::index::Index;

const ROOT: &str = "/srv/recipes";

const CARBONARA_V1: &str = ">> title: Spaghetti Carbonara\n>> servings: 2\n>> changelog: Initial version.\n\n\
Bring a #pot{} of salted water to the boil and add @spaghetti{200%g}.\n\n\
Whisk @eggs{3} with @pecorino{50%g}.\n";

const CARBONARA_V2: &str = ">> title: Spaghetti Carbonara\n>> servings: 2\n>> changelog: Reduced guanciale by 50g.\n\n\
Bring a #pot{} of salted water to the boil and add @spaghetti{200%g}.\n\n\
Whisk together @egg yolks{4} with @pecorino{60%g}, grated.\n";

const GARLIC_BREAD: &str = ">> title: Garlic Bread\n>> servings: 4\n\n\
Slice @baguette{1} lengthwise.\n\n\
Mix @butter{80%g} with @garlic{3} and @parsley{2%g}.\n";

fn build(files: &[(&str, &str)]) -> Index {
    let mut errors = Vec::new();
    let mut warnings = Vec::new();
    let mut loaded = Vec::new();
    for (rel, body) in files {
        let path = format!("{ROOT}/{rel}");
        match scan_entry(ROOT, &path) {
            ScanDecision::Skip => {}
            ScanDecision::Warning(w) => warnings.push(w),
            ScanDecision::Error(e) => errors.push(e),
            ScanDecision::Load(meta) => loaded.push(load(meta, body.to_string(), None)),
        }
    }
    assemble_index(ROOT.to_string(), errors, warnings, loaded, AisleInput::Missing, Some(0))
}

fn fixtures() -> Index {
    build(&[
        ("mains/pasta/carbonara-v1.cook", CARBONARA_V1),
        ("mains/pasta/carbonara-v2.cook", CARBONARA_V2),
        ("sides/garlic-bread.cook", GARLIC_BREAD),
    ])
}

#[test]
fn list_prints_one_padded_line_per_family_by_slug() {
    let (out, err) = list_report(&fixtures());
    let expected = format!(
        "{:<32} {:<8} {}\n{:<32} {:<8} {}\n",
        "carbonara", "v2", "Spaghetti Carbonara", "garlic-bread", "v1", "Garlic Bread"
    );
    assert_eq!(out, expected);
    assert_eq!(err, "");
}

#[test]
fn list_reports_index_errors_on_stderr() {
    let idx = build(&[("foo-v0.cook", ">> title: A\n\nMix @flour{1%g}.\n")]);
    let (out, err) = list_report(&idx);
    assert_eq!(out, "");
    assert!(err.starts_with("\n1 errors:\n  /srv/recipes/foo-v0.cook: "), "{err}");
}

#[test]
fn versions_prints_the_version_table() {
    let out = versions_report(&fixtures(), ROOT, "carbonara").unwrap();
    let expected = format!(
        "Spaghetti Carbonara  (carbonara)\n\n{:<8}  {:<25}  changelog\n{:<8}  {:<25}  {}\n{:<8}  {:<25}  {}\n",
        "version",
        "file",
        "v1",
        "mains/pasta/carbonara-v1.cook",
        "Initial version.",
        "v2",
        "mains/pasta/carbonara-v2.cook",
        "Reduced guanciale by 50g."
    );
    assert_eq!(out, expected);
}

#[test]
fn versions_of_unknown_family_is_an_error() {
    let e = versions_report(&fixtures(), ROOT, "No Such").unwrap_err();
    assert_eq!(e, "no recipe family with slug `no-such`");
}

#[test]
fn servings_overrides_parse() {
    let v = parse_servings_overrides(Some(" carbonara = 4 , ,garlic-bread=2,carbonara=3")).unwrap();
    assert_eq!(v, vec![("carbonara".to_string(), 3), ("garlic-bread".to_string(), 2)]);
    assert!(parse_servings_overrides(None).unwrap().is_empty());
}

#[test]
fn servings_overrides_errors() {
    assert_eq!(
        parse_servings_overrides(Some("carbonara")).unwrap_err(),
        "--servings expects slug=N pairs, got `carbonara`"
    );
    assert_eq!(
        parse_servings_overrides(Some("carbonara=lots")).unwrap_err(),
        "invalid servings count in `carbonara=lots`"
    );
    assert_eq!(
        parse_servings_overrides(Some("carbonara=0")).unwrap_err(),
        "servings must be > 0 in `carbonara=0`"
    );
}

#[test]
fn shopping_command_prints_list_and_warnings() {
    let idx = fixtures();
    let recipes = vec!["carbonara".to_string(), "nope".to_string()];
    let (out, err) = shopping_report(&idx, &recipes, "text", Some("https://recipes.example.com"), Some("carbonara=4"), None).unwrap();
    assert!(out.contains("400 g spaghetti"), "{out}");
    assert!(out.contains("https://recipes.example.com/r/carbonara"), "{out}");
    assert!(err.starts_with("warn: nope: "), "{err}");
}

#[test]
fn shopping_command_rejects_unknown_format() {
    let idx = fixtures();
    let recipes = vec!["carbonara".to_string()];
    let e = shopping_report(&idx, &recipes, "pdf", None, None, None).unwrap_err();
    assert_eq!(e, "unknown format `pdf`");
}

#[test]
fn shopping_command_multiplies_batches() {
    let idx = fixtures();
    let recipes = vec!["carbonara".to_string()];
    let (out, _) = shopping_report(&idx, &recipes, "text", None, None, Some("carbonara=3")).unwrap();
    assert!(out.contains("600 g spaghetti"), "{out}");
    // an absolute servings count wins over the multiplier
    let (out, _) = shopping_report(&idx, &recipes, "text", None, Some("carbonara=4"), Some("carbonara=3")).unwrap();
    assert!(out.contains("400 g spaghetti"), "{out}");
}

#[test]
fn multipliers_parse_and_fail_like_servings() {
    assert_eq!(parse_multipliers(Some("oats=3")).unwrap(), vec![("oats".to_string(), 3)]);
    assert_eq!(parse_multipliers(Some("oats")).unwrap_err(), "--multiplier expects slug=N pairs, got `oats`");
    assert_eq!(parse_multipliers(Some("oats=x")).unwrap_err(), "invalid multiplier in `oats=x`");
    assert_eq!(parse_multipliers(Some("oats=0")).unwrap_err(), "multiplier must be > 0 in `oats=0`");
}
