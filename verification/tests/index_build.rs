use recipes::index::assemble::{assemble_index, load, scan_entry, AisleInput, ScanDecision};
use recipes::index::scan::VersionKey;
use recipes::index::slug::Slug;
use recipes::index::Index;

const ROOT: &str = "/srv/recipes";
const MTIME: u64 = 1_700_000_000;

const CARBONARA_V1: &str = ">> title: Spaghetti Carbonara\n>> servings: 2\n>> changelog: Initial version.\n\n\
Bring a #pot{} of salted water to the boil and add @spaghetti{200%g}.\n\n\
Whisk @eggs{3} with @pecorino{50%g}.\n\n\
Render @guanciale{120%g} in a #pan{} until crisp, about ~{6%minutes}.\n\n\
Combine off the heat and season with @black pepper{}.\n";

const CARBONARA_V1_1: &str = ">> title: Spaghetti Carbonara\n>> servings: 2\n>> changelog: Egg yolks only.\n\n\
Bring a #pot{} of salted water to the boil and add @spaghetti{200%g}.\n\n\
Whisk @egg yolks{4} with @pecorino{50%g}.\n\n\
Render @guanciale{120%g} in a #pan{} until crisp, about ~{6%minutes}.\n\n\
Combine off the heat and season with @black pepper{}.\n";

const CARBONARA_V2: &str = ">> title: Spaghetti Carbonara\n>> servings: 2\n>> changelog: Reduced guanciale by 50g; egg whites no longer used.\n\n\
Bring a #pot{} of salted water to the boil and add @spaghetti{200%g}.\nCook for ~{8%minutes}.\n\n\
Whisk together @egg yolks{4} with @pecorino{60%g}, grated.\n\n\
Render @guanciale{70%g} in a cold #pan{} until crisp, about ~{6%minutes}.\n\n\
Drain the pasta, reserving @pasta water{100%ml}. Combine pasta, fat, and\negg mixture off the heat. Season with @black pepper{}.\n";

const GARLIC_BREAD: &str = ">> title: Garlic Bread\n>> servings: 4\n\n\
Slice @baguette{1} lengthwise.\n\n\
Mix @butter{80%g} with @garlic{3} and @parsley{2%g}.\n\n\
Spread on the bread and bake for ~{10%minutes}.\n";

fn fixtures() -> Vec<(&'static str, &'static str)> {
    vec![
        ("mains/pasta/carbonara-v1.cook", CARBONARA_V1),
        ("mains/pasta/carbonara-v1-1.cook", CARBONARA_V1_1),
        ("mains/pasta/carbonara-v2.cook", CARBONARA_V2),
        ("sides/garlic-bread.cook", GARLIC_BREAD),
    ]
}

/// Index the given files (relative path, contents) as a walk of `ROOT` would.
fn build(files: &[(&str, &str)]) -> Index {
    let mut errors = Vec::new();
    let mut warnings = Vec::new();
    let mut loaded = Vec::new();
    for (rel, body) in files {
        let path = format!("{ROOT}/{rel}");
        match scan_entry(ROOT, &path) {
            ScanDecision::Skip => {}
            ScanDecision::Warning(w) => warnings.push(w),
            ScanDecision::Error(e) => errors.push(e),
            ScanDecision::Load(meta) => loaded.push(load(meta, body.to_string(), Some(MTIME))),
        }
    }
    assemble_index(ROOT.to_string(), errors, warnings, loaded, AisleInput::Missing, Some(MTIME))
}

#[test]
fn discovers_carbonara_versions() {
    let idx = build(&fixtures());
    let i = idx.find_family(&Slug::from_base("carbonara")).unwrap();
    let fam = &idx.families[i];
    assert_eq!(fam.title, "Spaghetti Carbonara");
    assert_eq!(fam.category, "mains/pasta");
    let keys: Vec<VersionKey> = fam.versions.iter().map(|v| v.key).collect();
    assert_eq!(
        keys,
        vec![
            VersionKey { major: 1, minor: 0 },
            VersionKey { major: 1, minor: 1 },
            VersionKey { major: 2, minor: 0 },
        ]
    );
    assert_eq!(fam.current().key, VersionKey { major: 2, minor: 0 });
    assert!(idx.errors.is_empty(), "errors: {:?}", idx.errors);
}

#[test]
fn discovers_unversioned_recipe_as_v1() {
    let idx = build(&fixtures());
    let i = idx.find_family(&Slug::from_base("garlic-bread")).unwrap();
    let fam = &idx.families[i];
    assert_eq!(fam.title, "Garlic Bread");
    assert_eq!(fam.versions.len(), 1);
    assert_eq!(fam.current().key, VersionKey::v1());
}

#[test]
fn versions_are_ordered_whatever_the_walk_order() {
    let mut files = fixtures();
    files.reverse();
    let idx = build(&files);
    let i = idx.find_family(&Slug::from_base("carbonara")).unwrap();
    let keys: Vec<VersionKey> = idx.families[i].versions.iter().map(|v| v.key).collect();
    assert_eq!(
        keys,
        vec![
            VersionKey { major: 1, minor: 0 },
            VersionKey { major: 1, minor: 1 },
            VersionKey { major: 2, minor: 0 },
        ]
    );
}

#[test]
fn counts_families_and_recipes() {
    let idx = build(&fixtures());
    assert_eq!(idx.family_count(), 2);
    assert_eq!(idx.recipe_count(), 4);
    assert_eq!(idx.last_built, Some(MTIME));
    assert!(idx.aisle_source.is_none());
}

#[test]
fn groups_meal_categories_in_display_order() {
    let recipes = [
        ("dinners/stew.cook", ">> title: Stew\n\nCook @beans{}.\n"),
        ("breakfast/oats.cook", ">> title: Oats\n\nCook @oats{}.\n"),
        ("snacks/popcorn.cook", ">> title: Popcorn\n\nPop @corn{}.\n"),
        ("lunch/salad.cook", ">> title: Salad\n\nToss @lettuce{}.\n"),
        ("misc/water.cook", ">> title: Water\n\nPour @water{}.\n"),
    ];
    let idx = build(&recipes);
    let categories: Vec<_> = idx
        .families_by_category()
        .into_iter()
        .map(|(category, _)| category)
        .collect();
    assert_eq!(categories, vec!["breakfast", "lunch", "snacks", "dinners", "misc"]);
}

#[test]
fn families_sorted_by_title() {
    let idx = build(&fixtures());
    let titles: Vec<_> = idx.families_sorted().into_iter().map(|f| f.title.clone()).collect();
    assert_eq!(titles, vec!["Garlic Bread", "Spaghetti Carbonara"]);
}

#[test]
fn slug_collision_does_not_fail_build_but_is_recorded() {
    let idx = build(&[
        ("a/My_Dish-v1.cook", ">> title: A\n\nMix @flour{1%g}.\n"),
        ("b/MY-DISH-v1.cook", ">> title: B\n\nMix @sugar{1%g}.\n"),
    ]);
    assert_eq!(idx.families.len(), 1, "one family wins, the other is an error");
    assert!(
        idx.errors.iter().any(|e| e.message.contains("slug collision")),
        "errors: {:?}",
        idx.errors
    );
}

#[test]
fn ignores_sync_conflict_files_with_warning() {
    let idx = build(&[
        ("foo-v1.cook", ">> title: Foo\n\nMix @flour{1%g}.\n"),
        ("foo-v1 (conflicted copy 2024-04-01).cook", ">> title: Foo\n\nMix @flour{1%g}.\n"),
    ]);
    assert_eq!(idx.recipe_count(), 1);
    assert!(
        idx.warnings.iter().any(|w| w.message.contains("sync-conflict")),
        "warnings: {:?}",
        idx.warnings
    );
}

#[test]
fn parse_error_in_one_file_does_not_break_index() {
    let idx = build(&[
        ("good.cook", ">> title: Good\n\nMix @flour{1%g}.\n"),
        ("bad.cook", ">> title: Bad\n\nMix @flour ~broken.\n"),
    ]);
    assert!(idx.families.iter().any(|f| f.slug.as_str() == "good"));
}

#[test]
fn populates_mtime() {
    let idx = build(&[("foo-v1.cook", ">> title: Foo\n\nMix @flour{1%g}.\n")]);
    let fam = &idx.families[0];
    assert!(fam.current().mtime.is_some());
}

#[test]
fn duplicate_version_drops_the_family() {
    let idx = build(&[
        ("foo.cook", ">> title: A\n\nMix @flour{1%g}.\n"),
        ("foo-v1.cook", ">> title: A\n\nMix @flour{1%g}.\n"),
    ]);
    assert!(idx.families.is_empty());
    assert!(
        idx.errors.iter().any(|e| e.message.contains("duplicate version v1")),
        "errors: {:?}",
        idx.errors
    );
}

#[test]
fn malformed_version_is_an_index_error() {
    let idx = build(&[("foo-v0.cook", ">> title: A\n\nMix @flour{1%g}.\n")]);
    assert!(idx.families.is_empty());
    assert_eq!(idx.errors.len(), 1);
    assert!(idx.errors[0].message.contains("malformed version"), "{:?}", idx.errors);
}

#[test]
fn non_recipe_files_are_skipped() {
    let idx = build(&[("notes.txt", "hello"), ("foo.cook", ">> title: Foo\n\nMix @flour{1%g}.\n")]);
    assert_eq!(idx.recipe_count(), 1);
    assert!(idx.errors.is_empty());
    assert!(idx.warnings.is_empty());
}

#[test]
fn families_sort_by_lowercased_title() {
    let idx = build(&[
        ("b.cook", ">> title: Banana Bread\n\nMash @banana{2}.\n"),
        ("a.cook", ">> title: apple pie\n\nSlice @apple{3}.\n"),
        ("c.cook", ">> title: Ćevapi\n\nGrill @beef{500%g}.\n"),
    ]);
    let titles: Vec<_> = idx.families_sorted().into_iter().map(|f| f.title.clone()).collect();
    assert_eq!(titles, vec!["apple pie", "Banana Bread", "Ćevapi"]);
}
