use recipes::index::assemble::{assemble_index, load, scan_entry, AisleInput, ScanDecision};
use recipes::index::scan::VersionKey;
use recipes::index::Index;
use recipes::shopping::render::{render, render_with, Format, RenderOpts};
use recipes::shopping::{aggregate, Selection};

const ROOT: &str = "/srv/recipes";

const CARBONARA_V1: &str = ">> title: Spaghetti Carbonara\n>> servings: 2\n>> changelog: Initial version.\n\n\
Bring a #pot{} of salted water to the boil and add @spaghetti{200%g}.\n\n\
Whisk @eggs{3} with @pecorino{50%g}.\n\n\
Render @guanciale{120%g} in a #pan{} until crisp, about ~{6%minutes}.\n\n\
Combine off the heat and season with @black pepper{}.\n";

const CARBONARA_V1_1: &str = ">> title: Spaghetti Carbonara\n>> servings: 2\n>> changelog: Egg yolks only.\n\n\
Bring a #pot{} of salted water to the boil and add @spaghetti{200%g}.\n\n\
Whisk @egg yolks{4} with @pecorino{50%g}.\n\n\
Render @guanciale{120%g} in a #pan{} until crisp, about ~{6%minutes}.\n\n\
Combine off the heat and season with @black pepper{}.\n";

const CARBONARA_V2: &str = ">> title: Spaghetti Carbonara\n>> servings: 2\n>> changelog: Reduced guanciale by 50g; egg whites no longer used.\n\n\
Bring a #pot{} of salted water to the boil and add @spaghetti{200%g}.\nCook for ~{8%minutes}.\n\n\
Whisk together @egg yolks{4} with @pecorino{60%g}, grated.\n\n\
Render @guanciale{70%g} in a cold #pan{} until crisp, about ~{6%minutes}.\n\n\
Drain the pasta, reserving @pasta water{100%ml}. Combine pasta, fat, and\negg mixture off the heat. Season with @black pepper{}.\n";

const GARLIC_BREAD: &str = ">> title: Garlic Bread\n>> servings: 4\n\n\
Slice @baguette{1} lengthwise.\n\n\
Mix @butter{80%g} with @garlic{3} and @parsley{2%g}.\n\n\
Spread on the bread and bake for ~{10%minutes}.\n";

const MILLION: u128 = 1_000_000;

fn fixture_files() -> Vec<(&'static str, &'static str)> {
    vec![
        ("mains/pasta/carbonara-v1.cook", CARBONARA_V1),
        ("mains/pasta/carbonara-v1-1.cook", CARBONARA_V1_1),
        ("mains/pasta/carbonara-v2.cook", CARBONARA_V2),
        ("sides/garlic-bread.cook", GARLIC_BREAD),
    ]
}

/// Index the given files (relative path, contents) and `aisle.conf`, as a
/// walk of `ROOT` would.
fn build(files: &[(&str, &str)], aisle: Option<&str>) -> Index {
    let mut errors = Vec::new();
    let mut warnings = Vec::new();
    let mut loaded = Vec::new();
    for (rel, body) in files {
        let path = format!("{ROOT}/{rel}");
        match scan_entry(ROOT, &path) {
            ScanDecision::Skip => {}
            ScanDecision::Warning(w) => warnings.push(w),
            ScanDecision::Error(e) => errors.push(e),
            ScanDecision::Load(meta) => loaded.push(load(meta, body.to_string(), None)),
        }
    }
    let aisle = match aisle {
        Some(t) => AisleInput::Text(t.to_string()),
        None => AisleInput::Missing,
    };
    assemble_index(ROOT.to_string(), errors, warnings, loaded, aisle, Some(0))
}

fn fixtures() -> Index {
    build(&fixture_files(), None)
}

fn sel(slug: &str, version: Option<VersionKey>, servings: Option<u32>) -> Selection {
    Selection {
        slug: slug.into(),
        version,
        override_servings: servings,
        ..Default::default()
    }
}

#[test]
fn aggregates_two_recipes() {
    let idx = fixtures();
    let list = aggregate(&idx, &[sel("carbonara", None, None), sel("garlic-bread", None, None)]);
    assert!(list.errors.is_empty(), "errors: {:?}", list.errors);
    let names: Vec<_> = list.items.iter().map(|i| i.display_name.clone()).collect();
    assert!(names.iter().any(|n| n == "spaghetti"));
    assert!(names.iter().any(|n| n == "baguette"));
    assert!(names.iter().any(|n| n == "butter"));
}

#[test]
fn aggregates_two_versions_of_same_recipe() {
    let idx = fixtures();
    let list = aggregate(
        &idx,
        &[
            sel("carbonara", VersionKey::parse("v1"), None),
            sel("carbonara", VersionKey::parse("v2"), None),
        ],
    );
    let pecorino = list
        .items
        .iter()
        .find(|i| i.display_name == "pecorino")
        .expect("pecorino present");
    let canonical = pecorino.canonical.expect("canonical");
    // 50 g + 60 g, in millionths of a gram.
    assert_eq!(canonical.amount, 110 * MILLION, "expected 50+60=110g");
    assert_eq!(pecorino.display, "110 g");
    assert_eq!(pecorino.sources.len(), 2);
}

#[test]
fn multiplier_scales_by_batch() {
    let idx = fixtures();
    let mut s = sel("carbonara", None, None);
    s.multiplier = Some(3);
    let list = aggregate(&idx, &[s]);
    let spaghetti = list.items.iter().find(|i| i.display_name == "spaghetti").unwrap();
    let c = spaghetti.canonical.unwrap();
    // recipe: 200g spaghetti × 3 batches = 600g
    assert_eq!(c.amount, 600 * MILLION);
}

#[test]
fn override_servings_wins_over_multiplier() {
    let idx = fixtures();
    let mut s = sel("carbonara", None, None);
    s.multiplier = Some(3);
    s.override_servings = Some(4);
    let list = aggregate(&idx, &[s]);
    let spaghetti = list.items.iter().find(|i| i.display_name == "spaghetti").unwrap();
    let c = spaghetti.canonical.unwrap();
    // override_servings=4 → 200g × (4/2) = 400g; multiplier ignored
    assert_eq!(c.amount, 400 * MILLION);
}

#[test]
fn servings_override_scales() {
    let idx = fixtures();
    let list = aggregate(&idx, &[sel("carbonara", None, Some(4))]);
    let spaghetti = list.items.iter().find(|i| i.display_name == "spaghetti").unwrap();
    let c = spaghetti.canonical.unwrap();
    // recipe declares 2 servings, 200g spaghetti → at 4 servings, 400g.
    assert_eq!(c.amount, 400 * MILLION);
}

#[test]
fn odd_servings_round_to_the_nearest_millionth() {
    let idx = fixtures();
    // 200 g for 2 → for 3 servings: 300 g; 100 ml for 2 → for 3: 150 ml.
    let list = aggregate(&idx, &[sel("carbonara", None, Some(3))]);
    let spaghetti = list.items.iter().find(|i| i.display_name == "spaghetti").unwrap();
    assert_eq!(spaghetti.canonical.unwrap().amount, 300 * MILLION);
    let water = list.items.iter().find(|i| i.display_name == "pasta water").unwrap();
    assert_eq!(water.canonical.unwrap().amount, 150 * MILLION);
    assert_eq!(water.display, "150 ml");
}

#[test]
fn unknown_slug_becomes_resolution_error() {
    let idx = fixtures();
    let list = aggregate(&idx, &[sel("no-such-slug", None, None)]);
    assert_eq!(list.items.len(), 0);
    assert_eq!(list.errors.len(), 1);
    assert!(list.errors[0].message.contains("no such recipe"));
}

#[test]
fn unknown_version_becomes_resolution_error() {
    let idx = fixtures();
    let list = aggregate(&idx, &[sel("carbonara", VersionKey::parse("v9"), None)]);
    assert_eq!(list.items.len(), 0);
    assert_eq!(list.errors.len(), 1);
    assert_eq!(list.errors[0].slug, "carbonara");
}

#[test]
fn text_format_is_notes_friendly() {
    let idx = fixtures();
    let list = aggregate(&idx, &[sel("garlic-bread", None, None)]);
    let text = render(&list, Format::Text);
    // Each line is one item, no leading "- ", no header.
    for line in text.lines().filter(|l| !l.is_empty()) {
        assert!(
            !line.starts_with('-') && !line.starts_with('#'),
            "line should not start with sigil: {line:?}"
        );
    }
    assert!(text.contains("baguette"));
}

#[test]
fn text_format_includes_absolute_urls_when_link_base_set() {
    let idx = fixtures();
    let list = aggregate(&idx, &[sel("carbonara", None, None)]);
    let text = render_with(
        &list,
        Format::Text,
        &RenderOpts {
            recipe_link_base: Some("https://recipes.example.com"),
        },
    );
    assert!(text.contains("From:\n"), "missing footer: {text}");
    assert!(
        text.contains("https://recipes.example.com/r/carbonara"),
        "missing absolute URL: {text}"
    );
}

#[test]
fn text_format_omits_url_when_link_base_unset() {
    let idx = fixtures();
    let list = aggregate(&idx, &[sel("carbonara", None, None)]);
    let text = render(&list, Format::Text);
    assert!(text.contains("From:\n"));
    assert!(!text.contains("http"));
}

#[test]
fn text_footer_names_version_and_servings() {
    let idx = fixtures();
    let list = aggregate(&idx, &[sel("carbonara", None, None)]);
    let text = render_with(
        &list,
        Format::Text,
        &RenderOpts {
            recipe_link_base: Some("https://recipes.example.com"),
        },
    );
    assert!(
        text.contains("Spaghetti Carbonara v2 (×2 servings) — https://recipes.example.com/r/carbonara"),
        "footer: {text}"
    );
}

#[test]
fn html_format_is_a_fragment_with_items() {
    let idx = fixtures();
    let list = aggregate(&idx, &[sel("garlic-bread", None, None)]);
    let html = render(&list, Format::Html);
    assert!(html.contains("baguette"), "{html}");
    assert!(html.contains("<"), "{html}");
    assert!(!html.contains("<script"), "{html}");
}

#[test]
fn aisle_conf_categorises_and_orders_items() {
    let aisle = "[produce]\n\
         garlic\n\
         parsley\n\n\
         [bakery]\n\
         baguette\n\n\
         [dairy]\n\
         butter\n";
    let recipe = ">> title: Garlic Bread\n>> servings: 1\n\n\
         Slice @baguette{1}.\n\n\
         Mix @butter{40%g} with @garlic{3%pc} and @parsley{2%g}.\n\n\
         Spread on bread; bake.\n";
    let idx = build(&[("garlic-bread.cook", recipe)], Some(aisle));
    let list = aggregate(&idx, &[sel("garlic-bread", None, None)]);

    let cats: Vec<_> = list.items.iter().map(|i| i.category.clone()).collect();
    assert!(cats.iter().any(|c| c.as_deref() == Some("produce")));
    assert!(cats.iter().any(|c| c.as_deref() == Some("bakery")));
    assert!(cats.iter().any(|c| c.as_deref() == Some("dairy")));

    let position_of = |target: &str| {
        list.items
            .iter()
            .position(|i| i.display_name == target)
            .unwrap_or(usize::MAX)
    };
    assert!(position_of("garlic") < position_of("baguette"));
    assert!(position_of("baguette") < position_of("butter"));
}

#[test]
fn unknown_ingredient_falls_into_other() {
    let idx = build(
        &[("dish.cook", ">> title: D\n>> servings: 1\n\nMix @onion{1} with @mystery_powder{1%g}.\n")],
        Some("[produce]\nonion\n"),
    );
    let list = aggregate(&idx, &[sel("dish", None, None)]);
    let onion = list.items.iter().find(|i| i.display_name == "onion").unwrap();
    let mystery = list.items.iter().find(|i| i.display_name == "mystery_powder").unwrap();
    assert_eq!(onion.category.as_deref(), Some("produce"));
    assert!(mystery.category.is_none(), "mystery should be uncategorised");
}

#[test]
fn no_aisle_conf_means_no_categories() {
    let idx = fixtures();
    assert!(idx.aisle_source.is_none());
    let list = aggregate(&idx, &[sel("carbonara", None, None)]);
    assert!(list.items.iter().all(|i| i.category.is_none()));
}

#[test]
fn aisle_text_render_emits_section_headings() {
    let idx = build(
        &[("d.cook", ">> title: D\n>> servings: 1\n\nMix @onion{1} with @baguette{1}.\n")],
        Some("[produce]\nonion\n\n[bakery]\nbaguette\n"),
    );
    let list = aggregate(&idx, &[sel("d", None, None)]);
    let text = render(&list, Format::Text);
    assert!(text.contains("# produce\n"), "text missing heading: {text}");
    assert!(text.contains("# bakery\n"), "text missing heading: {text}");
    let produce_pos = text.find("# produce").unwrap();
    let bakery_pos = text.find("# bakery").unwrap();
    assert!(produce_pos < bakery_pos, "wrong section order: {text}");
}

#[test]
fn small_mass_demotes_to_a_bit() {
    // 2g parsley is well under the 5g threshold → "a bit of".
    let idx = fixtures();
    let list = aggregate(&idx, &[sel("garlic-bread", None, None)]);
    let parsley = list
        .items
        .iter()
        .find(|i| i.display_name == "parsley")
        .expect("parsley present");
    assert!(parsley.canonical.is_none(), "parsley should be demoted from mass-dim");
    assert_eq!(parsley.display, "a bit of");
}

#[test]
fn small_mass_merges_with_to_taste_sibling() {
    let idx = build(
        &[
            ("a.cook", ">> title: A\n>> servings: 1\n\nMix @salt{2%g} into @flour{200%g}.\n"),
            ("b.cook", ">> title: B\n>> servings: 1\n\nSeason with @salt{} to taste.\n"),
        ],
        None,
    );
    let list = aggregate(&idx, &[sel("a", None, None), sel("b", None, None)]);
    let salt_lines: Vec<_> = list.items.iter().filter(|i| i.display_name == "salt").collect();
    assert_eq!(salt_lines.len(), 1, "salt should be one merged line: {:#?}", list.items);
    assert_eq!(salt_lines[0].display, "a bit of");
    assert_eq!(salt_lines[0].sources.len(), 2);
}

#[test]
fn kilograms_and_grams_sum_in_one_line() {
    let idx = build(
        &[
            ("a.cook", ">> title: A\n>> servings: 1\n\nMix @flour{1%kg}.\n"),
            ("b.cook", ">> title: B\n>> servings: 1\n\nMix @Flour{250%g}.\n"),
        ],
        None,
    );
    let list = aggregate(&idx, &[sel("a", None, None), sel("b", None, None)]);
    let flour: Vec<_> = list.items.iter().filter(|i| i.display_name.to_lowercase() == "flour").collect();
    assert_eq!(flour.len(), 1, "{:#?}", list.items);
    assert_eq!(flour[0].canonical.unwrap().amount, 1250 * MILLION);
    assert_eq!(flour[0].display, "1.25 kg");
}

#[test]
fn mixed_dimensions_stay_separate_with_a_warning() {
    let idx = build(
        &[
            ("a.cook", ">> title: A\n>> servings: 1\n\nAdd @milk{200%ml}.\n"),
            ("b.cook", ">> title: B\n>> servings: 1\n\nAdd @milk{100%g}.\n"),
        ],
        None,
    );
    let list = aggregate(&idx, &[sel("a", None, None), sel("b", None, None)]);
    let milk: Vec<_> = list.items.iter().filter(|i| i.display_name == "milk").collect();
    assert_eq!(milk.len(), 2, "{:#?}", list.items);
    assert!(milk.iter().all(|m| m.warning.is_some()), "{:#?}", milk);
}

#[test]
fn notes_are_kept_once_each() {
    let idx = build(
        &[
            ("a.cook", ">> title: A\n>> servings: 1\n\nChop @onion{2}(diced).\n"),
            ("b.cook", ">> title: B\n>> servings: 1\n\nChop @onion{1}(sliced) and @onion{1}(diced).\n"),
        ],
        None,
    );
    let list = aggregate(&idx, &[sel("a", None, None), sel("b", None, None)]);
    let onion = list.items.iter().find(|i| i.display_name == "onion").unwrap();
    assert_eq!(onion.canonical.unwrap().amount, 4 * MILLION);
    assert_eq!(onion.notes, vec!["diced".to_string(), "sliced".to_string()]);
}

#[test]
fn readme_example_list_renders_as_documented() {
    let aisle = "[produce]\ngarlic\nonion\nparsley\n\n[bakery]\nbaguette\n\n[dairy]\nbutter\npecorino\n\n[pantry]\nspaghetti\nblack pepper\n";
    let carbonara = ">> title: Spaghetti Carbonara\n>> servings: 2\n\n\
        Cook @spaghetti{200%g}. Fry @onion{1}(diced).\n\n\
        Toss with @pecorino{60%g} and @black pepper{}.\n";
    let garlic_bread = ">> title: Garlic Bread\n>> servings: 4\n\n\
        Mix @butter{80%g} with @garlic{3} and @parsley{2%g}.\n";
    let idx = build(
        &[("mains/carbonara-v2.cook", carbonara), ("sides/garlic-bread.cook", garlic_bread)],
        Some(aisle),
    );
    let list = aggregate(&idx, &[sel("carbonara", None, None), sel("garlic-bread", None, None)]);
    let text = render_with(
        &list,
        Format::Text,
        &RenderOpts {
            recipe_link_base: Some("https://recipes.example.com"),
        },
    );
    let expected = "# produce\n3 garlic\n1 onion (diced)\na bit of parsley\n\n\
# dairy\n80 g butter\n60 g pecorino\n\n\
# pantry\n200 g spaghetti\nto taste black pepper\n\n\
From:\n\
Spaghetti Carbonara v2 (×2 servings) — https://recipes.example.com/r/carbonara\n\
Garlic Bread v1 (×4 servings) — https://recipes.example.com/r/garlic-bread\n";
    assert_eq!(text, expected);
}

#[test]
fn unknown_slug_after_others_only_adds_its_error() {
    let idx = fixtures();
    let base = aggregate(&idx, &[sel("carbonara", None, None)]);
    let more = aggregate(&idx, &[sel("carbonara", None, None), sel("no-such-slug", None, None)]);
    assert_eq!(format!("{:?}", base.items), format!("{:?}", more.items));
    assert_eq!(format!("{:?}", base.sources), format!("{:?}", more.sources));
    assert_eq!(more.errors.len(), base.errors.len() + 1);
    assert_eq!(more.errors.last().unwrap().slug, "no-such-slug");
    assert_eq!(more.errors.last().unwrap().message, "no such recipe");
}

#[test]
fn no_line_keeps_a_mass_under_five_grams() {
    let idx = fixtures();
    let list = aggregate(&idx, &[sel("carbonara", None, None), sel("garlic-bread", None, None)]);
    for it in &list.items {
        if let Some(c) = it.canonical {
            if c.dimension == recipes::recipe::units::Dimension::Mass {
                assert!(c.amount >= 5 * MILLION, "{:#?}", it);
            }
        }
    }
    let names: Vec<String> = list.items.iter().map(|i| i.display_name.to_lowercase()).collect();
    for (a, x) in list.items.iter().enumerate() {
        for (b, y) in list.items.iter().enumerate() {
            if a != b && names[a] == names[b] {
                assert_ne!(x.canonical.map(|c| c.dimension), y.canonical.map(|c| c.dimension));
            }
        }
    }
}

#[test]
fn override_source_records_the_override_whatever_the_multiplier() {
    let idx = fixtures();
    let mut a = sel("garlic-bread", None, Some(0));
    a.multiplier = Some(3);
    let mut b = sel("carbonara", None, Some(6));
    b.multiplier = Some(5);
    let list = aggregate(&idx, &[a, b]);
    assert_eq!(list.sources.len(), 2);
    assert_eq!(list.sources[0].servings, 1);
    assert_eq!(list.sources[1].servings, 6);
    let mut c = sel("carbonara", None, Some(6));
    c.multiplier = None;
    let mut d = sel("garlic-bread", None, Some(0));
    d.multiplier = None;
    let other = aggregate(&idx, &[d, c]);
    assert_eq!(format!("{:?}", list.items), format!("{:?}", other.items));
}
