use recipes::index::assemble::{assemble_index, load, scan_entry, AisleInput, ScanDecision};
use recipes::index::Index;
use recipes::server::routes::{
    health, home, parse_shopping_form, recipe_diff, recipe_history, recipe_latest, recipe_version,
    shopping_create, shopping_view, Health, Reply,
};
use recipes::server::store::ListStore;

const ROOT: &str = "/srv/recipes";

const CARBONARA_V1: &str = ">> title: Spaghetti Carbonara\n>> servings: 2\n>> changelog: Initial version.\n\n\
Bring a #pot{} of salted water to the boil and add @spaghetti{200%g}.\n\n\
Whisk @eggs{3} with @pecorino{50%g}.\n\n\
Render @guanciale{120%g} in a #pan{} until crisp, about ~{6%minutes}.\n\n\
Combine off the heat and season with @black pepper{}.\n";

const CARBONARA_V1_1: &str = ">> title: Spaghetti Carbonara\n>> servings: 2\n>> changelog: Egg yolks only.\n\n\
Bring a #pot{} of salted water to the boil and add @spaghetti{200%g}.\n\n\
Whisk @egg yolks{4} with @pecorino{50%g}.\n\n\
Render @guanciale{120%g} in a #pan{} until crisp, about ~{6%minutes}.\n\n\
Combine off the heat and season with @black pepper{}.\n";

const CARBONARA_V2: &str = ">> title: Spaghetti Carbonara\n>> servings: 2\n>> changelog: Reduced guanciale by 50g; egg whites no longer used.\n\n\
Bring a #pot{} of salted water to the boil and add @spaghetti{200%g}.\nCook for ~{8%minutes}.\n\n\
Whisk together @egg yolks{4} with @pecorino{60%g}, grated.\n\n\
Render @guanciale{70%g} in a cold #pan{} until crisp, about ~{6%minutes}.\n\n\
Drain the pasta, reserving @pasta water{100%ml}. Combine pasta, fat, and\negg mixture off the heat. Season with @black pepper{}.\n";

const GARLIC_BREAD: &str = ">> title: Garlic Bread\n>> servings: 4\n\n\
Slice @baguette{1} lengthwise.\n\n\
Mix @butter{80%g} with @garlic{3} and @parsley{2%g}.\n\n\
Spread on the bread and bake for ~{10%minutes}.\n";

const NOW_SECS: u64 = 1_717_000_000;

fn build(files: &[(&str, &str)]) -> Index {
    let mut errors = Vec::new();
    let mut warnings = Vec::new();
    let mut loaded = Vec::new();
    for (rel, body) in files {
        let path = format!("{ROOT}/{rel}");
        match scan_entry(ROOT, &path) {
            ScanDecision::Skip => {}
            ScanDecision::Warning(w) => warnings.push(w),
            ScanDecision::Error(e) => errors.push(e),
            ScanDecision::Load(meta) => loaded.push(load(meta, body.to_string(), Some(NOW_SECS))),
        }
    }
    assemble_index(ROOT.to_string(), errors, warnings, loaded, AisleInput::Missing, Some(NOW_SECS))
}

fn fixtures() -> Index {
    build(&[
        ("mains/pasta/carbonara-v1.cook", CARBONARA_V1),
        ("mains/pasta/carbonara-v1-1.cook", CARBONARA_V1_1),
        ("mains/pasta/carbonara-v2.cook", CARBONARA_V2),
        ("sides/garlic-bread.cook", GARLIC_BREAD),
    ])
}

fn page(r: Reply) -> (u16, String) {
    match r {
        Reply::Page { status, body } => (status, body),
        Reply::Text { .. } => panic!("expected a page"),
        Reply::Redirect(l) => panic!("expected a page, got a redirect to {l}"),
    }
}

/// Post the form and return the token it was stored under.
fn post(store: &mut ListStore, body: &str) -> String {
    match shopping_create(store, "/", body, 0) {
        Reply::Redirect(location) => {
            assert!(location.starts_with("/shopping/"), "got {location}");
            location["/shopping/".len()..].to_string()
        }
        _ => panic!("expected a redirect"),
    }
}

#[test]
fn home_lists_all_families() {
    let idx = fixtures();
    let html = home(&idx, "/");
    assert!(html.contains("Spaghetti Carbonara"));
    assert!(html.contains("Garlic Bread"));
    assert!(html.contains("/r/carbonara"));
    assert!(html.contains("/r/garlic-bread"));
    assert!(html.contains(r#"name="slugs[]""#));
}

#[test]
fn recipe_view_shows_current_version() {
    let idx = fixtures();
    let (status, html) = page(recipe_latest(&idx, "/", "carbonara"));
    assert_eq!(status, 200);
    assert!(html.contains("Spaghetti Carbonara"));
    assert!(html.contains("v2"));
    assert!(html.contains("guanciale"));
}

#[test]
fn recipe_view_specific_version() {
    let idx = fixtures();
    let (status, html) = page(recipe_version(&idx, "/", "carbonara", "v1"));
    assert_eq!(status, 200);
    assert!(html.contains("Initial version"), "older version should show changelog");
}

#[test]
fn unknown_recipe_is_404() {
    let idx = fixtures();
    let (status, html) = page(recipe_latest(&idx, "/", "no-such-recipe"));
    assert_eq!(status, 404);
    assert!(html.contains("No recipe with slug `no-such-recipe`"), "{html}");
}

#[test]
fn unknown_version_is_404() {
    let idx = fixtures();
    let (status, _) = page(recipe_version(&idx, "/", "carbonara", "v7"));
    assert_eq!(status, 404);
    let (status, html) = page(recipe_version(&idx, "/", "carbonara", "seven"));
    assert_eq!(status, 404);
    assert!(html.contains("Bad version `seven`"), "{html}");
}

#[test]
fn history_lists_versions_newest_first() {
    let idx = fixtures();
    let (status, html) = page(recipe_history(&idx, "/", "carbonara"));
    assert_eq!(status, 200);
    let v2 = html.find(">v2<").expect("v2 link present");
    let v1 = html.find(">v1<").expect("v1 link present");
    assert!(v2 < v1, "v2 should appear before v1 (newest first)");
}

#[test]
fn health_returns_index_status() {
    let idx = fixtures();
    match health(&idx) {
        Health::Ready(p) => {
            assert_eq!(p.family_count, 2);
            assert_eq!(p.recipe_count, 4);
            assert_eq!(p.last_built_unix, Some(NOW_SECS));
            assert!(p.parse_errors.is_empty());
        }
        Health::NotBuilt => panic!("index was built"),
    }
}

#[test]
fn health_is_not_ready_without_a_build() {
    let idx = Index::empty(ROOT.to_string());
    assert!(matches!(health(&idx), Health::NotBuilt));
}

#[test]
fn ingredients_panel_deduplicates_repeated_mentions() {
    let idx = build(&[(
        "dup.cook",
        ">> title: Dup\n>> servings: 1\n\n\
         Add @salt{1%g} to the pan.\n\n\
         Sprinkle @salt{2%g} on top.\n\n\
         Finish with @salt{} to taste.\n",
    )]);
    let (status, html) = page(recipe_latest(&idx, "/", "dup"));
    assert_eq!(status, 200);
    let start = html.find(r#"<ul class="ingredient-list""#).expect("ingredient list block");
    let end = html[start..].find("</ul>").unwrap() + start;
    let block = &html[start..end];
    let count = block.matches(r#"class="ingredient">salt</span>"#).count();
    assert_eq!(count, 1, "salt should appear exactly once: {block}");
}

#[test]
fn diff_view_renders_unified_diff() {
    let idx = fixtures();
    let (status, html) = page(recipe_diff(&idx, "/", "carbonara", "v1", "v2"));
    assert_eq!(status, 200);
    assert!(html.contains("Comparing"), "header missing: {html}");
    assert!(html.contains("class=\"diff\""));
}

#[test]
fn post_shopping_redirects_then_renders() {
    let idx = fixtures();
    let mut store = ListStore::new();
    let token = post(&mut store, "slugs%5B%5D=carbonara&slugs%5B%5D=garlic-bread");
    let (status, html) = page(shopping_view(&mut store, &idx, "/", None, None, None, None, &token, None, 1));
    assert_eq!(status, 200);
    assert!(html.contains("Shopping list"));
    assert!(html.contains("baguette"));
    assert!(html.contains("Apple Notes"));
}

#[test]
fn post_without_recipes_is_404() {
    let mut store = ListStore::new();
    let (status, _) = page(shopping_create(&mut store, "/", "servings%5Bx%5D=2", 0));
    assert_eq!(status, 404);
}

fn text_of(
    store: &mut ListStore,
    idx: &Index,
    public_url: Option<&str>,
    proto: Option<Option<&str>>,
    host: Option<Option<&str>>,
    token: &str,
) -> (String, String) {
    match shopping_view(store, idx, "/", public_url, proto, None, host, token, Some("text"), 1) {
        Reply::Text { content_type, body } => (content_type, body),
        _ => panic!("expected text"),
    }
}

#[test]
fn shopping_text_format_is_plain() {
    let idx = fixtures();
    let mut store = ListStore::new();
    let token = post(&mut store, "slugs%5B%5D=garlic-bread");
    let (ct, text) = text_of(&mut store, &idx, None, None, None, &token);
    assert!(ct.starts_with("text/plain"));
    for line in text.lines().filter(|l| !l.is_empty()) {
        assert!(!line.starts_with('-'), "Notes-friendly format must not lead with `-`: {line:?}");
    }
    assert!(text.contains("baguette"));
}

#[test]
fn html_view_links_source_recipes() {
    let idx = fixtures();
    let mut store = ListStore::new();
    let token = post(&mut store, "slugs%5B%5D=carbonara");
    let (status, html) = page(shopping_view(
        &mut store,
        &idx,
        "/",
        None,
        Some(Some("https")),
        None,
        Some(Some("recipes.example.com")),
        &token,
        None,
        1,
    ));
    assert_eq!(status, 200);
    assert!(
        html.contains(r#"<a href="https://recipes.example.com/r/carbonara">Spaghetti Carbonara</a>"#),
        "source link missing: {html}"
    );
}

#[test]
fn public_url_overrides_request_headers() {
    let idx = fixtures();
    let mut store = ListStore::new();
    let token = post(&mut store, "slugs%5B%5D=carbonara");
    let (_, text) = text_of(
        &mut store,
        &idx,
        Some("https://recipes.example.com"),
        Some(Some("http")),
        Some(Some("internal.local")),
        &token,
    );
    assert!(
        text.contains("https://recipes.example.com/r/carbonara"),
        "public_url did not override headers: {text}"
    );
    assert!(!text.contains("internal.local"));
}

#[test]
fn multiplier_via_form_repeats_batches() {
    let idx = fixtures();
    let mut store = ListStore::new();
    // ×3 batches of carbonara (declared 2 servings → 6 effective servings)
    let token = post(&mut store, "slugs%5B%5D=carbonara&multiplier%5Bcarbonara%5D=3");
    let (_, text) = text_of(&mut store, &idx, None, None, None, &token);
    assert!(text.contains("600 g spaghetti"), "got: {text}");
}

#[test]
fn unknown_token_404() {
    let idx = fixtures();
    let mut store = ListStore::new();
    let (status, html) = page(shopping_view(&mut store, &idx, "/", None, None, None, None, "notarealtoken", None, 1));
    assert_eq!(status, 404);
    assert!(html.contains("expired"), "{html}");
}

#[test]
fn servings_override_via_form() {
    let idx = fixtures();
    let mut store = ListStore::new();
    let token = post(&mut store, "slugs%5B%5D=carbonara&servings%5Bcarbonara%5D=4");
    let (_, text) = text_of(&mut store, &idx, None, None, None, &token);
    assert!(text.contains("400 g spaghetti"), "got: {text}");
}

#[test]
fn stored_list_expires_after_an_hour() {
    let idx = fixtures();
    let mut store = ListStore::new();
    let token = post(&mut store, "slugs%5B%5D=carbonara");
    let hour: u64 = 3_600_000;
    let (status, _) = page(shopping_view(&mut store, &idx, "/", None, None, None, None, &token, None, hour - 1));
    assert_eq!(status, 200);
    let (status, _) = page(shopping_view(&mut store, &idx, "/", None, None, None, None, &token, None, hour));
    assert_eq!(status, 404);
}

#[test]
fn form_parsing_decodes_and_keeps_last_count() {
    let f = parse_shopping_form("slugs=a%20b&slugs%5B%5D=&servings%5Ba%5D=2&servings%5Ba%5D=5&servings%5Bb%5D=0&multiplier%5Bc%5D=x&junk");
    assert_eq!(f.slugs, vec!["a b".to_string()]);
    assert_eq!(f.servings, vec![("a".to_string(), 5)]);
    assert!(f.multipliers.is_empty());
}
