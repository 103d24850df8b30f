use recipes::index::assemble::{assemble_index, load, scan_entry, AisleInput, ScanDecision};
use recipes::index::refresh::keep_good_families;
use recipes::index::watch::{relevant_event, EventKind};
use recipes::index::Index;

const ROOT: &str = "/srv/recipes";

fn build(files: &[(&str, &str)]) -> Index {
    let mut errors = Vec::new();
    let mut warnings = Vec::new();
    let mut loaded = Vec::new();
    for (rel, body) in files {
        let path = format!("{ROOT}/{rel}");
        match scan_entry(ROOT, &path) {
            ScanDecision::Skip => {}
            ScanDecision::Warning(w) => warnings.push(w),
            ScanDecision::Error(e) => errors.push(e),
            ScanDecision::Load(meta) => loaded.push(load(meta, body.to_string(), None)),
        }
    }
    assemble_index(ROOT.to_string(), errors, warnings, loaded, AisleInput::Missing, Some(0))
}

fn paths(ps: &[&str]) -> Vec<String> {
    ps.iter().map(|p| p.to_string()).collect()
}

#[test]
fn watcher_picks_up_new_file() {
    let before = build(&[("alpha.cook", ">> title: Alpha\n\nMix @flour{1%g}.\n")]);
    assert_eq!(before.recipe_count(), 1);
    // The watcher sees the new file and rebuilds from the tree as it now is.
    assert!(relevant_event(EventKind::Create, &paths(&["/srv/recipes/beta.cook"])));
    let after = build(&[
        ("alpha.cook", ">> title: Alpha\n\nMix @flour{1%g}.\n"),
        ("beta.cook", ">> title: Beta\n\nMix @flour{2%g}.\n"),
    ]);
    assert_eq!(after.recipe_count(), 2);
}

#[test]
fn watcher_picks_up_modification() {
    let before = build(&[("alpha-v1.cook", ">> title: Alpha\n\nMix @flour{1%g}.\n")]);
    assert_eq!(before.families[0].title, "Alpha");
    assert!(relevant_event(EventKind::Modify, &paths(&["/srv/recipes/alpha-v1.cook"])));
    let after = build(&[("alpha-v1.cook", ">> title: Alpha Renamed\n\nMix @flour{1%g}.\n")]);
    assert_eq!(after.families[0].title, "Alpha Renamed");
}

#[test]
fn only_recipe_and_aisle_changes_trigger_a_rebuild() {
    assert!(relevant_event(EventKind::Remove, &paths(&["/srv/recipes/mains/stew.cook"])));
    assert!(relevant_event(EventKind::Modify, &paths(&["/srv/recipes/aisle.conf"])));
    assert!(relevant_event(EventKind::Create, &paths(&["/srv/recipes/notes.txt", "/srv/recipes/x.cook"])));
    assert!(!relevant_event(EventKind::Create, &paths(&["/srv/recipes/notes.txt"])));
    assert!(!relevant_event(EventKind::Other, &paths(&["/srv/recipes/x.cook"])));
    assert!(!relevant_event(EventKind::Modify, &paths(&[])));
    assert!(!relevant_event(EventKind::Modify, &paths(&["/srv/recipes/aisle.conf.bak"])));
}

#[test]
fn rebuild_keeps_previous_good_family_when_a_file_breaks() {
    let before = build(&[
        ("alpha-v1.cook", ">> title: Alpha\n\nMix @flour{1%g}.\n"),
        ("beta.cook", ">> title: Beta\n\nMix @sugar{1%g}.\n"),
    ]);
    let after = build(&[
        ("alpha-v1.cook", ">> title: Alpha\n\nMix @flour ~broken.\n"),
        ("beta.cook", ">> title: Beta Renamed\n\nMix @sugar{1%g}.\n"),
    ]);
    assert!(after.families.iter().all(|f| f.slug.as_str() != "alpha"));
    assert!(!after.errors.is_empty());
    let merged = keep_good_families(before, after);
    let alpha = merged.families.iter().find(|f| f.slug.as_str() == "alpha").expect("alpha kept");
    assert_eq!(alpha.title, "Alpha");
    let beta = merged.families.iter().find(|f| f.slug.as_str() == "beta").unwrap();
    assert_eq!(beta.title, "Beta Renamed");
    assert!(!merged.errors.is_empty(), "the error is still reported");
}
