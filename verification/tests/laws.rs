use recipes::index::scan::VersionKey;
use recipes::server::routes::normalize_base_path;
use recipes::server::store::ListStore;
use recipes::shopping::{parse_selection, requested_servings, Selection};

fn sel(slug: &str) -> Selection {
    Selection {
        slug: slug.to_string(),
        ..Default::default()
    }
}

#[test]
fn version_text_reads_back_for_many_keys() {
    for major in [1u32, 2, 9, 10, 99, 4_294_967_295] {
        for minor in [0u32, 1, 7, 10, 123] {
            let k = VersionKey { major, minor };
            assert_eq!(VersionKey::parse(&k.to_text()), Some(k), "{}", k.to_text());
        }
    }
}

#[test]
fn stored_list_is_found_again_until_it_expires() {
    let mut store = ListStore::new();
    let token = store.put(vec![sel("carbonara"), sel("garlic-bread")], 1_000);
    assert_eq!(token.len(), 12);
    assert!(token.chars().all(|c| c.is_ascii_alphanumeric()));
    let got = store.get(&token, 1_000 + 3_599_999).expect("still young");
    let slugs: Vec<_> = got.selections.iter().map(|s| s.slug.clone()).collect();
    assert_eq!(slugs, vec!["carbonara", "garlic-bread"]);
    assert_eq!(got.created, 1_000);
    assert!(store.get(&token, 1_000 + 3_600_000 + 3_599_999).is_none());
    assert!(store.get(&token, 1_000).is_none(), "an expired list is removed");
}

#[test]
fn store_keeps_the_most_recent_lists() {
    let mut store = ListStore::new();
    let first = store.put(vec![sel("a")], 0);
    let mut last = String::new();
    for i in 0..256u64 {
        last = store.put(vec![sel("b")], i);
    }
    assert!(store.get(&first, 300).is_none(), "the least recently used list is evicted");
    assert!(store.get(&last, 300).is_some());
}

#[test]
fn scaling_by_whole_batches_is_exact() {
    // requested = 3 × declared
    assert_eq!(requested_servings(2, None, Some(3)), 6);
    // an override wins over a multiplier, zero counts as one
    assert_eq!(requested_servings(2, Some(4), Some(3)), 4);
    assert_eq!(requested_servings(2, Some(0), None), 1);
    assert_eq!(requested_servings(2, None, Some(0)), 2);
    assert_eq!(requested_servings(3, None, None), 3);
    assert_eq!(requested_servings(4_294_967_295, None, Some(2)), 4_294_967_295);
}

#[test]
fn selection_parses_slug_and_version() {
    let s = parse_selection("carbonara@v1-1");
    assert_eq!(s.slug, "carbonara");
    assert_eq!(s.version, Some(VersionKey { major: 1, minor: 1 }));
    let s = parse_selection("carbonara");
    assert_eq!(s.slug, "carbonara");
    assert_eq!(s.version, None);
    let s = parse_selection("carbonara@bogus");
    assert_eq!(s.slug, "carbonara");
    assert_eq!(s.version, None);
}

#[test]
fn normalized_base_paths_stay_normalized() {
    for s in ["", " / ", "recipes", "/recipes/", "a/b//", "/x"] {
        let once = normalize_base_path(s);
        assert!(once.starts_with('/'));
        assert!(once == "/" || !once.ends_with('/'));
        assert_eq!(normalize_base_path(&once), once);
    }
    assert_eq!(normalize_base_path("a /"), "/a ");
    assert_eq!(normalize_base_path("/a "), "/a");
    assert_eq!(normalize_base_path("//"), "");
}
