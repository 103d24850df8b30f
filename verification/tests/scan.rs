use recipes::index::scan::{parse_recipe_path, split_version_suffix, FilenameError, RecipeFileMeta, VersionKey};
use recipes::index::slug::Slug;

fn parse(name: &str) -> RecipeFileMeta {
    let root = "/r";
    parse_recipe_path(root, &format!("{root}/{name}")).unwrap()
}

#[test]
fn no_version_is_v1() {
    let m = parse("carbonara.cook");
    assert_eq!(m.version, VersionKey::v1());
    assert!(!m.explicit_version);
    assert_eq!(m.slug.as_str(), "carbonara");
}

#[test]
fn major_only() {
    let m = parse("carbonara-v2.cook");
    assert_eq!(m.version, VersionKey { major: 2, minor: 0 });
    assert!(m.explicit_version);
}

#[test]
fn major_minor() {
    let m = parse("carbonara-v1-2.cook");
    assert_eq!(m.version, VersionKey { major: 1, minor: 2 });
}

#[test]
fn category_from_subdir() {
    let m = parse_recipe_path("/r", "/r/mains/pasta/carbonara-v1.cook").unwrap();
    assert_eq!(m.category, "mains/pasta");
    assert_eq!(m.base, "carbonara");
}

#[test]
fn vegan_is_not_a_version() {
    let m = parse("vegan-stew.cook");
    assert_eq!(m.base, "vegan-stew");
    assert_eq!(m.version, VersionKey::v1());
}

#[test]
fn malformed_v0() {
    let r = parse_recipe_path("/r", "/r/foo-v0.cook");
    assert!(matches!(r, Err(FilenameError::MalformedVersion(_))));
}

#[test]
fn malformed_extra_dash() {
    let r = parse_recipe_path("/r", "/r/foo-v1-2-3.cook");
    assert!(matches!(r, Err(FilenameError::MalformedVersion(_))));
}

#[test]
fn slug_lowercased() {
    let m = parse("Spaghetti_Carbonara-v1.cook");
    assert_eq!(m.slug.as_str(), "spaghetti-carbonara");
    assert_eq!(m.base, "Spaghetti_Carbonara");
}

#[test]
fn version_key_ordering() {
    let a = VersionKey { major: 1, minor: 0 };
    let b = VersionKey { major: 1, minor: 1 };
    let c = VersionKey { major: 2, minor: 0 };
    assert!(a < b);
    assert!(b < c);
    assert!(a.precedes(&b) && b.precedes(&c) && !c.precedes(&a));
}

#[test]
fn lowercases() {
    assert_eq!(Slug::from_base("Carbonara").as_str(), "carbonara");
}

#[test]
fn replaces_spaces_and_underscores() {
    assert_eq!(
        Slug::from_base("Spicy Tomato_Sauce").as_str(),
        "spicy-tomato-sauce"
    );
}

#[test]
fn slug_of_slug_is_unchanged() {
    let once = Slug::from_base("My Big_Dish");
    let twice = Slug::from_base(once.as_str());
    assert_eq!(once.as_str(), twice.as_str());
}

#[test]
fn version_parse_accepts_and_rejects() {
    assert_eq!(VersionKey::parse("v1"), Some(VersionKey { major: 1, minor: 0 }));
    assert_eq!(VersionKey::parse("v12-3"), Some(VersionKey { major: 12, minor: 3 }));
    assert_eq!(VersionKey::parse("v+2"), Some(VersionKey { major: 2, minor: 0 }));
    assert_eq!(VersionKey::parse("v"), None);
    assert_eq!(VersionKey::parse("v0"), None);
    assert_eq!(VersionKey::parse("v1-0"), None);
    assert_eq!(VersionKey::parse("1"), None);
    assert_eq!(VersionKey::parse("v1-"), None);
    assert_eq!(VersionKey::parse("v4294967296"), None);
    assert_eq!(VersionKey::parse("v4294967295"), Some(VersionKey { major: 4294967295, minor: 0 }));
}

#[test]
fn version_text_round_trips() {
    for k in [VersionKey { major: 1, minor: 0 }, VersionKey { major: 3, minor: 14 }] {
        assert_eq!(VersionKey::parse(&k.to_text()), Some(k));
    }
    assert_eq!(VersionKey { major: 2, minor: 1 }.to_text(), "v2-1");
    assert_eq!(VersionKey { major: 10, minor: 0 }.to_text(), "v10");
}

#[test]
fn split_suffix_cases() {
    let (b, v, e) = split_version_suffix("food-v1-2").unwrap();
    assert_eq!((b.as_str(), v, e), ("food", VersionKey { major: 1, minor: 2 }, true));
    assert!(matches!(split_version_suffix("-v1"), Err(FilenameError::EmptyBase(_))));
    assert!(matches!(split_version_suffix(""), Err(FilenameError::EmptyBase(_))));
    let (b, _, e) = split_version_suffix("stew-vegan").unwrap();
    assert_eq!((b.as_str(), e), ("stew-vegan", false));
}

#[test]
fn path_errors() {
    assert!(matches!(parse_recipe_path("/r", "/r/notes.txt"), Err(FilenameError::NotCookFile(_))));
    assert!(matches!(parse_recipe_path("/r", "/r/.."), Err(FilenameError::NonUtf8(_))));
    let m = parse_recipe_path("/r", "/elsewhere/x.cook").unwrap();
    assert_eq!(m.category, "//elsewhere");
    let m = parse_recipe_path("/r/", "/r//a/./b.cook").unwrap();
    assert_eq!(m.category, "a");
    assert_eq!(m.path, "/r//a/./b.cook");
}
