use recipes::commands::validate::{single_file_check, validate_single_file, Validation};

const ROOT: &str = "/tmp/tree";

const CARBONARA_V1: &str = ">> title: Spaghetti Carbonara\n>> servings: 2\n>> changelog: Initial version.\n\n\
Bring a #pot{} of salted water to the boil and add @spaghetti{200%g}.\n\n\
Whisk @eggs{3} with @pecorino{50%g}.\n\n\
Render @guanciale{120%g} in a #pan{} until crisp, about ~{6%minutes}.\n\n\
Combine off the heat and season with @black pepper{}.\n";

const CARBONARA_V2: &str = ">> title: Spaghetti Carbonara\n>> servings: 2\n>> changelog: Reduced guanciale by 50g; egg whites no longer used.\n\n\
Bring a #pot{} of salted water to the boil and add @spaghetti{200%g}.\nCook for ~{8%minutes}.\n\n\
Whisk together @egg yolks{4} with @pecorino{60%g}, grated.\n\n\
Render @guanciale{70%g} in a cold #pan{} until crisp, about ~{6%minutes}.\n\n\
Drain the pasta, reserving @pasta water{100%ml}. Combine pasta, fat, and\negg mixture off the heat. Season with @black pepper{}.\n";

const GARLIC_BREAD: &str = ">> title: Garlic Bread\n>> servings: 4\n\n\
Slice @baguette{1} lengthwise.\n\n\
Mix @butter{80%g} with @garlic{3} and @parsley{2%g}.\n\n\
Spread on the bread and bake for ~{10%minutes}.\n";

/// Check a tree of files (relative path, contents) as `validate <dir>` does;
/// the exit code, standard output and standard error.
fn validate_tree(files: &[(&str, &str)]) -> (i32, String, String) {
    let mut v = Validation::new();
    for (rel, body) in files {
        let path = format!("{ROOT}/{rel}");
        if let Some(meta) = v.entry(ROOT, &path) {
            v.loaded(meta, Ok(body.to_string()));
        }
    }
    v.finish();
    let mut out = String::new();
    let mut err = String::new();
    for line in &v.lines {
        let target = if line.to_stderr { &mut err } else { &mut out };
        target.push_str(&line.text);
        target.push('\n');
    }
    (v.exit_code(), out, err)
}

#[test]
fn validate_clean_tree_exits_zero() {
    let (code, out, err) = validate_tree(&[
        ("mains/pasta/carbonara-v1.cook", CARBONARA_V1),
        ("mains/pasta/carbonara-v2.cook", CARBONARA_V2),
        ("sides/garlic-bread.cook", GARLIC_BREAD),
    ]);
    assert_eq!(code, 0, "stderr: {err}");
    assert_eq!(out.lines().filter(|l| l.starts_with("OK    ")).count(), 3, "{out}");
}

#[test]
fn validate_duplicate_version_fails() {
    // unversioned name + explicit -v1 collide on (base, MAJOR, MINOR)=(foo,1,0)
    let (code, out, _) = validate_tree(&[
        ("foo.cook", ">> title: A\n\nMix @flour{1%g}.\n"),
        ("foo-v1.cook", ">> title: A\n\nMix @flour{1%g}.\n"),
    ]);
    assert_ne!(code, 0);
    assert!(out.contains("duplicate version"), "stdout: {out}");
    assert!(
        out.contains("FAIL  /tmp/tree/foo-v1.cook: duplicate version v1 (also /tmp/tree/foo.cook)"),
        "stdout: {out}"
    );
}

#[test]
fn validate_malformed_version_fails() {
    let (code, out, _) = validate_tree(&[("foo-v0.cook", ">> title: A\n\nMix @flour{1%g}.\n")]);
    assert_ne!(code, 0);
    assert!(out.contains("malformed version"), "stdout: {out}");
}

#[test]
fn validate_slug_collision_fails() {
    let (code, out, _) = validate_tree(&[
        ("a/My_Dish-v1.cook", ">> title: One\n\nMix @flour{1%g}.\n"),
        ("b/MY-DISH-v1.cook", ">> title: Two\n\nMix @sugar{1%g}.\n"),
    ]);
    assert_ne!(code, 0);
    assert!(out.contains("slug `my-dish`"), "stdout: {out}");
}

#[test]
fn validate_warns_about_conflict_copies_and_missing_titles() {
    let (code, out, err) = validate_tree(&[
        ("foo-v1 (conflicted copy 2024-04-01).cook", ">> title: Foo\n"),
        ("bar.cook", "Mix @flour{1%g}.\n"),
    ]);
    assert_eq!(code, 0, "stdout: {out}");
    assert!(err.contains("ignored sync-conflict file"), "stderr: {err}");
    assert!(err.contains("WARN  /tmp/tree/bar.cook: missing >> title:"), "stderr: {err}");
    assert!(out.contains("OK    /tmp/tree/bar.cook"), "stdout: {out}");
}

#[test]
fn validate_walk_error_fails() {
    let mut v = Validation::new();
    v.walk_error("permission denied");
    v.finish();
    assert_eq!(v.exit_code(), 1);
    assert_eq!(v.lines[0].text, "FAIL  walk: permission denied");
    assert!(v.lines[0].to_stderr);
}

#[test]
fn validate_read_error_fails() {
    let mut v = Validation::new();
    let meta = v.entry(ROOT, "/tmp/tree/foo.cook").unwrap();
    v.loaded(meta, Err("permission denied".to_string()));
    v.finish();
    assert_eq!(v.exit_code(), 1);
    assert!(v.lines[0].text.starts_with("FAIL  /tmp/tree/foo.cook: "), "{}", v.lines[0].text);
}

#[test]
fn validate_single_file_reports_ok() {
    let (lines, failed) = validate_single_file("/tmp/garlic-bread.cook", Ok(GARLIC_BREAD.to_string()));
    assert!(!failed);
    assert!(lines.iter().any(|l| l.text == "OK    /tmp/garlic-bread.cook" && !l.to_stderr));
}

#[test]
fn validate_single_file_rejects_other_extensions() {
    let line = single_file_check("/tmp/notes.txt").expect("rejected");
    assert!(line.to_stderr);
    assert_eq!(line.text, "error: not a .cook file: /tmp/notes.txt");
    assert!(single_file_check("/tmp/garlic-bread.cook").is_none());
}

#[test]
fn validate_single_file_reports_parse_failure() {
    let (lines, failed) = validate_single_file("/tmp/a.cook", Err("No such file or directory".to_string()));
    assert!(failed);
    assert!(lines[0].text.starts_with("FAIL  /tmp/a.cook: "), "{}", lines[0].text);
    assert!(lines[0].text.contains("No such file or directory"), "{}", lines[0].text);
}

#[test]
fn validate_non_metric_unit_fails() {
    let (code, out, _) = validate_tree(&[("x.cook", ">> title: X\n\nMix @flour{1%tsp}.\n")]);
    assert_eq!(code, 1);
    assert!(
        out.contains("FAIL  /tmp/tree/x.cook: flour: unknown unit `tsp`"),
        "stdout: {out}"
    );
    assert!(!out.contains("OK    /tmp/tree/x.cook"), "stdout: {out}");
}

#[test]
fn validate_metric_units_in_any_case_pass() {
    let (code, out, _) = validate_tree(&[(
        "x.cook",
        ">> title: X\n\nMix @flour{1%KG} with @milk{2% dl } and @eggs{2%pcs} and @salt{}.\n",
    )]);
    assert_eq!(code, 0, "stdout: {out}");
    assert!(out.contains("OK    /tmp/tree/x.cook"), "stdout: {out}");
}

#[test]
fn validate_zero_servings_fails() {
    let (code, out, _) = validate_tree(&[("x.cook", ">> title: X\n>> servings: 0\n\nMix @flour{1%g}.\n")]);
    assert_eq!(code, 1);
    assert!(out.contains("FAIL  /tmp/tree/x.cook: servings must be a positive integer"), "stdout: {out}");
}

#[test]
fn validate_single_file_non_metric_unit_fails() {
    let (lines, failed) = validate_single_file("/tmp/x.cook", Ok(">> title: X\n\nMix @flour{2%cup}.\n".to_string()));
    assert!(failed);
    assert!(lines.iter().any(|l| l.text.starts_with("FAIL  /tmp/x.cook: flour: unknown unit `cup`")));
    assert!(!lines.iter().any(|l| l.text.starts_with("OK")));
}

#[test]
fn validate_warns_when_an_old_version_lacks_a_changelog() {
    let (code, out, err) = validate_tree(&[
        ("foo-v1.cook", ">> title: Foo\n\nMix @flour{1%g}.\n"),
        ("foo-v2.cook", ">> title: Foo\n>> changelog: More flour.\n\nMix @flour{2%g}.\n"),
    ]);
    assert_eq!(code, 0, "stdout: {out}");
    assert!(err.contains("WARN  /tmp/tree/foo-v1.cook: missing >> changelog:"), "stderr: {err}");
    assert!(!err.contains("foo-v2.cook: missing >> changelog:"), "stderr: {err}");
}

#[test]
fn validate_warns_on_dimensions_that_differ_across_versions() {
    let (code, out, err) = validate_tree(&[
        ("foo-v1.cook", ">> title: Foo\n>> changelog: First.\n\nAdd @milk{200%ml}.\n"),
        ("foo-v2.cook", ">> title: Foo\n>> changelog: Weighed.\n\nAdd @Milk{210%g}.\n"),
        ("bar.cook", ">> title: Bar\n\nAdd @milk{1%kg}.\n"),
    ]);
    assert_eq!(code, 0, "stdout: {out}");
    assert!(err.contains("WARN  /tmp/tree/foo-v1.cook: ingredient dimensions differ across versions"), "stderr: {err}");
    assert!(err.contains("WARN  /tmp/tree/foo-v2.cook: ingredient dimensions differ across versions"), "stderr: {err}");
    assert!(!err.contains("bar.cook: ingredient dimensions"), "stderr: {err}");
}
