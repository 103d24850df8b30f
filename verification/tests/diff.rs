use recipes::diff::{highlight_line, render_html, unified_diff, LineKind};

#[test]
fn highlights_metadata_line() {
    let h = highlight_line(">> title: Carbonara");
    assert!(h.contains(r#"class="meta-line""#));
}

#[test]
fn highlights_braced_ingredient() {
    let h = highlight_line("Mix @flour{200%g} into bowl.");
    assert!(h.contains(r#"class="tk-ing""#));
    assert!(h.contains("@flour{200%g}"));
}

#[test]
fn highlights_cookware_and_timer() {
    let h = highlight_line("Heat #pan{} for ~{30%seconds}.");
    assert!(h.contains(r#"class="tk-cook""#));
    assert!(h.contains(r#"class="tk-timer""#));
}

#[test]
fn does_not_consume_lone_sigil() {
    let h = highlight_line("Mix @ rest");
    // `@ ` should be escaped as `@` rather than treated as a token.
    assert!(!h.contains("class=\"tk-"), "got: {h}");
    assert_eq!(h, "Mix @ rest");
}

#[test]
fn highlight_exact_output() {
    assert_eq!(
        highlight_line("Add @salt, then <stir>."),
        "Add <span class=\"tk-ing\">@salt</span>, then &lt;stir&gt;."
    );
    assert_eq!(
        highlight_line("@onion{1}(diced) x"),
        "<span class=\"tk-ing\">@onion{1}(diced)</span> x"
    );
    assert_eq!(highlight_line("--- a"), "<span class=\"meta-line\">--- a</span>");
    assert_eq!(highlight_line(""), "");
}

#[test]
fn detects_added_and_removed_lines() {
    let lines = unified_diff("a\nb\nc\n", "a\nbb\nc\n");
    let kinds: Vec<_> = lines.iter().map(|l| l.kind).collect();
    assert!(kinds.contains(&LineKind::Removed));
    assert!(kinds.contains(&LineKind::Added));
}

#[test]
fn diff_marks_changed_lines() {
    let old = ">> title: A\n\nMix @flour{200%g}.\n";
    let new = ">> title: A\n\nMix @flour{180%g}.\n";
    let lines = unified_diff(old, new);
    assert!(lines.iter().any(|l| l.kind == LineKind::Removed));
    assert!(lines.iter().any(|l| l.kind == LineKind::Added));
}

#[test]
fn diff_html_highlights_ingredient_token() {
    let lines = unified_diff(">> title: A\n", ">> title: A\nMix @flour{180%g}.\n");
    let html = render_html(&lines);
    assert!(html.contains("class=\"diff\""));
    assert!(html.contains("class=\"tk-ing\""));
    assert!(html.contains("@flour{180%g}"));
}

#[test]
fn diff_line_numbers_are_one_based() {
    let lines = unified_diff("a\nb\n", "a\nc\n");
    assert_eq!(lines[0].old_lineno, Some(1));
    assert_eq!(lines[0].new_lineno, Some(1));
    assert_eq!(lines[0].html, "a");
    let html = render_html(&lines[..1]);
    assert_eq!(
        html,
        "<div class=\"diff\">\n<div class=\"diff-line eq\"><span class=\"ln old\">1</span><span class=\"ln new\">1</span><span class=\"sigil\"> </span><span class=\"src\">a</span></div>\n</div>\n"
    );
}

fn strip_tags(s: &str) -> String {
    let mut out = String::new();
    let mut in_tag = false;
    for c in s.chars() {
        if in_tag {
            if c == '>' {
                in_tag = false;
            }
        } else if c == '<' {
            in_tag = true;
        } else {
            out.push(c);
        }
    }
    out
}

fn unescape(s: &str) -> String {
    s.replace("&lt;", "<")
        .replace("&gt;", ">")
        .replace("&quot;", "\"")
        .replace("&#39;", "'")
        .replace("&amp;", "&")
}

#[test]
fn highlighting_keeps_every_character() {
    for line in [
        ">> title: A & B <c>",
        "--- \"front\" 'matter'",
        "Add @egg yolks{4%pc}(beaten) & #pan{} for ~{5%min}, then @salt.",
        "lone @ sign, a # and ~ too; 1 < 2 > 0",
        "",
    ] {
        assert_eq!(unescape(&strip_tags(&highlight_line(line))), line, "{line}");
    }
}
