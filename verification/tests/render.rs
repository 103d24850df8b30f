use recipes::server::render::{esc, format_datetime, not_found, page, Layout};

#[test]
fn escapes_html_meta() {
    assert_eq!(
        esc(r#"<script>alert("x" & 'y')</script>"#),
        "&lt;script&gt;alert(&quot;x&quot; &amp; &#39;y&#39;)&lt;/script&gt;"
    );
}

#[test]
fn url_root_and_subpath() {
    let root = Layout {
        base_path: "/",
        title: "x",
    };
    assert_eq!(root.url("/"), "/");
    assert_eq!(root.url("/static/x.css"), "/static/x.css");

    let sub = Layout {
        base_path: "/recipes",
        title: "x",
    };
    assert_eq!(sub.url("/"), "/recipes/");
    assert_eq!(sub.url("/static/x.css"), "/recipes/static/x.css");
}

#[test]
fn url_relative_suffix_gets_separator() {
    let sub = Layout { base_path: "/recipes//", title: "x" };
    assert_eq!(sub.url("r/a"), "/recipes/r/a");
}

#[test]
fn formats_unix_epoch() {
    assert_eq!(format_datetime(0), "1970-01-01 00:00");
    assert_eq!(format_datetime(86_400), "1970-01-02 00:00");
    let dt = format_datetime(1_777_750_200);
    assert!(dt.starts_with("2026-05-02"), "got {dt}");
}

#[test]
fn formats_leap_day_and_negative() {
    assert_eq!(format_datetime(951_782_400), "2000-02-29 00:00");
    assert_eq!(format_datetime(-5), "1970-01-01 00:00");
    assert_eq!(format_datetime(1_777_750_200), "2026-05-02 19:30");
}

#[test]
fn page_wraps_body_and_escapes_title() {
    let l = Layout { base_path: "/recipes", title: "A & B" };
    let html = page(l, "<p>hi</p>");
    assert!(html.starts_with("<!doctype html>"));
    assert!(html.contains("<title>A &amp; B</title>"));
    assert!(html.contains("href=\"/recipes/static/style.css\""));
    assert!(html.contains("<main>\n<p>hi</p>\n</main>"));
    assert!(html.contains("<script src=\"/recipes/static/app.js\" defer></script>"));
}

#[test]
fn not_found_page_mentions_what() {
    let l = Layout { base_path: "/", title: "Not found" };
    let html = not_found(l, "No recipe <x>");
    assert!(html.contains("<h1>Not found</h1><p class=\"muted\">No recipe &lt;x&gt;</p>"));
}
