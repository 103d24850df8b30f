//! Server-rendered HTML pages.

use crate::text::{chars_of, dec, owned, push_dec, push_dec_padded, push_str, trim_end_char, trim_end_char_len, push_range, zero_pad, holds_at};
pub use super::pages::{diff_page, history_page, list_page, recipe_view, shopping_page};
use vstd::prelude::*;

verus! {

/// The HTML escape of one character.
pub open spec fn esc_char(c: char) -> Seq<char> {
    if c == '&' {
        "&amp;"@
    } else if c == '<' {
        "&lt;"@
    } else if c == '>' {
        "&gt;"@
    } else if c == '"' {
        "&quot;"@
    } else if c == '\'' {
        "&#39;"@
    } else {
        seq![c]
    }
}

/// HTML escape: `& < > " '` replaced by entities, every other character kept.
pub open spec fn esc_spec(s: Seq<char>) -> Seq<char>
    decreases s.len(),
{
    if s.len() == 0 {
        Seq::<char>::empty()
    } else {
        esc_spec(s.drop_last()) + esc_char(s.last())
    }
}

/// Append the escape of one character.
pub fn push_esc_char(out: &mut String, c: char)
    ensures
        final(out)@ == old(out)@ + esc_char(c),
{
    if c == '&' {
        push_str(out, "&amp;");
    } else if c == '<' {
        push_str(out, "&lt;");
    } else if c == '>' {
        push_str(out, "&gt;");
    } else if c == '"' {
        push_str(out, "&quot;");
    } else if c == '\'' {
        push_str(out, "&#39;");
    } else {
        out.push(c);
        assert(final(out)@ =~= old(out)@ + seq![c]);
    }
}

/// Append the escape of `cs[lo..hi]`.
pub fn push_esc_range(out: &mut String, cs: &Vec<char>, lo: usize, hi: usize)
    requires
        lo <= hi <= cs@.len(),
    ensures
        final(out)@ == old(out)@ + esc_spec(cs@.subrange(lo as int, hi as int)),
{
    let mut i = lo;
    assert(cs@.subrange(lo as int, lo as int) =~= Seq::<char>::empty());
    while i < hi
        invariant
            lo <= i <= hi <= cs@.len(),
            out@ == old(out)@ + esc_spec(cs@.subrange(lo as int, i as int)),
        decreases hi - i,
    {
        let ghost pre = cs@.subrange(lo as int, i + 1);
        assert(pre.drop_last() =~= cs@.subrange(lo as int, i as int));
        push_esc_char(out, cs[i]);
        assert(out@ =~= old(out)@ + esc_spec(pre));
        i = i + 1;
    }
}

/// Append the escape of `s`.
pub fn push_esc(out: &mut String, s: &str)
    ensures
        final(out)@ == old(out)@ + esc_spec(s@),
{
    let cs = chars_of(s);
    push_esc_range(out, &cs, 0, cs.len());
    assert(cs@.subrange(0, cs@.len() as int) =~= s@);
}

/// HTML-escape `s`.
pub fn esc(s: &str) -> (r: String)
    ensures
        r@ == esc_spec(s@),
{
    let mut out = String::new();
    push_esc(&mut out, s);
    out
}

/// Escaping distributes over concatenation.
pub proof fn lemma_esc_concat(a: Seq<char>, b: Seq<char>)
    ensures
        esc_spec(a + b) == esc_spec(a) + esc_spec(b),
    decreases b.len(),
{
    if b.len() == 0 {
        assert(a + b =~= a);
    } else {
        lemma_esc_concat(a, b.drop_last());
        assert((a + b).drop_last() =~= a + b.drop_last());
        assert((a + b).last() == b.last());
    }
}

/// Text without `& < > " '` is left as it is by escaping.
pub proof fn lemma_esc_plain(s: Seq<char>)
    requires
        forall|i: int|
            0 <= i < s.len() ==> {
                let c = #[trigger] s[i];
                c != '&' && c != '<' && c != '>' && c != '"' && c != '\''
            },
    ensures
        esc_spec(s) == s,
    decreases s.len(),
{
    if s.len() > 0 {
        let t = s.drop_last();
        assert forall|i: int| 0 <= i < t.len() implies {
            let c = #[trigger] t[i];
            c != '&' && c != '<' && c != '>' && c != '"' && c != '\''
        } by {
            assert(t[i] == s[i]);
        }
        lemma_esc_plain(t);
        let c = s[s.len() - 1];
        assert(c != '&' && c != '<' && c != '>' && c != '"' && c != '\'');
        assert(esc_char(c) == seq![c]);
        assert(t + seq![c] =~= s);
    }
}

/// Escaped text holds no raw `<`, `>`, `"` or `'`: it cannot open or close a tag
/// or an attribute.
pub proof fn lemma_esc_no_markup(s: Seq<char>)
    ensures
        forall|i: int|
            0 <= i < esc_spec(s).len() ==> {
                let c = #[trigger] esc_spec(s)[i];
                c != '<' && c != '>' && c != '"' && c != '\''
            },
    decreases s.len(),
{
    reveal_strlit("&amp;");
    reveal_strlit("&lt;");
    reveal_strlit("&gt;");
    reveal_strlit("&quot;");
    reveal_strlit("&#39;");
    if s.len() > 0 {
        lemma_esc_no_markup(s.drop_last());
        let a = esc_spec(s.drop_last());
        let b = esc_char(s.last());
        assert forall|i: int| 0 <= i < esc_spec(s).len() implies {
            let c = #[trigger] esc_spec(s)[i];
            c != '<' && c != '>' && c != '"' && c != '\''
        } by {
            if i < a.len() {
                assert(esc_spec(s)[i] == a[i]);
            } else {
                assert(esc_spec(s)[i] == b[i - a.len()]);
            }
        };
    }
}

/// Page layout context: the base path the app is mounted under and the page title.
#[derive(Clone, Copy)]
pub struct Layout<'a> {
    pub base_path: &'a str,
    pub title: &'a str,
}

/// `Layout::url`: the base path without trailing `/`, then `suffix`, with
/// a `/` between them unless `suffix` starts with one.
pub open spec fn url_spec(base_path: Seq<char>, suffix: Seq<char>) -> Seq<char> {
    let bp = trim_end_char(base_path, '/');
    if suffix.len() > 0 && suffix[0] == '/' {
        bp + suffix
    } else {
        bp + seq!['/'] + suffix
    }
}

impl<'a> Layout<'a> {
    /// An absolute URL path under the base path.
    pub fn url(&self, suffix: &str) -> (r: String)
        ensures
            r@ == url_spec(self.base_path@, suffix@),
    {
        let bp = chars_of(self.base_path);
        let n = trim_end_char_len(&bp, '/');
        let mut out = String::new();
        push_range(&mut out, &bp, 0, n);
        let sc = chars_of(suffix);
        if !(sc.len() > 0 && sc[0] == '/') {
            out.push('/');
        }
        push_str(&mut out, suffix);
        out
    }
}

/// The full HTML document around `body`.
pub open spec fn page_spec(base_path: Seq<char>, title: Seq<char>, body: Seq<char>) -> Seq<char> {
    "<!doctype html>\n<html lang=\"en\">\n<head>\n<meta charset=\"utf-8\">\n<meta name=\"viewport\" content=\"width=device-width,initial-scale=1\">\n<title>"@
        + esc_spec(title) + "</title>\n<link rel=\"stylesheet\" href=\""@
        + url_spec(base_path, "/static/style.css"@)
        + "\">\n</head>\n<body>\n<header class=\"app\">\n  <a href=\""@
        + url_spec(base_path, "/"@) + "\">Recipes</a>\n  <span class=\"muted\">"@
        + esc_spec(title) + "</span>\n</header>\n<main>\n"@ + body
        + "\n</main>\n<footer class=\"app\">\n  Served by <a href=\"https://github.com/justinabrahms/recipe-server\" rel=\"noopener\">recipe-server</a> by <a href=\"https://justin.abrah.ms\" rel=\"noopener\">Justin Abrahms</a>.\n</footer>\n<script src=\""@
        + url_spec(base_path, "/static/app.js"@) + "\" defer></script>\n</body>\n</html>\n"@
}

/// The layout before the body: head, site header and the opening of `main`.
pub open spec fn page_head(base_path: Seq<char>, title: Seq<char>) -> Seq<char> {
    "<!doctype html>\n<html lang=\"en\">\n<head>\n<meta charset=\"utf-8\">\n<meta name=\"viewport\" content=\"width=device-width,initial-scale=1\">\n<title>"@
        + esc_spec(title) + "</title>\n<link rel=\"stylesheet\" href=\""@
        + url_spec(base_path, "/static/style.css"@)
        + "\">\n</head>\n<body>\n<header class=\"app\">\n  <a href=\""@
        + url_spec(base_path, "/"@) + "\">Recipes</a>\n  <span class=\"muted\">"@
        + esc_spec(title) + "</span>\n</header>\n<main>\n"@
}

/// The layout after the body: footer and script.
pub open spec fn page_tail(base_path: Seq<char>) -> Seq<char> {
    "\n</main>\n<footer class=\"app\">\n  Served by <a href=\"https://github.com/justinabrahms/recipe-server\" rel=\"noopener\">recipe-server</a> by <a href=\"https://justin.abrah.ms\" rel=\"noopener\">Justin Abrahms</a>.\n</footer>\n<script src=\""@
        + url_spec(base_path, "/static/app.js"@) + "\" defer></script>\n</body>\n</html>\n"@
}

/// Every page is the layout's head, the body unchanged, and the layout's
/// tail; the body stands right after the head.
pub proof fn lemma_page_parts(base_path: Seq<char>, title: Seq<char>, body: Seq<char>)
    ensures
        page_spec(base_path, title, body) == page_head(base_path, title) + body + page_tail(base_path),
        holds_at(page_spec(base_path, title, body), body, page_head(base_path, title).len() as int),
{
    let h = page_head(base_path, title);
    let t = page_tail(base_path);
    assert(page_spec(base_path, title, body) =~= h + body + t);
    assert((h + body + t).subrange(h.len() as int, h.len() + body.len() as int) =~= body);
}

/// Wrap `body` in the site layout.
pub fn page(layout: Layout, body: &str) -> (r: String)
    ensures
        r@ == page_spec(layout.base_path@, layout.title@, body@),
{
    let mut out = String::new();
    push_str(&mut out, "<!doctype html>\n<html lang=\"en\">\n<head>\n<meta charset=\"utf-8\">\n<meta name=\"viewport\" content=\"width=device-width,initial-scale=1\">\n<title>");
    push_esc(&mut out, layout.title);
    push_str(&mut out, "</title>\n<link rel=\"stylesheet\" href=\"");
    let css = layout.url("/static/style.css");
    push_str(&mut out, css.as_str());
    push_str(&mut out, "\">\n</head>\n<body>\n<header class=\"app\">\n  <a href=\"");
    let home = layout.url("/");
    push_str(&mut out, home.as_str());
    push_str(&mut out, "\">Recipes</a>\n  <span class=\"muted\">");
    push_esc(&mut out, layout.title);
    push_str(&mut out, "</span>\n</header>\n<main>\n");
    push_str(&mut out, body);
    push_str(&mut out, "\n</main>\n<footer class=\"app\">\n  Served by <a href=\"https://github.com/justinabrahms/recipe-server\" rel=\"noopener\">recipe-server</a> by <a href=\"https://justin.abrah.ms\" rel=\"noopener\">Justin Abrahms</a>.\n</footer>\n<script src=\"");
    let js = layout.url("/static/app.js");
    push_str(&mut out, js.as_str());
    push_str(&mut out, "\" defer></script>\n</body>\n</html>\n");
    assert(out@ =~= page_spec(layout.base_path@, layout.title@, body@));
    out
}

/// Body of the not-found page.
pub open spec fn not_found_body(base_path: Seq<char>, what: Seq<char>) -> Seq<char> {
    "<h1>Not found</h1><p class=\"muted\">"@ + esc_spec(what) + "</p><p><a href=\""@
        + esc_spec(url_spec(base_path, "/"@)) + "\">← Home</a></p>"@
}

/// The not-found page explaining `what` is missing.
pub fn not_found(layout: Layout, what: &str) -> (r: String)
    ensures
        r@ == page_spec(layout.base_path@, layout.title@, not_found_body(layout.base_path@, what@)),
{
    let mut body = String::new();
    push_str(&mut body, "<h1>Not found</h1><p class=\"muted\">");
    push_esc(&mut body, what);
    push_str(&mut body, "</p><p><a href=\"");
    let home = layout.url("/");
    push_esc(&mut body, home.as_str());
    push_str(&mut body, "\">← Home</a></p>");
    assert(body@ =~= not_found_body(layout.base_path@, what@));
    page(layout, body.as_str())
}

/// Days since 1970-01-01 to a civil `(year, month, day)`, by Howard Hinnant's
/// `civil_from_days` for non-negative day counts; also returns the era and
/// year-of-era the year is built from.
pub open spec fn civil_parts(days: int) -> (int, int, int, int, int) {
    let z = days + 719_468;
    let era = z / 146_097;
    let doe = z - era * 146_097;
    let yoe = (doe - doe / 1460 + doe / 36524 - doe / 146_096) / 365;
    let doy = doe - (365 * yoe + yoe / 4 - yoe / 100);
    let mp = (5 * doy + 2) / 153;
    let d = doy - (153 * mp + 2) / 5 + 1;
    let m = if mp < 10 { mp + 3 } else { mp - 9 };
    let y = yoe + era * 400 + (if m <= 2 { 1int } else { 0int });
    (y, m, d, era, yoe)
}

/// The civil date of a non-negative day count.
pub open spec fn civil_from_days(days: int) -> (int, int, int) {
    let p = civil_parts(days);
    (p.0, p.1, p.2)
}

/// Whether the year of `days` is computed without leaving the `i32` range.
pub open spec fn civil_year_fits(days: int) -> bool {
    let p = civil_parts(days);
    p.3 * 400 + p.4 + 1 <= i32::MAX
}

/// `YYYY-MM-DD HH:MM` (UTC) of a unix timestamp; negative timestamps read as 0.
pub open spec fn datetime_text(secs: int) -> Seq<char> {
    let s = if secs < 0 { 0 } else { secs };
    let days = s / 86_400;
    let rem = s % 86_400;
    let ymd = civil_from_days(days);
    zero_pad(dec(ymd.0 as nat), 4) + seq!['-'] + zero_pad(dec(ymd.1 as nat), 2) + seq!['-']
        + zero_pad(dec(ymd.2 as nat), 2) + seq![' '] + zero_pad(dec((rem / 3600) as nat), 2)
        + seq![':'] + zero_pad(dec(((rem % 3600) / 60) as nat), 2)
}

/// Civil date of a non-negative day count.
fn days_to_ymd(days_since_epoch: i64) -> (r: (i32, u32, u32))
    requires
        0 <= days_since_epoch,
        days_since_epoch <= i64::MAX / 86_400,
        civil_year_fits(days_since_epoch as int),
    ensures
        r.0 as int == civil_from_days(days_since_epoch as int).0,
        r.1 as int == civil_from_days(days_since_epoch as int).1,
        r.2 as int == civil_from_days(days_since_epoch as int).2,
        1 <= r.1 <= 12,
        1 <= r.2 <= 31,
        r.0 >= 1970,
{
    let z = days_since_epoch + 719_468;
    let era = z / 146_097;
    let doe = (z - era * 146_097) as u64;
    assert(0 <= doe < 146_097) by (nonlinear_arith)
        requires
            z >= 0,
            era == z / 146_097,
            doe == z - era * 146_097,
    ;
    let yoe = (doe - doe / 1460 + doe / 36524 - doe / 146_096) / 365;
    assert(yoe <= 399);
    let doy = doe - (365 * yoe + yoe / 4 - yoe / 100);
    assert(doy <= 365);
    let mp = (5 * doy + 2) / 153;
    let d = (doy - (153 * mp + 2) / 5 + 1) as u32;
    let m = if mp < 10 {
        mp + 3
    } else {
        mp - 9
    } as u32;
    assert(era >= 4) by (nonlinear_arith)
        requires
            z >= 719_468,
            era == z / 146_097,
    ;
    let y = yoe as i32 + era as i32 * 400;
    let y = if m <= 2 {
        y + 1
    } else {
        y
    };
    (y, m, d)
}

/// Format a unix timestamp as `YYYY-MM-DD HH:MM` (UTC).
pub fn format_datetime(secs: i64) -> (r: String)
    requires
        civil_year_fits((if secs < 0 { 0 } else { secs as int }) / 86_400),
    ensures
        r@ == datetime_text(secs as int),
{
    let secs = if secs < 0 {
        0
    } else {
        secs
    };
    let days = secs / 86_400;
    let rem = secs % 86_400;
    let hours = rem / 3600;
    let minutes = (rem % 3600) / 60;
    let (y, m, d) = days_to_ymd(days);
    let mut out = String::new();
    push_dec_padded(&mut out, y as u128, 4);
    out.push('-');
    push_dec_padded(&mut out, m as u128, 2);
    out.push('-');
    push_dec_padded(&mut out, d as u128, 2);
    out.push(' ');
    push_dec_padded(&mut out, hours as u128, 2);
    out.push(':');
    push_dec_padded(&mut out, minutes as u128, 2);
    assert(out@ =~= datetime_text(secs as int));
    out
}

} // verus!
