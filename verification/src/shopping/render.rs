//! Shopping lists as plain text (for pasting into a notes app) or HTML.

use super::{LineItem, LineItemView, ResolutionErrorView, ShoppingList, ShoppingListView, SourceRef, SourceRefView};
use crate::index::scan::version_text;
use crate::recipe::parse::{join_messages, join_texts};
use crate::recipe::views;
use crate::server::render::{esc_spec, push_esc};
use crate::text::{chars_of, dec, lower_ascii_seq, push_dec, push_range, push_str, str_eq, to_ascii_lowercase, trim, trim_end_char, trim_end_char_len, trimmed};
use vstd::prelude::*;

verus! {

/// Output format of a shopping list.
#[derive(Debug, Clone, Copy, PartialEq, Eq, Structural)]
pub enum Format {
    Text,
    Html,
}

/// Optional context for links back to the server.
#[derive(Debug, Clone, Default)]
pub struct RenderOpts<'a> {
    /// Absolute URL prefix for recipe links; the renderer appends `/r/<slug>`
    /// (trailing slashes of the prefix dropped). `None`: no recipe URLs.
    pub recipe_link_base: Option<&'a str>,
}

/// `Format::parse`: trimmed and ASCII-lowercased, `text`, `txt` or `plain`
/// is text and `html` is HTML.
pub open spec fn format_parse_spec(s: Seq<char>) -> Option<Format> {
    let t = lower_ascii_seq(trim(s));
    if t == "text"@ || t == "txt"@ || t == "plain"@ {
        Some(Format::Text)
    } else if t == "html"@ {
        Some(Format::Html)
    } else {
        None
    }
}

impl Format {
    /// The format named by `s`, if any.
    pub fn parse(s: &str) -> (r: Option<Format>)
        ensures
            r == format_parse_spec(s@),
    {
        let t = to_ascii_lowercase(trimmed(s).as_str());
        if str_eq(t.as_str(), "text") || str_eq(t.as_str(), "txt") || str_eq(t.as_str(), "plain") {
            Some(Format::Text)
        } else if str_eq(t.as_str(), "html") {
            Some(Format::Html)
        } else {
            None
        }
    }

    /// The HTTP content type of the format.
    pub fn content_type(self) -> (r: &'static str)
        ensures
            r@ == match self {
                Format::Text => "text/plain; charset=utf-8"@,
                Format::Html => "text/html; charset=utf-8"@,
            },
    {
        match self {
            Format::Text => "text/plain; charset=utf-8",
            Format::Html => "text/html; charset=utf-8",
        }
    }
}

/// The section label of a line: its category, or `Other`.
pub open spec fn label_of(it: LineItemView) -> Seq<char> {
    match it.category {
        Some(c) => c,
        None => "Other"@,
    }
}

/// Some line has a category.
pub open spec fn any_categorised(items: Seq<LineItemView>) -> bool {
    exists|k: int| 0 <= k < items.len() && (#[trigger] items[k]).category is Some
}

/// A section heading goes before line `k`: lines are categorised and `k`
/// starts a new label.
pub open spec fn heading_at(items: Seq<LineItemView>, k: int, any: bool) -> bool {
    any && (k == 0 || label_of(items[k]) != label_of(items[k - 1]))
}

/// ` (note; note)`, or nothing without notes.
pub open spec fn notes_suffix(notes: Seq<Seq<char>>) -> Seq<char> {
    if notes.len() == 0 {
        Seq::<char>::empty()
    } else {
        " ("@ + join_texts(notes, "; "@) + ")"@
    }
}

/// The heading before line `k` when it starts a section (after a blank line
/// unless first).
pub open spec fn text_heading(items: Seq<LineItemView>, k: int, any: bool) -> Seq<char> {
    if heading_at(items, k, any) {
        (if k > 0 {
            "\n"@
        } else {
            Seq::<char>::empty()
        }) + "# "@ + label_of(items[k]) + "\n"@
    } else {
        Seq::<char>::empty()
    }
}

/// ` ⚠` for a line with a warning.
pub open spec fn warn_mark(it: LineItemView) -> Seq<char> {
    if it.warning is Some {
        " ⚠"@
    } else {
        Seq::<char>::empty()
    }
}

/// A line as text: `<amount> <name>( notes)( ⚠)`.
pub open spec fn text_line(it: LineItemView) -> Seq<char> {
    it.display + " "@ + it.display_name + notes_suffix(it.notes) + warn_mark(it) + "\n"@
}

/// The warning mark in the text rendering: a line with a warning is the
/// same line without one, with ` ⚠` right before its newline. So a line with
/// a warning ends in ` ⚠` and a newline, and one without ends in its name
/// or notes and a newline, without the mark.
pub proof fn lemma_text_warning_mark(it: LineItemView, w: Seq<char>)
    ensures
        text_line(LineItemView { warning: Some(w), ..it }) == text_line(LineItemView { warning: None, ..it }).drop_last()
            + " ⚠\n"@,
        text_line(LineItemView { warning: None, ..it }) == it.display + " "@ + it.display_name + notes_suffix(it.notes)
            + "\n"@,
{
    reveal_strlit(" ⚠\n");
    reveal_strlit(" ⚠");
    reveal_strlit("\n");
    let base = it.display + " "@ + it.display_name + notes_suffix(it.notes);
    assert(text_line(LineItemView { warning: None, ..it }) =~= base + "\n"@);
    assert((base + "\n"@).drop_last() =~= base);
    assert(text_line(LineItemView { warning: Some(w), ..it }) =~= base + " ⚠\n"@);
}

/// Line `k` as text, with its heading.
pub open spec fn text_item(items: Seq<LineItemView>, k: int, any: bool) -> Seq<char> {
    text_heading(items, k, any) + text_line(items[k])
}

/// The first `n` lines as text.
pub open spec fn text_items(items: Seq<LineItemView>, n: int, any: bool) -> Seq<char>
    decreases n,
{
    if n <= 0 {
        Seq::<char>::empty()
    } else {
        text_items(items, n - 1, any) + text_item(items, n - 1, any)
    }
}

/// A footer line: title, version, servings and, with a link base, the URL.
pub open spec fn source_text(s: SourceRefView, base: Option<Seq<char>>) -> Seq<char> {
    s.title + " "@ + version_text(s.version) + " (×"@ + dec(s.servings as nat) + " servings)"@ + match base {
        Some(b) => " — "@ + trim_end_char(b, '/') + "/r/"@ + s.slug,
        None => Seq::<char>::empty(),
    } + "\n"@
}

/// The first `n` footer lines.
pub open spec fn text_sources(ss: Seq<SourceRefView>, n: int, base: Option<Seq<char>>) -> Seq<char>
    decreases n,
{
    if n <= 0 {
        Seq::<char>::empty()
    } else {
        text_sources(ss, n - 1, base) + source_text(ss[n - 1], base)
    }
}

/// Plain text: `(empty)` for no lines; else one line per item (with
/// `# <label>` section headings when categorised), then a blank line and a
/// `From:` footer when there are sources.
pub open spec fn render_text_spec(list: ShoppingListView, base: Option<Seq<char>>) -> Seq<char> {
    if list.items.len() == 0 {
        "(empty)\n"@
    } else {
        text_items(list.items, list.items.len() as int, any_categorised(list.items)) + if list.sources.len()
            == 0 {
            Seq::<char>::empty()
        } else {
            "\n"@ + "From:\n"@ + text_sources(list.sources, list.sources.len() as int, base)
        }
    }
}

/// The list and section markup before line `k`.
pub open spec fn html_heading(items: Seq<LineItemView>, k: int, any: bool) -> Seq<char> {
    let h = heading_at(items, k, any);
    (if h && k > 0 {
        "</ul>\n"@
    } else {
        Seq::<char>::empty()
    }) + (if h {
        "<h3 class=\"aisle\">"@ + esc_spec(label_of(items[k])) + "</h3>\n"@
    } else {
        Seq::<char>::empty()
    }) + (if h || k == 0 {
        "<ul class=\"shopping\">\n"@
    } else {
        Seq::<char>::empty()
    })
}

/// The notes of a line in HTML.
pub open spec fn html_notes(notes: Seq<Seq<char>>) -> Seq<char> {
    if notes.len() == 0 {
        Seq::<char>::empty()
    } else {
        " <span class=\"muted\">("@ + esc_spec(join_texts(notes, "; "@)) + ")</span>"@
    }
}

/// The warning of a line in HTML.
pub open spec fn html_warn(w: Option<Seq<char>>) -> Seq<char> {
    match w {
        Some(w) => " <span class=\"warn\" title=\""@ + esc_spec(w) + "\">⚠</span>"@,
        None => Seq::<char>::empty(),
    }
}

/// A line as an HTML list item with a checkbox.
pub open spec fn html_line(it: LineItemView) -> Seq<char> {
    "<li><label><input type=\"checkbox\"> <strong>"@ + esc_spec(it.display) + "</strong> "@
        + esc_spec(it.display_name) + html_notes(it.notes) + html_warn(it.warning) + "</label></li>\n"@
}

/// Line `k` in HTML, with the markup before it.
pub open spec fn html_item(items: Seq<LineItemView>, k: int, any: bool) -> Seq<char> {
    html_heading(items, k, any) + html_line(items[k])
}

/// The first `n` lines as HTML.
pub open spec fn html_items(items: Seq<LineItemView>, n: int, any: bool) -> Seq<char>
    decreases n,
{
    if n <= 0 {
        Seq::<char>::empty()
    } else {
        html_items(items, n - 1, any) + html_item(items, n - 1, any)
    }
}

/// A source as an HTML list item, its title linked with a link base.
pub open spec fn html_source(s: SourceRefView, base: Option<Seq<char>>) -> Seq<char> {
    "<li>"@ + match base {
        Some(b) => "<a href=\""@ + esc_spec(trim_end_char(b, '/')) + "/r/"@ + esc_spec(s.slug) + "\">"@
            + esc_spec(s.title) + "</a>"@,
        None => esc_spec(s.title),
    } + " <code>"@ + esc_spec(version_text(s.version)) + "</code> (×"@ + dec(s.servings as nat)
        + " servings)</li>\n"@
}

/// The first `n` sources as HTML.
pub open spec fn html_sources(ss: Seq<SourceRefView>, n: int, base: Option<Seq<char>>) -> Seq<char>
    decreases n,
{
    if n <= 0 {
        Seq::<char>::empty()
    } else {
        html_sources(ss, n - 1, base) + html_source(ss[n - 1], base)
    }
}

/// An error as an HTML list item.
pub open spec fn html_error(e: ResolutionErrorView) -> Seq<char> {
    "<li><code>"@ + esc_spec(e.slug) + "</code>: "@ + esc_spec(e.message) + "</li>\n"@
}

/// The first `n` errors as HTML.
pub open spec fn html_errors(es: Seq<ResolutionErrorView>, n: int) -> Seq<char>
    decreases n,
{
    if n <= 0 {
        Seq::<char>::empty()
    } else {
        html_errors(es, n - 1) + html_error(es[n - 1])
    }
}

/// The lines part of the HTML.
pub open spec fn html_items_part(items: Seq<LineItemView>) -> Seq<char> {
    if items.len() == 0 {
        "<p><em>(empty)</em></p>\n"@
    } else {
        html_items(items, items.len() as int, any_categorised(items)) + "</ul>\n"@
    }
}

/// The sources part of the HTML.
pub open spec fn html_sources_part(ss: Seq<SourceRefView>, base: Option<Seq<char>>) -> Seq<char> {
    if ss.len() == 0 {
        Seq::<char>::empty()
    } else {
        "<h3>From</h3>\n<ul class=\"muted\">\n"@ + html_sources(ss, ss.len() as int, base) + "</ul>\n"@
    }
}

/// The errors part of the HTML.
pub open spec fn html_errors_part(es: Seq<ResolutionErrorView>) -> Seq<char> {
    if es.len() == 0 {
        Seq::<char>::empty()
    } else {
        "<h3>Errors</h3>\n<ul class=\"muted\">\n"@ + html_errors(es, es.len() as int) + "</ul>\n"@
    }
}

/// HTML: a heading, the lines (or `(empty)`), then the sources and the
/// errors, each section only when not empty.
pub open spec fn render_html_spec(list: ShoppingListView, base: Option<Seq<char>>) -> Seq<char> {
    "<h2>Shopping list</h2>\n"@ + html_items_part(list.items) + html_sources_part(list.sources, base)
        + html_errors_part(list.errors)
}

/// The text of an optional link base.
pub open spec fn base_view(b: Option<&str>) -> Option<Seq<char>> {
    match b {
        Some(s) => Some(s@),
        None => None,
    }
}

/// Render with no link base.
pub fn render(list: &ShoppingList, format: Format) -> (r: String)
    ensures
        r@ == match format {
            Format::Text => render_text_spec(list@, None),
            Format::Html => render_html_spec(list@, None),
        },
{
    render_with(list, format, &RenderOpts { recipe_link_base: None })
}

/// Render in `format` with the options' link base.
pub fn render_with(list: &ShoppingList, format: Format, opts: &RenderOpts) -> (r: String)
    ensures
        r@ == match format {
            Format::Text => render_text_spec(list@, base_view(opts.recipe_link_base)),
            Format::Html => render_html_spec(list@, base_view(opts.recipe_link_base)),
        },
{
    match format {
        Format::Text => render_text(list, opts),
        Format::Html => render_html(list, opts),
    }
}

fn any_categorised_exec(items: &Vec<LineItem>) -> (r: bool)
    ensures
        r == any_categorised(views(items@)),
{
    let ghost vs = views(items@);
    let mut k: usize = 0;
    while k < items.len()
        invariant
            k <= items@.len(),
            vs == views(items@),
            forall|j: int| 0 <= j < k ==> (#[trigger] vs[j]).category is None,
        decreases items@.len() - k,
    {
        if items[k].category.is_some() {
            assert(vs[k as int].category is Some);
            return true;
        }
        k = k + 1;
    }
    false
}

fn label_str(it: &LineItem) -> (r: &str)
    ensures
        r@ == label_of(it@),
{
    match &it.category {
        Some(c) => c.as_str(),
        None => "Other",
    }
}

fn heading_exec(items: &Vec<LineItem>, k: usize, any: bool) -> (r: bool)
    requires
        k < items@.len(),
    ensures
        r == heading_at(views(items@), k as int, any),
{
    if !any {
        false
    } else if k == 0 {
        true
    } else {
        !str_eq(label_str(&items[k]), label_str(&items[k - 1]))
    }
}

fn push_link_base(out: &mut String, base: &str)
    ensures
        final(out)@ == old(out)@ + trim_end_char(base@, '/'),
{
    let cs = chars_of(base);
    let n = trim_end_char_len(&cs, '/');
    push_range(out, &cs, 0, n);
}

fn push_link_base_esc(out: &mut String, base: &str)
    ensures
        final(out)@ == old(out)@ + esc_spec(trim_end_char(base@, '/')),
{
    let mut t = String::new();
    push_link_base(&mut t, base);
    push_esc(out, t.as_str());
}

fn push_text_item(out: &mut String, items: &Vec<LineItem>, k: usize, any: bool)
    requires
        k < items@.len(),
    ensures
        final(out)@ == old(out)@ + text_item(views(items@), k as int, any),
{
    let it = &items[k];
    assert(views(items@)[k as int] == it@);
    if heading_exec(items, k, any) {
        if k > 0 {
            push_str(out, "\n");
        }
        push_str(out, "# ");
        push_str(out, label_str(it));
        push_str(out, "\n");
    }
    assert(out@ =~= old(out)@ + text_heading(views(items@), k as int, any));
    let ghost mid = out@;
    push_text_line(out, it);
    assert(out@ =~= old(out)@ + text_item(views(items@), k as int, any));
}

fn push_text_line(out: &mut String, it: &LineItem)
    ensures
        final(out)@ == old(out)@ + text_line(it@),
{
    push_str(out, it.display.as_str());
    push_str(out, " ");
    push_str(out, it.display_name.as_str());
    let ghost a = out@;
    if it.notes.len() > 0 {
        push_str(out, " (");
        let j = join_messages(&it.notes, "; ");
        push_str(out, j.as_str());
        push_str(out, ")");
    }
    assert(out@ =~= a + notes_suffix(it@.notes));
    let ghost b = out@;
    if it.warning.is_some() {
        push_str(out, " ⚠");
    }
    assert(out@ =~= b + warn_mark(it@));
    push_str(out, "\n");
    assert(final(out)@ =~= old(out)@ + text_line(it@));
}

fn push_source_text(out: &mut String, s: &SourceRef, base: Option<&str>)
    ensures
        final(out)@ == old(out)@ + source_text(s@, base_view(base)),
{
    push_str(out, s.title.as_str());
    push_str(out, " ");
    s.version.push_text(out);
    push_str(out, " (×");
    push_dec(out, s.servings as u128);
    push_str(out, " servings)");
    match base {
        Some(b) => {
            push_str(out, " — ");
            push_link_base(out, b);
            push_str(out, "/r/");
            push_str(out, s.slug.as_str());
        },
        None => {},
    }
    push_str(out, "\n");
    assert(final(out)@ =~= old(out)@ + source_text(s@, base_view(base)));
}

/// Plain-text rendering (see `render_text_spec`).
pub fn render_text(list: &ShoppingList, opts: &RenderOpts) -> (r: String)
    ensures
        r@ == render_text_spec(list@, base_view(opts.recipe_link_base)),
{
    let mut out = String::new();
    if list.items.len() == 0 {
        push_str(&mut out, "(empty)\n");
        return out;
    }
    let any = any_categorised_exec(&list.items);
    let ghost items = views(list.items@);
    let mut k: usize = 0;
    while k < list.items.len()
        invariant
            k <= list.items@.len(),
            items == views(list.items@),
            out@ == text_items(items, k as int, any),
        decreases list.items@.len() - k,
    {
        push_text_item(&mut out, &list.items, k, any);
        k = k + 1;
    }
    if list.sources.len() > 0 {
        push_str(&mut out, "\n");
        push_str(&mut out, "From:\n");
        let ghost pre = out@;
        let ghost ss = views(list.sources@);
        let mut i: usize = 0;
        while i < list.sources.len()
            invariant
                i <= list.sources@.len(),
                ss == views(list.sources@),
                out@ == pre + text_sources(ss, i as int, base_view(opts.recipe_link_base)),
            decreases list.sources@.len() - i,
        {
            push_source_text(&mut out, &list.sources[i], opts.recipe_link_base);
            assert(out@ =~= pre + text_sources(ss, i + 1, base_view(opts.recipe_link_base)));
            i = i + 1;
        }
    }
    out
}

fn push_html_item(out: &mut String, items: &Vec<LineItem>, k: usize, any: bool)
    requires
        k < items@.len(),
    ensures
        final(out)@ == old(out)@ + html_item(views(items@), k as int, any),
{
    let it = &items[k];
    assert(views(items@)[k as int] == it@);
    let h = heading_exec(items, k, any);
    if h && k > 0 {
        push_str(out, "</ul>\n");
    }
    let ghost a = out@;
    if h {
        push_str(out, "<h3 class=\"aisle\">");
        push_esc(out, label_str(it));
        push_str(out, "</h3>\n");
    }
    let ghost b = out@;
    if h || k == 0 {
        push_str(out, "<ul class=\"shopping\">\n");
    }
    assert(out@ =~= old(out)@ + html_heading(views(items@), k as int, any));
    push_html_line(out, it);
    assert(out@ =~= old(out)@ + html_item(views(items@), k as int, any));
}

fn push_html_line(out: &mut String, it: &LineItem)
    ensures
        final(out)@ == old(out)@ + html_line(it@),
{
    push_str(out, "<li><label><input type=\"checkbox\"> <strong>");
    push_esc(out, it.display.as_str());
    push_str(out, "</strong> ");
    push_esc(out, it.display_name.as_str());
    let ghost a = out@;
    if it.notes.len() > 0 {
        push_str(out, " <span class=\"muted\">(");
        let j = join_messages(&it.notes, "; ");
        push_esc(out, j.as_str());
        push_str(out, ")</span>");
    }
    assert(out@ =~= a + html_notes(it@.notes));
    let ghost b = out@;
    match &it.warning {
        Some(w) => {
            push_str(out, " <span class=\"warn\" title=\"");
            push_esc(out, w.as_str());
            push_str(out, "\">⚠</span>");
        },
        None => {},
    }
    assert(out@ =~= b + html_warn(it@.warning));
    push_str(out, "</label></li>\n");
    assert(final(out)@ =~= old(out)@ + html_line(it@));
}

fn push_html_source(out: &mut String, s: &SourceRef, base: Option<&str>)
    ensures
        final(out)@ == old(out)@ + html_source(s@, base_view(base)),
{
    push_str(out, "<li>");
    match base {
        Some(b) => {
            push_str(out, "<a href=\"");
            push_link_base_esc(out, b);
            push_str(out, "/r/");
            push_esc(out, s.slug.as_str());
            push_str(out, "\">");
            push_esc(out, s.title.as_str());
            push_str(out, "</a>");
        },
        None => {
            push_esc(out, s.title.as_str());
        },
    }
    push_str(out, " <code>");
    let v = s.version.to_text();
    push_esc(out, v.as_str());
    push_str(out, "</code> (×");
    push_dec(out, s.servings as u128);
    push_str(out, " servings)</li>\n");
    assert(final(out)@ =~= old(out)@ + html_source(s@, base_view(base)));
}

fn push_html_items_part(out: &mut String, items: &Vec<LineItem>)
    ensures
        final(out)@ == old(out)@ + html_items_part(views(items@)),
{
    if items.len() == 0 {
        push_str(out, "<p><em>(empty)</em></p>\n");
    } else {
        let any = any_categorised_exec(items);
        let ghost vs = views(items@);
        let ghost p0 = out@;
        let mut k: usize = 0;
        while k < items.len()
            invariant
                k <= items@.len(),
                vs == views(items@),
                out@ == p0 + html_items(vs, k as int, any),
            decreases items@.len() - k,
        {
            push_html_item(out, items, k, any);
            assert(out@ =~= p0 + html_items(vs, k + 1, any));
            k = k + 1;
        }
        push_str(out, "</ul>\n");
        assert(out@ =~= p0 + html_items_part(vs));
    }
}

fn push_html_sources_part(out: &mut String, ss: &Vec<SourceRef>, base: Option<&str>)
    ensures
        final(out)@ == old(out)@ + html_sources_part(views(ss@), base_view(base)),
{
    if ss.len() > 0 {
        push_str(out, "<h3>From</h3>\n<ul class=\"muted\">\n");
        let ghost pre = out@;
        let ghost vs = views(ss@);
        let mut i: usize = 0;
        while i < ss.len()
            invariant
                i <= ss@.len(),
                vs == views(ss@),
                out@ == pre + html_sources(vs, i as int, base_view(base)),
            decreases ss@.len() - i,
        {
            assert(vs[i as int] == ss@[i as int]@);
            push_html_source(out, &ss[i], base);
            assert(out@ =~= pre + html_sources(vs, i + 1, base_view(base)));
            i = i + 1;
        }
        push_str(out, "</ul>\n");
        assert(out@ =~= old(out)@ + html_sources_part(vs, base_view(base)));
    }
}

fn push_html_errors_part(out: &mut String, es: &Vec<super::ResolutionError>)
    ensures
        final(out)@ == old(out)@ + html_errors_part(views(es@)),
{
    if es.len() > 0 {
        push_str(out, "<h3>Errors</h3>\n<ul class=\"muted\">\n");
        let ghost pre = out@;
        let ghost vs = views(es@);
        let mut i: usize = 0;
        while i < es.len()
            invariant
                i <= es@.len(),
                vs == views(es@),
                out@ == pre + html_errors(vs, i as int),
            decreases es@.len() - i,
        {
            let e = &es[i];
            assert(vs[i as int] == e@);
            let ghost before = out@;
            push_str(out, "<li><code>");
            push_esc(out, e.slug.as_str());
            push_str(out, "</code>: ");
            push_esc(out, e.message.as_str());
            push_str(out, "</li>\n");
            assert(out@ =~= before + html_error(e@));
            assert(out@ =~= pre + html_errors(vs, i + 1));
            i = i + 1;
        }
        push_str(out, "</ul>\n");
        assert(out@ =~= old(out)@ + html_errors_part(vs));
    }
}

/// HTML rendering (see `render_html_spec`).
pub fn render_html(list: &ShoppingList, opts: &RenderOpts) -> (r: String)
    ensures
        r@ == render_html_spec(list@, base_view(opts.recipe_link_base)),
{
    let mut out = String::new();
    push_str(&mut out, "<h2>Shopping list</h2>\n");
    push_html_items_part(&mut out, &list.items);
    push_html_sources_part(&mut out, &list.sources, opts.recipe_link_base);
    push_html_errors_part(&mut out, &list.errors);
    assert(out@ =~= render_html_spec(list@, base_view(opts.recipe_link_base)));
    out
}

} // verus!
