//! The server's HTML pages: recipe list, recipe, history, diff and shopping list.

use super::render::{civil_parts, datetime_text, esc_spec, format_datetime, lemma_page_parts, page, page_head, page_spec, push_esc, url_spec, civil_year_fits, Layout};
use crate::index::scan::{version_text, VersionKey};
use crate::index::{Index, RecipeFamily, Version, FamilyView};
use crate::recipe::parse::{join_messages, join_texts};
use crate::recipe::units::{decimal_micros, format_number, number_text, parse_decimal};
use crate::recipe::{
    changelog_spec, declared_servings, recipe_changelog, servings_spec, views, Content, ContentView,
    GroupedIngredient, GroupedIngredientView, IngredientView, Item, ItemView, ParsedRecipe, ParsedRecipeView,
    Qty, QtyValue, QtyValueView, QtyView, Section, SectionView, TimerView,
};
use crate::text::{dec, holds_at, owned, push_dec, push_str, str_eq, trim, trimmed};
use vstd::prelude::*;

verus! {

/// A number as shown in a recipe: its decimal value rounded to two places,
/// trailing zeros dropped; text that is not a plain decimal is shown as is.
pub open spec fn number_shown(t: Seq<char>) -> Seq<char> {
    match decimal_micros(t) {
        Some(m) => number_text(m),
        None => t,
    }
}

/// `render_value`: a number, a range `a–b`, or text.
pub open spec fn value_shown(v: QtyValueView) -> Seq<char> {
    match v {
        QtyValueView::Number(t) => number_shown(t),
        QtyValueView::Range(a, b) => number_shown(a) + "–"@ + number_shown(b),
        QtyValueView::Text(t) => t,
    }
}

/// `format_quantity`: the value, then the unit after a space when there is one.
pub open spec fn quantity_shown(q: QtyView) -> Seq<char> {
    match q.unit {
        Some(u) => value_shown(q.value) + " "@ + u,
        None => value_shown(q.value),
    }
}

fn push_number(out: &mut String, t: &str)
    ensures
        final(out)@ == old(out)@ + number_shown(t@),
{
    match parse_decimal(t) {
        Some(m) => {
            let s = format_number(m);
            push_str(out, s.as_str());
        },
        None => push_str(out, t),
    }
}

/// The shown text of a quantity value.
pub fn render_value(v: &QtyValue) -> (r: String)
    ensures
        r@ == value_shown(v@),
{
    let mut out = String::new();
    match v {
        QtyValue::Number(t) => push_number(&mut out, t.as_str()),
        QtyValue::Range(a, b) => {
            push_number(&mut out, a.as_str());
            push_str(&mut out, "–");
            push_number(&mut out, b.as_str());
        },
        QtyValue::Text(t) => push_str(&mut out, t.as_str()),
    }
    out
}

/// The shown text of a quantity.
pub fn format_quantity(q: &Qty) -> (r: String)
    ensures
        r@ == quantity_shown(q@),
{
    let mut out = render_value(&q.value);
    match &q.unit {
        Some(u) => {
            push_str(&mut out, " ");
            push_str(&mut out, u.as_str());
        },
        None => {},
    }
    out
}

/// The trimmed, non-empty notes of the mentions named exactly `name`, in order.
pub open spec fn notes_of(ings: Seq<IngredientView>, name: Seq<char>) -> Seq<Seq<char>>
    decreases ings.len(),
{
    if ings.len() == 0 {
        Seq::empty()
    } else {
        let r = notes_of(ings.drop_last(), name);
        let i = ings.last();
        match i.note {
            Some(n) => if i.name == name && trim(n).len() > 0 {
                r.push(trim(n))
            } else {
                r
            },
            None => r,
        }
    }
}

/// `s` without repeats, first occurrences kept in order.
pub open spec fn dedup(s: Seq<Seq<char>>) -> Seq<Seq<char>>
    decreases s.len(),
{
    if s.len() == 0 {
        Seq::empty()
    } else {
        let r = dedup(s.drop_last());
        if r.contains(s.last()) {
            r
        } else {
            r.push(s.last())
        }
    }
}

/// The shown texts of quantities.
pub open spec fn quantities_shown(qs: Seq<QtyView>) -> Seq<Seq<char>> {
    Seq::new(qs.len(), |i: int| quantity_shown(qs[i]))
}

/// A grouped ingredient as HTML: its summed quantities joined by ` + `, its
/// name, and its distinct notes.
pub open spec fn named_grouped(name: Seq<char>, qs: Seq<QtyView>, notes: Seq<Seq<char>>) -> Seq<char> {
    (if qs.len() > 0 {
        "<span class=\"qty\">"@ + esc_spec(join_texts(quantities_shown(qs), " + "@)) + "</span> "@
    } else {
        Seq::<char>::empty()
    }) + "<span class=\"ingredient\">"@ + esc_spec(name) + "</span>"@ + (if notes.len() > 0 {
        " <span class=\"muted\">("@ + esc_spec(join_texts(dedup(notes), "; "@)) + ")</span>"@
    } else {
        Seq::<char>::empty()
    })
}

fn notes_for(ings: &Vec<crate::recipe::Ingredient>, name: &str) -> (r: Vec<String>)
    ensures
        views(r@) == notes_of(views(ings@), name@),
{
    let ghost iv = views(ings@);
    let mut out: Vec<String> = Vec::new();
    let mut i: usize = 0;
    assert(iv.take(0) =~= Seq::<IngredientView>::empty());
    assert(views(out@) =~= Seq::<Seq<char>>::empty());
    while i < ings.len()
        invariant
            i <= ings@.len(),
            iv == views(ings@),
            views(out@) == notes_of(iv.take(i as int), name@),
        decreases ings@.len() - i,
    {
        assert(iv.take(i + 1).drop_last() =~= iv.take(i as int));
        assert(iv.take(i + 1).last() == ings@[i as int]@);
        let ing = &ings[i];
        match &ing.note {
            Some(n) => {
                let t = trimmed(n.as_str());
                if str_eq(ing.name.as_str(), name) && t.unicode_len() > 0 {
                    let ghost before = views(out@);
                    out.push(t);
                    assert(views(out@) =~= before.push(trim(n@)));
                }
            },
            None => {},
        }
        i = i + 1;
    }
    assert(iv.take(i as int) =~= iv);
    out
}

fn dedup_exec(s: &Vec<String>) -> (r: Vec<String>)
    ensures
        views(r@) == dedup(views(s@)),
{
    let ghost sv = views(s@);
    let mut out: Vec<String> = Vec::new();
    let mut i: usize = 0;
    assert(sv.take(0) =~= Seq::<Seq<char>>::empty());
    assert(views(out@) =~= Seq::<Seq<char>>::empty());
    while i < s.len()
        invariant
            i <= s@.len(),
            sv == views(s@),
            views(out@) == dedup(sv.take(i as int)),
        decreases s@.len() - i,
    {
        assert(sv.take(i + 1).drop_last() =~= sv.take(i as int));
        assert(sv.take(i + 1).last() == s@[i as int]@);
        if !crate::shopping::bins::notes_contain(&out, s[i].as_str()) {
            let ghost before = views(out@);
            out.push(owned(s[i].as_str()));
            assert(views(out@) =~= before.push(s@[i as int]@));
        }
        i = i + 1;
    }
    assert(sv.take(i as int) =~= sv);
    out
}

/// A grouped ingredient as HTML (see `named_grouped`).
pub fn render_named_grouped(name: &str, qs: &Vec<Qty>, notes: &Vec<String>) -> (r: String)
    ensures
        r@ == named_grouped(name@, views(qs@), views(notes@)),
{
    let mut out = String::new();
    if qs.len() > 0 {
        let mut parts: Vec<String> = Vec::new();
        let mut i: usize = 0;
        while i < qs.len()
            invariant
                i <= qs@.len(),
                parts@.len() == i,
                forall|k: int| 0 <= k < i ==> (#[trigger] parts@[k])@ == quantity_shown(qs@[k]@),
            decreases qs@.len() - i,
        {
            parts.push(format_quantity(&qs[i]));
            i = i + 1;
        }
        assert(views(parts@) =~= quantities_shown(views(qs@)));
        let joined = join_messages(&parts, " + ");
        push_str(&mut out, "<span class=\"qty\">");
        push_esc(&mut out, joined.as_str());
        push_str(&mut out, "</span> ");
    }
    let ghost a = out@;
    push_str(&mut out, "<span class=\"ingredient\">");
    push_esc(&mut out, name);
    push_str(&mut out, "</span>");
    let ghost b = out@;
    if notes.len() > 0 {
        let unique = dedup_exec(notes);
        let joined = join_messages(&unique, "; ");
        push_str(&mut out, " <span class=\"muted\">(");
        push_esc(&mut out, joined.as_str());
        push_str(&mut out, ")</span>");
    }
    assert(out@ =~= named_grouped(name@, views(qs@), views(notes@)));
    out
}

/// A step item's component index names an existing component.
pub open spec fn item_in_range(r: ParsedRecipeView, it: ItemView) -> bool {
    match it {
        ItemView::Ingredient(i) => i < r.ingredients.len(),
        ItemView::Cookware(i) => i < r.cookware.len(),
        ItemView::Timer(i) => i < r.timers.len(),
        ItemView::InlineQuantity(i) => i < r.inline_quantities.len(),
        ItemView::Text(_) => true,
    }
}

/// Every item of a step is in range.
pub open spec fn step_in_range(r: ParsedRecipeView, items: Seq<ItemView>) -> bool {
    forall|k: int| 0 <= k < items.len() ==> item_in_range(r, #[trigger] items[k])
}

/// Every item of a content block is in range.
pub open spec fn content_in_range(r: ParsedRecipeView, c: ContentView) -> bool {
    match c {
        ContentView::Step(items) => step_in_range(r, items),
        ContentView::Text(_) => true,
    }
}

proof fn lemma_content_item(r: ParsedRecipeView, items: Seq<ItemView>, k: int)
    requires
        content_in_range(r, ContentView::Step(items)),
        0 <= k < items.len(),
    ensures
        item_in_range(r, items[k]),
{
}

/// Every component index of the recipe's steps names an existing component.
pub open spec fn steps_in_range(r: ParsedRecipeView) -> bool {
    forall|s: int, c: int|
        0 <= s < r.sections.len() && 0 <= c < r.sections[s].content.len() ==> content_in_range(
            r,
            #[trigger] r.sections[s].content[c],
        )
}

/// The label of a timer: name and duration, either alone, or `(timer)`.
pub open spec fn timer_label(t: TimerView) -> Seq<char> {
    match (t.name, t.quantity) {
        (Some(n), Some(q)) => n + " ("@ + quantity_shown(q) + ")"@,
        (Some(n), None) => n,
        (None, Some(q)) => quantity_shown(q),
        (None, None) => "(timer)"@,
    }
}

/// One step item as HTML.
pub open spec fn item_html(r: ParsedRecipeView, it: ItemView) -> Seq<char> {
    match it {
        ItemView::Text(v) => esc_spec(v),
        ItemView::Ingredient(i) => {
            let ing = r.ingredients[i as int];
            let qty = match ing.quantity {
                Some(q) => " ("@ + quantity_shown(q) + ")"@,
                None => Seq::<char>::empty(),
            };
            "<span class=\"ingredient\">"@ + esc_spec(ing.name) + "</span><span class=\"qty\">"@ + esc_spec(qty)
                + "</span>"@
        },
        ItemView::Cookware(i) => "<span class=\"cookware\">"@ + esc_spec(r.cookware[i as int]) + "</span>"@,
        ItemView::Timer(i) => "<span class=\"timer\">⏲ "@ + esc_spec(timer_label(r.timers[i as int])) + "</span>"@,
        ItemView::InlineQuantity(i) => esc_spec(quantity_shown(r.inline_quantities[i as int])),
    }
}

/// The first `n` items of a step as HTML.
pub open spec fn items_html(r: ParsedRecipeView, items: Seq<ItemView>, n: int) -> Seq<char>
    decreases n,
{
    if n <= 0 {
        Seq::empty()
    } else {
        items_html(r, items, n - 1) + item_html(r, items[n - 1])
    }
}

/// A content block as HTML: a step as a list item, a text as a paragraph.
pub open spec fn content_html(r: ParsedRecipeView, c: ContentView) -> Seq<char> {
    match c {
        ContentView::Step(items) => "<li>"@ + items_html(r, items, items.len() as int) + "</li>\n"@,
        ContentView::Text(t) => "<p>"@ + esc_spec(t) + "</p>\n"@,
    }
}

/// The first `n` content blocks as HTML.
pub open spec fn contents_html(r: ParsedRecipeView, cs: Seq<ContentView>, n: int) -> Seq<char>
    decreases n,
{
    if n <= 0 {
        Seq::empty()
    } else {
        contents_html(r, cs, n - 1) + content_html(r, cs[n - 1])
    }
}

/// A section as HTML: its name as a heading, then its content.
pub open spec fn section_html(r: ParsedRecipeView, s: SectionView) -> Seq<char> {
    (match s.name {
        Some(n) => "<h3>"@ + esc_spec(n) + "</h3>\n"@,
        None => Seq::<char>::empty(),
    }) + contents_html(r, s.content, s.content.len() as int)
}

/// The first `n` sections as HTML.
pub open spec fn sections_html(r: ParsedRecipeView, n: int) -> Seq<char>
    decreases n,
{
    if n <= 0 {
        Seq::empty()
    } else {
        sections_html(r, n - 1) + section_html(r, r.sections[n - 1])
    }
}

/// The method as an ordered list.
pub open spec fn steps_html(r: ParsedRecipeView) -> Seq<char> {
    "<ol class=\"step-list\">\n"@ + sections_html(r, r.sections.len() as int) + "</ol>\n"@
}

fn push_item(out: &mut String, recipe: &ParsedRecipe, it: &Item)
    requires
        item_in_range(recipe@, it@),
    ensures
        final(out)@ == old(out)@ + item_html(recipe@, it@),
{
    match it {
        Item::Text(v) => push_esc(out, v.as_str()),
        Item::Ingredient(i) => {
            let ing = &recipe.ingredients[*i];
            assert(recipe@.ingredients[*i as int] == ing@);
            let mut qty = String::new();
            match &ing.quantity {
                Some(q) => {
                    push_str(&mut qty, " (");
                    let s = format_quantity(q);
                    push_str(&mut qty, s.as_str());
                    push_str(&mut qty, ")");
                },
                None => {},
            }
            push_str(out, "<span class=\"ingredient\">");
            push_esc(out, ing.name.as_str());
            push_str(out, "</span><span class=\"qty\">");
            push_esc(out, qty.as_str());
            push_str(out, "</span>");
            assert(final(out)@ =~= old(out)@ + item_html(recipe@, it@));
        },
        Item::Cookware(i) => {
            assert(recipe@.cookware[*i as int] == recipe.cookware@[*i as int]@);
            push_str(out, "<span class=\"cookware\">");
            push_esc(out, recipe.cookware[*i].as_str());
            push_str(out, "</span>");
        },
        Item::Timer(i) => {
            let t = &recipe.timers[*i];
            assert(recipe@.timers[*i as int] == t@);
            let mut label = String::new();
            match (&t.name, &t.quantity) {
                (Some(n), Some(q)) => {
                    push_str(&mut label, n.as_str());
                    push_str(&mut label, " (");
                    let s = format_quantity(q);
                    push_str(&mut label, s.as_str());
                    push_str(&mut label, ")");
                },
                (Some(n), None) => push_str(&mut label, n.as_str()),
                (None, Some(q)) => {
                    let s = format_quantity(q);
                    push_str(&mut label, s.as_str());
                },
                (None, None) => push_str(&mut label, "(timer)"),
            }
            assert(label@ =~= timer_label(t@));
            push_str(out, "<span class=\"timer\">⏲ ");
            push_esc(out, label.as_str());
            push_str(out, "</span>");
        },
        Item::InlineQuantity(i) => {
            assert(recipe@.inline_quantities[*i as int] == recipe.inline_quantities@[*i as int]@);
            let s = format_quantity(&recipe.inline_quantities[*i]);
            push_esc(out, s.as_str());
        },
    }
}

fn push_content(out: &mut String, recipe: &ParsedRecipe, c: &Content)
    requires
        content_in_range(recipe@, c@),
    ensures
        final(out)@ == old(out)@ + content_html(recipe@, c@),
{
    match c {
        Content::Step(items) => {
            push_str(out, "<li>");
            let ghost iv = views(items@);
            let ghost start = out@;
            let mut k: usize = 0;
            while k < items.len()
                invariant
                    k <= items@.len(),
                    iv == views(items@),
                    c@ == ContentView::Step(iv),
                    out@ == start + items_html(recipe@, iv, k as int),
                    content_in_range(recipe@, c@),
                decreases items@.len() - k,
            {
                assert(iv[k as int] == items@[k as int]@);
                proof {
                    lemma_content_item(recipe@, iv, k as int);
                }
                push_item(out, recipe, &items[k]);
                assert(out@ =~= start + items_html(recipe@, iv, k + 1));
                k = k + 1;
            }
            push_str(out, "</li>\n");
        },
        Content::Text(t) => {
            push_str(out, "<p>");
            push_esc(out, t.as_str());
            push_str(out, "</p>\n");
        },
    }
    assert(final(out)@ =~= old(out)@ + content_html(recipe@, c@));
}

/// The method of a recipe as HTML (see `steps_html`).
pub fn render_steps(recipe: &ParsedRecipe) -> (r: String)
    requires
        steps_in_range(recipe@),
    ensures
        r@ == steps_html(recipe@),
{
    let mut out = String::new();
    push_str(&mut out, "<ol class=\"step-list\">\n");
    let ghost r = recipe@;
    let ghost start = out@;
    let mut s: usize = 0;
    while s < recipe.sections.len()
        invariant
            s <= recipe.sections@.len(),
            r == recipe@,
            steps_in_range(r),
            out@ == start + sections_html(r, s as int),
        decreases recipe.sections@.len() - s,
    {
        let sec = &recipe.sections[s];
        assert(r.sections[s as int] == sec@);
        let ghost before = out@;
        match &sec.name {
            Some(n) => {
                push_str(&mut out, "<h3>");
                push_esc(&mut out, n.as_str());
                push_str(&mut out, "</h3>\n");
            },
            None => {},
        }
        let ghost mid = out@;
        let mut c: usize = 0;
        while c < sec.content.len()
            invariant
                c <= sec.content@.len(),
                r == recipe@,
                r.sections[s as int] == sec@,
                s < r.sections.len(),
                steps_in_range(r),
                out@ == mid + contents_html(r, sec@.content, c as int),
            decreases sec.content@.len() - c,
        {
            assert(sec@.content[c as int] == sec.content@[c as int]@);
            assert(content_in_range(r, r.sections[s as int].content[c as int]));
            push_content(&mut out, recipe, &sec.content[c]);
            assert(out@ =~= mid + contents_html(r, sec@.content, c + 1));
            c = c + 1;
        }
        assert(out@ =~= before + section_html(r, sec@));
        assert(out@ =~= start + sections_html(r, s + 1));
        s = s + 1;
    }
    push_str(&mut out, "</ol>\n");
    out
}

/// `/r/<slug>` followed by `rest`.
pub open spec fn recipe_path(slug: Seq<char>, rest: Seq<char>) -> Seq<char> {
    "/r/"@ + slug + rest
}

fn recipe_path_exec(slug: &str, rest: &str) -> (r: String)
    ensures
        r@ == recipe_path(slug@, rest@),
{
    let mut out = String::from_str("/r/");
    push_str(&mut out, slug);
    push_str(&mut out, rest);
    out
}

/// `?from=<a>&to=<b>` after `/diff`.
pub open spec fn diff_rest(a: VersionKey, b: VersionKey) -> Seq<char> {
    "/diff?from="@ + version_text(a) + "&to="@ + version_text(b)
}

fn diff_rest_exec(a: VersionKey, b: VersionKey) -> (r: String)
    ensures
        r@ == diff_rest(a, b),
{
    let mut out = String::from_str("/diff?from=");
    a.push_text(&mut out);
    push_str(&mut out, "&to=");
    b.push_text(&mut out);
    out
}

/// Append the escaped URL of `suffix` under the layout's base path.
fn push_esc_url(out: &mut String, layout: Layout, suffix: &str)
    ensures
        final(out)@ == old(out)@ + esc_spec(url_spec(layout.base_path@, suffix@)),
{
    let u = layout.url(suffix);
    push_esc(out, u.as_str());
}

/// Heading of the diff page: the family's title.
pub open spec fn diff_heading(title: Seq<char>) -> Seq<char> {
    "<h1>"@ + esc_spec(title) + "</h1>"@
}

/// Between the diff page's heading and what it compares.
pub open spec fn diff_intro() -> Seq<char> {
    "\n<p class=\"muted\">\n  "@
}

/// Which two versions the diff page compares.
pub open spec fn diff_compared(from: VersionKey, to: VersionKey) -> Seq<char> {
    "Comparing <strong>"@ + esc_spec(version_text(from)) + "</strong> → <strong>"@ + esc_spec(version_text(to))
        + "</strong>"@
}

/// Links from the diff page back to the recipe and to its history.
pub open spec fn diff_links(bp: Seq<char>, slug: Seq<char>) -> Seq<char> {
    "\n  · <a href=\""@ + esc_spec(url_spec(bp, recipe_path(slug, Seq::empty()))) + "\">Back to recipe</a>\n  · <a href=\""@
        + esc_spec(url_spec(bp, recipe_path(slug, "/history"@))) + "\">History</a>\n</p>\n"@
}

/// Body of the diff page.
pub open spec fn diff_body(
    bp: Seq<char>,
    title: Seq<char>,
    slug: Seq<char>,
    from: VersionKey,
    to: VersionKey,
    diff_html: Seq<char>,
) -> Seq<char> {
    diff_heading(title) + diff_intro() + diff_compared(from, to) + diff_links(bp, slug) + diff_html
}

/// The page comparing two versions of a family around the rendered diff.
pub fn diff_page(layout: Layout, family: &RecipeFamily, from_version: VersionKey, to_version: VersionKey, diff_html: &str) -> (r: String)
    ensures
        r@ == page_spec(
            layout.base_path@,
            layout.title@,
            diff_body(layout.base_path@, family.title@, family.slug@, from_version, to_version, diff_html@),
        ),
{
    let mut body = String::from_str("<h1>");
    push_esc(&mut body, family.title.as_str());
    push_str(&mut body, "</h1>");
    push_str(&mut body, "\n<p class=\"muted\">\n  ");
    push_str(&mut body, "Comparing <strong>");
    let f = from_version.to_text();
    push_esc(&mut body, f.as_str());
    push_str(&mut body, "</strong> → <strong>");
    let t = to_version.to_text();
    push_esc(&mut body, t.as_str());
    push_str(&mut body, "</strong>");
    push_str(&mut body, "\n  · <a href=\"");
    let back = recipe_path_exec(family.slug.as_str(), "");
    assert(""@ =~= Seq::<char>::empty()) by { reveal_strlit(""); }
    push_esc_url(&mut body, layout, back.as_str());
    push_str(&mut body, "\">Back to recipe</a>\n  · <a href=\"");
    let hist = recipe_path_exec(family.slug.as_str(), "/history");
    push_esc_url(&mut body, layout, hist.as_str());
    push_str(&mut body, "\">History</a>\n</p>\n");
    push_str(&mut body, diff_html);
    assert(body@ =~= diff_body(layout.base_path@, family.title@, family.slug@, from_version, to_version, diff_html@));
    page(layout, body.as_str())
}

/// Body of the shopping-list page: heading, tip, actions (copy, plain view,
/// home), the plain text kept hidden for the copy button, then the list
/// as HTML, both with recipe links under `abs`.
pub open spec fn shopping_body(
    bp: Seq<char>,
    l: crate::shopping::ShoppingListView,
    token: Seq<char>,
    abs: Seq<char>,
) -> Seq<char> {
    "<h1>Shopping list</h1>\n"@
        + "<p class=\"muted\">Tip: copy as plain text, paste into Apple Notes, then ⌘⇧L to convert to a checklist.</p>"@
        + "\n"@ + "<div class=\"shopping-actions\">"@ + "\n"@
        + "<button id=\"copy-text-btn\" class=\"btn\">Copy as plain text</button>"@ + "<a class=\"btn\" href=\""@
        + esc_spec(url_spec(bp, "/shopping/"@ + token)) + "?format=text\">View plain</a>"@
        + "<a class=\"btn\" href=\""@ + esc_spec(url_spec(bp, "/"@)) + "\">Home</a>"@ + "</div>\n"@
        + "<textarea id=\"copy-text-source\" hidden>"@ + esc_spec(
        crate::shopping::render::render_text_spec(l, Some(abs)),
    ) + "</textarea>"@ + "\n"@ + crate::shopping::render::render_html_spec(l, Some(abs))
}

/// The shopping-list page for `list` stored under `token`.
pub fn shopping_page(layout: Layout, list: &crate::shopping::ShoppingList, token: &str, absolute_base: &str) -> (r: String)
    ensures
        r@ == page_spec(
            layout.base_path@,
            layout.title@,
            shopping_body(layout.base_path@, list@, token@, absolute_base@),
        ),
{
    let mut body = String::new();
    push_str(&mut body, "<h1>Shopping list</h1>\n");
    push_str(
        &mut body,
        "<p class=\"muted\">Tip: copy as plain text, paste into Apple Notes, then ⌘⇧L to convert to a checklist.</p>",
    );
    push_str(&mut body, "\n");
    push_str(&mut body, "<div class=\"shopping-actions\">");
    push_str(&mut body, "\n");
    push_str(&mut body, "<button id=\"copy-text-btn\" class=\"btn\">Copy as plain text</button>");
    push_str(&mut body, "<a class=\"btn\" href=\"");
    let mut suffix = String::from_str("/shopping/");
    push_str(&mut suffix, token);
    let plain_url = layout.url(suffix.as_str());
    push_esc(&mut body, plain_url.as_str());
    push_str(&mut body, "?format=text\">View plain</a>");
    push_str(&mut body, "<a class=\"btn\" href=\"");
    let home = layout.url("/");
    push_esc(&mut body, home.as_str());
    push_str(&mut body, "\">Home</a>");
    push_str(&mut body, "</div>\n");
    let opts = crate::shopping::render::RenderOpts { recipe_link_base: Some(absolute_base) };
    let plain = crate::shopping::render::render_with(list, crate::shopping::render::Format::Text, &opts);
    push_str(&mut body, "<textarea id=\"copy-text-source\" hidden>");
    push_esc(&mut body, plain.as_str());
    push_str(&mut body, "</textarea>");
    push_str(&mut body, "\n");
    let html = crate::shopping::render::render_with(list, crate::shopping::render::Format::Html, &opts);
    push_str(&mut body, html.as_str());
    assert(body@ =~= shopping_body(layout.base_path@, list@, token@, absolute_base@));
    page(layout, body.as_str())
}

/// The diff page: its body stands in the page right after the layout's
/// head; it opens with the family's title as heading, then says which two
/// versions are compared, and ends with the rendered diff as given.
pub proof fn lemma_diff_page_layout(
    bp: Seq<char>,
    site_title: Seq<char>,
    title: Seq<char>,
    slug: Seq<char>,
    from: VersionKey,
    to: VersionKey,
    diff_html: Seq<char>,
)
    ensures
        ({
            let b = diff_body(bp, title, slug, from, to, diff_html);
            &&& holds_at(page_spec(bp, site_title, b), b, page_head(bp, site_title).len() as int)
            &&& holds_at(b, diff_heading(title), 0)
            &&& holds_at(b, diff_compared(from, to), (diff_heading(title).len() + diff_intro().len()) as int)
            &&& holds_at(b, diff_html, b.len() - diff_html.len())
        }),
{
    let b = diff_body(bp, title, slug, from, to, diff_html);
    lemma_page_parts(bp, site_title, b);
    let h = diff_heading(title);
    let m = diff_intro();
    let c = diff_compared(from, to);
    assert(b.subrange(0, h.len() as int) =~= h);
    assert(b.subrange((h.len() + m.len()) as int, (h.len() + m.len() + c.len()) as int) =~= c);
    assert(b.subrange(b.len() - diff_html.len(), b.len() as int) =~= diff_html);
}

/// The modification time's year fits the date arithmetic (times past the
/// largest `i64` read as the epoch).
pub open spec fn mtime_fits(m: Option<u64>) -> bool {
    match m {
        Some(t) => t <= i64::MAX ==> civil_year_fits((t / 86_400) as int),
        None => true,
    }
}

/// The modification time shown in the history: `YYYY-MM-DD HH:MM` (UTC),
/// the epoch for seconds past the largest `i64`, `—` when unknown.
pub open spec fn mtime_text(m: Option<u64>) -> Seq<char> {
    match m {
        Some(t) => if t <= i64::MAX {
            datetime_text(t as int)
        } else {
            datetime_text(0)
        },
        None => "—"@,
    }
}

fn mtime_exec(m: Option<u64>) -> (r: String)
    requires
        mtime_fits(m),
    ensures
        r@ == mtime_text(m),
{
    match m {
        Some(t) => if t <= 9_223_372_036_854_775_807 {
            format_datetime(t as i64)
        } else {
            assert(civil_parts(0).3 == 4);
            assert(civil_parts(0).4 == 369);
            assert(civil_year_fits(0));
            format_datetime(0)
        },
        None => String::from_str("—"),
    }
}

/// The link comparing version `i` with the one before it, if any.
pub open spec fn diff_link(bp: Seq<char>, f: FamilyView, i: int) -> Seq<char> {
    if i > 0 {
        let prev = f.versions[i - 1].key;
        "<a href=\""@ + esc_spec(url_spec(bp, recipe_path(f.slug, diff_rest(prev, f.versions[i].key))))
            + "\">diff vs "@ + esc_spec(version_text(prev)) + "</a>"@
    } else {
        Seq::<char>::empty()
    }
}

/// The changelog text of a version, empty when it has none.
pub open spec fn changelog_text(v: crate::index::VersionView) -> Seq<char> {
    match changelog_spec(v.parsed.recipe.changelog) {
        Some(c) => c,
        None => Seq::<char>::empty(),
    }
}

/// A row of the history table for version `i` of the family.
#[verifier::opaque]
pub open spec fn history_row(bp: Seq<char>, f: FamilyView, i: int) -> Seq<char> {
    let v = f.versions[i];
    "<tr>\n  <td><a href=\""@ + esc_spec(url_spec(bp, recipe_path(f.slug, "/v/"@ + version_text(v.key))))
        + "\">"@ + esc_spec(version_text(v.key)) + "</a></td>\n  <td>"@ + esc_spec(mtime_text(v.mtime))
        + "</td>\n  <td>"@ + esc_spec(changelog_text(v)) + "</td>\n  <td>"@ + diff_link(bp, f, i)
        + "</td>\n</tr>\n"@
}

/// History rows for versions `n-1` down to `0` (newest first).
pub open spec fn history_rows(bp: Seq<char>, f: FamilyView, n: int) -> Seq<char>
    decreases n,
{
    if n <= 0 {
        Seq::empty()
    } else {
        history_row(bp, f, n - 1) + history_rows(bp, f, n - 1)
    }
}

/// The history page before its rows: heading, link back, table head.
pub open spec fn history_top(bp: Seq<char>, f: FamilyView) -> Seq<char> {
    "<h1>"@ + esc_spec(f.title) + " — History</h1>\n<p class=\"muted\"><a href=\""@ + esc_spec(
        url_spec(bp, recipe_path(f.slug, Seq::empty())),
    ) + "\">← Back to recipe</a></p>\n<table class=\"versions-table\">\n<thead><tr><th>Version</th><th>Modified</th><th>Changelog</th><th></th></tr></thead>\n<tbody>\n"@
}

/// Body of the history page: a table of versions, newest first.
pub open spec fn history_body(bp: Seq<char>, f: FamilyView) -> Seq<char> {
    history_top(bp, f) + history_rows(bp, f, f.versions.len() as int) + "</tbody></table>\n"@
}

/// Where the row of version `i` starts among the rows of the first `n`
/// versions.
pub open spec fn history_row_pos(bp: Seq<char>, f: FamilyView, n: int, i: int) -> int {
    history_rows(bp, f, n).len() - history_rows(bp, f, i + 1).len()
}

/// What stands in `prev` at `p` stands in `top + prev` at `top.len() + p`.
proof fn lemma_holds_shift(top: Seq<char>, prev: Seq<char>, r: Seq<char>, p: int)
    requires
        holds_at(prev, r, p),
    ensures
        holds_at(top + prev, r, top.len() + p),
{
    assert((top + prev).subrange(top.len() + p, top.len() + p + r.len()) =~= prev.subrange(p, p + r.len()));
}

/// A history row is never empty.
proof fn lemma_history_row_nonempty(bp: Seq<char>, f: FamilyView, i: int)
    ensures
        history_row(bp, f, i).len() > 0,
{
    reveal(history_row);
    reveal_strlit("<tr>\n  <td><a href=\"");
}

/// The rows of the first `n` versions hold each version's row, the row of
/// a later version before that of an earlier one.
#[verifier::spinoff_prover]
proof fn lemma_history_rows_layout(bp: Seq<char>, f: FamilyView, n: int)
    requires
        0 <= n <= f.versions.len(),
    ensures
        forall|i: int|
            0 <= i < n ==> holds_at(history_rows(bp, f, n), #[trigger] history_row(bp, f, i), history_row_pos(bp, f, n, i)),
        forall|i: int, j: int|
            0 <= i < j < n ==> #[trigger] history_row_pos(bp, f, n, j) < #[trigger] history_row_pos(bp, f, n, i),
    decreases n,
{
    if n > 0 {
        lemma_history_rows_layout(bp, f, n - 1);
        let top = history_row(bp, f, n - 1);
        let prev = history_rows(bp, f, n - 1);
        let rows = history_rows(bp, f, n);
        assert(rows == top + prev);
        lemma_history_row_nonempty(bp, f, n - 1);
        assert(rows.subrange(0, top.len() as int) =~= top);
        assert forall|i: int| 0 <= i < n implies holds_at(rows, #[trigger] history_row(bp, f, i), history_row_pos(bp, f, n, i)) by {
            if i < n - 1 {
                lemma_holds_shift(top, prev, history_row(bp, f, i), history_row_pos(bp, f, n - 1, i));
            }
        }
        assert forall|i: int, j: int| 0 <= i < j < n implies #[trigger] history_row_pos(bp, f, n, j) < #[trigger] history_row_pos(
            bp,
            f,
            n,
            i,
        ) by {
            let r = history_row(bp, f, i);
            assert(holds_at(prev, r, history_row_pos(bp, f, n - 1, i)));
            if j < n - 1 {
                assert(history_row_pos(bp, f, n - 1, j) < history_row_pos(bp, f, n - 1, i));
            }
        }
    }
}

/// The history page lists every version, one row each, newest first: the
/// row of a later version stands before the row of an earlier one.
pub proof fn lemma_history_newest_first(bp: Seq<char>, f: FamilyView)
    ensures
        forall|i: int|
            0 <= i < f.versions.len() ==> holds_at(
                history_body(bp, f),
                #[trigger] history_row(bp, f, i),
                history_top(bp, f).len() + history_row_pos(bp, f, f.versions.len() as int, i),
            ),
        forall|i: int, j: int|
            0 <= i < j < f.versions.len() ==> #[trigger] history_row_pos(bp, f, f.versions.len() as int, j)
                < #[trigger] history_row_pos(bp, f, f.versions.len() as int, i),
{
    let n = f.versions.len() as int;
    lemma_history_rows_layout(bp, f, n);
    let t = history_top(bp, f);
    let rows = history_rows(bp, f, n);
    let b = history_body(bp, f);
    assert forall|i: int| 0 <= i < n implies holds_at(b, #[trigger] history_row(bp, f, i), t.len() + history_row_pos(bp, f, n, i)) by {
        let p = history_row_pos(bp, f, n, i);
        let r = history_row(bp, f, i);
        let rest = rows + "</tbody></table>\n"@;
        assert(rest.subrange(p, p + r.len()) =~= rows.subrange(p, p + r.len()));
        lemma_holds_shift(t, rest, r, p);
        assert(b =~= t + rest);
    }
}

fn diff_link_exec(layout: Layout, family: &RecipeFamily, i: usize) -> (r: String)
    requires
        i < family.versions@.len(),
    ensures
        r@ == diff_link(layout.base_path@, family@, i as int),
{
    let mut out = String::new();
    if i > 0 {
        let prev = family.versions[i - 1].key;
        assert(family@.versions[i - 1].key == prev);
        assert(family@.versions[i as int].key == family.versions@[i as int].key);
        let rest = diff_rest_exec(prev, family.versions[i].key);
        let p = recipe_path_exec(family.slug.as_str(), rest.as_str());
        push_str(&mut out, "<a href=\"");
        push_esc_url(&mut out, layout, p.as_str());
        push_str(&mut out, "\">diff vs ");
        let pt = prev.to_text();
        push_esc(&mut out, pt.as_str());
        push_str(&mut out, "</a>");
    }
    assert(out@ =~= diff_link(layout.base_path@, family@, i as int));
    out
}

#[verifier::rlimit(40)]
fn push_history_row(out: &mut String, layout: Layout, family: &RecipeFamily, i: usize)
    requires
        i < family.versions@.len(),
        mtime_fits(family.versions@[i as int].mtime),
    ensures
        final(out)@ == old(out)@ + history_row(layout.base_path@, family@, i as int),
{
    let v = &family.versions[i];
    assert(family@.versions[i as int] == v@);
    let mut vpath = String::from_str("/v/");
    v.key.push_text(&mut vpath);
    let href = recipe_path_exec(family.slug.as_str(), vpath.as_str());
    let vt = v.key.to_text();
    let mt = mtime_exec(v.mtime);
    let cl = match recipe_changelog(&v.parsed.recipe) {
        Some(c) => c,
        None => String::new(),
    };
    assert(cl@ == changelog_text(v@));
    let dl = diff_link_exec(layout, family, i);
    push_str(out, "<tr>\n  <td><a href=\"");
    push_esc_url(out, layout, href.as_str());
    push_str(out, "\">");
    push_esc(out, vt.as_str());
    push_str(out, "</a></td>\n  <td>");
    push_esc(out, mt.as_str());
    push_str(out, "</td>\n  <td>");
    push_esc(out, cl.as_str());
    push_str(out, "</td>\n  <td>");
    push_str(out, dl.as_str());
    push_str(out, "</td>\n</tr>\n");
    reveal(history_row);
    assert(final(out)@ =~= old(out)@ + history_row(layout.base_path@, family@, i as int));
}

/// The version history page of a family.
pub fn history_page(layout: Layout, family: &RecipeFamily) -> (r: String)
    requires
        forall|i: int| 0 <= i < family.versions@.len() ==> mtime_fits(#[trigger] family.versions@[i].mtime),
    ensures
        r@ == page_spec(layout.base_path@, layout.title@, history_body(layout.base_path@, family@)),
{
    let mut body = String::from_str("<h1>");
    push_esc(&mut body, family.title.as_str());
    push_str(&mut body, " — History</h1>\n<p class=\"muted\"><a href=\"");
    let back = recipe_path_exec(family.slug.as_str(), "");
    assert(""@ =~= Seq::<char>::empty()) by { reveal_strlit(""); }
    push_esc_url(&mut body, layout, back.as_str());
    push_str(&mut body, "\">← Back to recipe</a></p>\n<table class=\"versions-table\">\n<thead><tr><th>Version</th><th>Modified</th><th>Changelog</th><th></th></tr></thead>\n<tbody>\n");
    let ghost start = body@;
    let n = family.versions.len();
    let mut k: usize = n;
    while k > 0
        invariant
            k <= n,
            n == family.versions@.len(),
            n == family@.versions.len(),
            forall|i: int| 0 <= i < family.versions@.len() ==> mtime_fits(#[trigger] family.versions@[i].mtime),
            history_rows(layout.base_path@, family@, n as int) == history_rows(layout.base_path@, family@, n as int),
            body@ + history_rows(layout.base_path@, family@, k as int) == start + history_rows(
                layout.base_path@,
                family@,
                n as int,
            ),
        decreases k,
    {
        k = k - 1;
        let ghost before = body@;
        push_history_row(&mut body, layout, family, k);
        assert(history_rows(layout.base_path@, family@, k + 1) == history_row(layout.base_path@, family@, k as int)
            + history_rows(layout.base_path@, family@, k as int));
        assert(body@ + history_rows(layout.base_path@, family@, k as int) =~= before + history_rows(
            layout.base_path@,
            family@,
            k + 1,
        ));
    }
    assert(body@ =~= start + history_rows(layout.base_path@, family@, n as int));
    push_str(&mut body, "</tbody></table>\n");
    assert(body@ =~= history_body(layout.base_path@, family@));
    page(layout, body.as_str())
}

/// The heading of a recipe page: title, version, whether it is current, and
/// the history link with the number of versions.
pub open spec fn recipe_head(bp: Seq<char>, f: FamilyView, i: int) -> Seq<char> {
    let v = f.versions[i];
    "<h1>"@ + esc_spec(f.title) + "</h1>\n<p class=\"muted\">\n  Version <strong>"@ + esc_spec(version_text(v.key))
        + "</strong>\n  "@ + (if i == f.versions.len() - 1 {
        "<span class=\"tag\">current</span>"@
    } else {
        "<span class=\"tag\">older</span>"@
    }) + "\n  · <a href=\""@ + esc_spec(url_spec(bp, recipe_path(f.slug, "/history"@))) + "\">History ("@
        + dec(f.versions.len()) + ")</a>\n</p>\n"@
}

/// The changelog of an older version, when it has one.
pub open spec fn changelog_part(f: FamilyView, i: int) -> Seq<char> {
    if i != f.versions.len() - 1 {
        match changelog_spec(f.versions[i].parsed.recipe.changelog) {
            Some(c) => "<div class=\"changelog\"><strong>Changelog:</strong> "@ + esc_spec(c) + "</div>"@,
            None => Seq::<char>::empty(),
        }
    } else {
        Seq::<char>::empty()
    }
}

/// The link comparing a version with the one before it, if any.
pub open spec fn compare_part(bp: Seq<char>, f: FamilyView, i: int) -> Seq<char> {
    if i > 0 {
        let prev = f.versions[i - 1].key;
        "<p class=\"muted\"><a href=\""@ + esc_spec(url_spec(bp, recipe_path(f.slug, diff_rest(prev, f.versions[i].key))))
            + "\">Compare to "@ + esc_spec(version_text(prev)) + "</a></p>"@
    } else {
        Seq::<char>::empty()
    }
}

/// One grouped ingredient as a list item.
pub open spec fn grouped_item(r: ParsedRecipeView, g: GroupedIngredientView) -> Seq<char> {
    "<li>"@ + named_grouped(g.name, g.quantities, notes_of(r.ingredients, g.name)) + "</li>\n"@
}

/// The first `n` grouped ingredients as list items.
pub open spec fn grouped_items(r: ParsedRecipeView, n: int) -> Seq<char>
    decreases n,
{
    if n <= 0 {
        Seq::empty()
    } else {
        grouped_items(r, n - 1) + grouped_item(r, r.grouped[n - 1])
    }
}

/// Servings, ingredients and steps of a recipe.
pub open spec fn recipe_main(r: ParsedRecipeView) -> Seq<char> {
    "<p class=\"muted\">Serves "@ + dec(servings_spec(r.servings) as nat) + "</p>"@
        + "<h2>Ingredients</h2>\n<ul class=\"ingredient-list\">\n"@ + grouped_items(r, r.grouped.len() as int)
        + "</ul>\n"@ + "<h2>Steps</h2>\n"@ + steps_html(r)
}

/// Body of the page of version `i` of a family.
pub open spec fn recipe_body(bp: Seq<char>, f: FamilyView, i: int) -> Seq<char> {
    recipe_head(bp, f, i) + changelog_part(f, i) + compare_part(bp, f, i) + recipe_main(f.versions[i].parsed.recipe)
}

/// The changelog as an older version's page shows it.
pub open spec fn changelog_block(c: Seq<char>) -> Seq<char> {
    "<div class=\"changelog\"><strong>Changelog:</strong> "@ + esc_spec(c) + "</div>"@
}

/// The page of an older version shows its changelog, if it has one, right
/// after the heading; the page of the newest version shows none: its
/// heading is followed by the comparison link and the recipe.
pub proof fn lemma_changelog_on_older(bp: Seq<char>, f: FamilyView, i: int)
    requires
        0 <= i < f.versions.len(),
    ensures
        i < f.versions.len() - 1 && changelog_spec(f.versions[i].parsed.recipe.changelog) is Some ==> holds_at(
            recipe_body(bp, f, i),
            changelog_block(changelog_spec(f.versions[i].parsed.recipe.changelog).unwrap()),
            recipe_head(bp, f, i).len() as int,
        ),
        i == f.versions.len() - 1 ==> recipe_body(bp, f, i) == recipe_head(bp, f, i) + compare_part(bp, f, i)
            + recipe_main(f.versions[i].parsed.recipe),
{
    let h = recipe_head(bp, f, i);
    let c = changelog_part(f, i);
    let rest = compare_part(bp, f, i) + recipe_main(f.versions[i].parsed.recipe);
    assert(recipe_body(bp, f, i) =~= h + c + rest);
    assert((h + c + rest).subrange(h.len() as int, (h.len() + c.len()) as int) =~= c);
    if i == f.versions.len() - 1 {
        assert(c =~= Seq::<char>::empty());
        assert(h + c + rest =~= h + compare_part(bp, f, i) + recipe_main(f.versions[i].parsed.recipe));
    }
}

fn push_recipe_head(out: &mut String, layout: Layout, family: &RecipeFamily, i: usize)
    requires
        i < family.versions@.len(),
    ensures
        final(out)@ == old(out)@ + recipe_head(layout.base_path@, family@, i as int),
{
    let v = &family.versions[i];
    assert(family@.versions[i as int] == v@);
    push_str(out, "<h1>");
    push_esc(out, family.title.as_str());
    push_str(out, "</h1>\n<p class=\"muted\">\n  Version <strong>");
    let vt = v.key.to_text();
    push_esc(out, vt.as_str());
    push_str(out, "</strong>\n  ");
    if i == family.versions.len() - 1 {
        push_str(out, "<span class=\"tag\">current</span>");
    } else {
        push_str(out, "<span class=\"tag\">older</span>");
    }
    push_str(out, "\n  · <a href=\"");
    let h = recipe_path_exec(family.slug.as_str(), "/history");
    push_esc_url(out, layout, h.as_str());
    push_str(out, "\">History (");
    push_dec(out, family.versions.len() as u128);
    push_str(out, ")</a>\n</p>\n");
    assert(final(out)@ =~= old(out)@ + recipe_head(layout.base_path@, family@, i as int));
}

fn push_changelog_part(out: &mut String, family: &RecipeFamily, i: usize)
    requires
        i < family.versions@.len(),
    ensures
        final(out)@ == old(out)@ + changelog_part(family@, i as int),
{
    assert(family@.versions[i as int] == family.versions@[i as int]@);
    if i != family.versions.len() - 1 {
        match recipe_changelog(&family.versions[i].parsed.recipe) {
            Some(c) => {
                push_str(out, "<div class=\"changelog\"><strong>Changelog:</strong> ");
                push_esc(out, c.as_str());
                push_str(out, "</div>");
            },
            None => {},
        }
    }
    assert(final(out)@ =~= old(out)@ + changelog_part(family@, i as int));
}

fn push_compare_part(out: &mut String, layout: Layout, family: &RecipeFamily, i: usize)
    requires
        i < family.versions@.len(),
    ensures
        final(out)@ == old(out)@ + compare_part(layout.base_path@, family@, i as int),
{
    if i > 0 {
        let prev = family.versions[i - 1].key;
        assert(family@.versions[i - 1].key == prev);
        assert(family@.versions[i as int].key == family.versions@[i as int].key);
        let rest = diff_rest_exec(prev, family.versions[i].key);
        let p = recipe_path_exec(family.slug.as_str(), rest.as_str());
        push_str(out, "<p class=\"muted\"><a href=\"");
        push_esc_url(out, layout, p.as_str());
        push_str(out, "\">Compare to ");
        let pt = prev.to_text();
        push_esc(out, pt.as_str());
        push_str(out, "</a></p>");
    }
    assert(final(out)@ =~= old(out)@ + compare_part(layout.base_path@, family@, i as int));
}

fn push_recipe_main(out: &mut String, recipe: &ParsedRecipe)
    requires
        steps_in_range(recipe@),
    ensures
        final(out)@ == old(out)@ + recipe_main(recipe@),
{
    push_str(out, "<p class=\"muted\">Serves ");
    push_dec(out, declared_servings(recipe) as u128);
    push_str(out, "</p>");
    push_str(out, "<h2>Ingredients</h2>\n<ul class=\"ingredient-list\">\n");
    let ghost start = out@;
    let mut k: usize = 0;
    while k < recipe.grouped.len()
        invariant
            k <= recipe.grouped@.len(),
            out@ == start + grouped_items(recipe@, k as int),
        decreases recipe.grouped@.len() - k,
    {
        let g = &recipe.grouped[k];
        assert(recipe@.grouped[k as int] == g@);
        let notes = notes_for(&recipe.ingredients, g.name.as_str());
        let s = render_named_grouped(g.name.as_str(), &g.quantities, &notes);
        push_str(out, "<li>");
        push_str(out, s.as_str());
        push_str(out, "</li>\n");
        assert(out@ =~= start + grouped_items(recipe@, k + 1));
        k = k + 1;
    }
    push_str(out, "</ul>\n");
    push_str(out, "<h2>Steps</h2>\n");
    let st = render_steps(recipe);
    push_str(out, st.as_str());
    assert(final(out)@ =~= old(out)@ + recipe_main(recipe@));
}

/// The page of version `version_idx` of a family.
pub fn recipe_view(layout: Layout, family: &RecipeFamily, version_idx: usize) -> (r: String)
    requires
        version_idx < family.versions@.len(),
        steps_in_range(family.versions@[version_idx as int].parsed.recipe@),
    ensures
        r@ == page_spec(layout.base_path@, layout.title@, recipe_body(layout.base_path@, family@, version_idx as int)),
{
    let mut body = String::new();
    push_recipe_head(&mut body, layout, family, version_idx);
    push_changelog_part(&mut body, family, version_idx);
    push_compare_part(&mut body, layout, family, version_idx);
    assert(family@.versions[version_idx as int] == family.versions@[version_idx as int]@);
    push_recipe_main(&mut body, &family.versions[version_idx].parsed.recipe);
    assert(body@ =~= recipe_body(layout.base_path@, family@, version_idx as int));
    page(layout, body.as_str())
}

/// The summary of the list page: `N recipe(s)` and the count of older versions.
pub open spec fn list_summary(fcount: nat, rcount: nat) -> Seq<char> {
    let extra = if rcount > fcount { (rcount - fcount) as nat } else { 0 };
    dec(fcount) + " "@ + (if fcount == 1 { "recipe"@ } else { "recipes"@ }) + (if extra == 0 {
        Seq::<char>::empty()
    } else if extra == 1 {
        " (+1 older version)"@
    } else {
        " (+"@ + dec(extra) + " older versions)"@
    })
}

/// The names of a recipe's ingredient mentions, joined by spaces.
pub open spec fn ingredient_blob(r: ParsedRecipeView) -> Seq<char> {
    join_texts(Seq::new(r.ingredients.len(), |i: int| r.ingredients[i].name), " "@)
}

/// A family's entry in the recipe list, under `category`.
pub open spec fn family_entry(bp: Seq<char>, f: FamilyView, category: Seq<char>) -> Seq<char> {
    let cur = f.versions.last();
    let search = f.title + " "@ + category + " "@ + ingredient_blob(cur.parsed.recipe);
    "<li class=\"recipe\" data-search-text=\""@ + esc_spec(search) + "\" data-slug=\""@ + esc_spec(f.slug)
        + "\">\n  <input type=\"checkbox\" name=\"slugs[]\" value=\""@ + esc_spec(f.slug)
        + "\">\n  <span class=\"row-title\"><a href=\""@ + esc_spec(url_spec(bp, recipe_path(f.slug, Seq::empty())))
        + "\">"@ + esc_spec(f.title) + "</a> <span class=\"tag\">"@ + esc_spec(version_text(cur.key))
        + "</span></span>\n  <span class=\"multiplier\" hidden>\n    <button type=\"button\" class=\"step-down\" aria-label=\"decrease\">−</button>\n    <output class=\"step-value\">1</output>×\n    <button type=\"button\" class=\"step-up\" aria-label=\"increase\">+</button>\n    <input type=\"hidden\" name=\"multiplier["@
        + esc_spec(f.slug) + "]\" value=\"1\" disabled>\n  </span>\n</li>\n"@
}

/// The first `n` entries of a category.
pub open spec fn family_entries(bp: Seq<char>, fs: Seq<FamilyView>, category: Seq<char>, n: int) -> Seq<char>
    decreases n,
{
    if n <= 0 {
        Seq::empty()
    } else {
        family_entries(bp, fs, category, n - 1) + family_entry(bp, fs[n - 1], category)
    }
}

/// A category section of the list, `Uncategorised` for the root.
pub open spec fn category_section(bp: Seq<char>, g: (Seq<char>, Seq<FamilyView>)) -> Seq<char> {
    let label = if g.0.len() == 0 { "Uncategorised"@ } else { g.0 };
    "<section class=\"category-group\">\n<h2>"@ + esc_spec(label) + "</h2>\n<ul class=\"recipe-list\">\n"@
        + family_entries(bp, g.1, g.0, g.1.len() as int) + "</ul></section>\n"@
}

/// The first `n` category sections.
pub open spec fn category_sections(bp: Seq<char>, gs: Seq<(Seq<char>, Seq<FamilyView>)>, n: int) -> Seq<char>
    decreases n,
{
    if n <= 0 {
        Seq::empty()
    } else {
        category_sections(bp, gs, n - 1) + category_section(bp, gs[n - 1])
    }
}

/// The top of the list page: heading, summary, filter box and form start.
pub open spec fn list_head(bp: Seq<char>, fcount: nat, rcount: nat) -> Seq<char> {
    "<h1>Recipes</h1>\n<p class=\"muted\">"@ + list_summary(fcount, rcount)
        + ".</p>\n<input id=\"search\" type=\"search\" placeholder=\"Filter by title, category, ingredient…\" autocomplete=\"off\">\n<form id=\"recipe-list-form\" method=\"post\" action=\""@
        + esc_spec(url_spec(bp, "/shopping"@)) + "\">\n<div id=\"recipe-list\">\n"@
}

/// The bottom of the list page: form end and the action bar.
pub open spec fn list_tail() -> Seq<char> {
    "</div>\n</form>\n"@
        + "<div id=\"action-bar\" class=\"action-bar\">\n  <span><strong id=\"action-count\">0</strong> selected</span>\n  <button type=\"submit\" form=\"recipe-list-form\">Generate shopping list</button>\n</div>\n"@
}

/// Body of the list page with families grouped as `gs`.
pub open spec fn list_body(bp: Seq<char>, fcount: nat, rcount: nat, gs: Seq<(Seq<char>, Seq<FamilyView>)>) -> Seq<char> {
    list_head(bp, fcount, rcount) + (if fcount == 0 {
        "<p class=\"muted\">No recipes found.</p>"@
    } else {
        category_sections(bp, gs, gs.len() as int)
    }) + list_tail()
}

#[verifier::spinoff_prover]
fn push_list_head(out: &mut String, layout: Layout, fcount: usize, rcount: usize)
    ensures
        final(out)@ == old(out)@ + list_head(layout.base_path@, fcount as nat, rcount as nat),
{
    push_str(out, "<h1>Recipes</h1>\n<p class=\"muted\">");
    let ghost a = out@;
    push_dec(out, fcount as u128);
    push_str(out, " ");
    if fcount == 1 {
        push_str(out, "recipe");
    } else {
        push_str(out, "recipes");
    }
    let extra: usize = if rcount > fcount { rcount - fcount } else { 0 };
    if extra == 1 {
        push_str(out, " (+1 older version)");
    } else if extra > 1 {
        push_str(out, " (+");
        push_dec(out, extra as u128);
        push_str(out, " older versions)");
    }
    assert(out@ =~= a + list_summary(fcount as nat, rcount as nat));
    push_str(out, ".</p>\n<input id=\"search\" type=\"search\" placeholder=\"Filter by title, category, ingredient…\" autocomplete=\"off\">\n<form id=\"recipe-list-form\" method=\"post\" action=\"");
    push_esc_url(out, layout, "/shopping");
    push_str(out, "\">\n<div id=\"recipe-list\">\n");
    assert(final(out)@ =~= old(out)@ + list_head(layout.base_path@, fcount as nat, rcount as nat));
}

fn ingredient_blob_exec(recipe: &ParsedRecipe) -> (r: String)
    ensures
        r@ == ingredient_blob(recipe@),
{
    let mut names: Vec<String> = Vec::new();
    let mut i: usize = 0;
    while i < recipe.ingredients.len()
        invariant
            i <= recipe.ingredients@.len(),
            names@.len() == i,
            forall|k: int| 0 <= k < i ==> (#[trigger] names@[k])@ == recipe.ingredients@[k]@.name,
        decreases recipe.ingredients@.len() - i,
    {
        names.push(owned(recipe.ingredients[i].name.as_str()));
        i = i + 1;
    }
    assert(views(names@) =~= Seq::new(recipe@.ingredients.len(), |i: int| recipe@.ingredients[i].name));
    join_messages(&names, " ")
}

fn push_family_entry(out: &mut String, layout: Layout, f: &RecipeFamily, category: &str)
    requires
        f@.versions.len() > 0,
    ensures
        final(out)@ == old(out)@ + family_entry(layout.base_path@, f@, category@),
{
    let cur = f.current();
    assert(f@.versions.last() == cur@);
    let mut search = owned(f.title.as_str());
    push_str(&mut search, " ");
    push_str(&mut search, category);
    push_str(&mut search, " ");
    let blob = ingredient_blob_exec(&cur.parsed.recipe);
    push_str(&mut search, blob.as_str());
    let href = recipe_path_exec(f.slug.as_str(), "");
    assert(""@ =~= Seq::<char>::empty()) by { reveal_strlit(""); }
    let vt = cur.key.to_text();
    push_str(out, "<li class=\"recipe\" data-search-text=\"");
    push_esc(out, search.as_str());
    push_str(out, "\" data-slug=\"");
    push_esc(out, f.slug.as_str());
    push_str(out, "\">\n  <input type=\"checkbox\" name=\"slugs[]\" value=\"");
    push_esc(out, f.slug.as_str());
    push_str(out, "\">\n  <span class=\"row-title\"><a href=\"");
    push_esc_url(out, layout, href.as_str());
    push_str(out, "\">");
    push_esc(out, f.title.as_str());
    push_str(out, "</a> <span class=\"tag\">");
    push_esc(out, vt.as_str());
    push_str(out, "</span></span>\n  <span class=\"multiplier\" hidden>\n    <button type=\"button\" class=\"step-down\" aria-label=\"decrease\">−</button>\n    <output class=\"step-value\">1</output>×\n    <button type=\"button\" class=\"step-up\" aria-label=\"increase\">+</button>\n    <input type=\"hidden\" name=\"multiplier[");
    push_esc(out, f.slug.as_str());
    push_str(out, "]\" value=\"1\" disabled>\n  </span>\n</li>\n");
    assert(final(out)@ =~= old(out)@ + family_entry(layout.base_path@, f@, category@));
}

fn push_category_section(out: &mut String, layout: Layout, category: &str, fams: &Vec<&RecipeFamily>)
    requires
        forall|k: int| 0 <= k < fams@.len() ==> (#[trigger] views(fams@)[k]).versions.len() > 0,
    ensures
        final(out)@ == old(out)@ + category_section(layout.base_path@, (category@, views(fams@))),
{
    push_str(out, "<section class=\"category-group\">\n<h2>");
    if category.unicode_len() == 0 {
        push_esc(out, "Uncategorised");
    } else {
        push_esc(out, category);
    }
    push_str(out, "</h2>\n<ul class=\"recipe-list\">\n");
    let ghost fv = views(fams@);
    let ghost start = out@;
    let mut k: usize = 0;
    while k < fams.len()
        invariant
            k <= fams@.len(),
            fv == views(fams@),
            forall|j: int| 0 <= j < fams@.len() ==> (#[trigger] fv[j]).versions.len() > 0,
            out@ == start + family_entries(layout.base_path@, fv, category@, k as int),
        decreases fams@.len() - k,
    {
        assert(fv[k as int] == fams@[k as int]@);
        push_family_entry(out, layout, fams[k], category);
        assert(out@ =~= start + family_entries(layout.base_path@, fv, category@, k + 1));
        k = k + 1;
    }
    push_str(out, "</ul></section>\n");
    assert(final(out)@ =~= old(out)@ + category_section(layout.base_path@, (category@, views(fams@))));
}

proof fn lemma_in_category_from(fs: Seq<FamilyView>, c: Seq<char>)
    ensures
        forall|k: int| 0 <= k < crate::index::listing::in_category(fs, c).len() ==> exists|i: int|
            0 <= i < fs.len() && #[trigger] crate::index::listing::in_category(fs, c)[k] == fs[i],
    decreases fs.len(),
{
    if fs.len() > 0 {
        lemma_in_category_from(fs.drop_last(), c);
        let m = crate::index::listing::in_category(fs.drop_last(), c);
        let mc = crate::index::listing::in_category(fs, c);
        assert forall|k: int| 0 <= k < mc.len() implies exists|i: int| 0 <= i < fs.len() && #[trigger] mc[k] == fs[i] by {
            if k < m.len() {
                assert(mc[k] == m[k]);
                let i = choose|i: int| 0 <= i < fs.drop_last().len() && m[k] == fs.drop_last()[i];
                assert(fs[i] == fs.drop_last()[i]);
            } else {
                assert(mc[k] == fs[fs.len() - 1]);
            }
        }
    }
}

proof fn lemma_groups_nonempty(idx: &Index, gs: Seq<(Seq<char>, Seq<FamilyView>)>)
    requires
        idx.wf(),
        crate::index::listing::grouped_by_category(views(idx.families@), gs),
    ensures
        forall|j: int, m: int| 0 <= j < gs.len() && 0 <= m < gs[j].1.len() ==> (#[trigger] gs[j].1[m]).versions.len() > 0,
{
    let fs = views(idx.families@);
    let cats = crate::index::listing::categories(fs);
    let gkeys = Seq::new(cats.len(), |k: int| crate::index::listing::group_key(cats[k]));
    let perm = choose|perm: Seq<int>|
        crate::shopping::order::stable_order(gkeys, perm) && gs.len() == perm.len() && forall|k: int|
            0 <= k < perm.len() ==> (#[trigger] gs[k]).0 == cats[perm[k]] && crate::index::listing::sorted_as(
                gs[k].1,
                crate::index::listing::in_category(fs, cats[perm[k]]),
                crate::index::listing::title_keys(crate::index::listing::in_category(fs, cats[perm[k]])),
            );
    assert forall|j: int, m: int| 0 <= j < gs.len() && 0 <= m < gs[j].1.len() implies (#[trigger] gs[j].1[m]).versions.len() > 0 by {
        let ic = crate::index::listing::in_category(fs, cats[perm[j]]);
        assert(crate::index::listing::sorted_as(gs[j].1, ic, crate::index::listing::title_keys(ic)));
        let p2 = choose|p2: Seq<int>|
            crate::shopping::order::stable_order(crate::index::listing::title_keys(ic), p2) && gs[j].1.len() == p2.len()
                && forall|k: int| 0 <= k < p2.len() ==> gs[j].1[k] == ic[#[trigger] p2[k]];
        assert(gs[j].1[m] == ic[p2[m]]);
        lemma_in_category_from(fs, cats[perm[j]]);
        let i = choose|i: int| 0 <= i < fs.len() && ic[p2[m]] == fs[i];
        assert(idx.families@[i].wf());
        assert(fs[i] == idx.families@[i]@);
    }
}

/// The recipe list page, families grouped by category (see
/// `Index::families_by_category`).
pub fn list_page(layout: Layout, idx: &Index) -> (r: String)
    requires
        idx.wf(),
        crate::index::versions_total(idx.families@, idx.families@.len() as int) <= usize::MAX,
    ensures
        exists|gs: Seq<(Seq<char>, Seq<FamilyView>)>|
            crate::index::listing::grouped_by_category(views(idx.families@), gs) && r@ == page_spec(
                layout.base_path@,
                layout.title@,
                list_body(
                    layout.base_path@,
                    idx.families@.len(),
                    crate::index::versions_total(idx.families@, idx.families@.len() as int) as nat,
                    gs,
                ),
            ),
{
    let fcount = idx.family_count();
    let rcount = idx.recipe_count();
    let mut body = String::new();
    push_list_head(&mut body, layout, fcount, rcount);
    let groups = idx.families_by_category();
    let ghost gs = crate::index::listing::group_views(groups@);
    let ghost start = body@;
    proof {
        lemma_groups_nonempty(idx, gs);
    }
    if fcount == 0 {
        push_str(&mut body, "<p class=\"muted\">No recipes found.</p>");
    } else {
        let mut k: usize = 0;
        while k < groups.len()
            invariant
                k <= groups@.len(),
                gs == crate::index::listing::group_views(groups@),
                idx.wf(),
                forall|j: int, m: int| 0 <= j < gs.len() && 0 <= m < gs[j].1.len() ==> (#[trigger] gs[j].1[m]).versions.len() > 0,
                body@ == start + category_sections(layout.base_path@, gs, k as int),
            decreases groups@.len() - k,
        {
            assert(gs[k as int] == (groups@[k as int].0@, views(groups@[k as int].1@)));
            assert forall|m: int| 0 <= m < groups@[k as int].1@.len() implies (#[trigger] views(groups@[k as int].1@)[m]).versions.len() > 0 by {
                assert(views(groups@[k as int].1@)[m] == gs[k as int].1[m]);
            }
            push_category_section(&mut body, layout, groups[k].0.as_str(), &groups[k].1);
            assert(body@ =~= start + category_sections(layout.base_path@, gs, k + 1));
            k = k + 1;
        }
    }
    let ghost mid = body@;
    push_str(&mut body, "</div>\n</form>\n");
    push_str(&mut body, "<div id=\"action-bar\" class=\"action-bar\">\n  <span><strong id=\"action-count\">0</strong> selected</span>\n  <button type=\"submit\" form=\"recipe-list-form\">Generate shopping list</button>\n</div>\n");
    assert(body@ =~= mid + list_tail());
    assert(body@ =~= list_body(layout.base_path@, fcount as nat, rcount as nat, gs));
    page(layout, body.as_str())
}

/// A version whose page and history row can be rendered: its steps name
/// existing components and its modification year fits the date arithmetic.
pub open spec fn version_renderable(v: Version) -> bool {
    steps_in_range(v.parsed.recipe@) && mtime_fits(v.mtime)
}

/// Every version of every family is renderable.
pub open spec fn index_renderable(idx: &Index) -> bool {
    forall|f: int, i: int|
        0 <= f < idx.families@.len() && 0 <= i < idx.families@[f].versions@.len() ==> version_renderable(
            #[trigger] idx.families@[f].versions@[i],
        )
}

fn year_fits(days: u64) -> (r: bool)
    requires
        days <= 200_000_000_000_000,
    ensures
        r == civil_year_fits(days as int),
{
    let z: u64 = days + 719_468;
    let era: u64 = z / 146_097;
    let doe: u64 = z - era * 146_097;
    let yoe: u64 = (doe - doe / 1460 + doe / 36524 - doe / 146_096) / 365;
    assert(doe < 146_097) by (nonlinear_arith)
        requires
            era == z / 146_097,
            doe == z - era * 146_097,
    ;
    assert(era * 400 <= 1_000_000_000_000_000) by (nonlinear_arith)
        requires
            era == z / 146_097,
            z <= 200_000_000_719_468,
    ;
    era * 400 + yoe + 1 <= 2_147_483_647
}

fn mtime_ok(m: Option<u64>) -> (r: bool)
    ensures
        r == mtime_fits(m),
{
    match m {
        Some(t) => if t <= 9_223_372_036_854_775_807 {
            year_fits(t / 86_400)
        } else {
            true
        },
        None => true,
    }
}

fn steps_ok(r: &ParsedRecipe) -> (b: bool)
    ensures
        b == steps_in_range(r@),
{
    let ghost rv = r@;
    let mut s: usize = 0;
    while s < r.sections.len()
        invariant
            s <= r.sections@.len(),
            rv == r@,
            forall|s0: int, c0: int| 0 <= s0 < s && 0 <= c0 < rv.sections[s0].content.len() ==> content_in_range(rv, #[trigger] rv.sections[s0].content[c0]),
        decreases r.sections@.len() - s,
    {
        let sec = &r.sections[s];
        assert(rv.sections[s as int] == sec@);
        let mut c: usize = 0;
        while c < sec.content.len()
            invariant
                c <= sec.content@.len(),
                rv == r@,
                s < rv.sections.len(),
                rv.sections[s as int] == sec@,
                forall|s0: int, c0: int| 0 <= s0 < s && 0 <= c0 < rv.sections[s0].content.len() ==> content_in_range(rv, #[trigger] rv.sections[s0].content[c0]),
                forall|c0: int| 0 <= c0 < c ==> content_in_range(rv, #[trigger] rv.sections[s as int].content[c0]),
            decreases sec.content@.len() - c,
        {
            assert(rv.sections[s as int].content[c as int] == sec.content@[c as int]@);
            match &sec.content[c] {
                Content::Step(items) => {
                    let ghost iv = views(items@);
                    let mut k: usize = 0;
                    while k < items.len()
                        invariant
                            k <= items@.len(),
                            iv == views(items@),
                            rv == r@,
                            s < rv.sections.len(),
                            c < rv.sections[s as int].content.len(),
                            rv.sections[s as int].content[c as int] == ContentView::Step(iv),
                            forall|j: int| 0 <= j < k ==> item_in_range(rv, #[trigger] iv[j]),
                        decreases items@.len() - k,
                    {
                        assert(iv[k as int] == items@[k as int]@);
                        let ok = match &items[k] {
                            Item::Text(_) => true,
                            Item::Ingredient(i) => *i < r.ingredients.len(),
                            Item::Cookware(i) => *i < r.cookware.len(),
                            Item::Timer(i) => *i < r.timers.len(),
                            Item::InlineQuantity(i) => *i < r.inline_quantities.len(),
                        };
                        if !ok {
                            assert(!item_in_range(rv, iv[k as int]));
                            assert(!content_in_range(rv, rv.sections[s as int].content[c as int]));
                            return false;
                        }
                        k = k + 1;
                    }
                    assert(step_in_range(rv, iv));
                },
                Content::Text(_) => {},
            }
            assert(content_in_range(rv, rv.sections[s as int].content[c as int]));
            c = c + 1;
        }
        s = s + 1;
    }
    true
}

/// Whether every version of every family is renderable.
pub fn renderable(idx: &Index) -> (r: bool)
    ensures
        r == index_renderable(idx),
{
    let mut f: usize = 0;
    while f < idx.families.len()
        invariant
            f <= idx.families@.len(),
            forall|f0: int, i: int| 0 <= f0 < f && 0 <= i < idx.families@[f0].versions@.len() ==> version_renderable(#[trigger] idx.families@[f0].versions@[i]),
        decreases idx.families@.len() - f,
    {
        let fam = &idx.families[f];
        let mut i: usize = 0;
        while i < fam.versions.len()
            invariant
                i <= fam.versions@.len(),
                f < idx.families@.len(),
                *fam == idx.families@[f as int],
                forall|f0: int, i0: int| 0 <= f0 < f && 0 <= i0 < idx.families@[f0].versions@.len() ==> version_renderable(#[trigger] idx.families@[f0].versions@[i0]),
                forall|i0: int| 0 <= i0 < i ==> version_renderable(#[trigger] fam.versions@[i0]),
            decreases fam.versions@.len() - i,
        {
            let v = &fam.versions[i];
            if !(steps_ok(&v.parsed.recipe) && mtime_ok(v.mtime)) {
                assert(!version_renderable(idx.families@[f as int].versions@[i as int]));
                return false;
            }
            i = i + 1;
        }
        f = f + 1;
    }
    true
}

} // verus!
