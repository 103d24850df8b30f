//! Cooklang parsing: the outside parser's result turned into the library's recipe model.

use super::{views,
    Content, GroupedIngredient, GroupedIngredientView, Ingredient, IngredientView, Item, QtyValue, Qty, QtyView,
    ParsedRecipe, ParsedRecipeView, Section, SectionView, Timer, TimerView,
};
use vstd::multiset::Multiset;
use crate::text::{chars_of, push_str, str_eq, trim, trim_bounds};
use cooklang::{Content as CookContent, Item as CookItem, Value as CookValue};
use vstd::prelude::*;

verus! {

#[verifier::external_type_specification]
#[verifier::external_body]
pub struct ExCooklangRecipe(cooklang::Recipe);

#[verifier::external_type_specification]
#[verifier::external_body]
pub struct ExCooklangQuantity(cooklang::Quantity);

/// What the extended Cooklang parser reports of a source: the messages of its
/// warnings when it succeeds, of its errors when it fails.
pub uninterp spec fn cooklang_report(source: Seq<char>) -> Result<Seq<Seq<char>>, Seq<Seq<char>>>;

/// The recipe the extended Cooklang parser makes of a source it accepts, read
/// into this library's model: metadata, ingredients, cookware, timers, inline
/// quantities and sections.
pub uninterp spec fn cooklang_model(source: Seq<char>) -> RecipeModelView;

/// What `IngredientList::from_recipe` with the bundled converter makes of the
/// recipe of a source the parser accepts: the ingredient names in order, each
/// with the multiset of its grouped quantities. The order of the quantities
/// within a group is not part of it: those in units the converter does not
/// know are kept in a hash map and come out in its order.
pub uninterp spec fn cooklang_grouped(source: Seq<char>) -> Seq<(Seq<char>, Multiset<QtyView>)>;

/// The parts of a parsed recipe that the parser fixes, all but the grouped list.
pub struct RecipeModelView {
    pub title: Option<Seq<char>>,
    pub changelog: Option<Seq<char>>,
    pub servings: Option<u32>,
    pub ingredients: Seq<IngredientView>,
    pub cookware: Seq<Seq<char>>,
    pub timers: Seq<TimerView>,
    pub inline_quantities: Seq<QtyView>,
    pub sections: Seq<SectionView>,
}

/// The grouped list `g` is the grouped list `fixed` with each group's
/// quantities in some order.
pub open spec fn grouped_as(g: Seq<GroupedIngredientView>, fixed: Seq<(Seq<char>, Multiset<QtyView>)>) -> bool {
    &&& g.len() == fixed.len()
    &&& forall|i: int|
        0 <= i < g.len() ==> (#[trigger] g[i]).name == fixed[i].0 && g[i].quantities.to_multiset() == fixed[i].1
}

/// `r` is what this library makes of the recipe the parser makes of
/// `source`: every part as named by `cooklang_model`, the grouped list as
/// named by `cooklang_grouped` up to the order of each group's quantities.
pub open spec fn model_of(source: Seq<char>, r: ParsedRecipeView) -> bool {
    let m = cooklang_model(source);
    &&& r.title == m.title
    &&& r.changelog == m.changelog
    &&& r.servings == m.servings
    &&& r.ingredients == m.ingredients
    &&& r.cookware == m.cookware
    &&& r.timers == m.timers
    &&& r.inline_quantities == m.inline_quantities
    &&& r.sections == m.sections
    &&& grouped_as(r.grouped, cooklang_grouped(source))
}

/// `cooklang::CooklangParser::extended().parse(source).into_result()`: the
/// messages of the warnings when it succeeds, or of the errors when it fails,
/// as named by `cooklang_report`.
#[verifier::external_body]
fn cooklang_parse(source: &str) -> (r: Result<Vec<String>, Vec<String>>)
    ensures
        match r {
            Ok(w) => cooklang_report(source@) == Ok::<Seq<Seq<char>>, Seq<Seq<char>>>(views(w@)),
            Err(e) => cooklang_report(source@) == Err::<Seq<Seq<char>>, Seq<Seq<char>>>(views(e@)),
        },
{
    match cooklang::CooklangParser::extended().parse(source).into_result() {
        Ok((_, report)) => Ok(report.warnings().map(|w| w.message.to_string()).collect()),
        Err(report) => Err(report.errors().map(|e| e.message.to_string()).collect()),
    }
}

/// The recipe `CooklangParser::extended().parse(source)` makes of a source it
/// accepts (it does not fail there: the parser is a function of the source).
/// Nothing is stated of the result, an outside value: the field readers
/// below state what the model holds, by `cooklang_model`.
#[verifier::external_body]
fn parse_recipe(source: &str) -> cooklang::Recipe
    requires
        cooklang_report(source@) is Ok,
{
    cooklang::CooklangParser::extended().parse(source).into_result().ok().unwrap().0
}

/// A quantity of the parser in the library's form: its value (numbers as the
/// decimal text of `Number::value`) and its unit. Used by the field readers
/// below, whose contracts state the quantities they read.
#[verifier::external_body]
fn cook_qty(q: &cooklang::Quantity) -> Qty {
    Qty {
        value: match q.value() {
            CookValue::Number(n) => QtyValue::Number(n.value().to_string()),
            CookValue::Range { start, end } => QtyValue::Range(start.value().to_string(), end.value().to_string()),
            CookValue::Text(t) => QtyValue::Text(t.clone()),
        },
        unit: q.unit().map(|u| u.to_string()),
    }
}

/// `Metadata::title` of the parsed recipe.
#[verifier::external_body]
fn cook_title(source: &str) -> (r: Option<String>)
    requires
        cooklang_report(source@) is Ok,
    ensures
        super::opt_view(r) == cooklang_model(source@).title,
{
    parse_recipe(source).metadata.title().map(|s| s.to_string())
}

/// The `changelog` metadata entry of the parsed recipe, when it is a string.
#[verifier::external_body]
fn cook_changelog(source: &str) -> (r: Option<String>)
    requires
        cooklang_report(source@) is Ok,
    ensures
        super::opt_view(r) == cooklang_model(source@).changelog,
{
    parse_recipe(source).metadata.map.get("changelog").and_then(|v| v.as_str()).map(|s| s.to_string())
}

/// `Metadata::servings` of the parsed recipe, when it is a number.
#[verifier::external_body]
fn cook_servings(source: &str) -> (r: Option<u32>)
    requires
        cooklang_report(source@) is Ok,
    ensures
        r == cooklang_model(source@).servings,
{
    parse_recipe(source).metadata.servings().and_then(|s| s.as_number())
}

/// The ingredients of the parsed recipe: name, whether it is a definition
/// (`IngredientRelation::is_definition`), quantity and note.
#[verifier::external_body]
fn cook_ingredients(source: &str) -> (r: Vec<Ingredient>)
    requires
        cooklang_report(source@) is Ok,
    ensures
        views(r@) == cooklang_model(source@).ingredients,
{
    parse_recipe(source).ingredients.iter().map(|i| Ingredient {
        name: i.name.clone(),
        is_definition: i.relation.is_definition(),
        quantity: i.quantity.as_ref().map(cook_qty),
        note: i.note.clone(),
    }).collect()
}

/// The cookware names of the parsed recipe.
#[verifier::external_body]
fn cook_cookware(source: &str) -> (r: Vec<String>)
    requires
        cooklang_report(source@) is Ok,
    ensures
        views(r@) == cooklang_model(source@).cookware,
{
    parse_recipe(source).cookware.iter().map(|c| c.name.clone()).collect()
}

/// The timers of the parsed recipe: name and quantity.
#[verifier::external_body]
fn cook_timers(source: &str) -> (r: Vec<Timer>)
    requires
        cooklang_report(source@) is Ok,
    ensures
        views(r@) == cooklang_model(source@).timers,
{
    parse_recipe(source).timers.iter().map(|t| Timer { name: t.name.clone(), quantity: t.quantity.as_ref().map(cook_qty) }).collect()
}

/// The inline quantities of the parsed recipe.
#[verifier::external_body]
fn cook_inline_quantities(source: &str) -> (r: Vec<Qty>)
    requires
        cooklang_report(source@) is Ok,
    ensures
        views(r@) == cooklang_model(source@).inline_quantities,
{
    parse_recipe(source).inline_quantities.iter().map(cook_qty).collect()
}

/// The sections of the parsed recipe, each step as its items.
#[verifier::external_body]
fn cook_sections(source: &str) -> (r: Vec<Section>)
    requires
        cooklang_report(source@) is Ok,
    ensures
        views(r@) == cooklang_model(source@).sections,
{
    parse_recipe(source).sections.iter().map(|s| Section {
        name: s.name.clone(),
        content: s.content.iter().map(|c| match c {
            CookContent::Step(st) => Content::Step(st.items.iter().map(|it| match it {
                CookItem::Text { value } => Item::Text(value.clone()),
                CookItem::Ingredient { index } => Item::Ingredient(*index),
                CookItem::Cookware { index } => Item::Cookware(*index),
                CookItem::Timer { index } => Item::Timer(*index),
                CookItem::InlineQuantity { index } => Item::InlineQuantity(*index),
            }).collect()),
            CookContent::Text(t) => Content::Text(t.clone()),
        }).collect(),
    }).collect()
}

/// `IngredientList::from_recipe(recipe, &Converter::bundled(), true)` of the
/// parsed recipe: the ingredients grouped by name (in the list's insertion
/// order) with their quantities summed where units allow. Only the multiset
/// of each group's quantities is stated: `GroupedQuantity::iter` yields those
/// in unknown units in the order of a randomly seeded hash map.
#[verifier::external_body]
fn cook_grouped(source: &str) -> (r: Vec<GroupedIngredient>)
    requires
        cooklang_report(source@) is Ok,
    ensures
        grouped_as(views(r@), cooklang_grouped(source@)),
{
    let recipe = parse_recipe(source);
    let list = cooklang::ingredient_list::IngredientList::from_recipe(&recipe, &cooklang::convert::Converter::bundled(), true);
    list.iter().map(|(n, g)| GroupedIngredient { name: n.clone(), quantities: g.iter().map(cook_qty).collect() }).collect()
}

/// The library's model of the recipe the parser makes of an accepted source.
fn recipe_model(source: &str) -> (r: ParsedRecipe)
    requires
        cooklang_report(source@) is Ok,
    ensures
        model_of(source@, r@),
{
    ParsedRecipe {
        title: cook_title(source),
        changelog: cook_changelog(source),
        servings: cook_servings(source),
        ingredients: cook_ingredients(source),
        cookware: cook_cookware(source),
        timers: cook_timers(source),
        inline_quantities: cook_inline_quantities(source),
        sections: cook_sections(source),
        grouped: cook_grouped(source),
    }
}

/// A parsed recipe and the warnings worth showing.
#[derive(Debug, Clone)]
pub struct ParseOutcome {
    pub recipe: ParsedRecipe,
    pub warnings: Vec<String>,
}

/// View of a parse outcome.
pub struct ParseOutcomeView {
    pub recipe: super::ParsedRecipeView,
    pub warnings: Seq<Seq<char>>,
}

impl View for ParseOutcome {
    type V = ParseOutcomeView;

    open spec fn view(&self) -> ParseOutcomeView {
        ParseOutcomeView { recipe: self.recipe@, warnings: views(self.warnings@) }
    }
}

/// The view of a parse error.
pub enum ParseErrorView {
    Io(Seq<char>),
    Cooklang(Seq<char>),
}

/// Why a recipe could not be parsed.
#[derive(Debug, Clone)]
pub enum ParseError {
    /// The file could not be read (the I/O error's message).
    Io(String),
    /// The Cooklang parser reported errors (their messages joined by `"; "`).
    Cooklang(String),
}

impl View for ParseError {
    type V = ParseErrorView;

    open spec fn view(&self) -> ParseErrorView {
        match self {
            ParseError::Io(m) => ParseErrorView::Io(m@),
            ParseError::Cooklang(m) => ParseErrorView::Cooklang(m@),
        }
    }
}

/// Message of a parse error.
pub open spec fn parse_error_message(e: ParseErrorView) -> Seq<char> {
    match e {
        ParseErrorView::Io(m) => "io error: "@ + m,
        ParseErrorView::Cooklang(m) => "cooklang parse failed:\n"@ + m,
    }
}

impl ParseError {
    /// The error message.
    pub fn message(&self) -> (r: String)
        ensures
            r@ == parse_error_message(self@),
    {
        let mut out = String::new();
        match self {
            ParseError::Io(m) => {
                push_str(&mut out, "io error: ");
                push_str(&mut out, m.as_str());
            },
            ParseError::Cooklang(m) => {
                push_str(&mut out, "cooklang parse failed:\n");
                push_str(&mut out, m.as_str());
            },
        }
        out
    }
}

/// Whether `s` contains `t` at position `i`.
pub open spec fn occurs_at(s: Seq<char>, t: Seq<char>, i: int) -> bool {
    0 <= i && i + t.len() <= s.len() && s.subrange(i, i + t.len()) == t
}

/// Whether `t` occurs in `s` (`str::contains`).
pub open spec fn contains_spec(s: Seq<char>, t: Seq<char>) -> bool {
    exists|i: int| occurs_at(s, t, i)
}

/// Whether `s` starts with `t`.
pub open spec fn starts_with_spec(s: Seq<char>, t: Seq<char>) -> bool {
    occurs_at(s, t, 0)
}

/// Whether `t` occurs in `s` at position `i`.
pub fn occurs_at_exec(s: &Vec<char>, t: &Vec<char>, i: usize) -> (r: bool)
    requires
        i <= s@.len(),
    ensures
        r == occurs_at(s@, t@, i as int),
{
    let slen = s.len();
    if t.len() > slen - i {
        return false;
    }
    let mut k: usize = 0;
    while k < t.len()
        invariant
            k <= t@.len(),
            slen == s@.len(),
            i + t@.len() <= s@.len(),
            forall|j: int| 0 <= j < k ==> s@[i + j] == t@[j],
        decreases t@.len() - k,
    {
        if s[i + k] != t[k] {
            assert(s@.subrange(i as int, i + t@.len())[k as int] != t@[k as int]);
            return false;
        }
        k = k + 1;
    }
    assert(s@.subrange(i as int, i + t@.len()) =~= t@);
    true
}

/// `str::contains` with a string pattern.
pub fn contains(s: &str, t: &str) -> (r: bool)
    ensures
        r == contains_spec(s@, t@),
{
    let sc = chars_of(s);
    let tc = chars_of(t);
    let mut i: usize = 0;
    while i < sc.len()
        invariant
            i <= sc@.len(),
            sc@ == s@,
            tc@ == t@,
            forall|j: int| 0 <= j < i ==> !occurs_at(s@, t@, j),
        decreases sc@.len() - i,
    {
        if occurs_at_exec(&sc, &tc, i) {
            return true;
        }
        i = i + 1;
    }
    if occurs_at_exec(&sc, &tc, i) {
        return true;
    }
    assert forall|j: int| !occurs_at(s@, t@, j) by {
        if 0 <= j <= i {
        }
    };
    false
}

/// `str::starts_with` with a string pattern.
pub fn starts_with(s: &str, t: &str) -> (r: bool)
    ensures
        r == starts_with_spec(s@, t@),
{
    let sc = chars_of(s);
    let tc = chars_of(t);
    occurs_at_exec(&sc, &tc, 0)
}

/// Warnings the parser emits for shapes this project supports on purpose
/// (the `>>` metadata shorthand, servings read as a number).
pub open spec fn is_noise_warning_spec(msg: Seq<char>) -> bool {
    let m = trim(msg);
    contains_spec(m, "'>>' syntax for metadata is deprecated"@) || starts_with_spec(
        m,
        "Unsupported value for key"@,
    )
}

/// Whether a parser warning is noise to drop.
pub fn is_noise_warning(msg: &str) -> (r: bool)
    ensures
        r == is_noise_warning_spec(msg@),
{
    let t = crate::text::trimmed(msg);
    contains(t.as_str(), "'>>' syntax for metadata is deprecated") || starts_with(
        t.as_str(),
        "Unsupported value for key",
    )
}

/// The texts of `v` joined by `sep`.
pub open spec fn join_texts(v: Seq<Seq<char>>, sep: Seq<char>) -> Seq<char> {
    crate::paths::join(v, sep)
}

/// `msgs` without noise warnings, in order.
pub open spec fn kept_warnings(msgs: Seq<Seq<char>>) -> Seq<Seq<char>>
    decreases msgs.len(),
{
    if msgs.len() == 0 {
        Seq::<Seq<char>>::empty()
    } else {
        let r = kept_warnings(msgs.drop_last());
        if is_noise_warning_spec(msgs.last()) {
            r
        } else {
            r.push(msgs.last())
        }
    }
}

/// The error message of a failed parse: the messages joined by `"; "`, or
/// `"unknown parse error"` when there are none.
pub open spec fn failure_message(msgs: Seq<Seq<char>>) -> Seq<char> {
    let m = join_texts(msgs, "; "@);
    if m.len() == 0 {
        "unknown parse error"@
    } else {
        m
    }
}

/// Drop noise warnings.
pub fn filter_warnings(msgs: Vec<String>) -> (r: Vec<String>)
    ensures
        views(r@) == kept_warnings(views(msgs@)),
{
    let mut out: Vec<String> = Vec::new();
    let mut i: usize = 0;
    while i < msgs.len()
        invariant
            i <= msgs@.len(),
            views(out@) == kept_warnings(views(msgs@.subrange(0, i as int))),
        decreases msgs@.len() - i,
    {
        let ghost pre = views(msgs@.subrange(0, i + 1));
        assert(pre.drop_last() =~= views(msgs@.subrange(0, i as int)));
        if !is_noise_warning(msgs[i].as_str()) {
            let ghost before = views(out@);
            out.push(crate::text::owned(msgs[i].as_str()));
            assert(views(out@) =~= before.push(msgs@[i as int]@));
        }
        i = i + 1;
    }
    assert(msgs@.subrange(0, i as int) =~= msgs@);
    out
}

/// Join messages with `"; "`.
pub fn join_messages(msgs: &Vec<String>, sep: &str) -> (r: String)
    ensures
        r@ == join_texts(views(msgs@), sep@),
{
    let mut out = String::new();
    let mut i: usize = 0;
    while i < msgs.len()
        invariant
            i <= msgs@.len(),
            out@ == join_texts(views(msgs@.subrange(0, i as int)), sep@),
        decreases msgs@.len() - i,
    {
        let ghost pre = views(msgs@.subrange(0, i + 1));
        assert(pre.drop_last() =~= views(msgs@.subrange(0, i as int)));
        if i > 0 {
            push_str(&mut out, sep);
        } else {
            assert(views(msgs@.subrange(0, 0)) =~= Seq::<Seq<char>>::empty());
        }
        push_str(&mut out, msgs[i].as_str());
        i = i + 1;
    }
    assert(msgs@.subrange(0, i as int) =~= msgs@);
    out
}

/// The outcome of a parse from what the parser reported: on success the
/// recipe with the parser's warnings, noise dropped; on failure the error
/// messages joined by `"; "` (or `"unknown parse error"`).
pub fn parse_outcome(reported: Result<(ParsedRecipe, Vec<String>), Vec<String>>) -> (r: Result<ParseOutcome, ParseError>)
    ensures
        match reported {
            Ok((recipe, warnings)) => r matches Ok(o) && o.recipe@ == recipe@ && views(o.warnings@)
                == kept_warnings(views(warnings@)),
            Err(errors) => r matches Err(e) && e@ == ParseErrorView::Cooklang(
                failure_message(views(errors@)),
            ),
        },
{
    match reported {
        Ok((recipe, warnings)) => Ok(ParseOutcome { recipe, warnings: filter_warnings(warnings) }),
        Err(errors) => {
            let msg = join_messages(&errors, "; ");
            if chars_of(msg.as_str()).len() == 0 {
                Err(ParseError::Cooklang(String::from_str("unknown parse error")))
            } else {
                Err(ParseError::Cooklang(msg))
            }
        },
    }
}

/// `p` is what parsing `source` gives as far as the parser's report goes:
/// success with its warnings, noise dropped, or the failure with its
/// error messages.
pub open spec fn parsed_from(source: Seq<char>, p: Result<ParseOutcomeView, ParseErrorView>) -> bool {
    match cooklang_report(source) {
        Ok(w) => p matches Ok(o) && o.warnings == kept_warnings(w) && model_of(source, o.recipe),
        Err(e) => p == Err::<ParseOutcomeView, ParseErrorView>(ParseErrorView::Cooklang(failure_message(e))),
    }
}

/// View of a parse result.
pub open spec fn result_view(p: Result<ParseOutcome, ParseError>) -> Result<ParseOutcomeView, ParseErrorView> {
    match p {
        Ok(o) => Ok(o@),
        Err(e) => Err(e@),
    }
}

/// Parse Cooklang source with the extended parser. Warnings are the
/// parser's, noise dropped; a failure carries the parser's error messages.
pub fn parse_str(source: &str) -> (r: Result<ParseOutcome, ParseError>)
    ensures
        parsed_from(source@, result_view(r)),
{
    let reported = match cooklang_parse(source) {
        Ok(warnings) => Ok((recipe_model(source), warnings)),
        Err(errors) => Err(errors),
    };
    parse_outcome(reported)
}

} // verus!
