//! Aggregation of selected recipes into a shopping list.
//!
//! Ingredients are scaled by `requested_servings / declared_servings`, grouped
//! by `(normalized_name, dimension)` and summed. Mismatched dimensions under
//! the same name stay separate line items with a warning.

pub mod aisle;
pub mod bins;
pub mod order;
pub mod render;

use crate::index::scan::{parse_version_spec, version_text, VersionKey};
use crate::index::slug::slug_of;
use crate::index::{Index, RecipeFamily, Slug, Version};
use crate::search::{first_index, lemma_first_index};
use aisle::{aisle_input, aisle_parse_result, last_category, parse_aisles, sort_pos, AisleCategoryView};
use bins::{add_to_bins, add_to_bins_exec, demote, demoted, mixed_units, mixed_units_exec, AggView, Bin, BinView};
use order::{stable_order, stable_sort, ExecKey, SortKey};
use crate::recipe::units::{
    canonical_spec, canonicalize, decimal_micros, display_spec, dimension_text, format_display,
    parse_decimal, round_div, round_div_exec, unit_error_message, Canonical, Dimension, UnitError,
    UnitErrorView,
};
use crate::recipe::{
    declared_servings, opt_view, recipe_title, servings_spec, views, IngredientView, ParsedRecipeView, QtyValue,
    QtyValueView, QtyView,
};
use crate::text::{chars_of, lower_ascii_seq, owned, push_str, str_eq, string_of_range, trim, unicode_lower};
use vstd::prelude::*;

verus! {

/// One recipe selected for the list, with the version and servings wanted.
///
/// When `override_servings` is set the recipe is scaled to that many
/// servings; otherwise `multiplier` scales to `declared * multiplier`
/// servings. If both are set, `override_servings` wins.
#[derive(Debug, Clone, Default)]
pub struct Selection {
    pub slug: String,
    pub version: Option<VersionKey>,
    pub override_servings: Option<u32>,
    pub multiplier: Option<u32>,
}

/// View of a selection.
pub struct SelectionView {
    pub slug: Seq<char>,
    pub version: Option<VersionKey>,
    pub override_servings: Option<u32>,
    pub multiplier: Option<u32>,
}

impl View for Selection {
    type V = SelectionView;

    open spec fn view(&self) -> SelectionView {
        SelectionView {
            slug: self.slug@,
            version: self.version,
            override_servings: self.override_servings,
            multiplier: self.multiplier,
        }
    }
}

/// A recipe version the list was built from.
#[derive(Debug, Clone, PartialEq)]
pub struct SourceRef {
    pub slug: String,
    pub title: String,
    pub version: VersionKey,
    pub servings: u32,
}

/// View of a source reference.
pub struct SourceRefView {
    pub slug: Seq<char>,
    pub title: Seq<char>,
    pub version: VersionKey,
    pub servings: u32,
}

impl View for SourceRef {
    type V = SourceRefView;

    open spec fn view(&self) -> SourceRefView {
        SourceRefView {
            slug: self.slug@,
            title: self.title@,
            version: self.version,
            servings: self.servings,
        }
    }
}

impl SourceRef {
    /// A copy of this reference.
    pub fn duplicate(&self) -> (r: SourceRef)
        ensures
            r@ == self@,
    {
        SourceRef {
            slug: owned(self.slug.as_str()),
            title: owned(self.title.as_str()),
            version: self.version,
            servings: self.servings,
        }
    }
}

/// A selection that could not be (fully) resolved.
#[derive(Debug, Clone, PartialEq)]
pub struct ResolutionError {
    pub slug: String,
    pub message: String,
}

/// View of a resolution error.
pub struct ResolutionErrorView {
    pub slug: Seq<char>,
    pub message: Seq<char>,
}

impl View for ResolutionError {
    type V = ResolutionErrorView;

    open spec fn view(&self) -> ResolutionErrorView {
        ResolutionErrorView { slug: self.slug@, message: self.message@ }
    }
}

/// One line of the shopping list.
#[derive(Debug, Clone, PartialEq)]
pub struct LineItem {
    pub display_name: String,
    /// `None` when only counted-text or unscalable.
    pub canonical: Option<Canonical>,
    pub display: String,
    pub notes: Vec<String>,
    pub sources: Vec<SourceRef>,
    pub warning: Option<String>,
    /// Aisle the ingredient belongs to per `aisle.conf`, if listed there.
    pub category: Option<String>,
}

/// View of a line item.
pub struct LineItemView {
    pub display_name: Seq<char>,
    pub canonical: Option<Canonical>,
    pub display: Seq<char>,
    pub notes: Seq<Seq<char>>,
    pub sources: Seq<SourceRefView>,
    pub warning: Option<Seq<char>>,
    pub category: Option<Seq<char>>,
}

impl View for LineItem {
    type V = LineItemView;

    open spec fn view(&self) -> LineItemView {
        LineItemView {
            display_name: self.display_name@,
            canonical: self.canonical,
            display: self.display@,
            notes: views(self.notes@),
            sources: views(self.sources@),
            warning: opt_view(self.warning),
            category: opt_view(self.category),
        }
    }
}

/// An aggregated shopping list.
#[derive(Debug, Clone)]
pub struct ShoppingList {
    pub items: Vec<LineItem>,
    pub sources: Vec<SourceRef>,
    pub errors: Vec<ResolutionError>,
}

/// View of a shopping list.
pub struct ShoppingListView {
    pub items: Seq<LineItemView>,
    pub sources: Seq<SourceRefView>,
    pub errors: Seq<ResolutionErrorView>,
}

impl View for ShoppingList {
    type V = ShoppingListView;

    open spec fn view(&self) -> ShoppingListView {
        ShoppingListView {
            items: views(self.items@),
            sources: views(self.sources@),
            errors: views(self.errors@),
        }
    }
}

/// `parse_selection`: `slug`, or `slug@<version>` split at the first `@`.
pub open spec fn selection_spec(s: Seq<char>) -> SelectionView {
    let p = crate::index::scan::find_char(s, '@');
    if p < s.len() {
        SelectionView {
            slug: s.subrange(0, p),
            version: parse_version_spec(s.subrange(p + 1, s.len() as int)),
            override_servings: None,
            multiplier: None,
        }
    } else {
        SelectionView { slug: s, version: None, override_servings: None, multiplier: None }
    }
}

/// Resolve a `Selection` from the form-encoded shape `slug`, `slug@v1` or `slug@v1-2`.
pub fn parse_selection(s: &str) -> (r: Selection)
    ensures
        r@ == selection_spec(s@),
{
    let cs = chars_of(s);
    let mut p: usize = 0;
    while p < cs.len() && cs[p] != '@'
        invariant
            p <= cs@.len(),
            cs@ == s@,
            forall|j: int| 0 <= j < p ==> cs@[j] != '@',
        decreases cs@.len() - p,
    {
        p = p + 1;
    }
    proof {
        crate::index::scan::lemma_find_char(cs@, '@', p as int);
    }
    if p < cs.len() {
        Selection {
            slug: string_of_range(&cs, 0, p),
            version: VersionKey::parse_chars(&cs, p + 1, cs.len()),
            override_servings: None,
            multiplier: None,
        }
    } else {
        Selection { slug: owned(s), version: None, override_servings: None, multiplier: None }
    }
}

/// The servings a selection asks for, given the recipe's declared servings
/// (at least 1): an override (at least 1) wins; else `declared * multiplier`
/// (multiplier at least 1, product saturating at `u32::MAX`); else declared.
pub open spec fn requested_spec(declared: u32, override_servings: Option<u32>, multiplier: Option<u32>) -> u32 {
    match override_servings {
        Some(s) => if s == 0 { 1 } else { s },
        None => match multiplier {
            Some(m) => {
                let mm = if m == 0 { 1 } else { m };
                let p = declared * mm;
                let sat = if p > u32::MAX { u32::MAX as int } else { p };
                if sat == 0 { 1 } else { sat as u32 }
            },
            None => declared,
        },
    }
}

/// Servings requested by a selection.
pub fn requested_servings(declared: u32, override_servings: Option<u32>, multiplier: Option<u32>) -> (r: u32)
    requires
        declared >= 1,
    ensures
        r == requested_spec(declared, override_servings, multiplier),
        r >= 1,
{
    match override_servings {
        Some(s) => if s == 0 { 1 } else { s },
        None => match multiplier {
            Some(m) => {
                let mm: u64 = if m == 0 { 1 } else { m as u64 };
                assert(declared as u64 * mm <= 0xffff_ffff * 0xffff_ffff) by (nonlinear_arith)
                    requires
                        declared <= 0xffff_ffff,
                        mm <= 0xffff_ffff,
                ;
                let p: u64 = declared as u64 * mm;
                let sat: u64 = if p > 4294967295 { 4294967295 } else { p };
                if sat == 0 { 1 } else { sat as u32 }
            },
            None => declared,
        },
    }
}

/// What one ingredient mention contributes to the list.
pub enum MentionView {
    /// A reference, or a mention without a name.
    Skip,
    /// An error message (an unknown unit).
    Fail(Seq<char>),
    /// A line contribution.
    Add(AddView),
}

/// A contribution: grouping name, display name, dimension (none for
/// unitless text or "to taste"), canonical amount, text value, note.
pub struct AddView {
    pub normalized: Seq<char>,
    pub display: Seq<char>,
    pub dim: Option<Dimension>,
    pub amount: nat,
    pub text: Option<Seq<char>>,
    pub note: Option<Seq<char>>,
}

/// An amount in millionths scaled by `requested / declared`, rounded.
pub open spec fn scaled_number(t: Seq<char>, requested: nat, declared: nat) -> Option<nat> {
    match decimal_micros(t) {
        Some(m) => Some(round_div(m * requested, declared)),
        None => None,
    }
}

/// Scaling by a whole multiple of the declared servings is exact: asking
/// for `k` times the declared servings gives `k` times each amount (in
/// particular, asking for the declared servings leaves amounts unchanged).
pub proof fn lemma_scale_multiple(t: Seq<char>, k: nat, declared: nat)
    requires
        declared >= 1,
    ensures
        scaled_number(t, k * declared, declared) == match decimal_micros(t) {
            Some(m) => Some(k * m),
            None => None::<nat>,
        },
{
    if let Some(m) = decimal_micros(t) {
        assert((2 * (m * (k * declared)) + declared) / (2 * declared) == k * m) by (nonlinear_arith)
            requires
                declared >= 1,
        ;
    }
}

/// The midpoint of a range, scaled by `requested / declared`, rounded.
pub open spec fn scaled_range(a: Seq<char>, b: Seq<char>, requested: nat, declared: nat) -> Option<nat> {
    match (decimal_micros(a), decimal_micros(b)) {
        (Some(x), Some(y)) => Some(round_div((x + y) * requested, 2 * declared)),
        _ => None,
    }
}

/// A range `a-b` counts as its midpoint: at the declared servings its
/// amount is `(a + b) / 2` (in millionths, halves rounded up); at any
/// servings it lies between the scaled ends, and strictly above the lower
/// end when the range is not empty and is taken at the declared servings.
pub proof fn lemma_range_midpoint(a: Seq<char>, b: Seq<char>, requested: nat, declared: nat)
    requires
        declared >= 1,
        decimal_micros(a) is Some,
        decimal_micros(b) is Some,
    ensures
        ({
            let x = decimal_micros(a).unwrap();
            let y = decimal_micros(b).unwrap();
            let r = scaled_value(QtyValueView::Range(a, b), requested, declared);
            &&& scaled_value(QtyValueView::Range(a, b), declared, declared) == Some(((x + y + 1) / 2) as nat)
            &&& r is Some
            &&& x <= y ==> round_div(x * requested, declared) <= r.unwrap() <= round_div(y * requested, declared)
            &&& x < y ==> x < scaled_value(QtyValueView::Range(a, b), declared, declared).unwrap() <= y
        }),
{
    let x = decimal_micros(a).unwrap();
    let y = decimal_micros(b).unwrap();
    let d = declared;
    let q = requested;
    assert((2 * ((x + y) * d) + 2 * d) / (2 * (2 * d)) == (x + y + 1) / 2) by (nonlinear_arith)
        requires
            d >= 1,
    {
        assert(2 * ((x + y) * d) + 2 * d == (x + y + 1) * (2 * d));
        assert(2 * (2 * d) == 2 * (2 * d));
        assert(((x + y + 1) * (2 * d)) / (2 * (2 * d)) == (x + y + 1) / 2) by {
            vstd::arithmetic::div_mod::lemma_div_multiples_vanish_fancy((x + y + 1) as int, 0, (2 * d) as int);
            vstd::arithmetic::div_mod::lemma_div_denominator((x + y + 1) as int, 2, (2 * d) as int);
        }
    }
    if x <= y {
        assert((2 * (x * q) + d) / (2 * d) == (2 * (2 * x * q) + 2 * d) / (2 * (2 * d))) by (nonlinear_arith)
            requires
                d >= 1,
        {
            assert(2 * (2 * x * q) + 2 * d == 2 * (2 * (x * q) + d));
            assert(2 * (2 * d) == 2 * (2 * d));
            vstd::arithmetic::div_mod::lemma_div_multiples_vanish((2 * (x * q) + d) as int, (2 * d) as int);
        }
        assert((2 * (y * q) + d) / (2 * d) == (2 * (2 * y * q) + 2 * d) / (2 * (2 * d))) by (nonlinear_arith)
            requires
                d >= 1,
        {
            assert(2 * (2 * y * q) + 2 * d == 2 * (2 * (y * q) + d));
            vstd::arithmetic::div_mod::lemma_div_multiples_vanish((2 * (y * q) + d) as int, (2 * d) as int);
        }
        assert(2 * x * q <= (x + y) * q && (x + y) * q <= 2 * y * q) by (nonlinear_arith)
            requires
                x <= y,
        ;
        vstd::arithmetic::div_mod::lemma_div_is_ordered(
            (2 * (2 * x * q) + 2 * d) as int,
            (2 * ((x + y) * q) + 2 * d) as int,
            (2 * (2 * d)) as int,
        );
        vstd::arithmetic::div_mod::lemma_div_is_ordered(
            (2 * ((x + y) * q) + 2 * d) as int,
            (2 * (2 * y * q) + 2 * d) as int,
            (2 * (2 * d)) as int,
        );
    }
}

/// An ingredient counted in pieces with a range `a-b`, taken at its
/// declared servings, adds the range's midpoint `(a + b) / 2` pieces (in
/// millionths, halves rounded up) to the line of its name.
pub proof fn lemma_range_mention(ing: IngredientView, a: Seq<char>, b: Seq<char>, declared: nat)
    requires
        declared >= 1,
        ing.is_definition,
        trim(ing.name).len() > 0,
        ing.quantity == Some(QtyView { value: QtyValueView::Range(a, b), unit: None }),
        decimal_micros(a) is Some,
        decimal_micros(b) is Some,
    ensures
        mention_spec(ing, declared, declared) == MentionView::Add(
            AddView {
                normalized: lower_ascii_seq(trim(ing.name)),
                display: trim(ing.name),
                dim: Some(Dimension::Count),
                amount: ((decimal_micros(a).unwrap() + decimal_micros(b).unwrap() + 1) / 2) as nat,
                text: None,
                note: note_spec(ing.note),
            },
        ),
{
    lemma_range_midpoint(a, b, declared, declared);
}

/// The scaled numeric amount of a quantity value, if it is numeric.
pub open spec fn scaled_value(v: QtyValueView, requested: nat, declared: nat) -> Option<nat> {
    match v {
        QtyValueView::Number(t) => scaled_number(t, requested, declared),
        QtyValueView::Range(a, b) => scaled_range(a, b, requested, declared),
        QtyValueView::Text(_) => None,
    }
}

/// The text shown for a quantity value that is not a number.
pub open spec fn text_value(v: QtyValueView) -> Seq<char> {
    match v {
        QtyValueView::Number(t) => t,
        QtyValueView::Range(a, b) => a + seq!['-'] + b,
        QtyValueView::Text(t) => t,
    }
}

/// The trimmed note of a mention.
pub open spec fn note_spec(note: Option<Seq<char>>) -> Option<Seq<char>> {
    match note {
        Some(n) => Some(trim(n)),
        None => None,
    }
}

/// What an ingredient mention contributes when `requested` of `declared`
/// servings are wanted.
pub open spec fn mention_spec(ing: IngredientView, requested: nat, declared: nat) -> MentionView {
    let name = trim(ing.name);
    if !ing.is_definition || name.len() == 0 {
        MentionView::Skip
    } else {
        let norm = lower_ascii_seq(name);
        let note = note_spec(ing.note);
        match ing.quantity {
            None => MentionView::Add(
                AddView { normalized: norm, display: name, dim: None, amount: 0, text: None, note },
            ),
            Some(q) => match scaled_value(q.value, requested, declared) {
                Some(v) => match canonical_spec(v, q.unit) {
                    Ok((a, d)) => MentionView::Add(
                        AddView {
                            normalized: norm,
                            display: name,
                            dim: Some(d),
                            amount: a,
                            text: None,
                            note,
                        },
                    ),
                    Err(u) => MentionView::Fail(
                        name + ": "@ + unit_error_message(UnitErrorView::UnknownUnit(u)),
                    ),
                },
                None => MentionView::Add(
                    AddView {
                        normalized: norm,
                        display: name,
                        dim: None,
                        amount: 0,
                        text: Some(text_value(q.value)),
                        note,
                    },
                ),
            },
        }
    }
}

/// What an ingredient mention contributes (exec form of `MentionView`).
pub enum Mention {
    Skip,
    Fail(String),
    Add {
        normalized: String,
        display: String,
        dim: Option<Dimension>,
        amount: u128,
        text: Option<String>,
        note: Option<String>,
    },
}

impl View for Mention {
    type V = MentionView;

    open spec fn view(&self) -> MentionView {
        match self {
            Mention::Skip => MentionView::Skip,
            Mention::Fail(m) => MentionView::Fail(m@),
            Mention::Add { normalized, display, dim, amount, text, note } => MentionView::Add(
                AddView {
                    normalized: normalized@,
                    display: display@,
                    dim: *dim,
                    amount: *amount as nat,
                    text: opt_view(*text),
                    note: opt_view(*note),
                },
            ),
        }
    }
}

fn scale_number(t: &str, requested: u32, declared: u32) -> (r: Option<u128>)
    requires
        declared >= 1,
    ensures
        scaled_number(t@, requested as nat, declared as nat) == match r {
            Some(v) => Some(v as nat),
            None => None,
        },
        r matches Some(v) ==> v < crate::recipe::units::amount_bound(),
{
    match parse_decimal(t) {
        Some(m) => {
            assert(m * requested <= 1_000_000_000_000_000_000_000_000 * 0xffff_ffff) by (nonlinear_arith)
                requires
                    m < 1_000_000_000_000_000_000_000_000,
                    requested <= 0xffff_ffff,
            ;
            let x = m * requested as u128;
            let v = if declared == 1 {
                x
            } else {
                round_div_exec(x, declared as u128)
            };
            proof {
                if declared == 1 {
                    assert(round_div(x as nat, 1) == x) by (nonlinear_arith);
                } else {
                    assert((x as nat) / (declared as nat) <= x as nat) by (nonlinear_arith)
                        requires
                            declared >= 1,
                    ;
                }
            }
            Some(v)
        },
        None => None,
    }
}

fn scale_range(a: &str, b: &str, requested: u32, declared: u32) -> (r: Option<u128>)
    requires
        declared >= 1,
    ensures
        scaled_range(a@, b@, requested as nat, declared as nat) == match r {
            Some(v) => Some(v as nat),
            None => None,
        },
        r matches Some(v) ==> v < crate::recipe::units::amount_bound(),
{
    match (parse_decimal(a), parse_decimal(b)) {
        (Some(x), Some(y)) => {
            assert((x + y) * requested <= 2_000_000_000_000_000_000_000_000 * 0xffff_ffff) by (nonlinear_arith)
                requires
                    x < 1_000_000_000_000_000_000_000_000,
                    y < 1_000_000_000_000_000_000_000_000,
                    requested <= 0xffff_ffff,
            ;
            let s = (x + y) * requested as u128;
            let d = 2 * declared as u128;
            let v = round_div_exec(s, d);
            assert((s as nat) / (d as nat) <= s as nat) by (nonlinear_arith)
                requires
                    d >= 2,
            ;
            Some(v)
        },
        _ => None,
    }
}

/// Text of a value that is not (parsed as) a number.
fn value_text(v: &QtyValue) -> (r: String)
    ensures
        r@ == text_value(v@),
{
    match v {
        QtyValue::Number(t) => owned(t.as_str()),
        QtyValue::Range(a, b) => {
            let mut out = owned(a.as_str());
            out.push('-');
            push_str(&mut out, b.as_str());
            out
        },
        QtyValue::Text(t) => owned(t.as_str()),
    }
}

/// What one ingredient mention contributes.
pub fn mention(ing: &crate::recipe::Ingredient, requested: u32, declared: u32) -> (r: Mention)
    requires
        declared >= 1,
    ensures
        r@ == mention_spec(ing@, requested as nat, declared as nat),
{
    let name = crate::text::trimmed(ing.name.as_str());
    if !ing.is_definition || chars_of(name.as_str()).len() == 0 {
        return Mention::Skip;
    }
    let normalized = crate::text::to_ascii_lowercase(name.as_str());
    let note = match &ing.note {
        Some(n) => Some(crate::text::trimmed(n.as_str())),
        None => None,
    };
    assert(opt_view(note) == note_spec(ing@.note));
    match &ing.quantity {
        None => Mention::Add { normalized, display: name, dim: None, amount: 0, text: None, note },
        Some(q) => {
            let scaled = match &q.value {
                QtyValue::Number(t) => scale_number(t.as_str(), requested, declared),
                QtyValue::Range(a, b) => scale_range(a.as_str(), b.as_str(), requested, declared),
                QtyValue::Text(_) => None,
            };
            assert(scaled_value(q@.value, requested as nat, declared as nat) == match scaled {
                Some(v) => Some(v as nat),
                None => None,
            });
            match scaled {
                Some(v) => {
                    let unit = match &q.unit {
                        Some(u) => Some(u.as_str()),
                        None => None,
                    };
                    assert(match unit { Some(u) => Some(u@), None => None } == q@.unit);
                    match canonicalize(v, unit) {
                        Ok(c) => {
                            let r = Mention::Add {
                                normalized,
                                display: name,
                                dim: Some(c.dimension),
                                amount: c.amount,
                                text: None,
                                note,
                            };
                            assert(r@ == mention_spec(ing@, requested as nat, declared as nat));
                            r
                        },
                        Err(e) => {
                            let mut msg = owned(name.as_str());
                            push_str(&mut msg, ": ");
                            let em = e.message();
                            push_str(&mut msg, em.as_str());
                            let r = Mention::Fail(msg);
                            assert(r@ == mention_spec(ing@, requested as nat, declared as nat));
                            r
                        },
                    }
                },
                None => Mention::Add {
                    normalized,
                    display: name,
                    dim: None,
                    amount: 0,
                    text: Some(value_text(&q.value)),
                    note,
                },
            }
        },
    }
}

/// The family whose slug is `s`.
pub open spec fn family_is(s: Seq<char>) -> spec_fn(RecipeFamily) -> bool {
    |f: RecipeFamily| f.slug@ == s
}

/// The version whose key is `k`.
pub open spec fn version_is(k: VersionKey) -> spec_fn(Version) -> bool {
    |v: Version| v.key == k
}

/// Declared servings of a recipe, at least 1.
pub open spec fn declared_of(r: ParsedRecipeView) -> u32 {
    let d = servings_spec(r.servings);
    if d == 0 {
        1
    } else {
        d
    }
}

/// The reference to version `v` of family `f` at `requested` servings; the
/// title is the recipe's, or the family's base name.
pub open spec fn source_of(f: RecipeFamily, v: Version, requested: u32) -> SourceRefView {
    SourceRefView {
        slug: f.slug@,
        title: match v.parsed.recipe@.title {
            Some(t) => t,
            None => f.base@,
        },
        version: v.key,
        servings: requested,
    }
}

/// One mention applied to the state: an error recorded against the
/// selection's slug, or a contribution added to the bins.
pub open spec fn mention_step(st: AggView, m: MentionView, slug: Seq<char>, src: SourceRefView) -> AggView {
    match m {
        MentionView::Skip => st,
        MentionView::Fail(msg) => AggView {
            errors: st.errors.push(ResolutionErrorView { slug, message: msg }),
            ..st
        },
        MentionView::Add(a) => AggView { bins: add_to_bins(st.bins, a, src), ..st },
    }
}

/// The mentions of `ings` applied in order.
pub open spec fn mentions_fold(
    st: AggView,
    ings: Seq<IngredientView>,
    slug: Seq<char>,
    src: SourceRefView,
    requested: nat,
    declared: nat,
) -> AggView
    decreases ings.len(),
{
    if ings.len() == 0 {
        st
    } else {
        mention_step(
            mentions_fold(st, ings.drop_last(), slug, src, requested, declared),
            mention_spec(ings.last(), requested, declared),
            slug,
            src,
        )
    }
}

/// Version `v` of family `f` taken for selection `sel`: its source recorded,
/// then its ingredients scaled and added.
pub open spec fn use_version(st: AggView, f: RecipeFamily, v: Version, sel: SelectionView) -> AggView {
    let recipe = v.parsed.recipe@;
    let declared = declared_of(recipe);
    let requested = requested_spec(declared, sel.override_servings, sel.multiplier);
    let src = source_of(f, v, requested);
    mentions_fold(
        AggView { sources: st.sources.push(src), ..st },
        recipe.ingredients,
        sel.slug,
        src,
        requested as nat,
        declared as nat,
    )
}

/// One selection applied: an unknown slug or version is an error, otherwise
/// the chosen version (the current one when none is given) is used.
pub open spec fn selection_step(st: AggView, fams: Seq<RecipeFamily>, sel: SelectionView) -> AggView {
    let fi = first_index(fams, family_is(slug_of(sel.slug)));
    if fi >= fams.len() {
        AggView {
            errors: st.errors.push(ResolutionErrorView { slug: sel.slug, message: "no such recipe"@ }),
            ..st
        }
    } else {
        let f = fams[fi];
        match sel.version {
            Some(k) => {
                let vi = first_index(f.versions@, version_is(k));
                if vi >= f.versions@.len() {
                    AggView {
                        errors: st.errors.push(
                            ResolutionErrorView {
                                slug: sel.slug,
                                message: "version "@ + version_text(k) + " not found"@,
                            },
                        ),
                        ..st
                    }
                } else {
                    use_version(st, f, f.versions@[vi], sel)
                }
            },
            None => use_version(st, f, f.versions@.last(), sel),
        }
    }
}

/// The selections applied in order to an empty state.
pub open spec fn selections_fold(fams: Seq<RecipeFamily>, sels: Seq<SelectionView>) -> AggView
    decreases sels.len(),
{
    if sels.len() == 0 {
        AggView { bins: seq![], sources: seq![], errors: seq![] }
    } else {
        selection_step(selections_fold(fams, sels.drop_last()), fams, sels.last())
    }
}

/// The aisle file as parsed, when present and valid.
pub open spec fn aisles_of(src: Option<Seq<char>>) -> Option<Seq<AisleCategoryView>> {
    match src {
        Some(s) => match aisle_parse_result(aisle_input(s)) {
            Ok((a, _)) => Some(a),
            Err(_) => None,
        },
        None => None,
    }
}

/// The dimension named in a mixed-units warning.
pub open spec fn dim_label(d: Option<Dimension>) -> Seq<char> {
    match d {
        Some(x) => dimension_text(x),
        None => "n/a"@,
    }
}

/// The line of bin `b` among `bins`: canonical amount and its display text
/// (the text quantity, "a bit of" or "to taste" without one), a warning when
/// the name has mixed dimensions, and its aisle category.
pub open spec fn item_spec(bins: Seq<BinView>, b: BinView, aisles: Option<Seq<AisleCategoryView>>) -> LineItemView {
    LineItemView {
        display_name: b.display_name,
        canonical: match b.dim {
            Some(d) => Some(Canonical { amount: b.amount as u128, dimension: d }),
            None => None,
        },
        display: match b.dim {
            Some(d) => display_spec(b.amount, d),
            None => match b.text {
                Some(t) => t,
                None => if b.trivial {
                    "a bit of"@
                } else {
                    "to taste"@
                },
            },
        },
        notes: b.notes,
        sources: b.sources,
        warning: if mixed_units(bins, b.normalized) {
            Some("mixed units across recipes ("@ + dim_label(b.dim) + ")"@)
        } else {
            None
        },
        category: match aisles {
            Some(a) => last_category(a, b.normalized),
            None => None,
        },
    }
}

/// The lines of `bins`, in bin order.
pub open spec fn unsorted_items(bins: Seq<BinView>, aisles: Option<Seq<AisleCategoryView>>) -> Seq<LineItemView> {
    Seq::new(bins.len(), |i: int| item_spec(bins, bins[i], aisles))
}

/// Sort key of a line: with an aisle file, the position of its (ASCII
/// lowercased) name there, unlisted names last; without one, lines with an
/// amount first, then by the Unicode-lowercased name.
pub open spec fn item_key(it: LineItemView, aisles: Option<Seq<AisleCategoryView>>) -> SortKey {
    match aisles {
        Some(a) => {
            let lower = lower_ascii_seq(it.display_name);
            match sort_pos(a, unicode_lower(lower)) {
                Some((c, i)) => SortKey { major: c, minor: i, text: lower },
                None => SortKey { major: usize::MAX as int, minor: usize::MAX as int, text: lower },
            }
        },
        None => SortKey {
            major: if it.canonical is None {
                1
            } else {
                0
            },
            minor: 0,
            text: unicode_lower(it.display_name),
        },
    }
}

/// Sort keys of lines.
pub open spec fn item_keys(items: Seq<LineItemView>, aisles: Option<Seq<AisleCategoryView>>) -> Seq<SortKey> {
    Seq::new(items.len(), |i: int| item_key(items[i], aisles))
}

/// Applying mentions keeps every total named by its lowercased display name.
proof fn lemma_mentions_named(
    st: AggView,
    ings: Seq<IngredientView>,
    slug: Seq<char>,
    src: SourceRefView,
    requested: nat,
    declared: nat,
)
    requires
        bins::bins_named(st.bins),
    ensures
        bins::bins_named(mentions_fold(st, ings, slug, src, requested, declared).bins),
    decreases ings.len(),
{
    if ings.len() > 0 {
        lemma_mentions_named(st, ings.drop_last(), slug, src, requested, declared);
        let prev = mentions_fold(st, ings.drop_last(), slug, src, requested, declared);
        if let MentionView::Add(a) = mention_spec(ings.last(), requested, declared) {
            bins::lemma_add_named(prev.bins, a, src);
        }
    }
}

proof fn lemma_fold_named(fams: Seq<RecipeFamily>, sels: Seq<SelectionView>)
    ensures
        bins::bins_named(selections_fold(fams, sels).bins),
    decreases sels.len(),
{
    if sels.len() > 0 {
        lemma_fold_named(fams, sels.drop_last());
        let st = selections_fold(fams, sels.drop_last());
        let sel = sels.last();
        let fi = first_index(fams, family_is(slug_of(sel.slug)));
        if fi < fams.len() {
            let f = fams[fi];
            let v = match sel.version {
                Some(k) => f.versions@[first_index(f.versions@, version_is(k))],
                None => f.versions@.last(),
            };
            let recipe = v.parsed.recipe@;
            let declared = declared_of(recipe);
            let requested = requested_spec(declared, sel.override_servings, sel.multiplier);
            let src = source_of(f, v, requested);
            lemma_mentions_named(
                AggView { sources: st.sources.push(src), ..st },
                recipe.ingredients,
                sel.slug,
                src,
                requested as nat,
                declared as nat,
            );
        }
    }
}

/// The dimension of a line's amount, if it has one.
pub open spec fn line_dim(it: LineItemView) -> Option<Dimension> {
    match it.canonical {
        Some(c) => Some(c.dimension),
        None => None,
    }
}

/// No two lines of a shopping list share a name (ASCII case ignored) and a
/// dimension: what is the same ingredient in the same dimension is one line.
pub proof fn lemma_lines_distinct(
    fams: Seq<RecipeFamily>,
    aisle: Option<Seq<char>>,
    sels: Seq<SelectionView>,
    l: ShoppingListView,
)
    requires
        aggregated(fams, aisle, sels, l),
    ensures
        forall|i: int, j: int|
            0 <= i < j < l.items.len() ==> (lower_ascii_seq((#[trigger] l.items[i]).display_name), line_dim(l.items[i]))
                != (lower_ascii_seq((#[trigger] l.items[j]).display_name), line_dim(l.items[j])),
{
    let st = selections_fold(fams, sels);
    let aisles = aisles_of(aisle);
    let d = demoted(st.bins);
    let items = unsorted_items(d, aisles);
    let keys = item_keys(items, aisles);
    lemma_totals_distinct(fams, sels);
    lemma_fold_named(fams, sels);
    bins::lemma_demoted_named(st.bins);
    let perm = choose|perm: Seq<int>|
        stable_order(keys, perm) && l.items.len() == perm.len() && forall|k: int|
            0 <= k < perm.len() ==> l.items[k] == items[#[trigger] perm[k]];
    assert forall|i: int, j: int| 0 <= i < j < l.items.len() implies (lower_ascii_seq((#[trigger] l.items[i]).display_name), line_dim(l.items[i]))
        != (lower_ascii_seq((#[trigger] l.items[j]).display_name), line_dim(l.items[j])) by {
        let a = perm[i];
        let b = perm[j];
        assert(l.items[i] == items[a] && l.items[j] == items[b]);
        assert(a != b);
        assert(0 <= a < d.len() && 0 <= b < d.len());
        assert(items[a] == item_spec(d, d[a], aisles));
        assert(items[b] == item_spec(d, d[b], aisles));
        assert(d[a].normalized == lower_ascii_seq(d[a].display_name));
        assert(d[b].normalized == lower_ascii_seq(d[b].display_name));
        if a < b {
            assert(!(d[a].normalized == d[b].normalized && d[a].dim == d[b].dim));
        } else {
            assert(!(d[b].normalized == d[a].normalized && d[b].dim == d[a].dim));
        }
    }
}

/// A line carries a mixed-units warning exactly when lines of its name
/// (ASCII case ignored) come in two different dimensions.
pub proof fn lemma_warning_iff_mixed(
    fams: Seq<RecipeFamily>,
    aisle: Option<Seq<char>>,
    sels: Seq<SelectionView>,
    l: ShoppingListView,
)
    requires
        aggregated(fams, aisle, sels, l),
    ensures
        forall|k: int|
            0 <= k < l.items.len() ==> ((#[trigger] l.items[k]).warning is Some <==> exists|i: int, j: int|
                0 <= i < l.items.len() && 0 <= j < l.items.len() && lower_ascii_seq(
                    (#[trigger] l.items[i]).display_name,
                ) == lower_ascii_seq(l.items[k].display_name) && lower_ascii_seq(
                    (#[trigger] l.items[j]).display_name,
                ) == lower_ascii_seq(l.items[k].display_name) && line_dim(l.items[i]) is Some && line_dim(
                    l.items[j],
                ) is Some && line_dim(l.items[i]) != line_dim(l.items[j])),
{
    let st = selections_fold(fams, sels);
    let aisles = aisles_of(aisle);
    let d = demoted(st.bins);
    let items = unsorted_items(d, aisles);
    let keys = item_keys(items, aisles);
    lemma_fold_named(fams, sels);
    bins::lemma_demoted_named(st.bins);
    let perm = choose|perm: Seq<int>|
        stable_order(keys, perm) && l.items.len() == perm.len() && forall|k: int|
            0 <= k < perm.len() ==> l.items[k] == items[#[trigger] perm[k]];
    assert forall|k: int| 0 <= k < l.items.len() implies ((#[trigger] l.items[k]).warning is Some <==> exists|
        i: int,
        j: int,
    |
        0 <= i < l.items.len() && 0 <= j < l.items.len() && lower_ascii_seq((#[trigger] l.items[i]).display_name)
            == lower_ascii_seq(l.items[k].display_name) && lower_ascii_seq(
            (#[trigger] l.items[j]).display_name,
        ) == lower_ascii_seq(l.items[k].display_name) && line_dim(l.items[i]) is Some && line_dim(l.items[j])
            is Some && line_dim(l.items[i]) != line_dim(l.items[j])) by {
        let a = perm[k];
        assert(l.items[k] == items[a]);
        assert(items[a] == item_spec(d, d[a], aisles));
        let n = d[a].normalized;
        assert(n == lower_ascii_seq(d[a].display_name));
        if bins::mixed_units(d, n) {
            let (x, y) = choose|x: int, y: int|
                0 <= x < d.len() && 0 <= y < d.len() && (#[trigger] d[x]).normalized == n
                    && (#[trigger] d[y]).normalized == n && d[x].dim is Some && d[y].dim is Some && d[x].dim
                    != d[y].dim;
            order::lemma_stable_order_onto(keys, perm, x);
            order::lemma_stable_order_onto(keys, perm, y);
            let i = choose|i: int| 0 <= i < perm.len() && #[trigger] perm[i] == x;
            let j = choose|j: int| 0 <= j < perm.len() && #[trigger] perm[j] == y;
            assert(l.items[i] == items[x] && items[x] == item_spec(d, d[x], aisles));
            assert(l.items[j] == items[y] && items[y] == item_spec(d, d[y], aisles));
            assert(d[x].normalized == lower_ascii_seq(d[x].display_name));
            assert(d[y].normalized == lower_ascii_seq(d[y].display_name));
            assert(line_dim(l.items[i]) == d[x].dim);
            assert(line_dim(l.items[j]) == d[y].dim);
        } else {
            if exists|i: int, j: int|
                0 <= i < l.items.len() && 0 <= j < l.items.len() && lower_ascii_seq(
                    (#[trigger] l.items[i]).display_name,
                ) == lower_ascii_seq(l.items[k].display_name) && lower_ascii_seq(
                    (#[trigger] l.items[j]).display_name,
                ) == lower_ascii_seq(l.items[k].display_name) && line_dim(l.items[i]) is Some && line_dim(
                    l.items[j],
                ) is Some && line_dim(l.items[i]) != line_dim(l.items[j]) {
                let (i, j) = choose|i: int, j: int|
                    0 <= i < l.items.len() && 0 <= j < l.items.len() && lower_ascii_seq(
                        (#[trigger] l.items[i]).display_name,
                    ) == lower_ascii_seq(l.items[k].display_name) && lower_ascii_seq(
                        (#[trigger] l.items[j]).display_name,
                    ) == lower_ascii_seq(l.items[k].display_name) && line_dim(l.items[i]) is Some && line_dim(
                        l.items[j],
                    ) is Some && line_dim(l.items[i]) != line_dim(l.items[j]);
                let x = perm[i];
                let y = perm[j];
                assert(l.items[i] == items[x] && items[x] == item_spec(d, d[x], aisles));
                assert(l.items[j] == items[y] && items[y] == item_spec(d, d[y], aisles));
                assert(d[x].normalized == lower_ascii_seq(d[x].display_name));
                assert(d[y].normalized == lower_ascii_seq(d[y].display_name));
                assert(line_dim(l.items[i]) == d[x].dim);
                assert(line_dim(l.items[j]) == d[y].dim);
                assert(bins::mixed_units(d, n));
            }
        }
    }
}

/// Selection `x` names a recipe of `fams` and, when it names a version, a
/// version that recipe has.
pub open spec fn resolves(fams: Seq<RecipeFamily>, x: SelectionView) -> bool {
    let fi = first_index(fams, family_is(slug_of(x.slug)));
    &&& fi < fams.len()
    &&& x.version matches Some(k) ==> first_index(fams[fi].versions@, version_is(k)) < fams[fi].versions@.len()
}

/// Applying mentions leaves the sources as they are.
proof fn lemma_mentions_keep_sources(
    st: AggView,
    ings: Seq<IngredientView>,
    slug: Seq<char>,
    src: SourceRefView,
    requested: nat,
    declared: nat,
)
    ensures
        mentions_fold(st, ings, slug, src, requested, declared).sources == st.sources,
    decreases ings.len(),
{
    if ings.len() > 0 {
        lemma_mentions_keep_sources(st, ings.drop_last(), slug, src, requested, declared);
    }
}

/// A selection that resolves adds one source after those before it: its
/// recipe at the servings asked for, which with a servings override is the
/// override (at least 1), whatever the multiplier.
pub proof fn lemma_selection_adds_source(fams: Seq<RecipeFamily>, sels: Seq<SelectionView>, x: SelectionView)
    requires
        resolves(fams, x),
    ensures
        selections_fold(fams, sels.push(x)).sources.len() == selections_fold(fams, sels).sources.len() + 1,
        selections_fold(fams, sels.push(x)).sources.drop_last() == selections_fold(fams, sels).sources,
        x.override_servings matches Some(n) ==> selections_fold(fams, sels.push(x)).sources.last().servings == (if n
            == 0 {
            1
        } else {
            n
        }),
{
    assert(sels.push(x).drop_last() =~= sels);
    assert(sels.push(x).last() == x);
    let st = selections_fold(fams, sels);
    let fi = first_index(fams, family_is(slug_of(x.slug)));
    let f = fams[fi];
    let v = match x.version {
        Some(k) => f.versions@[first_index(f.versions@, version_is(k))],
        None => f.versions@.last(),
    };
    let recipe = v.parsed.recipe@;
    let declared = declared_of(recipe);
    let requested = requested_spec(declared, x.override_servings, x.multiplier);
    let src = source_of(f, v, requested);
    lemma_mentions_keep_sources(
        AggView { sources: st.sources.push(src), ..st },
        recipe.ingredients,
        x.slug,
        src,
        requested as nat,
        declared as nat,
    );
    assert(st.sources.push(src).drop_last() =~= st.sources);
}

/// Selecting a recipe that does not exist adds one `no such recipe` error
/// and changes nothing else: no line, amount or source.
pub proof fn lemma_unknown_slug_only_errs(fams: Seq<RecipeFamily>, sels: Seq<SelectionView>, u: SelectionView)
    requires
        first_index(fams, family_is(slug_of(u.slug))) >= fams.len(),
    ensures
        selections_fold(fams, sels.push(u)) == (AggView {
            errors: selections_fold(fams, sels).errors.push(
                ResolutionErrorView { slug: u.slug, message: "no such recipe"@ },
            ),
            ..selections_fold(fams, sels)
        }),
{
    assert(sels.push(u).drop_last() =~= sels);
    assert(sels.push(u).last() == u);
}

/// Two selections that name the same recipe and version and ask for the
/// same servings: equal overrides, and equal multipliers unless an override
/// is given (which then wins).
pub open spec fn same_request(a: SelectionView, b: SelectionView) -> bool {
    &&& a.slug == b.slug
    &&& a.version == b.version
    &&& a.override_servings == b.override_servings
    &&& a.override_servings is None ==> a.multiplier == b.multiplier
}

/// A servings override wins over a multiplier: selections that differ only
/// in the multiplier of selections with an override give the same list
/// state (lines, amounts, sources, errors).
pub proof fn lemma_override_wins(fams: Seq<RecipeFamily>, sels: Seq<SelectionView>, sels2: Seq<SelectionView>)
    requires
        sels.len() == sels2.len(),
        forall|k: int| 0 <= k < sels.len() ==> same_request(#[trigger] sels[k], sels2[k]),
    ensures
        selections_fold(fams, sels) == selections_fold(fams, sels2),
    decreases sels.len(),
{
    if sels.len() > 0 {
        let a = sels.drop_last();
        let b = sels2.drop_last();
        assert forall|k: int| 0 <= k < a.len() implies same_request(#[trigger] a[k], b[k]) by {
            assert(a[k] == sels[k] && b[k] == sels2[k]);
        }
        lemma_override_wins(fams, a, b);
        let x = sels.last();
        let y = sels2.last();
        assert(same_request(sels[sels.len() - 1], sels2[sels.len() - 1]));
        assert forall|d: u32| requested_spec(d, x.override_servings, x.multiplier) == requested_spec(
            d,
            y.override_servings,
            y.multiplier,
        ) by {}
    }
}

/// The selections decide the list: two lists aggregated from the same
/// selections against the same recipes and aisle file are equal.
pub proof fn lemma_aggregated_unique(
    fams: Seq<RecipeFamily>,
    aisle: Option<Seq<char>>,
    sels: Seq<SelectionView>,
    l1: ShoppingListView,
    l2: ShoppingListView,
)
    requires
        aggregated(fams, aisle, sels, l1),
        aggregated(fams, aisle, sels, l2),
    ensures
        l1 == l2,
{
    let st = selections_fold(fams, sels);
    let aisles = aisles_of(aisle);
    let items = unsorted_items(demoted(st.bins), aisles);
    let keys = item_keys(items, aisles);
    let p = choose|perm: Seq<int>|
        stable_order(keys, perm) && l1.items.len() == perm.len() && forall|k: int|
            0 <= k < perm.len() ==> l1.items[k] == items[#[trigger] perm[k]];
    let q = choose|perm: Seq<int>|
        stable_order(keys, perm) && l2.items.len() == perm.len() && forall|k: int|
            0 <= k < perm.len() ==> l2.items[k] == items[#[trigger] perm[k]];
    order::lemma_stable_order_unique(keys, p, q);
    assert forall|k: int| 0 <= k < l1.items.len() implies l1.items[k] == l2.items[k] by {
        assert(l1.items[k] == items[p[k]]);
        assert(l2.items[k] == items[q[k]]);
    }
    assert(l1.items =~= l2.items);
}

/// A servings override wins over a multiplier for the whole list: two
/// selection lists that differ only in the multipliers of selections with an
/// override aggregate to the same list (lines, sources, errors).
pub proof fn lemma_override_wins_list(
    fams: Seq<RecipeFamily>,
    aisle: Option<Seq<char>>,
    sels: Seq<SelectionView>,
    sels2: Seq<SelectionView>,
    l1: ShoppingListView,
    l2: ShoppingListView,
)
    requires
        sels.len() == sels2.len(),
        forall|k: int| 0 <= k < sels.len() ==> same_request(#[trigger] sels[k], sels2[k]),
        aggregated(fams, aisle, sels, l1),
        aggregated(fams, aisle, sels2, l2),
    ensures
        l1 == l2,
{
    lemma_override_wins(fams, sels, sels2);
    lemma_aggregated_unique(fams, aisle, sels, l1, l2);
}

/// A selection of a recipe that does not exist only adds its error: on its
/// own it gives no line and no source and one `no such recipe` error; after
/// other selections, their list with that error appended.
pub proof fn lemma_unknown_slug_list(
    fams: Seq<RecipeFamily>,
    aisle: Option<Seq<char>>,
    sels: Seq<SelectionView>,
    u: SelectionView,
    l: ShoppingListView,
    l2: ShoppingListView,
)
    requires
        first_index(fams, family_is(slug_of(u.slug))) >= fams.len(),
    ensures
        aggregated(fams, aisle, sels, l) && aggregated(fams, aisle, sels.push(u), l2) ==> l2 == (ShoppingListView {
            errors: l.errors.push(ResolutionErrorView { slug: u.slug, message: "no such recipe"@ }),
            ..l
        }),
        aggregated(fams, aisle, seq![u], l2) ==> l2.items.len() == 0 && l2.sources.len() == 0 && l2.errors
            == seq![ResolutionErrorView { slug: u.slug, message: "no such recipe"@ }],
{
    lemma_unknown_slug_only_errs(fams, sels, u);
    lemma_unknown_slug_only_errs(fams, Seq::empty(), u);
    let with_err = ShoppingListView {
        errors: l.errors.push(ResolutionErrorView { slug: u.slug, message: "no such recipe"@ }),
        ..l
    };
    if aggregated(fams, aisle, sels, l) {
        let st = selections_fold(fams, sels);
        let aisles = aisles_of(aisle);
        let items = unsorted_items(demoted(st.bins), aisles);
        let perm = choose|perm: Seq<int>|
            stable_order(item_keys(items, aisles), perm) && l.items.len() == perm.len() && forall|k: int|
                0 <= k < perm.len() ==> l.items[k] == items[#[trigger] perm[k]];
        assert(selections_fold(fams, sels.push(u)).bins == st.bins);
        assert(aggregated(fams, aisle, sels.push(u), with_err));
        if aggregated(fams, aisle, sels.push(u), l2) {
            lemma_aggregated_unique(fams, aisle, sels.push(u), l2, with_err);
        }
    }
    assert(Seq::<SelectionView>::empty().push(u) =~= seq![u]);
    let st0 = selections_fold(fams, Seq::<SelectionView>::empty());
    assert(st0.bins.len() == 0);
    assert(demoted(st0.bins).len() == 0);
    assert(Seq::<ResolutionErrorView>::empty().push(ResolutionErrorView { slug: u.slug, message: "no such recipe"@ })
        =~= seq![ResolutionErrorView { slug: u.slug, message: "no such recipe"@ }]);
}

/// No line of a shopping list keeps a mass under 5 g: smaller mass totals
/// become unitless ("a bit of").
pub proof fn lemma_lines_mass_floor(
    fams: Seq<RecipeFamily>,
    aisle: Option<Seq<char>>,
    sels: Seq<SelectionView>,
    l: ShoppingListView,
)
    requires
        aggregated(fams, aisle, sels, l),
    ensures
        forall|k: int|
            0 <= k < l.items.len() && (#[trigger] l.items[k]).canonical is Some
                && l.items[k].canonical.unwrap().dimension == Dimension::Mass
                ==> l.items[k].canonical.unwrap().amount >= 5_000_000,
{
    let st = selections_fold(fams, sels);
    let aisles = aisles_of(aisle);
    let d = demoted(st.bins);
    let items = unsorted_items(d, aisles);
    let keys = item_keys(items, aisles);
    bins::lemma_demoted_mass_floor(st.bins);
    lemma_fold_bounded(fams, sels);
    bins::lemma_demoted_bounded(st.bins);
    let perm = choose|perm: Seq<int>|
        stable_order(keys, perm) && l.items.len() == perm.len() && forall|k: int|
            0 <= k < perm.len() ==> l.items[k] == items[#[trigger] perm[k]];
    assert forall|k: int|
        0 <= k < l.items.len() && (#[trigger] l.items[k]).canonical is Some
            && l.items[k].canonical.unwrap().dimension == Dimension::Mass
            implies l.items[k].canonical.unwrap().amount >= 5_000_000 by {
        let a = perm[k];
        assert(l.items[k] == items[a]);
        assert(0 <= a < d.len());
        assert(items[a] == item_spec(d, d[a], aisles));
        assert(d[a].dim == Some(Dimension::Mass));
        assert(5_000_000 <= d[a].amount <= u128::MAX);
    }
}

/// Applying mentions keeps one running total per name and dimension.
proof fn lemma_mentions_distinct(
    st: AggView,
    ings: Seq<IngredientView>,
    slug: Seq<char>,
    src: SourceRefView,
    requested: nat,
    declared: nat,
)
    requires
        bins::bins_distinct(st.bins),
    ensures
        bins::bins_distinct(mentions_fold(st, ings, slug, src, requested, declared).bins),
    decreases ings.len(),
{
    if ings.len() > 0 {
        lemma_mentions_distinct(st, ings.drop_last(), slug, src, requested, declared);
        let prev = mentions_fold(st, ings.drop_last(), slug, src, requested, declared);
        if let MentionView::Add(a) = mention_spec(ings.last(), requested, declared) {
            bins::lemma_add_to_bins(prev.bins, a, src);
        }
    }
}

/// Applying mentions keeps every running total within a `u128`.
proof fn lemma_mentions_bounded(
    st: AggView,
    ings: Seq<IngredientView>,
    slug: Seq<char>,
    src: SourceRefView,
    requested: nat,
    declared: nat,
)
    requires
        bins::bins_distinct(st.bins),
        bins::bins_bounded(st.bins),
    ensures
        bins::bins_bounded(mentions_fold(st, ings, slug, src, requested, declared).bins),
    decreases ings.len(),
{
    if ings.len() > 0 {
        lemma_mentions_bounded(st, ings.drop_last(), slug, src, requested, declared);
        lemma_mentions_distinct(st, ings.drop_last(), slug, src, requested, declared);
        let prev = mentions_fold(st, ings.drop_last(), slug, src, requested, declared);
        if let MentionView::Add(a) = mention_spec(ings.last(), requested, declared) {
            bins::lemma_add_bounded(prev.bins, a, src);
        }
    }
}

/// Every running total fits in a `u128`.
proof fn lemma_fold_bounded(fams: Seq<RecipeFamily>, sels: Seq<SelectionView>)
    ensures
        bins::bins_bounded(selections_fold(fams, sels).bins),
    decreases sels.len(),
{
    if sels.len() > 0 {
        lemma_fold_bounded(fams, sels.drop_last());
        lemma_fold_distinct(fams, sels.drop_last());
        let st = selections_fold(fams, sels.drop_last());
        let sel = sels.last();
        let fi = first_index(fams, family_is(slug_of(sel.slug)));
        if fi < fams.len() {
            let f = fams[fi];
            let v = match sel.version {
                Some(k) => f.versions@[first_index(f.versions@, version_is(k))],
                None => f.versions@.last(),
            };
            let recipe = v.parsed.recipe@;
            let declared = declared_of(recipe);
            let requested = requested_spec(declared, sel.override_servings, sel.multiplier);
            let src = source_of(f, v, requested);
            lemma_mentions_bounded(
                AggView { sources: st.sources.push(src), ..st },
                recipe.ingredients,
                sel.slug,
                src,
                requested as nat,
                declared as nat,
            );
        }
    }
}

/// However many recipes are selected, the running totals hold one entry
/// per ingredient name and dimension: amounts of the same ingredient in the
/// same dimension are summed into one, never listed twice. This still holds
/// of the totals a list is made from, once trivially small masses are
/// folded into the unitless entry of their name.
pub proof fn lemma_totals_distinct(fams: Seq<RecipeFamily>, sels: Seq<SelectionView>)
    ensures
        bins::bins_distinct(selections_fold(fams, sels).bins),
        bins::bins_distinct(demoted(selections_fold(fams, sels).bins)),
{
    lemma_fold_distinct(fams, sels);
    bins::lemma_demoted_distinct(selections_fold(fams, sels).bins);
}

proof fn lemma_fold_distinct(fams: Seq<RecipeFamily>, sels: Seq<SelectionView>)
    ensures
        bins::bins_distinct(selections_fold(fams, sels).bins),
    decreases sels.len(),
{
    if sels.len() > 0 {
        lemma_fold_distinct(fams, sels.drop_last());
        let st = selections_fold(fams, sels.drop_last());
        let sel = sels.last();
        let fi = first_index(fams, family_is(slug_of(sel.slug)));
        if fi < fams.len() {
            let f = fams[fi];
            let v = match sel.version {
                Some(k) => f.versions@[first_index(f.versions@, version_is(k))],
                None => f.versions@.last(),
            };
            let recipe = v.parsed.recipe@;
            let declared = declared_of(recipe);
            let requested = requested_spec(declared, sel.override_servings, sel.multiplier);
            let src = source_of(f, v, requested);
            lemma_mentions_distinct(
                AggView { sources: st.sources.push(src), ..st },
                recipe.ingredients,
                sel.slug,
                src,
                requested as nat,
                declared as nat,
            );
        }
    }
}

/// The lines of an aggregated list come in sort-key order: no line has a
/// smaller key than a line before it. With an aisle file that is aisle
/// order, unlisted names last; without one, lines with an amount first,
/// each group by name.
pub proof fn lemma_list_in_key_order(
    fams: Seq<RecipeFamily>,
    aisle: Option<Seq<char>>,
    sels: Seq<SelectionView>,
    l: ShoppingListView,
)
    requires
        aggregated(fams, aisle, sels, l),
    ensures
        forall|k: int, m: int|
            0 <= k < m < l.items.len() ==> !order::key_lt(
                item_key(#[trigger] l.items[m], aisles_of(aisle)),
                item_key(#[trigger] l.items[k], aisles_of(aisle)),
            ),
{
    let st = selections_fold(fams, sels);
    let aisles = aisles_of(aisle);
    let items = unsorted_items(demoted(st.bins), aisles);
    let keys = item_keys(items, aisles);
    let perm = choose|perm: Seq<int>|
        stable_order(keys, perm) && l.items.len() == perm.len() && forall|k: int|
            0 <= k < perm.len() ==> l.items[k] == items[#[trigger] perm[k]];
    assert forall|k: int, m: int| 0 <= k < m < l.items.len() implies !order::key_lt(
        item_key(#[trigger] l.items[m], aisles),
        item_key(#[trigger] l.items[k], aisles),
    ) by {
        assert(l.items[k] == items[perm[k]] && l.items[m] == items[perm[m]]);
        assert(order::placed_before(keys, perm[k], perm[m]));
        assert(keys[perm[k]] == item_key(l.items[k], aisles));
        assert(keys[perm[m]] == item_key(l.items[m], aisles));
        order::lemma_key_lt_order(keys[perm[k]], keys[perm[m]], keys[perm[k]]);
    }
}

/// Aggregation state (executable form of `AggView`).
pub struct Agg {
    pub bins: Vec<Bin>,
    pub sources: Vec<SourceRef>,
    pub errors: Vec<ResolutionError>,
}

impl View for Agg {
    type V = AggView;

    open spec fn view(&self) -> AggView {
        AggView { bins: views(self.bins@), sources: views(self.sources@), errors: views(self.errors@) }
    }
}

fn push_error(st: &mut Agg, slug: &str, message: String)
    ensures
        final(st)@ == (AggView {
            errors: old(st)@.errors.push(ResolutionErrorView { slug: slug@, message: message@ }),
            ..old(st)@
        }),
{
    st.errors.push(ResolutionError { slug: owned(slug), message });
    assert(views(st.errors@) =~= views(old(st).errors@).push(ResolutionErrorView { slug: slug@, message: message@ }));
}

fn apply_version(st: &mut Agg, fam: &RecipeFamily, ver: &Version, sel: &Selection)
    ensures
        final(st)@ == use_version(old(st)@, *fam, *ver, sel@),
{
    let recipe = &ver.parsed.recipe;
    let d = declared_servings(recipe);
    let declared = if d == 0 {
        1
    } else {
        d
    };
    let requested = requested_servings(declared, sel.override_servings, sel.multiplier);
    let title = match recipe_title(recipe) {
        Some(t) => t,
        None => owned(fam.base.as_str()),
    };
    let src = SourceRef { slug: fam.slug.to_text(), title, version: ver.key, servings: requested };
    assert(src@ == source_of(*fam, *ver, requested));
    st.sources.push(src.duplicate());
    assert(views(st.sources@) =~= views(old(st).sources@).push(src@));
    let ghost st0 = st@;
    let ghost ings = recipe@.ingredients;
    let mut i: usize = 0;
    while i < recipe.ingredients.len()
        invariant
            i <= recipe.ingredients@.len(),
            ings == recipe@.ingredients,
            declared >= 1,
            st@ == mentions_fold(st0, ings.take(i as int), sel.slug@, src@, requested as nat, declared as nat),
        decreases recipe.ingredients@.len() - i,
    {
        assert(ings.take(i + 1).drop_last() =~= ings.take(i as int));
        assert(ings.take(i + 1).last() == recipe.ingredients@[i as int]@);
        match mention(&recipe.ingredients[i], requested, declared) {
            Mention::Skip => {},
            Mention::Fail(msg) => {
                push_error(st, sel.slug.as_str(), msg);
            },
            Mention::Add { normalized, display, dim, amount, text, note } => {
                add_to_bins_exec(&mut st.bins, normalized, display, dim, amount, text, note, &src);
            },
        }
        i = i + 1;
    }
    assert(ings.take(i as int) =~= ings);
}

fn apply_selection(st: &mut Agg, idx: &Index, sel: &Selection)
    requires
        idx.wf(),
    ensures
        final(st)@ == selection_step(old(st)@, idx.families@, sel@),
{
    let slug = Slug::from_base(sel.slug.as_str());
    let ghost fams = idx.families@;
    match idx.find_family(&slug) {
        None => {
            proof {
                lemma_first_index(fams, family_is(slug_of(sel.slug@)), fams.len() as int);
            }
            push_error(st, sel.slug.as_str(), String::from_str("no such recipe"));
        },
        Some(fi) => {
            proof {
                lemma_first_index(fams, family_is(slug_of(sel.slug@)), fi as int);
                assert(fams[fi as int].wf());
            }
            let fam = &idx.families[fi];
            match sel.version {
                Some(k) => match fam.position(k) {
                    Some(vi) => {
                        proof {
                            lemma_first_index(fam.versions@, version_is(k), vi as int);
                        }
                        apply_version(st, fam, &fam.versions[vi], sel);
                    },
                    None => {
                        proof {
                            lemma_first_index(fam.versions@, version_is(k), fam.versions@.len() as int);
                        }
                        let mut msg = String::from_str("version ");
                        k.push_text(&mut msg);
                        push_str(&mut msg, " not found");
                        push_error(st, sel.slug.as_str(), msg);
                    },
                },
                None => {
                    apply_version(st, fam, fam.current(), sel);
                },
            }
        },
    }
}

fn aisles_exec(src: &Option<String>) -> (r: Option<aisle::Aisles>)
    ensures
        opt_view(r) == aisles_of(opt_view(*src)),
{
    match src {
        Some(s) => match parse_aisles(s.as_str()) {
            Ok((a, _)) => Some(a),
            Err(_) => None,
        },
        None => None,
    }
}

fn item_of(bins: &Vec<Bin>, b: &Bin, aisles: &Option<aisle::Aisles>) -> (r: LineItem)
    ensures
        r@ == item_spec(views(bins@), b@, opt_view(*aisles)),
{
    let canonical = match b.dim {
        Some(d) => Some(Canonical { amount: b.amount, dimension: d }),
        None => None,
    };
    let display = match b.dim {
        Some(d) => format_display(Canonical { amount: b.amount, dimension: d }),
        None => match &b.text {
            Some(t) => owned(t.as_str()),
            None => if b.trivial {
                String::from_str("a bit of")
            } else {
                String::from_str("to taste")
            },
        },
    };
    let warning = if mixed_units_exec(bins, b.normalized.as_str()) {
        let mut w = String::from_str("mixed units across recipes (");
        match b.dim {
            Some(d) => push_str(&mut w, d.to_text().as_str()),
            None => push_str(&mut w, "n/a"),
        }
        w.push(')');
        proof {
            reveal_strlit(")");
            assert(w@ =~= "mixed units across recipes ("@ + dim_label(b@.dim) + ")"@);
        }
        Some(w)
    } else {
        None
    };
    let category = match aisles {
        Some(a) => a.category_of(b.normalized.as_str()),
        None => None,
    };
    let mut notes: Vec<String> = Vec::new();
    let mut i: usize = 0;
    while i < b.notes.len()
        invariant
            i <= b.notes@.len(),
            views(notes@) == views(b.notes@).take(i as int),
        decreases b.notes@.len() - i,
    {
        let ghost before = views(notes@);
        notes.push(owned(b.notes[i].as_str()));
        assert(views(notes@) =~= before.push(b.notes@[i as int]@));
        assert(views(notes@) =~= views(b.notes@).take(i + 1));
        i = i + 1;
    }
    assert(views(b.notes@).take(i as int) =~= views(b.notes@));
    let mut sources: Vec<SourceRef> = Vec::new();
    let mut k: usize = 0;
    while k < b.sources.len()
        invariant
            k <= b.sources@.len(),
            views(sources@) == views(b.sources@).take(k as int),
        decreases b.sources@.len() - k,
    {
        let ghost before = views(sources@);
        sources.push(b.sources[k].duplicate());
        assert(views(sources@) =~= before.push(b.sources@[k as int]@));
        assert(views(sources@) =~= views(b.sources@).take(k + 1));
        k = k + 1;
    }
    assert(views(b.sources@).take(k as int) =~= views(b.sources@));
    let r = LineItem {
        display_name: owned(b.display_name.as_str()),
        canonical,
        display,
        notes,
        sources,
        warning,
        category,
    };
    proof {
        reveal_strlit(")");
    }
    r
}

fn key_of(it: &LineItem, aisles: &Option<aisle::Aisles>) -> (r: ExecKey)
    ensures
        r@ == item_key(it@, opt_view(*aisles)),
{
    match aisles {
        Some(a) => {
            let lower = crate::text::to_ascii_lowercase(it.display_name.as_str());
            let text = chars_of(lower.as_str());
            match a.ingredient_sort_key(lower.as_str()) {
                Some((c, i)) => ExecKey { major: c, minor: i, text },
                None => ExecKey { major: usize::MAX, minor: usize::MAX, text },
            }
        },
        None => {
            let lower = crate::text::to_lowercase(it.display_name.as_str());
            ExecKey {
                major: if it.canonical.is_none() {
                    1
                } else {
                    0
                },
                minor: 0,
                text: chars_of(lower.as_str()),
            }
        },
    }
}

/// `l` is the shopping list of selections `sels` over families `fams` with
/// aisle file text `aisle`: the selections applied in order, trivially small
/// masses folded away, and the lines ordered stably by `item_key`.
pub open spec fn aggregated(
    fams: Seq<RecipeFamily>,
    aisle: Option<Seq<char>>,
    sels: Seq<SelectionView>,
    l: ShoppingListView,
) -> bool {
    let st = selections_fold(fams, sels);
    let aisles = aisles_of(aisle);
    let items = unsorted_items(demoted(st.bins), aisles);
    &&& l.sources == st.sources
    &&& l.errors == st.errors
    &&& exists|perm: Seq<int>|
        stable_order(item_keys(items, aisles), perm) && l.items.len() == perm.len() && forall|k: int|
            0 <= k < perm.len() ==> l.items[k] == items[#[trigger] perm[k]]
}

/// Aggregate selected recipes against the index (see `aggregated`).
pub fn aggregate(idx: &Index, selections: &[Selection]) -> (r: ShoppingList)
    requires
        idx.wf(),
    ensures
        aggregated(idx.families@, opt_view(idx.aisle_source), views(selections@), r@),
{
    let mut st = Agg { bins: Vec::new(), sources: Vec::new(), errors: Vec::new() };
    let ghost sels = views(selections@);
    assert(st@.bins =~= Seq::<BinView>::empty() && st@.sources =~= Seq::<SourceRefView>::empty()
        && st@.errors =~= Seq::<ResolutionErrorView>::empty());
    assert(sels.take(0) =~= Seq::<SelectionView>::empty());
    let mut i: usize = 0;
    while i < selections.len()
        invariant
            idx.wf(),
            i <= selections@.len(),
            sels == views(selections@),
            st@ == selections_fold(idx.families@, sels.take(i as int)),
        decreases selections@.len() - i,
    {
        assert(sels.take(i + 1).drop_last() =~= sels.take(i as int));
        apply_selection(&mut st, idx, &selections[i]);
        i = i + 1;
    }
    assert(sels.take(i as int) =~= sels);
    let bins = demote(&st.bins);
    let aisles = aisles_exec(&idx.aisle_source);
    let ghost a = opt_view(aisles);
    let ghost items_v = unsorted_items(views(bins@), a);
    let mut items: Vec<LineItem> = Vec::new();
    let mut keys: Vec<ExecKey> = Vec::new();
    let mut j: usize = 0;
    while j < bins.len()
        invariant
            j <= bins@.len(),
            a == opt_view(aisles),
            items_v == unsorted_items(views(bins@), a),
            items@.len() == j,
            keys@.len() == j,
            forall|k: int| 0 <= k < j ==> (#[trigger] items@[k])@ == items_v[k],
            forall|k: int| 0 <= k < j ==> (#[trigger] keys@[k])@ == item_key(items_v[k], a),
        decreases bins@.len() - j,
    {
        let it = item_of(&bins, &bins[j], &aisles);
        let key = key_of(&it, &aisles);
        items.push(it);
        keys.push(key);
        j = j + 1;
    }
    assert(views(items@) =~= items_v);
    assert(order::key_views(keys@) =~= item_keys(items_v, a));
    let ghost keys_v = item_keys(items_v, a);
    let sorted = stable_sort(items, keys);
    proof {
        let perm = choose|perm: Seq<int>|
            stable_order(order::key_views(keys@), perm) && views(sorted@).len() == perm.len() && forall|k: int|
                0 <= k < perm.len() ==> views(sorted@)[k] == views(items@)[#[trigger] perm[k]];
        assert(stable_order(keys_v, perm));
        let fst = selections_fold(idx.families@, views(selections@));
        assert(st@ == fst);
        assert(views(bins@) == demoted(fst.bins));
        assert(a == aisles_of(opt_view(idx.aisle_source)));
        assert(items_v == unsorted_items(demoted(fst.bins), aisles_of(opt_view(idx.aisle_source))));
        assert(forall|k: int| 0 <= k < perm.len() ==> views(sorted@)[k] == items_v[#[trigger] perm[k]]);
    }
    let r = ShoppingList { items: sorted, sources: st.sources, errors: st.errors };
    assert(r@.items == views(sorted@));
    r
}

/// `slug@version`, with ` (×N servings)` when the selection overrides the
/// servings; the version is the selected one or the family's current one.
pub open spec fn selection_label_spec(f: RecipeFamily, sel: SelectionView) -> Seq<char> {
    let v = match sel.version {
        Some(k) => k,
        None => f.versions@.last().key,
    };
    f.slug@ + "@"@ + version_text(v) + match sel.override_servings {
        Some(s) => " (×"@ + crate::text::dec(s as nat) + " servings)"@,
        None => Seq::<char>::empty(),
    }
}

/// Label of a selection for the list's footer.
pub fn selection_label(family: &RecipeFamily, sel: &Selection) -> (r: String)
    requires
        family.versions@.len() > 0,
    ensures
        r@ == selection_label_spec(*family, sel@),
{
    let v = match sel.version {
        Some(k) => k,
        None => family.current().key,
    };
    let mut out = family.slug.to_text();
    push_str(&mut out, "@");
    v.push_text(&mut out);
    match sel.override_servings {
        Some(s) => {
            push_str(&mut out, " (×");
            crate::text::push_dec(&mut out, s as u128);
            push_str(&mut out, " servings)");
        },
        None => {},
    }
    assert(out@ =~= selection_label_spec(*family, sel@));
    out
}

} // verus!
