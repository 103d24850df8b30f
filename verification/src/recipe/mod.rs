//! Parsed recipe model: what the rest of the library reads of a Cooklang recipe.

pub mod parse;
pub mod units;

use crate::text::{chars_of, string_of_range, trim, trim_bounds};
use vstd::prelude::*;

verus! {

/// Views of a sequence of values.
pub open spec fn views<T: View>(s: Seq<T>) -> Seq<T::V> {
    Seq::new(s.len(), |i: int| s[i]@)
}

/// View of an optional value.
pub open spec fn opt_view<T: View>(o: Option<T>) -> Option<T::V> {
    match o {
        Some(v) => Some(v@),
        None => None,
    }
}

/// The numeric part of a quantity, numbers as the parser's decimal text.
#[derive(Debug, Clone)]
pub enum QtyValue {
    Number(String),
    Range(String, String),
    Text(String),
}

/// View of a quantity value.
pub enum QtyValueView {
    Number(Seq<char>),
    Range(Seq<char>, Seq<char>),
    Text(Seq<char>),
}

impl View for QtyValue {
    type V = QtyValueView;

    open spec fn view(&self) -> QtyValueView {
        match self {
            QtyValue::Number(n) => QtyValueView::Number(n@),
            QtyValue::Range(a, b) => QtyValueView::Range(a@, b@),
            QtyValue::Text(t) => QtyValueView::Text(t@),
        }
    }
}

/// A quantity: a value and an optional unit.
#[derive(Debug, Clone)]
pub struct Qty {
    pub value: QtyValue,
    pub unit: Option<String>,
}

/// View of a quantity.
pub struct QtyView {
    pub value: QtyValueView,
    pub unit: Option<Seq<char>>,
}

impl View for Qty {
    type V = QtyView;

    open spec fn view(&self) -> QtyView {
        QtyView { value: self.value@, unit: opt_view(self.unit) }
    }
}

/// An ingredient mention.
#[derive(Debug, Clone)]
pub struct Ingredient {
    pub name: String,
    /// A definition, not a reference to an earlier mention.
    pub is_definition: bool,
    pub quantity: Option<Qty>,
    pub note: Option<String>,
}

/// View of an ingredient.
pub struct IngredientView {
    pub name: Seq<char>,
    pub is_definition: bool,
    pub quantity: Option<QtyView>,
    pub note: Option<Seq<char>>,
}

impl View for Ingredient {
    type V = IngredientView;

    open spec fn view(&self) -> IngredientView {
        IngredientView {
            name: self.name@,
            is_definition: self.is_definition,
            quantity: opt_view(self.quantity),
            note: opt_view(self.note),
        }
    }
}

/// A step item: text, or the index of a component in its recipe list.
#[derive(Debug, Clone)]
pub enum Item {
    Text(String),
    Ingredient(usize),
    Cookware(usize),
    Timer(usize),
    InlineQuantity(usize),
}

/// View of a step item.
pub enum ItemView {
    Text(Seq<char>),
    Ingredient(usize),
    Cookware(usize),
    Timer(usize),
    InlineQuantity(usize),
}

impl View for Item {
    type V = ItemView;

    open spec fn view(&self) -> ItemView {
        match self {
            Item::Text(t) => ItemView::Text(t@),
            Item::Ingredient(i) => ItemView::Ingredient(*i),
            Item::Cookware(i) => ItemView::Cookware(*i),
            Item::Timer(i) => ItemView::Timer(*i),
            Item::InlineQuantity(i) => ItemView::InlineQuantity(*i),
        }
    }
}

/// A step (a list of items) or a text paragraph.
#[derive(Debug, Clone)]
pub enum Content {
    Step(Vec<Item>),
    Text(String),
}

/// View of a content block.
pub enum ContentView {
    Step(Seq<ItemView>),
    Text(Seq<char>),
}

impl View for Content {
    type V = ContentView;

    open spec fn view(&self) -> ContentView {
        match self {
            Content::Step(items) => ContentView::Step(views(items@)),
            Content::Text(t) => ContentView::Text(t@),
        }
    }
}

/// A section of the method, optionally named.
#[derive(Debug, Clone)]
pub struct Section {
    pub name: Option<String>,
    pub content: Vec<Content>,
}

/// View of a section.
pub struct SectionView {
    pub name: Option<Seq<char>>,
    pub content: Seq<ContentView>,
}

impl View for Section {
    type V = SectionView;

    open spec fn view(&self) -> SectionView {
        SectionView { name: opt_view(self.name), content: views(self.content@) }
    }
}

/// A timer: optional name and duration.
#[derive(Debug, Clone)]
pub struct Timer {
    pub name: Option<String>,
    pub quantity: Option<Qty>,
}

/// View of a timer.
pub struct TimerView {
    pub name: Option<Seq<char>>,
    pub quantity: Option<QtyView>,
}

impl View for Timer {
    type V = TimerView;

    open spec fn view(&self) -> TimerView {
        TimerView { name: opt_view(self.name), quantity: opt_view(self.quantity) }
    }
}

/// One entry of the parser's grouped ingredient list: a name and its summed
/// quantities (several when their units cannot be added).
#[derive(Debug, Clone)]
pub struct GroupedIngredient {
    pub name: String,
    pub quantities: Vec<Qty>,
}

/// View of a grouped ingredient.
pub struct GroupedIngredientView {
    pub name: Seq<char>,
    pub quantities: Seq<QtyView>,
}

impl View for GroupedIngredient {
    type V = GroupedIngredientView;

    open spec fn view(&self) -> GroupedIngredientView {
        GroupedIngredientView { name: self.name@, quantities: views(self.quantities@) }
    }
}

/// A parsed recipe.
#[derive(Debug, Clone)]
pub struct ParsedRecipe {
    /// `title` metadata.
    pub title: Option<String>,
    /// `changelog` metadata, as written.
    pub changelog: Option<String>,
    /// `servings` metadata, when it is a number.
    pub servings: Option<u32>,
    pub ingredients: Vec<Ingredient>,
    pub cookware: Vec<String>,
    pub timers: Vec<Timer>,
    pub inline_quantities: Vec<Qty>,
    pub sections: Vec<Section>,
    /// Ingredients grouped by name with their quantities summed.
    pub grouped: Vec<GroupedIngredient>,
}

/// View of a recipe.
pub struct ParsedRecipeView {
    pub title: Option<Seq<char>>,
    pub changelog: Option<Seq<char>>,
    pub servings: Option<u32>,
    pub ingredients: Seq<IngredientView>,
    pub cookware: Seq<Seq<char>>,
    pub timers: Seq<TimerView>,
    pub inline_quantities: Seq<QtyView>,
    pub sections: Seq<SectionView>,
    pub grouped: Seq<GroupedIngredientView>,
}

impl View for ParsedRecipe {
    type V = ParsedRecipeView;

    open spec fn view(&self) -> ParsedRecipeView {
        ParsedRecipeView {
            title: opt_view(self.title),
            changelog: opt_view(self.changelog),
            servings: self.servings,
            ingredients: views(self.ingredients@),
            cookware: views(self.cookware@),
            timers: views(self.timers@),
            inline_quantities: views(self.inline_quantities@),
            sections: views(self.sections@),
            grouped: views(self.grouped@),
        }
    }
}

/// The recipe title from `title` metadata.
pub fn recipe_title(recipe: &ParsedRecipe) -> (r: Option<String>)
    ensures
        opt_view(r) == recipe@.title,
{
    match &recipe.title {
        Some(t) => Some(crate::text::owned(t.as_str())),
        None => None,
    }
}

/// The changelog shown for a version: the trimmed `changelog` metadata, if not empty.
pub open spec fn changelog_spec(raw: Option<Seq<char>>) -> Option<Seq<char>> {
    match raw {
        Some(s) => if trim(s).len() > 0 {
            Some(trim(s))
        } else {
            None
        },
        None => None,
    }
}

/// `changelog` metadata, trimmed, if present and not empty.
pub fn recipe_changelog(recipe: &ParsedRecipe) -> (r: Option<String>)
    ensures
        opt_view(r) == changelog_spec(recipe@.changelog),
{
    match &recipe.changelog {
        Some(raw) => {
            let cs = chars_of(raw.as_str());
            let (a, b) = trim_bounds(&cs);
            if a < b {
                Some(string_of_range(&cs, a, b))
            } else {
                None
            }
        },
        None => None,
    }
}

/// Declared servings: the `servings` metadata, or 1 when missing or not a number.
pub open spec fn servings_spec(s: Option<u32>) -> u32 {
    match s {
        Some(n) => n,
        None => 1,
    }
}

/// Declared servings, falling back to `1` if missing or non-numeric.
pub fn declared_servings(recipe: &ParsedRecipe) -> (r: u32)
    ensures
        r == servings_spec(recipe@.servings),
{
    match recipe.servings {
        Some(n) => n,
        None => 1,
    }
}

} // verus!
