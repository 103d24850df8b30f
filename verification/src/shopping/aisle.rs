//! Aisle (store-section) configuration: categories of ingredients, in file order.
//!
//! The file is parsed by the Cooklang crate; the library holds the result as
//! plain values and answers the two questions the shopping list asks of it:
//! which category an ingredient belongs to, and where it sorts.

use crate::text::{str_eq, to_lowercase, unicode_lower};
use vstd::prelude::*;

verus! {

/// One category of an aisle file: its name and its ingredient lines, each a
/// list of names (the first being the common one).
#[derive(Debug, Clone)]
pub struct AisleCategory {
    pub name: String,
    pub ingredients: Vec<Vec<String>>,
}

/// View of a category.
pub struct AisleCategoryView {
    pub name: Seq<char>,
    pub ingredients: Seq<Seq<Seq<char>>>,
}

impl View for AisleCategory {
    type V = AisleCategoryView;

    open spec fn view(&self) -> AisleCategoryView {
        AisleCategoryView {
            name: self.name@,
            ingredients: Seq::new(
                self.ingredients@.len(),
                |i: int| Seq::new(self.ingredients@[i]@.len(), |k: int| self.ingredients@[i]@[k]@),
            ),
        }
    }
}

/// A parsed aisle file.
#[derive(Debug, Clone)]
pub struct Aisles {
    pub categories: Vec<AisleCategory>,
}

impl View for Aisles {
    type V = Seq<AisleCategoryView>;

    open spec fn view(&self) -> Seq<AisleCategoryView> {
        Seq::new(self.categories@.len(), |i: int| self.categories@[i]@)
    }
}

/// What the Cooklang aisle parser makes of a file: the categories and the
/// messages of its warnings, or the messages of its errors.
pub uninterp spec fn aisle_parse_result(src: Seq<char>) -> Result<
    (Seq<AisleCategoryView>, Seq<Seq<char>>),
    Seq<Seq<char>>,
>;

/// View of a parse result.
pub open spec fn aisle_result_view(r: Result<(Aisles, Vec<String>), Vec<String>>) -> Result<
    (Seq<AisleCategoryView>, Seq<Seq<char>>),
    Seq<Seq<char>>,
> {
    match r {
        Ok((a, w)) => Ok((a@, crate::recipe::views(w@))),
        Err(e) => Err(crate::recipe::views(e@)),
    }
}

/// `cooklang::aisle::parse_lenient(src).into_result()`, converted to plain
/// values. Its result is named by `aisle_parse_result`. The parser asserts on
/// the position of a repeated empty ingredient name that ends the input, so
/// the input must not end with `|`.
#[verifier::external_body]
fn cook_parse_aisles(src: &str) -> (r: Result<(Aisles, Vec<String>), Vec<String>>)
    requires
        src@.len() == 0 || src@.last() != '|',
    ensures
        aisle_result_view(r) == aisle_parse_result(src@),
{
    match cooklang::aisle::parse_lenient(src).into_result() {
        Ok((conf, report)) => Ok((Aisles {
            categories: conf.categories.iter().map(|c| AisleCategory {
                name: c.name.to_string(),
                ingredients: c.ingredients.iter().map(|i| i.names.iter().map(|n| n.to_string()).collect()).collect(),
            }).collect(),
        }, report.warnings().map(|w| w.message.to_string()).collect())),
        Err(report) => Err(report.errors().map(|e| e.message.to_string()).collect()),
    }
}

/// The text handed to the parser: a file whose last character is `|` gets a
/// line break after it (the parser reads the same lines either way).
pub open spec fn aisle_input(src: Seq<char>) -> Seq<char> {
    if src.len() > 0 && src.last() == '|' {
        src.push('\n')
    } else {
        src
    }
}

/// Parse an aisle file: its categories and warnings, or its errors.
pub fn parse_aisles(src: &str) -> (r: Result<(Aisles, Vec<String>), Vec<String>>)
    ensures
        aisle_result_view(r) == aisle_parse_result(aisle_input(src@)),
{
    let n = src.unicode_len();
    if n > 0 && src.get_char(n - 1) == '|' {
        let mut s = crate::text::owned(src);
        s.push('\n');
        cook_parse_aisles(s.as_str())
    } else {
        cook_parse_aisles(src)
    }
}

/// Some name of the ingredient line lowercases (Unicode) to `key`.
pub open spec fn line_has(names: Seq<Seq<char>>, key: Seq<char>) -> bool {
    exists|k: int| 0 <= k < names.len() && unicode_lower(#[trigger] names[k]) == key
}

/// Some ingredient line of the category has a name lowercasing to `key`.
pub open spec fn category_has(cat: AisleCategoryView, key: Seq<char>) -> bool {
    exists|i: int| 0 <= i < cat.ingredients.len() && line_has(#[trigger] cat.ingredients[i], key)
}

/// Ingredient line `ii` of category `ci` has a name lowercasing to `key`.
pub open spec fn listed_at(cats: Seq<AisleCategoryView>, ci: int, ii: int, key: Seq<char>) -> bool {
    &&& 0 <= ci < cats.len()
    &&& 0 <= ii < cats[ci].ingredients.len()
    &&& line_has(cats[ci].ingredients[ii], key)
}

/// Category `ci` is the last one listing `key`.
pub open spec fn last_in(cats: Seq<AisleCategoryView>, key: Seq<char>, ci: int) -> bool {
    &&& 0 <= ci < cats.len()
    &&& category_has(cats[ci], key)
    &&& forall|cj: int| ci < cj < cats.len() ==> !category_has(#[trigger] cats[cj], key)
}

/// The name of the last category listing `key`, if any.
pub open spec fn last_category(cats: Seq<AisleCategoryView>, key: Seq<char>) -> Option<Seq<char>> {
    if exists|ci: int| last_in(cats, key, ci) {
        Some(cats[choose|ci: int| last_in(cats, key, ci)].name)
    } else {
        None
    }
}

/// `(ci, ii)` is the first line (in file order) listing `key`.
pub open spec fn first_listed(cats: Seq<AisleCategoryView>, key: Seq<char>, ci: int, ii: int) -> bool {
    &&& listed_at(cats, ci, ii, key)
    &&& forall|c: int, i: int| (c < ci || (c == ci && i < ii)) ==> !#[trigger] listed_at(cats, c, i, key)
}

/// Position of the first line listing `key`, if any.
pub open spec fn sort_pos(cats: Seq<AisleCategoryView>, key: Seq<char>) -> Option<(int, int)> {
    if exists|ci: int, ii: int| first_listed(cats, key, ci, ii) {
        Some(choose|ci: int, ii: int| first_listed(cats, key, ci, ii))
    } else {
        None
    }
}

fn line_has_exec(names: &Vec<String>, key: &str) -> (r: bool)
    ensures
        r == line_has(Seq::new(names@.len(), |k: int| names@[k]@), key@),
{
    let ghost s = Seq::new(names@.len(), |k: int| names@[k]@);
    let mut k: usize = 0;
    while k < names.len()
        invariant
            k <= names@.len(),
            s == Seq::new(names@.len(), |k: int| names@[k]@),
            forall|j: int| 0 <= j < k ==> unicode_lower(#[trigger] s[j]) != key@,
        decreases names@.len() - k,
    {
        let l = to_lowercase(names[k].as_str());
        if str_eq(l.as_str(), key) {
            assert(unicode_lower(s[k as int]) == key@);
            return true;
        }
        k = k + 1;
    }
    false
}

fn category_has_exec(cat: &AisleCategory, key: &str) -> (r: bool)
    ensures
        r == category_has(cat@, key@),
{
    let mut i: usize = 0;
    while i < cat.ingredients.len()
        invariant
            i <= cat.ingredients@.len(),
            forall|j: int| 0 <= j < i ==> !line_has(#[trigger] cat@.ingredients[j], key@),
        decreases cat.ingredients@.len() - i,
    {
        if line_has_exec(&cat.ingredients[i], key) {
            assert(line_has(cat@.ingredients[i as int], key@));
            return true;
        }
        i = i + 1;
    }
    false
}

impl Aisles {
    /// The category of the ingredient whose lowercased name is `key`: of all
    /// lines naming it, the last one's (later entries replace earlier ones).
    pub fn category_of(&self, key: &str) -> (r: Option<String>)
        ensures
            crate::recipe::opt_view(r) == last_category(self@, key@),
    {
        let mut i = self.categories.len();
        while i > 0
            invariant
                i <= self@.len(),
                self@.len() == self.categories@.len(),
                forall|cj: int| i <= cj < self@.len() ==> !category_has(#[trigger] self@[cj], key@),
            decreases i,
        {
            i = i - 1;
            if category_has_exec(&self.categories[i], key) {
                let c = crate::text::owned(self.categories[i].name.as_str());
                proof {
                    let cats = self@;
                    assert(last_in(cats, key@, i as int));
                    let ch = choose|ci: int| last_in(cats, key@, ci);
                    assert(last_in(cats, key@, ch));
                    if ch < i {
                        assert(category_has(cats[i as int], key@));
                    } else if ch > i {
                        assert(category_has(cats[ch], key@));
                    }
                }
                return Some(c);
            }
        }
        proof {
            let cats = self@;
            assert forall|ci: int| !last_in(cats, key@, ci) by {}
        }
        None
    }

    /// `(category index, line index)` of the first line with a name that
    /// lowercases (Unicode) as `name` does.
    pub fn ingredient_sort_key(&self, name: &str) -> (r: Option<(usize, usize)>)
        ensures
            match r {
                Some((ci, ii)) => sort_pos(self@, unicode_lower(name@)) == Some((ci as int, ii as int)),
                None => sort_pos(self@, unicode_lower(name@)) is None,
            },
    {
        let lower = to_lowercase(name);
        let mut ci: usize = 0;
        while ci < self.categories.len()
            invariant
                ci <= self@.len(),
                self@.len() == self.categories@.len(),
                lower@ == unicode_lower(name@),
                forall|c: int, i: int| c < ci ==> !#[trigger] listed_at(self@, c, i, lower@),
            decreases self@.len() - ci,
        {
            let cat = &self.categories[ci];
            let mut ii: usize = 0;
            while ii < cat.ingredients.len()
                invariant
                    ci < self@.len(),
                    self@.len() == self.categories@.len(),
                    *cat == self.categories@[ci as int],
                    ii <= cat.ingredients@.len(),
                    lower@ == unicode_lower(name@),
                    forall|c: int, i: int| c < ci ==> !#[trigger] listed_at(self@, c, i, lower@),
                    forall|i: int| i < ii ==> !#[trigger] listed_at(self@, ci as int, i, lower@),
                decreases cat.ingredients@.len() - ii,
            {
                if line_has_exec(&cat.ingredients[ii], lower.as_str()) {
                    proof {
                        let cats = self@;
                        let l = lower@;
                        assert(first_listed(cats, l, ci as int, ii as int));
                        let (c, i) = choose|c: int, i: int| first_listed(cats, l, c, i);
                        assert(first_listed(cats, l, c, i));
                        if c < ci || (c == ci && i < ii) {
                            assert(listed_at(cats, c, i, l));
                        } else if c > ci || (c == ci && i > ii) {
                            assert(listed_at(cats, ci as int, ii as int, l));
                        }
                    }
                    return Some((ci, ii));
                }
                ii = ii + 1;
            }
            ci = ci + 1;
        }
        proof {
            let cats = self@;
            let l = lower@;
            assert forall|c: int, i: int| !first_listed(cats, l, c, i) by {
                if listed_at(cats, c, i, l) {
                    assert(c < ci);
                }
            }
        }
        None
    }
}

} // verus!
