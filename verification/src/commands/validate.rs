//! `validate`: check recipe files and report each on its own line.
//!
//! Exit codes: 0 when clean, 1 on invariant violations (parse errors,
//! malformed names, duplicate versions, slug collisions), 2 on I/O or usage
//! errors. The walk and the file reads happen outside; the checks and the
//! report lines are made here.

use crate::index::assemble::{scan_entry, scan_spec, ScanDecision, ScanDecisionView};
use crate::index::scan::{version_text, RecipeFileMeta, RecipeFileMetaView, VersionKey};
use crate::paths::{components, file_name, path_components, texts};
use crate::recipe::parse::{parse_error_message, parse_str, parsed_from, result_view, ParseError, ParseErrorView, ParseOutcome, ParseOutcomeView};
use crate::recipe::views;
use crate::search::first_index;
use crate::recipe::units::{canonical_spec, canonicalize, count_unit, Dimension, mass_factor, unit_error_message, volume_factor, UnitErrorView};
use crate::recipe::{changelog_spec, recipe_changelog, Ingredient, IngredientView, ParsedRecipe, ParsedRecipeView};
use crate::text::{lower_ascii_seq, owned, push_str, str_eq, to_ascii_lowercase, trim, trimmed};
use vstd::prelude::*;

verus! {

/// A report line: its text and whether it goes to standard error.
pub struct Line {
    pub to_stderr: bool,
    pub text: String,
}

/// View of a report line.
pub struct LineView {
    pub to_stderr: bool,
    pub text: Seq<char>,
}

impl View for Line {
    type V = LineView;

    open spec fn view(&self) -> LineView {
        LineView { to_stderr: self.to_stderr, text: self.text@ }
    }
}

/// `<label><path>: <message>`.
pub open spec fn labelled(label: Seq<char>, path: Seq<char>, message: Seq<char>) -> Seq<char> {
    label + path + ": "@ + message
}

fn labelled_exec(label: &str, path: &str, message: &str) -> (r: String)
    ensures
        r@ == labelled(label@, path@, message@),
{
    let mut out = owned(label);
    push_str(&mut out, path);
    push_str(&mut out, ": ");
    push_str(&mut out, message);
    out
}

/// The last `.` of a file name, or -1.
pub open spec fn last_dot(s: Seq<char>) -> int
    decreases s.len(),
{
    if s.len() == 0 {
        -1
    } else if s.last() == '.' {
        s.len() - 1
    } else {
        last_dot(s.drop_last())
    }
}

/// `Path::extension`: what follows the last `.` of the file name, when that
/// `.` is not its first character.
pub open spec fn extension(p: Seq<char>) -> Option<Seq<char>> {
    match file_name(components(p)) {
        Some(n) => {
            let d = last_dot(n);
            if d > 0 {
                Some(n.subrange(d + 1, n.len() as int))
            } else {
                None
            }
        },
        None => None,
    }
}

proof fn lemma_last_dot(s: Seq<char>, d: int)
    requires
        -1 <= d < s.len(),
        d >= 0 ==> s[d] == '.',
        forall|j: int| d < j < s.len() ==> s[j] != '.',
    ensures
        last_dot(s) == d,
    decreases s.len(),
{
    if s.len() > 0 && s.last() != '.' {
        lemma_last_dot(s.drop_last(), d);
    }
}

/// The file name of `p` and its extension (see `extension`).
pub fn path_extension(p: &str) -> (r: Option<String>)
    ensures
        crate::recipe::opt_view(r) == extension(p@),
{
    let comps = path_components(p);
    let n = comps.len();
    if n == 0 {
        return None;
    }
    let last = &comps[n - 1];
    assert(texts(comps@).last() == last@);
    let k = last.len();
    let is_root = k == 1 && last[0] == '/';
    let is_dot = k == 1 && last[0] == '.';
    let is_dotdot = k == 2 && last[0] == '.' && last[1] == '.';
    if is_root || is_dot || is_dotdot {
        proof {
            if is_root { assert(last@ =~= seq!['/']); }
            if is_dot { assert(last@ =~= seq!['.']); }
            if is_dotdot { assert(last@ =~= seq!['.', '.']); }
        }
        return None;
    }
    proof {
        assert(last@ != seq!['/']) by { if last@ == seq!['/'] { assert(last@[0] == '/'); } };
        assert(last@ != seq!['.']) by { if last@ == seq!['.'] { assert(last@[0] == '.'); } };
        assert(last@ != seq!['.', '.']) by { if last@ == seq!['.', '.'] { assert(last@[1] == '.'); } };
    }
    let mut d = k;
    while d > 0 && last[d - 1] != '.'
        invariant
            d <= k,
            k == last@.len(),
            forall|j: int| d <= j < k ==> last@[j] != '.',
        decreases d,
    {
        d = d - 1;
    }
    proof {
        lemma_last_dot(last@, d - 1);
    }
    if d > 1 {
        Some(crate::text::string_of_range(last, d, k))
    } else {
        None
    }
}

/// The single-file check before reading: a path without the `cook`
/// extension is an error.
pub open spec fn single_check_spec(path: Seq<char>) -> Option<LineView> {
    if extension(path) == Some("cook"@) {
        None
    } else {
        Some(LineView { to_stderr: true, text: "error: not a .cook file: "@ + path })
    }
}

/// Check a single file's name; `Some` is the error to report (the file then
/// fails without being read).
pub fn single_file_check(path: &str) -> (r: Option<Line>)
    ensures
        match r {
            Some(l) => single_check_spec(path@) == Some(l@),
            None => single_check_spec(path@) is None,
        },
{
    let ext = path_extension(path);
    let ok = match &ext {
        Some(e) => str_eq(e.as_str(), "cook"),
        None => false,
    };
    if ok {
        None
    } else {
        let mut t = String::from_str("error: not a .cook file: ");
        push_str(&mut t, path);
        Some(Line { to_stderr: true, text: t })
    }
}

/// A unit `validate` accepts: after trimming and ASCII-lowercasing, a mass,
/// volume or piece alias (the units `canonicalize` converts).
pub open spec fn unit_known(u: Seq<char>) -> bool {
    let lower = lower_ascii_seq(trim(u));
    mass_factor(lower) is Some || volume_factor(lower) is Some || count_unit(lower)
}

/// The failure of an ingredient whose quantity has a unit that is not a
/// metric alias, if it has one.
pub open spec fn unit_line(path: Seq<char>, ing: IngredientView) -> Seq<LineView> {
    match ing.quantity {
        Some(q) => match q.unit {
            Some(u) => if unit_known(u) {
                Seq::empty()
            } else {
                seq![
                    LineView {
                        to_stderr: false,
                        text: labelled("FAIL  "@, path, ing.name + ": "@ + unit_error_message(UnitErrorView::UnknownUnit(u))),
                    },
                ]
            },
            None => Seq::empty(),
        },
        None => Seq::empty(),
    }
}

/// The unit failures of the first `n` ingredients.
pub open spec fn unit_lines(path: Seq<char>, ings: Seq<IngredientView>, n: int) -> Seq<LineView>
    decreases n,
{
    if n <= 0 {
        Seq::empty()
    } else {
        unit_lines(path, ings, n - 1) + unit_line(path, ings[n - 1])
    }
}

/// The failure of a `servings` count of zero, if so.
pub open spec fn servings_line(path: Seq<char>, servings: Option<u32>) -> Seq<LineView> {
    if servings == Some(0u32) {
        seq![LineView { to_stderr: false, text: labelled("FAIL  "@, path, "servings must be a positive integer"@) }]
    } else {
        Seq::empty()
    }
}

/// The rule failures of a recipe that parsed: every unit a metric alias or
/// absent, `servings` positive.
pub open spec fn recipe_checks(path: Seq<char>, recipe: ParsedRecipeView) -> Seq<LineView> {
    unit_lines(path, recipe.ingredients, recipe.ingredients.len() as int) + servings_line(path, recipe.servings)
}

/// The `OK` line of a file, when no rule failed.
pub open spec fn ok_line(path: Seq<char>, checks: Seq<LineView>) -> Seq<LineView> {
    if checks.len() == 0 {
        seq![LineView { to_stderr: false, text: "OK    "@ + path }]
    } else {
        Seq::empty()
    }
}

/// Report the rule failures of a parsed recipe; whether there were any.
fn push_checks(lines: &mut Vec<Line>, path: &str, recipe: &ParsedRecipe) -> (found: bool)
    ensures
        views(final(lines)@) == views(old(lines)@) + recipe_checks(path@, recipe@),
        found == (recipe_checks(path@, recipe@).len() > 0),
{
    let ghost ings = recipe@.ingredients;
    let ghost start = views(lines@);
    let mut found = false;
    let mut i: usize = 0;
    while i < recipe.ingredients.len()
        invariant
            i <= recipe.ingredients@.len(),
            ings == recipe@.ingredients,
            views(lines@) == start + unit_lines(path@, ings, i as int),
            found == (unit_lines(path@, ings, i as int).len() > 0),
        decreases recipe.ingredients@.len() - i,
    {
        let ing = &recipe.ingredients[i];
        assert(ings[i as int] == ing@);
        let ghost before = views(lines@);
        if let Some(q) = &ing.quantity {
            if let Some(u) = &q.unit {
                match canonicalize(0, Some(u.as_str())) {
                    Ok(_) => {},
                    Err(e) => {
                        let mut m = owned(ing.name.as_str());
                        push_str(&mut m, ": ");
                        let em = e.message();
                        push_str(&mut m, em.as_str());
                        lines.push(Line { to_stderr: false, text: labelled_exec("FAIL  ", path, m.as_str()) });
                        found = true;
                    },
                }
            }
        }
        assert(views(lines@) =~= before + unit_line(path@, ings[i as int]));
        assert(unit_lines(path@, ings, i + 1) == unit_lines(path@, ings, i as int) + unit_line(path@, ings[i as int]));
        i = i + 1;
    }
    let ghost mid = views(lines@);
    if recipe.servings == Some(0u32) {
        lines.push(Line { to_stderr: false, text: labelled_exec("FAIL  ", path, "servings must be a positive integer") });
        found = true;
    }
    assert(views(lines@) =~= mid + servings_line(path@, recipe@.servings));
    assert(views(lines@) =~= views(old(lines)@) + recipe_checks(path@, recipe@));
    found
}

/// What a parse outcome of the file at `path` reports: on success its
/// warnings (to standard error), then a `FAIL` line per broken rule (see
/// `recipe_checks`) or else `OK`; on failure `FAIL` with the error.
pub open spec fn parse_report(path: Seq<char>, parsed: Result<ParseOutcomeView, ParseErrorView>) -> Seq<LineView> {
    match parsed {
        Ok(o) => Seq::new(o.warnings.len(), |i: int| LineView { to_stderr: true, text: labelled("WARN  "@, path, o.warnings[i]) })
            + recipe_checks(path, o.recipe) + ok_line(path, recipe_checks(path, o.recipe)),
        Err(e) => seq![LineView { to_stderr: false, text: labelled("FAIL  "@, path, parse_error_message(e)) }],
    }
}

/// Whether the report of a parse outcome fails the file: the parse failed,
/// or a rule of `recipe_checks` is broken.
pub open spec fn report_fails(parsed: Result<ParseOutcomeView, ParseErrorView>, path: Seq<char>) -> bool {
    match parsed {
        Ok(o) => recipe_checks(path, o.recipe).len() > 0,
        Err(_) => true,
    }
}

fn push_warnings(lines: &mut Vec<Line>, path: &str, ws: &Vec<String>)
    ensures
        views(final(lines)@) == views(old(lines)@) + Seq::new(
            ws@.len(),
            |i: int| LineView { to_stderr: true, text: labelled("WARN  "@, path@, ws@[i]@) },
        ),
{
    let ghost add = Seq::new(ws@.len(), |i: int| LineView { to_stderr: true, text: labelled("WARN  "@, path@, ws@[i]@) });
    let mut k: usize = 0;
    while k < ws.len()
        invariant
            k <= ws@.len(),
            add == Seq::new(ws@.len(), |i: int| LineView { to_stderr: true, text: labelled("WARN  "@, path@, ws@[i]@) }),
            views(lines@) == views(old(lines)@) + add.take(k as int),
        decreases ws@.len() - k,
    {
        let ghost before = views(lines@);
        lines.push(Line { to_stderr: true, text: labelled_exec("WARN  ", path, ws[k].as_str()) });
        assert(views(lines@) =~= before.push(add[k as int]));
        assert(add.take(k + 1) =~= add.take(k as int).push(add[k as int]));
        k = k + 1;
    }
    assert(add.take(k as int) =~= add);
}

/// The report of a single file from its parse outcome, and whether it failed.
pub fn single_file_report(path: &str, parsed: &Result<ParseOutcome, ParseError>) -> (r: (Vec<Line>, bool))
    ensures
        views(r.0@) == parse_report(path@, result_view(*parsed)),
        r.1 == report_fails(result_view(*parsed), path@),
{
    let mut lines: Vec<Line> = Vec::new();
    match parsed {
        Ok(o) => {
            push_warnings(&mut lines, path, &o.warnings);
            let ghost w = views(lines@);
            let found = push_checks(&mut lines, path, &o.recipe);
            let ghost before = views(lines@);
            if !found {
                let mut t = String::from_str("OK    ");
                push_str(&mut t, path);
                lines.push(Line { to_stderr: false, text: t });
            }
            assert(views(lines@) =~= before + ok_line(path@, recipe_checks(path@, o@.recipe)));
            assert(views(lines@) =~= parse_report(path@, result_view(*parsed)));
            (lines, found)
        },
        Err(e) => {
            let m = e.message();
            lines.push(Line { to_stderr: false, text: labelled_exec("FAIL  ", path, m.as_str()) });
            assert(views(lines@) =~= parse_report(path@, result_view(*parsed)));
            (lines, true)
        },
    }
}

/// Validate a single file: its source as read (or the read error's
/// message), parsed; the report and whether it failed.
pub fn validate_single_file(path: &str, source: Result<String, String>) -> (r: (Vec<Line>, bool))
    ensures
        exists|p: Result<ParseOutcomeView, ParseErrorView>|
            (match source {
                Err(m) => p == Err::<ParseOutcomeView, ParseErrorView>(ParseErrorView::Io(m@)),
                Ok(s) => parsed_from(s@, p),
            }) && views(r.0@) == parse_report(path@, p) && r.1 == report_fails(p, path@),
{
    let parsed = match source {
        Ok(s) => parse_str(s.as_str()),
        Err(m) => Err(ParseError::Io(m)),
    };
    let r = single_file_report(path, &parsed);
    assert(views(r.0@) == parse_report(path@, result_view(parsed)));
    r
}

/// The dimension of an ingredient's quantity, when it has one in a metric
/// unit (a quantity without a unit counts pieces).
pub open spec fn ingredient_dim(ing: IngredientView) -> Option<Dimension> {
    match ing.quantity {
        Some(q) => match canonical_spec(0, q.unit) {
            Ok((_, d)) => Some(d),
            Err(_) => None,
        },
        None => None,
    }
}

/// The trimmed, lowercased names of the first `n` ingredients that have a
/// dimension, with that dimension.
pub open spec fn ingredient_dims(ings: Seq<IngredientView>, n: int) -> Seq<(Seq<char>, Dimension)>
    decreases n,
{
    if n <= 0 {
        Seq::empty()
    } else {
        let rest = ingredient_dims(ings, n - 1);
        match ingredient_dim(ings[n - 1]) {
            Some(d) => rest.push((lower_ascii_seq(trim(ings[n - 1].name)), d)),
            None => rest,
        }
    }
}

/// View of name/dimension pairs.
pub open spec fn dims_view(v: Seq<(String, Dimension)>) -> Seq<(Seq<char>, Dimension)> {
    Seq::new(v.len(), |i: int| (v[i].0@, v[i].1))
}

/// The name/dimension pairs of a recipe's ingredients.
fn dims_of(ings: &Vec<Ingredient>) -> (r: Vec<(String, Dimension)>)
    ensures
        dims_view(r@) == ingredient_dims(views(ings@), ings@.len() as int),
{
    let ghost iv = views(ings@);
    let mut out: Vec<(String, Dimension)> = Vec::new();
    let mut i: usize = 0;
    while i < ings.len()
        invariant
            i <= ings@.len(),
            iv == views(ings@),
            dims_view(out@) == ingredient_dims(iv, i as int),
        decreases ings@.len() - i,
    {
        assert(iv[i as int] == ings@[i as int]@);
        if let Some(q) = &ings[i].quantity {
            let u = match &q.unit {
                Some(u) => Some(u.as_str()),
                None => None,
            };
            match canonicalize(0, u) {
                Ok(c) => {
                    let ghost before = dims_view(out@);
                    let t = trimmed(ings[i].name.as_str());
                    out.push((to_ascii_lowercase(t.as_str()), c.dimension));
                    assert(dims_view(out@) =~= before.push((lower_ascii_seq(trim(ings@[i as int].name@)), c.dimension)));
                },
                Err(_) => {},
            }
        }
        i = i + 1;
    }
    out
}

/// Some ingredient name of `x` has another dimension in `y`.
pub open spec fn pair_conflict(x: Seq<(Seq<char>, Dimension)>, y: Seq<(Seq<char>, Dimension)>) -> bool {
    exists|a: int, b: int| 0 <= a < x.len() && 0 <= b < y.len() && (#[trigger] x[a]).0 == (#[trigger] y[b]).0 && x[a].1 != y[b].1
}

fn dims_conflict(x: &Vec<(String, Dimension)>, y: &Vec<(String, Dimension)>) -> (r: bool)
    ensures
        r == pair_conflict(dims_view(x@), dims_view(y@)),
{
    let ghost xv = dims_view(x@);
    let ghost yv = dims_view(y@);
    let mut a: usize = 0;
    while a < x.len()
        invariant
            a <= x@.len(),
            xv == dims_view(x@),
            yv == dims_view(y@),
            forall|a0: int, b0: int| 0 <= a0 < a && 0 <= b0 < yv.len() ==> !((#[trigger] xv[a0]).0 == (#[trigger] yv[b0]).0 && xv[a0].1 != yv[b0].1),
        decreases x@.len() - a,
    {
        let mut b: usize = 0;
        while b < y.len()
            invariant
                a < x@.len(),
                b <= y@.len(),
                xv == dims_view(x@),
                yv == dims_view(y@),
                forall|b0: int| 0 <= b0 < b ==> !(xv[a as int].0 == (#[trigger] yv[b0]).0 && xv[a as int].1 != yv[b0].1),
            decreases y@.len() - b,
        {
            assert(xv[a as int] == (x@[a as int].0@, x@[a as int].1) && yv[b as int] == (y@[b as int].0@, y@[b as int].1));
            if str_eq(x[a].0.as_str(), y[b].0.as_str()) && x[a].1 != y[b].1 {
                assert(xv[a as int].0 == yv[b as int].0 && xv[a as int].1 != yv[b as int].1);
                return true;
            }
            b = b + 1;
        }
        a = a + 1;
    }
    false
}

/// Another version of the family of file `i` gives one of its ingredient
/// names another dimension.
pub open spec fn dim_conflict(fs: Seq<CheckedView>, i: int) -> bool {
    exists|j: int|
        0 <= j < fs.len() && j != i && (#[trigger] fs[j]).base == fs[i].base && fs[j].category == fs[i].category
            && pair_conflict(fs[i].dims, fs[j].dims)
}

/// The warning for file `i` when its dimensions differ from another version's.
pub open spec fn dims_line(fs: Seq<CheckedView>, i: int) -> Seq<LineView> {
    if dim_conflict(fs, i) {
        seq![LineView { to_stderr: true, text: labelled("WARN  "@, fs[i].path, "ingredient dimensions differ across versions"@) }]
    } else {
        Seq::empty()
    }
}

/// Dimension warnings of the first `n` files.
pub open spec fn dims_lines(fs: Seq<CheckedView>, n: int) -> Seq<LineView>
    decreases n,
{
    if n <= 0 {
        Seq::empty()
    } else {
        dims_lines(fs, n - 1) + dims_line(fs, n - 1)
    }
}

/// A recipe file seen by the directory check.
pub struct Checked {
    pub path: String,
    pub base: String,
    pub category: String,
    pub version: VersionKey,
    pub slug: String,
    /// Whether the recipe has a non-empty `changelog`.
    pub has_changelog: bool,
    /// The (trimmed, lowercased) ingredient names with the dimension of
    /// their quantity (see `ingredient_dims`).
    pub dims: Vec<(String, Dimension)>,
}

/// View of a checked file.
pub struct CheckedView {
    pub path: Seq<char>,
    pub base: Seq<char>,
    pub category: Seq<char>,
    pub version: VersionKey,
    pub slug: Seq<char>,
    pub has_changelog: bool,
    pub dims: Seq<(Seq<char>, Dimension)>,
}

impl View for Checked {
    type V = CheckedView;

    open spec fn view(&self) -> CheckedView {
        CheckedView {
            path: self.path@,
            base: self.base@,
            category: self.category@,
            version: self.version,
            slug: self.slug@,
            has_changelog: self.has_changelog,
            dims: dims_view(self.dims@),
        }
    }
}

/// The state of a directory check: the report so far, whether anything
/// failed, and the files that parsed.
pub struct Validation {
    pub lines: Vec<Line>,
    pub had_error: bool,
    pub files: Vec<Checked>,
}

/// View of a directory check.
pub struct ValidationView {
    pub lines: Seq<LineView>,
    pub had_error: bool,
    pub files: Seq<CheckedView>,
}

impl View for Validation {
    type V = ValidationView;

    open spec fn view(&self) -> ValidationView {
        ValidationView { lines: views(self.lines@), had_error: self.had_error, files: views(self.files@) }
    }
}

/// The report line of a walk error.
pub open spec fn walk_error_spec(st: ValidationView, detail: Seq<char>) -> ValidationView {
    ValidationView {
        lines: st.lines.push(LineView { to_stderr: true, text: "FAIL  walk: "@ + detail }),
        had_error: true,
        ..st
    }
}

/// A path found by the walk: sync-conflict copies are warned about, rejected
/// names fail, other names are skipped or left to load.
pub open spec fn entry_spec(st: ValidationView, root: Seq<char>, path: Seq<char>) -> ValidationView {
    match scan_spec(root, path) {
        ScanDecisionView::Warning(e) => ValidationView {
            lines: st.lines.push(LineView { to_stderr: true, text: labelled("WARN  "@, path, e.message) }),
            ..st
        },
        ScanDecisionView::Error(e) => ValidationView {
            lines: st.lines.push(LineView { to_stderr: false, text: labelled("FAIL  "@, path, e.message) }),
            had_error: true,
            ..st
        },
        _ => st,
    }
}

/// A loaded file's parse outcome: a failure is reported and not kept; a
/// success reports its warnings and a missing title, then a `FAIL` line per
/// broken rule (a unit that is not a metric alias, zero servings) or else
/// `OK`, and is kept for the cross-file checks.
pub open spec fn parsed_spec(
    st: ValidationView,
    m: RecipeFileMetaView,
    parsed: Result<ParseOutcomeView, ParseErrorView>,
) -> ValidationView {
    match parsed {
        Err(e) => ValidationView {
            lines: st.lines.push(LineView { to_stderr: false, text: labelled("FAIL  "@, m.path, parse_error_message(e)) }),
            had_error: true,
            ..st
        },
        Ok(o) => ValidationView {
            lines: st.lines + Seq::new(
                o.warnings.len(),
                |i: int| LineView { to_stderr: true, text: labelled("WARN  "@, m.path, o.warnings[i]) },
            ) + (if o.recipe.title is None {
                seq![LineView { to_stderr: true, text: labelled("WARN  "@, m.path, "missing >> title:"@) }]
            } else {
                Seq::empty()
            }) + recipe_checks(m.path, o.recipe) + ok_line(m.path, recipe_checks(m.path, o.recipe)),
            had_error: st.had_error || recipe_checks(m.path, o.recipe).len() > 0,
            files: st.files.push(
                CheckedView {
                    path: m.path,
                    base: m.base,
                    category: m.category,
                    version: m.version,
                    slug: m.slug,
                    has_changelog: changelog_spec(o.recipe.changelog) is Some,
                    dims: ingredient_dims(o.recipe.ingredients, o.recipe.ingredients.len() as int),
                },
            ),
            ..st
        },
    }
}

/// Files `i` and `j` have the same base, category and version.
pub open spec fn same_version(fs: Seq<CheckedView>, i: int, j: int) -> bool {
    fs[i].base == fs[j].base && fs[i].category == fs[j].category && fs[i].version == fs[j].version
}

/// The latest file before `i` with the same base, category and version, or -1.
pub open spec fn prev_same(fs: Seq<CheckedView>, i: int, j: int) -> int
    decreases j,
{
    if j <= 0 {
        -1
    } else if same_version(fs, i, j - 1) {
        j - 1
    } else {
        prev_same(fs, i, j - 1)
    }
}

/// The first file with the slug of file `i` (at most `i`).
pub open spec fn first_slug(fs: Seq<CheckedView>, i: int) -> int {
    crate::search::first_index(fs, |f: CheckedView| f.slug == fs[i].slug)
}

/// The duplicate-version line of file `i`, if any.
pub open spec fn dup_line(fs: Seq<CheckedView>, i: int) -> Seq<LineView> {
    let p = prev_same(fs, i, i);
    if p >= 0 {
        seq![
            LineView {
                to_stderr: false,
                text: labelled("FAIL  "@, fs[i].path, "duplicate version "@ + version_text(fs[i].version) + " (also "@ + fs[p].path + ")"@),
            },
        ]
    } else {
        Seq::empty()
    }
}

/// The slug-collision line of file `i`, if any: the first file with its slug
/// has another base or category.
pub open spec fn collision_line(fs: Seq<CheckedView>, i: int) -> Seq<LineView> {
    let p = first_slug(fs, i);
    if p < i && (fs[p].base != fs[i].base || fs[p].category != fs[i].category) {
        seq![
            LineView {
                to_stderr: false,
                text: labelled("FAIL  "@, fs[i].path, "slug `"@ + fs[i].slug + "` also produced by "@ + fs[p].path),
            },
        ]
    } else {
        Seq::empty()
    }
}

/// Duplicate lines of the first `n` files.
pub open spec fn dup_lines(fs: Seq<CheckedView>, n: int) -> Seq<LineView>
    decreases n,
{
    if n <= 0 {
        Seq::empty()
    } else {
        dup_lines(fs, n - 1) + dup_line(fs, n - 1)
    }
}

/// Collision lines of the first `n` files.
pub open spec fn collision_lines(fs: Seq<CheckedView>, n: int) -> Seq<LineView>
    decreases n,
{
    if n <= 0 {
        Seq::empty()
    } else {
        collision_lines(fs, n - 1) + collision_line(fs, n - 1)
    }
}

/// File `i` is not the current version of its family: a later file of the
/// same base and category has a higher version.
pub open spec fn superseded(fs: Seq<CheckedView>, i: int) -> bool {
    exists|j: int|
        0 <= j < fs.len() && (#[trigger] fs[j]).base == fs[i].base && fs[j].category == fs[i].category
            && crate::index::scan::version_lt(fs[i].version, fs[j].version)
}

/// The warning for file `i` when it is not current and has no changelog.
pub open spec fn changelog_line(fs: Seq<CheckedView>, i: int) -> Seq<LineView> {
    if superseded(fs, i) && !fs[i].has_changelog {
        seq![LineView { to_stderr: true, text: labelled("WARN  "@, fs[i].path, "missing >> changelog:"@) }]
    } else {
        Seq::empty()
    }
}

/// Changelog warnings of the first `n` files.
pub open spec fn changelog_lines(fs: Seq<CheckedView>, n: int) -> Seq<LineView>
    decreases n,
{
    if n <= 0 {
        Seq::empty()
    } else {
        changelog_lines(fs, n - 1) + changelog_line(fs, n - 1)
    }
}

/// The cross-file checks: duplicate versions, then slug collisions (both
/// failures), then a warning for each version that is not current and has
/// no changelog, then one for each version whose ingredient dimensions differ
/// from another version's.
pub open spec fn finish_spec(st: ValidationView) -> ValidationView {
    let d = dup_lines(st.files, st.files.len() as int);
    let c = collision_lines(st.files, st.files.len() as int);
    let w = changelog_lines(st.files, st.files.len() as int);
    let m = dims_lines(st.files, st.files.len() as int);
    ValidationView { lines: st.lines + d + c + w + m, had_error: st.had_error || d.len() > 0 || c.len() > 0, ..st }
}

/// An earlier file with the same base, category and version than file `i`
/// is found by the search from `k` down.
proof fn lemma_prev_same_found(fs: Seq<CheckedView>, i: int, k: int, j: int)
    requires
        0 <= j < k,
        same_version(fs, i, j),
    ensures
        prev_same(fs, i, k) >= 0,
    decreases k,
{
    if !same_version(fs, i, k - 1) {
        lemma_prev_same_found(fs, i, k - 1, j);
    }
}

/// The report lines of the first `n` files include those of the first `m`.
proof fn lemma_lines_grow(fs: Seq<CheckedView>, m: int, n: int)
    requires
        0 <= m <= n,
    ensures
        dup_lines(fs, m).len() <= dup_lines(fs, n).len(),
        collision_lines(fs, m).len() <= collision_lines(fs, n).len(),
    decreases n - m,
{
    if m < n {
        lemma_lines_grow(fs, m, n - 1);
    }
}

/// Two files with the same base, category and version fail the check.
pub proof fn lemma_duplicate_versions_fail(st: ValidationView, i: int, j: int)
    requires
        0 <= i < j < st.files.len(),
        same_version(st.files, i, j),
    ensures
        finish_spec(st).had_error,
{
    let fs = st.files;
    assert(same_version(fs, j, i));
    lemma_prev_same_found(fs, j, j, i);
    assert(dup_line(fs, j).len() == 1);
    assert(dup_lines(fs, j + 1) == dup_lines(fs, j) + dup_line(fs, j));
    lemma_lines_grow(fs, j + 1, fs.len() as int);
}

/// Two files that give the same slug but differ in base or category fail
/// the check.
pub proof fn lemma_slug_collisions_fail(st: ValidationView, i: int, j: int)
    requires
        0 <= i < j < st.files.len(),
        st.files[i].slug == st.files[j].slug,
        st.files[i].base != st.files[j].base || st.files[i].category != st.files[j].category,
    ensures
        finish_spec(st).had_error,
{
    let fs = st.files;
    let same = |f: CheckedView| f.slug == fs[j].slug;
    crate::search::lemma_first_index_facts(fs, same);
    let p = first_index(fs, same);
    assert(same(fs[i]));
    assert(p <= i);
    assert(fs[p].slug == fs[j].slug);
    assert(first_slug(fs, j) == p);
    let k = if fs[p].base != fs[j].base || fs[p].category != fs[j].category { j } else { i };
    if k == i {
        assert(p < i);
        let same_i = |f: CheckedView| f.slug == fs[i].slug;
        assert forall|q: int| 0 <= q < p implies !same_i(#[trigger] fs[q]) by {
            assert(!same(fs[q]));
        }
        crate::search::lemma_first_index(fs, same_i, p);
        assert(first_slug(fs, i) == p);
    }
    assert(collision_line(fs, k).len() == 1);
    assert(collision_lines(fs, k + 1) == collision_lines(fs, k) + collision_line(fs, k));
    lemma_lines_grow(fs, k + 1, fs.len() as int);
}

/// A line reporting a failure: it starts with `FAIL  `.
pub open spec fn is_fail(l: LineView) -> bool {
    l.text.len() >= 6 && l.text.subrange(0, 6) == "FAIL  "@
}

/// Some line reports a failure.
pub open spec fn fail_reported(lines: Seq<LineView>) -> bool {
    exists|i: int| 0 <= i < lines.len() && is_fail(#[trigger] lines[i])
}

/// The check has failed exactly when it has reported a failure.
pub open spec fn errors_reported(st: ValidationView) -> bool {
    st.had_error == fail_reported(st.lines)
}

proof fn lemma_fail_concat(a: Seq<LineView>, b: Seq<LineView>)
    ensures
        fail_reported(a + b) == (fail_reported(a) || fail_reported(b)),
{
    if fail_reported(a) {
        let i = choose|i: int| 0 <= i < a.len() && is_fail(#[trigger] a[i]);
        assert((a + b)[i] == a[i]);
    }
    if fail_reported(b) {
        let i = choose|i: int| 0 <= i < b.len() && is_fail(#[trigger] b[i]);
        assert((a + b)[a.len() + i] == b[i]);
    }
    if fail_reported(a + b) {
        let i = choose|i: int| 0 <= i < (a + b).len() && is_fail(#[trigger] (a + b)[i]);
        if i < a.len() {
            assert((a + b)[i] == a[i]);
        } else {
            assert((a + b)[i] == b[i - a.len()]);
        }
    }
}

proof fn lemma_labelled_fail(path: Seq<char>, msg: Seq<char>)
    ensures
        is_fail(LineView { to_stderr: false, text: labelled("FAIL  "@, path, msg) }),
        is_fail(LineView { to_stderr: true, text: labelled("FAIL  "@, path, msg) }),
        !is_fail(LineView { to_stderr: true, text: labelled("WARN  "@, path, msg) }),
        !is_fail(LineView { to_stderr: false, text: "OK    "@ + path }),
{
    reveal_strlit("FAIL  ");
    reveal_strlit("WARN  ");
    reveal_strlit("OK    ");
    assert(labelled("FAIL  "@, path, msg).subrange(0, 6) =~= "FAIL  "@);
    assert(labelled("WARN  "@, path, msg).subrange(0, 6)[0] == 'W');
    assert(("OK    "@ + path).subrange(0, 6)[0] == 'O');
}

proof fn lemma_unit_lines_fail(path: Seq<char>, ings: Seq<IngredientView>, n: int)
    ensures
        forall|k: int| 0 <= k < unit_lines(path, ings, n).len() ==> is_fail(#[trigger] unit_lines(path, ings, n)[k]),
    decreases n,
{
    if n > 0 {
        lemma_unit_lines_fail(path, ings, n - 1);
        let a = unit_lines(path, ings, n - 1);
        let b = unit_line(path, ings[n - 1]);
        if b.len() > 0 {
            let ing = ings[n - 1];
            let u = ing.quantity.unwrap().unit.unwrap();
            lemma_labelled_fail(path, ing.name + ": "@ + unit_error_message(UnitErrorView::UnknownUnit(u)));
        }
        assert forall|k: int| 0 <= k < (a + b).len() implies is_fail(#[trigger] (a + b)[k]) by {
            if k < a.len() {
                assert((a + b)[k] == a[k]);
            } else {
                assert((a + b)[k] == b[k - a.len()]);
            }
        }
    }
}

proof fn lemma_checks_fail(path: Seq<char>, recipe: ParsedRecipeView)
    ensures
        fail_reported(recipe_checks(path, recipe)) == (recipe_checks(path, recipe).len() > 0),
{
    let a = unit_lines(path, recipe.ingredients, recipe.ingredients.len() as int);
    let b = servings_line(path, recipe.servings);
    lemma_unit_lines_fail(path, recipe.ingredients, recipe.ingredients.len() as int);
    lemma_labelled_fail(path, "servings must be a positive integer"@);
    lemma_fail_concat(a, b);
    if a.len() > 0 {
        assert(is_fail(a[0]));
    }
    if b.len() > 0 {
        assert(is_fail(b[0]));
    }
}

proof fn lemma_cross_lines_fail(fs: Seq<CheckedView>, n: int)
    ensures
        fail_reported(dup_lines(fs, n)) == (dup_lines(fs, n).len() > 0),
        fail_reported(collision_lines(fs, n)) == (collision_lines(fs, n).len() > 0),
    decreases n,
{
    if n > 0 {
        lemma_cross_lines_fail(fs, n - 1);
        let i = n - 1;
        let p = prev_same(fs, i, i);
        lemma_labelled_fail(fs[i].path, "duplicate version "@ + version_text(fs[i].version) + " (also "@ + fs[p].path + ")"@);
        let q = first_slug(fs, i);
        lemma_labelled_fail(fs[i].path, "slug `"@ + fs[i].slug + "` also produced by "@ + fs[q].path);
        lemma_fail_concat(dup_lines(fs, n - 1), dup_line(fs, i));
        lemma_fail_concat(collision_lines(fs, n - 1), collision_line(fs, i));
        if dup_line(fs, i).len() > 0 {
            assert(is_fail(dup_line(fs, i)[0]));
        }
        if collision_line(fs, i).len() > 0 {
            assert(is_fail(collision_line(fs, i)[0]));
        }
    }
}

/// The check fails exactly when it reports a `FAIL` line, at every step: a
/// walk error, a found path, a parsed file and the cross-file checks each
/// keep this. With `exit_code`, `validate` exits 1 exactly when it printed
/// a failure.
pub proof fn lemma_errors_reported(
    st: ValidationView,
    detail: Seq<char>,
    root: Seq<char>,
    path: Seq<char>,
    m: RecipeFileMetaView,
    p: Result<ParseOutcomeView, ParseErrorView>,
)
    requires
        errors_reported(st),
    ensures
        errors_reported(walk_error_spec(st, detail)),
        errors_reported(entry_spec(st, root, path)),
        errors_reported(parsed_spec(st, m, p)),
        errors_reported(finish_spec(st)),
{
    reveal_strlit("FAIL  walk: ");
    reveal_strlit("FAIL  ");
    let w = LineView { to_stderr: true, text: "FAIL  walk: "@ + detail };
    assert(w.text.subrange(0, 6) =~= "FAIL  "@);
    lemma_fail_concat(st.lines, seq![w]);
    assert(st.lines.push(w) =~= st.lines + seq![w]);
    assert(is_fail(seq![w][0]));
    match scan_spec(root, path) {
        ScanDecisionView::Warning(e) => {
            let l = LineView { to_stderr: true, text: labelled("WARN  "@, path, e.message) };
            lemma_labelled_fail(path, e.message);
            lemma_fail_concat(st.lines, seq![l]);
            assert(st.lines.push(l) =~= st.lines + seq![l]);
        },
        ScanDecisionView::Error(e) => {
            let l = LineView { to_stderr: false, text: labelled("FAIL  "@, path, e.message) };
            lemma_labelled_fail(path, e.message);
            lemma_fail_concat(st.lines, seq![l]);
            assert(st.lines.push(l) =~= st.lines + seq![l]);
            assert(is_fail(seq![l][0]));
        },
        _ => {},
    }
    match p {
        Err(e) => {
            let l = LineView { to_stderr: false, text: labelled("FAIL  "@, m.path, parse_error_message(e)) };
            lemma_labelled_fail(m.path, parse_error_message(e));
            lemma_fail_concat(st.lines, seq![l]);
            assert(st.lines.push(l) =~= st.lines + seq![l]);
            assert(is_fail(seq![l][0]));
        },
        Ok(o) => {
            let ws = Seq::new(
                o.warnings.len(),
                |i: int| LineView { to_stderr: true, text: labelled("WARN  "@, m.path, o.warnings[i]) },
            );
            let t = if o.recipe.title is None {
                seq![LineView { to_stderr: true, text: labelled("WARN  "@, m.path, "missing >> title:"@) }]
            } else {
                Seq::<LineView>::empty()
            };
            let c = recipe_checks(m.path, o.recipe);
            let ok = ok_line(m.path, c);
            assert forall|k: int| 0 <= k < ws.len() implies !is_fail(#[trigger] ws[k]) by {
                lemma_labelled_fail(m.path, o.warnings[k]);
            }
            lemma_labelled_fail(m.path, "missing >> title:"@);
            lemma_labelled_fail(m.path, ""@);
            assert(!fail_reported(ws));
            assert(!fail_reported(t)) by {
                if t.len() > 0 {
                    assert(!is_fail(t[0]));
                }
            }
            assert(!fail_reported(ok)) by {
                if ok.len() > 0 {
                    assert(!is_fail(ok[0]));
                }
            }
            lemma_checks_fail(m.path, o.recipe);
            lemma_fail_concat(st.lines, ws);
            lemma_fail_concat(st.lines + ws, t);
            lemma_fail_concat(st.lines + ws + t, c);
            lemma_fail_concat(st.lines + ws + t + c, ok);
        },
    }
    let n = st.files.len() as int;
    lemma_cross_lines_fail(st.files, n);
    lemma_changelog_lines_warn(st.files, n);
    lemma_fail_concat(st.lines, dup_lines(st.files, n));
    lemma_fail_concat(st.lines + dup_lines(st.files, n), collision_lines(st.files, n));
    lemma_fail_concat(
        st.lines + dup_lines(st.files, n) + collision_lines(st.files, n),
        changelog_lines(st.files, n),
    );
    lemma_dims_lines_warn(st.files, n);
    lemma_fail_concat(
        st.lines + dup_lines(st.files, n) + collision_lines(st.files, n) + changelog_lines(st.files, n),
        dims_lines(st.files, n),
    );
}

proof fn lemma_dims_lines_warn(fs: Seq<CheckedView>, n: int)
    ensures
        !fail_reported(dims_lines(fs, n)),
    decreases n,
{
    if n > 0 {
        lemma_dims_lines_warn(fs, n - 1);
        lemma_labelled_fail(fs[n - 1].path, "ingredient dimensions differ across versions"@);
        lemma_fail_concat(dims_lines(fs, n - 1), dims_line(fs, n - 1));
        if dims_line(fs, n - 1).len() > 0 {
            assert(!is_fail(dims_line(fs, n - 1)[0]));
            assert(!fail_reported(dims_line(fs, n - 1)));
        }
    }
}

proof fn lemma_changelog_lines_warn(fs: Seq<CheckedView>, n: int)
    ensures
        !fail_reported(changelog_lines(fs, n)),
    decreases n,
{
    if n > 0 {
        lemma_changelog_lines_warn(fs, n - 1);
        lemma_labelled_fail(fs[n - 1].path, "missing >> changelog:"@);
        lemma_fail_concat(changelog_lines(fs, n - 1), changelog_line(fs, n - 1));
        if changelog_line(fs, n - 1).len() > 0 {
            assert(!is_fail(changelog_line(fs, n - 1)[0]));
            assert(!fail_reported(changelog_line(fs, n - 1)));
        }
    }
}

impl Validation {
    /// A check with nothing seen yet.
    pub fn new() -> (r: Validation)
        ensures
            r@.lines == Seq::<LineView>::empty(),
            !r@.had_error,
            r@.files == Seq::<CheckedView>::empty(),
    {
        let r = Validation { lines: Vec::new(), had_error: false, files: Vec::new() };
        assert(r@.lines =~= Seq::<LineView>::empty());
        assert(r@.files =~= Seq::<CheckedView>::empty());
        r
    }

    fn push_line(&mut self, to_stderr: bool, text: String)
        ensures
            final(self)@ == (ValidationView { lines: old(self)@.lines.push(LineView { to_stderr, text: text@ }), ..old(self)@ }),
            final(self).files == old(self).files,
            final(self).had_error == old(self).had_error,
    {
        self.lines.push(Line { to_stderr, text });
        assert(views(self.lines@) =~= views(old(self).lines@).push(LineView { to_stderr, text: text@ }));
    }

    /// The walk failed somewhere (`detail` describes it).
    pub fn walk_error(&mut self, detail: &str)
        ensures
            final(self)@ == walk_error_spec(old(self)@, detail@),
    {
        let mut t = String::from_str("FAIL  walk: ");
        push_str(&mut t, detail);
        self.push_line(true, t);
        self.had_error = true;
    }

    /// A file found by the walk under `root`; the metadata of a recipe file
    /// to load is returned.
    pub fn entry(&mut self, root: &str, path: &str) -> (r: Option<RecipeFileMeta>)
        ensures
            final(self)@ == entry_spec(old(self)@, root@, path@),
            match scan_spec(root@, path@) {
                ScanDecisionView::Load(m) => r matches Some(x) && x@ == m,
                _ => r is None,
            },
    {
        match scan_entry(root, path) {
            ScanDecision::Skip => None,
            ScanDecision::Warning(e) => {
                self.push_line(true, labelled_exec("WARN  ", path, e.message.as_str()));
                None
            },
            ScanDecision::Error(e) => {
                self.push_line(false, labelled_exec("FAIL  ", path, e.message.as_str()));
                self.had_error = true;
                None
            },
            ScanDecision::Load(m) => Some(m),
        }
    }

    /// The parse outcome of a loaded recipe file.
    pub fn parsed(&mut self, meta: RecipeFileMeta, parsed: &Result<ParseOutcome, ParseError>)
        ensures
            final(self)@ == parsed_spec(old(self)@, meta@, result_view(*parsed)),
    {
        match parsed {
            Err(e) => {
                let m = e.message();
                self.push_line(false, labelled_exec("FAIL  ", meta.path.as_str(), m.as_str()));
                self.had_error = true;
            },
            Ok(o) => {
                let ghost mv = meta@;
                let ghost l0 = self@.lines;
                push_warnings(&mut self.lines, meta.path.as_str(), &o.warnings);
                let ghost l1 = views(self.lines@);
                assert(l1 == l0 + Seq::new(
                    o@.warnings.len(),
                    |i: int| LineView { to_stderr: true, text: labelled("WARN  "@, mv.path, o@.warnings[i]) },
                ));
                if o.recipe.title.is_none() {
                    self.lines.push(Line { to_stderr: true, text: labelled_exec("WARN  ", meta.path.as_str(), "missing >> title:") });
                }
                let ghost l2 = views(self.lines@);
                assert(l2 =~= l1 + (if o@.recipe.title is None {
                    seq![LineView { to_stderr: true, text: labelled("WARN  "@, mv.path, "missing >> title:"@) }]
                } else {
                    Seq::<LineView>::empty()
                }));
                let found = push_checks(&mut self.lines, meta.path.as_str(), &o.recipe);
                let ghost l3 = views(self.lines@);
                if !found {
                    let mut t = String::from_str("OK    ");
                    push_str(&mut t, meta.path.as_str());
                    self.lines.push(Line { to_stderr: false, text: t });
                } else {
                    self.had_error = true;
                }
                assert(views(self.lines@) =~= l3 + ok_line(mv.path, recipe_checks(mv.path, o@.recipe)));
                let ghost f0 = views(self.files@);
                let has_changelog = recipe_changelog(&o.recipe).is_some();
                let RecipeFileMeta { path, category, base, slug, version, explicit_version: _ } = meta;
                let dims = dims_of(&o.recipe.ingredients);
                let c = Checked { path, base, category, version, slug: slug.to_text(), has_changelog, dims };
                self.files.push(c);
                assert(views(self.files@) =~= f0.push(c@));
                assert(self@.lines =~= parsed_spec(old(self)@, mv, result_view(*parsed)).lines);
            },
        }
    }

    /// A loaded recipe file's source (or the read error's message), parsed.
    pub fn loaded(&mut self, meta: RecipeFileMeta, source: Result<String, String>)
        ensures
            exists|p: Result<ParseOutcomeView, ParseErrorView>|
                (match source {
                    Err(m) => p == Err::<ParseOutcomeView, ParseErrorView>(ParseErrorView::Io(m@)),
                    Ok(s) => parsed_from(s@, p),
                }) && final(self)@ == parsed_spec(old(self)@, meta@, p),
    {
        let parsed = match source {
            Ok(s) => parse_str(s.as_str()),
            Err(m) => Err(ParseError::Io(m)),
        };
        let ghost mv = meta@;
        self.parsed(meta, &parsed);
        assert(self@ == parsed_spec(old(self)@, mv, result_view(parsed)));
    }

    /// Run the cross-file checks (see `finish_spec`).
    pub fn finish(&mut self)
        ensures
            final(self)@ == finish_spec(old(self)@),
    {
        let ghost fs = self@.files;
        let ghost l0 = self@.lines;
        let n = self.files.len();
        let mut i: usize = 0;
        let mut found = false;
        while i < n
            invariant
                n == self.files@.len(),
                fs == self@.files,
                i <= n,
                self@.lines == l0 + dup_lines(fs, i as int),
                self@.had_error == old(self)@.had_error,
                found == (dup_lines(fs, i as int).len() > 0),
            decreases n - i,
        {
            let mut j = i;
            while j > 0 && !(str_eq(self.files[j - 1].base.as_str(), self.files[i].base.as_str())
                && str_eq(self.files[j - 1].category.as_str(), self.files[i].category.as_str())
                && self.files[j - 1].version == self.files[i].version)
                invariant
                    j <= i,
                    i < n,
                    n == self.files@.len(),
                    fs == self@.files,
                    prev_same(fs, i as int, i as int) == prev_same(fs, i as int, j as int),
                decreases j,
            {
                assert(fs[j - 1] == self.files@[j - 1]@ && fs[i as int] == self.files@[i as int]@);
                j = j - 1;
            }
            proof {
                if j > 0 {
                    assert(fs[j - 1] == self.files@[j - 1]@ && fs[i as int] == self.files@[i as int]@);
                }
            }
            let ghost before = self@.lines;
            if j > 0 {
                let mut m = String::from_str("duplicate version ");
                self.files[i].version.push_text(&mut m);
                push_str(&mut m, " (also ");
                push_str(&mut m, self.files[j - 1].path.as_str());
                push_str(&mut m, ")");
                let t = labelled_exec("FAIL  ", self.files[i].path.as_str(), m.as_str());
                assert(fs[j - 1] == self.files@[j - 1]@ && fs[i as int] == self.files@[i as int]@);
                self.push_line(false, t);
                found = true;
            }
            assert(self@.lines =~= before + dup_line(fs, i as int));
            assert(self@.lines =~= l0 + dup_lines(fs, i + 1));
            i = i + 1;
        }
        let ghost l1 = self@.lines;
        let mut found_c = false;
        let mut k: usize = 0;
        while k < n
            invariant
                n == self.files@.len(),
                fs == self@.files,
                k <= n,
                self@.lines == l1 + collision_lines(fs, k as int),
                self@.had_error == old(self)@.had_error,
                found_c == (collision_lines(fs, k as int).len() > 0),
            decreases n - k,
        {
            let mut p: usize = 0;
            while p < k && !str_eq(self.files[p].slug.as_str(), self.files[k].slug.as_str())
                invariant
                    p <= k,
                    k < n,
                    n == self.files@.len(),
                    fs == self@.files,
                    forall|q: int| 0 <= q < p ==> fs[q].slug != fs[k as int].slug,
                decreases k - p,
            {
                assert(fs[p as int] == self.files@[p as int]@ && fs[k as int] == self.files@[k as int]@);
                p = p + 1;
            }
            proof {
                if p < k {
                    assert(fs[p as int] == self.files@[p as int]@ && fs[k as int] == self.files@[k as int]@);
                    crate::search::lemma_first_index(fs, |f: CheckedView| f.slug == fs[k as int].slug, p as int);
                } else {
                    crate::search::lemma_first_index(fs, |f: CheckedView| f.slug == fs[k as int].slug, k as int);
                }
            }
            let ghost before = self@.lines;
            if p < k && !(str_eq(self.files[p].base.as_str(), self.files[k].base.as_str())
                && str_eq(self.files[p].category.as_str(), self.files[k].category.as_str())) {
                let mut m = String::from_str("slug `");
                push_str(&mut m, self.files[k].slug.as_str());
                push_str(&mut m, "` also produced by ");
                push_str(&mut m, self.files[p].path.as_str());
                let t = labelled_exec("FAIL  ", self.files[k].path.as_str(), m.as_str());
                assert(fs[p as int] == self.files@[p as int]@ && fs[k as int] == self.files@[k as int]@);
                self.push_line(false, t);
                found_c = true;
            }
            proof {
                assert(fs[p as int] == self.files@[p as int]@ || p == k);
            }
            assert(self@.lines =~= before + collision_line(fs, k as int));
            assert(self@.lines =~= l1 + collision_lines(fs, k + 1));
            k = k + 1;
        }
        let ghost l2 = self@.lines;
        let mut k: usize = 0;
        while k < n
            invariant
                n == self.files@.len(),
                fs == self@.files,
                k <= n,
                self@.lines == l2 + changelog_lines(fs, k as int),
                self@.had_error == old(self)@.had_error,
            decreases n - k,
        {
            let mut later = false;
            let mut j: usize = 0;
            while j < n
                invariant
                    n == self.files@.len(),
                    fs == self@.files,
                    k < n,
                    j <= n,
                    later == exists|q: int|
                        0 <= q < j && (#[trigger] fs[q]).base == fs[k as int].base && fs[q].category == fs[k as int].category
                            && crate::index::scan::version_lt(fs[k as int].version, fs[q].version),
                decreases n - j,
            {
                assert(fs[j as int] == self.files@[j as int]@ && fs[k as int] == self.files@[k as int]@);
                if str_eq(self.files[j].base.as_str(), self.files[k].base.as_str())
                    && str_eq(self.files[j].category.as_str(), self.files[k].category.as_str())
                    && self.files[k].version.precedes(&self.files[j].version) {
                    later = true;
                }
                j = j + 1;
            }
            assert(later == superseded(fs, k as int));
            assert(fs[k as int] == self.files@[k as int]@);
            let ghost before = self@.lines;
            if later && !self.files[k].has_changelog {
                let t = labelled_exec("WARN  ", self.files[k].path.as_str(), "missing >> changelog:");
                self.push_line(true, t);
            }
            assert(self@.lines =~= before + changelog_line(fs, k as int));
            assert(self@.lines =~= l2 + changelog_lines(fs, k + 1));
            k = k + 1;
        }
        let ghost l3 = self@.lines;
        let mut k: usize = 0;
        while k < n
            invariant
                n == self.files@.len(),
                fs == self@.files,
                k <= n,
                self@.lines == l3 + dims_lines(fs, k as int),
                self@.had_error == old(self)@.had_error,
            decreases n - k,
        {
            let mut clash = false;
            let mut j: usize = 0;
            while j < n
                invariant
                    n == self.files@.len(),
                    fs == self@.files,
                    k < n,
                    j <= n,
                    clash == exists|q: int|
                        0 <= q < j && q != k && (#[trigger] fs[q]).base == fs[k as int].base && fs[q].category
                            == fs[k as int].category && pair_conflict(fs[k as int].dims, fs[q].dims),
                decreases n - j,
            {
                assert(fs[j as int] == self.files@[j as int]@ && fs[k as int] == self.files@[k as int]@);
                if j != k && str_eq(self.files[j].base.as_str(), self.files[k].base.as_str())
                    && str_eq(self.files[j].category.as_str(), self.files[k].category.as_str())
                    && dims_conflict(&self.files[k].dims, &self.files[j].dims) {
                    clash = true;
                }
                j = j + 1;
            }
            assert(clash == dim_conflict(fs, k as int));
            assert(fs[k as int] == self.files@[k as int]@);
            let ghost before = self@.lines;
            if clash {
                let t = labelled_exec("WARN  ", self.files[k].path.as_str(), "ingredient dimensions differ across versions");
                self.push_line(true, t);
            }
            assert(self@.lines =~= before + dims_line(fs, k as int));
            assert(self@.lines =~= l3 + dims_lines(fs, k + 1));
            k = k + 1;
        }
        if found || found_c {
            self.had_error = true;
        }
    }

    /// The exit code of the check: 1 when anything failed, else 0.
    pub fn exit_code(&self) -> (r: i32)
        ensures
            r == if self@.had_error { 1i32 } else { 0i32 },
    {
        if self.had_error {
            1
        } else {
            0
        }
    }
}

} // verus!
