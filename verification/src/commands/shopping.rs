//! `shopping`: a shopping list for recipes named on the command line.

use crate::index::Index;
use crate::index::scan::find_char;
use crate::recipe::views;
use crate::server::routes::{serving_of, serving_is, set_serving, split_char};
use crate::shopping::render::{base_view, format_parse_spec, render_html_spec, render_text_spec, render_with, Format, RenderOpts};
use crate::shopping::{aggregate, aggregated, parse_selection, selection_spec, ResolutionErrorView, Selection, SelectionView, ShoppingListView};
use crate::search::first_index;
use crate::text::{chars_of, owned, parse_u32, parse_u32_spec, push_str, string_of_range, trim, trimmed};
use vstd::prelude::*;

verus! {

/// One comma-separated entry of a `slug=N` list option (`--servings` or
/// `--multiplier`, named `flag`, its count called `noun` in messages)
/// applied: blank entries are skipped; `slug=N` records a positive `N` for
/// the trimmed slug, a later entry for the same slug replacing an earlier
/// one; anything else is an error.
pub open spec fn overrides_step(
    acc: Result<Seq<(Seq<char>, u32)>, Seq<char>>,
    raw: Seq<char>,
    flag: Seq<char>,
    noun: Seq<char>,
) -> Result<Seq<(Seq<char>, u32)>, Seq<char>> {
    match acc {
        Err(e) => Err(e),
        Ok(m) => {
            let pair = trim(raw);
            let e = find_char(pair, '=');
            if pair.len() == 0 {
                Ok(m)
            } else if e >= pair.len() {
                Err("--"@ + flag + " expects slug=N pairs, got `"@ + pair + "`"@)
            } else {
                match parse_u32_spec(trim(pair.subrange(e + 1, pair.len() as int))) {
                    None => Err("invalid "@ + noun + " in `"@ + pair + "`"@),
                    Some(n) => if n == 0 {
                        Err(flag + " must be > 0 in `"@ + pair + "`"@)
                    } else {
                        Ok(set_serving(m, trim(pair.subrange(0, e)), n))
                    },
                }
            }
        },
    }
}

/// The first `n` entries applied.
pub open spec fn overrides_fold(parts: Seq<Seq<char>>, n: int, flag: Seq<char>, noun: Seq<char>) -> Result<Seq<(Seq<char>, u32)>, Seq<char>>
    decreases n,
{
    if n <= 0 {
        Ok(Seq::empty())
    } else {
        overrides_step(overrides_fold(parts, n - 1, flag, noun), parts[n - 1], flag, noun)
    }
}

/// The `slug=N` pairs of a list option, or the first error.
pub open spec fn pairs_spec(s: Option<Seq<char>>, flag: Seq<char>, noun: Seq<char>) -> Result<Seq<(Seq<char>, u32)>, Seq<char>> {
    match s {
        None => Ok(Seq::empty()),
        Some(t) => {
            let parts = split_char(t, ',');
            overrides_fold(parts, parts.len() as int, flag, noun)
        },
    }
}

/// The servings overrides given by `--servings`, or the first error.
pub open spec fn overrides_spec(s: Option<Seq<char>>) -> Result<Seq<(Seq<char>, u32)>, Seq<char>> {
    pairs_spec(s, "servings"@, "servings count"@)
}

/// The batch multipliers given by `--multiplier`, or the first error.
pub open spec fn multipliers_spec(s: Option<Seq<char>>) -> Result<Seq<(Seq<char>, u32)>, Seq<char>> {
    pairs_spec(s, "multiplier"@, "multiplier"@)
}

/// View of a list of overrides.
pub open spec fn overrides_view(v: Seq<(String, u32)>) -> Seq<(Seq<char>, u32)> {
    Seq::new(v.len(), |i: int| (v[i].0@, v[i].1))
}

fn find_override(ss: &Vec<(String, u32)>, k: &str) -> (r: usize)
    ensures
        r == first_index(overrides_view(ss@), serving_is(k@)),
{
    let ghost sv = overrides_view(ss@);
    let mut i: usize = 0;
    while i < ss.len()
        invariant
            i <= ss@.len(),
            sv == overrides_view(ss@),
            forall|j: int| 0 <= j < i ==> !serving_is(k@)(#[trigger] sv[j]),
        decreases ss@.len() - i,
    {
        if crate::text::str_eq(ss[i].0.as_str(), k) {
            proof {
                crate::search::lemma_first_index(sv, serving_is(k@), i as int);
            }
            return i;
        }
        i = i + 1;
    }
    proof {
        crate::search::lemma_first_index(sv, serving_is(k@), i as int);
    }
    i
}

/// Parse a `slug=N` list option named `flag` (see `pairs_spec`).
fn parse_pairs(s: Option<&str>, flag: &str, noun: &str) -> (r: Result<Vec<(String, u32)>, String>)
    ensures
        match r {
            Ok(v) => pairs_spec(match s { Some(t) => Some(t@), None => None }, flag@, noun@) == Ok::<Seq<(Seq<char>, u32)>, Seq<char>>(overrides_view(v@)),
            Err(e) => pairs_spec(match s { Some(t) => Some(t@), None => None }, flag@, noun@) == Err::<Seq<(Seq<char>, u32)>, Seq<char>>(e@),
        },
{
    let mut out: Vec<(String, u32)> = Vec::new();
    let t = match s {
        None => {
            assert(overrides_view(out@) =~= Seq::<(Seq<char>, u32)>::empty());
            return Ok(out);
        },
        Some(t) => t,
    };
    let cs = chars_of(t);
    let parts = crate::server::routes::split_exec_pub(&cs, ',');
    let ghost pv = views(parts@);
    assert(overrides_view(out@) =~= Seq::<(Seq<char>, u32)>::empty());
    let mut i: usize = 0;
    while i < parts.len()
        invariant
            i <= parts@.len(),
            pv == views(parts@),
            pv == split_char(t@, ','),
            s == Some(t),
            overrides_fold(pv, i as int, flag@, noun@) == Ok::<Seq<(Seq<char>, u32)>, Seq<char>>(overrides_view(out@)),
        decreases parts@.len() - i,
    {
        assert(pv[i as int] == parts@[i as int]@);
        let pair = trimmed(parts[i].as_str());
        let pc = chars_of(pair.as_str());
        let mut e: usize = 0;
        while e < pc.len() && pc[e] != '='
            invariant
                e <= pc@.len(),
                forall|j: int| 0 <= j < e ==> pc@[j] != '=',
            decreases pc@.len() - e,
        {
            e = e + 1;
        }
        proof {
            crate::index::scan::lemma_find_char(pc@, '=', e as int);
        }
        if pc.len() > 0 {
            if e == pc.len() {
                let mut m = String::from_str("--");
                push_str(&mut m, flag);
                push_str(&mut m, " expects slug=N pairs, got `");
                push_str(&mut m, pair.as_str());
                push_str(&mut m, "`");
                proof {
                    lemma_fold_err(pv, i as int + 1, m@, flag@, noun@);
                }
                return Err(m);
            }
            let cnt = string_of_range(&pc, e + 1, pc.len());
            let ct = trimmed(cnt.as_str());
            let cc = chars_of(ct.as_str());
            let parsed = parse_u32(&cc, 0, cc.len());
            assert(cc@.subrange(0, cc@.len() as int) =~= cc@);
            match parsed {
                None => {
                    let mut m = String::from_str("invalid ");
                    push_str(&mut m, noun);
                    push_str(&mut m, " in `");
                    push_str(&mut m, pair.as_str());
                    push_str(&mut m, "`");
                    proof {
                        lemma_fold_err(pv, i as int + 1, m@, flag@, noun@);
                    }
                    return Err(m);
                },
                Some(n) => {
                    if n == 0 {
                        let mut m = owned(flag);
                        push_str(&mut m, " must be > 0 in `");
                        push_str(&mut m, pair.as_str());
                        push_str(&mut m, "`");
                        proof {
                            lemma_fold_err(pv, i as int + 1, m@, flag@, noun@);
                        }
                        return Err(m);
                    }
                    let sl = string_of_range(&pc, 0, e);
                    let slug = trimmed(sl.as_str());
                    let ghost before = overrides_view(out@);
                    let p = find_override(&out, slug.as_str());
                    if p < out.len() {
                        out.set(p, (slug, n));
                    } else {
                        out.push((slug, n));
                    }
                    assert(overrides_view(out@) =~= set_serving(before, trim(pc@.subrange(0, e as int)), n));
                },
            }
        }
        i = i + 1;
    }
    Ok(out)
}

/// Parse `--servings` (see `overrides_spec`).
pub fn parse_servings_overrides(s: Option<&str>) -> (r: Result<Vec<(String, u32)>, String>)
    ensures
        match r {
            Ok(v) => overrides_spec(match s { Some(t) => Some(t@), None => None }) == Ok::<Seq<(Seq<char>, u32)>, Seq<char>>(overrides_view(v@)),
            Err(e) => overrides_spec(match s { Some(t) => Some(t@), None => None }) == Err::<Seq<(Seq<char>, u32)>, Seq<char>>(e@),
        },
{
    parse_pairs(s, "servings", "servings count")
}

/// Parse `--multiplier` (see `multipliers_spec`).
pub fn parse_multipliers(s: Option<&str>) -> (r: Result<Vec<(String, u32)>, String>)
    ensures
        match r {
            Ok(v) => multipliers_spec(match s { Some(t) => Some(t@), None => None }) == Ok::<Seq<(Seq<char>, u32)>, Seq<char>>(overrides_view(v@)),
            Err(e) => multipliers_spec(match s { Some(t) => Some(t@), None => None }) == Err::<Seq<(Seq<char>, u32)>, Seq<char>>(e@),
        },
{
    parse_pairs(s, "multiplier", "multiplier")
}

/// Once the fold fails it stays failed.
proof fn lemma_fold_err(parts: Seq<Seq<char>>, n: int, e: Seq<char>, flag: Seq<char>, noun: Seq<char>)
    requires
        0 <= n <= parts.len(),
        overrides_fold(parts, n, flag, noun) == Err::<Seq<(Seq<char>, u32)>, Seq<char>>(e),
    ensures
        overrides_fold(parts, parts.len() as int, flag, noun) == Err::<Seq<(Seq<char>, u32)>, Seq<char>>(e),
    decreases parts.len() - n,
{
    if n < parts.len() {
        lemma_fold_err(parts, n + 1, e, flag, noun);
    }
}

/// The selections of the command line: each recipe parsed, with its
/// servings override when `--servings` names its slug and its batch
/// multiplier when `--multiplier` does.
pub open spec fn command_selections(
    recipes: Seq<Seq<char>>,
    ov: Seq<(Seq<char>, u32)>,
    mv: Seq<(Seq<char>, u32)>,
) -> Seq<SelectionView> {
    Seq::new(
        recipes.len(),
        |i: int|
            {
                let s = selection_spec(recipes[i]);
                SelectionView { override_servings: serving_of(ov, s.slug), multiplier: serving_of(mv, s.slug), ..s }
            },
    )
}

/// A resolution error's warning line.
pub open spec fn warn_line(e: ResolutionErrorView) -> Seq<char> {
    "warn: "@ + e.slug + ": "@ + e.message + "\n"@
}

/// Warning lines of the first `n` errors.
pub open spec fn warn_lines(es: Seq<ResolutionErrorView>, n: int) -> Seq<char>
    decreases n,
{
    if n <= 0 {
        Seq::empty()
    } else {
        warn_lines(es, n - 1) + warn_line(es[n - 1])
    }
}

/// What `shopping` prints for list `l`: the rendered list on standard
/// output, the resolution errors as warnings on standard error.
pub open spec fn shopping_output(l: ShoppingListView, fmt: Format, base: Option<Seq<char>>) -> (Seq<char>, Seq<char>) {
    (
        match fmt {
            Format::Text => render_text_spec(l, base),
            Format::Html => render_html_spec(l, base),
        },
        warn_lines(l.errors, l.errors.len() as int),
    )
}

/// `out` is what `shopping` prints for some list that aggregates `sels`.
pub open spec fn report_of(
    fams: Seq<crate::index::RecipeFamily>,
    aisle: Option<Seq<char>>,
    sels: Seq<SelectionView>,
    fmt: Format,
    base: Option<Seq<char>>,
    out: (Seq<char>, Seq<char>),
) -> bool {
    exists|l: ShoppingListView| #[trigger] aggregated(fams, aisle, sels, l) && out == shopping_output(l, fmt, base)
}

proof fn lemma_report_of(
    fams: Seq<crate::index::RecipeFamily>,
    aisle: Option<Seq<char>>,
    sels: Seq<SelectionView>,
    l: ShoppingListView,
    fmt: Format,
    base: Option<Seq<char>>,
    out: (Seq<char>, Seq<char>),
)
    requires
        aggregated(fams, aisle, sels, l),
        out == shopping_output(l, fmt, base),
    ensures
        report_of(fams, aisle, sels, fmt, base, out),
{
}

/// Run `shopping` against the index: a bad `--servings` or format is an
/// error; otherwise the output and the warnings.
pub fn shopping_report(
    idx: &Index,
    recipes: &Vec<String>,
    format: &str,
    link_base: Option<&str>,
    servings: Option<&str>,
    multiplier: Option<&str>,
) -> (r: Result<(String, String), String>)
    requires
        idx.wf(),
    ensures
        match overrides_spec(match servings { Some(t) => Some(t@), None => None }) {
            Err(e) => r matches Err(m) && m@ == e,
            Ok(ov) => match multipliers_spec(match multiplier { Some(t) => Some(t@), None => None }) {
                Err(e) => r matches Err(m) && m@ == e,
                Ok(mv) => match format_parse_spec(format@) {
                    None => r matches Err(m) && m@ == "unknown format `"@ + format@ + "`"@,
                    Some(fmt) => r matches Ok(out) && report_of(idx.families@, crate::recipe::opt_view(idx.aisle_source),
                        command_selections(views(recipes@), ov, mv), fmt, base_view(link_base), (out.0@, out.1@)),
                },
            },
        },
{
    let overrides = match parse_servings_overrides(servings) {
        Ok(v) => v,
        Err(e) => return Err(e),
    };
    let multipliers = match parse_multipliers(multiplier) {
        Ok(v) => v,
        Err(e) => return Err(e),
    };
    let ghost ov = overrides_view(overrides@);
    let ghost mv = overrides_view(multipliers@);
    let mut selections: Vec<Selection> = Vec::new();
    let mut i: usize = 0;
    while i < recipes.len()
        invariant
            i <= recipes@.len(),
            ov == overrides_view(overrides@),
            mv == overrides_view(multipliers@),
            selections@.len() == i,
            forall|k: int| 0 <= k < i ==> (#[trigger] selections@[k])@ == command_selections(views(recipes@), ov, mv)[k],
        decreases recipes@.len() - i,
    {
        let mut sel = parse_selection(recipes[i].as_str());
        let p = find_override(&overrides, sel.slug.as_str());
        if p < overrides.len() {
            sel.override_servings = Some(overrides[p].1);
        }
        let q = find_override(&multipliers, sel.slug.as_str());
        if q < multipliers.len() {
            sel.multiplier = Some(multipliers[q].1);
        }
        selections.push(sel);
        i = i + 1;
    }
    assert(views(selections@) =~= command_selections(views(recipes@), ov, mv));
    let fmt = match Format::parse(format) {
        Some(f) => f,
        None => {
            let mut m = String::from_str("unknown format `");
            push_str(&mut m, format);
            push_str(&mut m, "`");
            return Err(m);
        },
    };
    let sl = selections.as_slice();
    assert(sl@ == selections@);
    let list = aggregate(idx, sl);
    let mut err = String::new();
    let ghost es = list@.errors;
    let mut k: usize = 0;
    while k < list.errors.len()
        invariant
            k <= list.errors@.len(),
            es == list@.errors,
            err@ == warn_lines(es, k as int),
        decreases list.errors@.len() - k,
    {
        assert(es[k as int] == list.errors@[k as int]@);
        push_str(&mut err, "warn: ");
        push_str(&mut err, list.errors[k].slug.as_str());
        push_str(&mut err, ": ");
        push_str(&mut err, list.errors[k].message.as_str());
        push_str(&mut err, "\n");
        assert(err@ =~= warn_lines(es, k + 1));
        k = k + 1;
    }
    let opts = RenderOpts { recipe_link_base: link_base };
    let out = render_with(&list, fmt, &opts);
    assert((out@, err@) == shopping_output(list@, fmt, base_view(link_base)));
    let r = (out, err);
    proof {
        lemma_report_of(idx.families@, crate::recipe::opt_view(idx.aisle_source), command_selections(views(recipes@), ov, mv), list@, fmt, base_view(link_base), (r.0@, r.1@));
    }
    Ok(r)
}

} // verus!
