//! `list`: every recipe family with its current version.

use super::report::{pad, push_padded};
use crate::index::listing::{sorted_as, title_keys};
use crate::index::scan::version_text;
use crate::index::{FamilyView, Index, IndexErrorView, RecipeFamily};
use crate::recipe::views;
use crate::shopping::order::{key_views, stable_sort, ExecKey, SortKey};
use crate::text::{chars_of, dec, push_dec, push_str};
use vstd::prelude::*;

verus! {

/// Sort key of a family by slug.
pub open spec fn slug_key(f: FamilyView) -> SortKey {
    SortKey { major: 0, minor: 0, text: f.slug }
}

/// Slug keys of families.
pub open spec fn slug_keys(fs: Seq<FamilyView>) -> Seq<SortKey> {
    Seq::new(fs.len(), |i: int| slug_key(fs[i]))
}

/// A family's line: slug, current version, title.
pub open spec fn family_line(f: FamilyView) -> Seq<char> {
    pad(f.slug, 32) + " "@ + pad(version_text(f.versions.last().key), 8) + " "@ + f.title + "\n"@
}

/// The lines of the first `n` families.
pub open spec fn family_lines(fs: Seq<FamilyView>, n: int) -> Seq<char>
    decreases n,
{
    if n <= 0 {
        Seq::empty()
    } else {
        family_lines(fs, n - 1) + family_line(fs[n - 1])
    }
}

/// An index error's line.
pub open spec fn error_line(e: IndexErrorView) -> Seq<char> {
    "  "@ + e.path + ": "@ + e.message + "\n"@
}

/// The lines of the first `n` errors.
pub open spec fn error_lines(es: Seq<IndexErrorView>, n: int) -> Seq<char>
    decreases n,
{
    if n <= 0 {
        Seq::empty()
    } else {
        error_lines(es, n - 1) + error_line(es[n - 1])
    }
}

/// The error summary: nothing, or a blank line, the count and each error.
pub open spec fn errors_report(es: Seq<IndexErrorView>) -> Seq<char> {
    if es.len() == 0 {
        Seq::empty()
    } else {
        "\n"@ + dec(es.len()) + " errors:\n"@ + error_lines(es, es.len() as int)
    }
}

fn slug_sorted<'a>(fs: Vec<&'a RecipeFamily>) -> (r: Vec<&'a RecipeFamily>)
    ensures
        sorted_as(views(r@), views(fs@), slug_keys(views(fs@))),
{
    let mut keys: Vec<ExecKey> = Vec::new();
    let mut i: usize = 0;
    while i < fs.len()
        invariant
            i <= fs@.len(),
            keys@.len() == i,
            forall|k: int| 0 <= k < i ==> (#[trigger] keys@[k])@ == slug_key(fs@[k]@),
        decreases fs@.len() - i,
    {
        keys.push(ExecKey { major: 0, minor: 0, text: chars_of(fs[i].slug.as_str()) });
        i = i + 1;
    }
    assert(key_views(keys@) =~= slug_keys(views(fs@)));
    stable_sort(fs, keys)
}

fn push_errors(out: &mut String, es: &Vec<crate::index::IndexError>)
    ensures
        final(out)@ == old(out)@ + errors_report(views(es@)),
{
    if es.len() == 0 {
        return;
    }
    push_str(out, "\n");
    push_dec(out, es.len() as u128);
    push_str(out, " errors:\n");
    let ghost start = out@;
    let ghost ev = views(es@);
    let mut i: usize = 0;
    while i < es.len()
        invariant
            i <= es@.len(),
            ev == views(es@),
            out@ == start + error_lines(ev, i as int),
        decreases es@.len() - i,
    {
        assert(ev[i as int] == es@[i as int]@);
        push_str(out, "  ");
        push_str(out, es[i].path.as_str());
        push_str(out, ": ");
        push_str(out, es[i].message.as_str());
        push_str(out, "\n");
        assert(out@ =~= start + error_lines(ev, i + 1));
        i = i + 1;
    }
}

/// What `list` prints: each family (ordered by slug) on standard output, and
/// the index's errors on standard error.
pub fn list_report(idx: &Index) -> (r: (String, String))
    requires
        idx.wf(),
    ensures
        exists|t: Seq<FamilyView>, l: Seq<FamilyView>|
            sorted_as(t, views(idx.families@), title_keys(views(idx.families@))) && sorted_as(l, t, slug_keys(t))
                && r.0@ == family_lines(l, l.len() as int),
        r.1@ == errors_report(views(idx.errors@)),
{
    let by_title = idx.families_sorted();
    let ghost t = views(by_title@);
    let fams = slug_sorted(by_title);
    let ghost l = views(fams@);
    proof {
        let fv = views(idx.families@);
        crate::index::listing::lemma_sorted_from(t, fv, title_keys(fv));
        crate::index::listing::lemma_sorted_from(l, t, slug_keys(t));
        assert forall|k: int| 0 <= k < l.len() implies (#[trigger] l[k]).versions.len() > 0 by {
            let j = choose|j: int| 0 <= j < t.len() && l[k] == t[j];
            let m = choose|m: int| 0 <= m < fv.len() && t[j] == fv[m];
            assert(idx.families@[m].wf());
            assert(fv[m] == idx.families@[m]@);
        }
    }
    let mut out = String::new();
    let mut i: usize = 0;
    while i < fams.len()
        invariant
            i <= fams@.len(),
            l == views(fams@),
            idx.wf(),
            forall|k: int| 0 <= k < l.len() ==> (#[trigger] l[k]).versions.len() > 0,
            out@ == family_lines(l, i as int),
        decreases fams@.len() - i,
    {
        let f = fams[i];
        assert(l[i as int] == f@);
        let cur = f.current();
        assert(f@.versions.last() == cur@);
        push_padded(&mut out, f.slug.as_str(), 32);
        push_str(&mut out, " ");
        let vt = cur.key.to_text();
        push_padded(&mut out, vt.as_str(), 8);
        push_str(&mut out, " ");
        push_str(&mut out, f.title.as_str());
        push_str(&mut out, "\n");
        assert(out@ =~= family_lines(l, i + 1));
        i = i + 1;
    }
    let mut err = String::new();
    push_errors(&mut err, &idx.errors);
    (out, err)
}

} // verus!
