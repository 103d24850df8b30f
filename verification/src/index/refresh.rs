//! Replacing the index after a rebuild: a family one of whose files now
//! fails keeps its previous good versions.

use super::{Index, IndexError, IndexErrorView, RecipeFamily};
use crate::recipe::views;
use crate::search::{first_index, lemma_first_index};
use crate::text::str_eq;
use vstd::prelude::*;

verus! {

/// The family whose slug is `s`.
pub open spec fn slug_is(s: Seq<char>) -> spec_fn(RecipeFamily) -> bool {
    |f: RecipeFamily| f.slug@ == s
}

/// The new build reports an error for one of the files of family `f`.
pub open spec fn has_error(errors: Seq<IndexErrorView>, f: RecipeFamily) -> bool {
    exists|v: int, e: int|
        0 <= v < f.versions@.len() && 0 <= e < errors.len() && (#[trigger] errors[e]).path
            == (#[trigger] f.versions@[v]).path@
}

/// Family `f` put in place of the family with its slug, or added at the end.
pub open spec fn place(fams: Seq<RecipeFamily>, f: RecipeFamily) -> Seq<RecipeFamily> {
    let p = first_index(fams, slug_is(f.slug@));
    if p < fams.len() {
        fams.update(p, f)
    } else {
        fams.push(f)
    }
}

/// The families of a rebuild, with each of the first `n` previous families
/// that now has a file in error put back as it was.
pub open spec fn kept_families(
    prev: Seq<RecipeFamily>,
    next: Seq<RecipeFamily>,
    errors: Seq<IndexErrorView>,
    n: int,
) -> Seq<RecipeFamily>
    decreases n,
{
    if n <= 0 {
        next
    } else {
        let acc = kept_families(prev, next, errors, n - 1);
        if has_error(errors, prev[n - 1]) {
            place(acc, prev[n - 1])
        } else {
            acc
        }
    }
}

/// Families that are well formed with distinct slugs.
pub open spec fn families_ok(fams: Seq<RecipeFamily>) -> bool {
    &&& forall|i: int| 0 <= i < fams.len() ==> (#[trigger] fams[i]).wf()
    &&& forall|i: int, j: int| 0 <= i < j < fams.len() ==> (#[trigger] fams[i]).slug@ != (#[trigger] fams[j]).slug@
}

proof fn lemma_place_ok(fams: Seq<RecipeFamily>, f: RecipeFamily)
    requires
        families_ok(fams),
        f.wf(),
    ensures
        families_ok(place(fams, f)),
{
    crate::search::lemma_first_index_facts(fams, slug_is(f.slug@));
    let p = first_index(fams, slug_is(f.slug@));
    let r = place(fams, f);
    if p < fams.len() {
        assert(slug_is(f.slug@)(fams[p]));
        assert forall|i: int, j: int| 0 <= i < j < r.len() implies (#[trigger] r[i]).slug@ != (#[trigger] r[j]).slug@ by {
            assert(r[i].slug@ == fams[i].slug@ && r[j].slug@ == fams[j].slug@);
        }
    } else {
        assert forall|i: int, j: int| 0 <= i < j < r.len() implies (#[trigger] r[i]).slug@ != (#[trigger] r[j]).slug@ by {
            if j == fams.len() {
                assert(r[i] == fams[i]);
                assert(!slug_is(f.slug@)(fams[i]));
            } else {
                assert(r[i] == fams[i] && r[j] == fams[j]);
            }
        }
    }
}

/// Whether the new build reports an error for a file of family `f`.
fn errors_touch(errors: &Vec<IndexError>, f: &RecipeFamily) -> (r: bool)
    ensures
        r == has_error(views(errors@), *f),
{
    let ghost ev = views(errors@);
    let mut v: usize = 0;
    while v < f.versions.len()
        invariant
            v <= f.versions@.len(),
            ev == views(errors@),
            forall|v0: int, e0: int|
                0 <= v0 < v && 0 <= e0 < ev.len() ==> (#[trigger] ev[e0]).path != (#[trigger] f.versions@[v0]).path@,
        decreases f.versions@.len() - v,
    {
        let mut e: usize = 0;
        while e < errors.len()
            invariant
                v < f.versions@.len(),
                e <= errors@.len(),
                ev == views(errors@),
                forall|e0: int| 0 <= e0 < e ==> (#[trigger] ev[e0]).path != f.versions@[v as int].path@,
            decreases errors@.len() - e,
        {
            assert(ev[e as int] == errors@[e as int]@);
            if str_eq(errors[e].path.as_str(), f.versions[v].path.as_str()) {
                assert(ev[e as int].path == f.versions@[v as int].path@);
                return true;
            }
            e = e + 1;
        }
        v = v + 1;
    }
    false
}

/// The index a rebuild leaves: the new build, except that a family with a
/// file the new build reports an error for (a parse failure, a duplicate or
/// a collision) keeps its previous, good versions, in place of the family
/// of the same slug or added at the end. The files, errors and warnings
/// listed are those of the new build.
pub fn keep_good_families(prev: Index, next: Index) -> (r: Index)
    requires
        prev.wf(),
        next.wf(),
    ensures
        r.wf(),
        r.families@ == kept_families(prev.families@, next.families@, views(next.errors@), prev.families@.len() as int),
        r.root == next.root,
        r.by_path == next.by_path,
        r.errors == next.errors,
        r.warnings == next.warnings,
        r.last_built == next.last_built,
        r.aisle_source == next.aisle_source,
{
    let Index { root, families, by_path, errors, warnings, last_built, aisle_source } = next;
    let ghost pf = prev.families@;
    let ghost ev = views(errors@);
    let mut fams = families;
    let mut rest = prev.families;
    let n = rest.len();
    let mut i: usize = 0;
    while i < n
        invariant
            i <= n,
            n == pf.len(),
            ev == views(errors@),
            rest@ == pf.subrange(i as int, n as int),
            fams@ == kept_families(pf, next.families@, ev, i as int),
            families_ok(fams@),
            forall|k: int| 0 <= k < pf.len() ==> (#[trigger] pf[k]).wf(),
        decreases n - i,
    {
        let f = rest.remove(0);
        assert(f == pf[i as int]);
        if errors_touch(&errors, &f) {
            let mut p: usize = 0;
            while p < fams.len() && !str_eq(fams[p].slug.as_str(), f.slug.as_str())
                invariant
                    p <= fams@.len(),
                    forall|q: int| 0 <= q < p ==> !slug_is(f.slug@)(#[trigger] fams@[q]),
                decreases fams@.len() - p,
            {
                p = p + 1;
            }
            proof {
                lemma_first_index(fams@, slug_is(f.slug@), p as int);
                lemma_place_ok(fams@, f);
            }
            let ghost before = fams@;
            if p < fams.len() {
                fams.set(p, f);
            } else {
                fams.push(f);
            }
            assert(fams@ == place(before, pf[i as int]));
        }
        assert(rest@ =~= pf.subrange(i + 1, n as int));
        i = i + 1;
    }
    Index { root, families: fams, by_path, errors, warnings, last_built, aisle_source }
}

/// A rebuild never loses a family to an error: every previous family with a
/// file the new build reports an error for is in the result as it was.
pub proof fn lemma_kept_families(
    prev: Seq<RecipeFamily>,
    next: Seq<RecipeFamily>,
    errors: Seq<IndexErrorView>,
    n: int,
)
    requires
        0 <= n <= prev.len(),
        forall|i: int, j: int| 0 <= i < j < prev.len() ==> (#[trigger] prev[i]).slug@ != (#[trigger] prev[j]).slug@,
    ensures
        forall|k: int|
            0 <= k < n && has_error(errors, #[trigger] prev[k]) ==> kept_families(prev, next, errors, n).contains(prev[k]),
    decreases n,
{
    if n > 0 {
        lemma_kept_families(prev, next, errors, n - 1);
        let acc = kept_families(prev, next, errors, n - 1);
        let f = prev[n - 1];
        crate::search::lemma_first_index_facts(acc, slug_is(f.slug@));
        let p = first_index(acc, slug_is(f.slug@));
        let r = kept_families(prev, next, errors, n);
        assert forall|k: int| 0 <= k < n && has_error(errors, #[trigger] prev[k]) implies r.contains(prev[k]) by {
            if k == n - 1 {
                if p < acc.len() {
                    assert(r[p] == f);
                } else {
                    assert(r[acc.len() as int] == f);
                }
            } else if has_error(errors, f) {
                assert(acc.contains(prev[k]));
                let j = choose|j: int| 0 <= j < acc.len() && acc[j] == prev[k];
                if p < acc.len() {
                    if j == p {
                        assert(slug_is(f.slug@)(acc[p]));
                        assert(prev[k].slug@ == f.slug@);
                        assert(false);
                    }
                    assert(r[j] == prev[k]);
                } else {
                    assert(r[j] == prev[k]);
                }
            }
        }
    }
}

} // verus!
