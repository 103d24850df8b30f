//! `versions`: the version table of one recipe family.

use super::report::{pad, push_padded};
use crate::config::{relative_spec, relative_to};
use crate::index::scan::version_text;
use crate::index::slug::slug_of;
use crate::index::{FamilyView, Index, Slug, VersionView};
use crate::recipe::{changelog_spec, recipe_changelog};
use crate::search::first_index;
use crate::shopping::family_is;
use crate::text::push_str;
use vstd::prelude::*;

verus! {

/// A version's row: version, file (relative to the root) and changelog.
pub open spec fn version_row(root: Seq<char>, v: VersionView) -> Seq<char> {
    let cl = match changelog_spec(v.parsed.recipe.changelog) {
        Some(c) => c,
        None => Seq::<char>::empty(),
    };
    pad(version_text(v.key), 8) + "  "@ + pad(relative_spec(root, v.path), 25) + "  "@ + cl + "\n"@
}

/// The rows of the first `n` versions.
pub open spec fn version_rows(root: Seq<char>, vs: Seq<VersionView>, n: int) -> Seq<char>
    decreases n,
{
    if n <= 0 {
        Seq::empty()
    } else {
        version_rows(root, vs, n - 1) + version_row(root, vs[n - 1])
    }
}

/// The table of a family: title and slug, then a header and one row per version.
pub open spec fn versions_table(root: Seq<char>, f: FamilyView) -> Seq<char> {
    f.title + "  ("@ + f.slug + ")\n"@ + "\n"@ + pad("version"@, 8) + "  "@ + pad("file"@, 25) + "  changelog\n"@
        + version_rows(root, f.versions, f.versions.len() as int)
}

/// What `versions <slug>` prints, or the error when no family has the slug.
pub fn versions_report(idx: &Index, root: &str, slug: &str) -> (r: Result<String, String>)
    ensures
        ({
            let fi = first_index(idx.families@, family_is(slug_of(slug@)));
            if fi >= idx.families@.len() {
                r matches Err(e) && e@ == "no recipe family with slug `"@ + slug_of(slug@) + "`"@
            } else {
                r matches Ok(t) && t@ == versions_table(root@, idx.families@[fi]@)
            }
        }),
{
    let s = Slug::from_base(slug);
    match idx.find_family(&s) {
        None => {
            proof {
                crate::search::lemma_first_index(idx.families@, family_is(slug_of(slug@)), idx.families@.len() as int);
            }
            let mut e = String::from_str("no recipe family with slug `");
            push_str(&mut e, s.as_str());
            push_str(&mut e, "`");
            Err(e)
        },
        Some(i) => {
            proof {
                crate::search::lemma_first_index(idx.families@, family_is(slug_of(slug@)), i as int);
            }
            let f = &idx.families[i];
            let mut out = String::new();
            push_str(&mut out, f.title.as_str());
            push_str(&mut out, "  (");
            push_str(&mut out, f.slug.as_str());
            push_str(&mut out, ")\n");
            push_str(&mut out, "\n");
            push_padded(&mut out, "version", 8);
            push_str(&mut out, "  ");
            push_padded(&mut out, "file", 25);
            push_str(&mut out, "  changelog\n");
            let ghost start = out@;
            let ghost vs = f@.versions;
            let mut k: usize = 0;
            while k < f.versions.len()
                invariant
                    k <= f.versions@.len(),
                    vs == f@.versions,
                    out@ == start + version_rows(root@, vs, k as int),
                decreases f.versions@.len() - k,
            {
                let v = &f.versions[k];
                assert(vs[k as int] == v@);
                let ghost before = out@;
                let vt = v.key.to_text();
                push_padded(&mut out, vt.as_str(), 8);
                push_str(&mut out, "  ");
                let rel = relative_to(root, v.path.as_str());
                push_padded(&mut out, rel.as_str(), 25);
                push_str(&mut out, "  ");
                let cl = match recipe_changelog(&v.parsed.recipe) {
                    Some(c) => c,
                    None => String::new(),
                };
                push_str(&mut out, cl.as_str());
                push_str(&mut out, "\n");
                assert(out@ =~= before + version_row(root@, v@));
                assert(out@ =~= start + version_rows(root@, vs, k + 1));
                k = k + 1;
            }
            assert(out@ =~= versions_table(root@, f@));
            Ok(out)
        },
    }
}

} // verus!
