//! Building the index from what a walk of the recipes directory found.
//!
//! The walk itself (and reading files) happens outside the library; what it
//! found comes here: each path is classified, loaded files are grouped by
//! base name and category, each group is ordered by version and checked for
//! duplicate versions and slug collisions, and the aisle file is read.

use super::scan::{
    cook_ext, filename_error_message, parse_recipe_path, parse_recipe_path_spec, version_lt,
    version_text, RecipeFileMeta, RecipeFileMetaView, VersionKey,
};
use super::{FamilyView, Index, IndexError, IndexErrorView, IndexView, RecipeFamily, Slug, Version, VersionView};
use crate::paths::{components, file_name, path_components, texts};
use crate::recipe::parse::{
    contains, contains_spec, parse_error_message, parse_str, ParseError, ParseErrorView, ParseOutcome,
    ParseOutcomeView, parsed_from,
};
use crate::recipe::views;
use crate::search::{first_index, lemma_first_index, lemma_first_index_facts};
use crate::shopping::aisle::{aisle_input, aisle_parse_result};
use crate::text::{owned, push_str, str_eq, string_of};
use vstd::prelude::*;

verus! {

/// What to do with one path the walk found.
pub enum ScanDecision {
    /// Not a recipe file.
    Skip,
    /// A sync-conflict copy, ignored with a warning.
    Warning(IndexError),
    /// A recipe file whose name is rejected.
    Error(IndexError),
    /// A recipe file to load.
    Load(RecipeFileMeta),
}

/// View of a scan decision.
pub enum ScanDecisionView {
    Skip,
    Warning(IndexErrorView),
    Error(IndexErrorView),
    Load(RecipeFileMetaView),
}

impl View for ScanDecision {
    type V = ScanDecisionView;

    open spec fn view(&self) -> ScanDecisionView {
        match self {
            ScanDecision::Skip => ScanDecisionView::Skip,
            ScanDecision::Warning(e) => ScanDecisionView::Warning(e@),
            ScanDecision::Error(e) => ScanDecisionView::Error(e@),
            ScanDecision::Load(m) => ScanDecisionView::Load(m@),
        }
    }
}

/// A file name ending in `.cook`.
pub open spec fn is_cook_name(name: Seq<char>) -> bool {
    name.len() >= 5 && name.subrange(name.len() - 5, name.len() as int) == cook_ext()
}

/// The decision for a file at `path` under `root`: names not ending in
/// `.cook` are skipped, sync-conflict copies warned about, and the rest
/// parsed by `parse_recipe_path`.
pub open spec fn scan_spec(root: Seq<char>, path: Seq<char>) -> ScanDecisionView {
    match file_name(components(path)) {
        None => ScanDecisionView::Skip,
        Some(name) => if !is_cook_name(name) {
            ScanDecisionView::Skip
        } else if contains_spec(name, "conflicted copy"@) || contains_spec(name, ".sync-conflict"@) {
            ScanDecisionView::Warning(IndexErrorView { path, message: "ignored sync-conflict file"@ })
        } else {
            match parse_recipe_path_spec(root, path) {
                Err(e) => ScanDecisionView::Error(IndexErrorView { path, message: filename_error_message(e) }),
                Ok(m) => ScanDecisionView::Load(m),
            }
        },
    }
}

/// Classify the file at `path` found under `root`.
pub fn scan_entry(root: &str, path: &str) -> (r: ScanDecision)
    ensures
        r@ == scan_spec(root@, path@),
{
    let comps = path_components(path);
    let n = comps.len();
    if n == 0 {
        return ScanDecision::Skip;
    }
    let last = &comps[n - 1];
    assert(texts(comps@).last() == last@);
    let k = last.len();
    let is_root = k == 1 && last[0] == '/';
    let is_dot = k == 1 && last[0] == '.';
    let is_dotdot = k == 2 && last[0] == '.' && last[1] == '.';
    if is_root || is_dot || is_dotdot {
        proof {
            if is_root { assert(last@ =~= seq!['/']); }
            if is_dot { assert(last@ =~= seq!['.']); }
            if is_dotdot { assert(last@ =~= seq!['.', '.']); }
        }
        return ScanDecision::Skip;
    }
    proof {
        assert(last@ != seq!['/']) by { if last@ == seq!['/'] { assert(last@[0] == '/'); } };
        assert(last@ != seq!['.']) by { if last@ == seq!['.'] { assert(last@[0] == '.'); } };
        assert(last@ != seq!['.', '.']) by { if last@ == seq!['.', '.'] { assert(last@[1] == '.'); } };
    }
    if k < 5 || !(last[k - 5] == '.' && last[k - 4] == 'c' && last[k - 3] == 'o' && last[k - 2] == 'o'
        && last[k - 1] == 'k') {
        proof {
            if k >= 5 {
                let t = last@.subrange(k - 5, k as int);
                if t == cook_ext() {
                    assert(t[0] == '.' && t[1] == 'c' && t[2] == 'o' && t[3] == 'o' && t[4] == 'k');
                }
            }
        }
        return ScanDecision::Skip;
    }
    assert(last@.subrange(k - 5, k as int) =~= cook_ext());
    let name = string_of(last);
    if contains(name.as_str(), "conflicted copy") || contains(name.as_str(), ".sync-conflict") {
        return ScanDecision::Warning(
            IndexError { path: owned(path), message: String::from_str("ignored sync-conflict file") },
        );
    }
    match parse_recipe_path(root, path) {
        Err(e) => ScanDecision::Error(IndexError { path: owned(path), message: e.message() }),
        Ok(m) => ScanDecision::Load(m),
    }
}

/// A recipe file read from disk: its metadata, source, modification time
/// (whole seconds since the unix epoch, when known) and what parsing made of it.
pub struct LoadedFile {
    pub meta: RecipeFileMeta,
    pub source: String,
    pub mtime: Option<u64>,
    pub parsed: Result<ParseOutcome, ParseError>,
}

/// View of a loaded file.
pub struct LoadedFileView {
    pub meta: RecipeFileMetaView,
    pub source: Seq<char>,
    pub mtime: Option<u64>,
    pub parsed: Result<ParseOutcomeView, ParseErrorView>,
}

impl View for LoadedFile {
    type V = LoadedFileView;

    open spec fn view(&self) -> LoadedFileView {
        LoadedFileView {
            meta: self.meta@,
            source: self.source@,
            mtime: self.mtime,
            parsed: match self.parsed {
                Ok(o) => Ok(o@),
                Err(e) => Err(e@),
            },
        }
    }
}

/// A file read from disk, parsed.
pub fn load(meta: RecipeFileMeta, source: String, mtime: Option<u64>) -> (r: LoadedFile)
    ensures
        r@.meta == meta@,
        r@.source == source@,
        r@.mtime == mtime,
        parsed_from(source@, r@.parsed),
        r@.parsed matches Err(e) ==> e matches ParseErrorView::Cooklang(_),
{
    let parsed = parse_str(source.as_str());
    LoadedFile { meta, source, mtime, parsed }
}

/// The group of a file: its base name and category.
pub open spec fn file_key(f: LoadedFileView) -> (Seq<char>, Seq<char>) {
    (f.meta.base, f.meta.category)
}

/// The groups of `files` in order of first appearance.
pub open spec fn group_keys(files: Seq<LoadedFileView>) -> Seq<(Seq<char>, Seq<char>)>
    decreases files.len(),
{
    if files.len() == 0 {
        Seq::empty()
    } else {
        let ks = group_keys(files.drop_last());
        if ks.contains(file_key(files.last())) {
            ks
        } else {
            ks.push(file_key(files.last()))
        }
    }
}

/// The files of group `key`, in order.
pub open spec fn members(files: Seq<LoadedFileView>, key: (Seq<char>, Seq<char>)) -> Seq<LoadedFileView>
    decreases files.len(),
{
    if files.len() == 0 {
        Seq::empty()
    } else {
        let m = members(files.drop_last(), key);
        if file_key(files.last()) == key {
            m.push(files.last())
        } else {
            m
        }
    }
}

/// A file of a later version than `k`.
pub open spec fn later_than(k: VersionKey) -> spec_fn(LoadedFileView) -> bool {
    |g: LoadedFileView| version_lt(k, g.meta.version)
}

/// `f` inserted before the first file of a later version.
pub open spec fn insert_by_version(s: Seq<LoadedFileView>, f: LoadedFileView) -> Seq<LoadedFileView> {
    s.insert(first_index(s, later_than(f.meta.version)), f)
}

/// `fs` ordered by version, files of equal versions in their order (a
/// stable insertion sort).
pub open spec fn sort_by_version(fs: Seq<LoadedFileView>) -> Seq<LoadedFileView>
    decreases fs.len(),
{
    if fs.len() == 0 {
        Seq::empty()
    } else {
        insert_by_version(sort_by_version(fs.drop_last()), fs.last())
    }
}

/// `group_keys` never repeats a key.
pub proof fn lemma_group_keys_distinct(files: Seq<LoadedFileView>)
    ensures
        forall|i: int, j: int|
            0 <= i < j < group_keys(files).len() ==> group_keys(files)[i] != group_keys(files)[j],
    decreases files.len(),
{
    if files.len() > 0 {
        lemma_group_keys_distinct(files.drop_last());
        let ks = group_keys(files.drop_last());
        if !ks.contains(file_key(files.last())) {
            assert forall|i: int, j: int|
                0 <= i < j < group_keys(files).len() implies group_keys(files)[i] != group_keys(files)[j] by {
                if j == ks.len() {
                    assert(ks[i] == group_keys(files)[i]);
                }
            }
        }
    }
}

/// A key with members is among the group keys.
pub proof fn lemma_members_keyed(files: Seq<LoadedFileView>, key: (Seq<char>, Seq<char>))
    ensures
        members(files, key).len() > 0 ==> group_keys(files).contains(key),
        !group_keys(files).contains(key) ==> members(files, key) == Seq::<LoadedFileView>::empty(),
    decreases files.len(),
{
    if files.len() > 0 {
        lemma_members_keyed(files.drop_last(), key);
        let ks = group_keys(files.drop_last());
        if !ks.contains(file_key(files.last())) {
            assert(group_keys(files) == ks.push(file_key(files.last())));
            if ks.contains(key) {
                let i = choose|i: int| 0 <= i < ks.len() && ks[i] == key;
                assert(group_keys(files)[i] == key);
            }
            if file_key(files.last()) == key {
                assert(group_keys(files)[ks.len() as int] == key);
            }
        }
    }
}

/// Group `files` by key: the groups in order of first appearance, each with
/// its files in order.
fn partition(files: Vec<LoadedFile>) -> (r: Vec<Vec<LoadedFile>>)
    ensures
        r@.len() == group_keys(views(files@)).len(),
        forall|k: int| 0 <= k < r@.len() ==> views((#[trigger] r@[k])@) == members(views(files@), group_keys(views(files@))[k]),
{
    let ghost fv = views(files@);
    let n = files.len();
    let mut rest = files;
    let mut groups: Vec<Vec<LoadedFile>> = Vec::new();
    let mut i: usize = 0;
    while i < n
        invariant
            n == fv.len(),
            i <= n,
            rest@.len() == n - i,
            forall|k: int| 0 <= k < n - i ==> (#[trigger] rest@[k])@ == fv[k + i],
            groups@.len() == group_keys(fv.take(i as int)).len(),
            forall|k: int| 0 <= k < groups@.len() ==> views((#[trigger] groups@[k])@) == members(fv.take(i as int), group_keys(fv.take(i as int))[k]),
        decreases n - i,
    {
        let f = rest.remove(0);
        assert(f@ == fv[i as int]);
        let ghost pre = fv.take(i as int);
        let ghost post = fv.take(i + 1);
        assert(post.drop_last() =~= pre);
        assert(post.last() == f@);
        let ghost ks = group_keys(pre);
        proof {
            lemma_group_keys_distinct(pre);
        }
        let mut k: usize = 0;
        while k < groups.len()
            invariant
                k <= groups@.len(),
                ks == group_keys(pre),
                f@ == post.last(),
                groups@.len() == ks.len(),
                forall|j: int| 0 <= j < groups@.len() ==> views((#[trigger] groups@[j])@) == members(pre, ks[j]),
                forall|j: int| 0 <= j < k ==> ks[j] != file_key(f@),
            ensures
                k <= groups@.len(),
                forall|j: int| 0 <= j < k ==> ks[j] != file_key(f@),
                k < groups@.len() ==> ks[k as int] == file_key(f@),
            decreases groups@.len() - k,
        {
            let g = &groups[k];
            let same = if g.len() > 0 {
                str_eq(g[0].meta.base.as_str(), f.meta.base.as_str()) && str_eq(
                    g[0].meta.category.as_str(),
                    f.meta.category.as_str(),
                )
            } else {
                false
            };
            proof {
                lemma_members_keyed_at(pre, k as int);
                lemma_members_nonempty_key(pre, ks[k as int]);
                assert(views(g@)[0] == g@[0]@);
                assert(views(g@)[0] == members(pre, ks[k as int])[0]);
            }
            if same {
                break;
            }
            k = k + 1;
        }
        if k < groups.len() {
            let mut g = groups.remove(k);
            let ghost gv = views(g@);
            g.push(f);
            assert(views(g@) =~= gv.push(f@));
            groups.insert(k, g);
            proof {
                assert(ks[k as int] == file_key(f@));
                assert(ks.contains(file_key(f@)));
                assert(group_keys(post) == ks);
                assert forall|j: int| 0 <= j < groups@.len() implies views((#[trigger] groups@[j])@) == members(post, group_keys(post)[j]) by {
                    if j != k {
                        assert(ks[j] != ks[k as int]);
                    }
                }
            }
        } else {
            let mut g: Vec<LoadedFile> = Vec::new();
            g.push(f);
            proof {
                lemma_members_keyed(pre, file_key(f@));
                assert(group_keys(post) == ks.push(file_key(f@)));
                assert(views(g@) =~= members(post, file_key(f@)));
            }
            groups.push(g);
            proof {
                assert forall|j: int| 0 <= j < groups@.len() implies views((#[trigger] groups@[j])@) == members(post, group_keys(post)[j]) by {
                    if j < ks.len() {
                        assert(ks[j] != file_key(f@));
                    }
                }
            }
        }
        i = i + 1;
    }
    assert(fv.take(n as int) =~= fv);
    groups
}

/// The first member of a non-empty group has the group's key.
proof fn lemma_members_nonempty_key(files: Seq<LoadedFileView>, key: (Seq<char>, Seq<char>))
    ensures
        forall|j: int| 0 <= j < members(files, key).len() ==> file_key(#[trigger] members(files, key)[j]) == key,
    decreases files.len(),
{
    if files.len() > 0 {
        lemma_members_nonempty_key(files.drop_last(), key);
        let m = members(files.drop_last(), key);
        assert forall|j: int| 0 <= j < members(files, key).len() implies file_key(#[trigger] members(files, key)[j]) == key by {
            if j < m.len() {
                assert(members(files, key)[j] == m[j]);
            }
        }
    }
}

/// Every group key has members.
proof fn lemma_members_keyed_at(files: Seq<LoadedFileView>, k: int)
    requires
        0 <= k < group_keys(files).len(),
    ensures
        members(files, group_keys(files)[k]).len() > 0,
    decreases files.len(),
{
    let ks = group_keys(files.drop_last());
    if k < ks.len() {
        lemma_members_keyed_at(files.drop_last(), k);
        assert(group_keys(files)[k] == ks[k]);
    }
}

/// Order a group by version (see `sort_by_version`).
fn sort_group(g: Vec<LoadedFile>) -> (r: Vec<LoadedFile>)
    ensures
        views(r@) == sort_by_version(views(g@)),
{
    let ghost gv = views(g@);
    let n = g.len();
    let mut rest = g;
    let mut out: Vec<LoadedFile> = Vec::new();
    let mut i: usize = 0;
    assert(gv.take(0) =~= Seq::<LoadedFileView>::empty());
    assert(views(out@) =~= Seq::<LoadedFileView>::empty());
    while i < n
        invariant
            n == gv.len(),
            i <= n,
            rest@.len() == n - i,
            forall|k: int| 0 <= k < n - i ==> (#[trigger] rest@[k])@ == gv[k + i],
            views(out@) == sort_by_version(gv.take(i as int)),
        decreases n - i,
    {
        let f = rest.remove(0);
        assert(f@ == gv[i as int]);
        assert(gv.take(i + 1).drop_last() =~= gv.take(i as int));
        let ghost ov = views(out@);
        let mut p: usize = 0;
        while p < out.len()
            invariant
                p <= out@.len(),
                ov == views(out@),
                forall|j: int| 0 <= j < p ==> !later_than(f@.meta.version)(#[trigger] ov[j]),
            ensures
                p <= out@.len(),
                forall|j: int| 0 <= j < p ==> !later_than(f@.meta.version)(#[trigger] ov[j]),
                p < out@.len() ==> later_than(f@.meta.version)(ov[p as int]),
            decreases out@.len() - p,
        {
            assert(ov[p as int] == out@[p as int]@);
            if f.meta.version.precedes(&out[p].meta.version) {
                break;
            }
            p = p + 1;
        }
        proof {
            lemma_first_index(ov, later_than(f@.meta.version), p as int);
        }
        out.insert(p, f);
        assert(views(out@) =~= ov.insert(p as int, f@));
        i = i + 1;
    }
    assert(gv.take(n as int) =~= gv);
    out
}

/// The index as built so far: families, path entries, errors.
pub struct BuildView {
    pub families: Seq<FamilyView>,
    pub by_path: Seq<(Seq<char>, Seq<char>, VersionKey)>,
    pub errors: Seq<IndexErrorView>,
}

/// The error for file `j` of an ordered group when it repeats the version
/// of the file before it.
pub open spec fn dup_error(s: Seq<LoadedFileView>, j: int) -> Seq<IndexErrorView> {
    if j > 0 && s[j].meta.version == s[j - 1].meta.version {
        seq![
            IndexErrorView {
                path: s[j].meta.path,
                message: "duplicate version "@ + version_text(s[j].meta.version) + " (also in "@
                    + s[j - 1].meta.path + ")"@,
            },
        ]
    } else {
        Seq::empty()
    }
}

/// Duplicate-version errors of the first `n` files of an ordered group.
pub open spec fn dup_errors(s: Seq<LoadedFileView>, n: int) -> Seq<IndexErrorView>
    decreases n,
{
    if n <= 0 {
        Seq::empty()
    } else {
        dup_errors(s, n - 1) + dup_error(s, n - 1)
    }
}

/// The version made of a loaded file and its parse.
pub open spec fn version_of(f: LoadedFileView, o: ParseOutcomeView) -> VersionView {
    VersionView {
        key: f.meta.version,
        path: f.meta.path,
        explicit: f.meta.explicit_version,
        mtime: f.mtime,
        source: f.source,
        parsed: o,
    }
}

/// The versions of the files that parsed, in order.
pub open spec fn parsed_versions(s: Seq<LoadedFileView>) -> Seq<VersionView>
    decreases s.len(),
{
    if s.len() == 0 {
        Seq::empty()
    } else {
        let v = parsed_versions(s.drop_last());
        match s.last().parsed {
            Ok(o) => v.push(version_of(s.last(), o)),
            Err(_) => v,
        }
    }
}

/// The errors of the files that did not parse, in order.
pub open spec fn parse_errors(s: Seq<LoadedFileView>) -> Seq<IndexErrorView>
    decreases s.len(),
{
    if s.len() == 0 {
        Seq::empty()
    } else {
        let e = parse_errors(s.drop_last());
        match s.last().parsed {
            Ok(_) => e,
            Err(x) => e.push(IndexErrorView { path: s.last().meta.path, message: parse_error_message(x) }),
        }
    }
}

/// Path index entries of a family's versions.
pub open spec fn path_entries(vs: Seq<VersionView>, slug: Seq<char>) -> Seq<(Seq<char>, Seq<char>, VersionKey)> {
    Seq::new(vs.len(), |i: int| (vs[i].path, slug, vs[i].key))
}

/// The family whose slug is `s`.
pub open spec fn family_slug_is(s: Seq<char>) -> spec_fn(FamilyView) -> bool {
    |f: FamilyView| f.slug == s
}

/// One ordered group applied: a group with duplicate versions is dropped
/// with an error per duplicate; a group whose slug is taken is dropped with
/// a collision error; otherwise its files that parse become a family (the
/// others are errors), titled by its newest version or its base name.
pub open spec fn group_step(st: BuildView, s: Seq<LoadedFileView>) -> BuildView {
    let dups = dup_errors(s, s.len() as int);
    if dups.len() > 0 {
        BuildView { errors: st.errors + dups, ..st }
    } else if s.len() == 0 {
        st
    } else {
        let head = s[0].meta;
        let fi = first_index(st.families, family_slug_is(head.slug));
        if fi < st.families.len() {
            BuildView {
                errors: st.errors.push(
                    IndexErrorView {
                        path: head.path,
                        message: "slug collision: "@ + head.slug + " (already used by "@
                            + st.families[fi].versions[0].path + ")"@,
                    },
                ),
                ..st
            }
        } else {
            let vs = parsed_versions(s);
            let errors = st.errors + parse_errors(s);
            if vs.len() == 0 {
                BuildView { errors, ..st }
            } else {
                let fam = FamilyView {
                    slug: head.slug,
                    base: head.base,
                    category: head.category,
                    title: match vs.last().parsed.recipe.title {
                        Some(t) => t,
                        None => head.base,
                    },
                    versions: vs,
                };
                BuildView {
                    families: st.families.push(fam),
                    by_path: st.by_path + path_entries(vs, head.slug),
                    errors,
                }
            }
        }
    }
}

/// The first `n` groups of `files` applied in order of first appearance.
pub open spec fn groups_fold(st: BuildView, files: Seq<LoadedFileView>, n: int) -> BuildView
    decreases n,
{
    if n <= 0 {
        st
    } else {
        group_step(groups_fold(st, files, n - 1), sort_by_version(members(files, group_keys(files)[n - 1])))
    }
}

/// The index under construction.
pub struct Build {
    pub families: Vec<RecipeFamily>,
    pub by_path: Vec<(String, Slug, VersionKey)>,
    pub errors: Vec<IndexError>,
}

impl View for Build {
    type V = BuildView;

    open spec fn view(&self) -> BuildView {
        BuildView {
            families: views(self.families@),
            by_path: super::by_path_view(self.by_path@),
            errors: views(self.errors@),
        }
    }
}

impl Build {
    /// Families are well formed and their slugs distinct.
    pub open spec fn wf(&self) -> bool {
        &&& forall|i: int| 0 <= i < self.families@.len() ==> (#[trigger] self.families@[i]).wf()
        &&& forall|i: int, j: int|
            0 <= i < j < self.families@.len() ==> (#[trigger] self.families@[i]).slug@
                != (#[trigger] self.families@[j]).slug@
    }
}

fn push_error(st: &mut Build, e: IndexError)
    ensures
        final(st)@ == (BuildView { errors: old(st)@.errors.push(e@), ..old(st)@ }),
        final(st).families == old(st).families,
{
    st.errors.push(e);
    assert(views(st.errors@) =~= views(old(st).errors@).push(e@));
}

/// Duplicate-version errors of an ordered group.
fn group_dup_errors(g: &Vec<LoadedFile>) -> (r: Vec<IndexError>)
    ensures
        views(r@) == dup_errors(views(g@), g@.len() as int),
{
    let ghost gv = views(g@);
    let mut out: Vec<IndexError> = Vec::new();
    let mut j: usize = 0;
    while j < g.len()
        invariant
            j <= g@.len(),
            gv == views(g@),
            views(out@) == dup_errors(gv, j as int),
        decreases g@.len() - j,
    {
        let ghost before = views(out@);
        if j > 0 && g[j].meta.version == g[j - 1].meta.version {
            let mut msg = String::from_str("duplicate version ");
            g[j].meta.version.push_text(&mut msg);
            push_str(&mut msg, " (also in ");
            push_str(&mut msg, g[j - 1].meta.path.as_str());
            push_str(&mut msg, ")");
            out.push(IndexError { path: owned(g[j].meta.path.as_str()), message: msg });
            assert(gv[j as int] == g@[j as int]@ && gv[j - 1] == g@[j - 1]@);
            assert(views(out@) =~= before + dup_error(gv, j as int));
        } else {
            assert(gv[j as int] == g@[j as int]@);
            proof {
                if j > 0 {
                    assert(gv[j - 1] == g@[j - 1]@);
                }
            }
            assert(views(out@) =~= before + dup_error(gv, j as int));
        }
        j = j + 1;
    }
    out
}

fn find_slug(fams: &Vec<RecipeFamily>, slug: &Slug) -> (r: usize)
    ensures
        r == first_index(views(fams@), family_slug_is(slug@)),
{
    let ghost fv = views(fams@);
    let mut i: usize = 0;
    while i < fams.len()
        invariant
            i <= fams@.len(),
            fv == views(fams@),
            forall|j: int| 0 <= j < i ==> !family_slug_is(slug@)(#[trigger] fv[j]),
        decreases fams@.len() - i,
    {
        assert(fv[i as int] == fams@[i as int]@);
        if str_eq(fams[i].slug.as_str(), slug.as_str()) {
            proof {
                lemma_first_index(fv, family_slug_is(slug@), i as int);
            }
            return i;
        }
        i = i + 1;
    }
    proof {
        lemma_first_index(fv, family_slug_is(slug@), i as int);
    }
    i
}

/// Files ordered by `sort_by_version` are in version order.
pub proof fn lemma_sort_sorted(fs: Seq<LoadedFileView>)
    ensures
        sort_by_version(fs).len() == fs.len(),
        forall|i: int, j: int|
            0 <= i < j < fs.len() ==> !version_lt(
                (#[trigger] sort_by_version(fs)[j]).meta.version,
                (#[trigger] sort_by_version(fs)[i]).meta.version,
            ),
    decreases fs.len(),
{
    if fs.len() > 0 {
        let s = sort_by_version(fs.drop_last());
        lemma_sort_sorted(fs.drop_last());
        let f = fs.last();
        let p = first_index(s, later_than(f.meta.version));
        lemma_first_index_facts(s, later_than(f.meta.version));
        let t = s.insert(p, f);
        assert(t == sort_by_version(fs));
        assert forall|i: int, j: int| 0 <= i < j < t.len() implies !version_lt(
            (#[trigger] t[j]).meta.version,
            (#[trigger] t[i]).meta.version,
        ) by {
            if j == p {
                assert(t[i] == s[i]);
                assert(!later_than(f.meta.version)(s[i]));
            } else if i == p {
                assert(t[j] == s[j - 1]);
                assert(later_than(f.meta.version)(s[p]));
                if j - 1 > p {
                    assert(!version_lt(s[j - 1].meta.version, s[p].meta.version));
                }
            } else {
                let i0 = if i < p { i } else { i - 1 };
                let j0 = if j < p { j } else { j - 1 };
                assert(t[i] == s[i0] && t[j] == s[j0]);
            }
        }
    }
}

/// Without duplicate errors, neighbours of an ordered group differ in version.
pub proof fn lemma_no_dups(s: Seq<LoadedFileView>, n: int)
    requires
        0 <= n <= s.len(),
        dup_errors(s, n).len() == 0,
    ensures
        forall|j: int| 0 < j < n ==> (#[trigger] s[j]).meta.version != s[j - 1].meta.version,
    decreases n,
{
    if n > 0 {
        lemma_no_dups(s, n - 1);
    }
}

/// A sorted group with distinct neighbours strictly increases.
pub proof fn lemma_strict(s: Seq<LoadedFileView>, i: int, j: int)
    requires
        0 <= i < j < s.len(),
        forall|a: int, b: int|
            0 <= a < b < s.len() ==> !version_lt((#[trigger] s[b]).meta.version, (#[trigger] s[a]).meta.version),
        forall|k: int| 0 < k < s.len() ==> (#[trigger] s[k]).meta.version != s[k - 1].meta.version,
    ensures
        version_lt(s[i].meta.version, s[j].meta.version),
    decreases j - i,
{
    assert(s[i + 1].meta.version != s[i].meta.version);
    assert(!version_lt(s[i + 1].meta.version, s[i].meta.version));
    if i + 1 < j {
        lemma_strict(s, i + 1, j);
    }
}

/// Every parsed version comes from a file of the group, in order.
pub proof fn lemma_parsed_from(s: Seq<LoadedFileView>)
    ensures
        parsed_versions(s).len() <= s.len(),
        forall|k: int| 0 <= k < parsed_versions(s).len() ==> exists|i: int|
            0 <= i < s.len() && (#[trigger] parsed_versions(s)[k]).key == s[i].meta.version,
    decreases s.len(),
{
    if s.len() > 0 {
        lemma_parsed_from(s.drop_last());
        let v = parsed_versions(s.drop_last());
        assert forall|k: int| 0 <= k < parsed_versions(s).len() implies exists|i: int|
            0 <= i < s.len() && (#[trigger] parsed_versions(s)[k]).key == s[i].meta.version by {
            if k < v.len() {
                assert(parsed_versions(s)[k] == v[k]);
                let i = choose|i: int| 0 <= i < s.drop_last().len() && v[k].key == s.drop_last()[i].meta.version;
                assert(s[i] == s.drop_last()[i]);
            } else {
                assert(parsed_versions(s)[k].key == s.last().meta.version);
            }
        }
    }
}

/// Parsed versions of a strictly increasing group strictly increase.
pub proof fn lemma_parsed_strict(s: Seq<LoadedFileView>)
    requires
        forall|i: int, j: int|
            0 <= i < j < s.len() ==> version_lt((#[trigger] s[i]).meta.version, (#[trigger] s[j]).meta.version),
    ensures
        forall|a: int, b: int|
            0 <= a < b < parsed_versions(s).len() ==> version_lt(
                (#[trigger] parsed_versions(s)[a]).key,
                (#[trigger] parsed_versions(s)[b]).key,
            ),
    decreases s.len(),
{
    if s.len() > 0 {
        let d = s.drop_last();
        assert forall|i: int, j: int| 0 <= i < j < d.len() implies version_lt(
            (#[trigger] d[i]).meta.version,
            (#[trigger] d[j]).meta.version,
        ) by {
            assert(d[i] == s[i] && d[j] == s[j]);
        }
        lemma_parsed_strict(d);
        lemma_parsed_from(d);
        let v = parsed_versions(d);
        let pv = parsed_versions(s);
        assert forall|a: int, b: int| 0 <= a < b < pv.len() implies version_lt(
            (#[trigger] pv[a]).key,
            (#[trigger] pv[b]).key,
        ) by {
            if b < v.len() {
                assert(pv[a] == v[a] && pv[b] == v[b]);
            } else {
                assert(pv[a] == v[a]);
                let i = choose|i: int| 0 <= i < d.len() && v[a].key == d[i].meta.version;
                assert(d[i] == s[i]);
                assert(pv[b].key == s.last().meta.version);
            }
        }
    }
}

fn append_errors(st: &mut Build, es: &Vec<IndexError>)
    ensures
        final(st)@ == (BuildView { errors: old(st)@.errors + views(es@), ..old(st)@ }),
        final(st).families == old(st).families,
{
    let mut k: usize = 0;
    while k < es.len()
        invariant
            k <= es@.len(),
            st.families == old(st).families,
            st@.by_path == old(st)@.by_path,
            st@.errors == old(st)@.errors + views(es@).take(k as int),
        decreases es@.len() - k,
    {
        push_error(st, IndexError { path: owned(es[k].path.as_str()), message: owned(es[k].message.as_str()) });
        assert(views(es@).take(k + 1) =~= views(es@).take(k as int).push(es@[k as int]@));
        k = k + 1;
    }
    assert(views(es@).take(k as int) =~= views(es@));
}

fn process_group(st: &mut Build, g: Vec<LoadedFile>)
    requires
        old(st).wf(),
        forall|a: int, b: int|
            0 <= a < b < g@.len() ==> !version_lt(
                (#[trigger] views(g@)[b]).meta.version,
                (#[trigger] views(g@)[a]).meta.version,
            ),
    ensures
        final(st)@ == group_step(old(st)@, views(g@)),
        final(st).wf(),
{
    let ghost gv = views(g@);
    let dups = group_dup_errors(&g);
    if dups.len() > 0 {
        append_errors(st, &dups);
        return;
    }
    if g.len() == 0 {
        return;
    }
    proof {
        lemma_no_dups(gv, gv.len() as int);
        assert forall|i: int, j: int| 0 <= i < j < gv.len() implies version_lt(
            (#[trigger] gv[i]).meta.version,
            (#[trigger] gv[j]).meta.version,
        ) by {
            lemma_strict(gv, i, j);
        }
        lemma_parsed_strict(gv);
    }
    assert(gv[0] == g@[0]@);
    let slug = g[0].meta.slug.duplicate();
    let base = owned(g[0].meta.base.as_str());
    let category = owned(g[0].meta.category.as_str());
    let head_path = owned(g[0].meta.path.as_str());
    let fi = find_slug(&st.families, &slug);
    proof {
        lemma_first_index_facts(views(st.families@), family_slug_is(slug@));
    }
    if fi < st.families.len() {
        assert(views(st.families@)[fi as int] == st.families@[fi as int]@);
        assert(st.families@[fi as int].wf());
        let fam = &st.families[fi];
        assert(views(fam.versions@)[0] == fam.versions@[0]@);
        let mut msg = String::from_str("slug collision: ");
        push_str(&mut msg, slug.as_str());
        push_str(&mut msg, " (already used by ");
        push_str(&mut msg, fam.versions[0].path.as_str());
        push_str(&mut msg, ")");
        push_error(st, IndexError { path: head_path, message: msg });
        return;
    }
    let ghost st0 = st@;
    let mut versions: Vec<Version> = Vec::new();
    let n = g.len();
    let mut rest = g;
    let mut i: usize = 0;
    assert(gv.take(0) =~= Seq::<LoadedFileView>::empty());
    assert(views(versions@) =~= Seq::<VersionView>::empty());
    assert(st0.errors + parse_errors(gv.take(0)) =~= st0.errors);
    while i < n
        invariant
            n == gv.len(),
            i <= n,
            rest@.len() == n - i,
            forall|k: int| 0 <= k < n - i ==> (#[trigger] rest@[k])@ == gv[k + i],
            views(versions@) == parsed_versions(gv.take(i as int)),
            st@ == (BuildView { errors: st0.errors + parse_errors(gv.take(i as int)), ..st0 }),
            st.families == old(st).families,
            st.wf(),
        decreases n - i,
    {
        let f = rest.remove(0);
        assert(f@ == gv[i as int]);
        assert(gv.take(i + 1).drop_last() =~= gv.take(i as int));
        let LoadedFile { meta, source, mtime, parsed } = f;
        match parsed {
            Ok(o) => {
                let ghost before = views(versions@);
                versions.push(
                    Version {
                        key: meta.version,
                        path: meta.path,
                        explicit: meta.explicit_version,
                        mtime,
                        source,
                        parsed: o,
                    },
                );
                assert(views(versions@) =~= before.push(version_of(gv[i as int], o@)));
                assert(st0.errors + parse_errors(gv.take(i + 1)) =~= st0.errors + parse_errors(gv.take(i as int)));
            },
            Err(e) => {
                let m = e.message();
                push_error(st, IndexError { path: meta.path, message: m });
                assert(st0.errors + parse_errors(gv.take(i + 1)) =~= (st0.errors + parse_errors(gv.take(i as int))).push(
                    IndexErrorView { path: gv[i as int].meta.path, message: parse_error_message(e@) },
                ));
            },
        }
        i = i + 1;
    }
    assert(gv.take(n as int) =~= gv);
    if versions.len() == 0 {
        return;
    }
    let last = versions.len() - 1;
    assert(views(versions@)[last as int] == versions@[last as int]@);
    let title = match crate::recipe::recipe_title(&versions[last].parsed.recipe) {
        Some(t) => t,
        None => owned(base.as_str()),
    };
    let ghost vs = views(versions@);
    let ghost bp0 = st@.by_path;
    let mut k: usize = 0;
    while k < versions.len()
        invariant
            k <= versions@.len(),
            vs == views(versions@),
            st@.by_path == bp0 + path_entries(vs, slug@).take(k as int),
            st@.errors == st0.errors + parse_errors(gv),
            st.families == old(st).families,
            st.wf(),
        decreases versions@.len() - k,
    {
        let ghost before = st.by_path@;
        st.by_path.push((owned(versions[k].path.as_str()), slug.duplicate(), versions[k].key));
        assert(vs[k as int] == versions@[k as int]@);
        assert(super::by_path_view(st.by_path@) =~= super::by_path_view(before).push((vs[k as int].path, slug@, vs[k as int].key)));
        assert(path_entries(vs, slug@).take(k + 1) =~= path_entries(vs, slug@).take(k as int).push((vs[k as int].path, slug@, vs[k as int].key)));
        k = k + 1;
    }
    assert(path_entries(vs, slug@).take(k as int) =~= path_entries(vs, slug@));
    let fam = RecipeFamily { slug, base, category, title, versions };
    proof {
        assert forall|a: int, b: int| 0 <= a < b < fam.versions@.len() implies version_lt(
            fam.versions@[a].key,
            fam.versions@[b].key,
        ) by {
            assert(vs[a] == fam.versions@[a]@ && vs[b] == fam.versions@[b]@);
        }
        assert(fam.wf());
    }
    let ghost fams0 = st.families@;
    st.families.push(fam);
    proof {
        assert(views(st.families@) =~= views(fams0).push(fam@));
        assert forall|a: int, b: int| 0 <= a < b < st.families@.len() implies (#[trigger] st.families@[a]).slug@
            != (#[trigger] st.families@[b]).slug@ by {
            if b == fams0.len() {
                assert(views(fams0)[a] == fams0[a]@);
                assert(!family_slug_is(fam.slug@)(views(fams0)[a]));
            }
        }
        assert forall|a: int| 0 <= a < st.families@.len() implies (#[trigger] st.families@[a]).wf() by {
            if a < fams0.len() {
                assert(st.families@[a] == fams0[a]);
            }
        }
    }
}

/// What was found of the aisle file at the recipes root.
pub enum AisleInput {
    /// No such file.
    Missing,
    /// The file exists but could not be read (the I/O error's message).
    Unreadable(String),
    /// The file's text.
    Text(String),
}

/// View of the aisle input.
pub enum AisleInputView {
    Missing,
    Unreadable(Seq<char>),
    Text(Seq<char>),
}

impl View for AisleInput {
    type V = AisleInputView;

    open spec fn view(&self) -> AisleInputView {
        match self {
            AisleInput::Missing => AisleInputView::Missing,
            AisleInput::Unreadable(m) => AisleInputView::Unreadable(m@),
            AisleInput::Text(t) => AisleInputView::Text(t@),
        }
    }
}

/// `root.join("aisle.conf")` as text.
pub open spec fn aisle_path(root: Seq<char>) -> Seq<char> {
    if root.len() == 0 {
        "aisle.conf"@
    } else if root.last() == '/' {
        root + "aisle.conf"@
    } else {
        root + "/aisle.conf"@
    }
}

/// Messages reported against path `p`.
pub open spec fn at_path(p: Seq<char>, msgs: Seq<Seq<char>>) -> Seq<IndexErrorView> {
    Seq::new(msgs.len(), |i: int| IndexErrorView { path: p, message: msgs[i] })
}

/// The index built from the walk's errors and warnings, the loaded files and
/// the aisle file: groups applied in order of first appearance, then the
/// aisle file's problems reported against its path (its text kept when it parses).
pub open spec fn assemble_spec(
    root: Seq<char>,
    errors: Seq<IndexErrorView>,
    warnings: Seq<IndexErrorView>,
    files: Seq<LoadedFileView>,
    aisle: AisleInputView,
    now: Option<u64>,
) -> IndexView {
    let st = groups_fold(
        BuildView { families: Seq::empty(), by_path: Seq::empty(), errors },
        files,
        group_keys(files).len() as int,
    );
    let p = aisle_path(root);
    let (errs, warns, src) = match aisle {
        AisleInputView::Missing => (st.errors, warnings, None),
        AisleInputView::Unreadable(m) => (
            st.errors.push(IndexErrorView { path: p, message: "read aisle.conf: "@ + m }),
            warnings,
            None,
        ),
        AisleInputView::Text(t) => match aisle_parse_result(aisle_input(t)) {
            Ok((_, ws)) => (st.errors, warnings + at_path(p, ws), Some(t)),
            Err(es) => (st.errors + at_path(p, es), warnings, None),
        },
    };
    IndexView {
        root,
        families: st.families,
        by_path: st.by_path,
        errors: errs,
        warnings: warns,
        last_built: now,
        aisle_source: src,
    }
}

/// Every family has versions and is titled by the title its current (last,
/// highest) version declares, or by its base name when that version
/// declares none.
pub open spec fn titled_by_current(fs: Seq<FamilyView>) -> bool {
    forall|i: int|
        0 <= i < fs.len() ==> (#[trigger] fs[i]).versions.len() > 0 && fs[i].title == match fs[i].versions.last().parsed.recipe.title {
            Some(t) => t,
            None => fs[i].base,
        }
}

proof fn lemma_group_step_titles(st: BuildView, s: Seq<LoadedFileView>)
    requires
        titled_by_current(st.families),
    ensures
        titled_by_current(group_step(st, s).families),
{
    let r = group_step(st, s);
    assert forall|i: int| 0 <= i < r.families.len() implies (#[trigger] r.families[i]).versions.len() > 0
        && r.families[i].title == match r.families[i].versions.last().parsed.recipe.title {
        Some(t) => t,
        None => r.families[i].base,
    } by {
        if i < st.families.len() {
            assert(r.families[i] == st.families[i]);
        }
    }
}

proof fn lemma_groups_fold_titles(st: BuildView, files: Seq<LoadedFileView>, n: int)
    requires
        titled_by_current(st.families),
    ensures
        titled_by_current(groups_fold(st, files, n).families),
    decreases n,
{
    if n > 0 {
        lemma_groups_fold_titles(st, files, n - 1);
        lemma_group_step_titles(
            groups_fold(st, files, n - 1),
            sort_by_version(members(files, group_keys(files)[n - 1])),
        );
    }
}

/// A built family is titled by its current (highest) version: the title
/// that version declares, else the family's base name.
pub proof fn lemma_family_titled_by_current(
    root: Seq<char>,
    errors: Seq<IndexErrorView>,
    warnings: Seq<IndexErrorView>,
    files: Seq<LoadedFileView>,
    aisle: AisleInputView,
    now: Option<u64>,
)
    ensures
        titled_by_current(assemble_spec(root, errors, warnings, files, aisle, now).families),
{
    lemma_groups_fold_titles(
        BuildView { families: Seq::empty(), by_path: Seq::empty(), errors },
        files,
        group_keys(files).len() as int,
    );
}

fn aisle_path_exec(root: &str) -> (r: String)
    ensures
        r@ == aisle_path(root@),
{
    let n = root.unicode_len();
    let mut out = owned(root);
    if n == 0 {
        return String::from_str("aisle.conf");
    } else if root.get_char(n - 1) == '/' {
        push_str(&mut out, "aisle.conf");
    } else {
        push_str(&mut out, "/aisle.conf");
    }
    out
}

fn push_at_path(list: &mut Vec<IndexError>, p: &str, msgs: &Vec<String>)
    ensures
        views(final(list)@) == views(old(list)@) + at_path(p@, views(msgs@)),
{
    let mut k: usize = 0;
    while k < msgs.len()
        invariant
            k <= msgs@.len(),
            views(list@) == views(old(list)@) + at_path(p@, views(msgs@)).take(k as int),
        decreases msgs@.len() - k,
    {
        let ghost before = views(list@);
        list.push(IndexError { path: owned(p), message: owned(msgs[k].as_str()) });
        assert(views(list@) =~= before.push(IndexErrorView { path: p@, message: msgs@[k as int]@ }));
        assert(at_path(p@, views(msgs@)).take(k + 1) =~= at_path(p@, views(msgs@)).take(k as int).push(
            IndexErrorView { path: p@, message: msgs@[k as int]@ },
        ));
        k = k + 1;
    }
    assert(at_path(p@, views(msgs@)).take(k as int) =~= at_path(p@, views(msgs@)));
}

/// Build the index from what the walk found (see `assemble_spec`).
pub fn assemble_index(
    root: String,
    errors: Vec<IndexError>,
    warnings: Vec<IndexError>,
    files: Vec<LoadedFile>,
    aisle: AisleInput,
    now: Option<u64>,
) -> (r: Index)
    ensures
        r@ == assemble_spec(root@, views(errors@), views(warnings@), views(files@), aisle@, now),
        r.wf(),
{
    let ghost fv = views(files@);
    let ghost st_init = BuildView { families: Seq::empty(), by_path: Seq::empty(), errors: views(errors@) };
    let mut st = Build { families: Vec::new(), by_path: Vec::new(), errors };
    assert(st@.families =~= Seq::<FamilyView>::empty());
    assert(st@.by_path =~= Seq::<(Seq<char>, Seq<char>, VersionKey)>::empty());
    let groups = partition(files);
    let ghost keys = group_keys(fv);
    let n = groups.len();
    let mut rest = groups;
    let mut k: usize = 0;
    while k < n
        invariant
            n == keys.len(),
            keys == group_keys(fv),
            k <= n,
            rest@.len() == n - k,
            forall|j: int| 0 <= j < n - k ==> views((#[trigger] rest@[j])@) == members(fv, keys[j + k]),
            st@ == groups_fold(st_init, fv, k as int),
            st.wf(),
        decreases n - k,
    {
        let g = rest.remove(0);
        assert(views(g@) == members(fv, keys[k as int]));
        let sorted = sort_group(g);
        proof {
            lemma_sort_sorted(views(g@));
        }
        process_group(&mut st, sorted);
        k = k + 1;
    }
    let p = aisle_path_exec(root.as_str());
    let mut warnings = warnings;
    let mut aisle_source: Option<String> = None;
    let Build { families, by_path, errors: mut errs } = st;
    match aisle {
        AisleInput::Missing => {},
        AisleInput::Unreadable(m) => {
            let mut msg = String::from_str("read aisle.conf: ");
            push_str(&mut msg, m.as_str());
            let ghost before = views(errs@);
            errs.push(IndexError { path: p, message: msg });
            assert(views(errs@) =~= before.push(IndexErrorView { path: aisle_path(root@), message: "read aisle.conf: "@ + m@ }));
        },
        AisleInput::Text(t) => {
            match crate::shopping::aisle::parse_aisles(t.as_str()) {
                Ok((_, ws)) => {
                    push_at_path(&mut warnings, p.as_str(), &ws);
                    aisle_source = Some(t);
                },
                Err(es) => {
                    push_at_path(&mut errs, p.as_str(), &es);
                },
            }
        },
    }
    let r = Index { root, families, by_path, errors: errs, warnings, last_built: now, aisle_source };
    r
}

} // verus!
