//! Recipe index: families of versioned recipe files.

pub mod assemble;
pub mod listing;
pub mod refresh;
pub mod watch;
pub mod scan;
pub mod slug;

pub use slug::Slug;

use crate::recipe::parse::{ParseOutcome, ParseOutcomeView};
use scan::VersionKey;
use vstd::prelude::*;

verus! {

/// One specific version of a recipe family.
#[derive(Debug, Clone)]
pub struct Version {
    pub key: VersionKey,
    pub path: String,
    pub explicit: bool,
    /// Modification time in whole seconds since the unix epoch, when known.
    pub mtime: Option<u64>,
    pub source: String,
    pub parsed: ParseOutcome,
}

/// View of a version.
pub struct VersionView {
    pub key: VersionKey,
    pub path: Seq<char>,
    pub explicit: bool,
    pub mtime: Option<u64>,
    pub source: Seq<char>,
    pub parsed: ParseOutcomeView,
}

impl View for Version {
    type V = VersionView;

    open spec fn view(&self) -> VersionView {
        VersionView {
            key: self.key,
            path: self.path@,
            explicit: self.explicit,
            mtime: self.mtime,
            source: self.source@,
            parsed: self.parsed@,
        }
    }
}

/// All versions of one recipe (grouped by base name), oldest first.
#[derive(Debug, Clone)]
pub struct RecipeFamily {
    pub slug: Slug,
    pub base: String,
    pub category: String,
    pub title: String,
    pub versions: Vec<Version>,
}

/// View of a recipe family.
pub struct FamilyView {
    pub slug: Seq<char>,
    pub base: Seq<char>,
    pub category: Seq<char>,
    pub title: Seq<char>,
    pub versions: Seq<VersionView>,
}

impl View for RecipeFamily {
    type V = FamilyView;

    open spec fn view(&self) -> FamilyView {
        FamilyView {
            slug: self.slug@,
            base: self.base@,
            category: self.category@,
            title: self.title@,
            versions: crate::recipe::views(self.versions@),
        }
    }
}

/// Versions strictly increase by key.
pub open spec fn versions_ordered(vs: Seq<Version>) -> bool {
    forall|i: int, j: int| 0 <= i < j < vs.len() ==> scan::version_lt(vs[i].key, vs[j].key)
}

impl RecipeFamily {
    /// A family has at least one version and its versions increase.
    pub open spec fn wf(&self) -> bool {
        &&& self.versions@.len() > 0
        &&& versions_ordered(self.versions@)
    }

    /// The current (highest) version.
    pub fn current(&self) -> (r: &Version)
        requires
            self.versions@.len() > 0,
        ensures
            *r == self.versions@.last(),
    {
        &self.versions[self.versions.len() - 1]
    }

    /// Position of the version with key `key`.
    pub fn position(&self, key: VersionKey) -> (r: Option<usize>)
        ensures
            match r {
                Some(i) => i < self.versions@.len() && self.versions@[i as int].key == key && forall|
                    j: int,
                | 0 <= j < i ==> self.versions@[j].key != key,
                None => forall|j: int|
                    0 <= j < self.versions@.len() ==> self.versions@[j].key != key,
            },
    {
        let mut i: usize = 0;
        while i < self.versions.len()
            invariant
                i <= self.versions@.len(),
                forall|j: int| 0 <= j < i ==> self.versions@[j].key != key,
            decreases self.versions@.len() - i,
        {
            if self.versions[i].key == key {
                return Some(i);
            }
            i = i + 1;
        }
        None
    }

    /// The version with key `key`, if the family has it.
    pub fn version(&self, key: VersionKey) -> (r: Option<&Version>)
        ensures
            match r {
                Some(v) => exists|i: int|
                    0 <= i < self.versions@.len() && self.versions@[i] == *v && v.key == key,
                None => forall|j: int|
                    0 <= j < self.versions@.len() ==> self.versions@[j].key != key,
            },
    {
        match self.position(key) {
            Some(i) => Some(&self.versions[i]),
            None => None,
        }
    }
}

/// In a well-formed family the current version is the highest: every other
/// version precedes it, and no two versions share a key.
pub proof fn lemma_current_is_highest(f: RecipeFamily)
    requires
        f.wf(),
    ensures
        forall|i: int|
            0 <= i < f.versions@.len() - 1 ==> scan::version_lt(
                #[trigger] f.versions@[i].key,
                f.versions@.last().key,
            ),
        forall|i: int, j: int|
            0 <= i < j < f.versions@.len() ==> (#[trigger] f.versions@[i]).key != (#[trigger] f.versions@[j]).key,
{
    assert forall|i: int| 0 <= i < f.versions@.len() - 1 implies scan::version_lt(
        #[trigger] f.versions@[i].key,
        f.versions@.last().key,
    ) by {
        assert(scan::version_lt(f.versions@[i].key, f.versions@[f.versions@.len() - 1].key));
    }
    assert forall|i: int, j: int| 0 <= i < j < f.versions@.len() implies (#[trigger] f.versions@[i]).key != (#[trigger] f.versions@[j]).key by {
        assert(scan::version_lt(f.versions@[i].key, f.versions@[j].key));
    }
}

/// The view of an index error or warning.
pub struct IndexErrorView {
    pub path: Seq<char>,
    pub message: Seq<char>,
}

/// A problem found while indexing, with the file it concerns.
#[derive(Debug, Clone)]
pub struct IndexError {
    pub path: String,
    pub message: String,
}

impl View for IndexError {
    type V = IndexErrorView;

    open spec fn view(&self) -> IndexErrorView {
        IndexErrorView { path: self.path@, message: self.message@ }
    }
}

/// The recipe index.
#[derive(Debug, Clone)]
pub struct Index {
    pub root: String,
    pub families: Vec<RecipeFamily>,
    /// Each indexed file's path with its family slug and version.
    pub by_path: Vec<(String, Slug, VersionKey)>,
    pub errors: Vec<IndexError>,
    pub warnings: Vec<IndexError>,
    /// When the index was built, in seconds since the unix epoch.
    pub last_built: Option<u64>,
    /// Contents of `aisle.conf` at the recipes root, if present and valid.
    pub aisle_source: Option<String>,
}

/// View of the index.
pub struct IndexView {
    pub root: Seq<char>,
    pub families: Seq<FamilyView>,
    pub by_path: Seq<(Seq<char>, Seq<char>, VersionKey)>,
    pub errors: Seq<IndexErrorView>,
    pub warnings: Seq<IndexErrorView>,
    pub last_built: Option<u64>,
    pub aisle_source: Option<Seq<char>>,
}

/// Views of the path index entries.
pub open spec fn by_path_view(v: Seq<(String, Slug, VersionKey)>) -> Seq<(Seq<char>, Seq<char>, VersionKey)> {
    Seq::new(v.len(), |i: int| (v[i].0@, v[i].1@, v[i].2))
}

impl View for Index {
    type V = IndexView;

    open spec fn view(&self) -> IndexView {
        IndexView {
            root: self.root@,
            families: crate::recipe::views(self.families@),
            by_path: by_path_view(self.by_path@),
            errors: crate::recipe::views(self.errors@),
            warnings: crate::recipe::views(self.warnings@),
            last_built: self.last_built,
            aisle_source: crate::recipe::opt_view(self.aisle_source),
        }
    }
}

/// Number of versions over `fams[0..n]`.
pub open spec fn versions_total(fams: Seq<RecipeFamily>, n: int) -> int
    decreases n,
{
    if n <= 0 {
        0
    } else {
        versions_total(fams, n - 1) + fams[n - 1].versions@.len()
    }
}

impl Index {
    /// Families are well formed and their slugs are distinct.
    pub open spec fn wf(&self) -> bool {
        &&& forall|i: int| 0 <= i < self.families@.len() ==> (#[trigger] self.families@[i]).wf()
        &&& forall|i: int, j: int|
            0 <= i < j < self.families@.len() ==> (#[trigger] self.families@[i]).slug@
                != (#[trigger] self.families@[j]).slug@
    }

    /// An empty index rooted at `root`.
    pub fn empty(root: String) -> (r: Index)
        ensures
            r.root == root,
            r.families@.len() == 0,
            r.by_path@.len() == 0,
            r.errors@.len() == 0,
            r.warnings@.len() == 0,
            r.last_built is None,
            r.aisle_source is None,
            r.wf(),
    {
        Index {
            root,
            families: Vec::new(),
            by_path: Vec::new(),
            errors: Vec::new(),
            warnings: Vec::new(),
            last_built: None,
            aisle_source: None,
        }
    }

    /// Number of recipe families.
    pub fn family_count(&self) -> (r: usize)
        ensures
            r == self.families@.len(),
    {
        self.families.len()
    }

    /// Number of recipe files (versions over all families).
    pub fn recipe_count(&self) -> (r: usize)
        requires
            versions_total(self.families@, self.families@.len() as int) <= usize::MAX,
        ensures
            r == versions_total(self.families@, self.families@.len() as int),
    {
        let mut total: usize = 0;
        let mut i: usize = 0;
        while i < self.families.len()
            invariant
                i <= self.families@.len(),
                total == versions_total(self.families@, i as int),
                versions_total(self.families@, self.families@.len() as int) <= usize::MAX,
            decreases self.families@.len() - i,
        {
            proof {
                lemma_versions_total_mono(self.families@, i + 1, self.families@.len() as int);
            }
            total = total + self.families[i].versions.len();
            i = i + 1;
        }
        total
    }

    /// Position of the family whose slug is `slug`.
    pub fn find_family(&self, slug: &Slug) -> (r: Option<usize>)
        ensures
            match r {
                Some(i) => i < self.families@.len() && self.families@[i as int].slug@ == slug@
                    && forall|j: int| 0 <= j < i ==> self.families@[j].slug@ != slug@,
                None => forall|j: int|
                    0 <= j < self.families@.len() ==> self.families@[j].slug@ != slug@,
            },
    {
        let mut i: usize = 0;
        while i < self.families.len()
            invariant
                i <= self.families@.len(),
                forall|j: int| 0 <= j < i ==> self.families@[j].slug@ != slug@,
            decreases self.families@.len() - i,
        {
            if crate::text::str_eq(self.families[i].slug.as_str(), slug.as_str()) {
                return Some(i);
            }
            i = i + 1;
        }
        None
    }
}

proof fn lemma_versions_total_mono(fams: Seq<RecipeFamily>, a: int, b: int)
    requires
        0 <= a <= b <= fams.len(),
    ensures
        versions_total(fams, a) <= versions_total(fams, b),
    decreases b - a,
{
    if a < b {
        lemma_versions_total_mono(fams, a, b - 1);
    }
}

} // verus!
