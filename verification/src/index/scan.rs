//! Recipe file names: `<base>[-v<MAJOR>[-<MINOR>]].cook` under a category directory.

use super::slug::{slug_of, Slug};
use crate::paths::{
    components, file_name, join, path_components, push_joined, relative_components,
    relative_start, texts,
};
use crate::text::{chars_of, dec, is_digit, owned, parse_u32, parse_u32_spec, push_dec, string_of_range};
use vstd::prelude::*;

verus! {

/// `(MAJOR, MINOR)`; an implicit minor is 0.
#[derive(Debug, Clone, Copy, PartialEq, Eq, Hash, PartialOrd, Ord, Structural)]
pub struct VersionKey {
    pub major: u32,
    pub minor: u32,
}

/// Versions order by major, then minor.
pub open spec fn version_lt(a: VersionKey, b: VersionKey) -> bool {
    a.major < b.major || (a.major == b.major && a.minor < b.minor)
}

/// Index of the first `c` in `s`, or `s.len()` if there is none.
pub open spec fn find_char(s: Seq<char>, c: char) -> int
    decreases s.len(),
{
    if s.len() == 0 {
        0
    } else if s[0] == c {
        0
    } else {
        1 + find_char(s.drop_first(), c)
    }
}

/// `find_char` is the first occurrence.
pub proof fn lemma_find_char(s: Seq<char>, c: char, p: int)
    requires
        0 <= p <= s.len(),
        forall|j: int| 0 <= j < p ==> s[j] != c,
        p == s.len() || s[p] == c,
    ensures
        find_char(s, c) == p,
    decreases s.len(),
{
    if s.len() > 0 && s[0] != c {
        lemma_find_char(s.drop_first(), c, p - 1);
    }
}

/// `VersionKey::parse`: `v<N>` or `v<N>-<M>` with `N`, `M` positive `u32`s.
pub open spec fn parse_version_spec(s: Seq<char>) -> Option<VersionKey> {
    if s.len() == 0 || s[0] != 'v' {
        None
    } else {
        let rest = s.drop_first();
        let p = find_char(rest, '-');
        let major = parse_u32_spec(rest.subrange(0, p));
        if p == rest.len() {
            match major {
                Some(m) => if m != 0 {
                    Some(VersionKey { major: m, minor: 0 })
                } else {
                    None
                },
                None => None,
            }
        } else {
            let after = rest.subrange(p + 1, rest.len() as int);
            let q = find_char(after, '-');
            let minor = parse_u32_spec(after.subrange(0, q));
            if q < after.len() {
                None
            } else {
                match (major, minor) {
                    (Some(m), Some(n)) => if m != 0 && n != 0 {
                        Some(VersionKey { major: m, minor: n })
                    } else {
                        None
                    },
                    _ => None,
                }
            }
        }
    }
}

/// The display form of a version: `v<N>`, or `v<N>-<M>` when the minor is not 0.
pub open spec fn version_text(k: VersionKey) -> Seq<char> {
    if k.minor == 0 {
        seq!['v'] + dec(k.major as nat)
    } else {
        seq!['v'] + dec(k.major as nat) + seq!['-'] + dec(k.minor as nat)
    }
}

/// A version read back from its display form is the same version: the
/// text that pages link to names the version it was made from.
pub proof fn lemma_version_text_round_trip(k: VersionKey)
    requires
        k.major >= 1,
    ensures
        parse_version_spec(version_text(k)) == Some(k),
{
    let s = version_text(k);
    let dm = dec(k.major as nat);
    crate::text::lemma_dec_digits(k.major as nat);
    crate::text::lemma_parse_dec(k.major);
    let rest = s.drop_first();
    if k.minor == 0 {
        assert(rest =~= dm);
        lemma_find_char(rest, '-', rest.len() as int);
        assert(rest.subrange(0, rest.len() as int) =~= dm);
    } else {
        let dn = dec(k.minor as nat);
        crate::text::lemma_dec_digits(k.minor as nat);
        crate::text::lemma_parse_dec(k.minor);
        assert(rest =~= dm + seq!['-'] + dn);
        assert forall|j: int| 0 <= j < dm.len() implies rest[j] != '-' by {
            assert(rest[j] == dm[j]);
            assert(crate::text::is_digit(dm[j]));
        }
        lemma_find_char(rest, '-', dm.len() as int);
        assert(rest.subrange(0, dm.len() as int) =~= dm);
        let after = rest.subrange(dm.len() as int + 1, rest.len() as int);
        assert(after =~= dn);
        assert forall|j: int| 0 <= j < dn.len() implies after[j] != '-' by {
            assert(crate::text::is_digit(dn[j]));
        }
        lemma_find_char(after, '-', after.len() as int);
        assert(after.subrange(0, after.len() as int) =~= dn);
    }
}

/// Position of the first `'-'` in `cs[lo..hi]`, relative to `lo` (or `hi - lo`).
fn find_dash(cs: &Vec<char>, lo: usize, hi: usize) -> (r: usize)
    requires
        lo <= hi <= cs@.len(),
    ensures
        r == find_char(cs@.subrange(lo as int, hi as int), '-'),
        lo + r <= hi,
{
    let ghost s = cs@.subrange(lo as int, hi as int);
    let mut i = lo;
    while i < hi && cs[i] != '-'
        invariant
            lo <= i <= hi <= cs@.len(),
            s == cs@.subrange(lo as int, hi as int),
            forall|j: int| 0 <= j < i - lo ==> s[j] != '-',
        decreases hi - i,
    {
        i = i + 1;
    }
    proof {
        lemma_find_char(s, '-', i - lo);
    }
    i - lo
}

impl VersionKey {
    /// The implicit version `v1`.
    pub fn v1() -> (r: VersionKey)
        ensures
            r == (VersionKey { major: 1, minor: 0 }),
    {
        VersionKey { major: 1, minor: 0 }
    }

    /// Parse `v1` or `v1-2`; `None` for anything else, a zero part included.
    pub fn parse(s: &str) -> (r: Option<VersionKey>)
        ensures
            r == parse_version_spec(s@),
    {
        let cs = chars_of(s);
        assert(cs@.subrange(0, cs@.len() as int) =~= cs@);
        Self::parse_chars(&cs, 0, cs.len())
    }

    /// `parse` on `cs[lo..hi]`.
    pub fn parse_chars(cs: &Vec<char>, lo: usize, hi: usize) -> (r: Option<VersionKey>)
        requires
            lo <= hi <= cs@.len(),
        ensures
            r == parse_version_spec(cs@.subrange(lo as int, hi as int)),
    {
        let ghost s = cs@.subrange(lo as int, hi as int);
        if lo == hi || cs[lo] != 'v' {
            return None;
        }
        let ghost rest = s.drop_first();
        assert(rest =~= cs@.subrange(lo + 1, hi as int));
        let p = find_dash(cs, lo + 1, hi);
        assert(rest.subrange(0, p as int) =~= cs@.subrange(lo + 1, lo + 1 + p));
        let major = parse_u32(cs, lo + 1, lo + 1 + p);
        if lo + 1 + p == hi {
            return match major {
                Some(m) => if m != 0 {
                    Some(VersionKey { major: m, minor: 0 })
                } else {
                    None
                },
                None => None,
            };
        }
        let a = lo + 2 + p;
        let ghost after = rest.subrange(p + 1, rest.len() as int);
        assert(after =~= cs@.subrange(a as int, hi as int));
        let q = find_dash(cs, a, hi);
        assert(after.subrange(0, q as int) =~= cs@.subrange(a as int, a + q));
        let minor = parse_u32(cs, a, a + q);
        if a + q < hi {
            return None;
        }
        match (major, minor) {
            (Some(m), Some(n)) => if m != 0 && n != 0 {
                Some(VersionKey { major: m, minor: n })
            } else {
                None
            },
            _ => None,
        }
    }

    /// Append the display form of this version.
    pub fn push_text(&self, out: &mut String)
        ensures
            final(out)@ == old(out)@ + version_text(*self),
    {
        out.push('v');
        push_dec(out, self.major as u128);
        if self.minor != 0 {
            out.push('-');
            push_dec(out, self.minor as u128);
        }
        assert(final(out)@ =~= old(out)@ + version_text(*self));
    }

    /// The display form: `v1` or `v1-2`.
    pub fn to_text(&self) -> (r: String)
        ensures
            r@ == version_text(*self),
    {
        let mut s = String::new();
        self.push_text(&mut s);
        s
    }

    /// Whether `self` orders before `other`.
    pub fn precedes(&self, other: &VersionKey) -> (r: bool)
        ensures
            r == version_lt(*self, *other),
    {
        self.major < other.major || (self.major == other.major && self.minor < other.minor)
    }
}

/// The view of a file-name error.
pub enum FilenameErrorView {
    NonUtf8(Seq<char>),
    NotCookFile(Seq<char>),
    MalformedVersion(Seq<char>),
    EmptyBase(Seq<char>),
}

/// Why a recipe file name was rejected.
#[derive(Debug, Clone)]
pub enum FilenameError {
    /// The path has no usable file name.
    NonUtf8(String),
    /// The file name does not end in `.cook`.
    NotCookFile(String),
    /// A `-v<digit>…` suffix that is not a valid version.
    MalformedVersion(String),
    /// Nothing before the version suffix.
    EmptyBase(String),
}

impl View for FilenameError {
    type V = FilenameErrorView;

    open spec fn view(&self) -> FilenameErrorView {
        match self {
            FilenameError::NonUtf8(s) => FilenameErrorView::NonUtf8(s@),
            FilenameError::NotCookFile(s) => FilenameErrorView::NotCookFile(s@),
            FilenameError::MalformedVersion(s) => FilenameErrorView::MalformedVersion(s@),
            FilenameError::EmptyBase(s) => FilenameErrorView::EmptyBase(s@),
        }
    }
}

impl FilenameError {
    /// The error message.
    pub fn message(&self) -> (r: String)
        ensures
            r@ == filename_error_message(self@),
    {
        let mut out = String::new();
        match self {
            FilenameError::NonUtf8(p) => {
                crate::text::push_str(&mut out, "non-UTF8 filename: ");
                crate::text::push_str(&mut out, p.as_str());
            },
            FilenameError::NotCookFile(p) => {
                crate::text::push_str(&mut out, "not a .cook file: ");
                crate::text::push_str(&mut out, p.as_str());
            },
            FilenameError::MalformedVersion(s) => {
                crate::text::push_str(&mut out, "malformed version suffix in \"");
                crate::text::push_str(&mut out, s.as_str());
                crate::text::push_str(&mut out, "\"; expected -v<N> or -v<N>-<M>");
            },
            FilenameError::EmptyBase(s) => {
                crate::text::push_str(&mut out, "empty recipe base name in \"");
                crate::text::push_str(&mut out, s.as_str());
                crate::text::push_str(&mut out, "\"");
            },
        }
        out
    }
}

/// The message of a file-name error.
pub open spec fn filename_error_message(e: FilenameErrorView) -> Seq<char> {
    match e {
        FilenameErrorView::NonUtf8(p) => "non-UTF8 filename: "@ + p,
        FilenameErrorView::NotCookFile(p) => "not a .cook file: "@ + p,
        FilenameErrorView::MalformedVersion(s) => "malformed version suffix in \""@ + s
            + "\"; expected -v<N> or -v<N>-<M>"@,
        FilenameErrorView::EmptyBase(s) => "empty recipe base name in \""@ + s + "\""@,
    }
}

/// Start of the last `"-v"` in `s`, or `-1`.
pub open spec fn rfind_dash_v(s: Seq<char>) -> int
    decreases s.len(),
{
    if s.len() < 2 {
        -1
    } else if s[s.len() - 2] == '-' && s[s.len() - 1] == 'v' {
        s.len() - 2
    } else {
        rfind_dash_v(s.drop_last())
    }
}

/// A stem without a version suffix: implicit `v1`, unless it is empty.
pub open spec fn unversioned(stem: Seq<char>) -> Result<(Seq<char>, VersionKey, bool), FilenameErrorView> {
    if stem.len() == 0 {
        Err(FilenameErrorView::EmptyBase(stem))
    } else {
        Ok((stem, VersionKey { major: 1, minor: 0 }, false))
    }
}

/// Split a stem into `(base, version, has_explicit_version)`.
pub open spec fn split_version_spec(stem: Seq<char>) -> Result<(Seq<char>, VersionKey, bool), FilenameErrorView> {
    let p = rfind_dash_v(stem);
    if p >= 0 {
        match parse_version_spec(stem.subrange(p + 1, stem.len() as int)) {
            Some(v) => if p == 0 {
                Err(FilenameErrorView::EmptyBase(stem))
            } else {
                Ok((stem.subrange(0, p), v, true))
            },
            None => if p + 2 < stem.len() && is_digit(stem[p + 2]) {
                Err(FilenameErrorView::MalformedVersion(stem))
            } else {
                unversioned(stem)
            },
        }
    } else {
        unversioned(stem)
    }
}

/// View of a split result.
pub open spec fn split_view(r: Result<(String, VersionKey, bool), FilenameError>) -> Result<(Seq<char>, VersionKey, bool), FilenameErrorView> {
    match r {
        Ok((b, v, e)) => Ok((b@, v, e)),
        Err(e) => Err(e@),
    }
}

proof fn lemma_rfind_range(s: Seq<char>)
    ensures
        rfind_dash_v(s) == -1 || (0 <= rfind_dash_v(s) && rfind_dash_v(s) + 2 <= s.len()),
    decreases s.len(),
{
    if s.len() >= 2 && !(s[s.len() - 2] == '-' && s[s.len() - 1] == 'v') {
        lemma_rfind_range(s.drop_last());
    }
}

/// Position of the last `"-v"` in `cs`.
fn rfind_dash_v_exec(cs: &Vec<char>) -> (r: Option<usize>)
    ensures
        match r {
            Some(p) => p == rfind_dash_v(cs@) && p + 2 <= cs@.len(),
            None => rfind_dash_v(cs@) == -1,
        },
{
    let mut k = cs.len();
    assert(cs@.subrange(0, k as int) =~= cs@);
    while k >= 2 && !(cs[k - 2] == '-' && cs[k - 1] == 'v')
        invariant
            k <= cs@.len(),
            rfind_dash_v(cs@) == rfind_dash_v(cs@.subrange(0, k as int)),
        decreases k,
    {
        assert(cs@.subrange(0, k as int).drop_last() =~= cs@.subrange(0, k - 1));
        k = k - 1;
    }
    if k >= 2 {
        Some(k - 2)
    } else {
        None
    }
}

/// Split a stem into `(base, version, has_explicit_version)`.
///
/// `food-v1` is `("food", v1, true)`, `food-v1-2` is `("food", v1-2, true)`,
/// `food` is `("food", v1, false)`.
pub fn split_version_suffix(stem: &str) -> (r: Result<(String, VersionKey, bool), FilenameError>)
    ensures
        split_view(r) == split_version_spec(stem@),
{
    let cs = chars_of(stem);
    let found = rfind_dash_v_exec(&cs);
    if found.is_some() {
        let pos = found.unwrap();
        let n = cs.len();
        assert(pos + 2 <= n);
        match VersionKey::parse_chars(&cs, pos + 1, cs.len()) {
            Some(v) => {
                if pos == 0 {
                    return Err(FilenameError::EmptyBase(owned(stem)));
                }
                return Ok((string_of_range(&cs, 0, pos), v, true));
            },
            None => {
                if pos + 2 < cs.len() && '0' <= cs[pos + 2] && cs[pos + 2] <= '9' {
                    return Err(FilenameError::MalformedVersion(owned(stem)));
                }
            },
        }
    }
    if cs.len() == 0 {
        return Err(FilenameError::EmptyBase(owned(stem)));
    }
    Ok((owned(stem), VersionKey::v1(), false))
}

/// Parsed information about a recipe file's path.
#[derive(Debug, Clone)]
pub struct RecipeFileMeta {
    pub path: String,
    /// Relative directory portion, `/`-joined; empty for the root.
    pub category: String,
    /// Base name (before slugging).
    pub base: String,
    pub slug: Slug,
    pub version: VersionKey,
    pub explicit_version: bool,
}

/// The view of file metadata.
pub struct RecipeFileMetaView {
    pub path: Seq<char>,
    pub category: Seq<char>,
    pub base: Seq<char>,
    pub slug: Seq<char>,
    pub version: VersionKey,
    pub explicit_version: bool,
}

impl View for RecipeFileMeta {
    type V = RecipeFileMetaView;

    open spec fn view(&self) -> RecipeFileMetaView {
        RecipeFileMetaView {
            path: self.path@,
            category: self.category@,
            base: self.base@,
            slug: self.slug@,
            version: self.version,
            explicit_version: self.explicit_version,
        }
    }
}

/// `".cook"`.
pub open spec fn cook_ext() -> Seq<char> {
    seq!['.', 'c', 'o', 'o', 'k']
}

/// What `parse_recipe_path(root, full)` yields.
pub open spec fn parse_recipe_path_spec(root: Seq<char>, full: Seq<char>) -> Result<RecipeFileMetaView, FilenameErrorView> {
    let rel = relative_components(components(root), components(full));
    match file_name(rel) {
        None => Err(FilenameErrorView::NonUtf8(full)),
        Some(name) => if name.len() < 5 || name.subrange(name.len() - 5, name.len() as int)
            != cook_ext() {
            Err(FilenameErrorView::NotCookFile(full))
        } else {
            let stem = name.subrange(0, name.len() - 5);
            match split_version_spec(stem) {
                Err(e) => Err(e),
                Ok((base, version, explicit)) => Ok(
                    RecipeFileMetaView {
                        path: full,
                        category: join(rel.drop_last(), seq!['/']),
                        base,
                        slug: slug_of(base),
                        version,
                        explicit_version: explicit,
                    },
                ),
            }
        },
    }
}

/// View of a `parse_recipe_path` result.
pub open spec fn meta_result_view(r: Result<RecipeFileMeta, FilenameError>) -> Result<RecipeFileMetaView, FilenameErrorView> {
    match r {
        Ok(m) => Ok(m@),
        Err(e) => Err(e@),
    }
}

/// Parse a `.cook` file path under `root`; `Err` if the file name doesn't
/// match the version-suffix grammar.
pub fn parse_recipe_path(root: &str, full: &str) -> (r: Result<RecipeFileMeta, FilenameError>)
    ensures
        meta_result_view(r) == parse_recipe_path_spec(root@, full@),
{
    let rc = path_components(root);
    let fc = path_components(full);
    let start = relative_start(&rc, &fc);
    let ghost rel = texts(fc@.subrange(start as int, fc@.len() as int));
    if start == fc.len() {
        return Err(FilenameError::NonUtf8(owned(full)));
    }
    let name = &fc[fc.len() - 1];
    assert(rel.last() == name@);
    let is_root = name.len() == 1 && name[0] == '/';
    let is_dot = name.len() == 1 && name[0] == '.';
    let is_dotdot = name.len() == 2 && name[0] == '.' && name[1] == '.';
    if is_root || is_dot || is_dotdot {
        proof {
            if is_root { assert(name@ =~= seq!['/']); }
            if is_dot { assert(name@ =~= seq!['.']); }
            if is_dotdot { assert(name@ =~= seq!['.', '.']); }
        }
        return Err(FilenameError::NonUtf8(owned(full)));
    }
    proof {
        assert(name@ != seq!['/']) by { if name@ == seq!['/'] { assert(name@[0] == '/'); } };
        assert(name@ != seq!['.']) by { if name@ == seq!['.'] { assert(name@[0] == '.'); } };
        assert(name@ != seq!['.', '.']) by { if name@ == seq!['.', '.'] { assert(name@[1] == '.'); } };
    }
    let n = name.len();
    if n < 5 || !(name[n - 5] == '.' && name[n - 4] == 'c' && name[n - 3] == 'o' && name[n - 2]
        == 'o' && name[n - 1] == 'k') {
        proof {
            if n >= 5 {
                let t = name@.subrange(n - 5, n as int);
                if t == cook_ext() {
                    assert(t[0] == '.' && t[1] == 'c' && t[2] == 'o' && t[3] == 'o' && t[4] == 'k');
                }
            }
        }
        return Err(FilenameError::NotCookFile(owned(full)));
    }
    assert(name@.subrange(n - 5, n as int) =~= cook_ext());
    let stem = string_of_range(name, 0, n - 5);
    match split_version_suffix(stem.as_str()) {
        Err(e) => Err(e),
        Ok((base, version, explicit)) => {
            let mut category = String::new();
            push_joined(&mut category, &fc, start, fc.len() - 1);
            assert(texts(fc@.subrange(start as int, fc@.len() - 1)) =~= rel.drop_last());
            let slug = Slug::from_base(base.as_str());
            Ok(RecipeFileMeta {
                path: owned(full),
                category,
                base,
                slug,
                version,
                explicit_version: explicit,
            })
        },
    }
}

} // verus!
