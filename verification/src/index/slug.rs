//! Recipe family slugs: the base name lowercased, spaces and underscores as `-`.

use crate::text::{ascii_lower, chars_of, lower_ascii, owned};
use vstd::prelude::*;

verus! {

/// The slug character for one base-name character.
pub open spec fn slug_char(c: char) -> char {
    let l = lower_ascii(c);
    if l == ' ' || l == '_' {
        '-'
    } else {
        l
    }
}

/// The slug of a base name: ASCII-lowercased, with `' '` and `'_'` replaced by `'-'`.
pub open spec fn slug_of(base: Seq<char>) -> Seq<char> {
    Seq::new(base.len(), |i: int| slug_char(base[i]))
}

/// URL-safe identifier of a recipe family.
#[derive(Debug, Clone, PartialEq, Eq, Hash, PartialOrd, Ord)]
pub struct Slug(String);

impl View for Slug {
    type V = Seq<char>;

    closed spec fn view(&self) -> Seq<char> {
        self.0@
    }
}

impl Slug {
    /// Derive the slug from a base name.
    pub fn from_base(base: &str) -> (r: Slug)
        ensures
            r@ == slug_of(base@),
    {
        let cs = chars_of(base);
        let mut s = String::new();
        let mut i: usize = 0;
        while i < cs.len()
            invariant
                i <= cs@.len(),
                cs@ == base@,
                s@ == slug_of(base@).subrange(0, i as int),
            decreases cs@.len() - i,
        {
            let c = ascii_lower(cs[i]);
            let out = if c == ' ' || c == '_' {
                '-'
            } else {
                c
            };
            s.push(out);
            assert(slug_of(base@).subrange(0, i + 1) =~= slug_of(base@).subrange(
                0,
                i as int,
            ).push(out));
            i = i + 1;
        }
        assert(slug_of(base@).subrange(0, i as int) =~= slug_of(base@));
        Slug(s)
    }

    /// The slug text.
    pub fn as_str(&self) -> (r: &str)
        ensures
            r@ == self@,
    {
        self.0.as_str()
    }

    /// The slug text as an owned `String` (its `Display` form).
    pub fn to_text(&self) -> (r: String)
        ensures
            r@ == self@,
    {
        owned(self.0.as_str())
    }

    /// A copy of this slug.
    pub fn duplicate(&self) -> (r: Slug)
        ensures
            r@ == self@,
    {
        Slug(self.to_text())
    }
}

/// Slugs are stable: deriving a slug from a slug gives the same slug.
pub proof fn lemma_slug_idempotent(base: Seq<char>)
    ensures
        slug_of(slug_of(base)) == slug_of(base),
{
    assert(slug_of(slug_of(base)) =~= slug_of(base));
}

/// A slug holds no ASCII uppercase letter, no space and no underscore.
pub proof fn lemma_slug_charset(base: Seq<char>)
    ensures
        forall|i: int|
            0 <= i < slug_of(base).len() ==> {
                let c = #[trigger] slug_of(base)[i];
                !('A' <= c && c <= 'Z') && c != ' ' && c != '_'
            },
{
}

} // verus!
