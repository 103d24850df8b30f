//! Request handling: what each route answers, from the request's plain
//! values (path segments, query values, headers, body) and the index.

use super::render::{esc_spec, not_found, not_found_body, page_spec, url_spec, Layout};
use crate::text::{chars_of, owned, parse_u32, parse_u32_spec, push_range, push_str, str_eq, string_of_range, trim, trim_bounds, trim_end_char, trim_end_char_len, trimmed};
use crate::index::scan::find_char;
use crate::index::scan::{parse_version_spec, version_text, VersionKey};
use crate::index::slug::slug_of;
use crate::index::{FamilyView, Index, Slug};
use crate::recipe::views;
use crate::search::first_index;
use crate::index::IndexError;
use crate::shopping::render::{format_parse_spec, render_text_spec, render_with, Format, RenderOpts};
use crate::shopping::{aggregate, aggregated, family_is, parse_selection, selection_spec, version_is, Selection, SelectionView, ShoppingListView};
use super::store::{after_put, key_is, token_len, ttl_ms, ListStore, StoredListView};
use super::pages::{diff_body, diff_page, history_body, history_page, index_renderable, list_body, list_page, mtime_fits, recipe_body, recipe_view, shopping_body, shopping_page, version_renderable};
use vstd::prelude::*;
use vstd::utf8::{decode_utf8, encode_utf8, valid_utf8};

verus! {

/// `normalize_base_path`: trimmed; empty or `/` is `/`; otherwise with a
/// leading `/` and no trailing `/`.
pub open spec fn normalize_spec(s: Seq<char>) -> Seq<char> {
    let t = trim(s);
    if t.len() == 0 || t == seq!['/'] {
        seq!['/']
    } else {
        let w = if t[0] == '/' { t } else { seq!['/'] + t };
        trim_end_char(w, '/')
    }
}

/// The base path the app is mounted under, normalised.
pub fn normalize_base_path(s: &str) -> (r: String)
    ensures
        r@ == normalize_spec(s@),
{
    let t = trimmed(s);
    let tc = chars_of(t.as_str());
    if tc.len() == 0 || (tc.len() == 1 && tc[0] == '/') {
        proof {
            if tc@.len() == 1 && tc@[0] == '/' {
                assert(tc@ =~= seq!['/']);
            }
        }
        let mut out = String::new();
        out.push('/');
        assert(out@ =~= seq!['/']);
        return out;
    }
    proof {
        if tc@ == seq!['/'] {
            assert(tc@[0] == '/');
        }
    }
    let mut w: Vec<char> = Vec::new();
    if tc[0] != '/' {
        w.push('/');
    }
    let mut i: usize = 0;
    let ghost w0 = w@;
    while i < tc.len()
        invariant
            i <= tc@.len(),
            w@ == w0 + tc@.subrange(0, i as int),
        decreases tc@.len() - i,
    {
        w.push(tc[i]);
        assert(w@ =~= w0 + tc@.subrange(0, i + 1));
        i = i + 1;
    }
    assert(tc@.subrange(0, i as int) =~= tc@);
    assert(w@ =~= if tc@[0] == '/' { tc@ } else { seq!['/'] + tc@ });
    let n = trim_end_char_len(&w, '/');
    string_of_range(&w, 0, n)
}

/// Dropping trailing `c`s keeps a prefix, which ends in another character
/// when anything is left.
proof fn lemma_trim_end_char_prefix(w: Seq<char>, c: char)
    ensures
        trim_end_char(w, c).len() <= w.len(),
        forall|i: int| 0 <= i < trim_end_char(w, c).len() ==> #[trigger] trim_end_char(w, c)[i] == w[i],
        trim_end_char(w, c).len() > 0 ==> trim_end_char(w, c).last() != c,
    decreases w.len(),
{
    if w.len() > 0 && w.last() == c {
        lemma_trim_end_char_prefix(w.drop_last(), c);
    }
}

/// Normalising a normalised base path changes nothing, except on inputs
/// whose normalisation is empty (slashes only, as `//`) or ends in
/// whitespace (whitespace before trailing slashes, as `a /`). Such a path
/// starts with `/`, and ends with `/` only when it is `/`.
pub proof fn lemma_normalize_idempotent(s: Seq<char>)
    requires
        normalize_spec(s).len() > 0,
        !crate::text::is_ws(normalize_spec(s).last()),
    ensures
        normalize_spec(normalize_spec(s)) == normalize_spec(s),
        normalize_spec(s)[0] == '/',
        normalize_spec(s) == seq!['/'] || normalize_spec(s).last() != '/',
{
    let r = normalize_spec(s);
    let t = trim(s);
    if t.len() == 0 || t == seq!['/'] {
        assert(r == seq!['/']);
        assert(crate::text::trim_start(r) == r);
        assert(crate::text::trim_end(r) == r);
    } else {
        let w = if t[0] == '/' { t } else { seq!['/'] + t };
        assert(w[0] == '/');
        lemma_trim_end_char_prefix(w, '/');
        assert(r == trim_end_char(w, '/'));
        assert(r[0] == w[0]);
        assert(crate::text::trim_start(r) == r);
        assert(crate::text::trim_end(r) == r);
        assert(trim(r) == r);
        assert(r != seq!['/']) by {
            if r.len() == 1 {
                assert(r.last() == r[0]);
            }
        }
        assert(trim_end_char(r, '/') == r);
    }
}


/// `state_url`: the same rule as `Layout::url`.
pub fn state_url(base_path: &str, suffix: &str) -> (r: String)
    ensures
        r@ == url_spec(base_path@, suffix@),
{
    let l = Layout { base_path, title: "" };
    l.url(suffix)
}

/// The configured public URL without trailing `/`.
pub fn trim_public_url(u: Option<&str>) -> (r: Option<String>)
    ensures
        match u {
            Some(s) => r matches Some(t) && t@ == trim_end_char(s@, '/'),
            None => r is None,
        },
{
    match u {
        Some(s) => {
            let cs = chars_of(s);
            let n = trim_end_char_len(&cs, '/');
            Some(string_of_range(&cs, 0, n))
        },
        None => None,
    }
}

/// A header's presence and value: `None` when absent, `Some(None)` when
/// present but not visible ASCII, `Some(Some(v))` otherwise.
pub type HeaderValue<'a> = Option<Option<&'a str>>;

/// The text of a header that is present and readable.
pub open spec fn header_text(h: Option<Option<&str>>) -> Option<Seq<char>> {
    match h {
        Some(Some(v)) => Some(v@),
        _ => None,
    }
}

/// The absolute URL prefix for outgoing recipe links: the configured public
/// URL if any; otherwise `<scheme>://<host><base path>`, the scheme being
/// the first entry of `X-Forwarded-Proto` (trimmed) or `http`, the host
/// `X-Forwarded-Host` when present (else `Host`), or `localhost` when it
/// cannot be read.
pub open spec fn absolute_base_spec(
    public: Option<Seq<char>>,
    proto: Option<Seq<char>>,
    fwd_host: Option<Option<Seq<char>>>,
    host: Option<Seq<char>>,
    base_path: Seq<char>,
) -> Seq<char> {
    match public {
        Some(p) => p,
        None => {
            let scheme = match proto {
                Some(s) => trim(s.subrange(0, find_char(s, ','))),
                None => "http"@,
            };
            let h = match fwd_host {
                Some(f) => f,
                None => host,
            };
            let hs = match h {
                Some(x) => x,
                None => "localhost"@,
            };
            scheme + "://"@ + hs + trim_end_char(base_path, '/')
        },
    }
}

/// The view of a header.
pub open spec fn header_view(h: Option<Option<&str>>) -> Option<Option<Seq<char>>> {
    match h {
        Some(Some(v)) => Some(Some(v@)),
        Some(None) => Some(None),
        None => None,
    }
}

/// Absolute URL prefix for recipe links (see `absolute_base_spec`).
pub fn absolute_base_url(
    public_url: Option<&str>,
    forwarded_proto: Option<Option<&str>>,
    forwarded_host: Option<Option<&str>>,
    host: Option<Option<&str>>,
    base_path: &str,
) -> (r: String)
    ensures
        r@ == absolute_base_spec(
            match public_url {
                Some(p) => Some(p@),
                None => None,
            },
            header_text(forwarded_proto),
            header_view(forwarded_host),
            header_text(host),
            base_path@,
        ),
{
    match public_url {
        Some(p) => return owned(p),
        None => {},
    }
    let mut out = String::new();
    match forwarded_proto {
        Some(Some(s)) => {
            let cs = chars_of(s);
            let mut p: usize = 0;
            while p < cs.len() && cs[p] != ','
                invariant
                    p <= cs@.len(),
                    cs@ == s@,
                    forall|j: int| 0 <= j < p ==> cs@[j] != ',',
                decreases cs@.len() - p,
            {
                p = p + 1;
            }
            proof {
                crate::index::scan::lemma_find_char(cs@, ',', p as int);
            }
            let first = string_of_range(&cs, 0, p);
            let t = trimmed(first.as_str());
            push_str(&mut out, t.as_str());
        },
        _ => push_str(&mut out, "http"),
    }
    push_str(&mut out, "://");
    let h: Option<&str> = match forwarded_host {
        Some(f) => f,
        None => match host {
            Some(x) => x,
            None => None,
        },
    };
    match h {
        Some(x) => push_str(&mut out, x),
        None => push_str(&mut out, "localhost"),
    }
    let bc = chars_of(base_path);
    let n = trim_end_char_len(&bc, '/');
    push_range(&mut out, &bc, 0, n);
    out
}

/// An ASCII hexadecimal digit.
pub open spec fn is_hex(b: u8) -> bool {
    (0x30 <= b <= 0x39) || (0x41 <= b <= 0x46) || (0x61 <= b <= 0x66)
}

/// The value of an ASCII hexadecimal digit.
pub open spec fn hex_val(b: u8) -> int {
    if 0x30 <= b <= 0x39 {
        b - 0x30
    } else if 0x41 <= b <= 0x46 {
        b - 0x41 + 10
    } else {
        b - 0x61 + 10
    }
}

/// Bytes with each `%` followed by two hex digits replaced by the byte they
/// spell; every other byte kept.
pub open spec fn unescape_bytes(b: Seq<u8>) -> Seq<u8>
    decreases b.len(),
{
    if b.len() == 0 {
        Seq::empty()
    } else if b.len() >= 3 && b[0] == 0x25 && is_hex(b[1]) && is_hex(b[2]) {
        seq![(hex_val(b[1]) * 16 + hex_val(b[2])) as u8] + unescape_bytes(b.skip(3))
    } else {
        seq![b[0]] + unescape_bytes(b.skip(1))
    }
}

/// `s` with every `+` replaced by a space.
pub open spec fn plus_to_space(s: Seq<char>) -> Seq<char> {
    Seq::new(s.len(), |i: int| if s[i] == '+' { ' ' } else { s[i] })
}

/// What `String::from_utf8_lossy` makes of a byte sequence.
pub uninterp spec fn utf8_lossy(b: Seq<u8>) -> Seq<char>;

/// `String::from_utf8_lossy(b).into_owned()`: the text of the bytes, invalid
/// sequences replaced by U+FFFD. Valid UTF-8 decodes to its characters, as
/// its documentation states; the rest is named by `utf8_lossy`.
#[verifier::external_body]
fn from_utf8_lossy(b: &Vec<u8>) -> (r: String)
    ensures
        r@ == utf8_lossy(b@),
        valid_utf8(b@) ==> r@ == decode_utf8(b@),
{
    String::from_utf8_lossy(b.as_slice()).into_owned()
}

/// Form-value decoding: `+` is a space and `%XX` a byte, the bytes read as
/// UTF-8 with invalid sequences replaced.
pub open spec fn percent_decode_spec(s: Seq<char>) -> Seq<char> {
    utf8_lossy(unescape_bytes(encode_utf8(plus_to_space(s))))
}

fn hex_exec(b: u8) -> (r: Option<u8>)
    ensures
        match r {
            Some(v) => is_hex(b) && v == hex_val(b),
            None => !is_hex(b),
        },
{
    if 0x30 <= b && b <= 0x39 {
        Some(b - 0x30)
    } else if 0x41 <= b && b <= 0x46 {
        Some(b - 0x41 + 10)
    } else if 0x61 <= b && b <= 0x66 {
        Some(b - 0x61 + 10)
    } else {
        None
    }
}

fn unescape_exec(b: &Vec<u8>) -> (r: Vec<u8>)
    ensures
        r@ == unescape_bytes(b@),
{
    let mut out: Vec<u8> = Vec::new();
    let mut i: usize = 0;
    let n = b.len();
    assert(b@.skip(0) =~= b@);
    assert(out@ + unescape_bytes(b@.skip(0)) =~= unescape_bytes(b@));
    while i < n
        invariant
            n == b@.len(),
            i <= n,
            out@ + unescape_bytes(b@.skip(i as int)) == unescape_bytes(b@),
        decreases n - i,
    {
        let ghost rest = b@.skip(i as int);
        if b[i] == 0x25 && n - i > 2 {
            match (hex_exec(b[i + 1]), hex_exec(b[i + 2])) {
                (Some(h), Some(l)) => {
                    let v: u8 = h * 16 + l;
                    assert(rest[0] == b@[i as int] && rest[1] == b@[i + 1] && rest[2] == b@[i + 2]);
                    assert(rest.skip(3) =~= b@.skip(i + 3));
                    out.push(v);
                    i = i + 3;
                    continue;
                },
                _ => {
                    assert(rest[0] == b@[i as int] && rest[1] == b@[i + 1] && rest[2] == b@[i + 2]);
                },
            }
        }
        assert(rest[0] == b@[i as int]);
        assert(rest.skip(1) =~= b@.skip(i + 1));
        out.push(b[i]);
        i = i + 1;
    }
    assert(b@.skip(i as int) =~= Seq::<u8>::empty());
    assert(out@ =~= unescape_bytes(b@));
    out
}

/// Decode a form value (see `percent_decode_spec`).
pub fn percent_decode(s: &str) -> (r: String)
    ensures
        r@ == percent_decode_spec(s@),
{
    let cs = chars_of(s);
    let mut t = String::new();
    let mut i: usize = 0;
    while i < cs.len()
        invariant
            i <= cs@.len(),
            cs@ == s@,
            t@ == plus_to_space(s@).take(i as int),
        decreases cs@.len() - i,
    {
        if cs[i] == '+' {
            t.push(' ');
        } else {
            t.push(cs[i]);
        }
        assert(t@ =~= plus_to_space(s@).take(i + 1));
        i = i + 1;
    }
    assert(plus_to_space(s@).take(i as int) =~= plus_to_space(s@));
    let bytes = t.as_str().as_bytes_vec();
    let dec = unescape_exec(&bytes);
    from_utf8_lossy(&dec)
}

/// Split `p` at every `c` (the pieces, possibly empty).
pub open spec fn split_char(p: Seq<char>, c: char) -> Seq<Seq<char>>
    decreases p.len(),
{
    if p.len() == 0 {
        seq![Seq::<char>::empty()]
    } else {
        let r = split_char(p.drop_last(), c);
        if p.last() == c {
            r.push(Seq::<char>::empty())
        } else {
            r.update(r.len() - 1, r.last().push(p.last()))
        }
    }
}

/// Split characters at every `c`.
pub fn split_exec_pub(cs: &Vec<char>, c: char) -> (r: Vec<String>)
    ensures
        views(r@) == split_char(cs@, c),
{
    split_exec(cs, c)
}

proof fn lemma_split_char_nonempty(p: Seq<char>, c: char)
    ensures
        split_char(p, c).len() >= 1,
    decreases p.len(),
{
    if p.len() > 0 {
        lemma_split_char_nonempty(p.drop_last(), c);
    }
}

fn split_exec(cs: &Vec<char>, c: char) -> (r: Vec<String>)
    ensures
        views(r@) == split_char(cs@, c),
{
    let mut segs: Vec<String> = Vec::new();
    let mut cur = String::new();
    let mut i: usize = 0;
    assert(cs@.subrange(0, 0) =~= Seq::<char>::empty());
    assert(views(segs@).push(cur@) =~= split_char(Seq::<char>::empty(), c));
    while i < cs.len()
        invariant
            i <= cs@.len(),
            views(segs@).push(cur@) == split_char(cs@.subrange(0, i as int), c),
        decreases cs@.len() - i,
    {
        let ghost pre = cs@.subrange(0, i + 1);
        assert(pre.drop_last() =~= cs@.subrange(0, i as int));
        let ghost before = views(segs@).push(cur@);
        if cs[i] == c {
            let done = cur;
            segs.push(done);
            cur = String::new();
            assert(views(segs@).push(cur@) =~= before.push(Seq::<char>::empty()));
        } else {
            cur.push(cs[i]);
            assert(views(segs@).push(cur@) =~= before.update(before.len() - 1, before.last().push(cs@[i as int])));
        }
        i = i + 1;
    }
    assert(cs@.subrange(0, i as int) =~= cs@);
    let ghost before = views(segs@);
    segs.push(cur);
    assert(views(segs@) =~= before.push(cur@));
    segs
}

/// The shopping form: the selected recipes and the servings asked per slug.
pub struct ShoppingForm {
    pub slugs: Vec<String>,
    /// `(slug, servings)`, each slug once.
    pub servings: Vec<(String, u32)>,
    /// `(slug, batches)`, each slug once.
    pub multipliers: Vec<(String, u32)>,
}

/// View of the shopping form.
pub struct ShoppingFormView {
    pub slugs: Seq<Seq<char>>,
    pub servings: Seq<(Seq<char>, u32)>,
    pub multipliers: Seq<(Seq<char>, u32)>,
}

/// View of a list of `(slug, count)` pairs.
pub open spec fn counts_view(v: Seq<(String, u32)>) -> Seq<(Seq<char>, u32)> {
    Seq::new(v.len(), |i: int| (v[i].0@, v[i].1))
}

impl View for ShoppingForm {
    type V = ShoppingFormView;

    open spec fn view(&self) -> ShoppingFormView {
        ShoppingFormView {
            slugs: views(self.slugs@),
            servings: counts_view(self.servings@),
            multipliers: counts_view(self.multipliers@),
        }
    }
}

/// The servings entry of slug `k`.
pub open spec fn serving_is(k: Seq<char>) -> spec_fn((Seq<char>, u32)) -> bool {
    |e: (Seq<char>, u32)| e.0 == k
}

/// Servings `n` recorded for `k`, replacing an earlier value.
pub open spec fn set_serving(ss: Seq<(Seq<char>, u32)>, k: Seq<char>, n: u32) -> Seq<(Seq<char>, u32)> {
    let i = first_index(ss, serving_is(k));
    if i < ss.len() {
        ss.update(i, (k, n))
    } else {
        ss.push((k, n))
    }
}

/// The servings recorded for `k`, if any.
pub open spec fn serving_of(ss: Seq<(Seq<char>, u32)>, k: Seq<char>) -> Option<u32> {
    let i = first_index(ss, serving_is(k));
    if i < ss.len() {
        Some(ss[i].1)
    } else {
        None
    }
}

/// The part of `key` between `name` (ending in `[`) and a final `]`.
pub open spec fn bracketed(key: Seq<char>, name: Seq<char>) -> Option<Seq<char>> {
    if key.len() > name.len() && key.subrange(0, name.len() as int) == name && key.last() == ']' {
        Some(key.subrange(name.len() as int, key.len() - 1))
    } else {
        None
    }
}

/// A positive count recorded for `k`; anything else leaves `ss` as it is.
pub open spec fn set_count(ss: Seq<(Seq<char>, u32)>, k: Seq<char>, val: Seq<char>) -> Seq<(Seq<char>, u32)> {
    match parse_u32_spec(val) {
        Some(n) => if n > 0 {
            set_serving(ss, k, n)
        } else {
            ss
        },
        None => ss,
    }
}

/// One `key=value` pair of the form applied: `slugs[]` (or `slugs`) adds a
/// non-empty value; `servings[<slug>]` and `multiplier[<slug>]` record a
/// positive count; pairs without `=` and other keys are ignored. Keys and
/// values are decoded.
pub open spec fn form_step(f: ShoppingFormView, pair: Seq<char>) -> ShoppingFormView {
    let e = find_char(pair, '=');
    if pair.len() == 0 || e >= pair.len() {
        f
    } else {
        let key = percent_decode_spec(pair.subrange(0, e));
        let val = percent_decode_spec(pair.subrange(e + 1, pair.len() as int));
        if key == "slugs[]"@ || key == "slugs"@ {
            if val.len() > 0 {
                ShoppingFormView { slugs: f.slugs.push(val), ..f }
            } else {
                f
            }
        } else {
            match bracketed(key, "servings["@) {
                Some(k) => ShoppingFormView { servings: set_count(f.servings, k, val), ..f },
                None => match bracketed(key, "multiplier["@) {
                    Some(k) => ShoppingFormView { multipliers: set_count(f.multipliers, k, val), ..f },
                    None => f,
                },
            }
        }
    }
}

/// The first `n` pairs applied.
pub open spec fn form_fold(pairs: Seq<Seq<char>>, n: int) -> ShoppingFormView
    decreases n,
{
    if n <= 0 {
        ShoppingFormView { slugs: Seq::empty(), servings: Seq::empty(), multipliers: Seq::empty() }
    } else {
        form_step(form_fold(pairs, n - 1), pairs[n - 1])
    }
}

/// The form in a `&`-separated body.
pub open spec fn form_spec(body: Seq<char>) -> ShoppingFormView {
    let pairs = split_char(body, '&');
    form_fold(pairs, pairs.len() as int)
}

fn find_serving(ss: &Vec<(String, u32)>, k: &str) -> (r: usize)
    ensures
        r == first_index(counts_view(ss@), serving_is(k@)),
{
    let ghost sv = counts_view(ss@);
    let mut i: usize = 0;
    while i < ss.len()
        invariant
            i <= ss@.len(),
            sv == counts_view(ss@),
            forall|j: int| 0 <= j < i ==> !serving_is(k@)(#[trigger] sv[j]),
        decreases ss@.len() - i,
    {
        if str_eq(ss[i].0.as_str(), k) {
            proof {
                crate::search::lemma_first_index(sv, serving_is(k@), i as int);
            }
            return i;
        }
        i = i + 1;
    }
    proof {
        crate::search::lemma_first_index(sv, serving_is(k@), i as int);
    }
    i
}

/// `key` with `name` (ending in `[`) before it and `]` after it: the part
/// in between.
fn strip_bracketed(kc: &Vec<char>, name: &str) -> (r: Option<String>)
    ensures
        match r {
            Some(x) => bracketed(kc@, name@) == Some(x@),
            None => bracketed(kc@, name@) is None,
        },
{
    let nc = chars_of(name);
    let n = kc.len();
    if n <= nc.len() || kc[n - 1] != ']' {
        return None;
    }
    let mut j: usize = 0;
    while j < nc.len()
        invariant
            j <= nc@.len() < kc@.len(),
            nc@ == name@,
            forall|q: int| 0 <= q < j ==> kc@[q] == nc@[q],
        decreases nc@.len() - j,
    {
        if kc[j] != nc[j] {
            assert(kc@.subrange(0, nc@.len() as int)[j as int] != nc@[j as int]);
            return None;
        }
        j = j + 1;
    }
    assert(kc@.subrange(0, nc@.len() as int) =~= nc@);
    Some(string_of_range(kc, nc.len(), n - 1))
}

/// Record a positive count for `k` (see `set_count`).
fn record_count(ss: &mut Vec<(String, u32)>, k: String, val: &str)
    ensures
        counts_view(final(ss)@) == set_count(counts_view(old(ss)@), k@, val@),
{
    let vc = chars_of(val);
    let parsed = parse_u32(&vc, 0, vc.len());
    assert(vc@.subrange(0, vc@.len() as int) =~= vc@);
    if let Some(count) = parsed {
        if count > 0 {
            let ghost before = counts_view(ss@);
            let p = find_serving(ss, k.as_str());
            let ghost kv = k@;
            if p < ss.len() {
                ss.set(p, (k, count));
            } else {
                ss.push((k, count));
            }
            assert(counts_view(ss@) =~= set_serving(before, kv, count));
        }
    }
}

/// Parse the form-encoded body of a shopping request (see `form_spec`).
pub fn parse_shopping_form(body: &str) -> (r: ShoppingForm)
    ensures
        r@ == form_spec(body@),
{
    let cs = chars_of(body);
    let pairs = split_exec(&cs, '&');
    let ghost pv = views(pairs@);
    let mut out = ShoppingForm { slugs: Vec::new(), servings: Vec::new(), multipliers: Vec::new() };
    assert(out@.slugs =~= Seq::<Seq<char>>::empty());
    assert(out@.servings =~= Seq::<(Seq<char>, u32)>::empty());
    assert(out@.multipliers =~= Seq::<(Seq<char>, u32)>::empty());
    let mut i: usize = 0;
    while i < pairs.len()
        invariant
            i <= pairs@.len(),
            pv == views(pairs@),
            out@ == form_fold(pv, i as int),
        decreases pairs@.len() - i,
    {
        let pc = chars_of(pairs[i].as_str());
        assert(pv[i as int] == pc@);
        let mut e: usize = 0;
        while e < pc.len() && pc[e] != '='
            invariant
                e <= pc@.len(),
                forall|j: int| 0 <= j < e ==> pc@[j] != '=',
            decreases pc@.len() - e,
        {
            e = e + 1;
        }
        proof {
            crate::index::scan::lemma_find_char(pc@, '=', e as int);
        }
        let ghost before = out@;
        if pc.len() > 0 && e < pc.len() {
            let ks = string_of_range(&pc, 0, e);
            let vs = string_of_range(&pc, e + 1, pc.len());
            let key = percent_decode(ks.as_str());
            let val = percent_decode(vs.as_str());
            let kc = chars_of(key.as_str());
            if str_eq(key.as_str(), "slugs[]") || str_eq(key.as_str(), "slugs") {
                if val.unicode_len() > 0 {
                    out.slugs.push(val);
                    assert(out@.slugs =~= before.slugs.push(percent_decode_spec(pc@.subrange(e + 1, pc@.len() as int))));
                }
            } else {
                match strip_bracketed(&kc, "servings[") {
                    Some(k) => record_count(&mut out.servings, k, val.as_str()),
                    None => match strip_bracketed(&kc, "multiplier[") {
                        Some(k) => record_count(&mut out.multipliers, k, val.as_str()),
                        None => {},
                    },
                }
            }
        }
        assert(out@ == form_step(form_fold(pv, i as int), pv[i as int]));
        i = i + 1;
    }
    proof {
        lemma_split_char_nonempty(body@, '&');
    }
    out
}

/// What a route answers.
pub enum Reply {
    /// An HTML page with its status code.
    Page { status: u16, body: String },
    /// A `200` plain-text answer with its content type.
    Text { content_type: String, body: String },
    /// A redirect to a location.
    Redirect(String),
}

/// View of a reply.
pub enum ReplyView {
    Page(u16, Seq<char>),
    Text(Seq<char>, Seq<char>),
    Redirect(Seq<char>),
}

impl View for Reply {
    type V = ReplyView;

    open spec fn view(&self) -> ReplyView {
        match self {
            Reply::Page { status, body } => ReplyView::Page(*status, body@),
            Reply::Text { content_type, body } => ReplyView::Text(content_type@, body@),
            Reply::Redirect(l) => ReplyView::Redirect(l@),
        }
    }
}

/// The `404` page saying what is missing.
pub open spec fn not_found_view(bp: Seq<char>, what: Seq<char>) -> ReplyView {
    ReplyView::Page(404, page_spec(bp, "Not found"@, not_found_body(bp, what)))
}

/// A `404` page.
pub fn not_found_response(base_path: &str, what: &str) -> (r: Reply)
    ensures
        r@ == not_found_view(base_path@, what@),
{
    Reply::Page { status: 404, body: not_found(Layout { base_path, title: "Not found" }, what) }
}

/// Position of the family whose slug is that of `slug`.
pub open spec fn family_pos(idx: &Index, slug: Seq<char>) -> int {
    first_index(idx.families@, family_is(slug_of(slug)))
}

/// `No recipe with slug `<slug>``.
pub open spec fn no_recipe(slug: Seq<char>) -> Seq<char> {
    "No recipe with slug `"@ + slug_of(slug) + "`"@
}

fn lookup(idx: &Index, slug: &str) -> (r: (Option<usize>, Slug))
    ensures
        r.1@ == slug_of(slug@),
        match r.0 {
            Some(i) => i == family_pos(idx, slug@) && i < idx.families@.len(),
            None => family_pos(idx, slug@) >= idx.families@.len(),
        },
{
    let s = Slug::from_base(slug);
    let f = idx.find_family(&s);
    proof {
        match f {
            Some(i) => crate::search::lemma_first_index(idx.families@, family_is(slug_of(slug@)), i as int),
            None => crate::search::lemma_first_index(idx.families@, family_is(slug_of(slug@)), idx.families@.len() as int),
        }
    }
    (f, s)
}

fn no_recipe_reply(base_path: &str, s: &Slug) -> (r: Reply)
    ensures
        r@ == not_found_view(base_path@, "No recipe with slug `"@ + s@ + "`"@),
{
    let mut m = String::from_str("No recipe with slug `");
    push_str(&mut m, s.as_str());
    push_str(&mut m, "`");
    not_found_response(base_path, m.as_str())
}

/// The home page: all recipes by category.
pub fn home(idx: &Index, base_path: &str) -> (r: String)
    requires
        idx.wf(),
        crate::index::versions_total(idx.families@, idx.families@.len() as int) <= usize::MAX,
    ensures
        exists|gs: Seq<(Seq<char>, Seq<FamilyView>)>|
            crate::index::listing::grouped_by_category(views(idx.families@), gs) && r@ == page_spec(
                base_path@,
                "All recipes"@,
                list_body(
                    base_path@,
                    idx.families@.len(),
                    crate::index::versions_total(idx.families@, idx.families@.len() as int) as nat,
                    gs,
                ),
            ),
{
    list_page(Layout { base_path, title: "All recipes" }, idx)
}

/// `GET /r/<slug>`: the current version of the family.
pub fn recipe_latest(idx: &Index, base_path: &str, slug: &str) -> (r: Reply)
    requires
        idx.wf(),
        index_renderable(idx),
    ensures
        ({
            let fi = family_pos(idx, slug@);
            if fi >= idx.families@.len() {
                r@ == not_found_view(base_path@, no_recipe(slug@))
            } else {
                let f = idx.families@[fi];
                r@ == ReplyView::Page(
                    200,
                    page_spec(base_path@, f.title@, recipe_body(base_path@, f@, f.versions@.len() - 1)),
                )
            }
        }),
{
    let (found, s) = lookup(idx, slug);
    match found {
        None => no_recipe_reply(base_path, &s),
        Some(i) => {
            let family = &idx.families[i];
            assert(idx.families@[i as int].wf());
            let last = family.versions.len() - 1;
            assert(version_renderable(idx.families@[i as int].versions@[last as int]));
            Reply::Page { status: 200, body: recipe_view(Layout { base_path, title: family.title.as_str() }, family, last) }
        },
    }
}

/// `GET /r/<slug>/v/<version>`: one version of the family.
pub fn recipe_version(idx: &Index, base_path: &str, slug: &str, version: &str) -> (r: Reply)
    requires
        idx.wf(),
        index_renderable(idx),
    ensures
        ({
            let fi = family_pos(idx, slug@);
            if fi >= idx.families@.len() {
                r@ == not_found_view(base_path@, no_recipe(slug@))
            } else {
                let f = idx.families@[fi];
                match parse_version_spec(version@) {
                    None => r@ == not_found_view(base_path@, "Bad version `"@ + version@ + "`"@),
                    Some(k) => {
                        let vi = first_index(f.versions@, version_is(k));
                        if vi >= f.versions@.len() {
                            r@ == not_found_view(
                                base_path@,
                                "Version "@ + version@ + " not found for "@ + slug_of(slug@),
                            )
                        } else {
                            r@ == ReplyView::Page(200, page_spec(base_path@, f.title@, recipe_body(base_path@, f@, vi)))
                        }
                    },
                }
            }
        }),
{
    let (found, s) = lookup(idx, slug);
    match found {
        None => no_recipe_reply(base_path, &s),
        Some(i) => {
            let family = &idx.families[i];
            match VersionKey::parse(version) {
                None => {
                    let mut m = String::from_str("Bad version `");
                    push_str(&mut m, version);
                    push_str(&mut m, "`");
                    not_found_response(base_path, m.as_str())
                },
                Some(k) => match family.position(k) {
                    None => {
                        proof {
                            crate::search::lemma_first_index(family.versions@, version_is(k), family.versions@.len() as int);
                        }
                        let mut m = String::from_str("Version ");
                        push_str(&mut m, version);
                        push_str(&mut m, " not found for ");
                        push_str(&mut m, s.as_str());
                        not_found_response(base_path, m.as_str())
                    },
                    Some(p) => {
                        proof {
                            crate::search::lemma_first_index(family.versions@, version_is(k), p as int);
                        }
                        assert(version_renderable(idx.families@[i as int].versions@[p as int]));
                        Reply::Page { status: 200, body: recipe_view(Layout { base_path, title: family.title.as_str() }, family, p) }
                    },
                },
            }
        },
    }
}

/// `GET /r/<slug>/history`: the versions of the family.
pub fn recipe_history(idx: &Index, base_path: &str, slug: &str) -> (r: Reply)
    requires
        index_renderable(idx),
    ensures
        ({
            let fi = family_pos(idx, slug@);
            if fi >= idx.families@.len() {
                r@ == not_found_view(base_path@, no_recipe(slug@))
            } else {
                let f = idx.families@[fi];
                r@ == ReplyView::Page(200, page_spec(base_path@, f.title@, history_body(base_path@, f@)))
            }
        }),
{
    let (found, s) = lookup(idx, slug);
    match found {
        None => no_recipe_reply(base_path, &s),
        Some(i) => {
            let family = &idx.families[i];
            assert forall|v: int| 0 <= v < family.versions@.len() implies mtime_fits(#[trigger] family.versions@[v].mtime) by {
                assert(version_renderable(idx.families@[i as int].versions@[v]));
            }
            Reply::Page { status: 200, body: history_page(Layout { base_path, title: family.title.as_str() }, family) }
        },
    }
}

/// `lines` is the highlighted line diff of `old` into `new`.
pub open spec fn diff_lines_of(old: Seq<char>, new: Seq<char>, lines: Seq<crate::diff::DiffLine>) -> bool {
    &&& lines.len() == crate::diff::line_changes(old, new).len()
    &&& forall|i: int| 0 <= i < lines.len() ==> crate::diff::renders_change(#[trigger] lines[i], crate::diff::line_changes(old, new)[i])
}

/// `GET /r/<slug>/diff?from=<a>&to=<b>`: the diff between two versions.
pub fn recipe_diff(idx: &Index, base_path: &str, slug: &str, from: &str, to: &str) -> (r: Reply)
    ensures
        ({
            let fi = family_pos(idx, slug@);
            if fi >= idx.families@.len() {
                r@ == not_found_view(base_path@, no_recipe(slug@))
            } else {
                let f = idx.families@[fi];
                match (parse_version_spec(from@), parse_version_spec(to@)) {
                    (None, _) => r@ == not_found_view(base_path@, "Bad `from` version `"@ + from@ + "`"@),
                    (Some(_), None) => r@ == not_found_view(base_path@, "Bad `to` version `"@ + to@ + "`"@),
                    (Some(a), Some(b)) => {
                        let ai = first_index(f.versions@, version_is(a));
                        let bi = first_index(f.versions@, version_is(b));
                        if ai >= f.versions@.len() {
                            r@ == not_found_view(base_path@, "Version "@ + version_text(a) + " not found"@)
                        } else if bi >= f.versions@.len() {
                            r@ == not_found_view(base_path@, "Version "@ + version_text(b) + " not found"@)
                        } else {
                            exists|lines: Seq<crate::diff::DiffLine>|
                                diff_lines_of(f.versions@[ai].source@, f.versions@[bi].source@, lines) && r@
                                    == ReplyView::Page(
                                    200,
                                    page_spec(
                                        base_path@,
                                        f.title@,
                                        diff_body(
                                            base_path@,
                                            f.title@,
                                            f.slug@,
                                            a,
                                            b,
                                            "<div class=\"diff\">\n"@ + crate::diff::diff_lines_html(lines, lines.len() as int)
                                                + "</div>\n"@,
                                        ),
                                    ),
                                )
                        }
                    },
                }
            }
        }),
{
    let (found, s) = lookup(idx, slug);
    match found {
        None => no_recipe_reply(base_path, &s),
        Some(i) => {
            let family = &idx.families[i];
            let a = match VersionKey::parse(from) {
                Some(k) => k,
                None => {
                    let mut m = String::from_str("Bad `from` version `");
                    push_str(&mut m, from);
                    push_str(&mut m, "`");
                    return not_found_response(base_path, m.as_str());
                },
            };
            let b = match VersionKey::parse(to) {
                Some(k) => k,
                None => {
                    let mut m = String::from_str("Bad `to` version `");
                    push_str(&mut m, to);
                    push_str(&mut m, "`");
                    return not_found_response(base_path, m.as_str());
                },
            };
            let ai = match family.position(a) {
                Some(p) => p,
                None => {
                    proof {
                        crate::search::lemma_first_index(family.versions@, version_is(a), family.versions@.len() as int);
                    }
                    let mut m = String::from_str("Version ");
                    a.push_text(&mut m);
                    push_str(&mut m, " not found");
                    return not_found_response(base_path, m.as_str());
                },
            };
            proof {
                crate::search::lemma_first_index(family.versions@, version_is(a), ai as int);
            }
            let bi = match family.position(b) {
                Some(p) => p,
                None => {
                    proof {
                        crate::search::lemma_first_index(family.versions@, version_is(b), family.versions@.len() as int);
                    }
                    let mut m = String::from_str("Version ");
                    b.push_text(&mut m);
                    push_str(&mut m, " not found");
                    return not_found_response(base_path, m.as_str());
                },
            };
            proof {
                crate::search::lemma_first_index(family.versions@, version_is(b), bi as int);
            }
            let lines = crate::diff::unified_diff(family.versions[ai].source.as_str(), family.versions[bi].source.as_str());
            let html = crate::diff::render_html(lines.as_slice());
            let r = Reply::Page {
                status: 200,
                body: diff_page(Layout { base_path, title: family.title.as_str() }, family, a, b, html.as_str()),
            };
            assert(diff_lines_of(family.versions@[ai as int].source@, family.versions@[bi as int].source@, lines@));
            r
        },
    }
}

/// The selections of a form: each slug parsed, with the servings given for
/// its (parsed) slug as an override.
pub open spec fn form_selections(f: ShoppingFormView) -> Seq<SelectionView> {
    Seq::new(
        f.slugs.len(),
        |i: int|
            {
                let s = selection_spec(f.slugs[i]);
                SelectionView {
                    override_servings: serving_of(f.servings, s.slug),
                    multiplier: serving_of(f.multipliers, s.slug),
                    ..s
                }
            },
    )
}

/// `POST /shopping`: store the selected recipes and redirect to the list;
/// `404` when none is selected.
pub fn shopping_create(store: &mut ListStore, base_path: &str, body: &str, now: u64) -> (r: Reply)
    requires
        old(store).wf(),
    ensures
        final(store).wf(),
        ({
            let f = form_spec(body@);
            if f.slugs.len() == 0 {
                &&& r@ == not_found_view(base_path@, "No recipes selected."@)
                &&& final(store).entries() == old(store).entries()
            } else {
                let t = final(store).entries().last().0;
                &&& t.len() == token_len()
                &&& final(store).entries() == after_put(
                    old(store).entries(),
                    t,
                    StoredListView { selections: form_selections(f), created: now },
                )
                &&& r@ == ReplyView::Redirect(url_spec(base_path@, "/shopping/"@ + t))
            }
        }),
{
    let form = parse_shopping_form(body);
    if form.slugs.len() == 0 {
        return not_found_response(base_path, "No recipes selected.");
    }
    let ghost fv = form@;
    let mut selections: Vec<Selection> = Vec::new();
    let mut i: usize = 0;
    while i < form.slugs.len()
        invariant
            i <= form.slugs@.len(),
            fv == form@,
            selections@.len() == i,
            forall|k: int| 0 <= k < i ==> (#[trigger] selections@[k])@ == form_selections(fv)[k],
        decreases form.slugs@.len() - i,
    {
        let mut sel = parse_selection(form.slugs[i].as_str());
        assert(fv.slugs[i as int] == form.slugs@[i as int]@);
        let p = find_serving(&form.servings, sel.slug.as_str());
        if p < form.servings.len() {
            sel.override_servings = Some(form.servings[p].1);
        }
        let q = find_serving(&form.multipliers, sel.slug.as_str());
        if q < form.multipliers.len() {
            sel.multiplier = Some(form.multipliers[q].1);
        }
        selections.push(sel);
        i = i + 1;
    }
    assert(views(selections@) =~= form_selections(fv));
    let ghost es = store.entries();
    let token = store.put(selections, now);
    let mut suffix = String::from_str("/shopping/");
    push_str(&mut suffix, token.as_str());
    Reply::Redirect(state_url(base_path, suffix.as_str()))
}

/// The message for a missing or expired list.
pub open spec fn expired_message() -> Seq<char> {
    "This shopping list has expired. Generate it again from the home page."@
}

/// The format asked for: a known format name, else HTML.
pub open spec fn format_asked(f: Option<Seq<char>>) -> Format {
    match f {
        Some(s) => match format_parse_spec(s) {
            Some(x) => x,
            None => Format::Html,
        },
        None => Format::Html,
    }
}

/// The answer for stored list `l` rendered in format `fmt` with link base `abs`.
pub open spec fn list_reply(bp: Seq<char>, l: ShoppingListView, token: Seq<char>, fmt: Format, abs: Seq<char>) -> ReplyView {
    match fmt {
        Format::Text => ReplyView::Text("text/plain; charset=utf-8"@, render_text_spec(l, Some(abs))),
        Format::Html => ReplyView::Page(200, page_spec(bp, "Shopping list"@, shopping_body(bp, l, token, abs))),
    }
}

/// `GET /shopping/<token>`: the stored list aggregated against the index, as
/// plain text (`format=text`) or as a page; `404` once it has expired.
pub fn shopping_view(
    store: &mut ListStore,
    idx: &Index,
    base_path: &str,
    public_url: Option<&str>,
    forwarded_proto: Option<Option<&str>>,
    forwarded_host: Option<Option<&str>>,
    host: Option<Option<&str>>,
    token: &str,
    format: Option<&str>,
    now: u64,
) -> (r: Reply)
    requires
        old(store).wf(),
        idx.wf(),
    ensures
        final(store).wf(),
        ({
            let es = old(store).entries();
            let i = first_index(es, key_is(token@));
            let abs = absolute_base_spec(
                match public_url {
                    Some(p) => Some(p@),
                    None => None,
                },
                header_text(forwarded_proto),
                header_view(forwarded_host),
                header_text(host),
                base_path@,
            );
            let fmt = format_asked(
                match format {
                    Some(f) => Some(f@),
                    None => None,
                },
            );
            if i >= es.len() {
                r@ == not_found_view(base_path@, expired_message()) && final(store).entries() == es
            } else if (now as int) - (es[i].1.created as int) < ttl_ms() {
                &&& final(store).entries() == es.remove(i).push(es[i])
                &&& exists|l: ShoppingListView|
                    #[trigger] aggregated(idx.families@, crate::recipe::opt_view(idx.aisle_source), es[i].1.selections, l)
                        && r@ == list_reply(base_path@, l, token@, fmt, abs)
            } else {
                r@ == not_found_view(base_path@, expired_message()) && final(store).entries() == es.remove(i)
            }
        }),
{
    let stored = match store.get(token, now) {
        Some(s) => s,
        None => {
            return not_found_response(base_path, "This shopping list has expired. Generate it again from the home page.");
        },
    };
    let list = aggregate(idx, stored.selections.as_slice());
    let fmt = match format {
        Some(f) => match Format::parse(f) {
            Some(x) => x,
            None => Format::Html,
        },
        None => Format::Html,
    };
    let abs = absolute_base_url(public_url, forwarded_proto, forwarded_host, host, base_path);
    let opts = RenderOpts { recipe_link_base: Some(abs.as_str()) };
    let r = match fmt {
        Format::Text => {
            let body = render_with(&list, Format::Text, &opts);
            Reply::Text { content_type: owned(Format::Text.content_type()), body }
        },
        Format::Html => Reply::Page {
            status: 200,
            body: shopping_page(Layout { base_path, title: "Shopping list" }, &list, token, abs.as_str()),
        },
    };
    proof {
        let es = old(store).entries();
        let i = first_index(es, key_is(token@));
        assert(aggregated(idx.families@, crate::recipe::opt_view(idx.aisle_source), es[i].1.selections, list@));
    }
    r
}

/// A problem listed by the health check.
pub struct HealthError {
    pub path: String,
    pub message: String,
}

/// The health check's report.
pub struct HealthPayload {
    pub recipe_count: usize,
    pub family_count: usize,
    pub last_built_unix: Option<u64>,
    pub parse_errors: Vec<HealthError>,
    pub warnings: Vec<HealthError>,
}

/// The health check's answer.
pub enum Health {
    /// `503`: no index yet.
    NotBuilt,
    /// `200` with the report.
    Ready(HealthPayload),
}

fn health_errors(es: &Vec<IndexError>) -> (r: Vec<HealthError>)
    ensures
        r@.len() == es@.len(),
        forall|i: int| 0 <= i < r@.len() ==> (#[trigger] r@[i]).path@ == es@[i].path@ && r@[i].message@ == es@[i].message@,
{
    let mut out: Vec<HealthError> = Vec::new();
    let mut i: usize = 0;
    while i < es.len()
        invariant
            i <= es@.len(),
            out@.len() == i,
            forall|k: int| 0 <= k < i ==> (#[trigger] out@[k]).path@ == es@[k].path@ && out@[k].message@ == es@[k].message@,
        decreases es@.len() - i,
    {
        out.push(HealthError { path: owned(es[i].path.as_str()), message: owned(es[i].message.as_str()) });
        i = i + 1;
    }
    out
}

/// `GET /health`: counts, build time and the index's errors and warnings.
pub fn health(idx: &Index) -> (r: Health)
    requires
        crate::index::versions_total(idx.families@, idx.families@.len() as int) <= usize::MAX,
    ensures
        match idx.last_built {
            None => r is NotBuilt,
            Some(t) => r matches Health::Ready(p) && p.recipe_count == crate::index::versions_total(
                idx.families@,
                idx.families@.len() as int,
            ) && p.family_count == idx.families@.len() && p.last_built_unix == Some(t)
                && p.parse_errors@.len() == idx.errors@.len() && (forall|i: int|
                0 <= i < p.parse_errors@.len() ==> (#[trigger] p.parse_errors@[i]).path@ == idx.errors@[i].path@
                    && p.parse_errors@[i].message@ == idx.errors@[i].message@) && p.warnings@.len()
                == idx.warnings@.len() && (forall|i: int|
                0 <= i < p.warnings@.len() ==> (#[trigger] p.warnings@[i]).path@ == idx.warnings@[i].path@
                    && p.warnings@[i].message@ == idx.warnings@[i].message@),
        },
{
    match idx.last_built {
        None => Health::NotBuilt,
        Some(t) => Health::Ready(
            HealthPayload {
                recipe_count: idx.recipe_count(),
                family_count: idx.family_count(),
                last_built_unix: Some(t),
                parse_errors: health_errors(&idx.errors),
                warnings: health_errors(&idx.warnings),
            },
        ),
    }
}

} // verus!
