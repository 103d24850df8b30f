//! Stored shopping lists: a least-recently-used cache of 256 entries keyed
//! by short random tokens, each entry living one hour.
//!
//! The cache is the `lru` crate's; its contents are modelled as the entries
//! in recency order (least recently used first). Time is a millisecond
//! count from a monotonic clock, supplied by the caller.

use crate::index::scan::VersionKey;
use crate::recipe::views;
use crate::search::{first_index, lemma_first_index_facts};
use crate::shopping::{Selection, SelectionView};
use crate::text::owned;
use rand::Rng;
use vstd::prelude::*;

verus! {

/// Entries kept.
pub open spec fn capacity() -> nat {
    256
}

/// Milliseconds an entry lives.
pub open spec fn ttl_ms() -> nat {
    3_600_000
}

/// Characters in a token.
pub open spec fn token_len() -> nat {
    12
}

/// Selections stored under a token, with the time they were stored.
#[derive(Debug)]
pub struct StoredList {
    pub selections: Vec<Selection>,
    /// Milliseconds on the caller's monotonic clock.
    pub created: u64,
}

/// View of a stored list.
pub struct StoredListView {
    pub selections: Seq<SelectionView>,
    pub created: u64,
}

impl View for StoredList {
    type V = StoredListView;

    open spec fn view(&self) -> StoredListView {
        StoredListView { selections: views(self.selections@), created: self.created }
    }
}

fn copy_selection(s: &Selection) -> (r: Selection)
    ensures
        r@ == s@,
{
    Selection {
        slug: owned(s.slug.as_str()),
        version: s.version,
        override_servings: s.override_servings,
        multiplier: s.multiplier,
    }
}

impl StoredList {
    /// A copy of this stored list.
    pub fn duplicate(&self) -> (r: StoredList)
        ensures
            r@ == self@,
    {
        let mut out: Vec<Selection> = Vec::new();
        let mut i: usize = 0;
        while i < self.selections.len()
            invariant
                i <= self.selections@.len(),
                views(out@) == views(self.selections@).take(i as int),
            decreases self.selections@.len() - i,
        {
            let ghost before = views(out@);
            out.push(copy_selection(&self.selections[i]));
            assert(views(out@) =~= before.push(self.selections@[i as int]@));
            assert(views(out@) =~= views(self.selections@).take(i + 1));
            i = i + 1;
        }
        assert(views(self.selections@).take(i as int) =~= views(self.selections@));
        StoredList { selections: out, created: self.created }
    }
}

#[verifier::external_type_specification]
#[verifier::external_body]
#[verifier::reject_recursive_types(K)]
#[verifier::reject_recursive_types(V)]
#[verifier::reject_recursive_types(S)]
pub struct ExLruCache<K, V, S>(lru::LruCache<K, V, S>);

/// The entries of a cache, least recently used first.
pub uninterp spec fn lru_entries(c: lru::LruCache<String, StoredList, std::collections::hash_map::RandomState>) -> Seq<(Seq<char>, StoredListView)>;

/// The capacity a cache was made with.
pub uninterp spec fn lru_cap(c: lru::LruCache<String, StoredList, std::collections::hash_map::RandomState>) -> nat;

/// The entry with key `k`.
pub open spec fn key_is(k: Seq<char>) -> spec_fn((Seq<char>, StoredListView)) -> bool {
    |e: (Seq<char>, StoredListView)| e.0 == k
}

/// `LruCache::with_hasher(NonZeroUsize::new(cap).unwrap(), RandomState::new())`:
/// an empty cache of capacity `cap`.
#[verifier::external_body]
fn lru_new(cap: usize) -> (r: lru::LruCache<String, StoredList, std::collections::hash_map::RandomState>)
    requires
        cap > 0,
    ensures
        lru_entries(r) == Seq::<(Seq<char>, StoredListView)>::empty(),
        lru_cap(r) == cap,
{
    lru::LruCache::with_hasher(std::num::NonZeroUsize::new(cap).unwrap(), std::collections::hash_map::RandomState::new())
}

/// `LruCache::put`: an existing key gets the new value and becomes the most
/// recently used, its old value returned; a new key is added as the most
/// recently used, the least recently used entry evicted first when the
/// cache is full, and nothing is returned.
#[verifier::external_body]
fn lru_put(c: &mut lru::LruCache<String, StoredList, std::collections::hash_map::RandomState>, k: String, v: StoredList) -> (r: Option<StoredList>)
    ensures
        lru_cap(*final(c)) == lru_cap(*old(c)),
        ({
            let es = lru_entries(*old(c));
            let i = first_index(es, key_is(k@));
            if i < es.len() {
                &&& lru_entries(*final(c)) == es.remove(i).push((k@, v@))
                &&& r matches Some(o) && o@ == es[i].1
            } else if es.len() >= lru_cap(*old(c)) {
                &&& lru_entries(*final(c)) == es.drop_first().push((k@, v@))
                &&& r is None
            } else {
                &&& lru_entries(*final(c)) == es.push((k@, v@))
                &&& r is None
            }
        }),
{
    c.put(k, v)
}

/// `LruCache::get` (the value copied): a present key becomes the most
/// recently used and its value is returned; otherwise nothing changes.
#[verifier::external_body]
fn lru_get(c: &mut lru::LruCache<String, StoredList, std::collections::hash_map::RandomState>, k: &str) -> (r: Option<StoredList>)
    ensures
        lru_cap(*final(c)) == lru_cap(*old(c)),
        ({
            let es = lru_entries(*old(c));
            let i = first_index(es, key_is(k@));
            if i < es.len() {
                &&& lru_entries(*final(c)) == es.remove(i).push(es[i])
                &&& r matches Some(o) && o@ == es[i].1
            } else {
                &&& lru_entries(*final(c)) == es
                &&& r is None
            }
        }),
{
    c.get(k).map(|s| StoredList { selections: s.selections.clone(), created: s.created })
}

/// `LruCache::pop`: a present key is removed and its value returned;
/// otherwise nothing changes.
#[verifier::external_body]
fn lru_pop(c: &mut lru::LruCache<String, StoredList, std::collections::hash_map::RandomState>, k: &str) -> (r: Option<StoredList>)
    ensures
        lru_cap(*final(c)) == lru_cap(*old(c)),
        ({
            let es = lru_entries(*old(c));
            let i = first_index(es, key_is(k@));
            if i < es.len() {
                &&& lru_entries(*final(c)) == es.remove(i)
                &&& r matches Some(o) && o@ == es[i].1
            } else {
                &&& lru_entries(*final(c)) == es
                &&& r is None
            }
        }),
{
    c.pop(k)
}

/// An ASCII letter or digit.
pub open spec fn is_alnum(c: char) -> bool {
    ('a' <= c && c <= 'z') || ('A' <= c && c <= 'Z') || ('0' <= c && c <= '9')
}

/// A fresh random token: twelve characters drawn by `rand`'s `thread_rng`
/// from the `Alphanumeric` distribution (ASCII letters and digits).
#[verifier::external_body]
fn mint_token() -> (r: String)
    ensures
        r@.len() == token_len(),
        forall|i: int| 0 <= i < r@.len() ==> is_alnum(#[trigger] r@[i]),
{
    rand::thread_rng().sample_iter(&rand::distributions::Alphanumeric).take(12).map(char::from).collect()
}

/// The stored shopping lists.
pub struct ListStore {
    inner: lru::LruCache<String, StoredList, std::collections::hash_map::RandomState>,
}

/// No key occurs twice.
pub open spec fn keys_distinct(es: Seq<(Seq<char>, StoredListView)>) -> bool {
    forall|i: int, j: int| 0 <= i < j < es.len() ==> es[i].0 != es[j].0
}

impl ListStore {
    /// The entries, least recently used first.
    pub closed spec fn entries(&self) -> Seq<(Seq<char>, StoredListView)> {
        lru_entries(self.inner)
    }

    /// At most `capacity()` entries with distinct tokens.
    pub closed spec fn wf(&self) -> bool {
        &&& lru_cap(self.inner) == capacity()
        &&& lru_entries(self.inner).len() <= capacity()
        &&& keys_distinct(lru_entries(self.inner))
    }

    /// An empty store.
    pub fn new() -> (r: ListStore)
        ensures
            r.wf(),
            r.entries() == Seq::<(Seq<char>, StoredListView)>::empty(),
    {
        ListStore { inner: lru_new(256) }
    }

    /// Store `selections` at time `now` under a fresh token, which is
    /// returned; the entry becomes the most recently used, the least
    /// recently used one evicted when the store is full.
    pub fn put(&mut self, selections: Vec<Selection>, now: u64) -> (token: String)
        requires
            old(self).wf(),
        ensures
            final(self).wf(),
            token@.len() == token_len(),
            final(self).entries().len() > 0,
            final(self).entries().last() == (token@, StoredListView { selections: views(selections@), created: now }),
            final(self).entries() == after_put(
                old(self).entries(),
                token@,
                StoredListView { selections: views(selections@), created: now },
            ),
    {
        let token = mint_token();
        let ghost es = lru_entries(self.inner);
        proof {
            lemma_first_index_facts(es, key_is(token@));
        }
        let ghost v = StoredListView { selections: views(selections@), created: now };
        let _ = lru_put(&mut self.inner, owned(token.as_str()), StoredList { selections, created: now });
        proof {
            lemma_distinct_after_put(es, token@, v);
            assert(lru_entries(self.inner) == after_put(es, token@, v));
        }
        token
    }

    /// The list stored under `token` if it is younger than an hour at time
    /// `now` (it becomes the most recently used); an expired one is removed.
    pub fn get(&mut self, token: &str, now: u64) -> (r: Option<StoredList>)
        requires
            old(self).wf(),
        ensures
            final(self).wf(),
            match r {
                Some(s) => Some(s@),
                None => None,
            } == lookup(old(self).entries(), token@, now),
            ({
                let es = old(self).entries();
                let i = first_index(es, key_is(token@));
                if i >= es.len() {
                    r is None && final(self).entries() == es
                } else if (now as int) - (es[i].1.created as int) < ttl_ms() {
                    r matches Some(s) && s@ == es[i].1 && final(self).entries() == es.remove(i).push(es[i])
                } else {
                    r is None && final(self).entries() == es.remove(i)
                }
            }),
    {
        let ghost es = lru_entries(self.inner);
        proof {
            lemma_first_index_facts(es, key_is(token@));
        }
        match lru_get(&mut self.inner, token) {
            Some(stored) => {
                proof {
                    lemma_distinct_after_touch(es, token@);
                }
                let young = now < stored.created || now - stored.created < 3_600_000;
                if young {
                    Some(stored)
                } else {
                    let ghost touched = lru_entries(self.inner);
                    let ghost i = first_index(es, key_is(token@));
                    proof {
                        lemma_last_is_key(es, token@);
                    }
                    let _ = lru_pop(&mut self.inner, token);
                    proof {
                        assert(touched.remove(touched.len() - 1) =~= es.remove(i));
                        lemma_distinct_remove(touched, touched.len() - 1);
                    }
                    None
                }
            },
            None => None,
        }
    }
}

/// The entries a put of `(k, v)` leaves.
pub open spec fn after_put(es: Seq<(Seq<char>, StoredListView)>, k: Seq<char>, v: StoredListView) -> Seq<(Seq<char>, StoredListView)> {
    let i = first_index(es, key_is(k));
    if i < es.len() {
        es.remove(i).push((k, v))
    } else if es.len() >= capacity() {
        es.drop_first().push((k, v))
    } else {
        es.push((k, v))
    }
}

impl Default for ListStore {
    /// An empty store (see `ListStore::new`).
    fn default() -> (r: ListStore)
        ensures
            r.wf(),
            r.entries() == Seq::<(Seq<char>, StoredListView)>::empty(),
    {
        ListStore::new()
    }
}

/// The list a lookup of `k` at time `now` finds: the entry of `k` if it is
/// younger than the time to live.
pub open spec fn lookup(es: Seq<(Seq<char>, StoredListView)>, k: Seq<char>, now: u64) -> Option<StoredListView> {
    let i = first_index(es, key_is(k));
    if i < es.len() && (now as int) - (es[i].1.created as int) < ttl_ms() {
        Some(es[i].1)
    } else {
        None
    }
}

/// A stored list is found again under its token until it expires: a lookup
/// right after a put, within the time to live, gives back what was put.
pub proof fn lemma_get_after_put(es: Seq<(Seq<char>, StoredListView)>, k: Seq<char>, v: StoredListView, now: u64)
    requires
        keys_distinct(es),
        es.len() <= capacity(),
        (now as int) - (v.created as int) < ttl_ms(),
    ensures
        lookup(after_put(es, k, v), k, now) == Some(v),
{
    lemma_distinct_after_put(es, k, v);
    let a = after_put(es, k, v);
    let n = a.len() - 1;
    assert(a[n] == (k, v));
    assert forall|j: int| 0 <= j < n implies !key_is(k)(#[trigger] a[j]) by {
        assert(a[j].0 != a[n].0);
    }
    crate::search::lemma_first_index(a, key_is(k), n);
}

/// After a put the tokens stay distinct and the count stays within capacity.
proof fn lemma_distinct_after_put(es: Seq<(Seq<char>, StoredListView)>, k: Seq<char>, v: StoredListView)
    requires
        keys_distinct(es),
        es.len() <= capacity(),
    ensures
        keys_distinct(after_put(es, k, v)),
        after_put(es, k, v).len() <= capacity(),
        after_put(es, k, v).len() > 0,
        after_put(es, k, v).last() == (k, v),
{
    lemma_first_index_facts(es, key_is(k));
    let i = first_index(es, key_is(k));
    let base = if i < es.len() {
        es.remove(i)
    } else if es.len() >= capacity() {
        es.drop_first()
    } else {
        es
    };
    if i < es.len() {
        es.remove_ensures(i);
    }
    let after = after_put(es, k, v);
    assert(after =~= base.push((k, v)));
    assert forall|a: int| 0 <= a < base.len() implies (#[trigger] base[a]).0 != k by {
        if i < es.len() {
            let a0 = if a < i { a } else { a + 1 };
            assert(base[a] == es[a0]);
            if a0 < i {
                assert(!key_is(k)(es[a0]));
            } else {
                assert(es[i].0 == k);
                assert(es[a0].0 != es[i].0);
            }
        } else if es.len() >= capacity() {
            assert(base[a] == es[a + 1]);
            assert(!key_is(k)(es[a + 1]));
        } else {
            assert(!key_is(k)(es[a]));
        }
    }
    assert forall|a: int, b: int| 0 <= a < b < base.len() implies base[a].0 != base[b].0 by {
        if i < es.len() {
            let a0 = if a < i { a } else { a + 1 };
            let b0 = if b < i { b } else { b + 1 };
            assert(base[a] == es[a0] && base[b] == es[b0]);
        } else if es.len() >= capacity() {
            assert(base[a] == es[a + 1] && base[b] == es[b + 1]);
        }
    }
    assert forall|a: int, b: int| 0 <= a < b < after.len() implies after[a].0 != after[b].0 by {
        if b == base.len() {
            assert(after[a] == base[a]);
        } else {
            assert(after[a] == base[a] && after[b] == base[b]);
        }
    }
}

/// Moving an entry to the end keeps the tokens distinct.
proof fn lemma_distinct_after_touch(es: Seq<(Seq<char>, StoredListView)>, k: Seq<char>)
    requires
        keys_distinct(es),
        first_index(es, key_is(k)) < es.len(),
    ensures
        keys_distinct(es.remove(first_index(es, key_is(k))).push(es[first_index(es, key_is(k))])),
        es.remove(first_index(es, key_is(k))).push(es[first_index(es, key_is(k))]).len() == es.len(),
{
    let i = first_index(es, key_is(k));
    lemma_first_index_facts(es, key_is(k));
    es.remove_ensures(i);
    let base = es.remove(i);
    let after = base.push(es[i]);
    assert forall|a: int, b: int| 0 <= a < b < after.len() implies after[a].0 != after[b].0 by {
        let a0 = if a < i { a } else { a + 1 };
        assert(after[a] == es[a0]);
        if b == base.len() {
            assert(after[b] == es[i]);
        } else {
            let b0 = if b < i { b } else { b + 1 };
            assert(after[b] == es[b0]);
        }
    }
}

/// After moving the entry of `k` to the end, it is found there.
proof fn lemma_last_is_key(es: Seq<(Seq<char>, StoredListView)>, k: Seq<char>)
    requires
        keys_distinct(es),
        first_index(es, key_is(k)) < es.len(),
    ensures
        ({
            let i = first_index(es, key_is(k));
            let t = es.remove(i).push(es[i]);
            first_index(t, key_is(k)) == t.len() - 1
        }),
{
    lemma_first_index_facts(es, key_is(k));
    let i = first_index(es, key_is(k));
    es.remove_ensures(i);
    let t = es.remove(i).push(es[i]);
    assert forall|j: int| 0 <= j < t.len() - 1 implies !key_is(k)(#[trigger] t[j]) by {
        let j0 = if j < i { j } else { j + 1 };
        assert(t[j] == es[j0]);
        if j0 > i {
            assert(es[j0].0 != es[i].0);
        }
    }
    crate::search::lemma_first_index(t, key_is(k), t.len() - 1);
}

/// Removing an entry keeps the tokens distinct.
proof fn lemma_distinct_remove(es: Seq<(Seq<char>, StoredListView)>, i: int)
    requires
        keys_distinct(es),
        0 <= i < es.len(),
    ensures
        keys_distinct(es.remove(i)),
{
    es.remove_ensures(i);
    let r = es.remove(i);
    assert forall|a: int, b: int| 0 <= a < b < r.len() implies r[a].0 != r[b].0 by {
        let a0 = if a < i { a } else { a + 1 };
        let b0 = if b < i { b } else { b + 1 };
        assert(r[a] == es[a0] && r[b] == es[b0]);
    }
}

} // verus!
