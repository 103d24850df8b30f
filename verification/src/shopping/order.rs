//! Stable ordering of shopping-list lines by a sort key.

use crate::recipe::views;
use vstd::prelude::*;

verus! {

/// A sort key: two indices, then a text compared character by character.
pub struct SortKey {
    pub major: int,
    pub minor: int,
    pub text: Seq<char>,
}

/// Lexicographic order of texts by character code (the order of `str`).
pub open spec fn text_lt(x: Seq<char>, y: Seq<char>) -> bool
    decreases x.len(),
{
    if x.len() == 0 {
        y.len() > 0
    } else if y.len() == 0 {
        false
    } else if x[0] != y[0] {
        (x[0] as int) < (y[0] as int)
    } else {
        text_lt(x.drop_first(), y.drop_first())
    }
}

/// Lexicographic order of sort keys.
pub open spec fn key_lt(a: SortKey, b: SortKey) -> bool {
    a.major < b.major || (a.major == b.major && (a.minor < b.minor || (a.minor == b.minor
        && text_lt(a.text, b.text))))
}

/// Line `i` goes before line `j`: a smaller key, or an equal key and an
/// earlier position.
pub open spec fn placed_before(keys: Seq<SortKey>, i: int, j: int) -> bool {
    key_lt(keys[i], keys[j]) || (keys[i] == keys[j] && i < j)
}

/// `perm` lists positions of `keys` without repetition, each placed before the next.
pub open spec fn ordered_positions(keys: Seq<SortKey>, perm: Seq<int>) -> bool {
    &&& forall|k: int| 0 <= k < perm.len() ==> 0 <= #[trigger] perm[k] < keys.len()
    &&& forall|k: int, l: int| 0 <= k < l < perm.len() ==> #[trigger] perm[k] != #[trigger] perm[l]
    &&& forall|k: int, l: int|
        0 <= k < l < perm.len() ==> placed_before(keys, #[trigger] perm[k], #[trigger] perm[l])
}

/// `perm` is the stable sorting permutation of `keys`: every position once,
/// in key order, equal keys in their original order.
pub open spec fn stable_order(keys: Seq<SortKey>, perm: Seq<int>) -> bool {
    perm.len() == keys.len() && ordered_positions(keys, perm)
}

/// A stable order lists every position of `keys`.
pub proof fn lemma_stable_order_onto(keys: Seq<SortKey>, perm: Seq<int>, i: int)
    requires
        stable_order(keys, perm),
        0 <= i < keys.len(),
    ensures
        exists|k: int| 0 <= k < perm.len() && #[trigger] perm[k] == i,
{
    broadcast use vstd::seq_lib::seq_to_set_is_finite;
    assert(perm.no_duplicates()) by {
        assert forall|a: int, b: int| 0 <= a < perm.len() && 0 <= b < perm.len() && a != b implies perm[a]
            != perm[b] by {
            if a < b {
                assert(perm[a] != perm[b]);
            } else {
                assert(perm[b] != perm[a]);
            }
        }
    }
    perm.unique_seq_to_set();
    let r = vstd::set_lib::set_int_range(0, keys.len() as int);
    vstd::set_lib::lemma_int_range(0, keys.len() as int);
    assert forall|x: int| perm.to_set().contains(x) implies r.contains(x) by {
        let k = choose|k: int| 0 <= k < perm.len() && perm[k] == x;
        assert(0 <= perm[k] < keys.len());
    }
    vstd::set_lib::lemma_subset_equality(perm.to_set(), r);
    assert(r.contains(i));
    assert(perm.to_set().contains(i));
}

/// Two positions are never each placed before the other.
proof fn lemma_placed_before_asym(keys: Seq<SortKey>, i: int, j: int)
    ensures
        !(placed_before(keys, i, j) && placed_before(keys, j, i)),
{
    lemma_key_lt_order(keys[i], keys[j], keys[i]);
}

/// Two stable orders of the same keys agree on their first `m` positions.
proof fn lemma_stable_prefix(keys: Seq<SortKey>, p: Seq<int>, q: Seq<int>, m: int)
    requires
        stable_order(keys, p),
        stable_order(keys, q),
        0 <= m <= p.len(),
    ensures
        forall|x: int| 0 <= x < m ==> p[x] == q[x],
    decreases m,
{
    if m > 0 {
        lemma_stable_prefix(keys, p, q, m - 1);
        let k = m - 1;
        if p[k] != q[k] {
            let a = p[k];
            let b = q[k];
            assert(0 <= a < keys.len() && 0 <= b < keys.len());
            lemma_stable_order_onto(keys, q, a);
            lemma_stable_order_onto(keys, p, b);
            let j = choose|j: int| 0 <= j < q.len() && #[trigger] q[j] == a;
            let i = choose|i: int| 0 <= i < p.len() && #[trigger] p[i] == b;
            if j < k {
                assert(p[j] == q[j]);
                assert(p[j] != p[k]);
            }
            if i < k {
                assert(p[i] == q[i]);
                assert(q[i] != q[k]);
            }
            assert(placed_before(keys, q[k], q[j]));
            assert(placed_before(keys, p[k], p[i]));
            lemma_placed_before_asym(keys, a, b);
        }
    }
}

/// A list of keys has one stable order.
pub proof fn lemma_stable_order_unique(keys: Seq<SortKey>, p: Seq<int>, q: Seq<int>)
    requires
        stable_order(keys, p),
        stable_order(keys, q),
    ensures
        p == q,
{
    lemma_stable_prefix(keys, p, q, p.len() as int);
    assert(p =~= q);
}

/// `text_lt` is irreflexive.
pub proof fn lemma_text_lt_irrefl(x: Seq<char>)
    ensures
        !text_lt(x, x),
    decreases x.len(),
{
    if x.len() > 0 {
        lemma_text_lt_irrefl(x.drop_first());
    }
}

/// `text_lt` is transitive.
pub proof fn lemma_text_lt_trans(x: Seq<char>, y: Seq<char>, z: Seq<char>)
    requires
        text_lt(x, y),
        text_lt(y, z),
    ensures
        text_lt(x, z),
    decreases x.len(),
{
    if x.len() > 0 && y.len() > 0 && z.len() > 0 && x[0] == y[0] && y[0] == z[0] {
        lemma_text_lt_trans(x.drop_first(), y.drop_first(), z.drop_first());
    }
}

/// Two different texts are ordered one way or the other.
pub proof fn lemma_text_lt_total(x: Seq<char>, y: Seq<char>)
    requires
        x != y,
    ensures
        text_lt(x, y) || text_lt(y, x),
    decreases x.len(),
{
    if x.len() == 0 && y.len() == 0 {
        assert(x =~= y);
    } else if x.len() > 0 && y.len() > 0 && x[0] == y[0] {
        if x.drop_first() == y.drop_first() {
            assert(x =~= seq![x[0]] + x.drop_first());
            assert(y =~= seq![y[0]] + y.drop_first());
        } else {
            lemma_text_lt_total(x.drop_first(), y.drop_first());
        }
    } else if x.len() > 0 && y.len() > 0 {
        assert((x[0] as int) != (y[0] as int));
    }
}

/// `key_lt` is a strict total order.
pub proof fn lemma_key_lt_order(a: SortKey, b: SortKey, c: SortKey)
    ensures
        !key_lt(a, a),
        key_lt(a, b) && key_lt(b, c) ==> key_lt(a, c),
        a != b ==> key_lt(a, b) || key_lt(b, a),
        key_lt(a, b) ==> !key_lt(b, a),
{
    lemma_text_lt_irrefl(a.text);
    if text_lt(a.text, b.text) && text_lt(b.text, c.text) {
        lemma_text_lt_trans(a.text, b.text, c.text);
    }
    if text_lt(a.text, b.text) && text_lt(b.text, a.text) {
        lemma_text_lt_trans(a.text, b.text, a.text);
    }
    if a.text != b.text {
        lemma_text_lt_total(a.text, b.text);
    }
    if a != b && a.major == b.major && a.minor == b.minor {
        assert(a.text != b.text);
    }
}

/// A sort key as executable values.
#[derive(Debug)]
pub struct ExecKey {
    pub major: usize,
    pub minor: usize,
    pub text: Vec<char>,
}

impl View for ExecKey {
    type V = SortKey;

    open spec fn view(&self) -> SortKey {
        SortKey { major: self.major as int, minor: self.minor as int, text: self.text@ }
    }
}

/// `text_lt` on character vectors.
pub fn text_less(x: &Vec<char>, y: &Vec<char>) -> (r: bool)
    ensures
        r == text_lt(x@, y@),
{
    let mut i: usize = 0;
    assert(x@.skip(0) =~= x@ && y@.skip(0) =~= y@);
    while i < x.len() && i < y.len() && x[i] == y[i]
        invariant
            i <= x@.len(),
            i <= y@.len(),
            text_lt(x@, y@) == text_lt(x@.skip(i as int), y@.skip(i as int)),
        decreases x@.len() - i,
    {
        assert(x@.skip(i as int).drop_first() =~= x@.skip(i + 1));
        assert(y@.skip(i as int).drop_first() =~= y@.skip(i + 1));
        i = i + 1;
    }
    if i == x.len() {
        i < y.len()
    } else if i == y.len() {
        false
    } else {
        x[i] < y[i]
    }
}

/// `key_lt` on executable keys.
pub fn key_less(a: &ExecKey, b: &ExecKey) -> (r: bool)
    ensures
        r == key_lt(a@, b@),
{
    if a.major != b.major {
        a.major < b.major
    } else if a.minor != b.minor {
        a.minor < b.minor
    } else {
        text_less(&a.text, &b.text)
    }
}

/// Inserting the newest position `i` at `p`, after every key not above its
/// own and before the first key above it, keeps the positions ordered.
pub proof fn lemma_insert_ordered(keys: Seq<SortKey>, perm: Seq<int>, p: int, i: int)
    requires
        ordered_positions(keys, perm),
        0 <= p <= perm.len(),
        0 <= i < keys.len(),
        forall|k: int| 0 <= k < perm.len() ==> #[trigger] perm[k] < i,
        forall|k: int| 0 <= k < p ==> !key_lt(keys[i], keys[#[trigger] perm[k]]),
        p < perm.len() ==> key_lt(keys[i], keys[perm[p]]),
    ensures
        ordered_positions(keys, perm.insert(p, i)),
{
    let q = perm.insert(p, i);
    assert forall|k: int, l: int| 0 <= k < l < q.len() implies placed_before(
        keys,
        #[trigger] q[k],
        #[trigger] q[l],
    ) by {
        if l == p {
            assert(q[k] == perm[k]);
            lemma_key_lt_order(keys[i], keys[perm[k]], keys[i]);
        } else if k == p {
            assert(q[l] == perm[l - 1]);
            if l - 1 > p {
                assert(placed_before(keys, perm[p], perm[l - 1]));
                lemma_key_lt_order(keys[i], keys[perm[p]], keys[perm[l - 1]]);
            }
        } else {
            let k0 = if k < p { k } else { k - 1 };
            let l0 = if l < p { l } else { l - 1 };
            assert(q[k] == perm[k0] && q[l] == perm[l0]);
            assert(placed_before(keys, perm[k0], perm[l0]));
        }
    }
    assert forall|k: int, l: int| 0 <= k < l < q.len() implies #[trigger] q[k] != #[trigger] q[l] by {
        if k != p && l != p {
            let k0 = if k < p { k } else { k - 1 };
            let l0 = if l < p { l } else { l - 1 };
            assert(q[k] == perm[k0] && q[l] == perm[l0]);
        } else if k == p {
            assert(q[l] == perm[l - 1]);
        } else {
            assert(q[k] == perm[k]);
        }
    }
    assert forall|k: int| 0 <= k < q.len() implies 0 <= #[trigger] q[k] < keys.len() by {
        if k < p {
            assert(q[k] == perm[k]);
        } else if k > p {
            assert(q[k] == perm[k - 1]);
        }
    }
}

/// Views of a sequence of keys.
pub open spec fn key_views(ks: Seq<ExecKey>) -> Seq<SortKey> {
    Seq::new(ks.len(), |i: int| ks[i]@)
}

/// The lines ordered stably by their keys (`keys[i]` is the key of `items[i]`).
pub fn stable_sort<T: View>(items: Vec<T>, keys: Vec<ExecKey>) -> (r: Vec<T>)
    requires
        items@.len() == keys@.len(),
    ensures
        exists|perm: Seq<int>|
            stable_order(key_views(keys@), perm) && views(r@).len() == perm.len() && forall|k: int|
                0 <= k < perm.len() ==> views(r@)[k] == views(items@)[#[trigger] perm[k]],
{
    let ghost iv = views(items@);
    let ghost kv = key_views(keys@);
    let n = items.len();
    let mut rest = items;
    let mut rest_keys = keys;
    let mut out: Vec<T> = Vec::new();
    let mut out_keys: Vec<ExecKey> = Vec::new();
    let ghost mut perm: Seq<int> = seq![];
    let mut i: usize = 0;
    while i < n
        invariant
            n == iv.len(),
            n == kv.len(),
            i <= n,
            rest@.len() == n - i,
            rest_keys@.len() == n - i,
            forall|k: int| 0 <= k < n - i ==> (#[trigger] rest@[k])@ == iv[k + i],
            forall|k: int| 0 <= k < n - i ==> (#[trigger] rest_keys@[k])@ == kv[k + i],
            out@.len() == i,
            out_keys@.len() == i,
            perm.len() == i,
            forall|k: int| 0 <= k < i ==> (#[trigger] perm[k]) < i,
            forall|k: int| 0 <= k < i ==> (#[trigger] out@[k])@ == iv[perm[k]],
            forall|k: int| 0 <= k < i ==> (#[trigger] out_keys@[k])@ == kv[perm[k]],
            ordered_positions(kv, perm),
        decreases n - i,
    {
        let item = rest.remove(0);
        let key = rest_keys.remove(0);
        assert(item@ == iv[i as int]);
        assert(key@ == kv[i as int]);
        let mut p: usize = 0;
        while p < out_keys.len()
            invariant
                p <= out_keys@.len(),
                out_keys@.len() == perm.len(),
                key@ == kv[i as int],
                forall|k: int| 0 <= k < perm.len() ==> (#[trigger] out_keys@[k])@ == kv[perm[k]],
                forall|k: int| 0 <= k < p ==> !key_lt(kv[i as int], kv[#[trigger] perm[k]]),
            ensures
                p <= out_keys@.len(),
                forall|k: int| 0 <= k < p ==> !key_lt(kv[i as int], kv[#[trigger] perm[k]]),
                p < out_keys@.len() ==> key_lt(kv[i as int], kv[perm[p as int]]),
            decreases out_keys@.len() - p,
        {
            if key_less(&key, &out_keys[p]) {
                break;
            }
            p = p + 1;
        }
        proof {
            lemma_insert_ordered(kv, perm, p as int, i as int);
        }
        let ghost old_out = out@;
        let ghost old_keys = out_keys@;
        out.insert(p, item);
        out_keys.insert(p, key);
        proof {
            let q = perm.insert(p as int, i as int);
            assert forall|k: int| 0 <= k < i + 1 implies (#[trigger] out@[k])@ == iv[q[k]] by {
                if k < p {
                    assert(out@[k] == old_out[k]);
                } else if k > p {
                    assert(out@[k] == old_out[k - 1]);
                }
            }
            assert forall|k: int| 0 <= k < i + 1 implies (#[trigger] out_keys@[k])@ == kv[q[k]] by {
                if k < p {
                    assert(out_keys@[k] == old_keys[k]);
                } else if k > p {
                    assert(out_keys@[k] == old_keys[k - 1]);
                }
            }
            assert forall|k: int| 0 <= k < i + 1 implies (#[trigger] q[k]) < i + 1 by {
                if k < p {
                    assert(q[k] == perm[k]);
                } else if k > p {
                    assert(q[k] == perm[k - 1]);
                }
            }
            perm = q;
        }
        i = i + 1;
    }
    assert(views(out@).len() == perm.len());
    assert forall|k: int| 0 <= k < perm.len() implies views(out@)[k] == iv[#[trigger] perm[k]] by {
        assert(views(out@)[k] == out@[k]@);
    }
    out
}

} // verus!
