//! Families in display order: by title, and grouped by category.

use super::{FamilyView, Index, RecipeFamily};
use crate::index::scan::find_char;
use crate::recipe::views;
use crate::shopping::order::{stable_order, stable_sort, ExecKey, SortKey};
use crate::text::{chars_of, lower_ascii_seq, owned, str_eq, to_ascii_lowercase, to_lowercase, trim, trimmed, unicode_lower, string_of_range};
use vstd::prelude::*;

verus! {

/// Sort key of a family: its Unicode-lowercased title.
pub open spec fn title_key(f: FamilyView) -> SortKey {
    SortKey { major: 0, minor: 0, text: unicode_lower(f.title) }
}

/// Title keys of families.
pub open spec fn title_keys(fs: Seq<FamilyView>) -> Seq<SortKey> {
    Seq::new(fs.len(), |i: int| title_key(fs[i]))
}

/// Priority of a category's first path part: breakfast, lunch, snack,
/// dinner (or main), then everything else.
pub open spec fn category_priority(first: Seq<char>) -> int {
    if first == "breakfast"@ || first == "breakfasts"@ {
        0
    } else if first == "lunch"@ || first == "lunches"@ {
        1
    } else if first == "snack"@ || first == "snacks"@ {
        2
    } else if first == "dinner"@ || first == "dinners"@ || first == "main"@ || first == "mains"@ {
        3
    } else {
        4
    }
}

/// `category_sort_key`: the priority of the trimmed, ASCII-lowercased part
/// before the first `/`, then the ASCII-lowercased category.
pub open spec fn category_key_spec(category: Seq<char>) -> (int, Seq<char>) {
    let first = lower_ascii_seq(trim(category.subrange(0, find_char(category, '/'))));
    (category_priority(first), lower_ascii_seq(category))
}

/// The part of a category its meal priority is read from: the trimmed,
/// ASCII-lowercased text before the first `/`.
pub open spec fn category_first(category: Seq<char>) -> Seq<char> {
    lower_ascii_seq(trim(category.subrange(0, find_char(category, '/'))))
}

/// Categories sort in meal order: breakfast(s) first, then lunch(es),
/// snack(s), dinner(s) and main(s) alike, and every other category after
/// them; the rest of the key is the lowercased category.
pub proof fn lemma_category_meal_order(category: Seq<char>)
    ensures
        ({
            let first = category_first(category);
            let p = category_key_spec(category).0;
            &&& (first == "breakfast"@ || first == "breakfasts"@) ==> p == 0
            &&& (first == "lunch"@ || first == "lunches"@) ==> p == 1
            &&& (first == "snack"@ || first == "snacks"@) ==> p == 2
            &&& (first == "dinner"@ || first == "dinners"@ || first == "main"@ || first == "mains"@) ==> p == 3
            &&& !(first == "breakfast"@ || first == "breakfasts"@ || first == "lunch"@ || first == "lunches"@
                || first == "snack"@ || first == "snacks"@ || first == "dinner"@ || first == "dinners"@
                || first == "main"@ || first == "mains"@) ==> p == 4
            &&& category_key_spec(category).1 == lower_ascii_seq(category)
        }),
{
    reveal_strlit("breakfast");
    reveal_strlit("breakfasts");
    reveal_strlit("lunch");
    reveal_strlit("lunches");
    reveal_strlit("snack");
    reveal_strlit("snacks");
    reveal_strlit("dinner");
    reveal_strlit("dinners");
    reveal_strlit("main");
    reveal_strlit("mains");
    let first = category_first(category);
    assert(category_key_spec(category).0 == category_priority(first));
    let b = "breakfast"@;
    let bs = "breakfasts"@;
    let l = "lunch"@;
    let ls = "lunches"@;
    let sn = "snack"@;
    let sns = "snacks"@;
    let d = "dinner"@;
    let ds = "dinners"@;
    let m = "main"@;
    let ms = "mains"@;
    assert(b.len() == 9 && bs.len() == 10 && l.len() == 5 && ls.len() == 7 && sn.len() == 5 && sns.len() == 6);
    assert(d.len() == 6 && ds.len() == 7 && m.len() == 4 && ms.len() == 5);
    assert(l[0] != sn[0] && l[0] != ms[0] && sn[0] != ms[0]);
    assert(d[0] != sns[0]);
    assert(ls[0] != ds[0]);
    if first == d || first == ds || first == m || first == ms {
        assert(first != b && first != bs && first != l && first != ls && first != sn && first != sns);
    }
    if first == sn || first == sns {
        assert(first != b && first != bs && first != l && first != ls);
    }
    if first == l || first == ls {
        assert(first != b && first != bs);
    }
}

/// The sort key of a category.
pub fn category_sort_key(category: &str) -> (r: (u8, String))
    ensures
        r.0 as int == category_key_spec(category@).0,
        r.1@ == category_key_spec(category@).1,
{
    let cs = chars_of(category);
    let mut p: usize = 0;
    while p < cs.len() && cs[p] != '/'
        invariant
            p <= cs@.len(),
            cs@ == category@,
            forall|j: int| 0 <= j < p ==> cs@[j] != '/',
        decreases cs@.len() - p,
    {
        p = p + 1;
    }
    proof {
        crate::index::scan::lemma_find_char(cs@, '/', p as int);
    }
    let head = string_of_range(&cs, 0, p);
    let first = to_ascii_lowercase(trimmed(head.as_str()).as_str());
    let f = first.as_str();
    let priority: u8 = if str_eq(f, "breakfast") || str_eq(f, "breakfasts") {
        0
    } else if str_eq(f, "lunch") || str_eq(f, "lunches") {
        1
    } else if str_eq(f, "snack") || str_eq(f, "snacks") {
        2
    } else if str_eq(f, "dinner") || str_eq(f, "dinners") || str_eq(f, "main") || str_eq(f, "mains") {
        3
    } else {
        4
    };
    (priority, to_ascii_lowercase(category))
}

/// Sort key of a category group.
pub open spec fn group_key(category: Seq<char>) -> SortKey {
    let k = category_key_spec(category);
    SortKey { major: k.0, minor: 0, text: k.1 }
}

/// The categories of `fs`, in order of first appearance.
pub open spec fn categories(fs: Seq<FamilyView>) -> Seq<Seq<char>>
    decreases fs.len(),
{
    if fs.len() == 0 {
        Seq::empty()
    } else {
        let cs = categories(fs.drop_last());
        if cs.contains(fs.last().category) {
            cs
        } else {
            cs.push(fs.last().category)
        }
    }
}

/// The families of category `c`, in order.
pub open spec fn in_category(fs: Seq<FamilyView>, c: Seq<char>) -> Seq<FamilyView>
    decreases fs.len(),
{
    if fs.len() == 0 {
        Seq::empty()
    } else {
        let m = in_category(fs.drop_last(), c);
        if fs.last().category == c {
            m.push(fs.last())
        } else {
            m
        }
    }
}

/// Views of category groups.
pub open spec fn group_views(g: Seq<(String, Vec<&RecipeFamily>)>) -> Seq<(Seq<char>, Seq<FamilyView>)> {
    Seq::new(g.len(), |k: int| (g[k].0@, views(g[k].1@)))
}

/// `groups` are the categories of `fs` ordered by `category_sort_key`, each
/// with its families ordered by title (see `Index::families_by_category`).
pub open spec fn grouped_by_category(fs: Seq<FamilyView>, groups: Seq<(Seq<char>, Seq<FamilyView>)>) -> bool {
    let cats = categories(fs);
    let gkeys = Seq::new(cats.len(), |k: int| group_key(cats[k]));
    exists|perm: Seq<int>|
        stable_order(gkeys, perm) && groups.len() == perm.len() && forall|k: int|
            0 <= k < perm.len() ==> (#[trigger] groups[k]).0 == cats[perm[k]] && sorted_as(
                groups[k].1,
                in_category(fs, cats[perm[k]]),
                title_keys(in_category(fs, cats[perm[k]])),
            )
}

/// `x` is one of `items`.
pub open spec fn occurs_in<V>(items: Seq<V>, x: V) -> bool {
    exists|j: int| 0 <= j < items.len() && items[j] == x
}

/// Every element of a reordering is an element of the original.
pub proof fn lemma_sorted_from<V>(out: Seq<V>, items: Seq<V>, keys: Seq<SortKey>)
    requires
        sorted_as(out, items, keys),
        keys.len() == items.len(),
    ensures
        forall|k: int| 0 <= k < out.len() ==> occurs_in(items, #[trigger] out[k]),
{
    let perm = choose|perm: Seq<int>|
        stable_order(keys, perm) && out.len() == perm.len() && forall|k: int|
            0 <= k < perm.len() ==> out[k] == items[#[trigger] perm[k]];
    assert forall|k: int| 0 <= k < out.len() implies occurs_in(items, #[trigger] out[k]) by {
        assert(out[k] == items[perm[k]]);
        assert(0 <= perm[k] < keys.len());
    }
}

/// `out` is `items` reordered stably by `keys`.
pub open spec fn sorted_as<V>(out: Seq<V>, items: Seq<V>, keys: Seq<SortKey>) -> bool {
    exists|perm: Seq<int>|
        stable_order(keys, perm) && out.len() == perm.len() && forall|k: int|
            0 <= k < perm.len() ==> out[k] == items[#[trigger] perm[k]]
}

fn key_of_title(f: &RecipeFamily) -> (r: ExecKey)
    ensures
        r@ == title_key(f@),
{
    let l = to_lowercase(f.title.as_str());
    ExecKey { major: 0, minor: 0, text: chars_of(l.as_str()) }
}

fn sort_by_title<'a>(fs: Vec<&'a RecipeFamily>) -> (r: Vec<&'a RecipeFamily>)
    ensures
        sorted_as(views(r@), views(fs@), title_keys(views(fs@))),
{
    let mut keys: Vec<ExecKey> = Vec::new();
    let mut i: usize = 0;
    while i < fs.len()
        invariant
            i <= fs@.len(),
            keys@.len() == i,
            forall|k: int| 0 <= k < i ==> (#[trigger] keys@[k])@ == title_key(fs@[k]@),
        decreases fs@.len() - i,
    {
        keys.push(key_of_title(fs[i]));
        i = i + 1;
    }
    assert(crate::shopping::order::key_views(keys@) =~= title_keys(views(fs@)));
    stable_sort(fs, keys)
}

impl Index {
    /// Families ordered by lowercased title (equal titles in index order).
    pub fn families_sorted(&self) -> (r: Vec<&RecipeFamily>)
        ensures
            sorted_as(views(r@), views(self.families@), title_keys(views(self.families@))),
    {
        let mut v: Vec<&RecipeFamily> = Vec::new();
        let mut i: usize = 0;
        while i < self.families.len()
            invariant
                i <= self.families@.len(),
                v@.len() == i,
                forall|k: int| 0 <= k < i ==> *(#[trigger] v@[k]) == self.families@[k],
            decreases self.families@.len() - i,
        {
            v.push(&self.families[i]);
            i = i + 1;
        }
        assert(views(v@) =~= views(self.families@));
        sort_by_title(v)
    }

    /// Families grouped by category: each group's families ordered by
    /// lowercased title, groups ordered by `category_sort_key` (groups and
    /// families with equal keys in index order).
    pub fn families_by_category(&self) -> (r: Vec<(String, Vec<&RecipeFamily>)>)
        ensures
            grouped_by_category(views(self.families@), group_views(r@)),
            ({
                let fs = views(self.families@);
                let cats = categories(fs);
                let gkeys = Seq::new(cats.len(), |k: int| group_key(cats[k]));
                exists|perm: Seq<int>|
                    stable_order(gkeys, perm) && r@.len() == perm.len() && forall|k: int|
                        0 <= k < perm.len() ==> (#[trigger] r@[k]).0@ == cats[perm[k]] && sorted_as(
                            views(r@[k].1@),
                            in_category(fs, cats[perm[k]]),
                            title_keys(in_category(fs, cats[perm[k]])),
                        )
            }),
    {
        let ghost fs = views(self.families@);
        let mut names: Vec<String> = Vec::new();
        let mut groups: Vec<Vec<&RecipeFamily>> = Vec::new();
        let mut i: usize = 0;
        assert(fs.take(0) =~= Seq::<FamilyView>::empty());
        while i < self.families.len()
            invariant
                i <= self.families@.len(),
                fs == views(self.families@),
                names@.len() == groups@.len(),
                names@.len() == categories(fs.take(i as int)).len(),
                forall|k: int| 0 <= k < names@.len() ==> (#[trigger] names@[k])@ == categories(fs.take(i as int))[k],
                forall|k: int| 0 <= k < groups@.len() ==> views((#[trigger] groups@[k])@) == in_category(
                    fs.take(i as int),
                    categories(fs.take(i as int))[k],
                ),
            decreases self.families@.len() - i,
        {
            let f = &self.families[i];
            let ghost pre = fs.take(i as int);
            let ghost post = fs.take(i + 1);
            assert(post.drop_last() =~= pre);
            assert(post.last() == f@);
            let ghost cs = categories(pre);
            proof {
                lemma_categories_distinct(pre);
                lemma_in_category_empty(pre, f@.category);
            }
            let mut k: usize = 0;
            while k < names.len()
                invariant
                    k <= names@.len(),
                    names@.len() == cs.len(),
                    forall|j: int| 0 <= j < names@.len() ==> (#[trigger] names@[j])@ == cs[j],
                    forall|j: int| 0 <= j < k ==> cs[j] != f@.category,
                ensures
                    k <= names@.len(),
                    forall|j: int| 0 <= j < k ==> cs[j] != f@.category,
                    k < names@.len() ==> cs[k as int] == f@.category,
                decreases names@.len() - k,
            {
                if str_eq(names[k].as_str(), f.category.as_str()) {
                    break;
                }
                k = k + 1;
            }
            if k < names.len() {
                let mut g = groups.remove(k);
                let ghost gv = views(g@);
                g.push(f);
                assert(views(g@) =~= gv.push(f@));
                groups.insert(k, g);
                proof {
                    assert(cs.contains(f@.category));
                    assert(categories(post) == cs);
                    assert forall|j: int| 0 <= j < groups@.len() implies views((#[trigger] groups@[j])@) == in_category(
                        post,
                        categories(post)[j],
                    ) by {
                        if j != k {
                            assert(cs[j] != cs[k as int]);
                        }
                    }
                }
            } else {
                let mut g: Vec<&RecipeFamily> = Vec::new();
                g.push(f);
                proof {
                    assert(!cs.contains(f@.category));
                    assert(categories(post) == cs.push(f@.category));
                    assert(views(g@) =~= in_category(post, f@.category));
                }
                groups.push(g);
                names.push(owned(f.category.as_str()));
                proof {
                    assert forall|j: int| 0 <= j < groups@.len() implies views((#[trigger] groups@[j])@) == in_category(
                        post,
                        categories(post)[j],
                    ) by {
                        if j < cs.len() {
                            assert(cs[j] != f@.category);
                        }
                    }
                }
            }
            i = i + 1;
        }
        assert(fs.take(i as int) =~= fs);
        let ghost cats = categories(fs);
        let n = groups.len();
        let mut keys: Vec<ExecKey> = Vec::new();
        let mut entries: Vec<(String, Vec<&RecipeFamily>)> = Vec::new();
        let mut rest_names = names;
        let mut rest_groups = groups;
        let mut j: usize = 0;
        while j < n
            invariant
                n == cats.len(),
                j <= n,
                rest_names@.len() == n - j,
                rest_groups@.len() == n - j,
                forall|k: int| 0 <= k < n - j ==> (#[trigger] rest_names@[k])@ == cats[k + j],
                forall|k: int| 0 <= k < n - j ==> views((#[trigger] rest_groups@[k])@) == in_category(fs, cats[k + j]),
                keys@.len() == j,
                entries@.len() == j,
                forall|k: int| 0 <= k < j ==> (#[trigger] keys@[k])@ == group_key(cats[k]),
                forall|k: int| 0 <= k < j ==> (#[trigger] entries@[k]).0@ == cats[k] && sorted_as(
                    views(entries@[k].1@),
                    in_category(fs, cats[k]),
                    title_keys(in_category(fs, cats[k])),
                ),
            decreases n - j,
        {
            let name = rest_names.remove(0);
            let g = rest_groups.remove(0);
            let (pr, lower) = category_sort_key(name.as_str());
            keys.push(ExecKey { major: pr as usize, minor: 0, text: chars_of(lower.as_str()) });
            let sorted = sort_by_title(g);
            entries.push((name, sorted));
            j = j + 1;
        }
        let ghost ev = entries@;
        assert(crate::shopping::order::key_views(keys@) =~= Seq::new(cats.len(), |k: int| group_key(cats[k])));
        let r = stable_sort_pairs(entries, keys);
        proof {
            let gkeys = Seq::new(cats.len(), |k: int| group_key(cats[k]));
            let perm = choose|perm: Seq<int>|
                stable_order(crate::shopping::order::key_views(keys@), perm) && r@.len() == perm.len()
                    && forall|k: int| 0 <= k < perm.len() ==> r@[k] == ev[#[trigger] perm[k]];
            assert(stable_order(gkeys, perm));
            assert forall|k: int| 0 <= k < perm.len() implies (#[trigger] r@[k]).0@ == cats[perm[k]] && sorted_as(
                views(r@[k].1@),
                in_category(fs, cats[perm[k]]),
                title_keys(in_category(fs, cats[perm[k]])),
            ) by {
                assert(r@[k] == ev[perm[k]]);
                assert(0 <= perm[k] < ev.len());
            }
            let gv = group_views(r@);
            assert forall|k: int| 0 <= k < perm.len() implies (#[trigger] gv[k]).0 == cats[perm[k]] && sorted_as(
                gv[k].1,
                in_category(fs, cats[perm[k]]),
                title_keys(in_category(fs, cats[perm[k]])),
            ) by {
                assert(gv[k] == (r@[k].0@, views(r@[k].1@)));
            }
            assert(grouped_by_category(fs, gv));
        }
        r
    }
}

/// The group entries ordered stably by their keys.
fn stable_sort_pairs<'a>(items: Vec<(String, Vec<&'a RecipeFamily>)>, keys: Vec<ExecKey>) -> (r: Vec<(String, Vec<&'a RecipeFamily>)>)
    requires
        items@.len() == keys@.len(),
    ensures
        exists|perm: Seq<int>|
            stable_order(crate::shopping::order::key_views(keys@), perm) && r@.len() == perm.len()
                && forall|k: int| 0 <= k < perm.len() ==> r@[k] == items@[#[trigger] perm[k]],
{
    let ghost kv = crate::shopping::order::key_views(keys@);
    let n = items.len();
    let mut rest = items;
    let mut rest_keys = keys;
    let mut out: Vec<(String, Vec<&'a RecipeFamily>)> = Vec::new();
    let mut out_keys: Vec<ExecKey> = Vec::new();
    let ghost iv = rest@;
    let ghost mut perm: Seq<int> = seq![];
    let mut i: usize = 0;
    while i < n
        invariant
            n == iv.len(),
            n == kv.len(),
            i <= n,
            rest@.len() == n - i,
            rest_keys@.len() == n - i,
            forall|k: int| 0 <= k < n - i ==> (#[trigger] rest@[k]) == iv[k + i],
            forall|k: int| 0 <= k < n - i ==> (#[trigger] rest_keys@[k])@ == kv[k + i],
            out@.len() == i,
            out_keys@.len() == i,
            perm.len() == i,
            forall|k: int| 0 <= k < i ==> (#[trigger] perm[k]) < i,
            forall|k: int| 0 <= k < i ==> (#[trigger] out@[k]) == iv[perm[k]],
            forall|k: int| 0 <= k < i ==> (#[trigger] out_keys@[k])@ == kv[perm[k]],
            crate::shopping::order::ordered_positions(kv, perm),
        decreases n - i,
    {
        let item = rest.remove(0);
        let key = rest_keys.remove(0);
        assert(item == iv[i as int]);
        assert(key@ == kv[i as int]);
        let mut p: usize = 0;
        while p < out_keys.len()
            invariant
                p <= out_keys@.len(),
                out_keys@.len() == perm.len(),
                key@ == kv[i as int],
                forall|k: int| 0 <= k < perm.len() ==> (#[trigger] out_keys@[k])@ == kv[perm[k]],
                forall|k: int| 0 <= k < p ==> !crate::shopping::order::key_lt(kv[i as int], kv[#[trigger] perm[k]]),
            ensures
                p <= out_keys@.len(),
                forall|k: int| 0 <= k < p ==> !crate::shopping::order::key_lt(kv[i as int], kv[#[trigger] perm[k]]),
                p < out_keys@.len() ==> crate::shopping::order::key_lt(kv[i as int], kv[perm[p as int]]),
            decreases out_keys@.len() - p,
        {
            if crate::shopping::order::key_less(&key, &out_keys[p]) {
                break;
            }
            p = p + 1;
        }
        proof {
            crate::shopping::order::lemma_insert_ordered(kv, perm, p as int, i as int);
        }
        let ghost old_out = out@;
        let ghost old_keys = out_keys@;
        out.insert(p, item);
        out_keys.insert(p, key);
        proof {
            let q = perm.insert(p as int, i as int);
            assert forall|k: int| 0 <= k < i + 1 implies (#[trigger] out@[k]) == iv[q[k]] by {
                if k < p {
                    assert(out@[k] == old_out[k]);
                } else if k > p {
                    assert(out@[k] == old_out[k - 1]);
                }
            }
            assert forall|k: int| 0 <= k < i + 1 implies (#[trigger] out_keys@[k])@ == kv[q[k]] by {
                if k < p {
                    assert(out_keys@[k] == old_keys[k]);
                } else if k > p {
                    assert(out_keys@[k] == old_keys[k - 1]);
                }
            }
            assert forall|k: int| 0 <= k < i + 1 implies (#[trigger] q[k]) < i + 1 by {
                if k < p {
                    assert(q[k] == perm[k]);
                } else if k > p {
                    assert(q[k] == perm[k - 1]);
                }
            }
            perm = q;
        }
        i = i + 1;
    }
    assert(stable_order(kv, perm));
    assert(forall|k: int| 0 <= k < perm.len() ==> out@[k] == iv[#[trigger] perm[k]]);
    out
}

/// `categories` never repeats a category.
proof fn lemma_categories_distinct(fs: Seq<FamilyView>)
    ensures
        forall|i: int, j: int|
            0 <= i < j < categories(fs).len() ==> categories(fs)[i] != categories(fs)[j],
    decreases fs.len(),
{
    if fs.len() > 0 {
        lemma_categories_distinct(fs.drop_last());
        let cs = categories(fs.drop_last());
        if !cs.contains(fs.last().category) {
            assert forall|i: int, j: int|
                0 <= i < j < categories(fs).len() implies categories(fs)[i] != categories(fs)[j] by {
                if j == cs.len() {
                    assert(cs[i] == categories(fs)[i]);
                }
            }
        }
    }
}

/// A category not yet seen has no families.
proof fn lemma_in_category_empty(fs: Seq<FamilyView>, c: Seq<char>)
    ensures
        !categories(fs).contains(c) ==> in_category(fs, c) == Seq::<FamilyView>::empty(),
    decreases fs.len(),
{
    if fs.len() > 0 {
        lemma_in_category_empty(fs.drop_last(), c);
        let cs = categories(fs.drop_last());
        if !categories(fs).contains(c) {
            if cs.contains(c) {
                let i = choose|i: int| 0 <= i < cs.len() && cs[i] == c;
                if !cs.contains(fs.last().category) {
                    assert(categories(fs)[i] == c);
                }
            }
            if fs.last().category == c {
                if cs.contains(fs.last().category) {
                } else {
                    assert(categories(fs)[cs.len() as int] == c);
                }
            }
        }
    }
}

} // verus!
