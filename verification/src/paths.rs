//! Paths as text: `/`-separated components, normalised the way `std::path`
//! reads them (empty and interior `.` segments dropped, a leading `/` is the
//! root component, a leading `.` of a relative path is kept).

use crate::text::{chars_of, push_range, push_str, owned, string_of};
use vstd::prelude::*;

verus! {

/// Split `p` on every `'/'` (the segments, possibly empty).
pub open spec fn split_slash(p: Seq<char>) -> Seq<Seq<char>>
    decreases p.len(),
{
    if p.len() == 0 {
        seq![Seq::<char>::empty()]
    } else {
        let r = split_slash(p.drop_last());
        if p.last() == '/' {
            r.push(Seq::<char>::empty())
        } else {
            r.update(r.len() - 1, r.last().push(p.last()))
        }
    }
}

/// Splitting always yields at least one segment.
pub proof fn lemma_split_nonempty(p: Seq<char>)
    ensures
        split_slash(p).len() >= 1,
    decreases p.len(),
{
    if p.len() > 0 {
        lemma_split_nonempty(p.drop_last());
    }
}

/// A segment that names a component: non-empty and not `"."`.
pub open spec fn is_named(s: Seq<char>) -> bool {
    s.len() > 0 && s != seq!['.']
}

/// The named segments of `segs`, in order.
pub open spec fn keep_named(segs: Seq<Seq<char>>) -> Seq<Seq<char>>
    decreases segs.len(),
{
    if segs.len() == 0 {
        Seq::<Seq<char>>::empty()
    } else {
        let r = keep_named(segs.drop_last());
        if is_named(segs.last()) {
            r.push(segs.last())
        } else {
            r
        }
    }
}

/// The components of path `p` (`Path::components`), each as its text:
/// the root is `"/"`, a leading current-directory marker is `"."`.
pub open spec fn components(p: Seq<char>) -> Seq<Seq<char>> {
    let segs = split_slash(p);
    if p.len() > 0 && p[0] == '/' {
        seq![seq!['/']] + keep_named(segs)
    } else if segs[0] == seq!['.'] {
        seq![seq!['.']] + keep_named(segs)
    } else {
        keep_named(segs)
    }
}

/// `Path::file_name`: the last component when it is a normal name.
pub open spec fn file_name(comps: Seq<Seq<char>>) -> Option<Seq<char>> {
    if comps.len() > 0 && comps.last() != seq!['/'] && comps.last() != seq!['.'] && comps.last()
        != seq!['.', '.'] {
        Some(comps.last())
    } else {
        None
    }
}

/// The components of `full` relative to `root` (`strip_prefix(root).unwrap_or(full)`).
pub open spec fn relative_components(root: Seq<Seq<char>>, full: Seq<Seq<char>>) -> Seq<
    Seq<char>,
> {
    if root.len() <= full.len() && full.subrange(0, root.len() as int) == root {
        full.subrange(root.len() as int, full.len() as int)
    } else {
        full
    }
}

/// The texts of `comps` joined by `sep`.
pub open spec fn join(comps: Seq<Seq<char>>, sep: Seq<char>) -> Seq<char>
    decreases comps.len(),
{
    if comps.len() == 0 {
        Seq::<char>::empty()
    } else if comps.len() == 1 {
        comps[0]
    } else {
        join(comps.drop_last(), sep) + sep + comps.last()
    }
}

/// The path text of a component list: the root component is not followed by
/// an extra separator.
pub open spec fn path_text(comps: Seq<Seq<char>>) -> Seq<char> {
    if comps.len() > 0 && comps[0] == seq!['/'] {
        seq!['/'] + join(comps.drop_first(), seq!['/'])
    } else {
        join(comps, seq!['/'])
    }
}

/// Deep view of a list of component texts.
pub open spec fn texts(v: Seq<Vec<char>>) -> Seq<Seq<char>> {
    Seq::new(v.len(), |i: int| v[i]@)
}

/// The raw `'/'`-separated segments of `cs`.
fn split_segments(cs: &Vec<char>) -> (r: Vec<Vec<char>>)
    ensures
        texts(r@) == split_slash(cs@),
{
    let mut segs: Vec<Vec<char>> = Vec::new();
    let mut cur: Vec<char> = Vec::new();
    let mut i: usize = 0;
    assert(cs@.subrange(0, 0) =~= Seq::<char>::empty());
    assert(texts(segs@).push(cur@) =~= split_slash(Seq::<char>::empty()));
    while i < cs.len()
        invariant
            i <= cs@.len(),
            texts(segs@).push(cur@) == split_slash(cs@.subrange(0, i as int)),
        decreases cs@.len() - i,
    {
        let c = cs[i];
        let ghost pre = cs@.subrange(0, i + 1);
        assert(pre.drop_last() =~= cs@.subrange(0, i as int));
        let ghost before = texts(segs@).push(cur@);
        if c == '/' {
            let done = cur;
            segs.push(done);
            cur = Vec::new();
            assert(texts(segs@).push(cur@) =~= before.push(Seq::<char>::empty()));
        } else {
            cur.push(c);
            assert(texts(segs@).push(cur@) =~= before.update(
                before.len() - 1,
                before.last().push(c),
            ));
        }
        i = i + 1;
    }
    assert(cs@.subrange(0, i as int) =~= cs@);
    segs.push(cur);
    assert(texts(segs@) =~= split_slash(cs@));
    segs
}

/// Whether `s` is the one-character text `c`.
fn is_single(s: &Vec<char>, c: char) -> (r: bool)
    ensures
        r == (s@ == seq![c]),
{
    if s.len() == 1 && s[0] == c {
        assert(s@ =~= seq![c]);
        true
    } else {
        false
    }
}

/// The components of path `p`, as character vectors.
pub fn path_components(p: &str) -> (r: Vec<Vec<char>>)
    ensures
        texts(r@) == components(p@),
{
    let cs = chars_of(p);
    let segs = split_segments(&cs);
    proof {
        lemma_split_nonempty(cs@);
    }
    let mut out: Vec<Vec<char>> = Vec::new();
    let absolute = cs.len() > 0 && cs[0] == '/';
    if absolute {
        let mut root = Vec::new();
        root.push('/');
        out.push(root);
        assert(texts(out@) =~= seq![seq!['/']]);
    } else if is_single(&segs[0], '.') {
        let mut dot = Vec::new();
        dot.push('.');
        out.push(dot);
        assert(texts(out@) =~= seq![seq!['.']]);
    } else {
        assert(texts(out@) =~= Seq::<Seq<char>>::empty());
    }
    assert(texts(segs@)[0] == segs@[0]@);
    let ghost head = texts(out@);
    let mut i: usize = 0;
    assert(segs@.subrange(0, 0) =~= Seq::<Vec<char>>::empty());
    assert(texts(out@) =~= head + keep_named(texts(segs@.subrange(0, 0))));
    while i < segs.len()
        invariant
            i <= segs@.len(),
            texts(out@) == head + keep_named(texts(segs@.subrange(0, i as int))),
        decreases segs@.len() - i,
    {
        let ghost pre = texts(segs@.subrange(0, i + 1));
        assert(pre.drop_last() =~= texts(segs@.subrange(0, i as int)));
        assert(pre.last() == segs@[i as int]@);
        let s = &segs[i];
        if s.len() > 0 && !is_single(s, '.') {
            let mut copy: Vec<char> = Vec::new();
            let mut k: usize = 0;
            while k < s.len()
                invariant
                    k <= s@.len(),
                    copy@ == s@.subrange(0, k as int),
                decreases s@.len() - k,
            {
                copy.push(s[k]);
                assert(s@.subrange(0, k + 1) =~= copy@);
                k = k + 1;
            }
            assert(s@.subrange(0, k as int) =~= s@);
            let ghost before = texts(out@);
            out.push(copy);
            assert(texts(out@) =~= before.push(s@));
        }
        i = i + 1;
    }
    assert(segs@.subrange(0, i as int) =~= segs@);
    assert(texts(out@) =~= components(p@));
    out
}

/// Append `join(comps[lo..hi], "/")` to `out`.
pub fn push_joined(out: &mut String, comps: &Vec<Vec<char>>, lo: usize, hi: usize)
    requires
        lo <= hi <= comps@.len(),
    ensures
        final(out)@ == old(out)@ + join(texts(comps@.subrange(lo as int, hi as int)), seq!['/']),
{
    let mut i = lo;
    while i < hi
        invariant
            lo <= i <= hi <= comps@.len(),
            out@ == old(out)@ + join(texts(comps@.subrange(lo as int, i as int)), seq!['/']),
        decreases hi - i,
    {
        let ghost pre = texts(comps@.subrange(lo as int, i + 1));
        assert(pre.drop_last() =~= texts(comps@.subrange(lo as int, i as int)));
        if i > lo {
            out.push('/');
        }
        push_range(out, &comps[i], 0, comps[i].len());
        assert(comps@[i as int]@.subrange(0, comps@[i as int]@.len() as int) =~= comps@[i as int]@);
        proof {
            if i == lo {
                assert(texts(comps@.subrange(lo as int, i as int)) =~= Seq::<Seq<char>>::empty());
            }
        }
        assert(out@ =~= old(out)@ + join(pre, seq!['/']));
        i = i + 1;
    }
}

/// `path_text` of `comps[lo..hi]` as a `String`.
pub fn path_string(comps: &Vec<Vec<char>>, lo: usize, hi: usize) -> (r: String)
    requires
        lo <= hi <= comps@.len(),
    ensures
        r@ == path_text(texts(comps@.subrange(lo as int, hi as int))),
{
    let mut out = String::new();
    let ghost c = texts(comps@.subrange(lo as int, hi as int));
    if lo < hi && is_single(&comps[lo], '/') {
        out.push('/');
        push_joined(&mut out, comps, lo + 1, hi);
        assert(c.drop_first() =~= texts(comps@.subrange(lo + 1, hi as int)));
    } else {
        push_joined(&mut out, comps, lo, hi);
    }
    out
}

/// Whether `a` and `b` hold the same characters.
pub fn chars_eq(a: &Vec<char>, b: &Vec<char>) -> (r: bool)
    ensures
        r == (a@ == b@),
{
    crate::text::seq_eq(a, b)
}

/// Number of leading components of `full` to skip to make it relative to `root`.
pub fn relative_start(root: &Vec<Vec<char>>, full: &Vec<Vec<char>>) -> (r: usize)
    ensures
        r <= full@.len(),
        texts(full@.subrange(r as int, full@.len() as int)) == relative_components(
            texts(root@),
            texts(full@),
        ),
{
    let ghost rt = texts(root@);
    let ghost ft = texts(full@);
    if root.len() > full.len() {
        assert(ft.subrange(0, ft.len() as int) =~= ft);
        assert(texts(full@.subrange(0, full@.len() as int)) =~= ft);
        return 0;
    }
    let mut i: usize = 0;
    while i < root.len()
        invariant
            root@.len() <= full@.len(),
            i <= root@.len(),
            rt == texts(root@),
            ft == texts(full@),
            forall|j: int| 0 <= j < i ==> root@[j]@ == full@[j]@,
        decreases root@.len() - i,
    {
        if !chars_eq(&root[i], &full[i]) {
            assert(ft.subrange(0, rt.len() as int)[i as int] != rt[i as int]);
            assert(texts(full@.subrange(0, full@.len() as int)) =~= ft);
            return 0;
        }
        i = i + 1;
    }
    assert(ft.subrange(0, rt.len() as int) =~= rt);
    assert(texts(full@.subrange(i as int, full@.len() as int)) =~= ft.subrange(
        rt.len() as int,
        ft.len() as int,
    ));
    root.len()
}

} // verus!
