//! Running totals of a shopping list, one per ingredient name and dimension.

use super::{AddView, ResolutionErrorView, SourceRef, SourceRefView};
use crate::recipe::units::Dimension;
use crate::recipe::views;
use crate::search::{first_index, lemma_first_index, lemma_first_index_facts};
use crate::text::{lower_ascii_seq, owned, str_eq};
use vstd::prelude::*;

verus! {

/// A running total: the ingredient (by lowercased and displayed name), its
/// dimension (none for unitless or text quantities), the summed amount in
/// millionths of the canonical unit, the first text quantity seen, the
/// distinct notes and sources, and whether a trivially small mass was folded in.
#[derive(Debug)]
pub struct Bin {
    pub normalized: String,
    pub display_name: String,
    pub dim: Option<Dimension>,
    pub amount: u128,
    pub text: Option<String>,
    pub notes: Vec<String>,
    pub sources: Vec<SourceRef>,
    pub trivial: bool,
}

/// View of a bin.
pub struct BinView {
    pub normalized: Seq<char>,
    pub display_name: Seq<char>,
    pub dim: Option<Dimension>,
    pub amount: nat,
    pub text: Option<Seq<char>>,
    pub notes: Seq<Seq<char>>,
    pub sources: Seq<SourceRefView>,
    pub trivial: bool,
}

impl View for Bin {
    type V = BinView;

    open spec fn view(&self) -> BinView {
        BinView {
            normalized: self.normalized@,
            display_name: self.display_name@,
            dim: self.dim,
            amount: self.amount as nat,
            text: crate::recipe::opt_view(self.text),
            notes: views(self.notes@),
            sources: views(self.sources@),
            trivial: self.trivial,
        }
    }
}

/// The state of an aggregation: totals, the sources used, the errors met.
pub struct AggView {
    pub bins: Seq<BinView>,
    pub sources: Seq<SourceRefView>,
    pub errors: Seq<ResolutionErrorView>,
}

/// The bin of name `n` and dimension `d`.
pub open spec fn bin_is(n: Seq<char>, d: Option<Dimension>) -> spec_fn(BinView) -> bool {
    |b: BinView| b.normalized == n && b.dim == d
}

/// Two references name the same recipe version.
pub open spec fn same_source(a: SourceRefView, b: SourceRefView) -> bool {
    a.slug == b.slug && a.version == b.version
}

/// Some reference of `ss` names the version `s` names.
pub open spec fn has_source(ss: Seq<SourceRefView>, s: SourceRefView) -> bool {
    exists|k: int| 0 <= k < ss.len() && same_source(#[trigger] ss[k], s)
}

/// `s` added to `ss` unless its version is there already.
pub open spec fn add_source(ss: Seq<SourceRefView>, s: SourceRefView) -> Seq<SourceRefView> {
    if has_source(ss, s) {
        ss
    } else {
        ss.push(s)
    }
}

/// A note added unless empty or already there.
pub open spec fn add_note(notes: Seq<Seq<char>>, note: Option<Seq<char>>) -> Seq<Seq<char>> {
    match note {
        Some(n) => if n.len() > 0 && !notes.contains(n) {
            notes.push(n)
        } else {
            notes
        },
        None => notes,
    }
}

/// Sum, saturating at the largest `u128`.
pub open spec fn sat_add(a: nat, b: nat) -> nat {
    if a + b > u128::MAX {
        u128::MAX as nat
    } else {
        a + b
    }
}

/// A fresh bin for a contribution.
pub open spec fn new_bin(a: AddView) -> BinView {
    BinView {
        normalized: a.normalized,
        display_name: a.display,
        dim: a.dim,
        amount: 0,
        text: a.text,
        notes: seq![],
        sources: seq![],
        trivial: false,
    }
}

/// A contribution added to the bin of its name and dimension (a new bin at
/// the end when there is none): amount summed, note and source recorded.
pub open spec fn add_to_bins(bins: Seq<BinView>, a: AddView, src: SourceRefView) -> Seq<BinView> {
    let p = first_index(bins, bin_is(a.normalized, a.dim));
    let bs = if p < bins.len() {
        bins
    } else {
        bins.push(new_bin(a))
    };
    let b = bs[p];
    bs.update(
        p,
        BinView {
            amount: sat_add(b.amount, a.amount),
            notes: add_note(b.notes, a.note),
            sources: add_source(b.sources, src),
            ..b
        },
    )
}

/// No two bins share a name and dimension.
pub open spec fn bins_distinct(bins: Seq<BinView>) -> bool {
    forall|i: int, j: int|
        0 <= i < j < bins.len() ==> !((#[trigger] bins[i]).normalized == (#[trigger] bins[j]).normalized
            && bins[i].dim == bins[j].dim)
}

/// Adding a contribution keeps one bin per name and dimension: the bin of
/// the contribution's name and dimension holds the old total plus its
/// amount (a new bin at the end when there was none), and every other bin
/// is unchanged.
pub proof fn lemma_add_to_bins(bins: Seq<BinView>, a: AddView, src: SourceRefView)
    requires
        bins_distinct(bins),
    ensures
        ({
            let r = add_to_bins(bins, a, src);
            let p = first_index(bins, bin_is(a.normalized, a.dim));
            let before = if p < bins.len() { bins[p].amount } else { 0 };
            &&& bins_distinct(r)
            &&& r.len() == (if p < bins.len() { bins.len() } else { bins.len() + 1 })
            &&& first_index(r, bin_is(a.normalized, a.dim)) == p
            &&& r[p].normalized == a.normalized && r[p].dim == a.dim
            &&& r[p].amount == sat_add(before, a.amount)
            &&& forall|i: int| 0 <= i < bins.len() && i != p ==> r[i] == bins[i]
        }),
{
    let key = bin_is(a.normalized, a.dim);
    lemma_first_index_facts(bins, key);
    let p = first_index(bins, key);
    let bs = if p < bins.len() { bins } else { bins.push(new_bin(a)) };
    let r = add_to_bins(bins, a, src);
    assert(key(bs[p]));
    assert forall|j: int| 0 <= j < p implies !key(#[trigger] r[j]) by {
        assert(r[j] == bins[j]);
    }
    lemma_first_index(r, key, p);
    assert forall|i: int, j: int| 0 <= i < j < r.len() implies !((#[trigger] r[i]).normalized == (#[trigger] r[j]).normalized
        && r[i].dim == r[j].dim) by {
        if i == p {
            assert(r[j] == bs[j]);
            if j < bins.len() {
                assert(!(bins[p].normalized == bins[j].normalized && bins[p].dim == bins[j].dim));
            }
        } else if j == p {
            assert(r[i] == bins[i]);
            assert(!key(bins[i]));
        } else {
            assert(r[i] == bins[i] && r[j] == bins[j]);
        }
    }
}

/// Position of the bin of name `n` and dimension `d`, or the number of bins.
pub fn find_bin(bins: &Vec<Bin>, n: &str, d: Option<Dimension>) -> (r: usize)
    ensures
        r == first_index(views(bins@), bin_is(n@, d)),
{
    let ghost vs = views(bins@);
    let mut i: usize = 0;
    while i < bins.len()
        invariant
            i <= bins@.len(),
            vs == views(bins@),
            forall|j: int| 0 <= j < i ==> !bin_is(n@, d)(#[trigger] vs[j]),
        decreases bins@.len() - i,
    {
        let same_dim = match (bins[i].dim, d) {
            (Some(x), Some(y)) => x == y,
            (None, None) => true,
            _ => false,
        };
        if same_dim && str_eq(bins[i].normalized.as_str(), n) {
            proof {
                lemma_first_index(vs, bin_is(n@, d), i as int);
            }
            return i;
        }
        i = i + 1;
    }
    proof {
        lemma_first_index(vs, bin_is(n@, d), i as int);
    }
    i
}

/// Whether `notes` holds `n`.
pub fn notes_contain(notes: &Vec<String>, n: &str) -> (r: bool)
    ensures
        r == views(notes@).contains(n@),
{
    let ghost vs = views(notes@);
    let mut i: usize = 0;
    while i < notes.len()
        invariant
            i <= notes@.len(),
            vs == views(notes@),
            forall|j: int| 0 <= j < i ==> vs[j] != n@,
        decreases notes@.len() - i,
    {
        if str_eq(notes[i].as_str(), n) {
            assert(vs[i as int] == n@);
            return true;
        }
        i = i + 1;
    }
    false
}

/// Whether `ss` holds a reference to the version `s` names.
pub fn sources_contain(ss: &Vec<SourceRef>, s: &SourceRef) -> (r: bool)
    ensures
        r == has_source(views(ss@), s@),
{
    let ghost vs = views(ss@);
    let mut i: usize = 0;
    while i < ss.len()
        invariant
            i <= ss@.len(),
            vs == views(ss@),
            forall|j: int| 0 <= j < i ==> !same_source(#[trigger] vs[j], s@),
        decreases ss@.len() - i,
    {
        if ss[i].version == s.version && str_eq(ss[i].slug.as_str(), s.slug.as_str()) {
            assert(same_source(vs[i as int], s@));
            return true;
        }
        i = i + 1;
    }
    false
}

/// Add a note unless empty or present.
pub fn push_note(notes: &mut Vec<String>, note: Option<String>)
    ensures
        views(final(notes)@) == add_note(views(old(notes)@), crate::recipe::opt_view(note)),
{
    match note {
        Some(n) => {
            if n.unicode_len() > 0 && !notes_contain(notes, n.as_str()) {
                notes.push(n);
                assert(views(notes@) =~= views(old(notes)@).push(n@));
            }
        },
        None => {},
    }
}

/// Add a source unless its version is present.
pub fn push_source(ss: &mut Vec<SourceRef>, s: &SourceRef)
    ensures
        views(final(ss)@) == add_source(views(old(ss)@), s@),
{
    if !sources_contain(ss, s) {
        ss.push(s.duplicate());
        assert(views(ss@) =~= views(old(ss)@).push(s@));
    }
}

/// Add a contribution (name, display name, dimension, amount, text value,
/// note) from source `src` to the bins.
pub fn add_to_bins_exec(
    bins: &mut Vec<Bin>,
    normalized: String,
    display: String,
    dim: Option<Dimension>,
    amount: u128,
    text: Option<String>,
    note: Option<String>,
    src: &SourceRef,
)
    ensures
        views(final(bins)@) == add_to_bins(
            views(old(bins)@),
            AddView {
                normalized: normalized@,
                display: display@,
                dim,
                amount: amount as nat,
                text: crate::recipe::opt_view(text),
                note: crate::recipe::opt_view(note),
            },
            src@,
        ),
{
    let ghost a = AddView {
        normalized: normalized@,
        display: display@,
        dim,
        amount: amount as nat,
        text: crate::recipe::opt_view(text),
        note: crate::recipe::opt_view(note),
    };
    let ghost bs0 = views(bins@);
    let p = find_bin(bins, normalized.as_str(), dim);
    proof {
        lemma_first_index_facts(bs0, bin_is(a.normalized, a.dim));
    }
    if p == bins.len() {
        let nb = Bin {
            normalized,
            display_name: display,
            dim,
            amount: 0,
            text,
            notes: Vec::new(),
            sources: Vec::new(),
            trivial: false,
        };
        assert(nb@.notes =~= Seq::<Seq<char>>::empty());
        assert(nb@.sources =~= Seq::<SourceRefView>::empty());
        assert(nb@ == new_bin(a));
        bins.push(nb);
        assert(views(bins@) =~= bs0.push(new_bin(a)));
    }
    let ghost bs1 = views(bins@);
    let mut b = bins.remove(p);
    assert(b@ == bs1[p as int]);
    let sum: u128 = if b.amount > u128::MAX - amount {
        u128::MAX
    } else {
        b.amount + amount
    };
    b.amount = sum;
    push_note(&mut b.notes, note);
    push_source(&mut b.sources, src);
    bins.insert(p, b);
    assert(views(bins@) =~= bs1.update(
        p as int,
        BinView {
            amount: sat_add(bs1[p as int].amount, a.amount),
            notes: add_note(bs1[p as int].notes, a.note),
            sources: add_source(bs1[p as int].sources, src@),
            ..bs1[p as int]
        },
    ));
}

/// Below 5 g a mass is "a bit of" the ingredient.
pub open spec fn trivial_mass(b: BinView) -> bool {
    b.dim == Some(Dimension::Mass) && b.amount < 5_000_000
}

/// The unitless bin of name `n`.
pub open spec fn unitless_named(n: Seq<char>) -> spec_fn(BinView) -> bool {
    |b: BinView| b.normalized == n && b.dim is None
}

/// The trivially small mass bin of name `n`.
pub open spec fn trivial_named(n: Seq<char>) -> spec_fn(BinView) -> bool {
    |b: BinView| b.normalized == n && trivial_mass(b)
}

/// Notes of `b` not yet in `a`, appended in order.
pub open spec fn union_notes(a: Seq<Seq<char>>, b: Seq<Seq<char>>) -> Seq<Seq<char>>
    decreases b.len(),
{
    if b.len() == 0 {
        a
    } else {
        let x = union_notes(a, b.drop_last());
        if x.contains(b.last()) {
            x
        } else {
            x.push(b.last())
        }
    }
}

/// Sources of `b` whose versions are not yet in `a`, appended in order.
pub open spec fn union_sources(a: Seq<SourceRefView>, b: Seq<SourceRefView>) -> Seq<SourceRefView>
    decreases b.len(),
{
    if b.len() == 0 {
        a
    } else {
        add_source(union_sources(a, b.drop_last()), b.last())
    }
}

/// The unitless bin `t` with the trivial mass bin `r` folded into it.
pub open spec fn merged(t: BinView, r: BinView) -> BinView {
    BinView {
        notes: union_notes(t.notes, r.notes),
        sources: union_sources(t.sources, r.sources),
        trivial: true,
        ..t
    }
}

/// A trivial mass bin turned unitless.
pub open spec fn converted(b: BinView) -> BinView {
    BinView { dim: None, amount: 0, trivial: true, ..b }
}

/// What bin `b` of `bins` becomes: a trivial mass bin disappears into the
/// unitless bin of the same name when there is one, and is turned unitless
/// otherwise; a unitless bin takes in the trivial mass bin of its name.
pub open spec fn demoted_piece(bins: Seq<BinView>, b: BinView) -> Seq<BinView> {
    if trivial_mass(b) {
        if first_index(bins, unitless_named(b.normalized)) < bins.len() {
            seq![]
        } else {
            seq![converted(b)]
        }
    } else if b.dim is None {
        let t = first_index(bins, trivial_named(b.normalized));
        if t < bins.len() {
            seq![merged(b, bins[t])]
        } else {
            seq![b]
        }
    } else {
        seq![b]
    }
}

/// The pieces of the first `n` bins.
pub open spec fn demote_prefix(bins: Seq<BinView>, n: int) -> Seq<BinView>
    decreases n,
{
    if n <= 0 {
        seq![]
    } else {
        demote_prefix(bins, n - 1) + demoted_piece(bins, bins[n - 1])
    }
}

/// Bins after trivially small masses are folded away.
pub open spec fn demoted(bins: Seq<BinView>) -> Seq<BinView> {
    demote_prefix(bins, bins.len() as int)
}

/// The name and dimension a bin has after demotion: a trivially small mass
/// becomes unitless.
pub open spec fn demoted_key(b: BinView) -> (Seq<char>, Option<Dimension>) {
    (b.normalized, if trivial_mass(b) { None } else { b.dim })
}

/// Whether bin `b` of `bins` leaves a bin after demotion.
pub open spec fn survives(bins: Seq<BinView>, b: BinView) -> bool {
    !(trivial_mass(b) && first_index(bins, unitless_named(b.normalized)) < bins.len())
}

/// What demotion makes of one bin: nothing, or one bin under its demoted key.
proof fn lemma_piece(bins: Seq<BinView>, b: BinView)
    ensures
        demoted_piece(bins, b).len() == (if survives(bins, b) { 1int } else { 0int }),
        survives(bins, b) ==> (demoted_piece(bins, b)[0].normalized, demoted_piece(bins, b)[0].dim)
            == demoted_key(b),
{
}

/// The bins left by demoting the first `n` bins are keyed distinctly, each
/// under the demoted key of a surviving bin among the first `n`.
proof fn lemma_demote_prefix(bins: Seq<BinView>, n: int)
    requires
        bins_distinct(bins),
        0 <= n <= bins.len(),
    ensures
        bins_distinct(demote_prefix(bins, n)),
        forall|k: int| 0 <= k < demote_prefix(bins, n).len() ==> exists|i: int|
            0 <= i < n && survives(bins, bins[i]) && (#[trigger] demote_prefix(bins, n)[k]).normalized
                == demoted_key(bins[i]).0 && demote_prefix(bins, n)[k].dim == demoted_key(bins[i]).1,
    decreases n,
{
    if n > 0 {
        lemma_demote_prefix(bins, n - 1);
        let prev = demote_prefix(bins, n - 1);
        let b = bins[n - 1];
        let piece = demoted_piece(bins, b);
        lemma_piece(bins, b);
        let d = demote_prefix(bins, n);
        assert(d == prev + piece);
        lemma_first_index_facts(bins, unitless_named(b.normalized));
        assert forall|k: int| 0 <= k < d.len() implies exists|i: int|
            0 <= i < n && survives(bins, bins[i]) && (#[trigger] d[k]).normalized == demoted_key(bins[i]).0
                && d[k].dim == demoted_key(bins[i]).1 by {
            if k < prev.len() {
                assert(d[k] == prev[k]);
                let i = choose|i: int|
                    0 <= i < n - 1 && survives(bins, bins[i]) && (#[trigger] prev[k]).normalized
                        == demoted_key(bins[i]).0 && prev[k].dim == demoted_key(bins[i]).1;
                assert(0 <= i < n);
            } else {
                assert(d[k] == piece[0]);
                assert(survives(bins, bins[n - 1]));
            }
        }
        assert forall|x: int, y: int| 0 <= x < y < d.len() implies !((#[trigger] d[x]).normalized
            == (#[trigger] d[y]).normalized && d[x].dim == d[y].dim) by {
            if y < prev.len() {
                assert(d[x] == prev[x] && d[y] == prev[y]);
            } else {
                assert(d[x] == prev[x] && d[y] == piece[0]);
                let i = choose|i: int|
                    0 <= i < n - 1 && survives(bins, bins[i]) && (#[trigger] prev[x]).normalized
                        == demoted_key(bins[i]).0 && prev[x].dim == demoted_key(bins[i]).1;
                let c = bins[i];
                if d[x].normalized == d[y].normalized && d[x].dim == d[y].dim {
                    assert(demoted_key(c) == demoted_key(b));
                    assert(c.normalized == b.normalized);
                    if trivial_mass(b) {
                        if trivial_mass(c) {
                            assert(c.dim == b.dim);
                        } else {
                            assert(c.dim is None);
                            assert(unitless_named(b.normalized)(c));
                        }
                    } else if b.dim is None {
                        if trivial_mass(c) {
                            assert(unitless_named(c.normalized)(b));
                            lemma_first_index_facts(bins, unitless_named(c.normalized));
                        } else {
                            assert(c.dim == b.dim);
                        }
                    } else {
                        assert(!trivial_mass(c));
                        assert(c.dim == b.dim);
                    }
                }
            }
        }
    }
}

/// The bins left by demoting the first `n` bins keep no mass under 5 g.
proof fn lemma_demote_prefix_floor(bins: Seq<BinView>, n: int)
    requires
        0 <= n <= bins.len(),
    ensures
        forall|k: int|
            0 <= k < demote_prefix(bins, n).len() && (#[trigger] demote_prefix(bins, n)[k]).dim
                == Some(Dimension::Mass) ==> demote_prefix(bins, n)[k].amount >= 5_000_000,
    decreases n,
{
    if n > 0 {
        lemma_demote_prefix_floor(bins, n - 1);
        let prev = demote_prefix(bins, n - 1);
        let piece = demoted_piece(bins, bins[n - 1]);
        let d = demote_prefix(bins, n);
        assert(d == prev + piece);
        assert forall|k: int| 0 <= k < d.len() && (#[trigger] d[k]).dim == Some(Dimension::Mass) implies d[k].amount
            >= 5_000_000 by {
            if k < prev.len() {
                assert(d[k] == prev[k]);
            } else {
                assert(d[k] == piece[k - prev.len()]);
            }
        }
    }
}

/// After demotion no mass total under 5 g keeps its amount: such a total is
/// unitless ("a bit of"), on its own or folded into the unitless total of
/// its name.
pub proof fn lemma_demoted_mass_floor(bins: Seq<BinView>)
    ensures
        forall|k: int|
            0 <= k < demoted(bins).len() && (#[trigger] demoted(bins)[k]).dim == Some(Dimension::Mass)
                ==> demoted(bins)[k].amount >= 5_000_000,
{
    lemma_demote_prefix_floor(bins, bins.len() as int);
}

/// Every total fits in a `u128`.
pub open spec fn bins_bounded(bins: Seq<BinView>) -> bool {
    forall|i: int| 0 <= i < bins.len() ==> (#[trigger] bins[i]).amount <= u128::MAX
}

/// Adding a contribution keeps every total within a `u128`: sums saturate.
pub proof fn lemma_add_bounded(bins: Seq<BinView>, a: AddView, src: SourceRefView)
    requires
        bins_distinct(bins),
        bins_bounded(bins),
    ensures
        bins_bounded(add_to_bins(bins, a, src)),
{
    lemma_add_to_bins(bins, a, src);
    lemma_first_index_facts(bins, bin_is(a.normalized, a.dim));
    let r = add_to_bins(bins, a, src);
    let p = first_index(bins, bin_is(a.normalized, a.dim));
    assert forall|i: int| 0 <= i < r.len() implies (#[trigger] r[i]).amount <= u128::MAX by {
        if i != p {
            assert(r[i] == bins[i]);
        }
    }
}

/// Demoting the first `n` bins keeps every total within a `u128`.
proof fn lemma_demote_prefix_bounded(bins: Seq<BinView>, n: int)
    requires
        0 <= n <= bins.len(),
        bins_bounded(bins),
    ensures
        bins_bounded(demote_prefix(bins, n)),
    decreases n,
{
    if n > 0 {
        lemma_demote_prefix_bounded(bins, n - 1);
        let prev = demote_prefix(bins, n - 1);
        let piece = demoted_piece(bins, bins[n - 1]);
        let d = demote_prefix(bins, n);
        assert(d == prev + piece);
        assert(bins[n - 1].amount <= u128::MAX);
        assert forall|k: int| 0 <= k < d.len() implies (#[trigger] d[k]).amount <= u128::MAX by {
            if k < prev.len() {
                assert(d[k] == prev[k]);
            } else {
                assert(d[k] == piece[k - prev.len()]);
            }
        }
    }
}

/// Demotion keeps every total within a `u128`.
pub proof fn lemma_demoted_bounded(bins: Seq<BinView>)
    requires
        bins_bounded(bins),
    ensures
        bins_bounded(demoted(bins)),
{
    lemma_demote_prefix_bounded(bins, bins.len() as int);
}

/// Every bin's grouping name is its display name lowercased.
pub open spec fn bins_named(bins: Seq<BinView>) -> bool {
    forall|i: int| 0 <= i < bins.len() ==> (#[trigger] bins[i]).normalized == lower_ascii_seq(bins[i].display_name)
}

/// Adding a contribution whose grouping name is its display name lowercased
/// keeps every bin so named.
pub proof fn lemma_add_named(bins: Seq<BinView>, a: AddView, src: SourceRefView)
    requires
        bins_named(bins),
        a.normalized == lower_ascii_seq(a.display),
    ensures
        bins_named(add_to_bins(bins, a, src)),
{
    lemma_first_index_facts(bins, bin_is(a.normalized, a.dim));
    let p = first_index(bins, bin_is(a.normalized, a.dim));
    let bs = if p < bins.len() { bins } else { bins.push(new_bin(a)) };
    let r = add_to_bins(bins, a, src);
    assert forall|i: int| 0 <= i < r.len() implies (#[trigger] r[i]).normalized == lower_ascii_seq(r[i].display_name) by {
        if i == p {
            assert(r[i].normalized == bs[p].normalized && r[i].display_name == bs[p].display_name);
        } else {
            assert(r[i] == bs[i]);
        }
    }
}

/// Demotion keeps every bin named by its lowercased display name.
proof fn lemma_demote_prefix_named(bins: Seq<BinView>, n: int)
    requires
        bins_named(bins),
        0 <= n <= bins.len(),
    ensures
        bins_named(demote_prefix(bins, n)),
    decreases n,
{
    if n > 0 {
        lemma_demote_prefix_named(bins, n - 1);
        let prev = demote_prefix(bins, n - 1);
        let piece = demoted_piece(bins, bins[n - 1]);
        let d = demote_prefix(bins, n);
        assert(d == prev + piece);
        assert(bins[n - 1].normalized == lower_ascii_seq(bins[n - 1].display_name));
        assert forall|k: int| 0 <= k < d.len() implies (#[trigger] d[k]).normalized == lower_ascii_seq(d[k].display_name) by {
            if k < prev.len() {
                assert(d[k] == prev[k]);
            } else {
                assert(d[k] == piece[k - prev.len()]);
            }
        }
    }
}

/// Demotion keeps every bin named by its lowercased display name.
pub proof fn lemma_demoted_named(bins: Seq<BinView>)
    requires
        bins_named(bins),
    ensures
        bins_named(demoted(bins)),
{
    lemma_demote_prefix_named(bins, bins.len() as int);
}

/// Demotion keeps one bin per name and dimension: a trivially small mass
/// either joins the unitless bin of its name or becomes that bin.
pub proof fn lemma_demoted_distinct(bins: Seq<BinView>)
    requires
        bins_distinct(bins),
    ensures
        bins_distinct(demoted(bins)),
{
    lemma_demote_prefix(bins, bins.len() as int);
}

/// Some bin of name `n` has a dimension other than that of another bin of name `n`.
pub open spec fn mixed_units(bins: Seq<BinView>, n: Seq<char>) -> bool {
    exists|i: int, j: int|
        0 <= i < bins.len() && 0 <= j < bins.len() && (#[trigger] bins[i]).normalized == n
            && (#[trigger] bins[j]).normalized == n && bins[i].dim is Some && bins[j].dim is Some
            && bins[i].dim != bins[j].dim
}

fn copy_notes(notes: &Vec<String>) -> (r: Vec<String>)
    ensures
        views(r@) == views(notes@),
{
    let mut out: Vec<String> = Vec::new();
    let mut i: usize = 0;
    while i < notes.len()
        invariant
            i <= notes@.len(),
            views(out@) == views(notes@).take(i as int),
        decreases notes@.len() - i,
    {
        let ghost before = views(out@);
        out.push(owned(notes[i].as_str()));
        assert(views(out@) =~= before.push(notes@[i as int]@));
        assert(views(out@) =~= views(notes@).take(i + 1));
        i = i + 1;
    }
    assert(views(notes@).take(i as int) =~= views(notes@));
    out
}

fn copy_sources(ss: &Vec<SourceRef>) -> (r: Vec<SourceRef>)
    ensures
        views(r@) == views(ss@),
{
    let mut out: Vec<SourceRef> = Vec::new();
    let mut i: usize = 0;
    while i < ss.len()
        invariant
            i <= ss@.len(),
            views(out@) == views(ss@).take(i as int),
        decreases ss@.len() - i,
    {
        let ghost before = views(out@);
        out.push(ss[i].duplicate());
        assert(views(out@) =~= before.push(ss@[i as int]@));
        assert(views(out@) =~= views(ss@).take(i + 1));
        i = i + 1;
    }
    assert(views(ss@).take(i as int) =~= views(ss@));
    out
}

fn copy_opt(s: &Option<String>) -> (r: Option<String>)
    ensures
        crate::recipe::opt_view(r) == crate::recipe::opt_view(*s),
{
    match s {
        Some(t) => Some(owned(t.as_str())),
        None => None,
    }
}

fn copy_bin(b: &Bin) -> (r: Bin)
    ensures
        r@ == b@,
{
    Bin {
        normalized: owned(b.normalized.as_str()),
        display_name: owned(b.display_name.as_str()),
        dim: b.dim,
        amount: b.amount,
        text: copy_opt(&b.text),
        notes: copy_notes(&b.notes),
        sources: copy_sources(&b.sources),
        trivial: b.trivial,
    }
}

fn is_trivial_mass(b: &Bin) -> (r: bool)
    ensures
        r == trivial_mass(b@),
{
    match b.dim {
        Some(Dimension::Mass) => b.amount < 5_000_000,
        _ => false,
    }
}

fn find_unitless(bins: &Vec<Bin>, n: &str) -> (r: usize)
    ensures
        r == first_index(views(bins@), unitless_named(n@)),
{
    let ghost vs = views(bins@);
    let mut i: usize = 0;
    while i < bins.len()
        invariant
            i <= bins@.len(),
            vs == views(bins@),
            forall|j: int| 0 <= j < i ==> !unitless_named(n@)(#[trigger] vs[j]),
        decreases bins@.len() - i,
    {
        if bins[i].dim.is_none() && str_eq(bins[i].normalized.as_str(), n) {
            proof {
                lemma_first_index(vs, unitless_named(n@), i as int);
            }
            return i;
        }
        i = i + 1;
    }
    proof {
        lemma_first_index(vs, unitless_named(n@), i as int);
    }
    i
}

fn find_trivial(bins: &Vec<Bin>, n: &str) -> (r: usize)
    ensures
        r == first_index(views(bins@), trivial_named(n@)),
{
    let ghost vs = views(bins@);
    let mut i: usize = 0;
    while i < bins.len()
        invariant
            i <= bins@.len(),
            vs == views(bins@),
            forall|j: int| 0 <= j < i ==> !trivial_named(n@)(#[trigger] vs[j]),
        decreases bins@.len() - i,
    {
        if is_trivial_mass(&bins[i]) && str_eq(bins[i].normalized.as_str(), n) {
            proof {
                lemma_first_index(vs, trivial_named(n@), i as int);
            }
            return i;
        }
        i = i + 1;
    }
    proof {
        lemma_first_index(vs, trivial_named(n@), i as int);
    }
    i
}

fn merge_into(t: &mut Bin, r: &Bin)
    ensures
        final(t)@ == merged(old(t)@, r@),
{
    let mut i: usize = 0;
    while i < r.notes.len()
        invariant
            i <= r.notes@.len(),
            t.normalized == old(t).normalized,
            t.display_name == old(t).display_name,
            t.dim == old(t).dim,
            t.amount == old(t).amount,
            t.text == old(t).text,
            t.sources == old(t).sources,
            t.trivial == old(t).trivial,
            views(t.notes@) == union_notes(views(old(t).notes@), views(r.notes@).take(i as int)),
        decreases r.notes@.len() - i,
    {
        let ghost before = views(t.notes@);
        let present = notes_contain(&t.notes, r.notes[i].as_str());
        assert(views(r.notes@).take(i + 1).drop_last() =~= views(r.notes@).take(i as int));
        if !present {
            t.notes.push(owned(r.notes[i].as_str()));
            assert(views(t.notes@) =~= before.push(r.notes@[i as int]@));
        }
        i = i + 1;
    }
    assert(views(r.notes@).take(i as int) =~= views(r.notes@));
    let mut k: usize = 0;
    while k < r.sources.len()
        invariant
            k <= r.sources@.len(),
            t.normalized == old(t).normalized,
            t.display_name == old(t).display_name,
            t.dim == old(t).dim,
            t.amount == old(t).amount,
            t.text == old(t).text,
            t.trivial == old(t).trivial,
            views(t.notes@) == union_notes(views(old(t).notes@), views(r.notes@)),
            views(t.sources@) == union_sources(views(old(t).sources@), views(r.sources@).take(k as int)),
        decreases r.sources@.len() - k,
    {
        assert(views(r.sources@).take(k + 1).drop_last() =~= views(r.sources@).take(k as int));
        push_source(&mut t.sources, &r.sources[k]);
        k = k + 1;
    }
    assert(views(r.sources@).take(k as int) =~= views(r.sources@));
    t.trivial = true;
}

/// Fold trivially small masses away (see `demoted`).
pub fn demote(bins: &Vec<Bin>) -> (r: Vec<Bin>)
    ensures
        views(r@) == demoted(views(bins@)),
{
    let ghost vs = views(bins@);
    let mut out: Vec<Bin> = Vec::new();
    let mut i: usize = 0;
    while i < bins.len()
        invariant
            i <= bins@.len(),
            vs == views(bins@),
            views(out@) == demote_prefix(vs, i as int),
        decreases bins@.len() - i,
    {
        let b = &bins[i];
        let ghost before = views(out@);
        assert(vs[i as int] == b@);
        if is_trivial_mass(b) {
            if find_unitless(bins, b.normalized.as_str()) < bins.len() {
                assert(views(out@) =~= before + demoted_piece(vs, b@));
            } else {
                let mut c = copy_bin(b);
                c.dim = None;
                c.amount = 0;
                c.trivial = true;
                out.push(c);
                assert(views(out@) =~= before + demoted_piece(vs, b@));
            }
        } else if b.dim.is_none() {
            let t = find_trivial(bins, b.normalized.as_str());
            if t < bins.len() {
                let mut c = copy_bin(b);
                merge_into(&mut c, &bins[t]);
                out.push(c);
                assert(views(out@) =~= before + demoted_piece(vs, b@));
            } else {
                out.push(copy_bin(b));
                assert(views(out@) =~= before + demoted_piece(vs, b@));
            }
        } else {
            out.push(copy_bin(b));
            assert(views(out@) =~= before + demoted_piece(vs, b@));
        }
        i = i + 1;
    }
    out
}

fn find_dimensioned(bins: &Vec<Bin>, n: &str) -> (r: usize)
    ensures
        r <= bins@.len(),
        forall|j: int| 0 <= j < r ==> !((#[trigger] views(bins@)[j]).normalized == n@ && views(bins@)[j].dim is Some),
        r < bins@.len() ==> views(bins@)[r as int].normalized == n@ && views(bins@)[r as int].dim is Some,
{
    let ghost vs = views(bins@);
    let mut i: usize = 0;
    while i < bins.len()
        invariant
            i <= bins@.len(),
            vs == views(bins@),
            forall|j: int| 0 <= j < i ==> !((#[trigger] vs[j]).normalized == n@ && vs[j].dim is Some),
        decreases bins@.len() - i,
    {
        if bins[i].dim.is_some() && str_eq(bins[i].normalized.as_str(), n) {
            return i;
        }
        i = i + 1;
    }
    i
}

/// Whether bins of name `n` disagree on their dimension.
pub fn mixed_units_exec(bins: &Vec<Bin>, n: &str) -> (r: bool)
    ensures
        r == mixed_units(views(bins@), n@),
{
    let ghost vs = views(bins@);
    let i = find_dimensioned(bins, n);
    if i == bins.len() {
        return false;
    }
    let d0 = bins[i].dim;
    let ghost i0 = i as int;
    let mut j: usize = 0;
    while j < bins.len()
        invariant
            j <= bins@.len(),
            vs == views(bins@),
            0 <= i0 < vs.len(),
            vs[i0].normalized == n@,
            vs[i0].dim == d0,
            d0 is Some,
            forall|k: int| 0 <= k < j ==> ((#[trigger] vs[k]).normalized == n@ && vs[k].dim is Some) ==> vs[k].dim == d0,
        decreases bins@.len() - j,
    {
        let differs = match (bins[j].dim, d0) {
            (Some(x), Some(y)) => x != y,
            _ => false,
        };
        if differs && str_eq(bins[j].normalized.as_str(), n) {
            assert(vs[i0].normalized == n@ && vs[j as int].normalized == n@);
            return true;
        }
        j = j + 1;
    }
    assert forall|a: int, b: int|
        0 <= a < vs.len() && 0 <= b < vs.len() && (#[trigger] vs[a]).normalized == n@
            && (#[trigger] vs[b]).normalized == n@ && vs[a].dim is Some && vs[b].dim is Some
        implies vs[a].dim == vs[b].dim by {}
    false
}

} // verus!
