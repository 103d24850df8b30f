//! Per-line unified diff with lightweight Cooklang-aware syntax highlighting.

use crate::server::render::{esc_char, esc_spec, push_esc_char, push_esc_range};
use crate::text::{chars_of, dec, push_dec, push_str};
use vstd::prelude::*;

verus! {

/// How a diff line relates the two texts.
#[derive(Debug, Clone, Copy, PartialEq, Eq, Structural)]
pub enum LineKind {
    Equal,
    Added,
    Removed,
}

/// One rendered line of a diff.
#[derive(Debug, Clone)]
pub struct DiffLine {
    pub kind: LineKind,
    pub old_lineno: Option<usize>,
    pub new_lineno: Option<usize>,
    /// Already escaped and highlighted.
    pub html: String,
}

/// A Cooklang component sigil: ingredient, cookware or timer.
pub open spec fn is_sigil(c: char) -> bool {
    c == '@' || c == '#' || c == '~'
}

/// A character that ends a single-word component name.
pub open spec fn ends_name(c: char) -> bool {
    crate::text::is_ascii_ws(c) || c == ',' || c == '.' || c == ';' || c == ':' || c == '!'
        || c == '?'
}

/// First index `>= i` holding `c`, or `s.len()`.
pub open spec fn find_from(s: Seq<char>, c: char, i: int) -> int
    decreases s.len() - i,
{
    if i >= s.len() {
        s.len() as int
    } else if s[i] == c {
        i
    } else {
        find_from(s, c, i + 1)
    }
}

/// End of a braced component whose `{` is at `i`: through the closing `}`
/// (if any), then an optional `(…)` note.
pub open spec fn brace_end(s: Seq<char>, i: int) -> int {
    let j = find_from(s, '}', i + 1);
    let k = if j < s.len() { j + 1 } else { j };
    if k < s.len() && s[k] == '(' {
        let m = find_from(s, ')', k + 1);
        if m < s.len() { m + 1 } else { m }
    } else {
        k
    }
}

/// Scan a component name from `i`: a `{` switches to the braced form; a
/// space or punctuation ends the name.
pub open spec fn name_end(s: Seq<char>, i: int) -> int
    decreases s.len() - i,
{
    if i >= s.len() {
        s.len() as int
    } else if s[i] == '{' {
        brace_end(s, i)
    } else if ends_name(s[i]) {
        i
    } else {
        name_end(s, i + 1)
    }
}

/// Length of the Cooklang component starting at `s[i]` (sigil, name,
/// optional `{…}`, optional `(…)`), or 0 when there is none.
pub open spec fn component_len(s: Seq<char>, i: int) -> int {
    if s.len() - i < 2 || !is_sigil(s[i]) {
        0
    } else {
        let e = name_end(s, i + 1);
        if e == i + 1 { 0 } else { e - i }
    }
}

/// CSS class suffix of a sigil.
pub open spec fn sigil_class(c: char) -> Seq<char> {
    if c == '@' {
        "ing"@
    } else if c == '#' {
        "cook"@
    } else {
        "timer"@
    }
}

/// Highlighted HTML of `s[i..]`: components wrapped in `tk-*` spans, every
/// other character escaped.
#[verifier::opaque]
pub open spec fn highlight_from(s: Seq<char>, i: int) -> Seq<char>
    decreases s.len() - i,
{
    if i < 0 || i >= s.len() {
        Seq::<char>::empty()
    } else {
        let n = if is_sigil(s[i]) { component_len(s, i) } else { 0 };
        if n > 0 && i + n <= s.len() {
            "<span class=\"tk-"@ + sigil_class(s[i]) + "\">"@ + esc_spec(s.subrange(i, i + n))
                + "</span>"@ + highlight_from(s, i + n)
        } else {
            esc_char(s[i]) + highlight_from(s, i + 1)
        }
    }
}

/// Highlighted HTML of one source line.
pub open spec fn highlight_spec(line: Seq<char>) -> Seq<char> {
    if line.len() == 0 {
        Seq::<char>::empty()
    } else if line.len() >= 2 && line[0] == '>' && line[1] == '>' {
        "<span class=\"meta-line\">&gt;&gt;"@ + esc_spec(line.subrange(2, line.len() as int))
            + "</span>"@
    } else if line.len() >= 3 && line[0] == '-' && line[1] == '-' && line[2] == '-' {
        "<span class=\"meta-line\">"@ + esc_spec(line) + "</span>"@
    } else {
        highlight_from(line, 0)
    }
}

fn find_from_exec(s: &Vec<char>, c: char, i: usize) -> (r: usize)
    requires
        i <= s@.len(),
    ensures
        r == find_from(s@, c, i as int),
        i <= r <= s@.len(),
    decreases s@.len() - i,
{
    if i >= s.len() {
        s.len()
    } else if s[i] == c {
        i
    } else {
        find_from_exec(s, c, i + 1)
    }
}

/// `find_from` stays within `i..=s.len()`.
pub proof fn lemma_find_from_range(s: Seq<char>, c: char, i: int)
    requires
        0 <= i <= s.len(),
    ensures
        i <= find_from(s, c, i) <= s.len(),
    decreases s.len() - i,
{
    if i < s.len() && s[i] != c {
        lemma_find_from_range(s, c, i + 1);
    }
}

proof fn lemma_name_end_range(s: Seq<char>, i: int)
    requires
        0 <= i <= s.len(),
    ensures
        i <= name_end(s, i) <= s.len(),
    decreases s.len() - i,
{
    if i < s.len() {
        if s[i] == '{' {
            lemma_find_from_range(s, '}', i + 1);
            let j = find_from(s, '}', i + 1);
            let k = if j < s.len() { j + 1 } else { j };
            if k < s.len() && s[k] == '(' {
                lemma_find_from_range(s, ')', k + 1);
            }
        } else if !ends_name(s[i]) {
            lemma_name_end_range(s, i + 1);
        }
    }
}

fn name_end_exec(s: &Vec<char>, i: usize) -> (r: usize)
    requires
        i <= s@.len(),
    ensures
        r == name_end(s@, i as int),
        i <= r <= s@.len(),
    decreases s@.len() - i,
{
    proof {
        lemma_name_end_range(s@, i as int);
    }
    if i >= s.len() {
        return s.len();
    }
    let c = s[i];
    if c == '{' {
        let j = find_from_exec(s, '}', i + 1);
        let k = if j < s.len() { j + 1 } else { j };
        if k < s.len() && s[k] == '(' {
            let m = find_from_exec(s, ')', k + 1);
            if m < s.len() { m + 1 } else { m }
        } else {
            k
        }
    } else if c == ' ' || c == '\t' || c == '\n' || c == '\u{c}' || c == '\r' || c == ','
        || c == '.' || c == ';' || c == ':' || c == '!' || c == '?' {
        i
    } else {
        name_end_exec(s, i + 1)
    }
}

/// Length of the component at `s[start..]` (see `component_len`).
fn take_component(s: &Vec<char>, start: usize) -> (r: usize)
    requires
        start <= s@.len(),
    ensures
        r == component_len(s@, start as int),
        start + r <= s@.len(),
{
    if s.len() - start < 2 {
        return 0;
    }
    let first = s[start];
    if !(first == '@' || first == '#' || first == '~') {
        return 0;
    }
    let e = name_end_exec(s, start + 1);
    if e == start + 1 {
        0
    } else {
        e - start
    }
}

/// One step of `highlight_from`.
proof fn lemma_highlight_step(s: Seq<char>, i: int)
    requires
        0 <= i < s.len(),
    ensures
        ({
            let n = if is_sigil(s[i]) { component_len(s, i) } else { 0 };
            highlight_from(s, i) == if n > 0 && i + n <= s.len() {
                "<span class=\"tk-"@ + sigil_class(s[i]) + "\">"@ + esc_spec(s.subrange(i, i + n))
                    + "</span>"@ + highlight_from(s, i + n)
            } else {
                esc_char(s[i]) + highlight_from(s, i + 1)
            }
        }),
{
    reveal(highlight_from);
}

proof fn lemma_highlight_end(s: Seq<char>)
    ensures
        highlight_from(s, s.len() as int) == Seq::<char>::empty(),
{
    reveal(highlight_from);
}

/// Tag Cooklang tokens within a line so the CSS can colour them; operates on
/// raw text and produces escaped HTML.
pub fn highlight_line(line: &str) -> (r: String)
    ensures
        r@ == highlight_spec(line@),
{
    let s = chars_of(line);
    let mut out = String::new();
    if s.len() == 0 {
        return out;
    }
    if s.len() >= 2 && s[0] == '>' && s[1] == '>' {
        push_str(&mut out, "<span class=\"meta-line\">&gt;&gt;");
        push_esc_range(&mut out, &s, 2, s.len());
        push_str(&mut out, "</span>");
        return out;
    }
    if s.len() >= 3 && s[0] == '-' && s[1] == '-' && s[2] == '-' {
        push_str(&mut out, "<span class=\"meta-line\">");
        push_esc_range(&mut out, &s, 0, s.len());
        push_str(&mut out, "</span>");
        assert(s@.subrange(0, s@.len() as int) =~= s@);
        return out;
    }
    let mut i: usize = 0;
    while i < s.len()
        invariant
            i <= s@.len(),
            s@ == line@,
            out@ + highlight_from(s@, i as int) == highlight_from(s@, 0),
        decreases s@.len() - i,
    {
        let c = s[i];
        let n = if c == '@' || c == '#' || c == '~' {
            take_component(&s, i)
        } else {
            0
        };
        let ghost before = out@;
        proof {
            lemma_highlight_step(s@, i as int);
        }
        if n > 0 {
            push_str(&mut out, "<span class=\"tk-");
            if c == '@' {
                push_str(&mut out, "ing");
            } else if c == '#' {
                push_str(&mut out, "cook");
            } else {
                push_str(&mut out, "timer");
            }
            push_str(&mut out, "\">");
            push_esc_range(&mut out, &s, i, i + n);
            push_str(&mut out, "</span>");
            assert(out@ + highlight_from(s@, i + n) =~= before + highlight_from(s@, i as int));
            i = i + n;
        } else {
            push_esc_char(&mut out, c);
            assert(out@ + highlight_from(s@, i + 1) =~= before + highlight_from(s@, i as int));
            i = i + 1;
        }
    }
    proof {
        lemma_highlight_end(s@);
    }
    assert(out@ =~= highlight_from(s@, 0));
    out
}

/// CSS class of a line kind.
pub open spec fn kind_class(k: LineKind) -> Seq<char> {
    match k {
        LineKind::Equal => "eq"@,
        LineKind::Added => "add"@,
        LineKind::Removed => "del"@,
    }
}

/// Gutter sigil of a line kind.
pub open spec fn kind_sigil(k: LineKind) -> Seq<char> {
    match k {
        LineKind::Equal => " "@,
        LineKind::Added => "+"@,
        LineKind::Removed => "-"@,
    }
}

/// A line number as text, empty when absent.
pub open spec fn lineno_text(n: Option<usize>) -> Seq<char> {
    match n {
        Some(v) => dec(v as nat),
        None => Seq::<char>::empty(),
    }
}

/// The HTML of one diff line (followed by a newline).
pub open spec fn diff_line_html(kind: LineKind, old: Option<usize>, new: Option<usize>, html: Seq<char>) -> Seq<char> {
    "<div class=\"diff-line "@ + kind_class(kind) + "\"><span class=\"ln old\">"@
        + lineno_text(old) + "</span><span class=\"ln new\">"@ + lineno_text(new)
        + "</span><span class=\"sigil\">"@ + kind_sigil(kind) + "</span><span class=\"src\">"@
        + html + "</span></div>\n"@
}

/// How each kind of diff line is marked: an added line has class
/// `diff-line add` and sigil `+`, a removed line class `diff-line del` and
/// sigil `-`, an unchanged line class `diff-line eq` and a blank sigil.
pub proof fn lemma_diff_line_marks(old: Option<usize>, new: Option<usize>, html: Seq<char>)
    ensures
        diff_line_html(LineKind::Added, old, new, html) == "<div class=\"diff-line add\"><span class=\"ln old\">"@
            + lineno_text(old) + "</span><span class=\"ln new\">"@ + lineno_text(new)
            + "</span><span class=\"sigil\">+</span><span class=\"src\">"@ + html + "</span></div>\n"@,
        diff_line_html(LineKind::Removed, old, new, html) == "<div class=\"diff-line del\"><span class=\"ln old\">"@
            + lineno_text(old) + "</span><span class=\"ln new\">"@ + lineno_text(new)
            + "</span><span class=\"sigil\">-</span><span class=\"src\">"@ + html + "</span></div>\n"@,
        diff_line_html(LineKind::Equal, old, new, html) == "<div class=\"diff-line eq\"><span class=\"ln old\">"@
            + lineno_text(old) + "</span><span class=\"ln new\">"@ + lineno_text(new)
            + "</span><span class=\"sigil\"> </span><span class=\"src\">"@ + html + "</span></div>\n"@,
{
    reveal_strlit("<div class=\"diff-line ");
    reveal_strlit("\"><span class=\"ln old\">");
    reveal_strlit("</span><span class=\"sigil\">");
    reveal_strlit("</span><span class=\"src\">");
    reveal_strlit("add");
    reveal_strlit("del");
    reveal_strlit("eq");
    reveal_strlit("+");
    reveal_strlit("-");
    reveal_strlit(" ");
    reveal_strlit("<div class=\"diff-line add\"><span class=\"ln old\">");
    reveal_strlit("<div class=\"diff-line del\"><span class=\"ln old\">");
    reveal_strlit("<div class=\"diff-line eq\"><span class=\"ln old\">");
    reveal_strlit("</span><span class=\"sigil\">+</span><span class=\"src\">");
    reveal_strlit("</span><span class=\"sigil\">-</span><span class=\"src\">");
    reveal_strlit("</span><span class=\"sigil\"> </span><span class=\"src\">");
    let o = lineno_text(old);
    let n = lineno_text(new);
    let mid = "</span><span class=\"ln new\">"@;
    let tail = "</span></div>\n"@;
    assert("<div class=\"diff-line "@ + "add"@ + "\"><span class=\"ln old\">"@ =~= "<div class=\"diff-line add\"><span class=\"ln old\">"@);
    assert("<div class=\"diff-line "@ + "del"@ + "\"><span class=\"ln old\">"@ =~= "<div class=\"diff-line del\"><span class=\"ln old\">"@);
    assert("<div class=\"diff-line "@ + "eq"@ + "\"><span class=\"ln old\">"@ =~= "<div class=\"diff-line eq\"><span class=\"ln old\">"@);
    assert("</span><span class=\"sigil\">"@ + "+"@ + "</span><span class=\"src\">"@ =~= "</span><span class=\"sigil\">+</span><span class=\"src\">"@);
    assert("</span><span class=\"sigil\">"@ + "-"@ + "</span><span class=\"src\">"@ =~= "</span><span class=\"sigil\">-</span><span class=\"src\">"@);
    assert("</span><span class=\"sigil\">"@ + " "@ + "</span><span class=\"src\">"@ =~= "</span><span class=\"sigil\"> </span><span class=\"src\">"@);
    assert(diff_line_html(LineKind::Added, old, new, html) =~= ("<div class=\"diff-line "@ + "add"@ + "\"><span class=\"ln old\">"@) + o + mid + n + ("</span><span class=\"sigil\">"@ + "+"@ + "</span><span class=\"src\">"@) + html + tail);
    assert(diff_line_html(LineKind::Removed, old, new, html) =~= ("<div class=\"diff-line "@ + "del"@ + "\"><span class=\"ln old\">"@) + o + mid + n + ("</span><span class=\"sigil\">"@ + "-"@ + "</span><span class=\"src\">"@) + html + tail);
    assert(diff_line_html(LineKind::Equal, old, new, html) =~= ("<div class=\"diff-line "@ + "eq"@ + "\"><span class=\"ln old\">"@) + o + mid + n + ("</span><span class=\"sigil\">"@ + " "@ + "</span><span class=\"src\">"@) + html + tail);
}

/// The HTML of `lines[0..n]`.
pub open spec fn diff_lines_html(lines: Seq<DiffLine>, n: int) -> Seq<char>
    decreases n,
{
    if n <= 0 {
        Seq::<char>::empty()
    } else {
        diff_lines_html(lines, n - 1) + diff_line_html(
            lines[n - 1].kind,
            lines[n - 1].old_lineno,
            lines[n - 1].new_lineno,
            lines[n - 1].html@,
        )
    }
}

fn push_lineno(out: &mut String, n: Option<usize>)
    ensures
        final(out)@ == old(out)@ + lineno_text(n),
{
    match n {
        Some(v) => push_dec(out, v as u128),
        None => {
            assert(final(out)@ =~= old(out)@ + lineno_text(n));
        },
    }
}

fn line_html(line: &DiffLine) -> (r: String)
    ensures
        r@ == diff_line_html(line.kind, line.old_lineno, line.new_lineno, line.html@),
{
    let mut out = String::new();
    push_str(&mut out, "<div class=\"diff-line ");
    match line.kind {
        LineKind::Equal => push_str(&mut out, "eq"),
        LineKind::Added => push_str(&mut out, "add"),
        LineKind::Removed => push_str(&mut out, "del"),
    }
    push_str(&mut out, "\"><span class=\"ln old\">");
    push_lineno(&mut out, line.old_lineno);
    push_str(&mut out, "</span><span class=\"ln new\">");
    push_lineno(&mut out, line.new_lineno);
    push_str(&mut out, "</span><span class=\"sigil\">");
    match line.kind {
        LineKind::Equal => push_str(&mut out, " "),
        LineKind::Added => push_str(&mut out, "+"),
        LineKind::Removed => push_str(&mut out, "-"),
    }
    push_str(&mut out, "</span><span class=\"src\">");
    push_str(&mut out, line.html.as_str());
    push_str(&mut out, "</span></div>\n");
    assert(out@ =~= diff_line_html(line.kind, line.old_lineno, line.new_lineno, line.html@));
    out
}

/// Render the diff lines to HTML.
pub fn render_html(lines: &[DiffLine]) -> (r: String)
    ensures
        r@ == "<div class=\"diff\">\n"@ + diff_lines_html(lines@, lines@.len() as int)
            + "</div>\n"@,
{
    let mut out = String::new();
    push_str(&mut out, "<div class=\"diff\">\n");
    let ghost head = out@;
    let mut i: usize = 0;
    while i < lines.len()
        invariant
            i <= lines@.len(),
            head == "<div class=\"diff\">\n"@,
            out@ == head + diff_lines_html(lines@, i as int),
        decreases lines@.len() - i,
    {
        let line = &lines[i];
        let h = line_html(line);
        push_str(&mut out, h.as_str());
        assert(out@ =~= head + diff_lines_html(lines@, i + 1));
        i = i + 1;
    }
    push_str(&mut out, "</div>\n");
    out
}

/// One change reported by the line differ: an equal, inserted or deleted
/// line with its 0-based positions in the old and new texts.
#[derive(Debug, Clone)]
pub struct LineChange {
    pub kind: LineKind,
    pub old_index: Option<usize>,
    pub new_index: Option<usize>,
    /// The line's text, including its newline if it had one.
    pub value: String,
}

/// The view of a line change.
pub struct LineChangeView {
    pub kind: LineKind,
    pub old_index: Option<usize>,
    pub new_index: Option<usize>,
    pub value: Seq<char>,
}

impl View for LineChange {
    type V = LineChangeView;

    open spec fn view(&self) -> LineChangeView {
        LineChangeView {
            kind: self.kind,
            old_index: self.old_index,
            new_index: self.new_index,
            value: self.value@,
        }
    }
}

/// The changes of `similar`'s line diff (Myers, no deadline) of `old` into `new`.
pub uninterp spec fn line_changes(old: Seq<char>, new: Seq<char>) -> Seq<LineChangeView>;

/// The views of a list of changes.
pub open spec fn changes_view(v: Seq<LineChange>) -> Seq<LineChangeView> {
    Seq::new(v.len(), |i: int| v[i]@)
}

/// Which positions a change of kind `k` has: an equal line has both, an
/// inserted line only a new one, a deleted line only an old one.
pub open spec fn positions_of_kind(k: LineKind, old_index: Option<usize>, new_index: Option<usize>) -> bool {
    match k {
        LineKind::Equal => old_index is Some && new_index is Some,
        LineKind::Added => old_index is None && new_index is Some,
        LineKind::Removed => old_index is Some && new_index is None,
    }
}

/// `similar::TextDiff::from_lines(old, new).iter_all_changes()`, each change
/// taken as its tag, old and new indices and text. A position indexes the
/// diff's vector of lines, so it is below that vector's `usize` length; an
/// equal change has both positions, an insertion only a new one, a deletion
/// only an old one (`ChangesIter::next`). How the positions run through the
/// changes comes from the diff algorithm's operations and is not stated.
#[verifier::external_body]
fn diff_changes(old: &str, new: &str) -> (r: Vec<LineChange>)
    ensures
        changes_view(r@) == line_changes(old@, new@),
        forall|i: int|
            0 <= i < r@.len() ==> positions_of_kind(
                (#[trigger] r@[i]).kind,
                r@[i].old_index,
                r@[i].new_index,
            ),
        forall|i: int|
            0 <= i < r@.len() ==> ((#[trigger] r@[i]).old_index matches Some(k) ==> k < usize::MAX),
        forall|i: int|
            0 <= i < r@.len() ==> ((#[trigger] r@[i]).new_index matches Some(k) ==> k < usize::MAX),
{
    similar::TextDiff::from_lines(old, new).iter_all_changes().map(|c| LineChange {
        kind: match c.tag() {
            similar::ChangeTag::Equal => LineKind::Equal,
            similar::ChangeTag::Insert => LineKind::Added,
            similar::ChangeTag::Delete => LineKind::Removed,
        },
        old_index: c.old_index(),
        new_index: c.new_index(),
        value: c.value().to_string(),
    }).collect()
}

/// `v` without one trailing newline.
pub open spec fn strip_newline(v: Seq<char>) -> Seq<char> {
    if v.len() > 0 && v.last() == '\n' {
        v.drop_last()
    } else {
        v
    }
}

/// A 0-based position as a 1-based line number.
pub open spec fn lineno_of(i: Option<usize>) -> Option<usize> {
    match i {
        Some(k) => Some((k + 1) as usize),
        None => None,
    }
}

/// Whether the rendered line `l` is change `c`: same kind, 1-based line
/// numbers, highlighted text without its newline.
pub open spec fn renders_change(l: DiffLine, c: LineChangeView) -> bool {
    &&& l.kind == c.kind
    &&& l.old_lineno == lineno_of(c.old_index)
    &&& l.new_lineno == lineno_of(c.new_index)
    &&& l.html@ == highlight_spec(strip_newline(c.value))
}

/// Whether every position of `changes` is below `usize::MAX`.
pub open spec fn positions_fit(changes: Seq<LineChangeView>) -> bool {
    forall|i: int|
        0 <= i < changes.len() ==> {
            &&& (#[trigger] changes[i]).old_index matches Some(k) ==> k < usize::MAX
            &&& changes[i].new_index matches Some(k) ==> k < usize::MAX
        }
}

/// Render each change of a line diff as a highlighted diff line.
pub fn lines_from_changes(changes: &Vec<LineChange>) -> (r: Vec<DiffLine>)
    requires
        positions_fit(changes_view(changes@)),
    ensures
        r@.len() == changes@.len(),
        forall|i: int| 0 <= i < r@.len() ==> renders_change(#[trigger] r@[i], changes@[i]@),
{
    let mut lines: Vec<DiffLine> = Vec::new();
    let mut i: usize = 0;
    while i < changes.len()
        invariant
            i <= changes@.len(),
            lines@.len() == i,
            positions_fit(changes_view(changes@)),
            forall|j: int| 0 <= j < i ==> renders_change(#[trigger] lines@[j], changes@[j]@),
        decreases changes@.len() - i,
    {
        let c = &changes[i];
        assert(changes_view(changes@)[i as int] == c@);
        let vs = chars_of(c.value.as_str());
        let end = if vs.len() > 0 && vs[vs.len() - 1] == '\n' {
            vs.len() - 1
        } else {
            vs.len()
        };
        let raw = crate::text::string_of_range(&vs, 0, end);
        assert(raw@ =~= strip_newline(c@.value));
        let html = highlight_line(raw.as_str());
        let old_lineno = match c.old_index {
            Some(k) => Some(k + 1),
            None => None,
        };
        let new_lineno = match c.new_index {
            Some(k) => Some(k + 1),
            None => None,
        };
        lines.push(DiffLine { kind: c.kind, old_lineno, new_lineno, html });
        i = i + 1;
    }
    lines
}

/// Line-by-line diff of `old` into `new`, each line highlighted.
pub fn unified_diff(old: &str, new: &str) -> (r: Vec<DiffLine>)
    ensures
        r@.len() == line_changes(old@, new@).len(),
        forall|i: int|
            0 <= i < r@.len() ==> renders_change(#[trigger] r@[i], line_changes(old@, new@)[i]),
        forall|i: int|
            0 <= i < r@.len() ==> positions_of_kind((#[trigger] r@[i]).kind, r@[i].old_lineno, r@[i].new_lineno),
{
    let changes = diff_changes(old, new);
    assert(positions_fit(changes_view(changes@))) by {
        assert forall|i: int| 0 <= i < changes_view(changes@).len() implies {
            &&& (#[trigger] changes_view(changes@)[i]).old_index matches Some(k) ==> k < usize::MAX
            &&& changes_view(changes@)[i].new_index matches Some(k) ==> k < usize::MAX
        } by {
            assert(changes_view(changes@)[i] == changes@[i]@);
        };
    };
    let r = lines_from_changes(&changes);
    assert forall|i: int| 0 <= i < r@.len() implies renders_change(#[trigger] r@[i], line_changes(old@, new@)[i]) by {
        assert(changes_view(changes@)[i] == changes@[i]@);
    };
    assert forall|i: int| 0 <= i < r@.len() implies positions_of_kind(
        (#[trigger] r@[i]).kind,
        r@[i].old_lineno,
        r@[i].new_lineno,
    ) by {
        assert(renders_change(r@[i], changes@[i]@));
        assert(positions_of_kind(changes@[i].kind, changes@[i].old_index, changes@[i].new_index));
    };
    r
}


/// `s` begins with `t`.
pub open spec fn begins(s: Seq<char>, t: Seq<char>) -> bool {
    t.len() <= s.len() && s.subrange(0, t.len() as int) == t
}

/// Text with every HTML tag (from `<` through the next `>`) deleted.
pub open spec fn strip_tags(s: Seq<char>) -> Seq<char>
    decreases s.len(),
{
    if s.len() == 0 {
        Seq::<char>::empty()
    } else if s[0] == '<' {
        let j = find_from(s, '>', 0);
        if j < s.len() {
            proof {
                lemma_find_from_range(s, '>', 0);
            }
            strip_tags(s.subrange(j + 1, s.len() as int))
        } else {
            Seq::<char>::empty()
        }
    } else {
        seq![s[0]] + strip_tags(s.drop_first())
    }
}

/// Text with the entities `esc_spec` writes turned back into characters.
pub open spec fn unescape(s: Seq<char>) -> Seq<char>
    decreases s.len(),
{
    if s.len() == 0 {
        Seq::<char>::empty()
    } else if s.len() >= 5 && s.subrange(0, 5) == "&amp;"@ {
        seq!['&'] + unescape(s.subrange(5, s.len() as int))
    } else if s.len() >= 4 && s.subrange(0, 4) == "&lt;"@ {
        seq!['<'] + unescape(s.subrange(4, s.len() as int))
    } else if s.len() >= 4 && s.subrange(0, 4) == "&gt;"@ {
        seq!['>'] + unescape(s.subrange(4, s.len() as int))
    } else if s.len() >= 6 && s.subrange(0, 6) == "&quot;"@ {
        seq!['"'] + unescape(s.subrange(6, s.len() as int))
    } else if s.len() >= 5 && s.subrange(0, 5) == "&#39;"@ {
        seq!['\''] + unescape(s.subrange(5, s.len() as int))
    } else {
        seq![s[0]] + unescape(s.drop_first())
    }
}

proof fn lemma_esc_one(c: char)
    ensures
        esc_spec(seq![c]) == esc_char(c),
{
    let s = seq![c];
    assert(s.drop_last() =~= Seq::<char>::empty());
    assert(esc_spec(s.drop_last()) == Seq::<char>::empty());
    assert(s.last() == c);
    assert(Seq::<char>::empty() + esc_char(c) =~= esc_char(c));
}

proof fn lemma_unescape_char(c: char, r: Seq<char>)
    ensures
        unescape(esc_char(c) + r) == seq![c] + unescape(r),
{
    reveal_strlit("&amp;");
    reveal_strlit("&lt;");
    reveal_strlit("&gt;");
    reveal_strlit("&quot;");
    reveal_strlit("&#39;");
    let t = esc_char(c) + r;
    let e = esc_char(c);
    if c == '&' {
        assert(t.subrange(0, 5) =~= "&amp;"@);
        assert(t.subrange(5, t.len() as int) =~= r);
    } else if c == '<' {
        assert(t.len() >= 5 ==> t.subrange(0, 5)[1] != "&amp;"@[1]);
        assert(t.subrange(0, 4) =~= "&lt;"@);
        assert(t.subrange(4, t.len() as int) =~= r);
    } else if c == '>' {
        assert(t.len() >= 5 ==> t.subrange(0, 5)[1] != "&amp;"@[1]);
        assert(t.subrange(0, 4)[1] != "&lt;"@[1]);
        assert(t.subrange(0, 4) =~= "&gt;"@);
        assert(t.subrange(4, t.len() as int) =~= r);
    } else if c == '"' {
        assert(t.len() >= 5 ==> t.subrange(0, 5)[1] != "&amp;"@[1]);
        assert(t.subrange(0, 4)[1] != "&lt;"@[1]);
        assert(t.subrange(0, 4)[1] != "&gt;"@[1]);
        assert(t.subrange(0, 6) =~= "&quot;"@);
        assert(t.subrange(6, t.len() as int) =~= r);
    } else if c == '\'' {
        assert(t.subrange(0, 5)[1] != "&amp;"@[1]);
        assert(t.subrange(0, 4)[1] != "&lt;"@[1]);
        assert(t.subrange(0, 4)[1] != "&gt;"@[1]);
        assert(t.len() >= 6 ==> t.subrange(0, 6)[1] != "&quot;"@[1]);
        assert(t.subrange(0, 5) =~= "&#39;"@);
        assert(t.subrange(5, t.len() as int) =~= r);
    } else {
        assert(e =~= seq![c]);
        assert(t[0] == c);
        assert(t.len() >= 5 ==> t.subrange(0, 5)[0] != "&amp;"@[0]);
        assert(t.len() >= 4 ==> t.subrange(0, 4)[0] != "&lt;"@[0]);
        assert(t.len() >= 4 ==> t.subrange(0, 4)[0] != "&gt;"@[0]);
        assert(t.len() >= 6 ==> t.subrange(0, 6)[0] != "&quot;"@[0]);
        assert(t.len() >= 5 ==> t.subrange(0, 5)[0] != "&#39;"@[0]);
        assert(t.drop_first() =~= r);
    }
}

/// Escaping is undone by `unescape`.
pub proof fn lemma_unescape_esc(x: Seq<char>)
    ensures
        unescape(esc_spec(x)) == x,
    decreases x.len(),
{
    if x.len() > 0 {
        let c = x[0];
        let rest = x.drop_first();
        crate::server::render::lemma_esc_concat(seq![c], rest);
        assert(seq![c] + rest =~= x);
        assert(seq![c].drop_last() =~= Seq::<char>::empty());
        lemma_esc_one(c);
        lemma_unescape_char(c, esc_spec(rest));
        lemma_unescape_esc(rest);
        assert(seq![c] + rest =~= x);
    }
}

/// Deleting tags leaves text without `<` as it is.
proof fn lemma_strip_plain(e: Seq<char>, r: Seq<char>)
    requires
        forall|i: int| 0 <= i < e.len() ==> #[trigger] e[i] != '<',
    ensures
        strip_tags(e + r) == e + strip_tags(r),
    decreases e.len(),
{
    if e.len() > 0 {
        let t = e + r;
        assert(t[0] == e[0]);
        assert(t.drop_first() =~= e.drop_first() + r);
        lemma_strip_plain(e.drop_first(), r);
        assert(seq![e[0]] + (e.drop_first() + strip_tags(r)) =~= e + strip_tags(r));
    } else {
        assert(e + r =~= r);
    }
}

proof fn lemma_find_from_at(s: Seq<char>, c: char, i: int, k: int)
    requires
        0 <= i <= k < s.len(),
        s[k] == c,
        forall|j: int| i <= j < k ==> s[j] != c,
    ensures
        find_from(s, c, i) == k,
    decreases k - i,
{
    if i < k {
        lemma_find_from_at(s, c, i + 1, k);
    }
}

/// Deleting tags removes a whole leading tag.
proof fn lemma_strip_tag(t: Seq<char>, r: Seq<char>)
    requires
        t.len() >= 2,
        t[0] == '<',
        t[t.len() - 1] == '>',
        forall|j: int| 0 <= j < t.len() - 1 ==> #[trigger] t[j] != '>',
    ensures
        strip_tags(t + r) == strip_tags(r),
{
    let s = t + r;
    assert forall|j: int| 0 <= j < t.len() - 1 implies s[j] != '>' by {
        assert(s[j] == t[j]);
    }
    lemma_find_from_at(s, '>', 0, t.len() - 1);
    assert(s.subrange(t.len() as int, s.len() as int) =~= r);
}

proof fn lemma_esc_plain_of_lt(x: Seq<char>)
    ensures
        forall|i: int| 0 <= i < esc_spec(x).len() ==> #[trigger] esc_spec(x)[i] != '<',
{
    crate::server::render::lemma_esc_no_markup(x);
    assert forall|i: int| 0 <= i < esc_spec(x).len() implies #[trigger] esc_spec(x)[i] != '<' by {
        let c = esc_spec(x)[i];
        assert(c != '<' && c != '>' && c != '"' && c != '\'');
    }
}

proof fn lemma_component_tag(c: char)
    requires
        is_sigil(c),
    ensures
        ({
            let t = "<span class=\"tk-"@ + sigil_class(c) + "\">"@;
            &&& t.len() >= 2
            &&& t[0] == '<'
            &&& t[t.len() - 1] == '>'
            &&& forall|j: int| 0 <= j < t.len() - 1 ==> #[trigger] t[j] != '>'
        }),
        ({
            let t = "</span>"@;
            &&& t.len() >= 2
            &&& t[0] == '<'
            &&& t[t.len() - 1] == '>'
            &&& forall|j: int| 0 <= j < t.len() - 1 ==> #[trigger] t[j] != '>'
        }),
{
    reveal_strlit("<span class=\"tk-");
    reveal_strlit("\">");
    reveal_strlit("</span>");
    reveal_strlit("ing");
    reveal_strlit("cook");
    reveal_strlit("timer");
    let a = "<span class=\"tk-"@;
    let b = sigil_class(c);
    let z = "\">"@;
    let t = a + b + z;
    assert forall|j: int| 0 <= j < t.len() - 1 implies #[trigger] t[j] != '>' by {
        if j < a.len() {
            assert(t[j] == a[j]);
        } else if j < a.len() + b.len() {
            assert(t[j] == b[j - a.len()]);
        } else {
            assert(t[j] == z[j - a.len() - b.len()]);
        }
    }
}

/// What highlighting writes for `s[i..]` reads back, tags deleted, as the
/// escaped text of `s[i..]`.
proof fn lemma_strip_highlight_from(s: Seq<char>, i: int)
    requires
        0 <= i <= s.len(),
    ensures
        strip_tags(highlight_from(s, i)) == esc_spec(s.subrange(i, s.len() as int)),
    decreases s.len() - i,
{
    if i == s.len() {
        lemma_highlight_end(s);
        assert(s.subrange(i, s.len() as int) =~= Seq::<char>::empty());
    } else {
        lemma_highlight_step(s, i);
        let n = if is_sigil(s[i]) { component_len(s, i) } else { 0 };
        if n > 0 && i + n <= s.len() {
            lemma_strip_highlight_from(s, i + n);
            let open = "<span class=\"tk-"@ + sigil_class(s[i]) + "\">"@;
            let close = "</span>"@;
            let body = esc_spec(s.subrange(i, i + n));
            let rest = highlight_from(s, i + n);
            lemma_component_tag(s[i]);
            lemma_esc_plain_of_lt(s.subrange(i, i + n));
            assert(open + body + close + rest =~= open + (body + (close + rest)));
            lemma_strip_tag(open, body + (close + rest));
            lemma_strip_plain(body, close + rest);
            lemma_strip_tag(close, rest);
            crate::server::render::lemma_esc_concat(s.subrange(i, i + n), s.subrange(i + n, s.len() as int));
            assert(s.subrange(i, i + n) + s.subrange(i + n, s.len() as int) =~= s.subrange(i, s.len() as int));
        } else {
            lemma_strip_highlight_from(s, i + 1);
            let e = esc_char(s[i]);
            lemma_esc_plain_of_lt(seq![s[i]]);
            assert(seq![s[i]].drop_last() =~= Seq::<char>::empty());
            lemma_esc_one(s[i]);
            lemma_strip_plain(e, highlight_from(s, i + 1));
            crate::server::render::lemma_esc_concat(seq![s[i]], s.subrange(i + 1, s.len() as int));
            assert(seq![s[i]] + s.subrange(i + 1, s.len() as int) =~= s.subrange(i, s.len() as int));
        }
    }
}

/// Highlighting keeps every character of the line: deleting the tags it
/// adds and undoing the escapes gives the line back.
pub proof fn lemma_highlight_keeps_text(line: Seq<char>)
    ensures
        unescape(strip_tags(highlight_spec(line))) == line,
{
    reveal_strlit("<span class=\"meta-line\">&gt;&gt;");
    reveal_strlit("<span class=\"meta-line\">");
    reveal_strlit("</span>");
    reveal_strlit("&gt;");
    if line.len() == 0 {
        assert(esc_spec(line) =~= Seq::<char>::empty());
    } else if line.len() >= 2 && line[0] == '>' && line[1] == '>' {
        let open = "<span class=\"meta-line\">"@;
        let gg = "&gt;&gt;"@;
        reveal_strlit("&gt;&gt;");
        let rest = line.subrange(2, line.len() as int);
        let body = esc_spec(rest);
        let close = "</span>"@;
        assert("<span class=\"meta-line\">&gt;&gt;"@ =~= open + gg);
        assert(forall|j: int| 0 <= j < open.len() - 1 ==> #[trigger] open[j] != '>');
        lemma_esc_plain_of_lt(rest);
        assert forall|j: int| 0 <= j < gg.len() + body.len() implies #[trigger] (gg + body)[j] != '<' by {
            if j >= gg.len() {
                assert((gg + body)[j] == body[j - gg.len()]);
            }
        }
        assert(open + gg + body + close =~= open + ((gg + body) + close));
        lemma_strip_tag(open, (gg + body) + close);
        lemma_strip_plain(gg + body, close);
        lemma_strip_tag(close, Seq::<char>::empty());
        assert(close + Seq::<char>::empty() =~= close);
        assert(strip_tags(Seq::<char>::empty()) =~= Seq::<char>::empty());
        // ">>" escapes to "&gt;&gt;"
        let two = seq!['>', '>'];
        crate::server::render::lemma_esc_concat(seq!['>'], seq!['>']);
        assert(seq!['>'].drop_last() =~= Seq::<char>::empty());
        lemma_esc_one('>');
        assert(seq!['>'] + seq!['>'] =~= two);
        assert(esc_spec(two) =~= gg);
        crate::server::render::lemma_esc_concat(two, rest);
        assert(two + rest =~= line);
        assert((gg + body) + Seq::<char>::empty() =~= gg + body);
        lemma_unescape_esc(line);
    } else if line.len() >= 3 && line[0] == '-' && line[1] == '-' && line[2] == '-' {
        let open = "<span class=\"meta-line\">"@;
        let close = "</span>"@;
        let body = esc_spec(line);
        assert(forall|j: int| 0 <= j < open.len() - 1 ==> #[trigger] open[j] != '>');
        lemma_esc_plain_of_lt(line);
        assert(open + body + close =~= open + (body + close));
        lemma_strip_tag(open, body + close);
        lemma_strip_plain(body, close);
        lemma_strip_tag(close, Seq::<char>::empty());
        assert(close + Seq::<char>::empty() =~= close);
        assert(body + Seq::<char>::empty() =~= body);
        lemma_unescape_esc(line);
    } else {
        lemma_strip_highlight_from(line, 0);
        assert(line.subrange(0, line.len() as int) =~= line);
        lemma_unescape_esc(line);
    }
}

} // verus!
