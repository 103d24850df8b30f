//! Padding and joining for the commands' tables.

use crate::text::push_str;
use vstd::prelude::*;

verus! {

/// `s` left-aligned in a field of width `w` (`{:<w}`): spaces added up to
/// `w` characters, nothing cut.
pub open spec fn pad(s: Seq<char>, w: nat) -> Seq<char> {
    if s.len() >= w {
        s
    } else {
        s + Seq::new((w - s.len()) as nat, |i: int| ' ')
    }
}

/// Append `s` left-aligned in a field of width `w`.
pub fn push_padded(out: &mut String, s: &str, w: usize)
    ensures
        final(out)@ == old(out)@ + pad(s@, w as nat),
{
    push_str(out, s);
    let n = s.unicode_len();
    let mut k = n;
    let ghost start = out@;
    while k < w
        invariant
            n <= k,
            n == s@.len(),
            k <= (if w > n { w } else { n }),
            out@ == start + Seq::new((k - n) as nat, |i: int| ' '),
        decreases w - k,
    {
        out.push(' ');
        assert(out@ =~= start + Seq::new((k + 1 - n) as nat, |i: int| ' '));
        k = k + 1;
    }
    assert(final(out)@ =~= old(out)@ + pad(s@, w as nat));
}

} // verus!
