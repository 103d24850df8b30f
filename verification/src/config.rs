//! Configuration helpers.

use crate::paths::{components, path_components, path_string, path_text, relative_start, texts};
use crate::text::owned;
use vstd::prelude::*;

verus! {

/// `full` relative to `base` (`strip_prefix(base).unwrap_or(full)`): the
/// components after those of `base`, joined by `/`, when `base`'s components
/// begin `full`'s; otherwise `full` unchanged.
pub open spec fn relative_spec(base: Seq<char>, full: Seq<char>) -> Seq<char> {
    let b = components(base);
    let f = components(full);
    if b.len() <= f.len() && f.subrange(0, b.len() as int) == b {
        path_text(f.subrange(b.len() as int, f.len() as int))
    } else {
        full
    }
}

/// The path `full` relative to `base` (see `relative_spec`).
pub fn relative_to(base: &str, full: &str) -> (r: String)
    ensures
        r@ == relative_spec(base@, full@),
{
    let bc = path_components(base);
    let fc = path_components(full);
    let start = relative_start(&bc, &fc);
    if start == 0 && bc.len() > 0 {
        return owned(full);
    }
    let n = fc.len();
    proof {
        let b = components(base@);
        let f = components(full@);
        if b.len() == 0 {
            assert(f.subrange(0, 0) =~= b);
        }
        if !(b.len() <= f.len() && f.subrange(0, b.len() as int) == b) {
            assert(texts(fc@.subrange(start as int, n as int)).len() == f.len());
        }
    }
    let r = path_string(&fc, start, n);
    assert(texts(fc@.subrange(start as int, n as int)) =~= components(full@).subrange(start as int, n as int));
    r
}

} // verus!
