//! Which file-system events call for rebuilding the index.

use crate::commands::validate::{extension, path_extension};
use crate::paths::{components, file_name, path_components, texts};
use crate::text::str_eq;
use vstd::prelude::*;

verus! {

/// The kind of a file-system event.
#[derive(Debug, Clone, Copy, PartialEq, Eq, Structural)]
pub enum EventKind {
    Create,
    Modify,
    Remove,
    /// Access and anything else.
    Other,
}

/// A path worth a rebuild: a `.cook` file or the aisle file.
pub open spec fn relevant_path(p: Seq<char>) -> bool {
    extension(p) == Some("cook"@) || file_name(components(p)) == Some("aisle.conf"@)
}

/// A creation, change or removal touching a relevant path.
pub open spec fn relevant_spec(kind: EventKind, paths: Seq<Seq<char>>) -> bool {
    kind != EventKind::Other && exists|i: int| 0 <= i < paths.len() && relevant_path(#[trigger] paths[i])
}

fn name_is_aisle(p: &str) -> (r: bool)
    ensures
        r == (file_name(components(p@)) == Some("aisle.conf"@)),
{
    let comps = path_components(p);
    let n = comps.len();
    if n == 0 {
        return false;
    }
    let last = &comps[n - 1];
    assert(texts(comps@).last() == last@);
    let s = crate::text::string_of(last);
    let is = str_eq(s.as_str(), "aisle.conf");
    proof {
        reveal_strlit("aisle.conf");
        if is {
            assert(last@ != seq!['/']) by { assert(last@.len() == 10); };
            assert(last@ != seq!['.']) by { assert(last@.len() == 10); };
            assert(last@ != seq!['.', '.']) by { assert(last@.len() == 10); };
        }
    }
    is
}

/// Whether an event of `kind` on `paths` calls for a rebuild.
pub fn relevant_event(kind: EventKind, paths: &Vec<String>) -> (r: bool)
    ensures
        r == relevant_spec(kind, crate::recipe::views(paths@)),
{
    let ghost pv = crate::recipe::views(paths@);
    match kind {
        EventKind::Other => return false,
        _ => {},
    }
    let mut i: usize = 0;
    while i < paths.len()
        invariant
            i <= paths@.len(),
            pv == crate::recipe::views(paths@),
            kind != EventKind::Other,
            forall|j: int| 0 <= j < i ==> !relevant_path(#[trigger] pv[j]),
        decreases paths@.len() - i,
    {
        assert(pv[i as int] == paths@[i as int]@);
        let ext = path_extension(paths[i].as_str());
        let cook = match &ext {
            Some(e) => str_eq(e.as_str(), "cook"),
            None => false,
        };
        if cook || name_is_aisle(paths[i].as_str()) {
            assert(relevant_path(pv[i as int]));
            assert(kind != EventKind::Other);
            return true;
        }
        i = i + 1;
    }
    false
}

} // verus!
