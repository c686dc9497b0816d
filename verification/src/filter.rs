//! Which directory entries an album shows.

use vstd::prelude::*;
use vstd::string::StrSliceExecFns;

verus! {

/// A name is hidden exactly when it starts with a dot.
pub open spec fn is_visible(name: Seq<char>) -> bool {
    name.len() == 0 || name[0] != '.'
}

/// Decides whether an entry of that name, file or directory, is shown.
/// The empty name counts as visible.
pub fn visible(name: &str) -> (shown: bool)
    ensures
        shown == is_visible(name@),
{
    if name.is_empty() {
        true
    } else {
        name.get_char(0) != '.'
    }
}

} // verus!
