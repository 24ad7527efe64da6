use vstd::prelude::*;

use crate::text::str_starts_with;

verus! {

/// The view of a vector of strings: the sequence of their character
/// sequences.
pub open spec fn seq_views(v: Seq<String>) -> Seq<Seq<char>> {
    v.map_values(|s: String| s@)
}

/// A name passes the filter exactly when no forbidden entry is a prefix
/// of it.  An empty forbidden list therefore allows every name.
pub open spec fn allowed(name: Seq<char>, forbidden: Seq<Seq<char>>) -> bool {
    forall|i: int| 0 <= i < forbidden.len() ==> !(#[trigger] forbidden[i]).is_prefix_of(name)
}

/// Decides whether a directory name passes the forbidden-prefix filter.
///
/// Returns false exactly when some entry of `forbidden` is a literal,
/// case-sensitive prefix of `file_name`; order and duplicates in the
/// list do not affect the outcome.
pub fn is_whitelisted(file_name: &str, forbidden: &Vec<String>) -> (r: bool)
    ensures
        r == allowed(file_name@, seq_views(forbidden@)),
{
    let mut i: usize = 0;
    while i < forbidden.len()
        invariant
            i <= forbidden.len(),
            forall|j: int| 0 <= j < i ==> !(#[trigger] seq_views(forbidden@)[j]).is_prefix_of(
                file_name@,
            ),
        decreases forbidden.len() - i,
    {
        if str_starts_with(file_name, forbidden[i].as_str()) {
            assert(seq_views(forbidden@)[i as int].is_prefix_of(file_name@));
            return false;
        }
        i += 1;
    }
    true
}

} // verus!
