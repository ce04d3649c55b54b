//! Telling a MIME type from the other names a clipboard format can have.

use vstd::prelude::*;

use crate::routing::{mime_pattern, regex_match, spec_mime_like};

verus! {

/// Whether `name` looks like a MIME type (`type/subtype`): the back ends
/// match it against `^(.*?)/(.*?)$`, which holds when the name has a `/` and
/// no line feed.
pub fn is_mime_type(name: &str) -> (r: bool)
    ensures
        r == spec_mime_like(name@),
{
    let pattern = "^(.*?)/(.*?)$";
    proof {
        reveal_strlit("^(.*?)/(.*?)$");
    }
    assert(pattern@ =~= mime_pattern());
    match regex_match(pattern, name) {
        Some(b) => b,
        None => false,
    }
}

} // verus!
