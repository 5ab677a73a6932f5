use vstd::prelude::*;

pub use crate::index::hash::{spec_hash, IdxHash, COLLISION_VALUES};

verus! {

pub const TEST_CONTENT_FNAME: &'static str = ".test.content.db";

pub const TEST_ENTRIES_FNAME: &'static str = ".test.content.db";

pub const NON_COLLISION_VALUES: [(&'static str, &'static str); 4] = [
    ("I", "am your father, Luke"),
    ("like", "you do."),
    ("eating", "pizza is fun"),
    ("Pizza", "is italian"),
];

/// The hash of a key: 1 for the collision keys, the default hash otherwise.
pub fn hash(s: &str) -> (r: IdxHash)
    ensures
        r == spec_hash(s@),
{
    crate::index::hash::hash(s)
}

} // verus!
