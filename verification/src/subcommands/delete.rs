//! Deleting bookmarks.

use vstd::prelude::*;

verus! {

/// The arguments of the command that deletes bookmarks.
#[derive(Debug)]
pub struct DeleteArgs {
    pub tags: Vec<String>,
    pub domains: Vec<String>,
}

impl DeleteArgs {
    /// The arguments, as given.
    pub fn new(tags: Vec<String>, domains: Vec<String>) -> (r: DeleteArgs)
        ensures
            r.tags == tags,
            r.domains == domains,
    {
        DeleteArgs { tags, domains }
    }
}

} // verus!
