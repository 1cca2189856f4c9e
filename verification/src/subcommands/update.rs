//! Bringing bookmarks up to date with their pages.

use vstd::prelude::*;

verus! {

/// The arguments of the command that updates bookmarks.
#[derive(Debug)]
pub struct UpdateArgs {
    pub tags: Vec<String>,
    pub domains: Vec<String>,
    pub yes: bool,
}

impl UpdateArgs {
    /// The arguments, as given.
    pub fn new(tags: Vec<String>, domains: Vec<String>, yes: bool) -> (r: UpdateArgs)
        ensures
            r.tags == tags,
            r.domains == domains,
            r.yes == yes,
    {
        UpdateArgs { tags, domains, yes }
    }
}

} // verus!
