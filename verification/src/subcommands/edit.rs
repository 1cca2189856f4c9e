//! Editing one bookmark.

use vstd::prelude::*;
use crate::chars::to_chars;
use crate::text::{split, split_trimmed, strings_view, trim_all};

verus! {

/// The arguments of the command that edits a bookmark.
#[derive(Debug)]
pub struct EditArgs {
    pub tags: Vec<String>,
    pub domains: Vec<String>,
}

impl EditArgs {
    /// The arguments, as given.
    pub fn new(tags: Vec<String>, domains: Vec<String>) -> (r: EditArgs)
        ensures
            r.tags == tags,
            r.domains == domains,
    {
        EditArgs { tags, domains }
    }
}

/// The tags that a line of input names: its fields between commas, each
/// trimmed.
pub fn tags_of_input(input: &str) -> (r: Vec<String>)
    ensures
        strings_view(r@) == trim_all(split(input@, ',')),
{
    let s = to_chars(input);
    split_trimmed(s.as_slice(), ',')
}

} // verus!
