//! Listing bookmarks.

use vstd::prelude::*;
use crate::app::{output_type_of, OutputType};

verus! {

/// The arguments of the command that lists bookmarks.
#[derive(Debug)]
pub struct ListArgs {
    pub output_type: String,
    pub format_string: String,
    pub tags: Vec<String>,
    pub domains: Vec<String>,
}

impl ListArgs {
    /// The arguments, as given.
    pub fn new(
        output_type: String,
        format_string: String,
        tags: Vec<String>,
        domains: Vec<String>,
    ) -> (r: ListArgs)
        ensures
            r.output_type == output_type,
            r.format_string == format_string,
            r.tags == tags,
            r.domains == domains,
    {
        ListArgs { output_type, format_string, tags, domains }
    }
}

impl ListArgs {
    /// The way of showing that was asked for; `None` where `output_type`
    /// names none.
    pub fn output(&self) -> (r: Option<OutputType>)
        ensures
            r == output_type_of(self.output_type@),
    {
        if self.output_type == "table".to_owned() {
            Some(OutputType::Table)
        } else if self.output_type == "format-string".to_owned() {
            Some(OutputType::FormatString)
        } else {
            None
        }
    }
}

} // verus!
