//! The ways in which reading a bookmark file fails.

use vstd::prelude::*;

verus! {

/// Why a bookmark file could not be read. Either failure ends the reading:
/// no bookmark is given.
///
/// A time stamp that does not read as an integer is no failure: the
/// bookmark is given the time of the reading in its place.
#[derive(Debug, Clone, Copy, PartialEq, Eq, Structural)]
pub enum ParseError {
    /// The text is not made of well-formed tags: an unknown tag name, an
    /// attribute without a quoted value, a tag that is not closed or closed
    /// twice. `position` counts the characters before the offending one,
    /// `line` the line breaks before it.
    MalformedInput { position: usize, line: usize },
    /// An anchor has no `HREF` attribute, and such an anchor was not to be
    /// passed over.
    MissingRequiredAttribute,
}

} // verus!
