//! From the tree of elements to the bookmarks: which bookmark an anchor
//! stands for, and which folder names are in force where it stands.
//!
//! The elements of one list are gone through in order. A title or a
//! heading adds its text to the folder names in force for what follows it
//! in its list, and in the lists inside that. A folder list starts with the
//! names in force where it stands; what it adds ends with it. An anchor
//! gives one bookmark. Elements of any other kind give nothing.

use vstd::prelude::*;
use crate::bookmark::BookmarkView;
use crate::element::{well_formed, ElementView, Tags};
use crate::error::ParseError;
use crate::grammar::{document, lemma_document_well_formed, line_breaks_before, AttributeMap};
use crate::number::integer_of;
use crate::site_metadata::{SiteMetadataView, SiteType};
use crate::text::{split, squeeze, text_or_empty, trim, trim_all, unique_nonempty};

verus! {

/// Text as a title or a folder name holds it: trimmed, and every run of
/// white space inside it made one space.
pub open spec fn normalize(t: Seq<char>) -> Seq<char> {
    squeeze(trim(t))
}

/// The folder name that a title or a heading gives.
pub open spec fn label_of(e: ElementView) -> Seq<char> {
    normalize(text_or_empty(e.inner_text))
}

/// The time stamp under `key`: the integer that the value reads as, or
/// `now` where the attribute is missing or reads as none.
pub open spec fn timestamp(attributes: AttributeMap, key: Seq<char>, now: i64) -> i64 {
    if attributes.contains_key(key) {
        match integer_of(attributes[key]) {
            Some(v) => v,
            None => now,
        }
    } else {
        now
    }
}

/// The tags that an anchor names itself: the fields of its `TAGS`
/// attribute between commas, trimmed.
pub open spec fn explicit_tags(attributes: AttributeMap) -> Seq<Seq<char>> {
    if attributes.contains_key("TAGS"@) {
        trim_all(split(attributes["TAGS"@], ','))
    } else {
        Seq::empty()
    }
}

/// The tags of a bookmark: those that its anchor names, then, where asked
/// for, the folder names in force; none empty, each once.
pub open spec fn record_tags(
    attributes: AttributeMap,
    labels: Seq<Seq<char>>,
    add_folder_labels: bool,
) -> Seq<Seq<char>> {
    unique_nonempty(
        explicit_tags(attributes) + if add_folder_labels {
            labels
        } else {
            Seq::empty()
        },
    )
}

/// The bookmark that the anchor `e` stands for; `None` where `e` has no
/// `HREF`.
///
/// The link is the `HREF` value, trimmed. `ADD_DATE` and `LAST_MODIFIED`
/// give the two time stamps; each one that is missing or reads as no
/// integer is `now`. The title is the text of the anchor, normalized. The
/// description is the text that follows the anchor, empty where there is
/// none. The bookmark has no identifier yet.
pub open spec fn record_of(
    e: ElementView,
    labels: Seq<Seq<char>>,
    add_folder_labels: bool,
    now: i64,
) -> Option<BookmarkView> {
    match e.attributes {
        None => None,
        Some(attributes) => if !attributes.contains_key("HREF"@) {
            None
        } else {
            Some(
                BookmarkView {
                    id: Seq::empty(),
                    link: trim(attributes["HREF"@]),
                    added_at: timestamp(attributes, "ADD_DATE"@, now),
                    last_modified: timestamp(attributes, "LAST_MODIFIED"@, now),
                    metadata: SiteMetadataView {
                        title: normalize(text_or_empty(e.inner_text)),
                        description: Some(text_or_empty(e.text)),
                        image_url: None,
                        site_type: SiteType::Website,
                    },
                    tags: record_tags(attributes, labels, add_folder_labels),
                },
            )
        },
    }
}

/// What to do about an anchor that has no `HREF`.
#[derive(Debug, Clone, Copy, PartialEq, Eq, Structural)]
pub enum MissingLink {
    /// Give up the whole file: it has no bookmarks to give.
    Abort,
    /// Pass over the anchor: it gives no bookmark.
    Skip,
}

/// The bookmarks of the elements of `elements` from the `i`-th on, in the
/// order of the file, given the folder names in force at the `i`-th.
/// Where an anchor among them, at any depth, has no `HREF`, the outcome is
/// `MissingRequiredAttribute` under `MissingLink::Abort`; under
/// `MissingLink::Skip` that anchor gives no bookmark.
pub open spec fn records_from(
    elements: Seq<ElementView>,
    i: int,
    labels: Seq<Seq<char>>,
    add_folder_labels: bool,
    missing_link: MissingLink,
    now: i64,
) -> Result<Seq<BookmarkView>, ParseError>
    decreases elements, elements.len() - i,
{
    if i < 0 || i >= elements.len() {
        Ok(Seq::empty())
    } else {
        let e = elements[i];
        if e.name.is_header() {
            records_from(elements, i + 1, labels.push(label_of(e)), add_folder_labels, missing_link, now)
        } else {
            let first: Result<Seq<BookmarkView>, ParseError> = if e.name == Tags::DL {
                match e.children {
                    None => Ok(Seq::empty()),
                    Some(children) => records_from(children, 0, labels, add_folder_labels, missing_link, now),
                }
            } else if e.name == Tags::A {
                match record_of(e, labels, add_folder_labels, now) {
                    Some(r) => Ok(seq![r]),
                    None => match missing_link {
                        MissingLink::Abort => Err(ParseError::MissingRequiredAttribute),
                        MissingLink::Skip => Ok(Seq::empty()),
                    },
                }
            } else {
                Ok(Seq::empty())
            };
            match first {
                Err(x) => Err(x),
                Ok(a) => match records_from(elements, i + 1, labels, add_folder_labels, missing_link, now) {
                    Err(x) => Err(x),
                    Ok(b) => Ok(a + b),
                },
            }
        }
    }
}

/// The bookmarks of `elements`, with `labels` in force at the first.
pub open spec fn records(
    elements: Seq<ElementView>,
    labels: Seq<Seq<char>>,
    add_folder_labels: bool,
    missing_link: MissingLink,
    now: i64,
) -> Result<Seq<BookmarkView>, ParseError> {
    records_from(elements, 0, labels, add_folder_labels, missing_link, now)
}

/// Whether `e`, and every element inside it, is of a kind.
pub open spec fn classified(e: ElementView) -> bool
    decreases e,
{
    e.name != Tags::NONE && match e.children {
        None => true,
        Some(children) => forall|i: int|
            0 <= i < children.len() ==> classified(#[trigger] children[i]),
    }
}

/// Whether every one of `elements`, and every element inside them, is of
/// a kind.
pub open spec fn all_classified(elements: Seq<ElementView>) -> bool {
    forall|i: int| 0 <= i < elements.len() ==> classified(#[trigger] elements[i])
}

/// The failure to report for text that stops being a bookmark file at
/// position `p`.
pub open spec fn malformed_at(s: Seq<char>, p: int) -> ParseError {
    ParseError::MalformedInput {
        position: p as usize,
        line: line_breaks_before(s, p) as usize,
    }
}

/// What reading the text `s` of a bookmark file gives: its bookmarks in
/// the order of the file, or why it has none to give.
pub open spec fn parse_result(
    s: Seq<char>,
    add_folder_labels: bool,
    missing_link: MissingLink,
    now: i64,
) -> Result<Seq<BookmarkView>, ParseError> {
    match document(s) {
        Err(p) => Err(malformed_at(s, p)),
        Ok(elements) => records(elements, Seq::empty(), add_folder_labels, missing_link, now),
    }
}

proof fn lemma_well_formed_classified(e: ElementView)
    requires
        well_formed(e),
    ensures
        classified(e),
    decreases e,
{
    if let Some(children) = e.children {
        assert forall|i: int| 0 <= i < children.len() implies classified(
            #[trigger] children[i],
        ) by {
            lemma_well_formed_classified(children[i]);
        }
    }
}

/// Every element that a file reads as is of a kind.
pub proof fn lemma_document_classified(s: Seq<char>)
    requires
        document(s) is Ok,
    ensures
        all_classified(document(s)->Ok_0),
{
    lemma_document_well_formed(s);
    let elements = document(s)->Ok_0;
    assert forall|i: int| 0 <= i < elements.len() implies classified(#[trigger] elements[i]) by {
        lemma_well_formed_classified(elements[i]);
    }
}

} // verus!
