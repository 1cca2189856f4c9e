//! Adding one bookmark.

use vstd::prelude::*;
use crate::bookmark::{Bookmark, BookmarkView, TagList};
use crate::site_metadata::{SiteMetadata, SiteMetadataView, SiteType};
use crate::text::{optional_text, strings_view, text_or_empty};

verus! {

/// The arguments of the command that adds a bookmark.
#[derive(Debug)]
pub struct AddArgs {
    pub name: String,
    pub link: String,
    pub tags: Vec<String>,
    pub description: Option<String>,
}

impl AddArgs {
    /// The arguments, as given.
    pub fn new(name: String, link: String, tags: Vec<String>, description: Option<String>) -> (r:
        AddArgs)
        ensures
            r.name == name,
            r.link == link,
            r.tags == tags,
            r.description == description,
    {
        AddArgs { name, link, tags, description }
    }
}

impl AddArgs {
    /// The bookmark that these arguments describe: it has no identifier
    /// and no time stamps yet, and an empty description where none was
    /// given.
    pub fn bookmark(self) -> (r: Bookmark)
        ensures
            r@ == (BookmarkView {
                id: Seq::empty(),
                link: self.link@,
                added_at: 0,
                last_modified: 0,
                metadata: SiteMetadataView {
                    title: self.name@,
                    description: Some(text_or_empty(optional_text(self.description))),
                    image_url: None,
                    site_type: SiteType::Website,
                },
                tags: strings_view(self.tags@),
            }),
    {
        let description = match self.description {
            Some(d) => d,
            None => String::new(),
        };
        Bookmark {
            id: String::new(),
            link: self.link,
            added_at: 0,
            last_modified: 0,
            metadata: SiteMetadata {
                title: self.name,
                description: Some(description),
                image_url: None,
                site_type: SiteType::Website,
            },
            tags: TagList(self.tags),
        }
    }
}

} // verus!
