//! Bookmarks and their tags.

use vstd::prelude::*;
use vstd::std_specs::convert::FromSpecImpl;
use vstd::string::StringExecFns;
use crate::site_metadata::{SiteMetadata, SiteMetadataView, SiteType};
use crate::clock::date_text;
use crate::escapes::{unescape_text, unescaped};
use crate::text::{
    join, join_strings, optional_text, replace_all, replaced, strings_view, text_or_empty,
};
use crate::utils::{date_format, get_date_string, try_get_date_string};

verus! {

/// The tags of a bookmark, in the order in which they were given.
#[derive(Debug, Clone)]
pub struct TagList(pub Vec<String>);

impl View for TagList {
    type V = Seq<Seq<char>>;

    open spec fn view(&self) -> Seq<Seq<char>> {
        strings_view(self.0@)
    }
}

impl TagList {
    /// The tags, with a comma and a space between each two.
    #[allow(clippy::inherent_to_string)]
    pub fn to_string(&self) -> (r: String)
        ensures
            r@ == join(self@, ", "@),
    {
        join_strings(&self.0, ", ")
    }
}

impl From<Vec<String>> for TagList {
    fn from(items: Vec<String>) -> (r: TagList) {
        TagList(items)
    }
}

impl FromSpecImpl<Vec<String>> for TagList {
    open spec fn obeys_from_spec() -> bool {
        true
    }

    open spec fn from_spec(items: Vec<String>) -> TagList {
        TagList(items)
    }
}

impl Default for TagList {
    fn default() -> (r: TagList)
        ensures
            r@ == Seq::<Seq<char>>::empty(),
    {
        let r = TagList(Vec::new());
        proof {
            assert(r@ =~= Seq::<Seq<char>>::empty());
        }
        r
    }
}

/// What a bookmark holds, as plain values.
pub struct BookmarkView {
    pub id: Seq<char>,
    pub link: Seq<char>,
    pub added_at: i64,
    pub last_modified: i64,
    pub metadata: SiteMetadataView,
    pub tags: Seq<Seq<char>>,
}

/// One bookmark.
#[derive(Debug, Clone)]
pub struct Bookmark {
    /// The name it is stored under; empty until it is stored.
    pub id: String,
    /// The address it points to.
    pub link: String,
    /// When it was added, in seconds since the Unix epoch.
    pub added_at: i64,
    /// When it was last changed, in seconds since the Unix epoch.
    pub last_modified: i64,
    /// Its title and what else is known of the page.
    pub metadata: SiteMetadata,
    /// Its tags: none empty, none twice.
    pub tags: TagList,
}

impl View for Bookmark {
    type V = BookmarkView;

    open spec fn view(&self) -> BookmarkView {
        BookmarkView {
            id: self.id@,
            link: self.link@,
            added_at: self.added_at,
            last_modified: self.last_modified,
            metadata: self.metadata@,
            tags: self.tags@,
        }
    }
}

/// What a sequence of bookmarks holds.
pub open spec fn bookmarks_view(v: Seq<Bookmark>) -> Seq<BookmarkView> {
    v.map_values(|b: Bookmark| b@)
}

impl Default for Bookmark {
    fn default() -> (r: Bookmark)
        ensures
            r@ == (BookmarkView {
                id: Seq::empty(),
                link: Seq::empty(),
                added_at: 0,
                last_modified: 0,
                metadata: SiteMetadataView {
                    title: Seq::empty(),
                    description: None,
                    image_url: None,
                    site_type: SiteType::Website,
                },
                tags: Seq::empty(),
            }),
    {
        Bookmark {
            id: String::new(),
            link: String::new(),
            added_at: 0,
            last_modified: 0,
            metadata: SiteMetadata::default(),
            tags: TagList::default(),
        }
    }
}

impl Bookmark {
    /// The title, the link and the tags on one line.
    #[allow(clippy::inherent_to_string)]
    pub fn to_string(&self) -> (r: String)
        ensures
            r@ == self@.metadata.title + " - "@ + self@.link + " ["@ + join(self@.tags, ", "@)
                + "]"@,
    {
        let mut out = self.metadata.title.clone();
        out.append(" - ");
        out.append(self.link.as_str());
        out.append(" [");
        let tags = self.tags.to_string();
        out.append(tags.as_str());
        out.append("]");
        out
    }
}

/// `format` with the six texts in place of the marks that ask for them:
/// `%n` the name, `%l` the link, `%a` the day it was added, `%m` the day
/// it was last changed, `%t` the tags and `%d` the description. The marks
/// are replaced in this order, each in what the ones before it left.
pub open spec fn formatted(
    format: Seq<char>,
    name: Seq<char>,
    link: Seq<char>,
    added: Seq<char>,
    modified: Seq<char>,
    tags: Seq<char>,
    description: Seq<char>,
) -> Seq<char> {
    replaced(
        replaced(
            replaced(
                replaced(replaced(replaced(format, "%n"@, name), "%l"@, link), "%a"@, added),
                "%m"@,
                modified,
            ),
            "%t"@,
            tags,
        ),
        "%d"@,
        description,
    )
}

/// `format_string` with the six texts in place of the marks that ask for
/// them.
pub fn format_with(
    format_string: &str,
    name: &str,
    link: &str,
    added: &str,
    modified: &str,
    tags: &str,
    description: &str,
) -> (r: String)
    ensures
        r@ == formatted(
            format_string@,
            name@,
            link@,
            added@,
            modified@,
            tags@,
            description@,
        ),
{
    let result = replace_all(format_string, "%n", name);
    let result = replace_all(result.as_str(), "%l", link);
    let result = replace_all(result.as_str(), "%a", added);
    let result = replace_all(result.as_str(), "%m", modified);
    let result = replace_all(result.as_str(), "%t", tags);
    replace_all(result.as_str(), "%d", description)
}

/// The day and time of the moment `ts`, as shown: written as a date, then
/// unescaped.
pub open spec fn shown_date(ts: i64) -> Option<Seq<char>> {
    match date_text(ts as int, date_format()) {
        Some(d) => unescaped(d),
        None => None,
    }
}

/// `s` unescaped, or `s` itself where it cannot be.
pub open spec fn unescaped_or_same(s: Seq<char>) -> Seq<char> {
    match unescaped(s) {
        Some(u) => u,
        None => s,
    }
}

impl BookmarkView {
    /// The line that `format` gives for this bookmark: its six texts,
    /// unescaped, in place of the marks. `None` where one of the texts
    /// cannot be unescaped or one of the two time stamps has no date.
    pub open spec fn line(self, format: Seq<char>) -> Option<Seq<char>> {
        match (
            unescaped(self.metadata.title),
            unescaped(self.link),
            shown_date(self.added_at),
            shown_date(self.last_modified),
            unescaped(join(self.tags, ", "@)),
            unescaped(text_or_empty(self.metadata.description)),
        ) {
            (Some(name), Some(link), Some(added), Some(modified), Some(tags), Some(description)) => Some(
                formatted(format, name, link, added, modified, tags, description),
            ),
            _ => None,
        }
    }
}

impl Bookmark {
    /// This bookmark, added and last changed at `now`.
    pub fn stamped(self, now: i64) -> (r: Bookmark)
        ensures
            r@ == (BookmarkView { added_at: now, last_modified: now, ..self@ }),
    {
        let mut r = self;
        r.added_at = now;
        r.last_modified = now;
        r
    }

    fn description_or_empty(&self) -> (r: String)
        ensures
            r@ == text_or_empty(self@.metadata.description),
    {
        match &self.metadata.description {
            Some(d) => d.clone(),
            None => String::new(),
        }
    }

    /// The line that `format_string` asks for: this bookmark's name, link,
    /// dates, tags and description, unescaped, in place of the marks `%n`,
    /// `%l`, `%a`, `%m`, `%t` and `%d`. Each of the texts has to be one
    /// that can be unescaped, each time stamp one that has a date.
    pub fn format(&self, format_string: &str) -> (r: String)
        requires
            self@.line(format_string@) is Some,
        ensures
            r@ == self@.line(format_string@)->Some_0,
    {
        let name = unescape_text(self.metadata.title.as_str()).unwrap();
        let link = unescape_text(self.link.as_str()).unwrap();
        let added = get_date_string(self.added_at);
        let added = unescape_text(added.as_str()).unwrap();
        let modified = get_date_string(self.last_modified);
        let modified = unescape_text(modified.as_str()).unwrap();
        let tags = self.tags.to_string();
        let tags = unescape_text(tags.as_str()).unwrap();
        let description = self.description_or_empty();
        let description = unescape_text(description.as_str()).unwrap();
        format_with(
            format_string,
            name.as_str(),
            link.as_str(),
            added.as_str(),
            modified.as_str(),
            tags.as_str(),
            description.as_str(),
        )
    }

    /// The line that `format_string` asks for, as [`Bookmark::format`]
    /// gives it; `None` where one of the texts cannot be unescaped or one
    /// of the time stamps has no date.
    pub fn try_format(&self, format_string: &str) -> (r: Option<String>)
        ensures
            optional_text(r) == self@.line(format_string@),
    {
        if unescape_text(self.metadata.title.as_str()).is_none() {
            return None;
        }
        if unescape_text(self.link.as_str()).is_none() {
            return None;
        }
        match try_get_date_string(self.added_at) {
            None => {
                return None;
            },
            Some(d) => {
                if unescape_text(d.as_str()).is_none() {
                    return None;
                }
            },
        }
        match try_get_date_string(self.last_modified) {
            None => {
                return None;
            },
            Some(d) => {
                if unescape_text(d.as_str()).is_none() {
                    return None;
                }
            },
        }
        let tags = self.tags.to_string();
        if unescape_text(tags.as_str()).is_none() {
            return None;
        }
        let description = self.description_or_empty();
        if unescape_text(description.as_str()).is_none() {
            return None;
        }
        Some(self.format(format_string))
    }

    /// What a table shows of this bookmark: title, link, description and
    /// tags. Title and description are unescaped where they can be, and
    /// shown as they are where they cannot.
    pub fn fields(&self) -> (r: Vec<String>)
        ensures
            strings_view(r@) == seq![
                unescaped_or_same(self@.metadata.title),
                self@.link,
                unescaped_or_same(text_or_empty(self@.metadata.description)),
                join(self@.tags, ", "@),
            ],
    {
        let title = match unescape_text(self.metadata.title.as_str()) {
            Some(t) => t,
            None => self.metadata.title.clone(),
        };
        let description = self.description_or_empty();
        let description = match unescape_text(description.as_str()) {
            Some(d) => d,
            None => description,
        };
        let mut r: Vec<String> = Vec::new();
        r.push(title);
        r.push(self.link.clone());
        r.push(description);
        r.push(self.tags.to_string());
        proof {
            assert(strings_view(r@) =~= seq![
                unescaped_or_same(self@.metadata.title),
                self@.link,
                unescaped_or_same(text_or_empty(self@.metadata.description)),
                join(self@.tags, ", "@),
            ]);
        }
        r
    }

    /// The headings of the table that [`Bookmark::fields`] fills.
    pub fn headers() -> (r: Vec<String>)
        ensures
            strings_view(r@) == seq!["Title"@, "Link"@, "Description"@, "Tags"@],
    {
        let mut r: Vec<String> = Vec::new();
        r.push("Title".to_owned());
        r.push("Link".to_owned());
        r.push("Description".to_owned());
        r.push("Tags".to_owned());
        proof {
            assert(strings_view(r@) =~= seq!["Title"@, "Link"@, "Description"@, "Tags"@]);
        }
        r
    }
}

} // verus!
