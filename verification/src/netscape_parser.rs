//! The reader of Netscape bookmark files: from the text of a file to its
//! tree of elements, and from the tree to the bookmarks.

use vstd::prelude::*;
use crate::bookmark::{bookmarks_view, Bookmark, BookmarkView, TagList};
use crate::chars::{scan, substring, to_chars, CharClass};
use crate::clock::current_timestamp;
use crate::element::{
    all_well_formed, classify, elements_view, lemma_elements_view_index,
    lemma_elements_view_len, lemma_elements_view_push, Attributes, Element, ElementView, Tags,
};
use crate::error::ParseError;
use crate::grammar::{
    assemble, attributes_from, close_tag, closing_at, document, expect_close, item_at,
    lemma_attributes_advance, lemma_document_well_formed, line_breaks_before, open_tag,
    some_attributes, step, text_after, text_end, upper, upper_all, with_child, AttributeMap,
    FrameView, Item,
};
use crate::hierarchy::{
    all_classified, classified, lemma_document_classified, malformed_at, normalize, parse_result,
    record_of, record_tags, records, records_from, timestamp, MissingLink,
};
use crate::number::parse_integer;
use crate::site_metadata::{SiteMetadata, SiteType};
use crate::text::{
    clone_strings, lemma_strings_view_push, normalized, optional_text, split_trimmed,
    strings_view, text_or_empty, trim, trimmed, unique_strings,
};

verus! {

/// What optional attributes hold.
pub open spec fn attributes_view(a: Option<Attributes>) -> Option<AttributeMap> {
    match a {
        Some(x) => Some(x@),
        None => None,
    }
}

/// One tag with the text that belongs to it, as read from a file.
#[derive(Debug)]
pub enum Markup {
    /// An element that holds no other element, complete.
    Leaf(Element),
    /// The opening of a folder list, with its attributes.
    Open(Option<Attributes>),
    /// The closing of a folder list, with the text that follows it.
    Close(Option<String>),
    /// A declaration: nothing.
    Skip,
}

impl View for Markup {
    type V = Item;

    open spec fn view(&self) -> Item {
        match *self {
            Markup::Leaf(e) => Item::Leaf(e@),
            Markup::Open(a) => Item::Open(attributes_view(a)),
            Markup::Close(t) => Item::Close(optional_text(t)),
            Markup::Skip => Item::Skip,
        }
    }
}

fn to_upper(c: char) -> (r: char)
    ensures
        r == upper(c),
{
    if 'a' <= c && c <= 'z' {
        ((c as u8) - 32) as char
    } else {
        c
    }
}

fn upper_substring(s: &[char], from: usize, to: usize) -> (out: String)
    requires
        from <= to <= s.len(),
    ensures
        out@ == upper_all(s@.subrange(from as int, to as int)),
{
    let mut out = String::new();
    let mut i: usize = from;
    while i < to
        invariant
            from <= i <= to <= s.len(),
            out@ == upper_all(s@.subrange(from as int, i as int)),
        decreases to - i,
    {
        proof {
            assert(upper_all(s@.subrange(from as int, i as int)).push(upper(s@[i as int]))
                =~= upper_all(s@.subrange(from as int, i + 1)));
        }
        out.push(to_upper(s[i]));
        i += 1;
    }
    out
}

/// Reads the free text that starts at `i`.
fn read_text(s: &[char], i: usize) -> (r: (Option<String>, usize))
    requires
        i <= s.len(),
    ensures
        optional_text(r.0) == text_after(s@, i as int),
        r.1 == text_end(s@, i as int),
        i <= r.1 <= s.len(),
{
    let end: usize = scan(s, i, CharClass::Text);
    let t = trimmed(s, i, end);
    if t.as_str().is_empty() {
        (None, end)
    } else {
        (Some(t), end)
    }
}

/// Reads the attributes of a tag, from `i` up to its `>`.
pub fn get_attributes(s: &[char], i: usize) -> (r: Result<(Option<Attributes>, usize), usize>)
    requires
        i <= s.len(),
    ensures
        match r {
            Ok((a, j)) => i < j <= s.len() && (attributes_from(s@, i as int, Map::empty())
                matches Ok((m, end)) && end == j && attributes_view(a) == some_attributes(m)),
            Err(p) => i <= p <= s.len() && attributes_from(s@, i as int, Map::empty()) == Err::<
                (AttributeMap, int),
                int,
            >(p as int),
        },
{
    let mut acc = Attributes::new();
    let mut pos: usize = i;
    loop
        invariant
            i <= pos <= s.len(),
            attributes_from(s@, i as int, Map::empty()) == attributes_from(s@, pos as int, acc@),
            pos == i ==> acc@ == Map::<Seq<char>, Seq<char>>::empty(),
        decreases s.len() - pos,
    {
        proof {
            lemma_attributes_advance(s@, pos as int, acc@);
        }
        let key: usize = scan(s, pos, CharClass::Space);
        if key >= s.len() {
            return Err(key);
        }
        if s[key] == '>' {
            if acc.is_empty() {
                return Ok((None, key + 1));
            } else {
                return Ok((Some(acc), key + 1));
            }
        }
        let key_end: usize = scan(s, key, CharClass::Key);
        if key_end == key {
            return Err(key);
        }
        let equals: usize = scan(s, key_end, CharClass::Space);
        if equals >= s.len() || s[equals] != '=' {
            return Err(equals);
        }
        let quote: usize = scan(s, equals + 1, CharClass::Space);
        if quote >= s.len() || s[quote] != '"' {
            return Err(quote);
        }
        let value_end: usize = scan(s, quote + 1, CharClass::Value);
        if value_end >= s.len() {
            return Err(quote);
        }
        acc.insert(upper_substring(s, key, key_end), substring(s, quote + 1, value_end));
        pos = value_end + 1;
    }
}

/// Reads the opening tag at `i`.
fn read_open_tag(s: &[char], i: usize) -> (r: Result<(Tags, Option<Attributes>, usize), usize>)
    requires
        i < s.len(),
    ensures
        match r {
            Ok((tag, a, j)) => i < j <= s.len() && tag != Tags::NONE && open_tag(s@, i as int)
                == Ok::<(Tags, Option<AttributeMap>, int), int>(
                (tag, attributes_view(a), j as int),
            ),
            Err(p) => i <= p <= s.len() && open_tag(s@, i as int) == Err::<
                (Tags, Option<AttributeMap>, int),
                int,
            >(p as int),
        },
{
    let name_end: usize = scan(s, i + 1, CharClass::Name);
    let tag = classify(s, i + 1, name_end);
    if tag == Tags::NONE {
        return Err(i);
    }
    match get_attributes(s, name_end) {
        Err(p) => Err(p),
        Ok((a, j)) => Ok((tag, a, j)),
    }
}

/// Reads the closing tag at `i`.
fn read_close_tag(s: &[char], i: usize) -> (r: Result<(Tags, usize), usize>)
    requires
        closing_at(s@, i as int),
    ensures
        match r {
            Ok((tag, j)) => i < j <= s.len() && close_tag(s@, i as int) == Ok::<(Tags, int), int>(
                (tag, j as int),
            ),
            Err(p) => p == i && close_tag(s@, i as int) == Err::<(Tags, int), int>(p as int),
        },
{
    let n: usize = s.len();
    assert(i + 2 <= n);
    let name_end: usize = scan(s, i + 2, CharClass::Name);
    let end: usize = scan(s, name_end, CharClass::Space);
    let tag = classify(s, i + 2, name_end);
    if tag == Tags::NONE || end >= s.len() || s[end] != '>' {
        Err(i)
    } else {
        Ok((tag, end + 1))
    }
}

/// Reads the closing tag of kind `tag` that has to stand at `i`.
fn read_expected_close(s: &[char], i: usize, tag: Tags) -> (r: Result<usize, usize>)
    requires
        i <= s.len(),
    ensures
        match r {
            Ok(j) => i < j <= s.len() && expect_close(s@, i as int, tag) == Ok::<int, int>(
                j as int,
            ),
            Err(p) => p == i && expect_close(s@, i as int, tag) == Err::<int, int>(p as int),
        },
{
    if !(i < s.len() && s.len() - i >= 2 && s[i] == '<' && s[i + 1] == '/') {
        return Err(i);
    }
    match read_close_tag(s, i) {
        Err(p) => Err(p),
        Ok((found, j)) => if found == tag {
            Ok(j)
        } else {
            Err(i)
        },
    }
}

/// Reads the item that starts with the `<` at `i`: an element that holds
/// no other, or the opening or the closing of a folder list.
pub fn make_element(s: &[char], i: usize) -> (r: Result<(Markup, usize), usize>)
    requires
        i < s.len(),
    ensures
        match r {
            Ok((item, j)) => i < j <= s.len() && item_at(s@, i as int) == Ok::<(Item, int), int>(
                (item@, j as int),
            ),
            Err(p) => i <= p <= s.len() && item_at(s@, i as int) == Err::<(Item, int), int>(
                p as int,
            ),
        },
{
    if s.len() - i >= 2 && s[i] == '<' && s[i + 1] == '/' {
        match read_close_tag(s, i) {
            Err(p) => Err(p),
            Ok((tag, j)) => {
                if tag == Tags::DL {
                    let (text, end) = read_text(s, j);
                    Ok((Markup::Close(text), end))
                } else {
                    Err(i)
                }
            },
        }
    } else if s.len() - i >= 2 && s[i] == '<' && s[i + 1] == '!' {
        let end: usize = scan(s, i, CharClass::Declaration);
        if end >= s.len() {
            Err(i)
        } else {
            let next: usize = scan(s, end + 1, CharClass::Text);
            Ok((Markup::Skip, next))
        }
    } else {
        match read_open_tag(s, i) {
            Err(p) => Err(p),
            Ok((tag, attributes, j)) => {
                if tag == Tags::DL {
                    let next: usize = scan(s, j, CharClass::Text);
                    Ok((Markup::Open(attributes), next))
                } else if tag == Tags::TITLE || tag == Tags::H1 || tag == Tags::H3 || tag
                    == Tags::A {
                    let inner_end: usize = scan(s, j, CharClass::Text);
                    match read_expected_close(s, inner_end, tag) {
                        Err(p) => Err(p),
                        Ok(k) => {
                            let inner = substring(s, j, inner_end);
                            let (text, end) = read_text(s, k);
                            let e = Element {
                                name: tag,
                                attributes,
                                inner_text: Some(inner),
                                children: None,
                                text,
                            };
                            Ok((Markup::Leaf(e), end))
                        },
                    }
                } else {
                    let (text, end) = read_text(s, j);
                    let e = Element {
                        name: tag,
                        attributes,
                        inner_text: None,
                        children: None,
                        text,
                    };
                    Ok((Markup::Leaf(e), end))
                }
            },
        }
    }
}

/// A folder list that is open while a file is read. The file itself is the
/// outermost one.
#[derive(Debug)]
pub struct Frame {
    pub attributes: Option<Attributes>,
    pub children: Vec<Element>,
}

impl View for Frame {
    type V = FrameView;

    open spec fn view(&self) -> FrameView {
        FrameView {
            attributes: attributes_view(self.attributes),
            children: elements_view(self.children@),
        }
    }
}

/// What the open lists hold, outermost first.
pub open spec fn frames_view(stack: Seq<Frame>) -> Seq<FrameView> {
    stack.map_values(|f: Frame| f@)
}

/// Adds `e` to the innermost open list.
fn add_child(stack: &mut Vec<Frame>, e: Element)
    requires
        old(stack).len() >= 1,
    ensures
        final(stack).len() == old(stack).len(),
        frames_view(final(stack)@) == with_child(frames_view(old(stack)@), e@),
{
    let mut top = stack.pop().unwrap();
    proof {
        lemma_elements_view_push(top.children@, e);
    }
    top.children.push(e);
    stack.push(top);
    proof {
        assert(frames_view(stack@) =~= with_child(frames_view(old(stack)@), e@));
    }
}

/// Takes `item` into the lists that are open. Gives `false`, and leaves
/// them as they are, where `item` closes a list and none but the file
/// itself is open.
fn take_item(stack: &mut Vec<Frame>, item: Markup) -> (taken: bool)
    requires
        old(stack).len() >= 1,
    ensures
        final(stack).len() >= 1,
        taken ==> step(frames_view(old(stack)@), item@) == Some(frames_view(final(stack)@)),
        !taken ==> step(frames_view(old(stack)@), item@) is None && final(stack)@ == old(
            stack,
        )@,
{
    match item {
        Markup::Skip => true,
        Markup::Leaf(e) => {
            add_child(stack, e);
            true
        },
        Markup::Open(attributes) => {
            let frame = Frame { attributes, children: Vec::new() };
            proof {
                assert(frames_view(stack@.push(frame)) =~= frames_view(stack@).push(frame@));
            }
            stack.push(frame);
            true
        },
        Markup::Close(text) => {
            if stack.len() < 2 {
                false
            } else {
                let top = stack.pop().unwrap();
                proof {
                    assert(frames_view(stack@) =~= frames_view(old(stack)@).drop_last());
                }
                let e = Element {
                    name: Tags::DL,
                    attributes: top.attributes,
                    inner_text: None,
                    children: Some(top.children),
                    text,
                };
                add_child(stack, e);
                true
            }
        },
    }
}

/// Counts the line breaks before position `p`.
fn count_line_breaks(s: &[char], p: usize) -> (n: usize)
    requires
        p <= s.len(),
    ensures
        n == line_breaks_before(s@, p as int),
        n <= p,
{
    let mut n: usize = 0;
    let mut i: usize = 0;
    while i < p
        invariant
            i <= p <= s.len(),
            n <= i,
            n == line_breaks_before(s@, i as int),
        decreases p - i,
    {
        if s[i] == '\n' {
            n += 1;
        }
        i += 1;
    }
    n
}

/// Reads the characters of a file into its elements.
fn build_tree(s: &[char]) -> (r: Result<Vec<Element>, usize>)
    ensures
        match r {
            Ok(v) => document(s@) == Ok::<Seq<ElementView>, int>(elements_view(v@)),
            Err(p) => p <= s.len() && document(s@) == Err::<Seq<ElementView>, int>(p as int),
        },
{
    let mut stack: Vec<Frame> = Vec::new();
    stack.push(Frame { attributes: None, children: Vec::new() });
    let mut i: usize = scan(s, 0, CharClass::Text);
    proof {
        assert(frames_view(stack@) =~= seq![
            FrameView { attributes: None, children: Seq::empty() },
        ]);
    }
    while i < s.len()
        invariant
            i <= s.len(),
            stack.len() >= 1,
            document(s@) == assemble(s@, i as int, frames_view(stack@)),
        decreases s.len() - i,
    {
        match make_element(s, i) {
            Err(p) => {
                return Err(p);
            },
            Ok((item, j)) => {
                if !take_item(&mut stack, item) {
                    return Err(i);
                }
                i = j;
            },
        }
    }
    if stack.len() == 1 {
        let root = stack.pop().unwrap();
        Ok(root.children)
    } else {
        Err(i)
    }
}

/// Reads the text of a bookmark file into its elements, in the order in
/// which they stand in the file; a declaration (`<!DOCTYPE ...>`) and the
/// text before the first tag are passed over.
///
/// Fails with `MalformedInput` where the text is not made of well-formed
/// tags, and names the place.
pub fn get_elements(contents: &str) -> (r: Result<Vec<Element>, ParseError>)
    ensures
        match r {
            Ok(v) => document(contents@) == Ok::<Seq<ElementView>, int>(elements_view(v@))
                && all_well_formed(elements_view(v@)),
            Err(e) => document(contents@) matches Err(p) && 0 <= p <= contents@.len() && e
                == malformed_at(contents@, p),
        },
{
    let s = to_chars(contents);
    match build_tree(s.as_slice()) {
        Ok(v) => {
            proof {
                lemma_document_well_formed(contents@);
            }
            Ok(v)
        },
        Err(p) => Err(
            ParseError::MalformedInput { position: p, line: count_line_breaks(s.as_slice(), p) },
        ),
    }
}

/// What the folder names handed to the walk hold; none where none is
/// handed.
pub open spec fn labels_view(labels: Option<&[String]>) -> Seq<Seq<char>> {
    match labels {
        Some(l) => strings_view(l@),
        None => Seq::empty(),
    }
}

/// What the outcome of reading holds.
pub open spec fn result_view(r: Result<Vec<Bookmark>, ParseError>) -> Result<
    Seq<BookmarkView>,
    ParseError,
> {
    match r {
        Ok(v) => Ok(bookmarks_view(v@)),
        Err(e) => Err(e),
    }
}

/// `tail` with `head` before it, where `tail` is no failure.
pub open spec fn after(head: Seq<BookmarkView>, tail: Result<Seq<BookmarkView>, ParseError>)
    -> Result<Seq<BookmarkView>, ParseError> {
    match tail {
        Ok(t) => Ok(head + t),
        Err(e) => Err(e),
    }
}

fn read_timestamp(attributes: &Attributes, key: &str, now: i64) -> (r: i64)
    ensures
        r == timestamp(attributes@, key@, now),
{
    match attributes.get(key) {
        None => now,
        Some(v) => {
            let s = to_chars(v.as_str());
            match parse_integer(s.as_slice()) {
                Some(x) => x,
                None => now,
            }
        },
    }
}

fn read_tags(attributes: &Attributes, labels: &Vec<String>, add_folder_labels: bool) -> (r:
    TagList)
    ensures
        r@ == record_tags(attributes@, strings_view(labels@), add_folder_labels),
{
    let mut candidates: Vec<String> = match attributes.get("TAGS") {
        Some(v) => {
            let s = to_chars(v.as_str());
            split_trimmed(s.as_slice(), ',')
        },
        None => Vec::new(),
    };
    proof {
        if !attributes@.contains_key("TAGS"@) {
            assert(strings_view(candidates@) =~= Seq::<Seq<char>>::empty());
        }
    }
    let ghost named = candidates@;
    if add_folder_labels {
        let mut extra = clone_strings(labels.as_slice());
        candidates.append(&mut extra);
        proof {
            assert(strings_view(candidates@) =~= strings_view(named) + strings_view(labels@));
        }
    } else {
        proof {
            assert(strings_view(candidates@) =~= strings_view(named) + Seq::<
                Seq<char>,
            >::empty());
        }
    }
    TagList(unique_strings(&candidates))
}

/// The text of `t`, normalized; empty where there is none.
fn normalized_text(t: &Option<String>) -> (r: String)
    ensures
        r@ == normalize(text_or_empty(optional_text(*t))),
{
    match t {
        Some(x) => {
            let s = to_chars(x.as_str());
            proof {
                assert(s@.subrange(0, s.len() as int) =~= s@);
            }
            normalized(s.as_slice(), 0, s.len())
        },
        None => {
            let r = String::new();
            proof {
                let e = Seq::<char>::empty();
                assert(crate::text::trim_start(e) =~= e);
                assert(trim(e) =~= e);
                assert(normalize(e) =~= e);
            }
            r
        },
    }
}

/// The bookmark that the anchor `e` stands for.
fn make_bookmark(e: &Element, labels: &Vec<String>, add_folder_labels: bool, now: i64) -> (r:
    Option<Bookmark>)
    ensures
        match r {
            Some(b) => record_of(e@, strings_view(labels@), add_folder_labels, now) == Some(b@),
            None => record_of(e@, strings_view(labels@), add_folder_labels, now) is None,
        },
{
    let attributes = match &e.attributes {
        None => {
            return None;
        },
        Some(a) => a,
    };
    let href = match attributes.get("HREF") {
        None => {
            return None;
        },
        Some(h) => h,
    };
    let h = to_chars(href.as_str());
    proof {
        assert(h@.subrange(0, h.len() as int) =~= h@);
    }
    let link = trimmed(h.as_slice(), 0, h.len());
    let description = match &e.text {
        Some(t) => t.clone(),
        None => String::new(),
    };
    Some(
        Bookmark {
            id: String::new(),
            link,
            added_at: read_timestamp(attributes, "ADD_DATE", now),
            last_modified: read_timestamp(attributes, "LAST_MODIFIED", now),
            metadata: SiteMetadata {
                title: normalized_text(&e.inner_text),
                description: Some(description),
                image_url: None,
                site_type: SiteType::Website,
            },
            tags: read_tags(attributes, labels, add_folder_labels),
        },
    )
}

/// Goes through `elements` in order, and through the folder lists among
/// them, and gives the bookmark of each anchor, in the order in which the
/// anchors stand in the file. `labels` are the folder names in force at
/// the first element, `now` the time to give a bookmark whose anchor
/// names none.
///
/// Fails with `MissingRequiredAttribute` where an anchor has no `HREF`.
pub fn get_bookmarks(
    elements: &[Element],
    labels: Option<&[String]>,
    add_folder_labels: bool,
    now: i64,
) -> (r: Result<Vec<Bookmark>, ParseError>)
    requires
        all_classified(elements_view(elements@)),
    ensures
        result_view(r) == records(
            elements_view(elements@),
            labels_view(labels),
            add_folder_labels,
            MissingLink::Abort,
            now,
        ),
{
    get_bookmarks_with(elements, labels, add_folder_labels, MissingLink::Abort, now)
}

/// Goes through `elements` as [`get_bookmarks`] does. `missing_link` says
/// what becomes of an anchor without `HREF`: it fails the whole with
/// `MissingRequiredAttribute`, or it is passed over.
pub fn get_bookmarks_with(
    elements: &[Element],
    labels: Option<&[String]>,
    add_folder_labels: bool,
    missing_link: MissingLink,
    now: i64,
) -> (r: Result<Vec<Bookmark>, ParseError>)
    requires
        all_classified(elements_view(elements@)),
    ensures
        result_view(r) == records(
            elements_view(elements@),
            labels_view(labels),
            add_folder_labels,
            missing_link,
            now,
        ),
        missing_link == MissingLink::Skip ==> r is Ok,
    decreases elements@,
{
    let mut bookmarks: Vec<Bookmark> = Vec::new();
    let mut in_force: Vec<String> = match labels {
        Some(l) => clone_strings(l),
        None => Vec::new(),
    };
    let ghost ev = elements_view(elements@);
    let ghost first = strings_view(in_force@);
    let mut i: usize = 0;
    proof {
        lemma_elements_view_len(elements@);
        assert(first =~= labels_view(labels));
        assert(bookmarks_view(bookmarks@) =~= Seq::<BookmarkView>::empty());
        let whole = records_from(ev, 0, first, add_folder_labels, missing_link, now);
        assert(whole == after(bookmarks_view(bookmarks@), whole)) by {
            if let Ok(t) = whole {
                assert(Seq::<BookmarkView>::empty() + t =~= t);
            }
        }
    }
    while i < elements.len()
        invariant
            i <= elements.len(),
            ev == elements_view(elements@),
            ev.len() == elements.len(),
            first == labels_view(labels),
            all_classified(ev),
            records_from(ev, 0, first, add_folder_labels, missing_link, now) == after(
                bookmarks_view(bookmarks@),
                records_from(ev, i as int, strings_view(in_force@), add_folder_labels, missing_link, now),
            ),
        decreases elements.len() - i,
    {
        let element = &elements[i];
        let ghost done = bookmarks_view(bookmarks@);
        let ghost rest = records_from(
            ev,
            i + 1,
            strings_view(in_force@),
            add_folder_labels,
            missing_link,
            now,
        );
        proof {
            lemma_elements_view_index(elements@, i as int);
            assert(classified(ev[i as int]));
        }
        match element.name {
            Tags::TITLE | Tags::H1 | Tags::H3 => {
                let label = normalized_text(&element.inner_text);
                proof {
                    lemma_strings_view_push(in_force@, label);
                }
                in_force.push(label);
            },
            Tags::DL => {
                match &element.children {
                    None => {
                        proof {
                            if let Ok(t) = rest {
                                assert(Seq::<BookmarkView>::empty() + t =~= t);
                            }
                        }
                    },
                    Some(children) => {
                        proof {
                            assert(ev[i as int].children == Some(elements_view(children@)));
                            assert(all_classified(elements_view(children@)));
                            assert(decreases_to!(elements@ => children@));
                        }
                        match get_bookmarks_with(
                            children.as_slice(),
                            Some(in_force.as_slice()),
                            add_folder_labels,
                            missing_link,
                            now,
                        ) {
                            Err(e) => {
                                return Err(e);
                            },
                            Ok(inner) => {
                                let mut inner = inner;
                                proof {
                                    let a = bookmarks_view(inner@);
                                    assert(bookmarks_view(bookmarks@ + inner@) =~= done + a);
                                    if let Ok(t) = rest {
                                        assert(done + (a + t) =~= (done + a) + t);
                                    }
                                }
                                bookmarks.append(&mut inner);
                            },
                        }
                    },
                }
            },
            Tags::A => {
                match make_bookmark(element, &in_force, add_folder_labels, now) {
                    None => {
                        match missing_link {
                            MissingLink::Abort => {
                                return Err(ParseError::MissingRequiredAttribute);
                            },
                            MissingLink::Skip => {
                                proof {
                                    if let Ok(t) = rest {
                                        assert(Seq::<BookmarkView>::empty() + t =~= t);
                                    }
                                }
                            },
                        }
                    },
                    Some(b) => {
                        proof {
                            assert(bookmarks_view(bookmarks@.push(b)) =~= done.push(b@));
                            if let Ok(t) = rest {
                                assert(done + (seq![b@] + t) =~= done.push(b@) + t);
                            }
                        }
                        bookmarks.push(b);
                    },
                }
            },
            _ => {
                proof {
                    if let Ok(t) = rest {
                        assert(Seq::<BookmarkView>::empty() + t =~= t);
                    }
                }
            },
        }
        i += 1;
    }
    proof {
        assert(bookmarks_view(bookmarks@) + Seq::<BookmarkView>::empty() =~= bookmarks_view(
            bookmarks@,
        ));
    }
    Ok(bookmarks)
}

/// Reads the text of a bookmark file into its bookmarks, in the order in
/// which their anchors stand in the file. With `add_folder_labels`, a
/// bookmark also has as tags the names of the folders it lies in.
/// `missing_link` says what becomes of an anchor without `HREF`. `now` is
/// the time given to a bookmark whose anchor names none.
///
/// Fails with `MalformedInput` where the text is not made of well-formed
/// tags, and, under `MissingLink::Abort`, with `MissingRequiredAttribute`
/// where an anchor has no `HREF`; no bookmark is given then.
pub fn parse_str_with(
    contents: &str,
    add_folder_labels: bool,
    missing_link: MissingLink,
    now: i64,
) -> (r: Result<Vec<Bookmark>, ParseError>)
    ensures
        result_view(r) == parse_result(contents@, add_folder_labels, missing_link, now),
{
    match get_elements(contents) {
        Err(e) => Err(e),
        Ok(elements) => {
            proof {
                lemma_document_classified(contents@);
            }
            get_bookmarks_with(elements.as_slice(), None, add_folder_labels, missing_link, now)
        },
    }
}

/// Reads the text of a bookmark file into its bookmarks, as
/// [`parse_str_with`] does, and fails where an anchor has no `HREF`.
pub fn parse_str_at(contents: &str, add_folder_labels: bool, now: i64) -> (r: Result<
    Vec<Bookmark>,
    ParseError,
>)
    ensures
        result_view(r) == parse_result(contents@, add_folder_labels, MissingLink::Abort, now),
{
    parse_str_with(contents, add_folder_labels, MissingLink::Abort, now)
}

/// Reads the text of a bookmark file into its bookmarks, as
/// [`parse_str_at`] does at the time that the clock of the machine shows
/// when the reading starts.
pub fn parse_str(contents: &str, add_folder_labels: bool) -> (r: Result<Vec<Bookmark>, ParseError>)
    ensures
        exists|now: i64|
            result_view(r) == parse_result(contents@, add_folder_labels, MissingLink::Abort, now),
{
    let now: i64 = current_timestamp();
    parse_str_at(contents, add_folder_labels, now)
}

} // verus!
