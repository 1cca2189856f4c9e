//! The elements of a bookmark file: the kinds of tag, the attributes of a
//! tag, and the tree of elements that a file is read into.

use vstd::prelude::*;
use vstd::std_specs::convert::FromSpecImpl;
use crate::chars::{slice_reads, to_chars};
use crate::text::{trim, trim_bounds};

verus! {

/// The kinds of tag that a bookmark file is made of. `NONE` stands for a
/// name that is none of them.
#[allow(clippy::upper_case_acronyms)]
#[derive(Copy, Clone, Debug, PartialEq, Eq, Structural)]
pub enum Tags {
    DOCTYPE,
    META,
    TITLE,
    H1,
    H3,
    DL,
    DT,
    DD,
    A,
    P,
    NONE,
}

/// The kind of tag that `name` names, letter for letter; `NONE` for any
/// other name.
pub open spec fn tag_of_name(name: Seq<char>) -> Tags {
    if name == "DOCTYPE"@ {
        Tags::DOCTYPE
    } else if name == "META"@ {
        Tags::META
    } else if name == "TITLE"@ {
        Tags::TITLE
    } else if name == "H1"@ {
        Tags::H1
    } else if name == "H3"@ {
        Tags::H3
    } else if name == "DL"@ {
        Tags::DL
    } else if name == "DT"@ {
        Tags::DT
    } else if name == "DD"@ {
        Tags::DD
    } else if name == "A"@ {
        Tags::A
    } else if name == "p"@ {
        Tags::P
    } else {
        Tags::NONE
    }
}

/// The kind of tag that `s[from..to]` names.
pub fn classify(s: &[char], from: usize, to: usize) -> (tag: Tags)
    requires
        from <= to <= s.len(),
    ensures
        tag == tag_of_name(s@.subrange(from as int, to as int)),
{
    if slice_reads(s, from, to, "DOCTYPE") {
        Tags::DOCTYPE
    } else if slice_reads(s, from, to, "META") {
        Tags::META
    } else if slice_reads(s, from, to, "TITLE") {
        Tags::TITLE
    } else if slice_reads(s, from, to, "H1") {
        Tags::H1
    } else if slice_reads(s, from, to, "H3") {
        Tags::H3
    } else if slice_reads(s, from, to, "DL") {
        Tags::DL
    } else if slice_reads(s, from, to, "DT") {
        Tags::DT
    } else if slice_reads(s, from, to, "DD") {
        Tags::DD
    } else if slice_reads(s, from, to, "A") {
        Tags::A
    } else if slice_reads(s, from, to, "p") {
        Tags::P
    } else {
        Tags::NONE
    }
}

impl Tags {
    /// A tag that holds text up to its closing tag.
    pub open spec fn holds_text(self) -> bool {
        self == Tags::TITLE || self == Tags::H1 || self == Tags::H3 || self == Tags::A
    }

    /// A tag whose text names the folder: a title or a heading.
    pub open spec fn is_header(self) -> bool {
        self == Tags::TITLE || self == Tags::H1 || self == Tags::H3
    }
}

impl From<&str> for Tags {
    /// The kind of tag that `tag` names once trimmed.
    fn from(tag: &str) -> (r: Tags) {
        let s = to_chars(tag);
        let (a, b) = trim_bounds(s.as_slice(), 0, s.len());
        proof {
            assert(s@.subrange(0, s.len() as int) =~= s@);
        }
        classify(s.as_slice(), a, b)
    }
}

impl FromSpecImpl<&str> for Tags {
    open spec fn obeys_from_spec() -> bool {
        true
    }

    open spec fn from_spec(tag: &str) -> Tags {
        tag_of_name(trim(tag@))
    }
}

impl Default for Tags {
    fn default() -> (r: Tags)
        ensures
            r == Tags::NONE,
    {
        Tags::NONE
    }
}

/// The map that a list of key and value pairs stands for: a later pair
/// replaces an earlier one of the same key.
pub open spec fn entries_map(entries: Seq<(String, String)>) -> Map<Seq<char>, Seq<char>>
    decreases entries.len(),
{
    if entries.len() == 0 {
        Map::empty()
    } else {
        entries_map(entries.drop_last()).insert(entries.last().0@, entries.last().1@)
    }
}

/// A key that no pair has is not in the map.
pub proof fn lemma_entries_absent(entries: Seq<(String, String)>, key: Seq<char>)
    requires
        forall|k: int| 0 <= k < entries.len() ==> (#[trigger] entries[k]).0@ != key,
    ensures
        !entries_map(entries).contains_key(key),
    decreases entries.len(),
{
    if entries.len() > 0 {
        lemma_entries_absent(entries.drop_last(), key);
    }
}

/// The map gives a key the value of the last pair that has it.
pub proof fn lemma_entries_found(entries: Seq<(String, String)>, j: int, key: Seq<char>)
    requires
        0 <= j < entries.len(),
        entries[j].0@ == key,
        forall|k: int| j < k < entries.len() ==> (#[trigger] entries[k]).0@ != key,
    ensures
        entries_map(entries).contains_key(key),
        entries_map(entries)[key] == entries[j].1@,
    decreases entries.len(),
{
    if j < entries.len() - 1 {
        lemma_entries_found(entries.drop_last(), j, key);
    }
}

/// The attributes of a tag: a map from key to value.
#[derive(Debug)]
pub struct Attributes {
    entries: Vec<(String, String)>,
}

impl View for Attributes {
    type V = Map<Seq<char>, Seq<char>>;

    closed spec fn view(&self) -> Map<Seq<char>, Seq<char>> {
        entries_map(self.entries@)
    }
}

impl Attributes {
    /// No attribute.
    pub fn new() -> (r: Attributes)
        ensures
            r@ == Map::<Seq<char>, Seq<char>>::empty(),
    {
        Attributes { entries: Vec::new() }
    }

    /// Sets the value of `key`, in place of the one it had, if any.
    pub fn insert(&mut self, key: String, value: String)
        ensures
            final(self)@ == old(self)@.insert(key@, value@),
    {
        proof {
            assert(self.entries@.push((key, value)).drop_last() =~= self.entries@);
        }
        self.entries.push((key, value));
    }

    /// The value of `key`, if it has one.
    pub fn get(&self, key: &str) -> (r: Option<&String>)
        ensures
            r is Some <==> self@.contains_key(key@),
            r matches Some(v) ==> v@ == self@[key@],
    {
        let wanted: String = key.to_owned();
        let mut i: usize = self.entries.len();
        while i > 0
            invariant
                i <= self.entries.len(),
                wanted@ == key@,
                forall|k: int|
                    i <= k < self.entries.len() ==> (#[trigger] self.entries@[k]).0@ != key@,
            decreases i,
        {
            if self.entries[i - 1].0 == wanted {
                proof {
                    lemma_entries_found(self.entries@, i - 1, key@);
                }
                return Some(&self.entries[i - 1].1);
            }
            i -= 1;
        }
        proof {
            lemma_entries_absent(self.entries@, key@);
        }
        None
    }

    /// Whether there is no attribute.
    pub fn is_empty(&self) -> (r: bool)
        ensures
            r == (self@ == Map::<Seq<char>, Seq<char>>::empty()),
    {
        proof {
            if self.entries.len() > 0 {
                assert(self@.contains_key(self.entries@.last().0@));
            }
        }
        self.entries.len() == 0
    }
}

/// What an element holds, as plain values.
pub struct ElementView {
    pub name: Tags,
    pub attributes: Option<Map<Seq<char>, Seq<char>>>,
    pub inner_text: Option<Seq<char>>,
    pub children: Option<Seq<ElementView>>,
    pub text: Option<Seq<char>>,
}

/// One element of a bookmark file.
#[derive(Debug)]
pub struct Element {
    /// The kind of its tag.
    pub name: Tags,
    /// The attributes of its tag; `None` where the tag has none.
    pub attributes: Option<Attributes>,
    /// The text between its tag and its closing tag, as written.
    pub inner_text: Option<String>,
    /// The elements inside it: `Some` for a folder list only.
    pub children: Option<Vec<Element>>,
    /// The text that follows it, up to the next tag, trimmed; `None` where
    /// nothing but white space follows.
    pub text: Option<String>,
}

/// What `e` holds, as plain values.
pub open spec fn element_view(e: Element) -> ElementView
    decreases e,
{
    ElementView {
        name: e.name,
        attributes: match e.attributes {
            Some(a) => Some(a@),
            None => None,
        },
        inner_text: match e.inner_text {
            Some(t) => Some(t@),
            None => None,
        },
        children: match e.children {
            Some(v) => Some(elements_view(v@)),
            None => None,
        },
        text: match e.text {
            Some(t) => Some(t@),
            None => None,
        },
    }
}

/// What each of `s` holds, in order.
pub open spec fn elements_view(s: Seq<Element>) -> Seq<ElementView>
    decreases s,
{
    if s.len() == 0 {
        Seq::empty()
    } else {
        elements_view(s.drop_last()).push(element_view(s.last()))
    }
}

/// Whether `key` holds no ASCII lower-case letter.
pub open spec fn is_upper_case(key: Seq<char>) -> bool {
    forall|i: int| 0 <= i < key.len() ==> !('a' <= #[trigger] key[i] <= 'z')
}

/// Whether `m` holds an attribute, and every key in it is in upper case.
pub open spec fn attributes_well_formed(m: Map<Seq<char>, Seq<char>>) -> bool {
    &&& m != Map::<Seq<char>, Seq<char>>::empty()
    &&& forall|key: Seq<char>| m.contains_key(key) ==> is_upper_case(key)
}

/// What holds of every element read from a file: it is of a kind; it holds
/// elements exactly where it is a folder list, and text exactly where its
/// kind holds text; its attributes are absent rather than empty, and their
/// keys are in upper case; the text that follows it is absent rather than
/// empty; and the same holds of the elements inside it.
pub open spec fn well_formed(e: ElementView) -> bool
    decreases e,
{
    &&& e.name != Tags::NONE
    &&& (e.children is Some <==> e.name == Tags::DL)
    &&& (e.inner_text is Some <==> e.name.holds_text())
    &&& (e.text matches Some(t) ==> t.len() > 0)
    &&& (e.attributes matches Some(m) ==> attributes_well_formed(m))
    &&& match e.children {
        None => true,
        Some(children) => forall|i: int|
            0 <= i < children.len() ==> well_formed(#[trigger] children[i]),
    }
}

/// Whether every one of `elements` is well formed.
pub open spec fn all_well_formed(elements: Seq<ElementView>) -> bool {
    forall|i: int| 0 <= i < elements.len() ==> well_formed(#[trigger] elements[i])
}

/// What a list of elements holds after one more is added to it.
pub proof fn lemma_elements_view_push(v: Seq<Element>, e: Element)
    ensures
        elements_view(v.push(e)) == elements_view(v).push(e@),
{
    assert(v.push(e).drop_last() =~= v);
}

/// What the `i`-th of a list of elements holds.
pub proof fn lemma_elements_view_index(s: Seq<Element>, i: int)
    requires
        0 <= i < s.len(),
    ensures
        elements_view(s).len() == s.len(),
        elements_view(s)[i] == s[i]@,
    decreases s.len(),
{
    lemma_elements_view_len(s.drop_last());
    if i < s.len() - 1 {
        lemma_elements_view_index(s.drop_last(), i);
    }
}

/// A list of elements holds as many as it has.
pub proof fn lemma_elements_view_len(s: Seq<Element>)
    ensures
        elements_view(s).len() == s.len(),
    decreases s.len(),
{
    if s.len() > 0 {
        lemma_elements_view_len(s.drop_last());
    }
}

impl View for Element {
    type V = ElementView;

    open spec fn view(&self) -> ElementView {
        element_view(*self)
    }
}

impl Default for Element {
    fn default() -> (r: Element)
        ensures
            r@ == (ElementView {
                name: Tags::NONE,
                attributes: None,
                inner_text: None,
                children: None,
                text: None,
            }),
    {
        Element { name: Tags::NONE, attributes: None, inner_text: None, children: None, text: None }
    }
}

} // verus!
