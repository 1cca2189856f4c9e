//! The grammar of a bookmark file, as functions on its characters.
//!
//! A file is free text and tags. A tag opens with `<`, names its kind, may
//! carry attributes, and closes with `>`. `DT`, `DD`, `p`, `META` and
//! `DOCTYPE` stand alone; `TITLE`, `H1`, `H3` and `A` hold text up to their
//! closing tag; `DL` holds elements up to its closing tag. `<!...>` is a
//! declaration and is passed over. The text that follows an element, up to
//! the next tag, belongs to that element.
//!
//! Every function here that reads something at a position gives either
//! what it read with the position after it, or the position of the
//! character it could not accept.

use vstd::prelude::*;
use crate::chars::{lemma_run_end, run_end, CharClass};
use crate::element::{
    all_well_formed, attributes_well_formed, is_upper_case, tag_of_name, well_formed,
    ElementView, Tags,
};
use crate::text::trim;

verus! {

/// The attributes of one tag: upper-case key to value.
pub type AttributeMap = Map<Seq<char>, Seq<char>>;

/// `c` with an ASCII lower-case letter made upper-case.
pub open spec fn upper(c: char) -> char {
    if 'a' <= c <= 'z' {
        ((c as u8) - 32) as char
    } else {
        c
    }
}

/// `s` with its ASCII lower-case letters made upper-case.
pub open spec fn upper_all(s: Seq<char>) -> Seq<char> {
    s.map_values(|c: char| upper(c))
}

/// The attributes written from `i` up to the `>` that ends the tag, added
/// to `acc`. Each is a key, `=`, and a value between double quotes, with
/// white space allowed around the key and the `=`. A key is held in upper
/// case, a value as written; of two values for one key the later stays.
pub open spec fn attributes_from(s: Seq<char>, i: int, acc: AttributeMap) -> Result<
    (AttributeMap, int),
    int,
>
    decreases s.len() - i,
{
    let key = run_end(s, i, CharClass::Space);
    let key_end = run_end(s, key, CharClass::Key);
    let equals = run_end(s, key_end, CharClass::Space);
    let quote = run_end(s, equals + 1, CharClass::Space);
    let value_end = run_end(s, quote + 1, CharClass::Value);
    if key >= s.len() {
        Err(key)
    } else if s[key] == '>' {
        Ok((acc, key + 1))
    } else if key_end == key {
        Err(key)
    } else if equals >= s.len() || s[equals] != '=' {
        Err(equals)
    } else if quote >= s.len() || s[quote] != '"' {
        Err(quote)
    } else if value_end >= s.len() {
        Err(quote)
    } else {
        proof {
            lemma_run_end(s, i, CharClass::Space);
            lemma_run_end(s, key, CharClass::Key);
            lemma_run_end(s, key_end, CharClass::Space);
            lemma_run_end(s, equals + 1, CharClass::Space);
            lemma_run_end(s, quote + 1, CharClass::Value);
        }
        attributes_from(
            s,
            value_end + 1,
            acc.insert(upper_all(s.subrange(key, key_end)), s.subrange(quote + 1, value_end)),
        )
    }
}

/// `m` where it holds an attribute, `None` where it holds none.
pub open spec fn some_attributes(m: AttributeMap) -> Option<AttributeMap> {
    if m == Map::<Seq<char>, Seq<char>>::empty() {
        None
    } else {
        Some(m)
    }
}

/// The opening tag at `i`: its kind, its attributes (`None` where it has
/// none), and the position after its `>`. A name that is no kind of tag is
/// refused at `i`.
pub open spec fn open_tag(s: Seq<char>, i: int) -> Result<(Tags, Option<AttributeMap>, int), int> {
    let name_end = run_end(s, i + 1, CharClass::Name);
    let tag = tag_of_name(s.subrange(i + 1, name_end));
    if tag == Tags::NONE {
        Err(i)
    } else {
        match attributes_from(s, name_end, Map::empty()) {
            Err(p) => Err(p),
            Ok((m, j)) => Ok((tag, some_attributes(m), j)),
        }
    }
}

/// Whether a closing tag starts at `i`.
pub open spec fn closing_at(s: Seq<char>, i: int) -> bool {
    0 <= i && i + 1 < s.len() && s[i] == '<' && s[i + 1] == '/'
}

/// Whether a declaration starts at `i`.
pub open spec fn declaration_at(s: Seq<char>, i: int) -> bool {
    0 <= i && i + 1 < s.len() && s[i] == '<' && s[i + 1] == '!'
}

/// The closing tag at `i`: its kind and the position after its `>`. White
/// space may stand between the name and the `>`.
pub open spec fn close_tag(s: Seq<char>, i: int) -> Result<(Tags, int), int> {
    let name_end = run_end(s, i + 2, CharClass::Name);
    let end = run_end(s, name_end, CharClass::Space);
    let tag = tag_of_name(s.subrange(i + 2, name_end));
    if tag == Tags::NONE || end >= s.len() || s[end] != '>' {
        Err(i)
    } else {
        Ok((tag, end + 1))
    }
}

/// The position after the closing tag of kind `tag` that has to stand at
/// `i`.
pub open spec fn expect_close(s: Seq<char>, i: int, tag: Tags) -> Result<int, int> {
    if !closing_at(s, i) {
        Err(i)
    } else {
        match close_tag(s, i) {
            Err(p) => Err(p),
            Ok((found, j)) => if found == tag {
                Ok(j)
            } else {
                Err(i)
            },
        }
    }
}

/// Where the free text that starts at `i` ends: at the next `<`, or at the
/// end of `s`.
pub open spec fn text_end(s: Seq<char>, i: int) -> int {
    run_end(s, i, CharClass::Text)
}

/// The free text that starts at `i`, trimmed; `None` where it is nothing
/// but white space.
pub open spec fn text_after(s: Seq<char>, i: int) -> Option<Seq<char>> {
    let t = trim(s.subrange(i, text_end(s, i)));
    if t.len() == 0 {
        None
    } else {
        Some(t)
    }
}

/// What one tag, with the text that belongs to it, reads as.
pub enum Item {
    /// An element that holds no other element, complete.
    Leaf(ElementView),
    /// The opening of a folder list, with its attributes.
    Open(Option<AttributeMap>),
    /// The closing of a folder list, with the text that follows it.
    Close(Option<Seq<char>>),
    /// A declaration: nothing.
    Skip,
}

/// The item that starts with the `<` at `i`, and the position of the next
/// `<` after it (or the end of `s`).
pub open spec fn item_at(s: Seq<char>, i: int) -> Result<(Item, int), int> {
    if closing_at(s, i) {
        match close_tag(s, i) {
            Err(p) => Err(p),
            Ok((tag, j)) => if tag == Tags::DL {
                Ok((Item::Close(text_after(s, j)), text_end(s, j)))
            } else {
                Err(i)
            },
        }
    } else if declaration_at(s, i) {
        let end = run_end(s, i, CharClass::Declaration);
        if end >= s.len() {
            Err(i)
        } else {
            Ok((Item::Skip, text_end(s, end + 1)))
        }
    } else {
        match open_tag(s, i) {
            Err(p) => Err(p),
            Ok((tag, attributes, j)) => if tag == Tags::DL {
                Ok((Item::Open(attributes), text_end(s, j)))
            } else if tag.holds_text() {
                match expect_close(s, text_end(s, j), tag) {
                    Err(p) => Err(p),
                    Ok(k) => Ok(
                        (
                            Item::Leaf(
                                ElementView {
                                    name: tag,
                                    attributes,
                                    inner_text: Some(s.subrange(j, text_end(s, j))),
                                    children: None,
                                    text: text_after(s, k),
                                },
                            ),
                            text_end(s, k),
                        ),
                    ),
                }
            } else {
                Ok(
                    (
                        Item::Leaf(
                            ElementView {
                                name: tag,
                                attributes,
                                inner_text: None,
                                children: None,
                                text: text_after(s, j),
                            },
                        ),
                        text_end(s, j),
                    ),
                )
            },
        }
    }
}

/// A folder list that is open: its attributes and the elements read into
/// it so far. The file itself is the outermost one.
pub struct FrameView {
    pub attributes: Option<AttributeMap>,
    pub children: Seq<ElementView>,
}

/// `stack` with `e` added to the innermost open list.
pub open spec fn with_child(stack: Seq<FrameView>, e: ElementView) -> Seq<FrameView> {
    stack.update(
        stack.len() - 1,
        FrameView { attributes: stack.last().attributes, children: stack.last().children.push(e) },
    )
}

/// The open lists after `item`, given those before it; `None` where `item`
/// closes a list and only the file itself is open.
pub open spec fn step(stack: Seq<FrameView>, item: Item) -> Option<Seq<FrameView>> {
    match item {
        Item::Skip => Some(stack),
        Item::Leaf(e) => Some(with_child(stack, e)),
        Item::Open(attributes) => Some(stack.push(FrameView { attributes, children: Seq::empty() })),
        Item::Close(text) => if stack.len() < 2 {
            None
        } else {
            Some(
                with_child(
                    stack.drop_last(),
                    ElementView {
                        name: Tags::DL,
                        attributes: stack.last().attributes,
                        inner_text: None,
                        children: Some(stack.last().children),
                        text,
                    },
                ),
            )
        },
    }
}

/// The elements of the file, given the lists that are open at `i` and the
/// items from `i` on. At the end of `s` every list but the file itself has
/// to be closed.
pub open spec fn assemble(s: Seq<char>, i: int, stack: Seq<FrameView>) -> Result<
    Seq<ElementView>,
    int,
>
    decreases s.len() - i,
{
    if i < 0 || i >= s.len() {
        if stack.len() == 1 {
            Ok(stack[0].children)
        } else {
            Err(i)
        }
    } else {
        match item_at(s, i) {
            Err(p) => Err(p),
            Ok((item, j)) => match step(stack, item) {
                None => Err(i),
                Some(next) => {
                    proof {
                        lemma_item_advances(s, i);
                    }
                    assemble(s, j, next)
                },
            },
        }
    }
}

/// The number of line breaks in `s` before position `p`.
pub open spec fn line_breaks_before(s: Seq<char>, p: int) -> int
    decreases p,
{
    if p <= 0 || p > s.len() {
        0
    } else {
        line_breaks_before(s, p - 1) + if s[p - 1] == '\n' {
            1int
        } else {
            0int
        }
    }
}

/// The elements of the file `s`, in order, or the position at which `s`
/// stops being a bookmark file. Text before the first tag is passed over.
pub open spec fn document(s: Seq<char>) -> Result<Seq<ElementView>, int> {
    assemble(s, text_end(s, 0), seq![FrameView { attributes: None, children: Seq::empty() }])
}

/// The attributes of a tag end after `i` and inside `s`; a refusal names
/// a position from `i` on.
pub proof fn lemma_attributes_advance(s: Seq<char>, i: int, acc: AttributeMap)
    requires
        0 <= i <= s.len(),
    ensures
        attributes_from(s, i, acc) matches Ok((_, j)) ==> i < j <= s.len(),
        attributes_from(s, i, acc) matches Err(p) ==> i <= p <= s.len(),
    decreases s.len() - i,
{
    let key = run_end(s, i, CharClass::Space);
    lemma_run_end(s, i, CharClass::Space);
    let key_end = run_end(s, key, CharClass::Key);
    lemma_run_end(s, key, CharClass::Key);
    let equals = run_end(s, key_end, CharClass::Space);
    lemma_run_end(s, key_end, CharClass::Space);
    if equals < s.len() {
        let quote = run_end(s, equals + 1, CharClass::Space);
        lemma_run_end(s, equals + 1, CharClass::Space);
        if quote < s.len() {
            let value_end = run_end(s, quote + 1, CharClass::Value);
            lemma_run_end(s, quote + 1, CharClass::Value);
            if value_end < s.len() {
                lemma_attributes_advance(
                    s,
                    value_end + 1,
                    acc.insert(
                        upper_all(s.subrange(key, key_end)),
                        s.subrange(quote + 1, value_end),
                    ),
                );
            }
        }
    }
}

/// An opening tag ends after `i` and inside `s`; a refusal names a
/// position from `i` on.
pub proof fn lemma_open_tag_advances(s: Seq<char>, i: int)
    requires
        0 <= i < s.len(),
    ensures
        open_tag(s, i) matches Ok((_, _, j)) ==> i < j <= s.len(),
        open_tag(s, i) matches Err(p) ==> i <= p <= s.len(),
{
    lemma_run_end(s, i + 1, CharClass::Name);
    lemma_attributes_advance(s, run_end(s, i + 1, CharClass::Name), Map::empty());
}

/// A closing tag ends after `i` and inside `s`; a refusal names `i`.
pub proof fn lemma_close_tag_advances(s: Seq<char>, i: int)
    requires
        closing_at(s, i),
    ensures
        close_tag(s, i) matches Ok((_, j)) ==> i < j <= s.len(),
        close_tag(s, i) matches Err(p) ==> p == i,
{
    lemma_run_end(s, i + 2, CharClass::Name);
    lemma_run_end(s, run_end(s, i + 2, CharClass::Name), CharClass::Space);
}

/// An item takes up at least one character and ends inside `s`; a refusal
/// names a position from `i` on, inside `s` or at its end.
pub proof fn lemma_item_advances(s: Seq<char>, i: int)
    requires
        0 <= i < s.len(),
    ensures
        item_at(s, i) matches Ok((_, j)) ==> i < j <= s.len(),
        item_at(s, i) matches Err(p) ==> i <= p <= s.len(),
{
    if closing_at(s, i) {
        lemma_close_tag_advances(s, i);
        if let Ok((_, j)) = close_tag(s, i) {
            lemma_run_end(s, j, CharClass::Text);
        }
    } else if declaration_at(s, i) {
        lemma_run_end(s, i, CharClass::Declaration);
        let end = run_end(s, i, CharClass::Declaration);
        if end < s.len() {
            lemma_run_end(s, end + 1, CharClass::Text);
        }
    } else {
        lemma_open_tag_advances(s, i);
        if let Ok((tag, _, j)) = open_tag(s, i) {
            lemma_run_end(s, j, CharClass::Text);
            let t = text_end(s, j);
            if closing_at(s, t) {
                lemma_close_tag_advances(s, t);
                if let Ok((_, k)) = close_tag(s, t) {
                    lemma_run_end(s, k, CharClass::Text);
                }
            }
        }
    }
}

/// Whether what was read into an open list so far is well formed.
pub open spec fn frame_well_formed(frame: FrameView) -> bool {
    &&& all_well_formed(frame.children)
    &&& (frame.attributes matches Some(m) ==> attributes_well_formed(m))
}

proof fn lemma_attributes_upper(s: Seq<char>, i: int, acc: AttributeMap)
    requires
        0 <= i <= s.len(),
        forall|key: Seq<char>| acc.contains_key(key) ==> is_upper_case(key),
    ensures
        attributes_from(s, i, acc) matches Ok((m, _)) ==> forall|key: Seq<char>|
            m.contains_key(key) ==> is_upper_case(key),
    decreases s.len() - i,
{
    let key = run_end(s, i, CharClass::Space);
    let key_end = run_end(s, key, CharClass::Key);
    let equals = run_end(s, key_end, CharClass::Space);
    let quote = run_end(s, equals + 1, CharClass::Space);
    let value_end = run_end(s, quote + 1, CharClass::Value);
    lemma_run_end(s, i, CharClass::Space);
    lemma_run_end(s, key, CharClass::Key);
    lemma_run_end(s, key_end, CharClass::Space);
    if key < s.len() && s[key] != '>' && key_end != key && equals < s.len() && s[equals] == '='
        {
        lemma_run_end(s, equals + 1, CharClass::Space);
        if quote < s.len() && s[quote] == '"' {
            lemma_run_end(s, quote + 1, CharClass::Value);
            if value_end < s.len() {
                let name = upper_all(s.subrange(key, key_end));
                assert(is_upper_case(name));
                lemma_attributes_upper(
                    s,
                    value_end + 1,
                    acc.insert(name, s.subrange(quote + 1, value_end)),
                );
            }
        }
    }
}

proof fn lemma_open_tag_attributes(s: Seq<char>, i: int)
    requires
        0 <= i < s.len(),
    ensures
        open_tag(s, i) matches Ok((_, Some(m), _)) ==> attributes_well_formed(m),
{
    lemma_run_end(s, i + 1, CharClass::Name);
    lemma_attributes_upper(s, run_end(s, i + 1, CharClass::Name), Map::empty());
}

/// Whether every open list is well formed so far.
pub open spec fn frames_well_formed(stack: Seq<FrameView>) -> bool {
    forall|k: int| 0 <= k < stack.len() ==> frame_well_formed(#[trigger] stack[k])
}

proof fn lemma_with_child_well_formed(stack: Seq<FrameView>, e: ElementView)
    requires
        stack.len() >= 1,
        frames_well_formed(stack),
        well_formed(e),
    ensures
        frames_well_formed(with_child(stack, e)),
{
    let next = with_child(stack, e);
    assert forall|k: int| 0 <= k < next.len() implies frame_well_formed(#[trigger] next[k]) by {
        assert(frame_well_formed(stack[k]));
        if k == stack.len() - 1 {
            let kids = stack[k].children;
            assert forall|i: int| 0 <= i < next[k].children.len() implies well_formed(
                #[trigger] next[k].children[i],
            ) by {
                if i < kids.len() {
                    assert(next[k].children[i] == kids[i]);
                }
            }
        } else {
            assert(next[k] == stack[k]);
        }
    }
}

proof fn lemma_step_well_formed(s: Seq<char>, i: int, stack: Seq<FrameView>)
    requires
        0 <= i < s.len(),
        stack.len() >= 1,
        frames_well_formed(stack),
        item_at(s, i) is Ok,
        step(stack, item_at(s, i)->Ok_0.0) is Some,
    ensures
        step(stack, item_at(s, i)->Ok_0.0)->Some_0.len() >= 1,
        frames_well_formed(step(stack, item_at(s, i)->Ok_0.0)->Some_0),
{
    let item = item_at(s, i)->Ok_0.0;
    match item {
        Item::Skip => {},
        Item::Leaf(e) => {
            lemma_open_tag_attributes(s, i);
            assert(open_tag(s, i) is Ok);
            assert(e.name != Tags::NONE);
            assert(e.children is None);
            assert(e.name != Tags::DL);
            assert(well_formed(e));
            lemma_with_child_well_formed(stack, e);
        },
        Item::Open(attributes) => {
            let next = step(stack, item)->Some_0;
            lemma_open_tag_attributes(s, i);
            assert(open_tag(s, i) is Ok);
            assert forall|k: int| 0 <= k < next.len() implies frame_well_formed(
                #[trigger] next[k],
            ) by {
                if k < stack.len() {
                    assert(next[k] == stack[k]);
                }
            }
        },
        Item::Close(text) => {
            let e = ElementView {
                name: Tags::DL,
                attributes: stack.last().attributes,
                inner_text: None,
                children: Some(stack.last().children),
                text,
            };
            assert(frame_well_formed(stack[stack.len() - 1]));
            assert(close_tag(s, i) is Ok);
            assert(text == text_after(s, close_tag(s, i)->Ok_0.1));
            assert(well_formed(e));
            let rest = stack.drop_last();
            assert forall|k: int| 0 <= k < rest.len() implies frame_well_formed(
                #[trigger] rest[k],
            ) by {
                assert(rest[k] == stack[k]);
            }
            lemma_with_child_well_formed(rest, e);
        },
    }
}

proof fn lemma_assemble_well_formed(s: Seq<char>, i: int, stack: Seq<FrameView>)
    requires
        stack.len() >= 1,
        frames_well_formed(stack),
        assemble(s, i, stack) is Ok,
    ensures
        all_well_formed(assemble(s, i, stack)->Ok_0),
    decreases s.len() - i,
{
    if 0 <= i < s.len() {
        lemma_item_advances(s, i);
        lemma_step_well_formed(s, i, stack);
        let (item, j) = item_at(s, i)->Ok_0;
        lemma_assemble_well_formed(s, j, step(stack, item)->Some_0);
    }
}

/// Every element that a file reads as is well formed.
pub proof fn lemma_document_well_formed(s: Seq<char>)
    requires
        document(s) is Ok,
    ensures
        all_well_formed(document(s)->Ok_0),
{
    let root = seq![FrameView { attributes: None, children: Seq::empty() }];
    assert(frames_well_formed(root));
    lemma_assemble_well_formed(s, text_end(s, 0), root);
}

proof fn lemma_assemble_failure(s: Seq<char>, i: int, stack: Seq<FrameView>)
    requires
        0 <= i <= s.len(),
    ensures
        assemble(s, i, stack) matches Err(p) ==> i <= p <= s.len(),
    decreases s.len() - i,
{
    if i < s.len() {
        lemma_item_advances(s, i);
        if let Ok((item, j)) = item_at(s, i) {
            if let Some(next) = step(stack, item) {
                lemma_assemble_failure(s, j, next);
            }
        }
    }
}

/// The position at which a text stops being a bookmark file lies inside
/// the text or at its end.
pub proof fn lemma_failure_position(s: Seq<char>)
    ensures
        document(s) matches Err(p) ==> 0 <= p <= s.len(),
{
    lemma_run_end(s, 0, CharClass::Text);
    lemma_assemble_failure(
        s,
        text_end(s, 0),
        seq![FrameView { attributes: None, children: Seq::empty() }],
    );
}

} // verus!
