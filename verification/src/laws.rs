//! What holds of every bookmark file and of every tree of elements.

use vstd::prelude::*;
use crate::bookmark::{Bookmark, BookmarkView};
use crate::chars::{is_space, lemma_run_end, run_end, CharClass};
use crate::db::without;
use crate::element::{ElementView, Tags};
use crate::error::ParseError;
use crate::grammar::document;
use crate::hierarchy::{
    explicit_tags, label_of, normalize, parse_result, record_of, record_tags, records,
    records_from, MissingLink,
};
use crate::netscape_parser::result_view;
use crate::number::integer_of;
use crate::text::{squeeze, trim, trim_end, trim_start, unique_nonempty};

verus! {

/// Whether the anchor `e` names where it points to.
pub open spec fn has_link(e: ElementView) -> bool {
    e.attributes matches Some(attributes) && attributes.contains_key("HREF"@)
}

/// The anchors that are read among the elements of `elements` from the
/// `i`-th on and inside the folder lists among them, in the order of the
/// file: under `MissingLink::Abort` every anchor, under
/// `MissingLink::Skip` those that have an `HREF`.
pub open spec fn anchors_from(elements: Seq<ElementView>, i: int, missing_link: MissingLink) -> Seq<
    ElementView,
>
    decreases elements, elements.len() - i,
{
    if i < 0 || i >= elements.len() {
        Seq::empty()
    } else {
        let e = elements[i];
        let first = if e.name == Tags::DL {
            match e.children {
                None => Seq::empty(),
                Some(children) => anchors_from(children, 0, missing_link),
            }
        } else if e.name == Tags::A && (missing_link == MissingLink::Abort || has_link(e)) {
            seq![e]
        } else {
            Seq::empty()
        };
        first + anchors_from(elements, i + 1, missing_link)
    }
}

/// The anchors among `elements` and inside the folder lists among them, in
/// the order of the file.
pub open spec fn anchors(elements: Seq<ElementView>) -> Seq<ElementView> {
    anchors_from(elements, 0, MissingLink::Abort)
}

/// Those of the anchors among `elements`, and inside the folder lists
/// among them, that have an `HREF`, in the order of the file.
pub open spec fn linked_anchors(elements: Seq<ElementView>) -> Seq<ElementView> {
    anchors_from(elements, 0, MissingLink::Skip)
}

/// The number of anchors that are read before the `i`-th of `elements`,
/// those inside folder lists counted too.
pub open spec fn anchors_before(elements: Seq<ElementView>, i: int, missing_link: MissingLink)
    -> int {
    anchors_from(elements, 0, missing_link).len() - anchors_from(elements, i, missing_link).len()
}

/// The folder names in force at the `i`-th of `elements`, given those in
/// force at the first: these, and after them the names that the titles
/// and headings among the elements before the `i`-th give. What stands
/// inside a folder list among them adds nothing.
pub open spec fn in_force(elements: Seq<ElementView>, i: int, labels: Seq<Seq<char>>) -> Seq<
    Seq<char>,
>
    decreases i,
{
    if i <= 0 || i > elements.len() {
        labels
    } else if elements[i - 1].name.is_header() {
        in_force(elements, i - 1, labels).push(label_of(elements[i - 1]))
    } else {
        in_force(elements, i - 1, labels)
    }
}

/// Whether `r` is the bookmark of the anchor `e`, whatever its tags.
pub open spec fn is_record_of(r: BookmarkView, e: ElementView, now: i64) -> bool {
    record_of(e, Seq::empty(), false, now) matches Some(c) && r.id == c.id && r.link == c.link
        && r.added_at == c.added_at && r.last_modified == c.last_modified && r.metadata
        == c.metadata
}

proof fn lemma_records_anchors(
    elements: Seq<ElementView>,
    i: int,
    labels: Seq<Seq<char>>,
    add_folder_labels: bool,
    missing_link: MissingLink,
    now: i64,
)
    ensures
        records_from(elements, i, labels, add_folder_labels, missing_link, now) matches Ok(rs)
            ==> {
            &&& rs.len() == anchors_from(elements, i, missing_link).len()
            &&& forall|k: int|
                0 <= k < rs.len() ==> has_link(
                    #[trigger] anchors_from(elements, i, missing_link)[k],
                ) && is_record_of(rs[k], anchors_from(elements, i, missing_link)[k], now)
        },
        records_from(elements, i, labels, add_folder_labels, missing_link, now) matches Err(e)
            ==> {
            &&& missing_link == MissingLink::Abort
            &&& e == ParseError::MissingRequiredAttribute
            &&& exists|k: int|
                0 <= k < anchors_from(elements, i, missing_link).len() && !has_link(
                    #[trigger] anchors_from(elements, i, missing_link)[k],
                )
        },
    decreases elements, elements.len() - i,
{
    if 0 <= i < elements.len() {
        let e = elements[i];
        let all = anchors_from(elements, i, missing_link);
        let tail = anchors_from(elements, i + 1, missing_link);
        if e.name.is_header() {
            lemma_records_anchors(
                elements,
                i + 1,
                labels.push(label_of(e)),
                add_folder_labels,
                missing_link,
                now,
            );
            assert(all =~= tail);
        } else {
            lemma_records_anchors(elements, i + 1, labels, add_folder_labels, missing_link, now);
            let rest = records_from(
                elements,
                i + 1,
                labels,
                add_folder_labels,
                missing_link,
                now,
            );
            if e.name == Tags::DL && e.children is Some {
                let children = e.children->Some_0;
                lemma_records_anchors(children, 0, labels, add_folder_labels, missing_link, now);
                let inner = anchors_from(children, 0, missing_link);
                assert(all == inner + tail);
                match records_from(children, 0, labels, add_folder_labels, missing_link, now) {
                    Err(_) => {
                        let k = choose|k: int| 0 <= k < inner.len() && !has_link(#[trigger] inner[k]);
                        assert(all[k] == inner[k]);
                    },
                    Ok(a) => {
                        lemma_joined(all, inner, tail, a, rest, now);
                    },
                }
            } else if e.name == Tags::A && (missing_link == MissingLink::Abort || has_link(e)) {
                let inner = seq![e];
                assert(all == inner + tail);
                match record_of(e, labels, add_folder_labels, now) {
                    None => {
                        assert(all[0] == e);
                    },
                    Some(r) => {
                        let a = seq![r];
                        assert(has_link(inner[0]) && is_record_of(a[0], inner[0], now));
                        lemma_joined(all, inner, tail, a, rest, now);
                    },
                }
            } else {
                assert(all =~= tail);
                if let Ok(b) = rest {
                    assert(Seq::<BookmarkView>::empty() + b =~= b);
                }
            }
        }
    }
}

proof fn lemma_joined(
    all: Seq<ElementView>,
    inner: Seq<ElementView>,
    tail: Seq<ElementView>,
    a: Seq<BookmarkView>,
    rest: Result<Seq<BookmarkView>, ParseError>,
    now: i64,
)
    requires
        all == inner + tail,
        a.len() == inner.len(),
        forall|k: int|
            0 <= k < a.len() ==> has_link(#[trigger] inner[k]) && is_record_of(
                a[k],
                inner[k],
                now,
            ),
        rest matches Ok(b) ==> {
            &&& b.len() == tail.len()
            &&& forall|k: int|
                0 <= k < b.len() ==> has_link(#[trigger] tail[k]) && is_record_of(
                    b[k],
                    tail[k],
                    now,
                )
        },
        rest is Err ==> exists|k: int| 0 <= k < tail.len() && !has_link(#[trigger] tail[k]),
    ensures
        rest matches Ok(b) ==> {
            &&& (a + b).len() == all.len()
            &&& forall|k: int|
                0 <= k < all.len() ==> has_link(#[trigger] all[k]) && is_record_of(
                    (a + b)[k],
                    all[k],
                    now,
                )
        },
        rest is Err ==> exists|k: int| 0 <= k < all.len() && !has_link(#[trigger] all[k]),
{
    match rest {
        Ok(b) => {
            assert forall|k: int| 0 <= k < all.len() implies has_link(#[trigger] all[k])
                && is_record_of((a + b)[k], all[k], now) by {
                if k < inner.len() {
                    assert(all[k] == inner[k]);
                } else {
                    assert(all[k] == tail[k - inner.len()]);
                    assert((a + b)[k] == b[k - a.len()]);
                }
            }
        },
        Err(_) => {
            let k = choose|k: int| 0 <= k < tail.len() && !has_link(#[trigger] tail[k]);
            assert(all[inner.len() + k] == tail[k]);
        },
    }
}

/// One bookmark for each anchor, in the order of the file: where the
/// elements give bookmarks and no anchor is passed over, there are as many
/// bookmarks as there are anchors, at any depth, and the `k`-th is that of
/// the `k`-th anchor.
pub proof fn lemma_one_record_for_each_anchor(
    elements: Seq<ElementView>,
    labels: Seq<Seq<char>>,
    add_folder_labels: bool,
    now: i64,
)
    requires
        records(elements, labels, add_folder_labels, MissingLink::Abort, now) is Ok,
    ensures
        records(elements, labels, add_folder_labels, MissingLink::Abort, now)->Ok_0.len()
            == anchors(elements).len(),
        forall|k: int|
            0 <= k < anchors(elements).len() ==> is_record_of(
                records(elements, labels, add_folder_labels, MissingLink::Abort, now)->Ok_0[k],
                #[trigger] anchors(elements)[k],
                now,
            ),
{
    lemma_records_anchors(elements, 0, labels, add_folder_labels, MissingLink::Abort, now);
}

/// Under `MissingLink::Abort` the elements give bookmarks exactly where
/// every anchor among them, at any depth, has an `HREF`; where one has
/// none, the failure is `MissingRequiredAttribute`, and there is no
/// bookmark.
pub proof fn lemma_missing_link_fails(
    elements: Seq<ElementView>,
    labels: Seq<Seq<char>>,
    add_folder_labels: bool,
    now: i64,
)
    ensures
        records(elements, labels, add_folder_labels, MissingLink::Abort, now) is Ok <==> forall|
            k: int,
        |
            0 <= k < anchors(elements).len() ==> has_link(#[trigger] anchors(elements)[k]),
        records(elements, labels, add_folder_labels, MissingLink::Abort, now) is Err ==> records(
            elements,
            labels,
            add_folder_labels,
            MissingLink::Abort,
            now,
        ) == Err::<Seq<BookmarkView>, ParseError>(ParseError::MissingRequiredAttribute),
{
    lemma_records_anchors(elements, 0, labels, add_folder_labels, MissingLink::Abort, now);
    let all = anchors(elements);
    match records(elements, labels, add_folder_labels, MissingLink::Abort, now) {
        Ok(rs) => {
            assert forall|k: int| 0 <= k < all.len() implies has_link(#[trigger] all[k]) by {
                assert(has_link(anchors_from(elements, 0, MissingLink::Abort)[k]));
            }
        },
        Err(_) => {
            let k = choose|k: int|
                0 <= k < anchors_from(elements, 0, MissingLink::Abort).len() && !has_link(
                    #[trigger] anchors_from(elements, 0, MissingLink::Abort)[k],
                );
            assert(!has_link(all[k]));
        },
    }
}

/// Under `MissingLink::Skip` the elements always give bookmarks: one for
/// each anchor that has an `HREF`, in the order of the file.
pub proof fn lemma_skipping_gives_the_linked(
    elements: Seq<ElementView>,
    labels: Seq<Seq<char>>,
    add_folder_labels: bool,
    now: i64,
)
    ensures
        records(elements, labels, add_folder_labels, MissingLink::Skip, now) is Ok,
        records(elements, labels, add_folder_labels, MissingLink::Skip, now)->Ok_0.len()
            == linked_anchors(elements).len(),
        forall|k: int|
            0 <= k < linked_anchors(elements).len() ==> has_link(
                #[trigger] linked_anchors(elements)[k],
            ) && is_record_of(
                records(elements, labels, add_folder_labels, MissingLink::Skip, now)->Ok_0[k],
                linked_anchors(elements)[k],
                now,
            ),
{
    lemma_records_anchors(elements, 0, labels, add_folder_labels, MissingLink::Skip, now);
}

/// Where no anchor lacks its `HREF`, it makes no difference what is to be
/// done about one that does.
pub proof fn lemma_policies_agree(
    elements: Seq<ElementView>,
    i: int,
    labels: Seq<Seq<char>>,
    add_folder_labels: bool,
    now: i64,
)
    requires
        records_from(elements, i, labels, add_folder_labels, MissingLink::Abort, now) is Ok,
    ensures
        records_from(elements, i, labels, add_folder_labels, MissingLink::Skip, now)
            == records_from(elements, i, labels, add_folder_labels, MissingLink::Abort, now),
    decreases elements, elements.len() - i,
{
    if 0 <= i < elements.len() {
        let e = elements[i];
        if e.name.is_header() {
            lemma_policies_agree(
                elements,
                i + 1,
                labels.push(label_of(e)),
                add_folder_labels,
                now,
            );
        } else {
            if e.name == Tags::DL && e.children is Some {
                lemma_policies_agree(e.children->Some_0, 0, labels, add_folder_labels, now);
            }
            lemma_policies_agree(elements, i + 1, labels, add_folder_labels, now);
        }
    }
}

/// A file that reads as elements gives one bookmark for each of its
/// anchors, in their order; a file gives bookmarks or a failure, never
/// both.
pub proof fn lemma_file_records(s: Seq<char>, add_folder_labels: bool, now: i64)
    requires
        parse_result(s, add_folder_labels, MissingLink::Abort, now) is Ok,
    ensures
        document(s) is Ok,
        parse_result(s, add_folder_labels, MissingLink::Abort, now)->Ok_0.len() == anchors(
            document(s)->Ok_0,
        ).len(),
        forall|k: int|
            0 <= k < anchors(document(s)->Ok_0).len() ==> is_record_of(
                parse_result(s, add_folder_labels, MissingLink::Abort, now)->Ok_0[k],
                #[trigger] anchors(document(s)->Ok_0)[k],
                now,
            ),
{
    lemma_one_record_for_each_anchor(document(s)->Ok_0, Seq::empty(), add_folder_labels, now);
}

/// Reading the same text twice, at the same time, gives the same: what is
/// read is a function of the text, of the two choices, and of the time.
pub proof fn lemma_reading_is_repeatable(
    first: Result<Vec<Bookmark>, ParseError>,
    second: Result<Vec<Bookmark>, ParseError>,
    s: Seq<char>,
    add_folder_labels: bool,
    missing_link: MissingLink,
    now: i64,
)
    requires
        result_view(first) == parse_result(s, add_folder_labels, missing_link, now),
        result_view(second) == parse_result(s, add_folder_labels, missing_link, now),
    ensures
        result_view(first) == result_view(second),
        first is Err ==> first == second,
{
}

proof fn lemma_records_after(
    elements: Seq<ElementView>,
    labels: Seq<Seq<char>>,
    add_folder_labels: bool,
    missing_link: MissingLink,
    now: i64,
    i: int,
)
    requires
        records(elements, labels, add_folder_labels, missing_link, now) is Ok,
        0 <= i <= elements.len(),
    ensures
        0 <= anchors_before(elements, i, missing_link) <= records(
            elements,
            labels,
            add_folder_labels,
            missing_link,
            now,
        )->Ok_0.len(),
        records_from(
            elements,
            i,
            in_force(elements, i, labels),
            add_folder_labels,
            missing_link,
            now,
        ) == Ok::<Seq<BookmarkView>, ParseError>(
            records(elements, labels, add_folder_labels, missing_link, now)->Ok_0.subrange(
                anchors_before(elements, i, missing_link),
                records(elements, labels, add_folder_labels, missing_link, now)->Ok_0.len() as int,
            ),
        ),
    decreases i,
{
    let rs = records(elements, labels, add_folder_labels, missing_link, now)->Ok_0;
    lemma_records_anchors(elements, 0, labels, add_folder_labels, missing_link, now);
    if i == 0 {
        assert(rs.subrange(0, rs.len() as int) =~= rs);
    } else {
        lemma_records_after(elements, labels, add_folder_labels, missing_link, now, i - 1);
        let e = elements[i - 1];
        let before = in_force(elements, i - 1, labels);
        let at = anchors_before(elements, i - 1, missing_link);
        let tail = anchors_from(elements, i, missing_link);
        if e.name.is_header() {
            assert(anchors_from(elements, i - 1, missing_link) =~= tail);
        } else {
            lemma_records_anchors(elements, i, before, add_folder_labels, missing_link, now);
            let b = records_from(elements, i, before, add_folder_labels, missing_link, now)->Ok_0;
            if e.name == Tags::DL && e.children is Some {
                let children = e.children->Some_0;
                lemma_records_anchors(children, 0, before, add_folder_labels, missing_link, now);
                let a = records_from(
                    children,
                    0,
                    before,
                    add_folder_labels,
                    missing_link,
                    now,
                )->Ok_0;
                assert(anchors_from(elements, i - 1, missing_link) == anchors_from(
                    children,
                    0,
                    missing_link,
                ) + tail);
                assert(a + b == rs.subrange(at, rs.len() as int));
                assert(b =~= rs.subrange(at + a.len(), rs.len() as int)) by {
                    assert forall|k: int| 0 <= k < b.len() implies b[k] == rs[at + a.len() + k] by {
                        assert((a + b)[a.len() + k] == b[k]);
                    }
                }
            } else if e.name == Tags::A && record_of(e, before, add_folder_labels, now) is Some {
                let a = seq![record_of(e, before, add_folder_labels, now)->Some_0];
                assert(has_link(e));
                assert(anchors_from(elements, i - 1, missing_link) == seq![e] + tail);
                assert(a + b == rs.subrange(at, rs.len() as int));
                assert(b =~= rs.subrange(at + 1, rs.len() as int)) by {
                    assert forall|k: int| 0 <= k < b.len() implies b[k] == rs[at + 1 + k] by {
                        assert((a + b)[1 + k] == b[k]);
                    }
                }
            } else {
                assert(anchors_from(elements, i - 1, missing_link) =~= tail);
                assert(Seq::<BookmarkView>::empty() + b =~= b);
            }
        }
    }
}

/// Which folder names an element lies under. Where `elements` give the
/// bookmarks `rs`, with `labels` in force at the first of them:
///
/// - the bookmark of an anchor among `elements` is made with the names in
///   force at that anchor, and stands in `rs` after those of all anchors
///   read before it;
/// - the bookmarks of a folder list among `elements` are those that its
///   elements give with the names in force where the list stands.
///
/// The names in force at an element are `labels` and what the titles and
/// headings before it in its own list give: a name given inside a folder
/// list is in force nowhere outside that list.
pub proof fn lemma_folder_names_in_force(
    elements: Seq<ElementView>,
    labels: Seq<Seq<char>>,
    add_folder_labels: bool,
    missing_link: MissingLink,
    now: i64,
    i: int,
)
    requires
        records(elements, labels, add_folder_labels, missing_link, now) is Ok,
        0 <= i < elements.len(),
    ensures
        ({
            let rs = records(elements, labels, add_folder_labels, missing_link, now)->Ok_0;
            let at = anchors_before(elements, i, missing_link);
            let names = in_force(elements, i, labels);
            &&& 0 <= at <= rs.len()
            &&& elements[i].name == Tags::A && missing_link == MissingLink::Abort ==> has_link(
                elements[i],
            )
            &&& elements[i].name == Tags::A && has_link(elements[i]) ==> at < rs.len()
                && record_of(elements[i], names, add_folder_labels, now) == Some(rs[at])
            &&& elements[i].name == Tags::DL ==> (elements[i].children matches Some(children)
                ==> at + anchors_from(children, 0, missing_link).len() <= rs.len() && records(
                children,
                names,
                add_folder_labels,
                missing_link,
                now,
            ) == Ok::<Seq<BookmarkView>, ParseError>(
                rs.subrange(at, at + anchors_from(children, 0, missing_link).len()),
            ))
        }),
{
    let rs = records(elements, labels, add_folder_labels, missing_link, now)->Ok_0;
    let at = anchors_before(elements, i, missing_link);
    let names = in_force(elements, i, labels);
    let e = elements[i];
    lemma_records_after(elements, labels, add_folder_labels, missing_link, now, i);
    let here = rs.subrange(at, rs.len() as int);
    assert(records_from(elements, i, names, add_folder_labels, missing_link, now) == Ok::<
        Seq<BookmarkView>,
        ParseError,
    >(here));
    if e.name == Tags::A {
        if has_link(e) {
            let r = record_of(e, names, add_folder_labels, now)->Some_0;
            let b = records_from(elements, i + 1, names, add_folder_labels, missing_link, now)->Ok_0;
            assert(here == seq![r] + b);
            assert(here[0] == r);
        }
    } else if e.name == Tags::DL && e.children is Some {
        let children = e.children->Some_0;
        lemma_records_anchors(children, 0, names, add_folder_labels, missing_link, now);
        let a = records_from(children, 0, names, add_folder_labels, missing_link, now)->Ok_0;
        let b = records_from(elements, i + 1, names, add_folder_labels, missing_link, now)->Ok_0;
        assert(here == a + b);
        assert(here.len() == a.len() + b.len());
        assert(a =~= rs.subrange(at, at + a.len())) by {
            assert forall|k: int| 0 <= k < a.len() implies a[k] == rs[at + k] by {
                assert(here[k] == a[k]);
            }
        }
    }
}

/// A list made unique holds no member twice, and holds exactly the
/// members of the list that are not empty.
pub proof fn lemma_unique_nonempty(items: Seq<Seq<char>>)
    ensures
        unique_nonempty(items).no_duplicates(),
        forall|t: Seq<char>| #[trigger]
            unique_nonempty(items).contains(t) <==> items.contains(t) && t.len() > 0,
    decreases items.len(),
{
    let all = unique_nonempty(items);
    if items.len() > 0 {
        let head = unique_nonempty(items.drop_last());
        let last = items.last();
        lemma_unique_nonempty(items.drop_last());
        assert forall|t: Seq<char>| #[trigger] all.contains(t) <==> items.contains(t) && t.len()
            > 0 by {
            if all.contains(t) {
                let k = choose|k: int| 0 <= k < all.len() && all[k] == t;
                if k < head.len() {
                    assert(head[k] == t);
                    assert(head.contains(t));
                    let j = choose|j: int| 0 <= j < items.drop_last().len() && items.drop_last()[j] == t;
                    assert(items[j] == t);
                } else {
                    assert(t == last);
                    assert(items[items.len() - 1] == t);
                }
            }
            if items.contains(t) && t.len() > 0 {
                let j = choose|j: int| 0 <= j < items.len() && items[j] == t;
                if j < items.len() - 1 {
                    assert(items.drop_last()[j] == t);
                    assert(head.contains(t));
                    let k = choose|k: int| 0 <= k < head.len() && head[k] == t;
                    assert(all[k] == t);
                } else if head.contains(t) {
                    let k = choose|k: int| 0 <= k < head.len() && head[k] == t;
                    assert(all[k] == t);
                } else {
                    assert(all[all.len() - 1] == t);
                }
            }
        }
    }
}

/// The tags of a bookmark are the union of those that its anchor names
/// and, where folder names are asked for, of the folder names in force:
/// every one of these that is not empty is a tag, nothing else is, and no
/// tag stands twice.
pub proof fn lemma_tags_are_the_union(
    e: ElementView,
    labels: Seq<Seq<char>>,
    add_folder_labels: bool,
    now: i64,
)
    requires
        record_of(e, labels, add_folder_labels, now) is Some,
    ensures
        ({
            let tags = record_of(e, labels, add_folder_labels, now)->Some_0.tags;
            let named = explicit_tags(e.attributes->Some_0);
            &&& tags.no_duplicates()
            &&& forall|t: Seq<char>| #[trigger]
                tags.contains(t) <==> t.len() > 0 && (named.contains(t) || (add_folder_labels
                    && labels.contains(t)))
        }),
{
    let named = explicit_tags(e.attributes->Some_0);
    let extra = if add_folder_labels {
        labels
    } else {
        Seq::empty()
    };
    let tags = record_tags(e.attributes->Some_0, labels, add_folder_labels);
    lemma_unique_nonempty(named + extra);
    assert forall|t: Seq<char>| #[trigger]
        tags.contains(t) <==> t.len() > 0 && (named.contains(t) || (add_folder_labels
            && labels.contains(t))) by {
        if (named + extra).contains(t) {
            let k = choose|k: int| 0 <= k < (named + extra).len() && (named + extra)[k] == t;
            if k < named.len() {
                assert(named[k] == t);
            } else {
                assert(extra[k - named.len()] == t);
            }
        }
        if named.contains(t) {
            let k = choose|k: int| 0 <= k < named.len() && named[k] == t;
            assert((named + extra)[k] == t);
        }
        if extra.contains(t) {
            let k = choose|k: int| 0 <= k < extra.len() && extra[k] == t;
            assert((named + extra)[named.len() + k] == t);
        }
    }
}

/// A bookmark whose anchor names neither time stamp was added and last
/// changed at the one time that the reading was given; one that names a
/// time stamp that reads as an integer has that one, whatever the time.
pub proof fn lemma_time_stamps(e: ElementView, labels: Seq<Seq<char>>, add_folder_labels: bool, now: i64)
    requires
        record_of(e, labels, add_folder_labels, now) is Some,
    ensures
        ({
            let r = record_of(e, labels, add_folder_labels, now)->Some_0;
            let attributes = e.attributes->Some_0;
            &&& !attributes.contains_key("ADD_DATE"@) ==> r.added_at == now
            &&& !attributes.contains_key("LAST_MODIFIED"@) ==> r.last_modified == now
            &&& attributes.contains_key("ADD_DATE"@) && integer_of(attributes["ADD_DATE"@])
                is Some ==> r.added_at == integer_of(attributes["ADD_DATE"@])->Some_0
            &&& attributes.contains_key("LAST_MODIFIED"@) && integer_of(
                attributes["LAST_MODIFIED"@],
            ) is Some ==> r.last_modified == integer_of(attributes["LAST_MODIFIED"@])->Some_0
        }),
{
}

/// Squeezed text holds no white space but single space characters, and
/// starts and ends with white space exactly where the text did.
pub proof fn lemma_squeeze_leaves_single_spaces(s: Seq<char>)
    ensures
        forall|i: int|
            0 <= i < squeeze(s).len() && is_space(#[trigger] squeeze(s)[i]) ==> squeeze(s)[i]
                == ' ',
        forall|i: int|
            0 <= i < squeeze(s).len() - 1 ==> !(is_space(#[trigger] squeeze(s)[i]) && is_space(
                squeeze(s)[i + 1],
            )),
        s.len() > 0 ==> squeeze(s).len() > 0 && (is_space(squeeze(s).last()) <==> is_space(
            s.last(),
        )) && (is_space(squeeze(s)[0]) <==> is_space(s[0])),
    decreases s.len(),
{
    if s.len() > 0 {
        let front = s.drop_last();
        let head = squeeze(front);
        lemma_squeeze_leaves_single_spaces(front);
        if s.len() >= 2 {
            assert(front.last() == s[s.len() - 2]);
            assert(front[0] == s[0]);
        }
    }
}

proof fn lemma_trim_end_ends(s: Seq<char>)
    ensures
        trim_end(s).len() <= s.len(),
        trim_end(s) == s.subrange(0, trim_end(s).len() as int),
        trim_end(s).len() > 0 ==> !is_space(trim_end(s).last()),
    decreases s.len(),
{
    if s.len() > 0 && is_space(s.last()) {
        lemma_trim_end_ends(s.drop_last());
        assert(s.drop_last().subrange(0, trim_end(s).len() as int) =~= s.subrange(
            0,
            trim_end(s).len() as int,
        ));
    } else {
        assert(s =~= s.subrange(0, s.len() as int));
    }
}

/// Normalized text neither starts nor ends with white space, and holds no
/// white space inside it but single space characters.
pub proof fn lemma_normalized_text(t: Seq<char>)
    ensures
        normalize(t).len() > 0 ==> !is_space(normalize(t)[0]) && !is_space(normalize(t).last()),
        forall|i: int|
            0 <= i < normalize(t).len() && is_space(#[trigger] normalize(t)[i]) ==> normalize(
                t,
            )[i] == ' ',
        forall|i: int|
            0 <= i < normalize(t).len() - 1 ==> !(is_space(#[trigger] normalize(t)[i])
                && is_space(normalize(t)[i + 1])),
{
    let left = trim_start(t);
    let both = trim(t);
    lemma_run_end(t, 0, CharClass::Space);
    lemma_trim_end_ends(left);
    lemma_squeeze_leaves_single_spaces(both);
    if both.len() > 0 {
        assert(both[0] == left[0]);
        assert(left[0] == t[run_end(t, 0, CharClass::Space)]);
    }
}

/// Text that holds no white space but single space characters is left as
/// it is by squeezing.
pub proof fn lemma_squeeze_keeps_squeezed(s: Seq<char>)
    requires
        forall|i: int| 0 <= i < s.len() && is_space(#[trigger] s[i]) ==> s[i] == ' ',
        forall|i: int| 0 <= i < s.len() - 1 ==> !(is_space(#[trigger] s[i]) && is_space(s[i + 1])),
    ensures
        squeeze(s) == s,
    decreases s.len(),
{
    if s.len() > 0 {
        let front = s.drop_last();
        assert forall|i: int| 0 <= i < front.len() - 1 implies !(is_space(#[trigger] front[i])
            && is_space(front[i + 1])) by {
            assert(front[i] == s[i] && front[i + 1] == s[i + 1]);
        }
        assert forall|i: int| 0 <= i < front.len() && is_space(#[trigger] front[i]) implies front[i]
            == ' ' by {
            assert(front[i] == s[i]);
        }
        lemma_squeeze_keeps_squeezed(front);
        if s.len() >= 2 {
            assert(!(is_space(s[s.len() - 2]) && is_space(s[s.len() - 2 + 1])));
        }
        assert(front.push(s.last()) =~= s);
    }
}

/// Squeezing and normalizing change nothing the second time.
pub proof fn lemma_normalizing_twice(t: Seq<char>)
    ensures
        squeeze(squeeze(t)) == squeeze(t),
        normalize(normalize(t)) == normalize(t),
{
    lemma_squeeze_leaves_single_spaces(t);
    lemma_squeeze_keeps_squeezed(squeeze(t));
    let n = normalize(t);
    lemma_normalized_text(t);
    if n.len() > 0 {
        assert(run_end(n, 0, CharClass::Space) == 0);
    }
    assert(trim_start(n) =~= n);
    assert(trim(n) == n);
    lemma_squeeze_keeps_squeezed(n);
}

/// What is left of one list of tags without those of another: exactly the
/// tags that are in the first and not in the second, each once.
pub proof fn lemma_without_is_the_difference(items: Seq<Seq<char>>, others: Seq<Seq<char>>)
    ensures
        without(items, others).no_duplicates(),
        forall|t: Seq<char>| #[trigger]
            without(items, others).contains(t) <==> items.contains(t) && !others.contains(t),
    decreases items.len(),
{
    let all = without(items, others);
    if items.len() > 0 {
        let front = items.drop_last();
        let head = without(front, others);
        let last = items.last();
        lemma_without_is_the_difference(front, others);
        assert forall|t: Seq<char>| #[trigger]
            all.contains(t) <==> items.contains(t) && !others.contains(t) by {
            if all.contains(t) {
                let k = choose|k: int| 0 <= k < all.len() && all[k] == t;
                if k < head.len() {
                    assert(head[k] == t);
                    assert(head.contains(t));
                    let j = choose|j: int| 0 <= j < front.len() && front[j] == t;
                    assert(items[j] == t);
                } else {
                    assert(t == last);
                    assert(items[items.len() - 1] == t);
                }
            }
            if items.contains(t) && !others.contains(t) {
                let j = choose|j: int| 0 <= j < items.len() && items[j] == t;
                if j < items.len() - 1 {
                    assert(front[j] == t);
                    assert(head.contains(t));
                    let k = choose|k: int| 0 <= k < head.len() && head[k] == t;
                    assert(all[k] == t);
                } else if head.contains(t) {
                    let k = choose|k: int| 0 <= k < head.len() && head[k] == t;
                    assert(all[k] == t);
                } else {
                    assert(all[all.len() - 1] == t);
                }
            }
        }
    }
}

} // verus!
