//! What is asked of the store of bookmarks, and what is to be changed in
//! it, as plain values. The store itself is not here.

use vstd::prelude::*;
use vstd::string::StringExecFns;
use crate::text::{
    clone_strings, contains_string, join, join_strings, lemma_strings_view_push, strings_view,
};

verus! {

/// A statement for the store: its text, with a `?` for each value, and the
/// values, in the order of the `?`.
#[derive(Debug)]
pub struct Query {
    pub statement: String,
    pub parameters: Vec<String>,
}

/// The start of the statement that selects bookmarks with what is known of
/// their pages.
pub open spec fn select_all() -> Seq<char> {
    "SELECT b.id, b.link, b.added_at, b.last_modified, m.title, m.description, m.image_url, m.site_type FROM `Bookmark` AS b, `Metadata` AS m WHERE b.id = m.bookmark_id"@
}

/// `n` times `item`.
pub open spec fn repeated(item: Seq<char>, n: nat) -> Seq<Seq<char>> {
    Seq::new(n, |i: int| item)
}

/// The condition that a bookmark has one of `n` tags.
pub open spec fn tags_clause(n: nat) -> Seq<char> {
    "b.id in (SELECT DISTINCT bookmark_id FROM `Tag` WHERE tag in ("@ + join(
        repeated("?"@, n),
        ", "@,
    ) + "))"@
}

/// The condition that the link of a bookmark holds one of `n` texts.
pub open spec fn domains_clause(n: nat) -> Seq<char> {
    "("@ + join(repeated("b.link LIKE ?"@, n), " OR "@) + ")"@
}

/// The pattern that matches the links that hold `domain`.
pub open spec fn link_pattern(domain: Seq<char>) -> Seq<char> {
    "%"@ + domain + "%"@
}

/// The text of the statement that selects the bookmarks that have one of
/// `tags` tags, where there is one, and whose link holds one of `domains`
/// texts, where there is one.
pub open spec fn select_statement(tags: nat, domains: nat) -> Seq<char> {
    select_all() + (if tags > 0 {
        " AND "@ + tags_clause(tags)
    } else {
        Seq::empty()
    }) + (if domains > 0 {
        " AND "@ + domains_clause(domains)
    } else {
        Seq::empty()
    })
}

/// The values of that statement: the tags, then a pattern for each domain.
pub open spec fn select_parameters(tags: Seq<Seq<char>>, domains: Seq<Seq<char>>) -> Seq<
    Seq<char>,
> {
    tags + domains.map_values(|d: Seq<char>| link_pattern(d))
}

fn repeat(item: &str, n: usize) -> (r: Vec<String>)
    ensures
        strings_view(r@) == repeated(item@, n as nat),
{
    let mut r: Vec<String> = Vec::new();
    let mut i: usize = 0;
    proof {
        assert(strings_view(r@) =~= repeated(item@, 0));
    }
    while i < n
        invariant
            i <= n,
            strings_view(r@) == repeated(item@, i as nat),
        decreases n - i,
    {
        let t = item.to_owned();
        proof {
            lemma_strings_view_push(r@, t);
            assert(repeated(item@, i as nat).push(item@) =~= repeated(item@, (i + 1) as nat));
        }
        r.push(t);
        i += 1;
    }
    r
}

/// The statement that selects the bookmarks that have one of `tags`, where
/// there is one, and whose link holds one of `domains`, where there is one;
/// with neither, every bookmark.
pub fn selection(tags: &[String], domains: &[String]) -> (r: Query)
    ensures
        r.statement@ == select_statement(tags@.len(), domains@.len()),
        strings_view(r.parameters@) == select_parameters(
            strings_view(tags@),
            strings_view(domains@),
        ),
{
    let mut statement: String =
        "SELECT b.id, b.link, b.added_at, b.last_modified, m.title, m.description, m.image_url, m.site_type FROM `Bookmark` AS b, `Metadata` AS m WHERE b.id = m.bookmark_id".to_owned();
    let ghost head = statement@;
    if tags.len() > 0 {
        let marks = join_strings(&repeat("?", tags.len()), ", ");
        statement.append(" AND ");
        statement.append("b.id in (SELECT DISTINCT bookmark_id FROM `Tag` WHERE tag in (");
        statement.append(marks.as_str());
        statement.append("))");
        proof {
            assert(statement@ =~= head + (" AND "@ + tags_clause(tags@.len())));
        }
    } else {
        proof {
            assert(statement@ =~= head + Seq::<char>::empty());
        }
    }
    let ghost middle = statement@;
    if domains.len() > 0 {
        let marks = join_strings(&repeat("b.link LIKE ?", domains.len()), " OR ");
        statement.append(" AND ");
        statement.append("(");
        statement.append(marks.as_str());
        statement.append(")");
        proof {
            assert(statement@ =~= middle + (" AND "@ + domains_clause(domains@.len())));
        }
    } else {
        proof {
            assert(statement@ =~= middle + Seq::<char>::empty());
        }
    }
    let mut parameters = clone_strings(tags);
    let ghost first = strings_view(parameters@);
    let mut i: usize = 0;
    proof {
        assert(strings_view(domains@.subrange(0, 0)).map_values(|d: Seq<char>| link_pattern(d))
            =~= Seq::<Seq<char>>::empty());
        assert(first + Seq::<Seq<char>>::empty() =~= first);
    }
    while i < domains.len()
        invariant
            i <= domains.len(),
            first == strings_view(tags@),
            strings_view(parameters@) == select_parameters(
                first,
                strings_view(domains@.subrange(0, i as int)),
            ),
        decreases domains.len() - i,
    {
        let mut pattern: String = "%".to_owned();
        pattern.append(domains[i].as_str());
        pattern.append("%");
        proof {
            lemma_strings_view_push(parameters@, pattern);
            assert(select_parameters(first, strings_view(domains@.subrange(0, i as int))).push(
                pattern@,
            ) =~= select_parameters(first, strings_view(domains@.subrange(0, i + 1))));
        }
        parameters.push(pattern);
        i += 1;
    }
    proof {
        assert(domains@.subrange(0, domains.len() as int) =~= domains@);
    }
    Query { statement, parameters }
}

/// The members of `items` that are not among `others`, each kept where it
/// first occurs.
pub open spec fn without(items: Seq<Seq<char>>, others: Seq<Seq<char>>) -> Seq<Seq<char>>
    decreases items.len(),
{
    if items.len() == 0 {
        items
    } else {
        let head = without(items.drop_last(), others);
        let last = items.last();
        if others.contains(last) || head.contains(last) {
            head
        } else {
            head.push(last)
        }
    }
}

/// The members of `items` that are not among `others`, each once.
pub fn difference(items: &[String], others: &Vec<String>) -> (out: Vec<String>)
    ensures
        strings_view(out@) == without(strings_view(items@), strings_view(others@)),
{
    let mut out: Vec<String> = Vec::new();
    let ghost all = strings_view(items@);
    let mut i: usize = 0;
    proof {
        assert(all.subrange(0, 0) =~= Seq::<Seq<char>>::empty());
        assert(strings_view(out@) =~= without(all.subrange(0, 0), strings_view(others@)));
    }
    while i < items.len()
        invariant
            i <= items.len(),
            all == strings_view(items@),
            strings_view(out@) == without(all.subrange(0, i as int), strings_view(others@)),
        decreases items.len() - i,
    {
        proof {
            let u = all.subrange(0, i + 1);
            assert(u.drop_last() =~= all.subrange(0, i as int));
            assert(u.last() == items@[i as int]@);
        }
        if !contains_string(others, &items[i]) && !contains_string(&out, &items[i]) {
            let t = items[i].clone();
            proof {
                lemma_strings_view_push(out@, t);
            }
            out.push(t);
        }
        i += 1;
    }
    proof {
        assert(all.subrange(0, items.len() as int) =~= all);
    }
    out
}

/// What changing the tags of a bookmark from `old` to `new` takes: the
/// tags to add, which are in `new` and not in `old`, and the tags to
/// delete, which are in `old` and not in `new`.
pub fn tag_changes(old: &[String], new: &[String]) -> (r: (Vec<String>, Vec<String>))
    ensures
        strings_view(r.0@) == without(strings_view(new@), strings_view(old@)),
        strings_view(r.1@) == without(strings_view(old@), strings_view(new@)),
{
    let old_tags = clone_strings(old);
    let new_tags = clone_strings(new);
    let added = difference(new, &old_tags);
    let deleted = difference(old, &new_tags);
    (added, deleted)
}

} // verus!
