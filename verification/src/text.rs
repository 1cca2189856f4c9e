//! Cleaning of text: trimming, squeezing of white space, splitting into
//! fields, and lists without repetition.

use vstd::prelude::*;
use vstd::string::StringExecFns;
use crate::chars::{
    in_class, is_space, is_space_char, lemma_run_end_is, run_end, substring, to_chars, CharClass,
};

verus! {

/// `s` without the white space it starts with.
pub open spec fn trim_start(s: Seq<char>) -> Seq<char> {
    s.subrange(run_end(s, 0, CharClass::Space), s.len() as int)
}

/// `s` without the white space it ends with.
pub open spec fn trim_end(s: Seq<char>) -> Seq<char>
    decreases s.len(),
{
    if s.len() > 0 && is_space(s.last()) {
        trim_end(s.drop_last())
    } else {
        s
    }
}

/// `s` without the white space at either end.
pub open spec fn trim(s: Seq<char>) -> Seq<char> {
    trim_end(trim_start(s))
}

/// `s` with every run of white space replaced by one space character: a
/// white-space character that follows another is dropped, any other becomes
/// a space.
pub open spec fn squeeze(s: Seq<char>) -> Seq<char>
    decreases s.len(),
{
    if s.len() == 0 {
        s
    } else {
        let head = squeeze(s.drop_last());
        let c = s.last();
        if !is_space(c) {
            head.push(c)
        } else if s.len() >= 2 && is_space(s[s.len() - 2]) {
            head
        } else {
            head.push(' ')
        }
    }
}

/// The fields of `s` between the occurrences of `sep`: one more than there
/// are separators, empty fields included.
pub open spec fn split(s: Seq<char>, sep: char) -> Seq<Seq<char>>
    decreases s.len(),
{
    if s.len() == 0 {
        seq![Seq::<char>::empty()]
    } else {
        let head = split(s.drop_last(), sep);
        if s.last() == sep {
            head.push(Seq::<char>::empty())
        } else {
            head.update(head.len() - 1, head.last().push(s.last()))
        }
    }
}

/// The non-empty members of `items`, each kept where it first occurs.
pub open spec fn unique_nonempty(items: Seq<Seq<char>>) -> Seq<Seq<char>>
    decreases items.len(),
{
    if items.len() == 0 {
        items
    } else {
        let head = unique_nonempty(items.drop_last());
        let last = items.last();
        if last.len() == 0 || head.contains(last) {
            head
        } else {
            head.push(last)
        }
    }
}

/// What an optional string holds.
pub open spec fn optional_text(t: Option<String>) -> Option<Seq<char>> {
    match t {
        Some(x) => Some(x@),
        None => None,
    }
}

/// The text of `t`; none where there is no text.
pub open spec fn text_or_empty(t: Option<Seq<char>>) -> Seq<char> {
    match t {
        Some(x) => x,
        None => Seq::empty(),
    }
}

/// What a sequence of strings holds.
pub open spec fn strings_view(v: Seq<String>) -> Seq<Seq<char>> {
    v.map_values(|s: String| s@)
}

/// The bounds of `s[from..to]` without the white space at either end.
pub fn trim_bounds(s: &[char], from: usize, to: usize) -> (r: (usize, usize))
    requires
        from <= to <= s.len(),
    ensures
        from <= r.0 <= r.1 <= to,
        s@.subrange(r.0 as int, r.1 as int) == trim(s@.subrange(from as int, to as int)),
{
    let ghost t = s@.subrange(from as int, to as int);
    let mut a: usize = from;
    while a < to && is_space_char(s[a])
        invariant
            from <= a <= to <= s.len(),
            forall|k: int| from <= k < a ==> is_space(#[trigger] s@[k]),
        decreases to - a,
    {
        a += 1;
    }
    proof {
        assert forall|k: int| 0 <= k < a - from implies in_class(
            CharClass::Space,
            #[trigger] t[k],
        ) by {
            assert(t[k] == s@[from + k]);
        }
        lemma_run_end_is(t, 0, a - from, CharClass::Space);
        assert(trim_start(t) =~= s@.subrange(a as int, to as int));
    }
    let mut b: usize = to;
    while b > a && is_space_char(s[b - 1])
        invariant
            a <= b <= to <= s.len(),
            trim_end(s@.subrange(a as int, to as int)) == trim_end(
                s@.subrange(a as int, b as int),
            ),
        decreases b,
    {
        proof {
            let u = s@.subrange(a as int, b as int);
            assert(u.last() == s@[b - 1]);
            assert(u.drop_last() =~= s@.subrange(a as int, b - 1));
        }
        b -= 1;
    }
    proof {
        let u = s@.subrange(a as int, b as int);
        if b > a {
            assert(u.last() == s@[b - 1]);
        }
        assert(trim_end(u) == u);
    }
    (a, b)
}

/// Appends to `out` the characters of `s[from..to]`, white space squeezed.
pub fn push_squeezed(out: &mut String, s: &[char], from: usize, to: usize)
    requires
        from <= to <= s.len(),
    ensures
        final(out)@ == old(out)@ + squeeze(s@.subrange(from as int, to as int)),
{
    let mut i: usize = from;
    proof {
        assert(squeeze(s@.subrange(from as int, from as int)) =~= Seq::<char>::empty());
        assert(out@ =~= old(out)@ + Seq::<char>::empty());
    }
    while i < to
        invariant
            from <= i <= to <= s.len(),
            out@ == old(out)@ + squeeze(s@.subrange(from as int, i as int)),
        decreases to - i,
    {
        let c = s[i];
        proof {
            let u = s@.subrange(from as int, i + 1);
            assert(u.drop_last() =~= s@.subrange(from as int, i as int));
            assert(u.last() == c);
            if i > from {
                assert(u[u.len() - 2] == s@[i - 1]);
            }
        }
        let ghost before = out@;
        if !is_space_char(c) {
            out.push(c);
            proof {
                assert(out@ =~= old(out)@ + squeeze(s@.subrange(from as int, i + 1)));
            }
        } else if i > from && is_space_char(s[i - 1]) {
        } else {
            out.push(' ');
            proof {
                assert(out@ =~= old(out)@ + squeeze(s@.subrange(from as int, i + 1)));
            }
        }
        i += 1;
    }
}

/// The text of `s[from..to]`, trimmed and then squeezed.
pub fn normalized(s: &[char], from: usize, to: usize) -> (out: String)
    requires
        from <= to <= s.len(),
    ensures
        out@ == squeeze(trim(s@.subrange(from as int, to as int))),
{
    let (a, b) = trim_bounds(s, from, to);
    let mut out = String::new();
    push_squeezed(&mut out, s, a, b);
    proof {
        assert(out@ =~= squeeze(s@.subrange(a as int, b as int)));
    }
    out
}

/// The text of `s[from..to]`, trimmed.
pub fn trimmed(s: &[char], from: usize, to: usize) -> (out: String)
    requires
        from <= to <= s.len(),
    ensures
        out@ == trim(s@.subrange(from as int, to as int)),
{
    let (a, b) = trim_bounds(s, from, to);
    substring(s, a, b)
}

/// Every field of `fields`, trimmed.
pub open spec fn trim_all(fields: Seq<Seq<char>>) -> Seq<Seq<char>> {
    fields.map_values(|f: Seq<char>| trim(f))
}

/// What a list of strings holds after one more is added to it.
pub proof fn lemma_strings_view_push(v: Seq<String>, t: String)
    ensures
        strings_view(v.push(t)) == strings_view(v).push(t@),
{
    assert(strings_view(v.push(t)) =~= strings_view(v).push(t@));
}

/// Trimming every field of a list with one more field.
pub proof fn lemma_trim_all_push(fields: Seq<Seq<char>>, f: Seq<char>)
    ensures
        trim_all(fields.push(f)) == trim_all(fields).push(trim(f)),
{
    assert(trim_all(fields.push(f)) =~= trim_all(fields).push(trim(f)));
}

/// The fields of `s` between the occurrences of `sep`, each trimmed.
pub fn split_trimmed(s: &[char], sep: char) -> (out: Vec<String>)
    ensures
        strings_view(out@) == trim_all(split(s@, sep)),
{
    let mut out: Vec<String> = Vec::new();
    let ghost mut done: Seq<Seq<char>> = Seq::empty();
    let mut start: usize = 0;
    let mut i: usize = 0;
    proof {
        assert(s@.subrange(0, 0) =~= Seq::<char>::empty());
        assert(split(s@.subrange(0, 0), sep) =~= done.push(s@.subrange(0, 0)));
        assert(strings_view(out@) =~= trim_all(done));
    }
    while i < s.len()
        invariant
            start <= i <= s.len(),
            split(s@.subrange(0, i as int), sep) == done.push(
                s@.subrange(start as int, i as int),
            ),
            strings_view(out@) == trim_all(done),
        decreases s.len() - i,
    {
        proof {
            let u = s@.subrange(0, i + 1);
            assert(u.drop_last() =~= s@.subrange(0, i as int));
            assert(u.last() == s@[i as int]);
        }
        if s[i] == sep {
            let field = trimmed(s, start, i);
            proof {
                let raw = s@.subrange(start as int, i as int);
                lemma_strings_view_push(out@, field);
                lemma_trim_all_push(done, raw);
                done = done.push(raw);
                assert(s@.subrange(i + 1, i + 1) =~= Seq::<char>::empty());
            }
            out.push(field);
            start = i + 1;
        } else {
            proof {
                let head = done.push(s@.subrange(start as int, i as int));
                assert(s@.subrange(start as int, i as int).push(s@[i as int]) =~= s@.subrange(
                    start as int,
                    i + 1,
                ));
                assert(head.update(head.len() - 1, head.last().push(s@[i as int])) =~= done.push(
                    s@.subrange(start as int, i + 1),
                ));
            }
        }
        i += 1;
    }
    let field = trimmed(s, start, s.len());
    proof {
        let raw = s@.subrange(start as int, s.len() as int);
        assert(s@.subrange(0, s.len() as int) =~= s@);
        lemma_strings_view_push(out@, field);
        lemma_trim_all_push(done, raw);
    }
    out.push(field);
    out
}

/// Whether one of `items` reads `t`.
pub fn contains_string(items: &Vec<String>, t: &String) -> (r: bool)
    ensures
        r == strings_view(items@).contains(t@),
{
    let mut i: usize = 0;
    while i < items.len()
        invariant
            i <= items.len(),
            forall|k: int| 0 <= k < i ==> strings_view(items@)[k] != t@,
        decreases items.len() - i,
    {
        if items[i] == *t {
            assert(strings_view(items@)[i as int] == t@);
            return true;
        }
        i += 1;
    }
    false
}

/// The non-empty members of `items`, each kept where it first occurs.
pub fn unique_strings(items: &Vec<String>) -> (out: Vec<String>)
    ensures
        strings_view(out@) == unique_nonempty(strings_view(items@)),
{
    let mut out: Vec<String> = Vec::new();
    let mut i: usize = 0;
    let ghost all = strings_view(items@);
    proof {
        assert(all.subrange(0, 0) =~= Seq::<Seq<char>>::empty());
        assert(strings_view(out@) =~= unique_nonempty(all.subrange(0, 0)));
    }
    while i < items.len()
        invariant
            i <= items.len(),
            all == strings_view(items@),
            strings_view(out@) == unique_nonempty(all.subrange(0, i as int)),
        decreases items.len() - i,
    {
        proof {
            let u = all.subrange(0, i + 1);
            assert(u.drop_last() =~= all.subrange(0, i as int));
            assert(u.last() == items@[i as int]@);
        }
        if !items[i].as_str().is_empty() && !contains_string(&out, &items[i]) {
            let t = items[i].clone();
            proof {
                lemma_strings_view_push(out@, t);
            }
            out.push(t);
        }
        i += 1;
    }
    proof {
        assert(all.subrange(0, items.len() as int) =~= all);
    }
    out
}

/// The members of `items` one after the other, with `sep` between each two.
pub open spec fn join(items: Seq<Seq<char>>, sep: Seq<char>) -> Seq<char>
    decreases items.len(),
{
    if items.len() == 0 {
        Seq::empty()
    } else if items.len() == 1 {
        items[0]
    } else {
        join(items.drop_last(), sep) + sep + items.last()
    }
}

/// The members of `items` one after the other, with `sep` between each two.
pub fn join_strings(items: &Vec<String>, sep: &str) -> (out: String)
    ensures
        out@ == join(strings_view(items@), sep@),
{
    let mut out = String::new();
    let ghost all = strings_view(items@);
    let mut i: usize = 0;
    proof {
        assert(all.subrange(0, 0) =~= Seq::<Seq<char>>::empty());
    }
    while i < items.len()
        invariant
            i <= items.len(),
            all == strings_view(items@),
            out@ == join(all.subrange(0, i as int), sep@),
        decreases items.len() - i,
    {
        proof {
            let u = all.subrange(0, i + 1);
            assert(u.drop_last() =~= all.subrange(0, i as int));
            assert(u.last() == items@[i as int]@);
            if i == 0 {
                assert(out@ + items@[0]@ =~= items@[0]@);
            }
        }
        if i > 0 {
            out.append(sep);
        }
        out.append(items[i].as_str());
        i += 1;
    }
    proof {
        assert(all.subrange(0, items.len() as int) =~= all);
    }
    out
}

/// A copy of each of `items`.
pub fn clone_strings(items: &[String]) -> (out: Vec<String>)
    ensures
        strings_view(out@) == strings_view(items@),
{
    let mut out: Vec<String> = Vec::new();
    let mut i: usize = 0;
    while i < items.len()
        invariant
            i <= items.len(),
            strings_view(out@) == strings_view(items@.subrange(0, i as int)),
        decreases items.len() - i,
    {
        let t = items[i].clone();
        proof {
            lemma_strings_view_push(out@, t);
            assert(strings_view(items@.subrange(0, i as int)).push(t@) =~= strings_view(
                items@.subrange(0, i + 1),
            ));
        }
        out.push(t);
        i += 1;
    }
    proof {
        assert(items@.subrange(0, items.len() as int) =~= items@);
    }
    out
}

/// Whether `pattern` stands in `s` at position `i`.
pub open spec fn occurs_at(s: Seq<char>, i: int, pattern: Seq<char>) -> bool {
    0 <= i && i + pattern.len() <= s.len() && s.subrange(i, i + pattern.len()) == pattern
}

/// `s` from position `i` on, with `to` in place of every occurrence of
/// `from`. Occurrences are looked for from left to right, each after the
/// end of the one before. An empty `from` occurs before every character
/// and at the end.
pub open spec fn replaced_from(s: Seq<char>, i: int, from: Seq<char>, to: Seq<char>) -> Seq<char>
    decreases s.len() - i,
{
    if i < 0 || i >= s.len() {
        if from.len() == 0 {
            to
        } else {
            Seq::empty()
        }
    } else if from.len() == 0 {
        to + seq![s[i]] + replaced_from(s, i + 1, from, to)
    } else if occurs_at(s, i, from) {
        to + replaced_from(s, i + from.len(), from, to)
    } else {
        seq![s[i]] + replaced_from(s, i + 1, from, to)
    }
}

/// `s` with `to` in place of every occurrence of `from`.
pub open spec fn replaced(s: Seq<char>, from: Seq<char>, to: Seq<char>) -> Seq<char> {
    replaced_from(s, 0, from, to)
}

/// Whether `pattern` stands in `s` at position `i`.
pub fn matches_at(s: &[char], i: usize, pattern: &[char]) -> (r: bool)
    requires
        i <= s.len(),
    ensures
        r == occurs_at(s@, i as int, pattern@),
{
    let n: usize = pattern.len();
    if n > s.len() - i {
        return false;
    }
    let mut k: usize = 0;
    while k < n
        invariant
            k <= n,
            n == pattern.len(),
            i + n <= s.len(),
            forall|j: int| 0 <= j < k ==> s@[i + j] == pattern@[j],
        decreases n - k,
    {
        if s[i + k] != pattern[k] {
            proof {
                assert(s@.subrange(i as int, i + n)[k as int] != pattern@[k as int]);
            }
            return false;
        }
        k += 1;
    }
    proof {
        assert(s@.subrange(i as int, i + n) =~= pattern@);
    }
    true
}

/// `text` with `to` in place of every occurrence of `from`.
pub fn replace_all(text: &str, from: &str, to: &str) -> (out: String)
    ensures
        out@ == replaced(text@, from@, to@),
{
    let s = to_chars(text);
    let pattern = to_chars(from);
    let mut out = String::new();
    let mut i: usize = 0;
    let n: usize = s.len();
    let m: usize = pattern.len();
    proof {
        assert(out@ + replaced_from(s@, 0, from@, to@) =~= replaced_from(s@, 0, from@, to@));
    }
    while i < n
        invariant
            i <= n,
            n == s.len(),
            m == pattern.len(),
            s@ == text@,
            pattern@ == from@,
            replaced(text@, from@, to@) == out@ + replaced_from(s@, i as int, from@, to@),
        decreases n - i,
    {
        let ghost before = out@;
        if m == 0 {
            out.append(to);
            out.push(s[i]);
            proof {
                let rest = replaced_from(s@, i + 1, from@, to@);
                assert(before + (to@ + seq![s@[i as int]] + rest) =~= (before + to@).push(
                    s@[i as int],
                ) + rest);
            }
            i += 1;
        } else if matches_at(s.as_slice(), i, pattern.as_slice()) {
            out.append(to);
            proof {
                let rest = replaced_from(s@, i + m, from@, to@);
                assert(before + (to@ + rest) =~= (before + to@) + rest);
            }
            i += m;
        } else {
            out.push(s[i]);
            proof {
                let rest = replaced_from(s@, i + 1, from@, to@);
                assert(before + (seq![s@[i as int]] + rest) =~= before.push(s@[i as int]) + rest);
            }
            i += 1;
        }
    }
    if m == 0 {
        proof {
            assert(out@ + to@ =~= out@ + replaced_from(s@, i as int, from@, to@));
        }
        out.append(to);
    } else {
        proof {
            assert(out@ + replaced_from(s@, i as int, from@, to@) =~= out@);
        }
    }
    out
}

} // verus!
