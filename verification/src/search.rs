//! Searching a text line by line.

use vstd::prelude::*;
use vstd::string::StringSliceAdditionalSpecFns;
use vstd::utf8::is_ascii_chars;
use crate::case::{
    ascii_uppercase,
    lemma_lowercase_of_uppercase,
    lemma_lowering_keeps_parts,
    lowercase,
    lowercase_chars,
};
use crate::lines::split_lines;
use crate::text::{contains, lines, occurs_at};
use crate::utf8::{lemma_contains_by_bytes, lemma_encode_injective};

verus! {

/// Whether the bytes of `needle` stand in `hay` from byte `at` on.
fn bytes_occur_at(hay: &[u8], needle: &[u8], at: usize) -> (found: bool)
    requires
        at + needle@.len() <= hay@.len(),
    ensures
        found == occurs_at(hay@, needle@, at as int),
{
    let total: usize = hay.len();
    let width: usize = needle.len();
    let mut i: usize = 0;
    while i < width
        invariant
            total == hay@.len(),
            width == needle@.len(),
            at + width <= total,
            i <= width,
            forall|j: int| 0 <= j < i ==> hay@[at + j] == needle@[j],
        decreases width - i,
    {
        if hay[at + i] != needle[i] {
            assert(hay@.subrange(at as int, at + width)[i as int] != needle@[i as int]);
            return false;
        }
        i += 1;
    }
    assert(hay@.subrange(at as int, at + width) =~= needle@);
    true
}

/// Whether two texts are the same, character for character.
pub fn same_text(left: &str, right: &str) -> (same: bool)
    ensures
        same == (left@ == right@),
{
    let left_bytes: &[u8] = left.as_bytes();
    let right_bytes: &[u8] = right.as_bytes();
    if left_bytes.len() != right_bytes.len() {
        return false;
    }
    let same: bool = bytes_occur_at(left_bytes, right_bytes, 0);
    proof {
        assert(left_bytes@.subrange(0, left_bytes@.len() as int) =~= left_bytes@);
        if same {
            lemma_encode_injective(left@, right@);
        }
    }
    same
}

/// Whether `query` is a part of `line`, character for character.
pub fn line_contains(line: &str, query: &str) -> (found: bool)
    ensures
        found == contains(line@, query@),
{
    let hay: &[u8] = line.as_bytes();
    let needle: &[u8] = query.as_bytes();
    proof {
        lemma_contains_by_bytes(line@, query@);
    }
    if needle.len() > hay.len() {
        return false;
    }
    let last: usize = hay.len() - needle.len();
    let mut at: usize = 0;
    loop
        invariant
            contains(line@, query@) <==> contains(hay@, needle@),
            last + needle@.len() == hay@.len(),
            at <= last,
            forall|before: int| 0 <= before < at ==> !occurs_at(hay@, needle@, before),
        decreases last - at,
    {
        if bytes_occur_at(hay, needle, at) {
            return true;
        }
        if at == last {
            return false;
        }
        at += 1;
    }
}

/// Whether the characters of `needle` stand in `hay` from index `at` on.
fn chars_occur_at(hay: &[char], needle: &[char], at: usize) -> (found: bool)
    requires
        at + needle@.len() <= hay@.len(),
    ensures
        found == occurs_at(hay@, needle@, at as int),
{
    let total: usize = hay.len();
    let width: usize = needle.len();
    let mut i: usize = 0;
    while i < width
        invariant
            total == hay@.len(),
            width == needle@.len(),
            at + width <= total,
            i <= width,
            forall|j: int| 0 <= j < i ==> hay@[at + j] == needle@[j],
        decreases width - i,
    {
        if hay[at + i] != needle[i] {
            assert(hay@.subrange(at as int, at + width)[i as int] != needle@[i as int]);
            return false;
        }
        i += 1;
    }
    assert(hay@.subrange(at as int, at + width) =~= needle@);
    true
}

/// Whether the characters of `needle` are a part of `hay`.
pub fn chars_contain(hay: &[char], needle: &[char]) -> (found: bool)
    ensures
        found == contains(hay@, needle@),
{
    if needle.len() > hay.len() {
        return false;
    }
    let last: usize = hay.len() - needle.len();
    let mut at: usize = 0;
    loop
        invariant
            last + needle@.len() == hay@.len(),
            at <= last,
            forall|before: int| 0 <= before < at ==> !occurs_at(hay@, needle@, before),
        decreases last - at,
    {
        if chars_occur_at(hay, needle, at) {
            return true;
        }
        if at == last {
            return false;
        }
        at += 1;
    }
}

/// The test that a line holds `query`, character for character.
pub open spec fn holds(query: Seq<char>) -> spec_fn(Seq<char>) -> bool {
    |line: Seq<char>| contains(line, query)
}

/// The test that the lowercase form of a line holds the lowercase form of
/// `query`.
pub open spec fn holds_ignoring_case(query: Seq<char>) -> spec_fn(Seq<char>) -> bool {
    |line: Seq<char>| contains(lowercase(line), lowercase(query))
}

/// The test that a search for `query` puts to each line.
pub open spec fn line_test(query: Seq<char>, ignore_case: bool) -> spec_fn(Seq<char>) -> bool {
    if ignore_case {
        holds_ignoring_case(query)
    } else {
        holds(query)
    }
}

/// The lines of `contents` that hold `query`, in their order in `contents`,
/// each once for every time it stands there as a line.
pub open spec fn matching_lines(query: Seq<char>, contents: Seq<char>) -> Seq<Seq<char>> {
    lines(contents).filter(holds(query))
}

/// The lines of `contents` whose lowercase form holds the lowercase form of
/// `query`, in their order in `contents`.
pub open spec fn matching_lines_ignoring_case(query: Seq<char>, contents: Seq<char>) -> Seq<
    Seq<char>,
> {
    lines(contents).filter(holds_ignoring_case(query))
}

/// Filtering a sequence with one more element at its end.
proof fn lemma_filter_push<T>(all: Seq<T>, last: T, keep: spec_fn(T) -> bool)
    ensures
        all.push(last).filter(keep) == if keep(last) {
            all.filter(keep).push(last)
        } else {
            all.filter(keep)
        },
{
    reveal(Seq::filter);
    assert(all.push(last).drop_last() =~= all);
}

/// Filtering the first `i + 1` elements of a sequence, from what filtering
/// the first `i` gave.
proof fn lemma_filter_next<T>(all: Seq<T>, i: int, keep: spec_fn(T) -> bool)
    requires
        0 <= i < all.len(),
    ensures
        all.subrange(0, i + 1).filter(keep) == if keep(all[i]) {
            all.subrange(0, i).filter(keep).push(all[i])
        } else {
            all.subrange(0, i).filter(keep)
        },
{
    assert(all.subrange(0, i + 1) =~= all.subrange(0, i).push(all[i]));
    lemma_filter_push(all.subrange(0, i), all[i], keep);
}

/// The lines among `all` that pass the test for `query`, in their order.
fn select_lines<'a>(all: Vec<&'a str>, query: &str, ignore_case: bool) -> (found: Vec<&'a str>)
    ensures
        found.deep_view() == all.deep_view().filter(line_test(query@, ignore_case)),
{
    let wanted: Vec<char> = if ignore_case {
        lowercase_chars(query)
    } else {
        Vec::new()
    };
    let mut found: Vec<&'a str> = Vec::new();
    let mut i: usize = 0;
    proof {
        reveal(Seq::filter);
        assert(found.deep_view() =~= all.deep_view().subrange(0, 0));
    }
    while i < all.len()
        invariant
            i <= all.len(),
            ignore_case ==> wanted@ == lowercase(query@),
            found.deep_view() == all.deep_view().subrange(0, i as int).filter(
                line_test(query@, ignore_case),
            ),
        decreases all.len() - i,
    {
        let line: &'a str = all[i];
        let kept: bool = if ignore_case {
            let lowered: Vec<char> = lowercase_chars(line);
            chars_contain(lowered.as_slice(), wanted.as_slice())
        } else {
            line_contains(line, query)
        };
        let ghost before = found.deep_view();
        if kept {
            found.push(line);
            assert(found.deep_view() =~= before.push(line@));
        }
        proof {
            lemma_filter_next(all.deep_view(), i as int, line_test(query@, ignore_case));
        }
        i += 1;
    }
    assert(all.deep_view().subrange(0, i as int) =~= all.deep_view());
    found
}

/// The lines of `contents` that hold `query`.
pub fn search<'a>(query: &str, contents: &'a str) -> (found: Vec<&'a str>)
    ensures
        found.deep_view() == matching_lines(query@, contents@),
{
    select_lines(split_lines(contents), query, false)
}

/// The lines of `contents` that hold `query` when capital and small letters
/// count as the same: the lines whose lowercase form holds the lowercase form
/// of `query`.
pub fn search_case_insensitive<'a>(query: &str, contents: &'a str) -> (found: Vec<&'a str>)
    ensures
        found.deep_view() == matching_lines_ignoring_case(query@, contents@),
{
    select_lines(split_lines(contents), query, true)
}

/// Where every kept element passes a second test too, filtering by the
/// second test first changes nothing.
proof fn lemma_filter_refines<T>(all: Seq<T>, keep: spec_fn(T) -> bool, wider: spec_fn(T) -> bool)
    requires
        forall|i: int| 0 <= i < all.len() && keep(all[i]) ==> wider(all[i]),
    ensures
        all.filter(keep) == all.filter(wider).filter(keep),
    decreases all.len(),
{
    reveal(Seq::filter);
    if all.len() > 0 {
        let front = all.drop_last();
        let last = all.last();
        lemma_filter_refines(front, keep, wider);
        assert(all =~= front.push(last));
        lemma_filter_push(front, last, keep);
        lemma_filter_push(front, last, wider);
        lemma_filter_push(front.filter(wider), last, keep);
    }
}

/// Two tests that agree on every element keep the same elements.
proof fn lemma_filter_agrees<T>(all: Seq<T>, keep: spec_fn(T) -> bool, other: spec_fn(T) -> bool)
    requires
        forall|i: int| 0 <= i < all.len() ==> keep(all[i]) == other(all[i]),
    ensures
        all.filter(keep) == all.filter(other),
    decreases all.len(),
{
    reveal(Seq::filter);
    if all.len() > 0 {
        let front = all.drop_last();
        let last = all.last();
        lemma_filter_agrees(front, keep, other);
        assert(all =~= front.push(last));
        lemma_filter_push(front, last, keep);
        lemma_filter_push(front, last, other);
    }
}

/// A line of `contents` that holds `query` is among the lines that `search`
/// returns, and every line that `search` returns holds `query`.
pub proof fn lemma_search_finds_every_match(query: Seq<char>, contents: Seq<char>)
    ensures
        forall|i: int|
            0 <= i < lines(contents).len() && contains(#[trigger] lines(contents)[i], query)
                ==> matching_lines(query, contents).contains(lines(contents)[i]),
        forall|k: int|
            0 <= k < matching_lines(query, contents).len() ==> contains(
                #[trigger] matching_lines(query, contents)[k],
                query,
            ),
{
    let all = lines(contents);
    assert forall|i: int| 0 <= i < all.len() && contains(#[trigger] all[i], query) implies all.filter(
        holds(query),
    ).contains(all[i]) by {
        all.lemma_filter_contains(holds(query), i);
    }
    assert forall|k: int| 0 <= k < all.filter(holds(query)).len() implies contains(
        #[trigger] all.filter(holds(query))[k],
        query,
    ) by {
        all.lemma_filter_pred(holds(query), k);
    }
}

/// The search that ignores case returns every line that the exact search
/// returns: the exact result is what is left of the other when the lines
/// that do not hold `query` are taken out.
pub proof fn lemma_ignoring_case_finds_more(query: Seq<char>, contents: Seq<char>)
    ensures
        matching_lines(query, contents) == matching_lines_ignoring_case(query, contents).filter(
            holds(query),
        ),
{
    let all = lines(contents);
    assert forall|i: int| 0 <= i < all.len() && holds(query)(all[i]) implies holds_ignoring_case(
        query,
    )(all[i]) by {
        lemma_lowering_keeps_parts(all[i], query);
    }
    lemma_filter_refines(all, holds(query), holds_ignoring_case(query));
}

/// The search that ignores case returns the same lines for an ASCII query
/// and for that query in capital letters.
pub proof fn lemma_query_case_is_ignored(query: Seq<char>, contents: Seq<char>)
    requires
        is_ascii_chars(query),
    ensures
        matching_lines_ignoring_case(ascii_uppercase(query), contents)
            == matching_lines_ignoring_case(query, contents),
{
    lemma_lowercase_of_uppercase(query);
    let all = lines(contents);
    lemma_filter_agrees(
        all,
        holds_ignoring_case(ascii_uppercase(query)),
        holds_ignoring_case(query),
    );
}

} // verus!
