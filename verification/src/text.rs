//! The mathematical model of text: parts of a sequence, and the lines of a
//! sequence of characters.

use vstd::prelude::*;

verus! {

/// `needle` lies in `hay` from index `at` on.
pub open spec fn occurs_at<T>(hay: Seq<T>, needle: Seq<T>, at: int) -> bool {
    &&& 0 <= at
    &&& at + needle.len() <= hay.len()
    &&& hay.subrange(at, at + needle.len()) == needle
}

/// `needle` is a contiguous part of `hay`. The empty sequence is a part of
/// every sequence.
pub open spec fn contains<T>(hay: Seq<T>, needle: Seq<T>) -> bool {
    exists|at: int| occurs_at(hay, needle, at)
}

/// Three parts laid end to end hold the middle one, right after the first.
pub proof fn lemma_middle_occurs<T>(before: Seq<T>, needle: Seq<T>, after: Seq<T>)
    ensures
        occurs_at(before + needle + after, needle, before.len() as int),
        contains(before + needle + after, needle),
{
    let hay = before + needle + after;
    let at = before.len() as int;
    assert(hay.subrange(at, at + needle.len()) =~= needle);
    assert(occurs_at(hay, needle, at));
}

/// A sequence that holds `needle` at `at` is what stands before it, `needle`
/// itself, and what stands after it.
pub proof fn lemma_occurrence_splits<T>(hay: Seq<T>, needle: Seq<T>, at: int)
    requires
        occurs_at(hay, needle, at),
    ensures
        hay == hay.subrange(0, at) + needle + hay.subrange(
            at + needle.len(),
            hay.len() as int,
        ),
{
    assert(hay =~= hay.subrange(0, at) + hay.subrange(at, at + needle.len()) + hay.subrange(
        at + needle.len(),
        hay.len() as int,
    ));
}

/// The number of characters before the first line feed of `text`, or the
/// length of `text` where it holds none.
pub open spec fn line_end(text: Seq<char>) -> int
    decreases text.len(),
{
    if text.len() == 0 || text[0] == '\n' {
        0
    } else {
        1 + line_end(text.drop_first())
    }
}

/// `end` is where the first line of `text` ends: no line feed stands before
/// it, and one stands at it unless the text ends there.
pub open spec fn is_line_end(text: Seq<char>, end: int) -> bool {
    &&& 0 <= end <= text.len()
    &&& forall|i: int| 0 <= i < end ==> text[i] != '\n'
    &&& end < text.len() ==> text[end] == '\n'
}

/// `line_end` is the one index at which the first line ends.
pub proof fn lemma_line_end(text: Seq<char>)
    ensures
        is_line_end(text, line_end(text)),
        forall|end: int| is_line_end(text, end) ==> end == line_end(text),
    decreases text.len(),
{
    if text.len() == 0 || text[0] == '\n' {
    } else {
        let rest = text.drop_first();
        lemma_line_end(rest);
        let end = line_end(text);
        assert forall|i: int| 0 <= i < end implies text[i] != '\n' by {
            if i > 0 {
                assert(text[i] == rest[i - 1]);
            }
        }
        assert forall|other: int| is_line_end(text, other) implies other == end by {
            assert(other > 0);
            assert forall|i: int| 0 <= i < other - 1 implies rest[i] != '\n' by {
                assert(rest[i] == text[i + 1]);
            }
            assert(is_line_end(rest, other - 1));
        }
    }
}

/// A line without the carriage return at its end, if it has one there.
pub open spec fn without_cr(line: Seq<char>) -> Seq<char> {
    if line.len() > 0 && line.last() == '\r' {
        line.drop_last()
    } else {
        line
    }
}

/// The lines of `text`, in order. A line ends with a line feed, or with a
/// carriage return and a line feed; neither belongs to the line. What follows
/// the last line feed is a line as it stands, unless it is empty: the text
/// that ends with a line feed has the same lines as the text without it.
pub open spec fn lines(text: Seq<char>) -> Seq<Seq<char>>
    decreases text.len(),
{
    let end = line_end(text);
    if text.len() == 0 {
        Seq::empty()
    } else if 0 <= end < text.len() {
        seq![without_cr(text.subrange(0, end))] + lines(
            text.subrange(end + 1, text.len() as int),
        )
    } else {
        seq![text]
    }
}

/// The lines of a text that is a first line, a line feed, and more text.
pub proof fn lemma_lines_step(text: Seq<char>, first: Seq<char>, rest: Seq<char>)
    requires
        text == first + seq!['\n'] + rest,
        !first.contains('\n'),
    ensures
        lines(text) == seq![without_cr(first)] + lines(rest),
{
    let end = first.len() as int;
    assert(is_line_end(text, end)) by {
        assert forall|i: int| 0 <= i < end implies text[i] != '\n' by {
            assert(text[i] == first[i]);
            assert(first.contains(first[i]));
        }
    }
    lemma_line_end(text);
    assert(text.subrange(0, end) =~= first);
    assert(text.subrange(end + 1, text.len() as int) =~= rest);
}

/// A text without a line feed is one line, unless it is empty.
pub proof fn lemma_lines_last(text: Seq<char>)
    requires
        !text.contains('\n'),
    ensures
        lines(text) == if text.len() == 0 {
            Seq::<Seq<char>>::empty()
        } else {
            seq![text]
        },
{
    assert(is_line_end(text, text.len() as int)) by {
        assert forall|i: int| 0 <= i < text.len() implies text[i] != '\n' by {
            assert(text.contains(text[i]));
        }
    }
    lemma_line_end(text);
}

} // verus!
