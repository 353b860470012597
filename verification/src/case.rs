//! Letter case: the lowercase form of a text, taken character by character.

use vstd::prelude::*;
use vstd::utf8::is_ascii_chars;
use crate::text::{contains, occurs_at};

verus! {

/// The small letter for a capital ASCII letter; any other character itself.
pub open spec fn ascii_lower(c: char) -> char {
    if 'A' <= c <= 'Z' {
        ((c as u8 + 32) as u8) as char
    } else {
        c
    }
}

/// The capital letter for a small ASCII letter; any other character itself.
pub open spec fn ascii_upper(c: char) -> char {
    if 'a' <= c <= 'z' {
        ((c as u8 - 32) as u8) as char
    } else {
        c
    }
}

/// `text` with each small ASCII letter replaced by its capital letter.
pub open spec fn ascii_uppercase(text: Seq<char>) -> Seq<char> {
    text.map_values(|c: char| ascii_upper(c))
}

/// The characters that the standard library's `char::to_lowercase` yields
/// for `c`: the lowercase mapping of the Unicode case tables, which depends
/// on the character alone.
pub uninterp spec fn char_lowercase(c: char) -> Seq<char>;

/// Calls the standard library's `char::to_lowercase` and collects what it
/// yields. Taken on trust: the result depends on the character alone, and
/// for an ASCII character it is the one character that `ascii_lower` gives.
#[verifier::external_body]
fn lower_char(c: char) -> (lowered: Vec<char>)
    ensures
        lowered@ == char_lowercase(c),
        c <= '\u{7f}' ==> lowered@ == seq![ascii_lower(c)],
{
    c.to_lowercase().collect()
}

/// The one character that stands for `c` in lowercase: the first of its
/// lowercase mapping.
pub open spec fn simple_lower(c: char) -> char {
    if c <= '\u{7f}' {
        ascii_lower(c)
    } else if char_lowercase(c).len() > 0 {
        char_lowercase(c)[0]
    } else {
        c
    }
}

/// The lowercase form of `text`: each character replaced by its lowercase
/// character, whatever stands around it.
pub open spec fn lowercase(text: Seq<char>) -> Seq<char> {
    text.map_values(|c: char| simple_lower(c))
}

/// The lowercase character for `c`.
pub fn lower(c: char) -> (lowered: char)
    ensures
        lowered == simple_lower(c),
{
    let mapping: Vec<char> = lower_char(c);
    if mapping.len() > 0 {
        mapping[0]
    } else {
        c
    }
}

/// The lowercase form of `text`, character by character.
pub fn lowercase_chars(text: &str) -> (lowered: Vec<char>)
    ensures
        lowered@ == lowercase(text@),
{
    let mut lowered: Vec<char> = Vec::new();
    for c in iter: text.chars()
        invariant
            iter.seq() == text@,
            lowered@ == lowercase(text@.subrange(0, iter.index() as int)),
    {
        lowered.push(lower(c));
        assert(lowered@ =~= lowercase(text@.subrange(0, iter.index() + 1)));
    }
    assert(text@.subrange(0, text@.len() as int) =~= text@);
    lowered
}

/// A text that holds another holds it in lowercase as well, at the same
/// place.
pub proof fn lemma_lowering_keeps_parts(line: Seq<char>, query: Seq<char>)
    requires
        contains(line, query),
    ensures
        contains(lowercase(line), lowercase(query)),
{
    let at = choose|at: int| occurs_at(line, query, at);
    assert(lowercase(line).subrange(at, at + query.len()) =~= lowercase(
        line.subrange(at, at + query.len()),
    ));
    assert(occurs_at(lowercase(line), lowercase(query), at));
}

/// Small and capital ASCII letters have the same lowercase character.
pub proof fn lemma_lower_of_upper(c: char)
    requires
        c <= '\u{7f}',
    ensures
        ascii_upper(c) <= '\u{7f}',
        simple_lower(ascii_upper(c)) == simple_lower(c),
{
}

/// Turning the letters of an ASCII text into capitals does not change its
/// lowercase form.
pub proof fn lemma_lowercase_of_uppercase(text: Seq<char>)
    requires
        is_ascii_chars(text),
    ensures
        is_ascii_chars(ascii_uppercase(text)),
        lowercase(ascii_uppercase(text)) == lowercase(text),
{
    let upper = ascii_uppercase(text);
    assert forall|i: int| 0 <= i < upper.len() implies '\0' <= #[trigger] upper[i]
        <= '\u{7f}' by {
        lemma_lower_of_upper(text[i]);
    }
    assert forall|i: int| 0 <= i < text.len() implies lowercase(upper)[i] == lowercase(text)[i] by {
        lemma_lower_of_upper(text[i]);
    }
    assert(lowercase(upper) =~= lowercase(text));
}

} // verus!
