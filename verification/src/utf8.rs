//! How the characters of a text relate to the bytes of its UTF-8 encoding.
//!
//! The executable code walks over bytes; the contracts speak of characters.
//! The lemmas here carry a fact found on one side over to the other.

use vstd::prelude::*;
use vstd::utf8::*;
use crate::text::{contains, occurs_at, lemma_middle_occurs, lemma_occurrence_splits};

verus! {

/// The encoding of two texts laid end to end is their encodings laid end to
/// end.
pub proof fn lemma_encode_concat(a: Seq<char>, b: Seq<char>)
    ensures
        encode_utf8(a + b) == encode_utf8(a) + encode_utf8(b),
    decreases a.len(),
{
    if a.len() == 0 {
        assert(a + b =~= b);
        assert(encode_utf8(a) + encode_utf8(b) =~= encode_utf8(b));
    } else {
        lemma_encode_concat(a.drop_first(), b);
        assert((a + b).drop_first() =~= a.drop_first() + b);
        assert(encode_utf8(a + b) =~= encode_utf8(a) + encode_utf8(b));
    }
}

/// Two texts with the same encoding are the same text.
pub proof fn lemma_encode_injective(a: Seq<char>, b: Seq<char>)
    requires
        encode_utf8(a) == encode_utf8(b),
    ensures
        a == b,
{
    encode_utf8_decode_utf8(a);
    encode_utf8_decode_utf8(b);
}

/// An ASCII character is encoded as the one byte of its code.
pub proof fn lemma_encode_ascii_char(c: char)
    requires
        c <= '\u{7f}',
    ensures
        encode_utf8(seq![c]) == seq![c as u8],
{
    let one = seq![c];
    assert(is_ascii_chars(one));
    is_ascii_chars_encode_utf8(one);
    assert(one[0] as u8 == encode_utf8(one)[0]);
    assert(encode_utf8(one) =~= seq![c as u8]);
}

/// A text whose encoding is cut in two, each part the encoding of a text, is
/// those two texts laid end to end.
pub proof fn lemma_split_text(whole: Seq<char>, head: Seq<char>, tail: Seq<char>, mid: int)
    requires
        0 <= mid <= encode_utf8(whole).len(),
        encode_utf8(head) == encode_utf8(whole).subrange(0, mid),
        encode_utf8(tail) == encode_utf8(whole).subrange(mid, encode_utf8(whole).len() as int),
    ensures
        whole == head + tail,
{
    let bytes = encode_utf8(whole);
    lemma_encode_concat(head, tail);
    assert(bytes.subrange(0, mid) + bytes.subrange(mid, bytes.len() as int) =~= bytes);
    lemma_encode_injective(whole, head + tail);
}

/// A text encoded as a single ASCII byte is the one character with that code.
pub proof fn lemma_single_ascii_byte(text: Seq<char>, byte: u8)
    requires
        byte <= 0x7f,
        encode_utf8(text) == seq![byte],
    ensures
        text == seq![byte as char],
{
    lemma_encode_ascii_char(byte as char);
    assert(seq![(byte as char) as u8] =~= seq![byte]);
    lemma_encode_injective(text, seq![byte as char]);
}

/// Every byte below 0x80 in an encoding starts a character.
pub proof fn lemma_ascii_byte_starts_char(bytes: Seq<u8>, at: int)
    requires
        valid_utf8(bytes),
        0 <= at < bytes.len(),
        bytes[at] <= 0x7f,
    ensures
        is_char_boundary(bytes, at),
{
    is_char_boundary_iff_not_is_continuation_byte(bytes, at);
}

/// In an encoding that begins with a byte below 0x80, the next character
/// starts right behind that byte.
pub proof fn lemma_ascii_byte_ends_char(bytes: Seq<u8>)
    requires
        valid_utf8(bytes),
        bytes.len() > 0,
        bytes[0] <= 0x7f,
    ensures
        is_char_boundary(bytes, 1),
{
    reveal_with_fuel(is_char_boundary, 2);
    assert(length_of_first_scalar(bytes) == 1);
    assert(valid_utf8(pop_first_scalar(bytes)));
}

/// An encoding that another encoding begins with ends on a character
/// boundary of that other one.
pub proof fn lemma_prefix_ends_on_boundary(bytes: Seq<u8>, prefix: Seq<u8>)
    requires
        valid_utf8(bytes),
        valid_utf8(prefix),
        prefix.len() <= bytes.len(),
        bytes.subrange(0, prefix.len() as int) == prefix,
    ensures
        is_char_boundary(bytes, prefix.len() as int),
    decreases prefix.len(),
{
    if prefix.len() > 0 {
        let width = length_of_first_scalar(prefix);
        assert forall|i: int| 0 <= i < prefix.len() implies bytes[i] == #[trigger] prefix[i] by {
            assert(bytes.subrange(0, prefix.len() as int)[i] == bytes[i]);
        }
        assert(valid_first_scalar(prefix));
        assert(width <= prefix.len());
        assert(bytes[0] == prefix[0]);
        assert(length_of_first_scalar(bytes) == width);
        let bytes_rest = pop_first_scalar(bytes);
        let prefix_rest = pop_first_scalar(prefix);
        assert(bytes_rest.subrange(0, prefix_rest.len() as int) =~= prefix_rest);
        lemma_prefix_ends_on_boundary(bytes_rest, prefix_rest);
        assert(prefix_rest.len() == prefix.len() - width);
    }
}

/// Looking for a text among the characters of another and looking for its
/// encoding among the bytes of the other's encoding come to the same.
pub proof fn lemma_contains_by_bytes(hay: Seq<char>, needle: Seq<char>)
    ensures
        contains(hay, needle) <==> contains(encode_utf8(hay), encode_utf8(needle)),
{
    let hay_bytes = encode_utf8(hay);
    let needle_bytes = encode_utf8(needle);
    encode_utf8_valid_utf8(hay);
    encode_utf8_valid_utf8(needle);
    if contains(hay, needle) {
        let at = choose|at: int| occurs_at(hay, needle, at);
        let before = hay.subrange(0, at);
        let after = hay.subrange(at + needle.len(), hay.len() as int);
        lemma_occurrence_splits(hay, needle, at);
        lemma_encode_concat(before, needle);
        lemma_encode_concat(before + needle, after);
        lemma_middle_occurs(encode_utf8(before), needle_bytes, encode_utf8(after));
    }
    if contains(hay_bytes, needle_bytes) {
        let at = choose|at: int| occurs_at(hay_bytes, needle_bytes, at);
        let width = needle_bytes.len() as int;
        if width == 0 {
            assert(encode_utf8(Seq::<char>::empty()) =~= needle_bytes);
            lemma_encode_injective(needle, Seq::<char>::empty());
            assert(hay.subrange(0, 0) =~= needle);
            assert(occurs_at(hay, needle, 0));
        } else {
            assert(hay_bytes.subrange(at, at + width)[0] == needle_bytes[0]);
            assert(hay_bytes[at] == needle_bytes[0]);
            is_char_boundary_iff_not_is_continuation_byte(needle_bytes, 0);
            is_char_boundary_iff_not_is_continuation_byte(hay_bytes, at);
            assert(is_char_boundary(hay_bytes, at));
            valid_utf8_split(hay_bytes, at);
            let head = hay_bytes.subrange(0, at);
            let tail = hay_bytes.subrange(at, hay_bytes.len() as int);
            assert(tail.subrange(0, width) =~= needle_bytes);
            lemma_prefix_ends_on_boundary(tail, needle_bytes);
            valid_utf8_split(tail, width);
            let rest = tail.subrange(width, tail.len() as int);
            let before = decode_utf8(head);
            let after = decode_utf8(rest);
            decode_utf8_encode_utf8(head);
            decode_utf8_encode_utf8(rest);
            lemma_encode_concat(before, needle);
            lemma_encode_concat(before + needle, after);
            assert(head + needle_bytes + rest =~= hay_bytes);
            lemma_encode_injective(hay, before + needle + after);
            lemma_middle_occurs(before, needle, after);
        }
    }
}

/// An ASCII character stands in a text exactly if its code stands among the
/// bytes of the text's encoding.
pub proof fn lemma_ascii_char_by_byte(text: Seq<char>, c: char)
    requires
        c <= '\u{7f}',
    ensures
        text.contains(c) <==> encode_utf8(text).contains(c as u8),
{
    let bytes = encode_utf8(text);
    let one = seq![c];
    let code = seq![c as u8];
    lemma_contains_by_bytes(text, one);
    lemma_encode_ascii_char(c);
    if text.contains(c) {
        let i = choose|i: int| 0 <= i < text.len() && text[i] == c;
        assert(text.subrange(i, i + 1) =~= one);
        assert(occurs_at(text, one, i));
        let at = choose|at: int| occurs_at(bytes, code, at);
        assert(bytes.subrange(at, at + 1)[0] == c as u8);
        assert(bytes[at] == c as u8);
    }
    if bytes.contains(c as u8) {
        let at = choose|at: int| 0 <= at < bytes.len() && bytes[at] == c as u8;
        assert(bytes.subrange(at, at + 1) =~= code);
        assert(occurs_at(bytes, code, at));
        let i = choose|i: int| occurs_at(text, one, i);
        assert(text.subrange(i, i + 1)[0] == c);
        assert(text[i] == c);
    }
}

} // verus!
