//! Cutting a text into its lines.

use vstd::prelude::*;
use vstd::string::StringSliceAdditionalSpecFns;
use vstd::utf8::{encode_utf8, encode_utf8_valid_utf8};
use crate::text::{lemma_lines_last, lemma_lines_step, lines, without_cr};
use crate::utf8::{
    lemma_ascii_byte_ends_char,
    lemma_ascii_byte_starts_char,
    lemma_ascii_char_by_byte,
    lemma_encode_ascii_char,
    lemma_encode_concat,
    lemma_encode_injective,
    lemma_single_ascii_byte,
    lemma_split_text,
};

verus! {

/// The code of the line feed.
pub const LINE_FEED: u8 = 0x0A;

/// The code of the carriage return.
pub const CARRIAGE_RETURN: u8 = 0x0D;

/// The index of the first line feed among `bytes`, or their number where
/// there is none.
fn find_line_feed(bytes: &[u8]) -> (at: usize)
    ensures
        at <= bytes@.len(),
        forall|i: int| 0 <= i < at ==> bytes@[i] != LINE_FEED,
        at < bytes@.len() ==> bytes@[at as int] == LINE_FEED,
{
    let total: usize = bytes.len();
    let mut at: usize = 0;
    while at < total && bytes[at] != LINE_FEED
        invariant
            total == bytes@.len(),
            at <= total,
            forall|i: int| 0 <= i < at ==> bytes@[i] != LINE_FEED,
        decreases total - at,
    {
        at += 1;
    }
    at
}

/// The line without the carriage return at its end, if it has one there.
pub fn strip_carriage_return<'a>(line: &'a str) -> (stripped: &'a str)
    ensures
        stripped@ == without_cr(line@),
{
    let bytes: &[u8] = line.as_bytes();
    let total: usize = bytes.len();
    proof {
        encode_utf8_valid_utf8(line@);
    }
    if total > 0 && bytes[total - 1] == CARRIAGE_RETURN {
        proof {
            lemma_ascii_byte_starts_char(bytes@, total - 1);
        }
        let (body, end) = line.split_at(total - 1);
        proof {
            assert(end.spec_bytes() =~= seq![CARRIAGE_RETURN]);
            lemma_single_ascii_byte(end@, CARRIAGE_RETURN);
            lemma_split_text(line@, body@, end@, total - 1);
            assert(line@.drop_last() =~= body@);
        }
        body
    } else {
        proof {
            if line@.len() > 0 && line@.last() == '\r' {
                let body = line@.drop_last();
                assert(line@ =~= body + seq!['\r']);
                lemma_encode_concat(body, seq!['\r']);
                lemma_encode_ascii_char('\r');
                assert(bytes@[total - 1] == CARRIAGE_RETURN);
            }
        }
        line
    }
}

/// The lines of `contents`, in order, each a slice of `contents`.
pub fn split_lines<'a>(contents: &'a str) -> (out: Vec<&'a str>)
    ensures
        out.deep_view() == lines(contents@),
{
    let mut out: Vec<&'a str> = Vec::new();
    let mut rest: &'a str = contents;
    assert(out.deep_view() =~= Seq::<Seq<char>>::empty());
    loop
        invariant
            out.deep_view() + lines(rest@) == lines(contents@),
        decreases rest@.len(),
    {
        let bytes: &[u8] = rest.as_bytes();
        let at: usize = find_line_feed(bytes);
        if at == bytes.len() {
            proof {
                lemma_ascii_char_by_byte(rest@, '\n');
                lemma_lines_last(rest@);
            }
            if at > 0 {
                let ghost before = out.deep_view();
                out.push(rest);
                assert(out.deep_view() =~= before + seq![rest@]);
            } else {
                assert(encode_utf8(Seq::<char>::empty()) =~= bytes@);
                assert(rest@.len() == 0) by {
                    lemma_encode_injective(rest@, Seq::<char>::empty());
                }
            }
            assert(out.deep_view() =~= lines(contents@));
            return out;
        }
        proof {
            encode_utf8_valid_utf8(rest@);
            lemma_ascii_byte_starts_char(bytes@, at as int);
        }
        let (head, tail) = rest.split_at(at);
        proof {
            lemma_split_text(rest@, head@, tail@, at as int);
            encode_utf8_valid_utf8(tail@);
            assert(tail.spec_bytes()[0] == bytes@[at as int]);
            lemma_ascii_byte_ends_char(tail.spec_bytes());
        }
        let (feed, after) = tail.split_at(1);
        let line: &'a str = strip_carriage_return(head);
        proof {
            assert(feed.spec_bytes() =~= seq![LINE_FEED]);
            lemma_single_ascii_byte(feed@, LINE_FEED);
            lemma_split_text(tail@, feed@, after@, 1);
            lemma_ascii_char_by_byte(head@, '\n');
            assert(!head.spec_bytes().contains(LINE_FEED));
            assert(rest@ =~= head@ + seq!['\n'] + after@);
            lemma_lines_step(rest@, head@, after@);
        }
        let ghost before = out.deep_view();
        out.push(line);
        assert(out.deep_view() =~= before + seq![line@]);
        assert(out.deep_view() + lines(after@) =~= before + (seq![line@] + lines(after@)));
        rest = after;
    }
}

} // verus!
