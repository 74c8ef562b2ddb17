//! Splitting a text into lines.
//!
//! A line ends at a line feed, or at the end of the text. The line feed is not
//! part of the line, and neither is a carriage return that stands directly
//! before it. A text that ends with a line feed has no empty line after it.

use crate::encoding::{
    lemma_encode_around_ascii, lemma_encode_concat, lemma_encode_empty, lemma_encode_injective,
    lemma_single_ascii_byte,
};
use vstd::prelude::*;
use vstd::string::StringSliceAdditionalSpecFns;
use vstd::utf8::*;

verus! {

/// The byte that encodes a line feed.
const LINE_FEED: u8 = 0x0A;

/// The byte that encodes a carriage return.
const CARRIAGE_RETURN: u8 = 0x0D;

/// How many characters stand before the first line feed of `s`; the length of
/// `s` where it holds no line feed.
pub open spec fn first_newline(s: Seq<char>) -> nat
    decreases s.len(),
{
    if s.len() == 0 || s[0] == '\n' {
        0
    } else {
        1 + first_newline(s.drop_first())
    }
}

/// `line` without the carriage return at its end, if it has one.
pub open spec fn strip_carriage_return(line: Seq<char>) -> Seq<char> {
    if line.len() > 0 && line.last() == '\r' {
        line.drop_last()
    } else {
        line
    }
}

/// The first line of `s`: what stands before the first line feed, less a
/// carriage return at its end; all of `s` where it holds no line feed.
pub open spec fn first_line(s: Seq<char>) -> Seq<char> {
    let k = first_newline(s) as int;
    if k < s.len() {
        strip_carriage_return(s.take(k))
    } else {
        s
    }
}

/// What follows the first line of `s` and its line feed.
pub open spec fn after_first_line(s: Seq<char>) -> Seq<char> {
    let k = first_newline(s) as int;
    if k < s.len() {
        s.skip(k + 1)
    } else {
        Seq::empty()
    }
}

/// The lines of `s`, in order. The empty text has no lines.
pub open spec fn lines_of(s: Seq<char>) -> Seq<Seq<char>>
    decreases s.len(),
{
    if s.len() == 0 {
        Seq::empty()
    } else {
        seq![first_line(s)] + lines_of(after_first_line(s))
    }
}

/// `first_newline` finds the first line feed: it lies within the text, no
/// line feed stands before it, and one stands at it unless it is the end.
pub proof fn lemma_first_newline(s: Seq<char>)
    ensures
        first_newline(s) <= s.len(),
        forall|j: int| 0 <= j < first_newline(s) ==> s[j] != '\n',
        first_newline(s) < s.len() ==> s[first_newline(s) as int] == '\n',
    decreases s.len(),
{
    if s.len() != 0 && s[0] != '\n' {
        let rest = s.drop_first();
        lemma_first_newline(rest);
        assert forall|j: int| 0 <= j < first_newline(s) implies s[j] != '\n' by {
            if j > 0 {
                assert(s[j] == rest[j - 1]);
            }
        }
        assert(first_newline(s) < s.len() ==> s[first_newline(s) as int] == rest[first_newline(
            rest,
        ) as int]);
    }
}

/// A position that no line feed precedes, and that holds one unless it is the
/// end of the text, is the one that `first_newline` gives.
pub proof fn lemma_first_newline_unique(s: Seq<char>, k: int)
    requires
        0 <= k <= s.len(),
        forall|j: int| 0 <= j < k ==> s[j] != '\n',
        k < s.len() ==> s[k] == '\n',
    ensures
        first_newline(s) == k,
{
    lemma_first_newline(s);
}

/// Splits a string between two characters, at the byte offset `mid`.
fn split_between<'a>(s: &'a str, mid: usize) -> (parts: (&'a str, &'a str))
    requires
        is_char_boundary(s.spec_bytes(), mid as int),
    ensures
        s@ == parts.0@ + parts.1@,
        parts.0.spec_bytes() == s.spec_bytes().subrange(0, mid as int),
        parts.1.spec_bytes() == s.spec_bytes().subrange(mid as int, s.spec_bytes().len() as int),
{
    let parts = s.split_at(mid);
    proof {
        encode_utf8_valid_utf8(s@);
        lemma_encode_concat(parts.0@, parts.1@);
        assert(parts.0.spec_bytes() + parts.1.spec_bytes() =~= s.spec_bytes());
        lemma_encode_injective(s@, parts.0@ + parts.1@);
    }
    parts
}

/// A text whose encoding holds no line-feed byte holds no line feed.
proof fn lemma_no_feed_byte(s: Seq<char>)
    requires
        forall|p: int| 0 <= p < encode_utf8(s).len() ==> encode_utf8(s)[p] != LINE_FEED,
    ensures
        forall|j: int| 0 <= j < s.len() ==> s[j] != '\n',
{
    assert forall|j: int| 0 <= j < s.len() implies s[j] != '\n' by {
        if s[j] == '\n' {
            lemma_encode_around_ascii(s, j);
            let p = encode_utf8(s.take(j)).len() as int;
            assert(encode_utf8(s)[p] == LINE_FEED);
        }
    }
}

/// Splits `text` into its first line and what follows that line. The line
/// comes without the line feed that ends it and without a carriage return
/// directly before that line feed. A text without a line feed is its own
/// first line, and nothing follows it.
pub fn split_first_line<'a>(text: &'a str) -> (parts: (&'a str, &'a str))
    ensures
        parts.0@ == first_line(text@),
        parts.1@ == after_first_line(text@),
{
    let bytes = text.as_bytes();
    let n: usize = bytes.len();
    let mut i: usize = 0;
    while i < n && bytes[i] != LINE_FEED
        invariant
            i <= n,
            n == bytes.len(),
            forall|p: int| 0 <= p < i ==> bytes@[p] != LINE_FEED,
        decreases n - i,
    {
        i += 1;
    }
    proof {
        encode_utf8_valid_utf8(text@);
    }
    if i == n {
        proof {
            is_char_boundary_start_end_of_seq(bytes@);
        }
        let (line, rest) = split_between(text, n);
        proof {
            lemma_encode_empty(rest@);
            lemma_no_feed_byte(text@);
            lemma_first_newline_unique(text@, text@.len() as int);
        }
        (line, rest)
    } else {
        proof {
            is_char_boundary_iff_not_is_continuation_byte(bytes@, i as int);
        }
        let (head, tail) = split_between(text, i);
        proof {
            encode_utf8_valid_utf8(tail@);
            assert(is_char_boundary(pop_first_scalar(tail.spec_bytes()), 0));
        }
        let (feed, rest) = split_between(tail, 1);
        proof {
            assert(feed.spec_bytes() =~= seq!['\n' as u8]);
            lemma_single_ascii_byte(feed@, '\n');
            lemma_no_feed_byte(head@);
            assert(text@ =~= head@ + seq!['\n'] + rest@);
            lemma_first_newline_unique(text@, head@.len() as int);
        }
        if i > 0 && bytes[i - 1] == CARRIAGE_RETURN {
            proof {
                encode_utf8_valid_utf8(head@);
                is_char_boundary_iff_not_is_continuation_byte(head.spec_bytes(), i - 1);
            }
            let (body, cr) = split_between(head, i - 1);
            proof {
                assert(cr.spec_bytes() =~= seq!['\r' as u8]);
                lemma_single_ascii_byte(cr@, '\r');
            }
            (body, rest)
        } else {
            proof {
                if head@.len() > 0 && head@.last() == '\r' {
                    let last = head@.len() - 1;
                    lemma_encode_around_ascii(head@, last);
                    lemma_encode_empty(head@.skip(last + 1));
                    assert(head.spec_bytes()[i - 1] == CARRIAGE_RETURN);
                }
            }
            (head, rest)
        }
    }
}

} // verus!
