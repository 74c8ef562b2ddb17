//! Comparing strings: substring containment and equality.
//!
//! The contracts speak of the characters of a string (its view); the code
//! compares the UTF-8 bytes, which is what the machine holds.

use crate::encoding::{lemma_encode_concat, lemma_encode_injective, lemma_prefix_ends_at_boundary};
use vstd::prelude::*;
use vstd::utf8::*;

verus! {

/// `needle` stands in `hay` as a contiguous run that starts at position `at`.
pub open spec fn occurs_at<T>(hay: Seq<T>, needle: Seq<T>, at: int) -> bool {
    &&& 0 <= at
    &&& at + needle.len() <= hay.len()
    &&& hay.subrange(at, at + needle.len()) == needle
}

/// `needle` stands somewhere in `hay` as a contiguous run. The empty sequence
/// stands in every sequence.
pub open spec fn contains_seq<T>(hay: Seq<T>, needle: Seq<T>) -> bool {
    exists|at: int| occurs_at(hay, needle, at)
}

/// The empty sequence is contained in every sequence.
pub proof fn lemma_contains_empty<T>(hay: Seq<T>, needle: Seq<T>)
    requires
        needle.len() == 0,
    ensures
        contains_seq(hay, needle),
{
    assert(hay.subrange(0, 0) =~= needle);
    assert(occurs_at(hay, needle, 0));
}

/// One string contains another as characters exactly when its encoding
/// contains the other's encoding as bytes.
pub proof fn lemma_contains_by_bytes(hay: Seq<char>, needle: Seq<char>)
    ensures
        contains_seq(hay, needle) <==> contains_seq(encode_utf8(hay), encode_utf8(needle)),
{
    let hay_bytes = encode_utf8(hay);
    let needle_bytes = encode_utf8(needle);
    if contains_seq(hay, needle) {
        let at = choose|at: int| occurs_at(hay, needle, at);
        let before = hay.take(at);
        let after = hay.skip(at + needle.len());
        assert(hay =~= before + needle + after);
        lemma_encode_concat(before, needle);
        lemma_encode_concat(before + needle, after);
        let p = encode_utf8(before).len() as int;
        assert(hay_bytes.subrange(p, p + needle_bytes.len()) =~= needle_bytes);
        assert(occurs_at(hay_bytes, needle_bytes, p));
    }
    if contains_seq(hay_bytes, needle_bytes) {
        if needle.len() == 0 {
            lemma_contains_empty(hay, needle);
        } else {
            let p = choose|p: int| occurs_at(hay_bytes, needle_bytes, p);
            let m = needle_bytes.len() as int;
            encode_utf8_valid_utf8(hay);
            encode_utf8_valid_utf8(needle);
            encode_utf8_first_scalar(needle);
            // The match starts between two characters of `hay` ...
            is_char_boundary_iff_not_is_continuation_byte(hay_bytes, p);
            valid_utf8_split(hay_bytes, p);
            let head = hay_bytes.subrange(0, p);
            let tail = hay_bytes.subrange(p, hay_bytes.len() as int);
            // ... and ends between two characters.
            assert(tail.subrange(0, m) =~= needle_bytes);
            lemma_prefix_ends_at_boundary(tail, needle_bytes);
            valid_utf8_split(tail, m);
            let rest = tail.subrange(m, tail.len() as int);
            let before = decode_utf8(head);
            let after = decode_utf8(rest);
            decode_utf8_encode_utf8(head);
            decode_utf8_encode_utf8(rest);
            lemma_encode_concat(before, needle);
            lemma_encode_concat(before + needle, after);
            assert(hay_bytes =~= head + needle_bytes + rest);
            lemma_encode_injective(hay, before + needle + after);
            let at = before.len() as int;
            assert(hay.subrange(at, at + needle.len()) =~= needle);
            assert(occurs_at(hay, needle, at));
        }
    }
}

/// Tells whether `needle` stands in `hay` at offset `at`.
fn bytes_occur_at(hay: &[u8], needle: &[u8], at: usize) -> (found: bool)
    requires
        at + needle.len() <= hay.len(),
    ensures
        found == occurs_at(hay@, needle@, at as int),
{
    let mut k: usize = 0;
    while k < needle.len()
        invariant
            k <= needle.len(),
            at + needle.len() <= hay.len(),
            forall|j: int| 0 <= j < k ==> hay@[at + j] == needle@[j],
        decreases needle.len() - k,
    {
        if hay[at + k] != needle[k] {
            return false;
        }
        k += 1;
    }
    assert(hay@.subrange(at as int, at + needle@.len()) =~= needle@);
    true
}

/// Tells whether `needle` stands somewhere in `hay`.
fn bytes_contain(hay: &[u8], needle: &[u8]) -> (found: bool)
    ensures
        found == contains_seq(hay@, needle@),
{
    if needle.len() > hay.len() {
        return false;
    }
    let last: usize = hay.len() - needle.len();
    let mut at: usize = 0;
    loop
        invariant
            at <= last,
            last == hay.len() - needle.len(),
            forall|p: int| 0 <= p < at ==> !occurs_at(hay@, needle@, p),
        decreases last - at,
    {
        if bytes_occur_at(hay, needle, at) {
            return true;
        }
        if at == last {
            return false;
        }
        at += 1;
    }
}

/// Tells whether `needle` is a substring of `hay`: whether the characters of
/// `needle` stand in `hay` as a contiguous run. The comparison is exact (case
/// matters), and the empty string is a substring of every string.
pub fn contains(hay: &str, needle: &str) -> (found: bool)
    ensures
        found == contains_seq(hay@, needle@),
{
    proof {
        lemma_contains_by_bytes(hay@, needle@);
    }
    bytes_contain(hay.as_bytes(), needle.as_bytes())
}

/// Tells whether two strings hold the same characters.
pub fn same_text(a: &str, b: &str) -> (same: bool)
    ensures
        same == (a@ == b@),
{
    let a_bytes = a.as_bytes();
    let b_bytes = b.as_bytes();
    if a_bytes.len() != b_bytes.len() {
        return false;
    }
    let same = bytes_occur_at(a_bytes, b_bytes, 0);
    proof {
        assert(a_bytes@.subrange(0, b_bytes@.len() as int) =~= a_bytes@);
        if same {
            lemma_encode_injective(a@, b@);
        }
    }
    same
}

} // verus!
