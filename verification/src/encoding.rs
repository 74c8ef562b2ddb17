//! How the bytes of a string relate to its characters.
//!
//! The executable code scans the UTF-8 bytes of a string, while the contracts
//! speak of its characters. The lemmas here carry facts from one side to the
//! other.

use vstd::prelude::*;
use vstd::utf8::*;

verus! {

/// Encoding distributes over concatenation.
pub proof fn lemma_encode_concat(a: Seq<char>, b: Seq<char>)
    ensures
        encode_utf8(a + b) == encode_utf8(a) + encode_utf8(b),
    decreases a.len(),
{
    if a.len() == 0 {
        assert(a + b =~= b);
    } else {
        lemma_encode_concat(a.drop_first(), b);
        assert((a + b).drop_first() =~= a.drop_first() + b);
    }
}

/// Character sequences with the same encoding are the same.
pub proof fn lemma_encode_injective(a: Seq<char>, b: Seq<char>)
    requires
        encode_utf8(a) == encode_utf8(b),
    ensures
        a == b,
{
    encode_utf8_decode_utf8(a);
    encode_utf8_decode_utf8(b);
}

/// An ASCII character is encoded as the one byte that holds its code.
pub proof fn lemma_encode_ascii(c: char)
    requires
        (c as u32) < 0x80,
    ensures
        encode_utf8(seq![c]) == seq![c as u8],
{
    let v = c as u32;
    assert(leading_byte_width_1(v) == v as u8) by (bit_vector)
        requires
            v < 0x80,
    ;
    assert(encode_utf8(seq![c].drop_first()) =~= Seq::<u8>::empty());
}

/// A sequence whose encoding is a single ASCII byte is the one character with
/// that code.
pub proof fn lemma_single_ascii_byte(s: Seq<char>, c: char)
    requires
        (c as u32) < 0x80,
        encode_utf8(s) == seq![c as u8],
    ensures
        s == seq![c],
{
    lemma_encode_ascii(c);
    lemma_encode_injective(s, seq![c]);
}

/// Around an ASCII character, the encoding falls into three parts: what
/// stands before it, the one byte that holds its code, and what follows.
pub proof fn lemma_encode_around_ascii(s: Seq<char>, j: int)
    requires
        0 <= j < s.len(),
        (s[j] as u32) < 0x80,
    ensures
        encode_utf8(s) == encode_utf8(s.take(j)) + seq![s[j] as u8] + encode_utf8(s.skip(j + 1)),
{
    assert(s =~= s.take(j) + seq![s[j]] + s.skip(j + 1));
    lemma_encode_concat(s.take(j), seq![s[j]]);
    lemma_encode_concat(s.take(j) + seq![s[j]], s.skip(j + 1));
    lemma_encode_ascii(s[j]);
}

/// Only the empty sequence has an empty encoding.
pub proof fn lemma_encode_empty(s: Seq<char>)
    ensures
        encode_utf8(s).len() == 0 <==> s.len() == 0,
{
    if encode_utf8(s).len() == 0 {
        lemma_encode_injective(s, Seq::<char>::empty());
    }
}

/// Where a valid encoding begins with another valid encoding, the end of that
/// prefix falls between two characters.
pub proof fn lemma_prefix_ends_at_boundary(whole: Seq<u8>, prefix: Seq<u8>)
    requires
        valid_utf8(whole),
        valid_utf8(prefix),
        prefix.len() <= whole.len(),
        whole.subrange(0, prefix.len() as int) == prefix,
    ensures
        is_char_boundary(whole, prefix.len() as int),
    decreases prefix.len(),
{
    if prefix.len() > 0 {
        // Both begin with the same character, which takes up the same bytes.
        let whole_rest = pop_first_scalar(whole);
        let prefix_rest = pop_first_scalar(prefix);
        assert(whole_rest.subrange(0, prefix_rest.len() as int) =~= prefix_rest);
        lemma_prefix_ends_at_boundary(whole_rest, prefix_rest);
    }
}

} // verus!
