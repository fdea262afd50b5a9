//! Facts about the UTF-8 encoding of texts that the other modules rely on.
use vstd::prelude::*;
use vstd::utf8::{
    char_u32_cast, encode_scalar, encode_utf8, encode_utf8_decode_utf8, has_width_1_encoding,
    has_width_2_encoding, has_width_3_encoding,
};

verus! {

/// Every character is encoded by at least one byte.
pub proof fn lemma_encoded_len_at_least(text: Seq<char>)
    ensures
        encode_utf8(text).len() >= text.len(),
    decreases text.len(),
{
    if text.len() > 0 {
        lemma_encoded_len_at_least(text.drop_first());
    }
}

/// The encoding of two texts in a row is the encoding of the first followed
/// by that of the second.
pub proof fn lemma_encode_concat(first: Seq<char>, second: Seq<char>)
    ensures
        encode_utf8(first + second) == encode_utf8(first) + encode_utf8(second),
    decreases first.len(),
{
    if first.len() > 0 {
        assert((first + second).drop_first() =~= first.drop_first() + second);
        lemma_encode_concat(first.drop_first(), second);
    }
}

proof fn lemma_high_bit(low: u8)
    by (bit_vector)
    ensures
        0x80u8 | low >= 0x80,
        0xC0u8 | low >= 0x80,
        0xE0u8 | low >= 0x80,
        0xF0u8 | low >= 0x80,
{
}

/// An ASCII character is encoded as one byte, itself; every byte of the
/// encoding of any other character has its high bit set.
pub proof fn lemma_encoded_scalar_bytes(c: char)
    ensures
        (c as u32) < 0x80 ==> encode_scalar(c as u32) == seq![(c as u32) as u8],
        (c as u32) >= 0x80 ==> forall|i: int|
            0 <= i < encode_scalar(c as u32).len() ==> #[trigger] encode_scalar(c as u32)[i]
                >= 0x80,
        1 <= encode_scalar(c as u32).len() <= 4,
{
    let scalar = c as u32;
    if has_width_1_encoding(scalar) {
        assert((scalar & 0x7F) as u8 == scalar as u8) by (bit_vector)
            requires
                scalar <= 0x7F,
        ;
    } else if has_width_2_encoding(scalar) {
        lemma_high_bit(((scalar >> 6) & 0x1F) as u8);
        lemma_high_bit((scalar & 0x3F) as u8);
    } else if has_width_3_encoding(scalar) {
        lemma_high_bit(((scalar >> 12) & 0x0F) as u8);
        lemma_high_bit(((scalar >> 6) & 0x3F) as u8);
        lemma_high_bit((scalar & 0x3F) as u8);
    } else {
        lemma_high_bit(((scalar >> 18) & 0x7) as u8);
        lemma_high_bit(((scalar >> 12) & 0x3F) as u8);
        lemma_high_bit(((scalar >> 6) & 0x3F) as u8);
        lemma_high_bit((scalar & 0x3F) as u8);
    }
}

/// The byte of an ASCII character occurs in the encoding of a text only
/// where the text has that character: a text without the character has an
/// encoding without the byte.
pub proof fn lemma_ascii_byte_needs_its_char(text: Seq<char>, needle: char)
    requires
        (needle as u32) < 0x80,
        forall|i: int| 0 <= i < text.len() ==> text[i] != needle,
    ensures
        forall|j: int|
            0 <= j < encode_utf8(text).len() ==> encode_utf8(text)[j] != (needle as u32) as u8,
    decreases text.len(),
{
    if text.len() > 0 {
        let head = encode_scalar(text[0] as u32);
        let tail = encode_utf8(text.drop_first());
        lemma_encoded_scalar_bytes(text[0]);
        lemma_ascii_byte_needs_its_char(text.drop_first(), needle);
        char_u32_cast(text[0], text[0] as u32);
        assert forall|j: int| 0 <= j < encode_utf8(text).len() implies encode_utf8(text)[j] != (
        needle as u32) as u8 by {
            if j < head.len() {
                assert(encode_utf8(text)[j] == head[j]);
            } else {
                assert(encode_utf8(text)[j] == tail[j - head.len()]);
            }
        }
    }
}

/// Two texts are the same exactly when their UTF-8 encodings are.
pub proof fn lemma_encoding_is_injective(first: Seq<char>, second: Seq<char>)
    ensures
        encode_utf8(first) == encode_utf8(second) <==> first == second,
{
    encode_utf8_decode_utf8(first);
    encode_utf8_decode_utf8(second);
}

/// Tells whether two texts are the same.
pub fn same_text(first: &str, second: &str) -> (same: bool)
    ensures
        same == (first@ == second@),
{
    let left = first.as_bytes();
    let right = second.as_bytes();
    proof {
        lemma_encoding_is_injective(first@, second@);
    }
    if left.len() != right.len() {
        return false;
    }
    let mut at: usize = 0;
    while at < left.len()
        invariant
            at <= left.len() == right.len(),
            left@ == encode_utf8(first@),
            right@ == encode_utf8(second@),
            first@ == second@ ==> encode_utf8(first@) == encode_utf8(second@),
            forall|j: int| 0 <= j < at ==> left@[j] == right@[j],
        decreases left.len() - at,
    {
        if left[at] != right[at] {
            return false;
        }
        at = at + 1;
    }
    assert(left@ =~= right@);
    true
}

} // verus!
