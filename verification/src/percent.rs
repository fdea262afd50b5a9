//! Percent-decoding of command names.
//!
//! The decoding itself is done by the `percent-encoding` crate; this module
//! states what it computes.
use vstd::prelude::*;
use vstd::utf8::{decode_utf8, encode_utf8, valid_utf8};

verus! {

/// The value of an ASCII hexadecimal digit, of either case.
pub open spec fn hex_value(byte: u8) -> Option<u8> {
    if 0x30 <= byte <= 0x39 {
        Some((byte - 0x30) as u8)
    } else if 0x41 <= byte <= 0x46 {
        Some((byte - 0x41 + 10) as u8)
    } else if 0x61 <= byte <= 0x66 {
        Some((byte - 0x61 + 10) as u8)
    } else {
        None
    }
}

/// True when the bytes begin with `%` and two hexadecimal digits.
pub open spec fn starts_with_escape(bytes: Seq<u8>) -> bool {
    &&& bytes.len() >= 3
    &&& bytes[0] == 0x25
    &&& hex_value(bytes[1]) is Some
    &&& hex_value(bytes[2]) is Some
}

/// The byte that the escape at the start of `bytes` stands for.
pub open spec fn escape_value(bytes: Seq<u8>) -> u8
    recommends
        starts_with_escape(bytes),
{
    (hex_value(bytes[1])->0 * 16 + hex_value(bytes[2])->0) as u8
}

/// Percent-decoding of a byte string: every `%` that is followed by two
/// hexadecimal digits is replaced, together with the digits, by the byte they
/// denote; every other byte stands for itself.
pub open spec fn percent_decoded(bytes: Seq<u8>) -> Seq<u8>
    decreases bytes.len(),
{
    if bytes.len() == 0 {
        bytes
    } else if starts_with_escape(bytes) {
        seq![escape_value(bytes)] + percent_decoded(bytes.skip(3))
    } else {
        seq![bytes[0]] + percent_decoded(bytes.skip(1))
    }
}

/// Percent-decoding of a text, read as UTF-8: the decoded text, or `None`
/// where the decoded bytes are not well-formed UTF-8.
pub open spec fn decoded_text(text: Seq<char>) -> Option<Seq<char>> {
    let bytes = percent_decoded(encode_utf8(text));
    if valid_utf8(bytes) {
        Some(decode_utf8(bytes))
    } else {
        None
    }
}

/// True when an escape, `%` and two hexadecimal digits, stands somewhere in
/// the bytes.
pub open spec fn holds_escape(bytes: Seq<u8>) -> bool {
    exists|at: int| 0 <= at <= bytes.len() && #[trigger] starts_with_escape(bytes.skip(at))
}

/// Decoding never lengthens.
pub proof fn lemma_decoded_is_no_longer(bytes: Seq<u8>)
    ensures
        percent_decoded(bytes).len() <= bytes.len(),
    decreases bytes.len(),
{
    if bytes.len() == 0 {
    } else if starts_with_escape(bytes) {
        lemma_decoded_is_no_longer(bytes.skip(3));
    } else {
        lemma_decoded_is_no_longer(bytes.skip(1));
    }
}

/// Decoding changes the bytes exactly where they hold an escape, and then it
/// shortens them.
pub proof fn lemma_decoding_changes_escapes_only(bytes: Seq<u8>)
    ensures
        holds_escape(bytes) <==> percent_decoded(bytes) != bytes,
        holds_escape(bytes) ==> percent_decoded(bytes).len() < bytes.len(),
    decreases bytes.len(),
{
    if bytes.len() > 0 && starts_with_escape(bytes) {
        assert(bytes.skip(0) =~= bytes);
        lemma_decoded_is_no_longer(bytes.skip(3));
    } else if bytes.len() > 0 {
        let rest = bytes.skip(1);
        lemma_decoding_changes_escapes_only(rest);
        if holds_escape(bytes) {
            let at = choose|at: int| 0 <= at <= bytes.len() && #[trigger] starts_with_escape(
                bytes.skip(at),
            );
            assert(bytes.skip(0) =~= bytes);
            assert(rest.skip(at - 1) =~= bytes.skip(at));
        }
        if holds_escape(rest) {
            let at = choose|at: int| 0 <= at <= rest.len() && #[trigger] starts_with_escape(
                rest.skip(at),
            );
            assert(bytes.skip(at + 1) =~= rest.skip(at));
        } else {
            assert(seq![bytes[0]] + rest =~= bytes);
        }
    }
}

/// Bytes without a percent sign decode to themselves.
pub proof fn lemma_nothing_to_decode(bytes: Seq<u8>)
    requires
        forall|i: int| 0 <= i < bytes.len() ==> bytes[i] != 0x25,
    ensures
        percent_decoded(bytes) == bytes,
{
    lemma_decoding_changes_escapes_only(bytes);
    assert forall|at: int| 0 <= at <= bytes.len() implies !starts_with_escape(
        #[trigger] bytes.skip(at),
    ) by {
        if at < bytes.len() {
            assert(bytes.skip(at)[0] == bytes[at]);
        }
    }
}

/// Trusted: `percent_encoding::percent_decode_str` followed by
/// `PercentDecode::decode_utf8`. The first walks the UTF-8 bytes of `text` and
/// replaces each `%` that two hexadecimal digits follow; the second reads the
/// outcome as UTF-8 and fails where it is not well formed. The contract says
/// that the result is [`decoded_text`] of the text.
#[verifier::external_body]
pub(crate) fn percent_decode_utf8(text: &str) -> (decoded: Option<String>)
    ensures
        match decoded {
            Some(t) => decoded_text(text@) == Some(t@),
            None => decoded_text(text@) is None,
        },
{
    match percent_encoding::percent_decode_str(text).decode_utf8() {
        Ok(t) => Some(t.into_owned()),
        Err(_) => None,
    }
}

} // verus!
