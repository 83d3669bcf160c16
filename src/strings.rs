//! Conversions between bytes and text.
use vstd::prelude::*;
use vstd::utf8::{decode_utf8, encode_utf8, encode_utf8_decode_utf8, encode_utf8_valid_utf8, is_ascii_chars, is_ascii_chars_encode_utf8, valid_utf8};

use crate::codec::text_of;

verus! {

/// Relies on `String::from_utf8`: it returns the text that the bytes encode
/// when they are valid UTF-8, and an error otherwise.
#[verifier::external_body]
pub(crate) fn string_from_utf8(bytes: Vec<u8>) -> (r: Option<String>)
    ensures
        match r {
            Some(s) => valid_utf8(bytes@) && s@ == decode_utf8(bytes@),
            None => !valid_utf8(bytes@),
        },
{
    String::from_utf8(bytes).ok()
}

/// Bytes below 0x80 are their own UTF-8 encoding, one character each.
pub proof fn lemma_ascii_text(codes: Seq<u8>)
    requires
        forall|i: int| 0 <= i < codes.len() ==> #[trigger] codes[i] < 0x80,
    ensures
        encode_utf8(text_of(codes)) == codes,
        valid_utf8(codes),
        decode_utf8(codes) == text_of(codes),
{
    let chars = text_of(codes);
    assert forall|i: int| 0 <= i < chars.len() implies '\0' <= #[trigger] chars[i] <= '\u{7f}' by {
        assert(codes[i] < 0x80);
    }
    assert(is_ascii_chars(chars));
    is_ascii_chars_encode_utf8(chars);
    assert(encode_utf8(chars) =~= codes);
    encode_utf8_valid_utf8(chars);
    encode_utf8_decode_utf8(chars);
}

/// The text of ASCII bytes.
pub(crate) fn ascii_to_string(codes: Vec<u8>) -> (r: String)
    requires
        forall|i: int| 0 <= i < codes@.len() ==> #[trigger] codes@[i] < 0x80,
    ensures
        r@ == text_of(codes@),
{
    let ghost v = codes@;
    proof {
        lemma_ascii_text(v);
    }
    match string_from_utf8(codes) {
        Some(s) => s,
        None => {
            assert(false);
            String::new()
        },
    }
}

} // verus!
