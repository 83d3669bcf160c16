//! What holds of the codec across calls and for all inputs.
use vstd::prelude::*;
use vstd::utf8::{encode_utf8, encode_utf8_decode_utf8, encode_utf8_valid_utf8};

use crate::alphabet::{is_symbol, PAD};
use crate::codec::{count_char, decoded, encoded, lemma_encoded, lemma_encoded_ascii, padding_len, text_of};
use crate::error::Base64Error;
use crate::text::decoded_text;

verus! {

/// Encoding any bytes and decoding the resulting text gives the bytes back.
pub proof fn lemma_round_trip(b: Seq<u8>)
    ensures
        decoded(encode_utf8(text_of(encoded(b)))) == Ok::<Seq<u8>, Base64Error>(b),
{
    lemma_encoded(b);
    lemma_encoded_ascii(b);
}

/// Encoding a string and decoding the text back into a string gives the string.
pub proof fn lemma_text_round_trip(s: Seq<char>)
    ensures
        decoded_text(encode_utf8(text_of(encoded(encode_utf8(s))))) == Ok::<
            Seq<char>,
            Base64Error,
        >(s),
{
    lemma_round_trip(encode_utf8(s));
    encode_utf8_valid_utf8(s);
    encode_utf8_decode_utf8(s);
}

/// The encoded text has four characters for every started group of three
/// bytes, and is empty exactly when the input is.
pub proof fn lemma_encoded_length(b: Seq<u8>)
    ensures
        text_of(encoded(b)).len() == 4 * ((b.len() + 2) / 3),
        text_of(encoded(b)).len() == 0 <==> b.len() == 0,
{
    lemma_encoded(b);
}

/// The encoded text holds no `=` when the input length is a multiple of three,
/// two when one byte is left over, and one when two are.
pub proof fn lemma_padding_count(b: Seq<u8>)
    ensures
        b.len() % 3 == 0 ==> count_char(text_of(encoded(b)), '=') == 0,
        b.len() % 3 == 1 ==> count_char(text_of(encoded(b)), '=') == 2,
        b.len() % 3 == 2 ==> count_char(text_of(encoded(b)), '=') == 1,
{
    lemma_encoded(b);
    let e = encoded(b);
    let k = e.len() - padding_len(e);
    lemma_count_suffix(text_of(e), k);
}

/// A text whose length is not a multiple of four is refused for its length,
/// whatever characters it holds.
pub proof fn lemma_bad_length(t: Seq<u8>)
    requires
        t.len() % 4 != 0,
    ensures
        decoded(t) == Err::<Seq<u8>, Base64Error>(Base64Error::InvalidDataLenght),
{
}

/// A text of valid length that holds a character which is neither an alphabet
/// symbol nor padding is refused as invalid data.
pub proof fn lemma_foreign_character(t: Seq<u8>, i: int)
    requires
        t.len() % 4 == 0,
        0 <= i < t.len(),
        !is_symbol(t[i]),
        t[i] != PAD,
    ensures
        decoded(t) == Err::<Seq<u8>, Base64Error>(Base64Error::InvalidBase64Data),
{
    assert(i < t.len() - padding_len(t));
}

/// A text of valid length with padding before its last two characters is
/// refused as invalid data.
pub proof fn lemma_misplaced_padding(t: Seq<u8>, i: int)
    requires
        t.len() % 4 == 0,
        0 <= i < t.len() - 2,
        t[i] == PAD,
    ensures
        decoded(t) == Err::<Seq<u8>, Base64Error>(Base64Error::InvalidBase64Data),
{
    assert(!is_symbol(t[i]));
}

/// The kind of a decoding error is fixed by the text alone: its length, when
/// that is not a multiple of four, else invalid data, so decoding the same text
/// again fails in the same way.
pub proof fn lemma_error_kind(t: Seq<u8>)
    ensures
        decoded(t) is Err ==> decoded(t) == Err::<Seq<u8>, Base64Error>(
            if t.len() % 4 != 0 {
                Base64Error::InvalidDataLenght
            } else {
                Base64Error::InvalidBase64Data
            },
        ),
{
}

/// Where the characters before position `k` are not `=` and those from `k` on
/// are, `=` occurs once for each of the latter.
proof fn lemma_count_suffix(s: Seq<char>, k: int)
    requires
        0 <= k <= s.len(),
        forall|i: int| 0 <= i < k ==> #[trigger] s[i] != '=',
        forall|i: int| k <= i < s.len() ==> #[trigger] s[i] == '=',
    ensures
        count_char(s, '=') == s.len() - k,
    decreases s.len(),
{
    if s.len() > 0 {
        let d = s.drop_last();
        if s.len() > k {
            lemma_count_suffix(d, k);
        } else {
            lemma_count_suffix(d, k - 1);
        }
    }
}

} // verus!
