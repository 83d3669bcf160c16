//! The text layer: base64 of a string's UTF-8 bytes, and decoding back to a
//! string, which fails where the decoded bytes are not UTF-8.
use vstd::prelude::*;
use vstd::utf8::{decode_utf8, encode_utf8, valid_utf8};

use crate::codec::{bytes_result, decode, decode_symbols, decoded, encode, encoded, text_of};
use crate::error::Base64Error;
use crate::strings::string_from_utf8;

verus! {

/// A decoding result read as UTF-8 text.
pub open spec fn as_text(r: Result<Seq<u8>, Base64Error>) -> Result<Seq<char>, Base64Error> {
    match r {
        Err(e) => Err(e),
        Ok(b) => if valid_utf8(b) {
            Ok(decode_utf8(b))
        } else {
            Err(Base64Error::EncodingError)
        },
    }
}

/// What decoding base64 text with character bytes `t` into a string gives.
pub open spec fn decoded_text(t: Seq<u8>) -> Result<Seq<char>, Base64Error> {
    as_text(decoded(t))
}

/// The view of a result that holds a string.
pub open spec fn text_result(r: Result<String, Base64Error>) -> Result<Seq<char>, Base64Error> {
    match r {
        Ok(s) => Ok(s@),
        Err(e) => Err(e),
    }
}

/// Turns decoded bytes into a string.
fn bytes_to_text(r: Result<Vec<u8>, Base64Error>) -> (t: Result<String, Base64Error>)
    ensures
        text_result(t) == as_text(bytes_result(r)),
{
    match r {
        Err(e) => Err(e),
        Ok(bytes) => match string_from_utf8(bytes) {
            Some(s) => Ok(s),
            None => Err(Base64Error::EncodingError),
        },
    }
}

/// Encodes the UTF-8 bytes of `s` as base64 text.
pub fn encode_text(s: &str) -> (r: String)
    ensures
        r@ == text_of(encoded(encode_utf8(s@))),
{
    encode(s.as_bytes())
}

/// Decodes base64 text into the string whose UTF-8 bytes it holds.
pub fn decode_text(s: &str) -> (r: Result<String, Base64Error>)
    ensures
        text_result(r) == decoded_text(encode_utf8(s@)),
{
    bytes_to_text(decode(s))
}

/// Base64 encoding and decoding on values that hold bytes.
pub trait Base64 {
    /// The bytes that this value holds.
    spec fn content(&self) -> Seq<u8>;

    /// The base64 text of the value's bytes; it never fails.
    fn encode(&self) -> (r: Result<String, Base64Error>)
        ensures
            r matches Ok(s) && s@ == text_of(encoded(self.content())),
    ;

    /// Reads the value's bytes as base64 text and decodes it into a string.
    fn decode(&self) -> (r: Result<String, Base64Error>)
        ensures
            text_result(r) == decoded_text(self.content()),
    ;
}

impl Base64 for String {
    /// The UTF-8 bytes of the string.
    open spec fn content(&self) -> Seq<u8> {
        encode_utf8(self@)
    }

    fn encode(&self) -> (r: Result<String, Base64Error>) {
        Ok(encode_text(self.as_str()))
    }

    fn decode(&self) -> (r: Result<String, Base64Error>) {
        decode_text(self.as_str())
    }
}

impl Base64 for Vec<u8> {
    /// The bytes of the vector.
    open spec fn content(&self) -> Seq<u8> {
        self@
    }

    fn encode(&self) -> (r: Result<String, Base64Error>) {
        Ok(encode(self.as_slice()))
    }

    fn decode(&self) -> (r: Result<String, Base64Error>) {
        bytes_to_text(decode_symbols(self.as_slice()))
    }
}

} // verus!
