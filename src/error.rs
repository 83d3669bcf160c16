use vstd::prelude::*;

verus! {

/// Why a base64 text could not be decoded.
#[derive(Debug, PartialEq, Eq, Clone, Copy, Structural)]
pub enum Base64Error {
    /// The text's length is not a multiple of 4.
    InvalidDataLenght,
    /// A character of the text is neither an alphabet symbol nor padding in a
    /// place where padding may stand.
    InvalidBase64Data,
    /// The decoded bytes are not valid UTF-8, so they cannot be returned as text.
    EncodingError,
}

impl Base64Error {
    /// A human-readable description of the error.
    pub fn message(&self) -> (r: &'static str)
        ensures
            *self == Base64Error::InvalidDataLenght ==> r@ == "Base64 error : Invalid input data length"@,
            *self == Base64Error::InvalidBase64Data ==> r@ == "Base64 error : Invalid base64 data"@,
            *self == Base64Error::EncodingError ==> r@ == "Base64 error : Cannot encode input data"@,
    {
        match self {
            Base64Error::InvalidDataLenght => "Base64 error : Invalid input data length",
            Base64Error::InvalidBase64Data => "Base64 error : Invalid base64 data",
            Base64Error::EncodingError => "Base64 error : Cannot encode input data",
        }
    }
}

} // verus!
