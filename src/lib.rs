//! Base64 encoding and decoding with the standard alphabet and `=` padding.
//!
//! The byte-level codec lives in [`codec`]; [`text`] adds the text layer and the
//! [`Base64`] trait for `String` and `Vec<u8>`.
pub mod alphabet;
pub mod codec;
pub mod error;
pub mod laws;
pub mod strings;
pub mod text;

pub use codec::{decode, encode};
pub use error::Base64Error;
pub use text::{decode_text, encode_text, Base64};
