//! The 64 symbols of the standard base64 alphabet and the padding character.
use vstd::prelude::*;

verus! {

/// The padding character `=`, as a byte.
pub const PAD: u8 = 0x3d;

/// The symbol at position `v` of the alphabet `A`-`Z`, `a`-`z`, `0`-`9`, `+`, `/`.
pub open spec fn symbol(v: u32) -> u8 {
    if v < 26 {
        (0x41 + v) as u8
    } else if v < 52 {
        (0x61 + (v - 26)) as u8
    } else if v < 62 {
        (0x30 + (v - 52)) as u8
    } else if v == 62 {
        0x2b
    } else {
        0x2f
    }
}

/// Whether byte `c` is one of the 64 alphabet symbols.
pub open spec fn is_symbol(c: u8) -> bool {
    ||| 0x41 <= c <= 0x5a
    ||| 0x61 <= c <= 0x7a
    ||| 0x30 <= c <= 0x39
    ||| c == 0x2b
    ||| c == 0x2f
}

/// The position of symbol `c` in the alphabet; any other byte (padding among
/// them) stands for 0.
pub open spec fn sextet_of(c: u8) -> u32 {
    if 0x41 <= c <= 0x5a {
        (c - 0x41) as u32
    } else if 0x61 <= c <= 0x7a {
        (c - 0x61 + 26) as u32
    } else if 0x30 <= c <= 0x39 {
        (c - 0x30 + 52) as u32
    } else if c == 0x2b {
        62
    } else if c == 0x2f {
        63
    } else {
        0
    }
}

/// Each position names a distinct symbol, which is neither padding nor
/// outside ASCII, and which maps back to the position.
pub proof fn lemma_symbol(v: u32)
    requires
        v < 64,
    ensures
        is_symbol(symbol(v)),
        sextet_of(symbol(v)) == v,
        symbol(v) != PAD,
        symbol(v) < 0x80,
{
}

/// The alphabet symbol for a six-bit value.
pub fn encode_sextet(v: u32) -> (c: u8)
    requires
        v < 64,
    ensures
        c == symbol(v),
{
    if v < 26 {
        (0x41 + v) as u8
    } else if v < 52 {
        (0x61 + (v - 26)) as u8
    } else if v < 62 {
        (0x30 + (v - 52)) as u8
    } else if v == 62 {
        0x2b
    } else {
        0x2f
    }
}

/// The six-bit value of an alphabet symbol, or `None` for any other byte.
pub fn decode_sextet(c: u8) -> (r: Option<u32>)
    ensures
        r == (if is_symbol(c) { Some(sextet_of(c)) } else { None::<u32> }),
{
    if 0x41 <= c && c <= 0x5a {
        Some((c - 0x41) as u32)
    } else if 0x61 <= c && c <= 0x7a {
        Some((c - 0x61 + 26) as u32)
    } else if 0x30 <= c && c <= 0x39 {
        Some((c - 0x30 + 52) as u32)
    } else if c == 0x2b {
        Some(62)
    } else if c == 0x2f {
        Some(63)
    } else {
        None
    }
}

} // verus!
