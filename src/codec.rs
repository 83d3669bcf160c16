//! The byte-level codec: three bytes become four symbols and back.
//!
//! Encoded text is modelled by the bytes of its characters, which for any
//! output of the encoder are ASCII.
use vstd::prelude::*;

use crate::alphabet::{decode_sextet, encode_sextet, is_symbol, lemma_symbol, sextet_of, symbol, PAD};
use crate::error::Base64Error;
use crate::strings::{ascii_to_string, lemma_ascii_text};
use vstd::utf8::encode_utf8;

verus! {

/// Three bytes as one 24-bit value, the first byte most significant.
pub open spec fn pack_bytes(b0: u8, b1: u8, b2: u8) -> u32 {
    ((b0 as u32) << 16) | ((b1 as u32) << 8) | (b2 as u32)
}

/// Four six-bit values as one 24-bit value, the first value most significant.
pub open spec fn pack_sextets(i0: u32, i1: u32, i2: u32, i3: u32) -> u32 {
    (i0 << 18) | (i1 << 12) | (i2 << 6) | i3
}

/// The four symbols of one complete group of three bytes.
pub open spec fn encode_group(b0: u8, b1: u8, b2: u8) -> Seq<u8> {
    let n = pack_bytes(b0, b1, b2);
    seq![
        symbol((n >> 18) & 0x3f),
        symbol((n >> 12) & 0x3f),
        symbol((n >> 6) & 0x3f),
        symbol(n & 0x3f),
    ]
}

/// The symbols of the complete groups of `b`, group by group.
pub open spec fn encode_groups(b: Seq<u8>) -> Seq<u8>
    decreases b.len(),
{
    if b.len() < 3 {
        seq![]
    } else {
        let k = b.len() - 3;
        encode_groups(b.take(k)) + encode_group(b[k], b[k + 1], b[k + 2])
    }
}

/// The padded symbols of a final partial group of one or two bytes.
pub open spec fn encode_tail(r: Seq<u8>) -> Seq<u8> {
    if r.len() == 1 {
        encode_group(r[0], 0, 0).take(2) + seq![PAD, PAD]
    } else if r.len() == 2 {
        encode_group(r[0], r[1], 0).take(3) + seq![PAD]
    } else {
        seq![]
    }
}

/// The base64 text of `b`, as the bytes of its characters.
pub open spec fn encoded(b: Seq<u8>) -> Seq<u8> {
    let full = b.len() - b.len() % 3;
    encode_groups(b.take(full)) + encode_tail(b.skip(full))
}

/// The three bytes that four characters stand for; padding counts as zero.
pub open spec fn decode_group(c0: u8, c1: u8, c2: u8, c3: u8) -> Seq<u8> {
    let n = pack_sextets(sextet_of(c0), sextet_of(c1), sextet_of(c2), sextet_of(c3));
    seq![((n >> 16) & 0xff) as u8, ((n >> 8) & 0xff) as u8, (n & 0xff) as u8]
}

/// The bytes of the complete groups of four characters of `t`.
pub open spec fn decode_groups(t: Seq<u8>) -> Seq<u8>
    decreases t.len(),
{
    if t.len() < 4 {
        seq![]
    } else {
        let k = t.len() - 4;
        decode_groups(t.take(k)) + decode_group(t[k], t[k + 1], t[k + 2], t[k + 3])
    }
}

/// The number of trailing padding characters that the final group may hold: 0, 1 or 2.
pub open spec fn padding_len(t: Seq<u8>) -> int {
    if t.len() >= 2 && t[t.len() - 1] == PAD && t[t.len() - 2] == PAD {
        2
    } else if t.len() >= 1 && t[t.len() - 1] == PAD {
        1
    } else {
        0
    }
}

/// Every character before the trailing padding is an alphabet symbol.
pub open spec fn symbols_valid(t: Seq<u8>) -> bool {
    forall|i: int| 0 <= i < t.len() - padding_len(t) ==> is_symbol(#[trigger] t[i])
}

/// What decoding the text with character bytes `t` gives: a length that is not
/// a multiple of 4 is refused first, then any character that is not a symbol
/// outside the trailing padding; else the bytes of all groups, less one byte
/// for each padding character.
pub open spec fn decoded(t: Seq<u8>) -> Result<Seq<u8>, Base64Error> {
    if t.len() % 4 != 0 {
        Err(Base64Error::InvalidDataLenght)
    } else if !symbols_valid(t) {
        Err(Base64Error::InvalidBase64Data)
    } else {
        let all = decode_groups(t);
        Ok(all.take(all.len() - padding_len(t)))
    }
}

/// The view of a decoding result.
pub open spec fn bytes_result(r: Result<Vec<u8>, Base64Error>) -> Result<Seq<u8>, Base64Error> {
    match r {
        Ok(v) => Ok(v@),
        Err(e) => Err(e),
    }
}

proof fn lemma_sextets_bounded(n: u32)
    by (bit_vector)
    ensures
        (n >> 18) & 0x3f < 64,
        (n >> 12) & 0x3f < 64,
        (n >> 6) & 0x3f < 64,
        n & 0x3f < 64,
{
}

/// Appends the first `count` symbols of the group `b0`, `b1`, `b2`.
fn push_group(out: &mut Vec<u8>, b0: u8, b1: u8, b2: u8, count: usize)
    requires
        count <= 4,
    ensures
        final(out)@ == old(out)@ + encode_group(b0, b1, b2).take(count as int),
{
    let n: u32 = ((b0 as u32) << 16) | ((b1 as u32) << 8) | (b2 as u32);
    proof {
        lemma_sextets_bounded(n);
    }
    let syms: [u8; 4] = [
        encode_sextet((n >> 18) & 0x3f),
        encode_sextet((n >> 12) & 0x3f),
        encode_sextet((n >> 6) & 0x3f),
        encode_sextet(n & 0x3f),
    ];
    let ghost start = out@;
    let mut k: usize = 0;
    while k < count
        invariant
            k <= count <= 4,
            syms@ == encode_group(b0, b1, b2),
            out@ == start + encode_group(b0, b1, b2).take(k as int),
        decreases count - k,
    {
        out.push(syms[k]);
        proof {
            assert(encode_group(b0, b1, b2).take(k + 1) =~= encode_group(b0, b1, b2).take(
                k as int,
            ).push(syms@[k as int]));
        }
        k += 1;
    }
}

/// The symbol bytes of the base64 text of `data`.
pub fn encode_symbols(data: &[u8]) -> (r: Vec<u8>)
    ensures
        r@ == encoded(data@),
{
    let n = data.len();
    let full = n - n % 3;
    let mut out: Vec<u8> = Vec::new();
    let mut i: usize = 0;
    while i < full
        invariant
            n == data@.len(),
            full == n - n % 3,
            i <= full,
            i % 3 == 0,
            out@ == encode_groups(data@.take(i as int)),
        decreases full - i,
    {
        push_group(&mut out, data[i], data[i + 1], data[i + 2], 4);
        proof {
            let s = data@.take(i + 3);
            assert(s.take(i as int) =~= data@.take(i as int));
            assert(encode_groups(s) == encode_groups(s.take(i as int)) + encode_group(
                s[i as int],
                s[i + 1],
                s[i + 2],
            ));
        }
        i += 3;
    }
    if n - full == 1 {
        push_group(&mut out, data[full], 0, 0, 2);
        out.push(PAD);
        out.push(PAD);
    } else if n - full == 2 {
        push_group(&mut out, data[full], data[full + 1], 0, 3);
        out.push(PAD);
    }
    assert(out@ =~= encoded(data@));
    out
}

/// The six-bit value of `c`, or 0 where `c` is not a symbol.
fn sextet_or_zero(c: u8) -> (v: u32)
    ensures
        v == sextet_of(c),
        v < 64,
{
    match decode_sextet(c) {
        Some(v) => v,
        None => 0,
    }
}

/// Decodes base64 text given as the bytes of its characters.
pub fn decode_symbols(t: &[u8]) -> (r: Result<Vec<u8>, Base64Error>)
    ensures
        bytes_result(r) == decoded(t@),
{
    let n = t.len();
    if n % 4 != 0 {
        return Err(Base64Error::InvalidDataLenght);
    }
    let pad: usize = if n >= 2 && t[n - 1] == PAD && t[n - 2] == PAD {
        2
    } else if n >= 1 && t[n - 1] == PAD {
        1
    } else {
        0
    };
    assert(pad == padding_len(t@));
    let mut i: usize = 0;
    while i < n - pad
        invariant
            n == t@.len(),
            n % 4 == 0,
            pad == padding_len(t@),
            i <= n - pad,
            forall|j: int| 0 <= j < i ==> is_symbol(#[trigger] t@[j]),
        decreases n - pad - i,
    {
        if decode_sextet(t[i]).is_none() {
            assert(!is_symbol(t@[i as int]));
            return Err(Base64Error::InvalidBase64Data);
        }
        i += 1;
    }
    assert(symbols_valid(t@));
    let mut out: Vec<u8> = Vec::new();
    i = 0;
    while i < n
        invariant
            n == t@.len(),
            n % 4 == 0,
            i <= n,
            i % 4 == 0,
            out@ == decode_groups(t@.take(i as int)),
            out@.len() == i / 4 * 3,
        decreases n - i,
    {
        let v0 = sextet_or_zero(t[i]);
        let v1 = sextet_or_zero(t[i + 1]);
        let v2 = sextet_or_zero(t[i + 2]);
        let v3 = sextet_or_zero(t[i + 3]);
        let m: u32 = (v0 << 18) | (v1 << 12) | (v2 << 6) | v3;
        assert((m >> 16) & 0xff < 256 && (m >> 8) & 0xff < 256 && m & 0xff < 256) by (bit_vector);
        out.push(((m >> 16) & 0xff) as u8);
        out.push(((m >> 8) & 0xff) as u8);
        out.push((m & 0xff) as u8);
        proof {
            let s = t@.take(i + 4);
            assert(s.take(i as int) =~= t@.take(i as int));
        }
        i += 4;
    }
    assert(t@.take(n as int) =~= t@);
    let keep = out.len() - pad;
    out.truncate(keep);
    Ok(out)
}

/// The text whose characters have the codes `s`, one character per byte.
pub open spec fn text_of(s: Seq<u8>) -> Seq<char> {
    s.map_values(|c: u8| c as char)
}

/// How many times `c` occurs in `s`.
pub open spec fn count_char(s: Seq<char>, c: char) -> nat
    decreases s.len(),
{
    if s.len() == 0 {
        0
    } else {
        count_char(s.drop_last(), c) + if s.last() == c {
            1nat
        } else {
            0nat
        }
    }
}

proof fn lemma_pack_inverse(b0: u8, b1: u8, b2: u8)
    by (bit_vector)
    ensures
        pack_sextets(
            (pack_bytes(b0, b1, b2) >> 18) & 0x3f,
            (pack_bytes(b0, b1, b2) >> 12) & 0x3f,
            (pack_bytes(b0, b1, b2) >> 6) & 0x3f,
            pack_bytes(b0, b1, b2) & 0x3f,
        ) == pack_bytes(b0, b1, b2),
        ((pack_bytes(b0, b1, b2) >> 16) & 0xff) as u8 == b0,
        ((pack_bytes(b0, b1, b2) >> 8) & 0xff) as u8 == b1,
        (pack_bytes(b0, b1, b2) & 0xff) as u8 == b2,
        (pack_bytes(b0, b1, 0) & 0x3f) == 0,
        (pack_bytes(b0, 0, 0) >> 6) & 0x3f == 0,
{
}

/// The four symbols of a group decode to the group's three bytes.
proof fn lemma_group_round_trip(b0: u8, b1: u8, b2: u8)
    ensures
        ({
            let q = encode_group(b0, b1, b2);
            &&& forall|j: int| 0 <= j < 4 ==> is_symbol(#[trigger] q[j])
            &&& decode_group(q[0], q[1], q[2], q[3]) == seq![b0, b1, b2]
        }),
{
    let n = pack_bytes(b0, b1, b2);
    lemma_sextets_bounded(n);
    lemma_symbol((n >> 18) & 0x3f);
    lemma_symbol((n >> 12) & 0x3f);
    lemma_symbol((n >> 6) & 0x3f);
    lemma_symbol(n & 0x3f);
    lemma_pack_inverse(b0, b1, b2);
    let q = encode_group(b0, b1, b2);
    assert forall|j: int| 0 <= j < 4 implies is_symbol(#[trigger] q[j]) by {}
    assert(decode_group(q[0], q[1], q[2], q[3]) =~= seq![b0, b1, b2]);
}

/// The complete groups encode to four symbols per three bytes, and decode back.
proof fn lemma_encode_groups(x: Seq<u8>)
    requires
        x.len() % 3 == 0,
    ensures
        encode_groups(x).len() == x.len() / 3 * 4,
        forall|i: int| 0 <= i < encode_groups(x).len() ==> is_symbol(#[trigger] encode_groups(x)[i]),
        decode_groups(encode_groups(x)) == x,
    decreases x.len(),
{
    if x.len() < 3 {
        assert(x =~= seq![]);
    } else {
        let k = x.len() - 3;
        let p = x.take(k);
        lemma_encode_groups(p);
        let q = encode_group(x[k], x[k + 1], x[k + 2]);
        lemma_group_round_trip(x[k], x[k + 1], x[k + 2]);
        let e = encode_groups(x);
        assert(e == encode_groups(p) + q);
        assert forall|i: int| 0 <= i < e.len() implies is_symbol(#[trigger] e[i]) by {
            if i >= encode_groups(p).len() {
                assert(e[i] == q[i - encode_groups(p).len()]);
            }
        }
        let m = e.len() - 4;
        assert(e.take(m) =~= encode_groups(p));
        assert(e[m] == q[0] && e[m + 1] == q[1] && e[m + 2] == q[2] && e[m + 3] == q[3]);
        assert(decode_groups(e) == decode_groups(e.take(m)) + decode_group(
            e[m],
            e[m + 1],
            e[m + 2],
            e[m + 3],
        ));
        assert(x =~= p + seq![x[k], x[k + 1], x[k + 2]]);
    }
}

/// The shape of the encoded text of `b`, and that it decodes back to `b`.
pub proof fn lemma_encoded(b: Seq<u8>)
    ensures
        encoded(b).len() == 4 * ((b.len() + 2) / 3),
        padding_len(encoded(b)) == (3 - b.len() % 3) % 3,
        forall|i: int|
            0 <= i < encoded(b).len() - padding_len(encoded(b)) ==> is_symbol(
                #[trigger] encoded(b)[i],
            ),
        forall|i: int|
            encoded(b).len() - padding_len(encoded(b)) <= i < encoded(b).len() ==> #[trigger] encoded(
                b,
            )[i] == PAD,
        decoded(encoded(b)) == Ok::<Seq<u8>, Base64Error>(b),
{
    let full = b.len() - b.len() % 3;
    let p = b.take(full);
    let r = b.skip(full);
    lemma_encode_groups(p);
    let g = encode_groups(p);
    let t = encode_tail(r);
    let e = encoded(b);
    assert(e == g + t);
    if r.len() == 0 {
        assert(e =~= g);
        assert(p =~= b);
        if g.len() > 0 {
            assert(is_symbol(g[g.len() - 1]));
        }
        assert(decode_groups(e).take(decode_groups(e).len() - 0) =~= b);
    } else {
        let b0 = r[0];
        let b1: u8 = if r.len() == 2 { r[1] } else { 0 };
        lemma_group_round_trip(b0, b1, 0);
        lemma_pack_inverse(b0, b1, 0);
        let q = encode_group(b0, b1, 0);
        let n = pack_bytes(b0, b1, 0);
        lemma_sextets_bounded(n);
        lemma_symbol((n >> 6) & 0x3f);
        lemma_symbol(n & 0x3f);
        let m = g.len() as int;
        assert(e.len() == m + 4);
        assert(e[m] == q[0] && e[m + 1] == q[1]);
        assert(is_symbol(e[m]) && is_symbol(e[m + 1]));
        if r.len() == 1 {
            assert(e[m + 2] == PAD && e[m + 3] == PAD);
            assert(padding_len(e) == 2);
        } else {
            assert(e[m + 2] == q[2] && e[m + 3] == PAD);
            assert(is_symbol(e[m + 2]));
            assert(padding_len(e) == 1);
        }
        assert forall|i: int| 0 <= i < e.len() - padding_len(e) implies is_symbol(#[trigger] e[i]) by {
            if i < m {
                assert(e[i] == g[i]);
            }
        }
        assert(e.take(m) =~= g);
        assert(decode_group(e[m], e[m + 1], e[m + 2], e[m + 3]) == decode_group(q[0], q[1], q[2], q[3]));
        let all = decode_groups(e);
        assert(all == p + seq![b0, b1, 0u8]);
        assert(all.take(all.len() - padding_len(e)) =~= b);
    }
}

/// Every character of an encoded text is ASCII, so the text's UTF-8 bytes are
/// its symbol bytes.
pub proof fn lemma_encoded_ascii(b: Seq<u8>)
    ensures
        forall|i: int| 0 <= i < encoded(b).len() ==> #[trigger] encoded(b)[i] < 0x80,
        encode_utf8(text_of(encoded(b))) == encoded(b),
{
    lemma_encoded(b);
    let e = encoded(b);
    assert forall|i: int| 0 <= i < e.len() implies #[trigger] e[i] < 0x80 by {
        if i < e.len() - padding_len(e) {
            assert(is_symbol(e[i]));
        }
    }
    lemma_ascii_text(e);
}

/// Encodes `data` as base64 text.
pub fn encode(data: &[u8]) -> (r: String)
    ensures
        r@ == text_of(encoded(data@)),
{
    let codes = encode_symbols(data);
    proof {
        lemma_encoded_ascii(data@);
    }
    ascii_to_string(codes)
}

/// Decodes base64 text; its length is counted in UTF-8 bytes.
pub fn decode(text: &str) -> (r: Result<Vec<u8>, Base64Error>)
    ensures
        bytes_result(r) == decoded(encode_utf8(text@)),
{
    decode_symbols(text.as_bytes())
}

} // verus!
