use lib_base64::{decode, decode_text, encode, encode_text, Base64, Base64Error};

fn sample(len: usize, seed: u32) -> Vec<u8> {
    let mut v = Vec::new();
    let mut x = seed;
    for _ in 0..len {
        x = x.wrapping_mul(1103515245).wrapping_add(12345);
        v.push((x >> 16) as u8);
    }
    v
}

#[test]
fn test_vectors_encode() {
    assert_eq!(encode(b"Man"), "TWFu");
    assert_eq!(encode(b"Ma"), "TWE=");
    assert_eq!(encode(b"M"), "TQ==");
    assert_eq!(encode(b"Test"), "VGVzdA==");
    assert_eq!(encode(&[0xfb, 0xff, 0xbf]), "+/+/");
    assert_eq!(encode(&[0, 0, 0]), "AAAA");
    assert_eq!(encode(&[0xff, 0xff, 0xff]), "////");
}

#[test]
fn test_vectors_decode() {
    assert_eq!(decode("TWFu"), Ok(b"Man".to_vec()));
    assert_eq!(decode("VGVzdA=="), Ok(b"Test".to_vec()));
    assert_eq!(decode("TWE="), Ok(b"Ma".to_vec()));
    assert_eq!(decode("TQ=="), Ok(b"M".to_vec()));
    assert_eq!(decode("+/+/"), Ok(vec![0xfb, 0xff, 0xbf]));
}

#[test]
fn empty_input() {
    assert_eq!(encode(&[]), "");
    assert_eq!(decode(""), Ok(Vec::new()));
    assert_eq!(encode_text(""), "");
    assert_eq!(decode_text(""), Ok(String::new()));
}

#[test]
fn round_trip_all_lengths() {
    for len in 0..40usize {
        for seed in 0..5u32 {
            let data = sample(len, seed);
            let text = encode(&data);
            assert_eq!(decode(&text), Ok(data));
        }
    }
}

#[test]
fn round_trip_every_byte_value() {
    let data: Vec<u8> = (0..=255u8).collect();
    for start in 0..3usize {
        let part = &data[start..];
        assert_eq!(decode(&encode(part)), Ok(part.to_vec()));
    }
}

#[test]
fn round_trip_text() {
    for s in ["", "a", "ab", "abc", "chérie", "日本語のテキスト", "\u{10ffff}"] {
        assert_eq!(decode_text(&encode_text(s)), Ok(String::from(s)));
    }
}

#[test]
fn encoded_length() {
    for len in 0..30usize {
        let text = encode(&sample(len, 7));
        assert_eq!(text.len(), 4 * ((len + 2) / 3));
        assert_eq!(text.is_empty(), len == 0);
    }
}

#[test]
fn padding_count() {
    for len in 0..30usize {
        let text = encode(&sample(len, 3));
        let pads = text.chars().filter(|c| *c == '=').count();
        let expected = match len % 3 {
            0 => 0,
            1 => 2,
            _ => 1,
        };
        assert_eq!(pads, expected);
    }
}

#[test]
fn length_checked_first() {
    assert_eq!(decode("TWF"), Err(Base64Error::InvalidDataLenght));
    assert_eq!(decode("T"), Err(Base64Error::InvalidDataLenght));
    assert_eq!(decode("TQ="), Err(Base64Error::InvalidDataLenght));
    assert_eq!(decode("TWFuT"), Err(Base64Error::InvalidDataLenght));
    assert_eq!(decode("$$$"), Err(Base64Error::InvalidDataLenght));
    assert_eq!(decode("TWé=="), Err(Base64Error::InvalidDataLenght));
}

#[test]
fn foreign_characters() {
    assert_eq!(decode("TWF$"), Err(Base64Error::InvalidBase64Data));
    assert_eq!(decode("TW-u"), Err(Base64Error::InvalidBase64Data));
    assert_eq!(decode("TW_u"), Err(Base64Error::InvalidBase64Data));
    assert_eq!(decode("TW u"), Err(Base64Error::InvalidBase64Data));
    assert_eq!(decode("TWé"), Err(Base64Error::InvalidBase64Data));
}

#[test]
fn misplaced_padding() {
    assert_eq!(decode("T=Fu"), Err(Base64Error::InvalidBase64Data));
    assert_eq!(decode("=WFu"), Err(Base64Error::InvalidBase64Data));
    assert_eq!(decode("A==="), Err(Base64Error::InvalidBase64Data));
    assert_eq!(decode("===="), Err(Base64Error::InvalidBase64Data));
    assert_eq!(decode("TQ==TWFu"), Err(Base64Error::InvalidBase64Data));
}

#[test]
fn repeated_decode_same_error() {
    for text in ["TWF", "TWF$", "T=Fu", "A==="] {
        let first = decode(text);
        let second = decode(text);
        assert!(first.is_err());
        assert_eq!(first, second);
    }
}

#[test]
fn invalid_utf8_after_decode() {
    assert_eq!(decode("/w=="), Ok(vec![0xff]));
    assert_eq!(decode_text("/w=="), Err(Base64Error::EncodingError));
    assert_eq!(
        String::from("wyg=").decode(),
        Err(Base64Error::EncodingError)
    );
}

#[test]
fn decode_text_gives_string() {
    assert_eq!(decode_text("VGVzdA=="), Ok(String::from("Test")));
    assert_eq!(decode_text("w6k="), Ok(String::from("é")));
}

#[test]
fn vec_decode_reads_bytes_as_text() {
    let input: Vec<u8> = b"VGVzdA==".to_vec();
    assert_eq!(input.decode(), Ok(String::from("Test")));
    let bad: Vec<u8> = b"VGV".to_vec();
    assert_eq!(bad.decode(), Err(Base64Error::InvalidDataLenght));
    let foreign: Vec<u8> = vec![0x54, 0x57, 0x46, 0xc3];
    assert_eq!(foreign.decode(), Err(Base64Error::InvalidBase64Data));
}

#[test]
fn trait_and_free_functions_agree() {
    let s = String::from("light work.");
    assert_eq!(s.encode(), Ok(encode_text(&s)));
    assert_eq!(s.as_bytes().to_vec().encode(), Ok(encode(s.as_bytes())));
}

#[test]
fn error_messages() {
    assert_eq!(
        Base64Error::InvalidDataLenght.message(),
        "Base64 error : Invalid input data length"
    );
    assert_eq!(
        Base64Error::InvalidBase64Data.message(),
        "Base64 error : Invalid base64 data"
    );
    assert_eq!(
        Base64Error::EncodingError.message(),
        "Base64 error : Cannot encode input data"
    );
}
