use lib_base64::Base64;
use lib_base64::Base64Error;

#[test]
fn encode_works() {
    assert_eq!(
        Ok(String::from("SmUgdCdhaW1lIG1hIGNow6lyaWU=")),
        String::from("Je t'aime ma chérie").encode()
    );
}

#[test]
fn encode_no_padding() {
    assert_eq!(Ok(String::from("TWFu")), String::from("Man").encode());
}

#[test]
fn encode_one_padding() {
    assert_eq!(Ok(String::from("TWE=")), String::from("Ma").encode());
}

#[test]
fn encode_two_padding() {
    assert_eq!(Ok(String::from("TQ==")), String::from("M").encode());
}

#[test]
fn decode_works() {
    assert_eq!(
        Ok(String::from("Joyeux anniversaire !")),
        String::from("Sm95ZXV4IGFubml2ZXJzYWlyZSAh").decode()
    );
}

#[test]
fn datalength_check() {
    assert_eq!(
        Err(Base64Error::InvalidDataLenght),
        String::from("TWF").decode()
    );
}

#[test]
fn validb64data_check() {
    assert_eq!(
        Err(Base64Error::InvalidBase64Data),
        String::from("TWF$").decode()
    );
}

#[test]
fn encode_u8_no_padding() {
    let input: Vec<u8> = vec![0x4d, 0x61, 0x6e];
    assert_eq!(Ok(String::from("TWFu")), input.encode());
}

#[test]
fn encode_u8_one_padding() {
    let input: Vec<u8> = vec![0x4d, 0x61];
    assert_eq!(Ok(String::from("TWE=")), input.encode());
}

#[test]
fn encode_u8_two_padding() {
    let input: Vec<u8> = vec![0x4d];
    assert_eq!(Ok(String::from("TQ==")), input.encode());
}

#[test]
fn encode_u8() {
    let input: Vec<u8> = String::from("light work.").as_bytes().to_vec();
    assert_eq!(Ok(String::from("bGlnaHQgd29yay4=")), input.encode());
}

#[test]
fn encode_mac_roman_accent() {
    // "√©" is two characters of three and two UTF-8 bytes.
    assert_eq!(
        Ok(String::from("SmUgdCdhaW1lIG1hIGNo4oiawqlyaWU=")),
        String::from("Je t'aime ma ch√©rie").encode()
    );
}
