use semtex::percent::percent_decode;
use semtex::percent::percent_encode;

#[test]
fn encode_space_as_percent_20() {
    assert_eq!(percent_encode(b" "), b"%20".to_vec());
}

#[test]
fn encode_keeps_unreserved_bytes() {
    let input = b"AZaz09-._~";
    assert_eq!(percent_encode(input), input.to_vec());
}

#[test]
fn encode_multi_byte_character() {
    // "Ó" is the two UTF-8 bytes 0xC3 0x93.
    assert_eq!(percent_encode("\u{d3}".as_bytes()), b"%C3%93".to_vec());
}

#[test]
fn encode_uses_uppercase_hex() {
    assert_eq!(percent_encode(&[0xFFu8]), b"%FF".to_vec());
}

#[test]
fn decode_percent_triple() {
    assert_eq!(percent_decode(b"%20"), Some(b" ".to_vec()));
}

#[test]
fn decode_plain_bytes() {
    assert_eq!(percent_decode(b"abc"), Some(b"abc".to_vec()));
}

#[test]
fn decode_accepts_lowercase_hex() {
    assert_eq!(percent_decode(b"%c3%93"), Some("\u{d3}".as_bytes().to_vec()));
}

#[test]
fn decode_rejects_bare_percent() {
    assert_eq!(percent_decode(b"%"), None);
}

#[test]
fn decode_rejects_short_escape() {
    assert_eq!(percent_decode(b"%2"), None);
}

#[test]
fn decode_rejects_bad_hex() {
    assert_eq!(percent_decode(b"%G1"), None);
}

#[test]
fn round_trip_multi_byte_term() {
    let term = "Barack \u{d3} Broin";
    let encoded = percent_encode(term.as_bytes());
    let decoded = percent_decode(&encoded).expect("an encoded term decodes");
    assert_eq!(decoded, term.as_bytes().to_vec());
    assert_eq!(String::from_utf8(decoded).unwrap(), term);
}

#[test]
fn round_trip_every_byte_value() {
    let all: Vec<u8> = (0u8..=255u8).collect();
    let encoded = percent_encode(&all);
    assert_eq!(percent_decode(&encoded), Some(all));
}
