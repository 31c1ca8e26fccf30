use seabed::base65536::decode;
use seabed::base65536::encode;
use seabed::base65536::is_decodable;

fn codes(s: &str) -> Vec<u32> {
    s.chars().map(|c| c as u32).collect()
}

fn text(codes: &[u32]) -> String {
    codes.iter().map(|&c| char::from_u32(c).unwrap()).collect()
}

#[test]
fn encode_decode_hello_worlda() {
    let bytes = b"Hello Worlda";
    let s = encode(bytes);
    assert_eq!(codes(&s), vec![39496, 41836, 21871, 73815, 41842, 38500]);
    assert!(is_decodable(&s));
    let decoded = decode(s);
    assert_eq!(&decoded, bytes);
}

#[test]
fn encode_empty_gives_empty_text() {
    let s = encode(&[]);
    assert_eq!(s, "");
    assert_eq!(decode(s), Vec::<u8>::new());
}

#[test]
fn encode_lone_byte_uses_padding_block() {
    let s = encode(&[0x41]);
    assert_eq!(codes(&s), vec![5441]);
    assert_eq!(decode(s), vec![0x41]);
}

#[test]
fn encode_pairs_use_block_of_second_byte() {
    assert_eq!(codes(&encode(&[1, 2])), vec![13825]);
    assert_eq!(codes(&encode(&[255, 255])), vec![165375]);
    // the blocks on both sides of the gap left for the surrogates
    assert_eq!(codes(&encode(&[0, 109, 0, 110])), vec![42240, 67072]);
}

#[test]
fn decode_inverts_encode_on_every_pair() {
    let mut bytes = Vec::new();
    for b2 in 0..=255u8 {
        bytes.push(b2.wrapping_mul(7));
        bytes.push(b2);
    }
    bytes.push(9);
    let s = encode(&bytes);
    assert_eq!(s.chars().count(), 257);
    assert!(is_decodable(&s));
    assert_eq!(decode(s), bytes);
}

#[test]
fn encode_inverts_decode_on_canonical_text() {
    let s = text(&[13825, 165375, 5441]);
    let bytes = decode(s.clone());
    assert_eq!(bytes, vec![1, 2, 255, 255, 0x41]);
    assert_eq!(encode(&bytes), s);
}

#[test]
fn decode_accepts_padding_in_the_middle() {
    // two lone-byte characters: decoding gives two bytes, which encode as
    // a single pair character
    let s = text(&[5376 + 0x61, 5376 + 0x62]);
    assert!(is_decodable(&s));
    let bytes = decode(s.clone());
    assert_eq!(bytes, b"ab".to_vec());
    assert_ne!(encode(&bytes), s);
    assert_eq!(codes(&encode(&bytes)), vec![0x61 + 38656]);
}

#[test]
fn is_decodable_rejects_characters_outside_the_blocks() {
    assert!(!is_decodable("A"));
    assert!(!is_decodable(&text(&[13825, 0x41])));
    assert!(is_decodable(""));
    assert!(is_decodable(&text(&[13825, 42240 + 3])));
}
