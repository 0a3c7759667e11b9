use flate2::write::ZlibEncoder;
use flate2::Compression;
use std::io::Write;
use voxpdf_core::error::VoxPDFError;
use voxpdf_core::extraction::ascii85::{
    check_digits, decode_ascii85, decode_ascii85_flate, digits_in, extract_digits,
    leading_markers_end,
};

fn digits(text: &str) -> Vec<char> {
    text.chars().collect()
}

fn deflate(data: &[u8]) -> Vec<u8> {
    let mut encoder = ZlibEncoder::new(Vec::new(), Compression::default());
    encoder.write_all(data).unwrap();
    encoder.finish().unwrap()
}

fn fails(decoded: Result<Vec<u8>, VoxPDFError>) -> bool {
    match decoded {
        Err(VoxPDFError::ExtractionError(message)) => message.starts_with("ASCII85 decode error: "),
        _ => false,
    }
}

#[test]
fn test_decode_known_data() {
    let expected = vec![77, 97, 110, 32, 115, 117, 114, 101, 46];
    assert_eq!(decode_ascii85("9jqo^F*2M7/c"), Ok(expected.clone()));
    assert_eq!(decode_ascii85("9jqo^F*2M7/c~>"), Ok(expected.clone()));
    assert_eq!(decode_ascii85("<~9jqo^F*2M7/c~>"), Ok(expected.clone()));
    assert_eq!(decode_ascii85("9jqo^\nF*2M7\r\n/c ~>\n"), Ok(expected));
    assert_eq!(decode_ascii85("/cuuu"), Ok(vec![46, 3, 25, 180]));
    assert_eq!(decode_ascii85(""), Ok(vec![]));
    assert_eq!(decode_ascii85("~>"), Ok(vec![]));
}

#[test]
fn test_short_last_group() {
    assert_eq!(decode_ascii85("!<"), Ok(vec![1]));
    assert_eq!(decode_ascii85("!<N"), Ok(vec![1, 2]));
    assert_eq!(decode_ascii85("!<N?"), Ok(vec![1, 2, 3]));
    assert_eq!(decode_ascii85("5l"), Ok(vec![65]));
    assert_eq!(decode_ascii85("!"), Ok(vec![]));
}

#[test]
fn test_largest_group_and_the_one_beyond() {
    assert_eq!(decode_ascii85("s8W-!"), Ok(vec![255, 255, 255, 255]));
    assert!(fails(decode_ascii85("s8W-\"")));
    assert!(fails(decode_ascii85("uuuuu")));
    assert!(fails(decode_ascii85("!!!!!uuuuu")));
    // A short group is filled up with the highest digit before it is weighed.
    assert!(fails(decode_ascii85("u")));
    assert!(fails(decode_ascii85("s8W-")));
    assert_eq!(decode_ascii85("s8W,"), Ok(vec![255, 255, 255]));
}

#[test]
fn test_characters_that_are_no_digits() {
    assert!(fails(decode_ascii85("9jqo^v")));
    assert!(fails(decode_ascii85("z")));
    assert!(fails(decode_ascii85("9jqo^z")));
    assert!(fails(decode_ascii85("ab~>cd")));
    assert!(fails(decode_ascii85("9jq\u{e9}^")));
    assert!(fails(decode_ascii85("9j\u{a0}qo^")));
    assert!(fails(decode_ascii85("9jqo^\u{0}")));
}

#[test]
fn test_extract_digits() {
    assert_eq!(extract_digits("<~9jqo^~>"), "9jqo^");
    assert_eq!(extract_digits("<~<~9jqo^~>~>"), "9jqo^");
    assert_eq!(extract_digits("<~9j qo\t^\n~> \u{a0}\n"), "9jqo^");
    assert_eq!(extract_digits("<~ <~ab~>"), "<~ab");
    assert_eq!(extract_digits("<~ab~> x"), "ab~>x");
    assert_eq!(extract_digits("<~~>"), "");
    assert_eq!(extract_digits("<~>"), ">");
    assert_eq!(extract_digits("<"), "<");
    assert_eq!(extract_digits(""), "");
    assert_eq!(extract_digits("ab\u{a0}cd"), "ab\u{a0}cd");
}

#[test]
fn test_check_digits() {
    assert!(check_digits(&digits("")));
    assert!(check_digits(&digits("!")));
    assert!(check_digits(&digits("s8W-!")));
    assert!(check_digits(&digits("s8W-!s8W-!s8W,")));
    assert!(!check_digits(&digits("s8W-\"")));
    assert!(!check_digits(&digits("s8W-!s8W-\"")));
    assert!(!check_digits(&digits("s8W-!u")));
    assert!(!check_digits(&digits(" ")));
    assert!(!check_digits(&digits("v")));
    assert!(!check_digits(&digits("~")));
}

#[test]
fn test_decode_is_the_inverse_of_encode() {
    let mut data: Vec<u8> = Vec::new();
    let mut seed: u32 = 0x2545_f491;
    for round in 0..200 {
        seed ^= seed << 13;
        seed ^= seed >> 17;
        seed ^= seed << 5;
        data.push((seed >> 24) as u8);
        if round % 7 == 0 {
            data.extend_from_slice(&[255, 255, 255, 255, 0, 0, 0, 0]);
        }
        let encoded = ascii85::encode(&data);
        assert_eq!(decode_ascii85(&encoded), Ok(data.clone()), "round {}", round);
        let bare = encoded.trim_start_matches("<~");
        assert_eq!(decode_ascii85(bare), Ok(data.clone()), "round {}", round);
    }
}

#[test]
fn test_decode_ascii85_flate() {
    let content = "BT /F1 12 Tf (Hello) Tj (World) Tj ET";
    let encoded = ascii85::encode(&deflate(content.as_bytes()));
    let raw = encoded.trim_start_matches("<~").as_bytes().to_vec();
    assert_eq!(decode_ascii85_flate(&raw), Ok(content.to_string()));
    let without_end = encoded.trim_start_matches("<~").trim_end_matches("~>").as_bytes().to_vec();
    assert_eq!(decode_ascii85_flate(&without_end), Ok(content.to_string()));
}

#[test]
fn test_decode_ascii85_flate_failures() {
    // No ASCII85 at all.
    match decode_ascii85_flate(&b"{not ascii85}".to_vec()) {
        Err(VoxPDFError::ExtractionError(m)) => assert!(m.starts_with("ASCII85 decode error: ")),
        other => panic!("unexpected {:?}", other),
    }
    // ASCII85 of something that is no zlib stream.
    let encoded = ascii85::encode(b"plain bytes, not deflated");
    match decode_ascii85_flate(&encoded.as_bytes()[2..].to_vec()) {
        Err(VoxPDFError::ExtractionError(m)) => assert!(m.starts_with("Flate decode error: ")),
        other => panic!("unexpected {:?}", other),
    }
}

#[test]
fn test_leading_markers_end() {
    assert_eq!(leading_markers_end(&digits("<~9jqo^~>")), 2);
    assert_eq!(leading_markers_end(&digits("<~<~<~x")), 6);
    assert_eq!(leading_markers_end(&digits("<~<")), 2);
    assert_eq!(leading_markers_end(&digits("9jqo^")), 0);
    assert_eq!(leading_markers_end(&digits("<")), 0);
    assert_eq!(leading_markers_end(&digits("")), 0);
}

#[test]
fn test_digits_in_a_range() {
    let text = digits("<~9j qo^~>~>xx");
    assert_eq!(digits_in(&text, 2, 12), "9jqo^");
    assert_eq!(digits_in(&text, 2, 10), "9jqo^");
    assert_eq!(digits_in(&text, 2, 14), "9jqo^~>~>xx");
    assert_eq!(digits_in(&text, 0, 10), "<~9jqo^");
    assert_eq!(digits_in(&text, 8, 12), "");
    assert_eq!(digits_in(&text, 5, 5), "");
    assert_eq!(digits_in(&digits("a\tb\nc\x0cd\re f"), 0, 11), "abcdef");
}
