use flate2::write::ZlibEncoder;
use flate2::Compression;
use std::io::Write;
use voxpdf_core::error::VoxPDFError;
use voxpdf_core::extraction::content_stream::{
    check_contents, content_to_text, decode_error, frame_ascii85, inflate_to_text, select_decoder,
    text_of_inflated, ContentsKind, StreamDecoder, ASCII85_ERROR, DECOMPRESS_ERROR, FLATE_ERROR,
};

fn names(list: &[&str]) -> Vec<String> {
    list.iter().map(|s| s.to_string()).collect()
}

fn deflate(data: &[u8]) -> Vec<u8> {
    let mut encoder = ZlibEncoder::new(Vec::new(), Compression::default());
    encoder.write_all(data).unwrap();
    encoder.finish().unwrap()
}

#[test]
fn test_select_decoder() {
    assert_eq!(select_decoder(&names(&["ASCII85Decode", "FlateDecode"])), StreamDecoder::Ascii85Flate);
    assert_eq!(select_decoder(&names(&["FlateDecode", "ASCII85Decode"])), StreamDecoder::Ascii85Flate);
    assert_eq!(
        select_decoder(&names(&["LZWDecode", "FlateDecode", "x", "ASCII85Decode"])),
        StreamDecoder::Ascii85Flate
    );
    assert_eq!(select_decoder(&names(&["FlateDecode"])), StreamDecoder::Native);
    assert_eq!(select_decoder(&names(&["ASCII85Decode"])), StreamDecoder::Native);
    assert_eq!(select_decoder(&names(&["ascii85decode", "flatedecode"])), StreamDecoder::Native);
    assert_eq!(select_decoder(&names(&["ASCII85Decode ", "FlateDecode"])), StreamDecoder::Native);
    assert_eq!(select_decoder(&names(&[])), StreamDecoder::Native);
}

#[test]
fn test_frame_ascii85() {
    assert_eq!(frame_ascii85("9jqo^"), "<~9jqo^~>");
    assert_eq!(frame_ascii85("9jqo^~>"), "<~9jqo^~>");
    assert_eq!(frame_ascii85("9jqo^~>\n"), "<~9jqo^~>\n");
    assert_eq!(frame_ascii85("~>"), "<~~>");
    assert_eq!(frame_ascii85(""), "<~~>");
    assert_eq!(frame_ascii85("~"), "<~~~>");
    assert_eq!(frame_ascii85(">~"), "<~>~~>");
    assert_eq!(frame_ascii85("a~ >"), "<~a~ >~>");
}

#[test]
fn test_check_contents() {
    assert_eq!(check_contents(ContentsKind::Stream), Ok(()));
    assert_eq!(
        check_contents(ContentsKind::NotAStream),
        Err(VoxPDFError::ExtractionError("Content is not a stream".to_string()))
    );
    assert_eq!(
        check_contents(ContentsKind::NotAReference),
        Err(VoxPDFError::ExtractionError("Unexpected Contents type".to_string()))
    );
}

#[test]
fn test_inflate_to_text() {
    let content = "BT (Hello) Tj ET";
    assert_eq!(inflate_to_text(&deflate(content.as_bytes())), Ok(content.to_string()));
    assert_eq!(inflate_to_text(&deflate(b"")), Ok(String::new()));
    let long: String = "(word) Tj ".repeat(5_000);
    assert_eq!(inflate_to_text(&deflate(long.as_bytes())), Ok(long));
}

#[test]
fn test_inflate_reads_bad_utf8_lossily() {
    let text = inflate_to_text(&deflate(b"a\xffb")).unwrap();
    assert_eq!(text, "a\u{fffd}b");
}

#[test]
fn test_corrupt_data_fails_the_page() {
    match inflate_to_text(&b"this is no zlib stream".to_vec()) {
        Err(VoxPDFError::ExtractionError(message)) => assert!(message.starts_with(FLATE_ERROR)),
        other => panic!("unexpected {:?}", other),
    }
    let mut cut = deflate(&b"BT (Hello) Tj ET".repeat(50));
    cut.truncate(cut.len() / 2);
    assert!(matches!(inflate_to_text(&cut), Err(VoxPDFError::ExtractionError(_))));
    assert!(matches!(inflate_to_text(&vec![]), Err(VoxPDFError::ExtractionError(_))));
}

#[test]
fn test_text_of_inflated() {
    assert_eq!(text_of_inflated(Ok(b"plain".to_vec())), Ok("plain".to_string()));
    assert_eq!(
        text_of_inflated(Err("Kind(InvalidInput)".to_string())),
        Err(VoxPDFError::ExtractionError("Flate decode error: Kind(InvalidInput)".to_string()))
    );
}

#[test]
fn test_content_to_text() {
    assert_eq!(content_to_text(&b"BT (Hi) Tj ET".to_vec()), "BT (Hi) Tj ET");
    assert_eq!(content_to_text(&"h\u{e9}".as_bytes().to_vec()), "h\u{e9}");
    assert_eq!(content_to_text(&vec![0x80]), "\u{fffd}");
    assert_eq!(content_to_text(&vec![]), "");
}

#[test]
fn test_decode_error_messages() {
    assert_eq!(
        decode_error(ASCII85_ERROR, "out of range"),
        VoxPDFError::ExtractionError("ASCII85 decode error: out of range".to_string())
    );
    assert_eq!(
        decode_error(DECOMPRESS_ERROR, "bad filter"),
        VoxPDFError::ExtractionError("Failed to decompress stream: bad filter".to_string())
    );
}
