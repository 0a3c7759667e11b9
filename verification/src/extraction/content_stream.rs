use vstd::prelude::*;
use flate2::read::ZlibDecoder;
use std::io::Read;
use crate::chars::chars_of;
use crate::error::{Result, VoxPDFError};

verus! {

/// How the content of a stream is turned into text.
#[derive(Debug, Clone, Copy, PartialEq, Eq, Structural)]
pub enum StreamDecoder {
    /// ASCII85 first, then Flate, done by hand: the parser's own
    /// decompression fails on this combination of filters.
    Ascii85Flate,
    /// The parser's own decompression.
    Native,
}

/// What the `Contents` entry of a page turned out to be.
#[derive(Debug, Clone, Copy, PartialEq, Eq, Structural)]
pub enum ContentsKind {
    /// A reference to a stream object.
    Stream,
    /// A reference to an object that is no stream.
    NotAStream,
    /// Not a reference at all.
    NotAReference,
}

/// Whether one of the names is `name`.
pub open spec fn has_filter(filters: Seq<String>, name: Seq<char>) -> bool {
    exists|i: int| 0 <= i < filters.len() && (#[trigger] filters[i])@ == name
}

/// The decoder for a stream whose filter array holds these names: the
/// manual one where both ASCII85 and Flate are among them, the parser's
/// own for everything else.
pub open spec fn decoder_for(filters: Seq<String>) -> StreamDecoder {
    if has_filter(filters, "ASCII85Decode"@) && has_filter(filters, "FlateDecode"@) {
        StreamDecoder::Ascii85Flate
    } else {
        StreamDecoder::Native
    }
}

/// Decides whether one of the names is `name`.
fn contains_filter(filters: &Vec<String>, name: &str) -> (found: bool)
    ensures
        found == has_filter(filters@, name@),
{
    let wanted = String::from_str(name);
    let mut i: usize = 0;
    while i < filters.len()
        invariant
            i <= filters.len(),
            wanted@ == name@,
            forall|j: int| 0 <= j < i ==> (#[trigger] filters@[j])@ != name@,
        decreases filters.len() - i,
    {
        if filters[i] == wanted {
            return true;
        }
        i = i + 1;
    }
    false
}

/// Chooses the decoder for a stream from the names in its filter array
/// (no names where the stream has no such array).
pub fn select_decoder(filters: &Vec<String>) -> (decoder: StreamDecoder)
    ensures
        decoder == decoder_for(filters@),
{
    if contains_filter(filters, "ASCII85Decode") && contains_filter(filters, "FlateDecode") {
        StreamDecoder::Ascii85Flate
    } else {
        StreamDecoder::Native
    }
}

/// Whether the text holds the end marker `~>` of ASCII85 data.
pub open spec fn has_end_marker(data: Seq<char>) -> bool {
    exists|i: int| 0 <= i < data.len() - 1 && #[trigger] data[i] == '~' && data[i + 1] == '>'
}

/// ASCII85 data between its markers: the start marker is put in front, the
/// end marker behind unless the data holds one already.
pub open spec fn framed(data: Seq<char>) -> Seq<char> {
    if has_end_marker(data) {
        seq!['<', '~'] + data
    } else {
        seq!['<', '~'] + data + seq!['~', '>']
    }
}

/// Decides whether the text holds the end marker.
fn contains_end_marker(data: &Vec<char>) -> (found: bool)
    ensures
        found == has_end_marker(data@),
{
    if data.len() < 2 {
        return false;
    }
    let last = data.len() - 1;
    let mut i: usize = 0;
    while i < last
        invariant
            i <= last,
            last == data.len() - 1,
            forall|j: int| 0 <= j < i ==> !(#[trigger] data@[j] == '~' && data@[j + 1] == '>'),
        decreases last - i,
    {
        if data[i] == '~' && data[i + 1] == '>' {
            return true;
        }
        i = i + 1;
    }
    false
}

/// Puts the raw data of a stream between the markers that the ASCII85
/// decoder expects.
pub fn frame_ascii85(data: &str) -> (text: String)
    ensures
        text@ == framed(data@),
{
    let chars = chars_of(data);
    proof {
        reveal_strlit("<~");
        reveal_strlit("~>");
        assert("<~"@ == seq!['<', '~']);
        assert("~>"@ == seq!['~', '>']);
    }
    let mut text = String::from_str("<~");
    text.append(data);
    if !contains_end_marker(&chars) {
        text.append("~>");
    }
    text
}

/// The failure that a `Contents` entry of the wrong kind is reported with.
pub open spec fn contents_error(kind: ContentsKind) -> Option<Seq<char>> {
    match kind {
        ContentsKind::Stream => None,
        ContentsKind::NotAStream => Some("Content is not a stream"@),
        ContentsKind::NotAReference => Some("Unexpected Contents type"@),
    }
}

/// Accepts a `Contents` entry that refers to a stream and fails the page
/// for any other.
pub fn check_contents(kind: ContentsKind) -> (checked: Result<()>)
    ensures
        match contents_error(kind) {
            None => checked is Ok,
            Some(message) => checked matches Err(VoxPDFError::ExtractionError(text)) && text@
                == message,
        },
{
    match kind {
        ContentsKind::Stream => Ok(()),
        ContentsKind::NotAStream => Err(
            VoxPDFError::ExtractionError(String::from_str("Content is not a stream")),
        ),
        ContentsKind::NotAReference => Err(
            VoxPDFError::ExtractionError(String::from_str("Unexpected Contents type")),
        ),
    }
}

/// What the zlib decoder, read to its end, makes of the data: the bytes it
/// inflates to, or nothing where it reports the stream corrupt or
/// incomplete.
pub uninterp spec fn zlib_inflated(data: Seq<u8>) -> Option<Seq<u8>>;

/// What `String::from_utf8_lossy` makes of the bytes: their text, with the
/// replacement character for each part that is not UTF-8.
pub uninterp spec fn utf8_lossy(bytes: Seq<u8>) -> Seq<char>;

/// `flate2::read::ZlibDecoder` read to its end: the inflated bytes, or the
/// decoder's error in its debug form. The outcome depends on the data
/// alone; the bytes are named, nothing is said of the error's words.
#[verifier::external_body]
fn zlib_inflate(data: &Vec<u8>) -> (inflated: std::result::Result<Vec<u8>, String>)
    ensures
        match inflated {
            Ok(bytes) => zlib_inflated(data@) == Some(bytes@),
            Err(_) => zlib_inflated(data@) is None,
        },
{
    let mut bytes = Vec::new();
    match ZlibDecoder::new(&data[..]).read_to_end(&mut bytes) {
        Ok(_) => Ok(bytes),
        Err(e) => Err(format!("{:?}", e)),
    }
}

/// `String::from_utf8_lossy`, as an owned string. The result is named.
#[verifier::external_body]
fn lossy_text(bytes: &Vec<u8>) -> (text: String)
    ensures
        text@ == utf8_lossy(bytes@),
{
    String::from_utf8_lossy(bytes).into_owned()
}

/// The failure with the message `prefix` followed by `detail`.
pub fn decode_error(prefix: &str, detail: &str) -> (error: VoxPDFError)
    ensures
        error matches VoxPDFError::ExtractionError(text) && text@ == prefix@ + detail@,
{
    let mut text = String::from_str(prefix);
    text.append(detail);
    VoxPDFError::ExtractionError(text)
}

/// What the message of a failed ASCII85 decoding starts with.
pub const ASCII85_ERROR: &'static str = "ASCII85 decode error: ";

/// What the message of a failed Flate decoding starts with.
pub const FLATE_ERROR: &'static str = "Flate decode error: ";

/// What the message of a failed decompression by the parser starts with.
pub const DECOMPRESS_ERROR: &'static str = "Failed to decompress stream: ";

/// The text of a stream from what inflating it returned: the inflated
/// bytes as text, or the failure of the page with the decoder's words.
pub fn text_of_inflated(inflated: std::result::Result<Vec<u8>, String>) -> (text: Result<String>)
    ensures
        match inflated {
            Ok(bytes) => text matches Ok(t) && t@ == utf8_lossy(bytes@),
            Err(detail) => text matches Err(VoxPDFError::ExtractionError(message)) && message@
                == FLATE_ERROR@ + detail@,
        },
{
    match inflated {
        Ok(bytes) => Ok(lossy_text(&bytes)),
        Err(detail) => Err(decode_error(FLATE_ERROR, detail.as_str())),
    }
}

/// Inflates ASCII85-decoded data and reads the result as text. Data that
/// does not inflate fails the page.
pub fn inflate_to_text(data: &Vec<u8>) -> (text: Result<String>)
    ensures
        match zlib_inflated(data@) {
            Some(bytes) => text matches Ok(t) && t@ == utf8_lossy(bytes),
            None => text matches Err(VoxPDFError::ExtractionError(_)),
        },
{
    text_of_inflated(zlib_inflate(data))
}

/// Reads decompressed content as text, each part that is not UTF-8
/// replaced.
pub fn content_to_text(bytes: &Vec<u8>) -> (text: String)
    ensures
        text@ == utf8_lossy(bytes@),
{
    lossy_text(bytes)
}

} // verus!
