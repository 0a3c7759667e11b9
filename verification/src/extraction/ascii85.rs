use vstd::prelude::*;
use crate::chars::{char_is_whitespace, chars_of, is_whitespace, push_char};
use crate::error::{Result, VoxPDFError};
use crate::extraction::content_stream::{
    ASCII85_ERROR, content_to_text, decode_error, frame_ascii85, framed, inflate_to_text,
    utf8_lossy, zlib_inflated,
};

verus! {

/// The text without the start markers `<~` it begins with.
pub open spec fn without_leading_markers(text: Seq<char>) -> Seq<char>
    decreases text.len(),
{
    if text.len() >= 2 && text[0] == '<' && text[1] == '~' {
        without_leading_markers(text.skip(2))
    } else {
        text
    }
}

/// The text without the whitespace it ends with.
pub open spec fn without_trailing_whitespace(text: Seq<char>) -> Seq<char>
    decreases text.len(),
{
    if text.len() > 0 && char_is_whitespace(text.last()) {
        without_trailing_whitespace(text.drop_last())
    } else {
        text
    }
}

/// The text without the end markers `~>` it ends with.
pub open spec fn without_trailing_markers(text: Seq<char>) -> Seq<char>
    decreases text.len(),
{
    if text.len() >= 2 && text[text.len() - 2] == '~' && text.last() == '>' {
        without_trailing_markers(text.take(text.len() - 2))
    } else {
        text
    }
}

/// Whether the character is one of the five that ASCII85 data may be
/// broken up with: space, tab, line feed, form feed, carriage return.
pub open spec fn is_break(c: char) -> bool {
    c == ' ' || c == '\t' || c == '\n' || c == '\x0C' || c == '\r'
}

/// The text without the characters that only break it up.
pub open spec fn without_breaks(text: Seq<char>) -> Seq<char>
    decreases text.len(),
{
    if text.len() == 0 {
        Seq::empty()
    } else if is_break(text.last()) {
        without_breaks(text.drop_last())
    } else {
        without_breaks(text.drop_last()).push(text.last())
    }
}

/// The digits of ASCII85 data between its markers: what is left of the
/// text once the markers at both ends, the whitespace behind the data and
/// the breaks inside it are taken away.
pub open spec fn digits_between_markers(text: Seq<char>) -> Seq<char> {
    without_breaks(
        without_trailing_markers(without_trailing_whitespace(without_leading_markers(text))),
    )
}

/// Whether the character is an ASCII85 digit: `!` to `u`, for 0 to 84.
pub open spec fn is_digit(c: char) -> bool {
    '!' <= c <= 'u'
}

/// Whether every character is an ASCII85 digit.
pub open spec fn all_digits(digits: Seq<char>) -> bool {
    forall|i: int| 0 <= i < digits.len() ==> is_digit(#[trigger] digits[i])
}

/// The value of the digit at `i`, and 84 beyond the end: a short last
/// group is filled up with the highest digit.
pub open spec fn digit_at(digits: Seq<char>, i: int) -> int {
    if 0 <= i < digits.len() {
        digits[i] as int - 33
    } else {
        84
    }
}

/// The number that the five digits from `start` on stand for in base 85.
pub open spec fn group_value(digits: Seq<char>, start: int) -> int {
    digit_at(digits, start) * 52200625 + digit_at(digits, start + 1) * 614125 + digit_at(
        digits,
        start + 2,
    ) * 7225 + digit_at(digits, start + 3) * 85 + digit_at(digits, start + 4)
}

/// Whether each group of five digits from `start` on stands for a number of
/// at most 32 bits.
pub open spec fn groups_fit(digits: Seq<char>, start: int) -> bool
    decreases digits.len() - start + 5,
{
    if start >= digits.len() {
        true
    } else if group_value(digits, start) <= u32::MAX {
        groups_fit(digits, start + 5)
    } else {
        false
    }
}

/// Whether the digits can be decoded: all are digits, and no group stands
/// for more than four bytes can hold.
pub open spec fn decodable(digits: Seq<char>) -> bool {
    all_digits(digits) && groups_fit(digits, 0)
}

/// The four bytes of a group, the most significant first.
pub open spec fn group_bytes(value: int) -> Seq<u8> {
    seq![
        (value / 16777216) as u8,
        (value / 65536 % 256) as u8,
        (value / 256 % 256) as u8,
        (value % 256) as u8,
    ]
}

/// The bytes that the digits from `start` on stand for: four for each full
/// group, and one less than it has digits for a short last group.
pub open spec fn bytes_from(digits: Seq<char>, start: int) -> Seq<u8>
    decreases digits.len() - start + 5,
{
    if start >= digits.len() {
        Seq::empty()
    } else if digits.len() - start >= 5 {
        group_bytes(group_value(digits, start)) + bytes_from(digits, start + 5)
    } else {
        group_bytes(group_value(digits, start)).take(digits.len() - start - 1)
    }
}

/// The bytes that the digits stand for.
pub open spec fn decoded_bytes(digits: Seq<char>) -> Seq<u8> {
    bytes_from(digits, 0)
}

/// `ascii85::decode` on bare digits. The decoder adds up the digits of a
/// group without a check, so groups beyond 32 bits are kept away from it.
/// On digits alone it trims nothing, meets no character it refuses, and
/// returns the bytes of each group, the most significant first; a short
/// last group is filled up with the highest digit and gives one byte less
/// than it has digits.
#[verifier::external_body]
fn decode_digits(digits: &str) -> (decoded: Vec<u8>)
    requires
        decodable(digits@),
    ensures
        decoded@ == decoded_bytes(digits@),
{
    ascii85::decode(digits).unwrap_or_default()
}

/// Finds where the data begins: behind the start markers that the text
/// begins with.
pub fn leading_markers_end(chars: &Vec<char>) -> (start: usize)
    ensures
        start <= chars@.len(),
        chars@.skip(start as int) == without_leading_markers(chars@),
{
    let ghost all = chars@;
    let mut start: usize = 0;
    proof {
        assert(all.skip(0) == all);
    }
    while chars.len() - start >= 2 && chars[start] == '<' && chars[start + 1] == '~'
        invariant
            start <= chars.len(),
            all == chars@,
            without_leading_markers(all) == without_leading_markers(all.skip(start as int)),
        decreases chars.len() - start,
    {
        proof {
            assert(all.skip(start as int).skip(2) == all.skip(start as int + 2));
        }
        start = start + 2;
    }
    start
}

/// Takes the digits out of `chars[start..end]`, the data with the
/// whitespace behind it cut off: the end markers it ends with and the
/// breaks inside it are left out.
pub fn digits_in(chars: &Vec<char>, start: usize, end: usize) -> (digits: String)
    requires
        start <= end <= chars@.len(),
    ensures
        digits@ == without_breaks(
            without_trailing_markers(chars@.subrange(start as int, end as int)),
        ),
{
    let ghost trimmed = chars@.subrange(start as int, end as int);
    let ghost limit = end;
    let mut end = end;
    proof {
        assert(trimmed.take(end - start) == trimmed);
    }
    while end - start >= 2 && chars[end - 2] == '~' && chars[end - 1] == '>'
        invariant
            start <= end <= limit <= chars@.len(),
            trimmed == chars@.subrange(start as int, limit as int),
            without_trailing_markers(trimmed) == without_trailing_markers(
                trimmed.take(end - start),
            ),
        decreases end,
    {
        proof {
            let cut = trimmed.take(end - start);
            assert(cut.take(cut.len() - 2) == trimmed.take(end - start - 2));
        }
        end = end - 2;
    }
    let ghost data = trimmed.take(end - start);
    proof {
        if end - start >= 2 {
            assert(data[data.len() - 2] == chars@[end - 2]);
            assert(data.last() == chars@[end - 1]);
        }
        assert(without_trailing_markers(trimmed) == data);
    }
    let mut digits = String::new();
    let mut i: usize = start;
    while i < end
        invariant
            start <= i <= end <= limit <= chars@.len(),
            trimmed == chars@.subrange(start as int, limit as int),
            data == trimmed.take(end - start),
            digits@ == without_breaks(data.take(i - start)),
        decreases end - i,
    {
        let c = chars[i];
        proof {
            let seen = data.take(i - start + 1);
            assert(seen.drop_last() == data.take(i - start));
            assert(seen.last() == c);
        }
        if !(c == ' ' || c == '\t' || c == '\n' || c == '\x0C' || c == '\r') {
            push_char(&mut digits, c);
        }
        i = i + 1;
    }
    proof {
        assert(data.take(end - start) == data);
    }
    digits
}

/// Takes the digits out of ASCII85 data that stands between its markers.
pub fn extract_digits(text: &str) -> (digits: String)
    ensures
        digits@ == digits_between_markers(text@),
{
    let chars = chars_of(text);
    let start = leading_markers_end(&chars);
    let ghost body = chars@.skip(start as int);
    let mut end: usize = chars.len();
    proof {
        assert(body.take(chars.len() - start) == body);
    }
    while end > start && is_whitespace(chars[end - 1])
        invariant
            start <= end <= chars.len(),
            body == chars@.skip(start as int),
            without_trailing_whitespace(body) == without_trailing_whitespace(
                body.take(end - start),
            ),
        decreases end,
    {
        proof {
            assert(body.take(end - start).drop_last() == body.take(end - start - 1));
        }
        end = end - 1;
    }
    proof {
        if end > start {
            assert(body.take(end - start).last() == chars@[end - 1]);
        }
        assert(body.take(end - start) == chars@.subrange(start as int, end as int));
    }
    digits_in(&chars, start, end)
}

/// Decides whether the digits can be decoded.
pub fn check_digits(digits: &Vec<char>) -> (ok: bool)
    ensures
        ok == decodable(digits@),
{
    let n = digits.len();
    let mut i: usize = 0;
    while i < n
        invariant
            i <= n,
            n == digits.len(),
            forall|j: int| 0 <= j < i ==> is_digit(#[trigger] digits@[j]),
        decreases n - i,
    {
        if !('!' <= digits[i] && digits[i] <= 'u') {
            return false;
        }
        i = i + 1;
    }
    let mut start: usize = 0;
    while start < n
        invariant
            n == digits.len(),
            all_digits(digits@),
            groups_fit(digits@, 0) == groups_fit(digits@, start as int),
        decreases n - start,
    {
        let mut value: u64 = 0;
        let mut k: usize = 0;
        while k < 5
            invariant
                k <= 5,
                start < n,
                n == digits.len(),
                all_digits(digits@),
                k == 0 ==> value == 0,
                k == 1 ==> value == digit_at(digits@, start as int),
                k == 2 ==> value == digit_at(digits@, start as int) * 85 + digit_at(
                    digits@,
                    start + 1,
                ),
                k == 3 ==> value == digit_at(digits@, start as int) * 7225 + digit_at(
                    digits@,
                    start + 1,
                ) * 85 + digit_at(digits@, start + 2),
                k == 4 ==> value == digit_at(digits@, start as int) * 614125 + digit_at(
                    digits@,
                    start + 1,
                ) * 7225 + digit_at(digits@, start + 2) * 85 + digit_at(digits@, start + 3),
                k == 5 ==> value == group_value(digits@, start as int),
                value < 4437053125,
            decreases 5 - k,
        {
            let d: u64 = if n - start > k {
                proof {
                    assert(is_digit(digits@[start + k]));
                }
                digits[start + k] as u64 - 33
            } else {
                84
            };
            assert(d == digit_at(digits@, start + k));
            assert(d <= 84);
            value = value * 85 + d;
            k = k + 1;
        }
        if value > 0xffff_ffff {
            return false;
        }
        if n - start <= 5 {
            proof {
                assert(groups_fit(digits@, start + 5));
            }
            return true;
        }
        start = start + 5;
    }
    true
}

/// What decoding raw ASCII85 data gives: the bytes of its digits, or
/// nothing where a character is no digit or a group stands for more than
/// 32 bits.
pub open spec fn ascii85_bytes(raw: Seq<char>) -> Option<Seq<u8>> {
    let digits = digits_between_markers(framed(raw));
    if decodable(digits) {
        Some(decoded_bytes(digits))
    } else {
        None
    }
}

/// What the failure of a stream whose data is no ASCII85 says.
pub const OUT_OF_RANGE: &'static str = "input is out of range for ASCII85";

/// Decodes the raw ASCII85 data of a stream, with or without its end
/// marker. Data that cannot be decoded fails the page.
pub fn decode_ascii85(raw: &str) -> (decoded: Result<Vec<u8>>)
    ensures
        match ascii85_bytes(raw@) {
            Some(bytes) => decoded matches Ok(found) && found@ == bytes,
            None => decoded matches Err(VoxPDFError::ExtractionError(message)) && message@
                == ASCII85_ERROR@ + OUT_OF_RANGE@,
        },
{
    let text = frame_ascii85(raw);
    let digits = extract_digits(text.as_str());
    let digit_chars = chars_of(digits.as_str());
    if !check_digits(&digit_chars) {
        return Err(decode_error(ASCII85_ERROR, OUT_OF_RANGE));
    }
    Ok(decode_digits(digits.as_str()))
}

/// What a stream filtered with ASCII85 and Flate holds: its raw content
/// read as text, decoded from ASCII85, inflated, and read as text again;
/// nothing where one of the two decodings fails.
pub open spec fn ascii85_flate_text(raw: Seq<u8>) -> Option<Seq<char>> {
    match ascii85_bytes(utf8_lossy(raw)) {
        Some(bytes) => match zlib_inflated(bytes) {
            Some(inflated) => Some(utf8_lossy(inflated)),
            None => None,
        },
        None => None,
    }
}

/// Decodes the raw content of a stream that is filtered with ASCII85 and
/// Flate. A content that cannot be decoded fails the page.
pub fn decode_ascii85_flate(raw: &Vec<u8>) -> (text: Result<String>)
    ensures
        match ascii85_flate_text(raw@) {
            Some(content) => text matches Ok(t) && t@ == content,
            None => text matches Err(VoxPDFError::ExtractionError(_)),
        },
{
    let encoded = content_to_text(raw);
    match decode_ascii85(encoded.as_str()) {
        Ok(bytes) => inflate_to_text(&bytes),
        Err(e) => Err(e),
    }
}

} // verus!
