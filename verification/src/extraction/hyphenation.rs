use vstd::prelude::*;
use regex::Regex;
use crate::models::paragraph::{Paragraph, ParagraphView};

verus! {

/// A word fragment, a hyphen, whitespace, and a continuation that starts
/// with a lowercase letter: a word broken at the end of a line.
pub const HYPHEN_PATTERN: &'static str = r"(\w+)-\s+([a-z]\w*)";

/// What replaces a match: the two fragments, joined.
pub const HYPHEN_REPLACEMENT: &'static str = "$1$2";

/// What `Regex::new(pattern)` followed by `replace_all(haystack,
/// replacement)` gives: nothing where the pattern does not compile, else the
/// haystack with every non-overlapping match replaced.
pub uninterp spec fn regex_replace_all(
    pattern: Seq<char>,
    haystack: Seq<char>,
    replacement: Seq<char>,
) -> Option<Seq<char>>;

/// `regex::Regex::new` and `regex::Regex::replace_all`. Both are functions
/// of their arguments alone and neither panics; the result is named.
#[verifier::external_body]
fn replace_all_matches(pattern: &str, haystack: &str, replacement: &str) -> (replaced: Option<
    String,
>)
    ensures
        match replaced {
            Some(text) => regex_replace_all(pattern@, haystack@, replacement@) == Some(text@),
            None => regex_replace_all(pattern@, haystack@, replacement@) is None,
        },
{
    match Regex::new(pattern) {
        Ok(re) => Some(re.replace_all(haystack, replacement).into_owned()),
        Err(_) => None,
    }
}

/// The text with its end-of-line hyphenation undone, given what the
/// replacement of the hyphen pattern returned: that, or the text as it was
/// where the replacement returned nothing.
pub open spec fn rejoined(text: Seq<char>, replaced: Option<Seq<char>>) -> Seq<char> {
    match replaced {
        Some(joined) => joined,
        None => text,
    }
}

/// The text with every match of [`HYPHEN_PATTERN`] replaced by its two
/// fragments.
pub open spec fn reassembled_text(text: Seq<char>) -> Seq<char> {
    rejoined(text, regex_replace_all(HYPHEN_PATTERN@, text, HYPHEN_REPLACEMENT@))
}

/// The paragraph with its text reassembled. Index, page and words stay as
/// they are: the words are not derived again from the new text.
pub open spec fn reassembled(para: ParagraphView) -> ParagraphView {
    ParagraphView { text: reassembled_text(para.text), ..para }
}

/// Puts the outcome of the replacement into the paragraph: the new text
/// where there is one, the old text otherwise. Nothing else changes.
pub fn with_rejoined_text(para: Paragraph, replaced: Option<String>) -> (out: Paragraph)
    ensures
        out.text@ == rejoined(
            para.text@,
            match replaced {
                Some(text) => Some(text@),
                None => None,
            },
        ),
        out.index == para.index,
        out.page_number == para.page_number,
        out.words == para.words,
{
    match replaced {
        Some(text) => Paragraph::new(para.index, text, para.page_number, para.words),
        None => para,
    }
}

/// Undoes the end-of-line hyphenation in the text of one paragraph.
pub fn reassemble_paragraph(para: Paragraph) -> (out: Paragraph)
    ensures
        out@ == reassembled(para@),
        out.words == para.words,
{
    let replaced = replace_all_matches(HYPHEN_PATTERN, para.text.as_str(), HYPHEN_REPLACEMENT);
    with_rejoined_text(para, replaced)
}

/// Undoes the end-of-line hyphenation in the text of each paragraph, and
/// leaves intentional hyphens alone: only a hyphen followed by whitespace
/// and a lowercase letter is taken for a line break.
pub fn reassemble_hyphenated_words(paragraphs: Vec<Paragraph>) -> (out: Vec<Paragraph>)
    ensures
        out@.len() == paragraphs@.len(),
        forall|i: int|
            0 <= i < out@.len() ==> (#[trigger] out@[i])@ == reassembled(paragraphs@[i]@),
{
    let mut paragraphs = paragraphs;
    let ghost given = paragraphs@;
    let mut out: Vec<Paragraph> = Vec::new();
    let mut i: usize = 0;
    while i < paragraphs.len()
        invariant
            i <= paragraphs.len(),
            paragraphs@.len() == given.len(),
            forall|j: int| i <= j < given.len() ==> paragraphs@[j] == given[j],
            out@.len() == i,
            forall|j: int| 0 <= j < i ==> (#[trigger] out@[j])@ == reassembled(given[j]@),
        decreases paragraphs.len() - i,
    {
        let mut para = Paragraph::new(0, String::new(), 0, Vec::new());
        std::mem::swap(&mut para, &mut paragraphs[i]);
        out.push(reassemble_paragraph(para));
        i = i + 1;
    }
    out
}

} // verus!
