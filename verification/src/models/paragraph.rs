use vstd::prelude::*;
use crate::models::word::{Word, WordView, words_view};

verus! {

/// A paragraph: its place among the paragraphs of one extraction, its text
/// in reading order, and the words it was made of.
#[derive(Debug, PartialEq, Eq)]
pub struct Paragraph {
    pub index: usize,
    pub text: String,
    pub page_number: u32,
    pub words: Vec<Word>,
}

/// The mathematical value of a [`Paragraph`].
pub struct ParagraphView {
    pub index: usize,
    pub text: Seq<char>,
    pub page_number: u32,
    pub words: Seq<WordView>,
}

impl View for Paragraph {
    type V = ParagraphView;

    open spec fn view(&self) -> ParagraphView {
        ParagraphView {
            index: self.index,
            text: self.text@,
            page_number: self.page_number,
            words: words_view(self.words@),
        }
    }
}

impl Paragraph {
    pub fn new(index: usize, text: String, page_number: u32, words: Vec<Word>) -> (paragraph:
        Paragraph)
        ensures
            paragraph == (Paragraph { index, text, page_number, words }),
    {
        Paragraph { index, text, page_number, words }
    }

    /// The number of words of the paragraph.
    pub fn word_count(&self) -> (count: usize)
        ensures
            count == self@.words.len(),
    {
        self.words.len()
    }
}

/// The values of a sequence of paragraphs, in order.
pub open spec fn paragraphs_view(paragraphs: Seq<Paragraph>) -> Seq<ParagraphView> {
    paragraphs.map_values(|p: Paragraph| p@)
}

} // verus!
