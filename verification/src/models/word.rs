use vstd::prelude::*;

verus! {

/// Length units in one point. Every coordinate, extent and font size of the
/// model counts thousandths of a point.
pub const UNITS_PER_POINT: i64 = 1000;

/// An axis-aligned box in page coordinates: origin bottom-left, y upward.
#[derive(Debug, Clone, Copy, PartialEq, Eq, Structural)]
pub struct Rect {
    pub x: i64,
    pub y: i64,
    pub width: i64,
    pub height: i64,
}

impl Rect {
    pub fn new(x: i64, y: i64, width: i64, height: i64) -> (rect: Rect)
        ensures
            rect == (Rect { x, y, width, height }),
    {
        Rect { x, y, width, height }
    }
}

/// A word with the box of its glyphs and the mean size of their fonts.
#[derive(Debug, PartialEq, Eq)]
pub struct Word {
    pub text: String,
    pub bounds: Rect,
    pub page_number: u32,
    pub font_size: u32,
}

/// The mathematical value of a [`Word`].
pub struct WordView {
    pub text: Seq<char>,
    pub bounds: Rect,
    pub page_number: u32,
    pub font_size: u32,
}

impl View for Word {
    type V = WordView;

    open spec fn view(&self) -> WordView {
        WordView {
            text: self.text@,
            bounds: self.bounds,
            page_number: self.page_number,
            font_size: self.font_size,
        }
    }
}

impl Clone for Word {
    fn clone(&self) -> (copy: Word)
        ensures
            copy == *self,
    {
        Word {
            text: self.text.clone(),
            bounds: self.bounds,
            page_number: self.page_number,
            font_size: self.font_size,
        }
    }
}

impl Word {
    pub fn new(text: String, bounds: Rect, page_number: u32, font_size: u32) -> (word: Word)
        ensures
            word == (Word { text, bounds, page_number, font_size }),
    {
        Word { text, bounds, page_number, font_size }
    }
}

/// The values of a sequence of words, in order.
pub open spec fn words_view(words: Seq<Word>) -> Seq<WordView> {
    words.map_values(|w: Word| w@)
}

/// Copies the words of `source` to the end of `target`.
pub fn append_words(target: &mut Vec<Word>, source: &Vec<Word>)
    ensures
        final(target)@ == old(target)@ + source@,
{
    let mut j: usize = 0;
    while j < source.len()
        invariant
            j <= source.len(),
            target@ == old(target)@ + source@.take(j as int),
        decreases source.len() - j,
    {
        target.push(source[j].clone());
        proof {
            assert(source@.take(j as int + 1) == source@.take(j as int).push(source@[j as int]));
        }
        j = j + 1;
    }
    proof {
        assert(source@.take(j as int) == source@);
    }
}

/// A copy of `words`.
pub fn copy_words(words: &Vec<Word>) -> (copy: Vec<Word>)
    ensures
        copy@ == words@,
{
    let mut copy: Vec<Word> = Vec::new();
    append_words(&mut copy, words);
    copy
}

} // verus!
