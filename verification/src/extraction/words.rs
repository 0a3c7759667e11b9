use vstd::prelude::*;
use crate::chars::{char_is_control, char_is_whitespace, is_control, is_whitespace, push_char};
use crate::error::{Result, VoxPDFError, check_page};
use crate::extraction::word_laws::{
    all_assembled, is_box_of, lemma_page_words_are_assembled, lemma_word_box,
};
use crate::models::word::{Rect, Word, WordView, words_view};

verus! {

/// A horizontal gap wider than this, between the right edge of one glyph and
/// the origin of the next, ends a word: three points.
pub const WORD_SPACING_THRESHOLD: i64 = 3000;

/// One decoded glyph as the rendering engine reports it: its character, the
/// origin of its baseline, its nominal font size and its rendered width.
#[derive(Debug, Clone, Copy, PartialEq, Eq)]
pub struct PositionedChar {
    pub codepoint: char,
    pub x: i32,
    pub y: i32,
    pub font_size: u32,
    pub glyph_width: i32,
}

/// The width assumed for a glyph of the given font size: six tenths of the
/// size, rounded up to a whole unit, so that no glyph with a font size is
/// without width.
pub open spec fn glyph_advance(font_size: u32) -> int {
    (font_size as int * 6 + 9) / 10
}

/// The least origin x of the glyphs (0 for none).
pub open spec fn min_x(chars: Seq<PositionedChar>) -> int
    decreases chars.len(),
{
    if chars.len() == 0 {
        0
    } else if chars.len() == 1 {
        chars[0].x as int
    } else if chars.last().x < min_x(chars.drop_last()) {
        chars.last().x as int
    } else {
        min_x(chars.drop_last())
    }
}

/// The least origin y of the glyphs (0 for none).
pub open spec fn min_y(chars: Seq<PositionedChar>) -> int
    decreases chars.len(),
{
    if chars.len() == 0 {
        0
    } else if chars.len() == 1 {
        chars[0].y as int
    } else if chars.last().y < min_y(chars.drop_last()) {
        chars.last().y as int
    } else {
        min_y(chars.drop_last())
    }
}

/// The right edge assumed for one glyph.
pub open spec fn right_edge(c: PositionedChar) -> int {
    c.x + glyph_advance(c.font_size)
}

/// The top edge assumed for one glyph: one font size above its baseline.
pub open spec fn top_edge(c: PositionedChar) -> int {
    c.y + c.font_size
}

/// The greatest assumed right edge of the glyphs (0 for none).
pub open spec fn max_right(chars: Seq<PositionedChar>) -> int
    decreases chars.len(),
{
    if chars.len() == 0 {
        0
    } else if chars.len() == 1 {
        right_edge(chars[0])
    } else if right_edge(chars.last()) > max_right(chars.drop_last()) {
        right_edge(chars.last())
    } else {
        max_right(chars.drop_last())
    }
}

/// The greatest assumed top edge of the glyphs (0 for none).
pub open spec fn max_top(chars: Seq<PositionedChar>) -> int
    decreases chars.len(),
{
    if chars.len() == 0 {
        0
    } else if chars.len() == 1 {
        top_edge(chars[0])
    } else if top_edge(chars.last()) > max_top(chars.drop_last()) {
        top_edge(chars.last())
    } else {
        max_top(chars.drop_last())
    }
}

/// The font sizes of the glyphs, added up.
pub open spec fn font_size_sum(chars: Seq<PositionedChar>) -> int
    decreases chars.len(),
{
    if chars.len() == 0 {
        0
    } else {
        font_size_sum(chars.drop_last()) + chars.last().font_size
    }
}

/// The mean font size of the glyphs, rounded down (0 for none).
pub open spec fn mean_font_size(chars: Seq<PositionedChar>) -> int {
    if chars.len() == 0 {
        0
    } else {
        font_size_sum(chars) / (chars.len() as int)
    }
}

/// The box round the glyphs: from the least origin to the greatest assumed
/// right and top edge. For no glyphs it is the empty box at the origin.
pub open spec fn bounding_box(chars: Seq<PositionedChar>) -> Rect {
    Rect {
        x: min_x(chars) as i64,
        y: min_y(chars) as i64,
        width: (max_right(chars) - min_x(chars)) as i64,
        height: (max_top(chars) - min_y(chars)) as i64,
    }
}

/// The word that the glyphs `chars` make under the text `text`.
pub open spec fn word_of(text: Seq<char>, chars: Seq<PositionedChar>, page_num: u32) -> WordView {
    WordView {
        text,
        bounds: bounding_box(chars),
        page_number: page_num,
        font_size: mean_font_size(chars) as u32,
    }
}

/// The characters of the glyphs, in order.
pub open spec fn text_of(chars: Seq<PositionedChar>) -> Seq<char> {
    chars.map_values(|c: PositionedChar| c.codepoint)
}

/// Every glyph lies between the extremes, so the box never has a negative
/// extent, and no mean exceeds the largest font size a glyph can have.
pub proof fn lemma_box_bounds(chars: Seq<PositionedChar>)
    requires
        chars.len() > 0,
    ensures
        i32::MIN <= min_x(chars) <= i32::MAX,
        i32::MIN <= min_y(chars) <= i32::MAX,
        min_x(chars) <= max_right(chars) <= i32::MAX + glyph_advance(u32::MAX),
        min_y(chars) <= max_top(chars) <= i32::MAX + u32::MAX,
        0 <= font_size_sum(chars) <= chars.len() * u32::MAX,
        0 <= mean_font_size(chars) <= u32::MAX,
    decreases chars.len(),
{
    if chars.len() > 1 {
        lemma_box_bounds(chars.drop_last());
        assert(font_size_sum(chars) <= chars.len() * u32::MAX) by (nonlinear_arith)
            requires
                font_size_sum(chars) == font_size_sum(chars.drop_last()) + chars.last().font_size,
                font_size_sum(chars.drop_last()) <= (chars.len() - 1) * u32::MAX,
                chars.last().font_size <= u32::MAX,
        ;
    } else {
        assert(chars.drop_last().len() == 0);
        assert(font_size_sum(chars.drop_last()) == 0);
    }
    let n = chars.len() as int;
    let s = font_size_sum(chars);
    assert(0 <= s / n <= u32::MAX) by (nonlinear_arith)
        requires
            n > 0,
            0 <= s <= n * u32::MAX,
    ;
}

/// Builds the word that `chars` make: the box round them and the mean of
/// their font sizes. With no glyphs the box is empty and the size is 0.
/// With glyphs, the corner of the box lies at or below every origin, the
/// size lies between the least and the greatest of the glyphs, and width
/// and height are positive as soon as one glyph has a font size.
pub fn create_word_from_chars(text: String, chars: &Vec<PositionedChar>, page_num: u32) -> (word:
    Word)
    ensures
        word@ == word_of(text@, chars@, page_num),
        word.text == text,
        chars@.len() > 0 ==> is_box_of(word@, chars@),
{
    let n = chars.len();
    if n == 0 {
        return Word::new(text, Rect::new(0, 0, 0, 0), page_num, 0);
    }
    let first = chars[0];
    let mut lo_x: i64 = first.x as i64;
    let mut lo_y: i64 = first.y as i64;
    let mut hi_x: i64 = first.x as i64 + (first.font_size as i64 * 6 + 9) / 10;
    let mut hi_y: i64 = first.y as i64 + first.font_size as i64;
    let mut sum: u128 = first.font_size as u128;
    let mut i: usize = 1;
    proof {
        assert(chars@.take(1).drop_last().len() == 0);
        assert(chars@.take(1)[0] == chars@[0]);
        assert(font_size_sum(chars@.take(1).drop_last()) == 0);
    }
    while i < n
        invariant
            1 <= i <= n,
            n == chars.len(),
            lo_x == min_x(chars@.take(i as int)),
            lo_y == min_y(chars@.take(i as int)),
            hi_x == max_right(chars@.take(i as int)),
            hi_y == max_top(chars@.take(i as int)),
            sum == font_size_sum(chars@.take(i as int)),
        decreases n - i,
    {
        let c = chars[i];
        proof {
            let prefix = chars@.take(i as int + 1);
            assert(prefix.drop_last() == chars@.take(i as int));
            assert(prefix.last() == c);
            lemma_box_bounds(chars@.take(i as int));
            lemma_box_bounds(prefix);
        }
        if (c.x as i64) < lo_x {
            lo_x = c.x as i64;
        }
        if (c.y as i64) < lo_y {
            lo_y = c.y as i64;
        }
        let right: i64 = c.x as i64 + (c.font_size as i64 * 6 + 9) / 10;
        if right > hi_x {
            hi_x = right;
        }
        let top: i64 = c.y as i64 + c.font_size as i64;
        if top > hi_y {
            hi_y = top;
        }
        sum = sum + c.font_size as u128;
        i = i + 1;
    }
    proof {
        assert(chars@.take(n as int) == chars@);
        lemma_box_bounds(chars@);
        lemma_word_box(text@, chars@, page_num);
    }
    let mean: u128 = sum / (n as u128);
    Word::new(text, Rect::new(lo_x, lo_y, hi_x - lo_x, hi_y - lo_y), page_num, mean as u32)
}

/// What a pass over part of a rendering line has gathered: the words closed
/// so far, the glyphs of the word still open, and the right edge of the last
/// glyph seen (none before the first).
pub struct LineScan {
    pub words: Seq<WordView>,
    pub pending: Seq<PositionedChar>,
    pub prev_edge: Option<int>,
}

/// The state before the first glyph of a line.
pub open spec fn scan_start() -> LineScan {
    LineScan { words: Seq::empty(), pending: Seq::empty(), prev_edge: None }
}

/// Whether the glyph `c`, whitespace or not as `is_space` says, ends the
/// word that is open in `state`: it is whitespace, or it starts further
/// than the threshold past the last glyph's right edge.
pub open spec fn ends_word_given(state: LineScan, c: PositionedChar, is_space: bool) -> bool {
    is_space || (state.prev_edge matches Some(edge) && c.x - edge > WORD_SPACING_THRESHOLD)
}

/// Whether `c` ends the word that is open in `state`.
pub open spec fn ends_word(state: LineScan, c: PositionedChar) -> bool {
    ends_word_given(state, c, char_is_whitespace(c.codepoint))
}

/// The words of `state` with its open word, if it has any glyph, closed.
pub open spec fn closed_words(state: LineScan, page_num: u32) -> Seq<WordView> {
    if state.pending.len() > 0 {
        state.words.push(word_of(text_of(state.pending), state.pending, page_num))
    } else {
        state.words
    }
}

/// The state after the glyph `c`, whitespace or not as `is_space` says. A
/// control character changes nothing. A glyph that ends the open word
/// closes it and, unless it is whitespace, opens the next; any other glyph
/// joins the open word.
pub open spec fn scan_step_given(
    state: LineScan,
    c: PositionedChar,
    is_space: bool,
    page_num: u32,
) -> LineScan {
    if char_is_control(c.codepoint) {
        state
    } else if ends_word_given(state, c, is_space) {
        LineScan {
            words: closed_words(state, page_num),
            pending: if is_space {
                Seq::empty()
            } else {
                seq![c]
            },
            prev_edge: Some(c.x + c.glyph_width),
        }
    } else {
        LineScan {
            words: state.words,
            pending: state.pending.push(c),
            prev_edge: Some(c.x + c.glyph_width),
        }
    }
}

/// The state after the glyph `c`.
pub open spec fn scan_step(state: LineScan, c: PositionedChar, page_num: u32) -> LineScan {
    scan_step_given(state, c, char_is_whitespace(c.codepoint), page_num)
}

/// The state after all of `chars`, taken from left to right.
pub open spec fn scan_line(chars: Seq<PositionedChar>, page_num: u32) -> LineScan
    decreases chars.len(),
{
    if chars.len() == 0 {
        scan_start()
    } else {
        scan_step(scan_line(chars.drop_last(), page_num), chars.last(), page_num)
    }
}

/// The words of one rendering line.
pub open spec fn line_words(chars: Seq<PositionedChar>, page_num: u32) -> Seq<WordView> {
    closed_words(scan_line(chars, page_num), page_num)
}

/// The words of a page: those of its rendering lines, line after line.
pub open spec fn page_words(lines: Seq<Seq<PositionedChar>>, page_num: u32) -> Seq<WordView>
    decreases lines.len(),
{
    if lines.len() == 0 {
        Seq::empty()
    } else {
        page_words(lines.drop_last(), page_num) + line_words(lines.last(), page_num)
    }
}

/// The glyph sequences of the rendering lines of a page.
pub open spec fn lines_view(lines: Seq<Vec<PositionedChar>>) -> Seq<Seq<PositionedChar>> {
    lines.map_values(|line: Vec<PositionedChar>| line@)
}

/// The pass over one rendering line: it takes the glyphs one by one and
/// gathers the words they make.
pub struct LineAssembler {
    words: Vec<Word>,
    text: String,
    glyphs: Vec<PositionedChar>,
    prev_edge: Option<i64>,
    page_num: u32,
}

impl LineAssembler {
    /// What the pass has gathered.
    pub closed spec fn scan(&self) -> LineScan {
        LineScan {
            words: words_view(self.words@),
            pending: self.glyphs@,
            prev_edge: match self.prev_edge {
                Some(edge) => Some(edge as int),
                None => None,
            },
        }
    }

    /// The page that the words are put on.
    pub closed spec fn page(&self) -> u32 {
        self.page_num
    }

    /// The text of the open word is that of its glyphs.
    pub closed spec fn wf(&self) -> bool {
        self.text@ == text_of(self.glyphs@)
    }

    /// The pass before the first glyph of a line of page `page_num`.
    pub fn new(page_num: u32) -> (pass: LineAssembler)
        ensures
            pass.wf(),
            pass.page() == page_num,
            pass.scan() == scan_start(),
    {
        let pass = LineAssembler {
            words: Vec::new(),
            text: String::new(),
            glyphs: Vec::new(),
            prev_edge: None,
            page_num,
        };
        proof {
            assert(words_view(pass.words@) == Seq::<WordView>::empty());
            assert(text_of(pass.glyphs@) == Seq::<char>::empty());
        }
        pass
    }

    /// Closes the open word, if it has any glyph.
    fn close_word(&mut self)
        requires
            old(self).wf(),
        ensures
            final(self).wf(),
            final(self).page_num == old(self).page_num,
            final(self).prev_edge == old(self).prev_edge,
            final(self).glyphs@.len() == 0,
            words_view(final(self).words@) == closed_words(old(self).scan(), old(self).page_num),
    {
        if self.glyphs.len() > 0 {
            let mut text = String::new();
            std::mem::swap(&mut text, &mut self.text);
            let word = create_word_from_chars(text, &self.glyphs, self.page_num);
            proof {
                let shown = words_view(self.words@);
                assert(words_view(self.words@.push(word)) == shown.push(word@));
            }
            self.words.push(word);
            self.glyphs = Vec::new();
        }
        proof {
            assert(text_of(self.glyphs@) == Seq::<char>::empty());
        }
    }

    /// Takes the next glyph of the line. `is_space` says whether its
    /// character is whitespace.
    pub fn add_glyph(&mut self, c: PositionedChar, is_space: bool)
        requires
            old(self).wf(),
        ensures
            final(self).wf(),
            final(self).page() == old(self).page(),
            final(self).scan() == scan_step_given(old(self).scan(), c, is_space, old(self).page()),
    {
        if is_control(c.codepoint) {
            return ;
        }
        let far = match self.prev_edge {
            Some(edge) => c.x as i128 - edge as i128 > WORD_SPACING_THRESHOLD as i128,
            None => false,
        };
        let ghost before = self.scan();
        if is_space || far {
            self.close_word();
            proof {
                assert(text_of(self.glyphs@) == Seq::<char>::empty());
                assert(self.glyphs@ == Seq::<PositionedChar>::empty());
            }
            if !is_space {
                push_char(&mut self.text, c.codepoint);
                self.glyphs.push(c);
                proof {
                    assert(self.glyphs@ == seq![c]);
                    assert(text_of(self.glyphs@) == seq![c.codepoint]);
                    assert(self.text@ == seq![c.codepoint]);
                }
            }
        } else {
            proof {
                assert(text_of(self.glyphs@.push(c)) == text_of(self.glyphs@).push(c.codepoint));
            }
            push_char(&mut self.text, c.codepoint);
            self.glyphs.push(c);
        }
        self.prev_edge = Some(c.x as i64 + c.glyph_width as i64);
        proof {
            let after = scan_step_given(before, c, is_space, self.page_num);
            assert(self.scan().words == after.words);
            assert(self.scan().pending == after.pending);
            assert(self.scan().prev_edge == after.prev_edge);
        }
    }

    /// Ends the line: the word that is open is closed, and the words of the
    /// line are handed over.
    pub fn finish(self) -> (words: Vec<Word>)
        requires
            self.wf(),
        ensures
            words_view(words@) == closed_words(self.scan(), self.page()),
    {
        let mut pass = self;
        pass.close_word();
        pass.words
    }
}

/// Assembles the words of one rendering line.
pub fn assemble_line_words(line: &Vec<PositionedChar>, page_num: u32) -> (words: Vec<Word>)
    ensures
        words_view(words@) == line_words(line@, page_num),
{
    let mut pass = LineAssembler::new(page_num);
    let mut j: usize = 0;
    proof {
        assert(line@.take(0) == Seq::<PositionedChar>::empty());
    }
    while j < line.len()
        invariant
            j <= line.len(),
            pass.wf(),
            pass.page() == page_num,
            pass.scan() == scan_line(line@.take(j as int), page_num),
        decreases line.len() - j,
    {
        let c = line[j];
        proof {
            let prefix = line@.take(j as int + 1);
            assert(prefix.drop_last() == line@.take(j as int));
            assert(prefix.last() == c);
        }
        pass.add_glyph(c, is_whitespace(c.codepoint));
        j = j + 1;
    }
    proof {
        assert(line@.take(j as int) == line@);
    }
    pass.finish()
}

/// Groups the glyphs of a page into words. `lines` holds the glyphs of each
/// rendering line in reading order. Control characters are skipped;
/// whitespace, or a gap wider than [`WORD_SPACING_THRESHOLD`], ends a word;
/// the end of a line ends the word that is open. No word comes out empty
/// or with whitespace in it, and no box with a negative extent.
pub fn assemble_page_words(lines: &Vec<Vec<PositionedChar>>, page_num: u32) -> (words: Vec<Word>)
    ensures
        words_view(words@) == page_words(lines_view(lines@), page_num),
        all_assembled(words_view(words@), page_num),
{
    let mut words: Vec<Word> = Vec::new();
    let mut i: usize = 0;
    while i < lines.len()
        invariant
            i <= lines.len(),
            words_view(words@) == page_words(lines_view(lines@).take(i as int), page_num),
        decreases lines.len() - i,
    {
        proof {
            let prefix = lines_view(lines@).take(i as int + 1);
            assert(prefix.drop_last() == lines_view(lines@).take(i as int));
            assert(prefix.last() == lines@[i as int]@);
        }
        let mut added = assemble_line_words(&lines[i], page_num);
        proof {
            assert(words_view(words@ + added@) == words_view(words@) + words_view(added@));
        }
        words.append(&mut added);
        i = i + 1;
    }
    proof {
        assert(lines_view(lines@).take(i as int) == lines_view(lines@));
        lemma_page_words_are_assembled(lines_view(lines@), page_num);
    }
    words
}

/// What extracting the words of page `page_num` of a document of
/// `page_count` pages gives, from what reading the glyphs of the page
/// returned: a page outside the document is not found; a page that could
/// not be read fails with the reader's error; any other gives its words.
pub open spec fn word_extraction(
    page_num: u32,
    page_count: usize,
    glyphs: Result<Vec<Vec<PositionedChar>>>,
) -> std::result::Result<Seq<WordView>, VoxPDFError> {
    if page_num >= page_count {
        Err(VoxPDFError::PageNotFound(page_num, page_count))
    } else {
        match glyphs {
            Ok(lines) => Ok(page_words(lines_view(lines@), page_num)),
            Err(e) => Err(e),
        }
    }
}

/// Extracts the words of a page with their boxes. A page index at or
/// beyond the page count is reported as not found, with the index and the
/// count, whatever reading the glyphs returned.
pub fn extract_word_positions(
    page_num: u32,
    page_count: usize,
    glyphs: Result<Vec<Vec<PositionedChar>>>,
) -> (words: Result<Vec<Word>>)
    ensures
        match word_extraction(page_num, page_count, glyphs) {
            Ok(expected) => words matches Ok(found) && words_view(found@) == expected
                && all_assembled(words_view(found@), page_num),
            Err(e) => words == Err::<Vec<Word>, VoxPDFError>(e),
        },
{
    match check_page(page_num, page_count) {
        Err(e) => Err(e),
        Ok(_) => match glyphs {
            Ok(lines) => Ok(assemble_page_words(&lines, page_num)),
            Err(e) => Err(e),
        },
    }
}

} // verus!
