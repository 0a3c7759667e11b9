use vstd::prelude::*;
use crate::chars::join_spaced;
use crate::extraction::paragraph_laws::{lemma_paragraphs_partition, paragraph_words};
use crate::models::paragraph::{Paragraph, ParagraphView, paragraphs_view};
use crate::models::word::{Word, WordView, append_words, copy_words, words_view};

verus! {

/// Words whose y lies closer than this to the y of the first word of a line
/// belong to that line: five points.
pub const LINE_Y_THRESHOLD: i64 = 5000;

/// A change of the left edge by more than this counts as a change of
/// indentation: ten points.
pub const INDENT_THRESHOLD: i64 = 10000;

/// The distance between two coordinates.
pub open spec fn distance(a: int, b: int) -> int {
    if a >= b {
        a - b
    } else {
        b - a
    }
}

/// Whether a word at `y` belongs to the line whose first word is at `anchor_y`.
pub open spec fn on_line(anchor_y: i64, y: i64) -> bool {
    distance(y as int, anchor_y as int) < LINE_Y_THRESHOLD
}

/// The lines of `words`, taken in the order given: a word joins the line
/// that is open while it lies within the threshold of that line's first
/// word, and opens a new line otherwise. Nothing is sorted.
pub open spec fn group_lines(words: Seq<WordView>) -> Seq<Seq<WordView>>
    decreases words.len(),
{
    if words.len() == 0 {
        Seq::empty()
    } else {
        let before = group_lines(words.drop_last());
        let word = words.last();
        if before.len() > 0 && before.last().len() > 0 && on_line(
            before.last()[0].bounds.y,
            word.bounds.y,
        ) {
            before.drop_last().push(before.last().push(word))
        } else {
            before.push(seq![word])
        }
    }
}

/// The widths of the words of a line, added up.
pub open spec fn total_width(line: Seq<WordView>) -> int
    decreases line.len(),
{
    if line.len() == 0 {
        0
    } else {
        total_width(line.drop_last()) + line.last().bounds.width
    }
}

/// The vertical distance between the first words of two lines.
pub open spec fn line_spacing(prev: Seq<WordView>, current: Seq<WordView>) -> int {
    distance(current[0].bounds.y as int, prev[0].bounds.y as int)
}

/// The spacing exceeds twice the height of the previous line.
pub open spec fn breaks_on_spacing(prev: Seq<WordView>, current: Seq<WordView>) -> bool {
    line_spacing(prev, current) > 2 * prev[0].bounds.height
}

/// The font grows by more than 15 percent: a heading begins.
pub open spec fn breaks_on_larger_font(prev: Seq<WordView>, current: Seq<WordView>) -> bool {
    current[0].font_size * 100 > prev[0].font_size * 115
}

/// The font shrinks by more than 15 percent: a heading ends.
pub open spec fn breaks_on_smaller_font(prev: Seq<WordView>, current: Seq<WordView>) -> bool {
    prev[0].font_size * 100 > current[0].font_size * 115
}

/// The left edge moves by more than the indentation threshold and the
/// spacing exceeds 1.3 times the height of the previous line.
pub open spec fn breaks_on_indent(prev: Seq<WordView>, current: Seq<WordView>) -> bool {
    distance(current[0].bounds.x as int, prev[0].bounds.x as int) > INDENT_THRESHOLD
        && line_spacing(prev, current) * 10 > prev[0].bounds.height * 13
}

/// The previous line is shorter than 0.6 times the mean width of the two
/// lines and the spacing exceeds 1.2 times the height of the previous line.
pub open spec fn breaks_on_short_line(prev: Seq<WordView>, current: Seq<WordView>) -> bool {
    total_width(prev) * 10 < (total_width(prev) + total_width(current)) * 3 && line_spacing(
        prev,
        current,
    ) * 10 > prev[0].bounds.height * 12
}

/// Whether a new paragraph starts between two lines: never next to an empty
/// line, and otherwise when one of the five rules holds.
pub open spec fn breaks_paragraph(prev: Seq<WordView>, current: Seq<WordView>) -> bool {
    prev.len() > 0 && current.len() > 0 && (breaks_on_spacing(prev, current)
        || breaks_on_larger_font(prev, current) || breaks_on_smaller_font(prev, current)
        || breaks_on_indent(prev, current) || breaks_on_short_line(prev, current))
}

/// The lines of each paragraph: empty lines are dropped, and a line opens a
/// new paragraph when [`breaks_paragraph`] holds between it and the line
/// before it.
pub open spec fn group_paragraphs(lines: Seq<Seq<WordView>>) -> Seq<Seq<Seq<WordView>>>
    decreases lines.len(),
{
    if lines.len() == 0 {
        Seq::empty()
    } else {
        let before = group_paragraphs(lines.drop_last());
        let line = lines.last();
        if line.len() == 0 {
            before
        } else if before.len() == 0 || before.last().len() == 0 || breaks_paragraph(
            before.last().last(),
            line,
        ) {
            before.push(seq![line])
        } else {
            before.drop_last().push(before.last().push(line))
        }
    }
}

/// The texts of the words, in order.
pub open spec fn texts_of(words: Seq<WordView>) -> Seq<Seq<char>> {
    words.map_values(|w: WordView| w.text)
}

/// The text of a line: its words with single spaces between them.
pub open spec fn line_text(line: Seq<WordView>) -> Seq<char> {
    join_spaced(texts_of(line))
}

/// The words of the lines, line after line.
pub open spec fn flatten_lines(lines: Seq<Seq<WordView>>) -> Seq<WordView>
    decreases lines.len(),
{
    if lines.len() == 0 {
        Seq::empty()
    } else {
        flatten_lines(lines.drop_last()) + lines.last()
    }
}

/// The paragraph made of `lines`: its text is the line texts with single
/// spaces between them, its page that of its first word (0 without words).
pub open spec fn paragraph_of(index: usize, lines: Seq<Seq<WordView>>) -> ParagraphView {
    let words = flatten_lines(lines);
    ParagraphView {
        index,
        text: join_spaced(line_texts(lines)),
        page_number: if words.len() > 0 {
            words[0].page_number
        } else {
            0
        },
        words,
    }
}

/// The paragraphs of `lines`, numbered from 0 in the order they are made.
pub open spec fn paragraphs_of_lines(lines: Seq<Seq<WordView>>) -> Seq<ParagraphView> {
    let groups = group_paragraphs(lines);
    Seq::new(groups.len(), |i: int| paragraph_of(i as usize, groups[i]))
}

/// The paragraphs of the words of one page.
pub open spec fn paragraphs_of(words: Seq<WordView>) -> Seq<ParagraphView> {
    paragraphs_of_lines(group_lines(words))
}

/// The word values of each line.
pub open spec fn lines_view(lines: Seq<Vec<Word>>) -> Seq<Seq<WordView>> {
    lines.map_values(|line: Vec<Word>| words_view(line@))
}

/// Groups words into lines by their y, in one pass over the order given.
pub fn group_words_into_lines(words: Vec<Word>) -> (lines: Vec<Vec<Word>>)
    ensures
        lines_view(lines@) == group_lines(words_view(words@)),
{
    let mut lines: Vec<Vec<Word>> = Vec::new();
    let mut current_line: Vec<Word> = Vec::new();
    let mut current_y: i64 = 0;
    let mut i: usize = 0;
    while i < words.len()
        invariant
            i <= words.len(),
            i == 0 ==> lines@.len() == 0 && current_line@.len() == 0,
            i > 0 ==> current_line@.len() > 0 && current_y == current_line@[0].bounds.y
                && group_lines(words_view(words@).take(i as int)) == lines_view(lines@).push(
                words_view(current_line@),
            ),
        decreases words.len() - i,
    {
        let word = words[i].clone();
        let ghost shown = words_view(words@);
        let ghost before = group_lines(shown.take(i as int));
        proof {
            let prefix = shown.take(i as int + 1);
            assert(prefix.drop_last() == shown.take(i as int));
            assert(prefix.last() == word@);
        }
        let same = i > 0 && (if word.bounds.y >= current_y {
            word.bounds.y as i128 - current_y as i128
        } else {
            current_y as i128 - word.bounds.y as i128
        }) < LINE_Y_THRESHOLD as i128;
        if same {
            proof {
                assert(before.drop_last() == lines_view(lines@));
                assert(words_view(current_line@.push(word)) == words_view(current_line@).push(
                    word@,
                ));
            }
            current_line.push(word);
        } else {
            if i > 0 {
                proof {
                    assert(lines_view(lines@.push(current_line)) == lines_view(lines@).push(
                        words_view(current_line@),
                    ));
                }
                lines.push(current_line);
            }
            current_y = word.bounds.y;
            current_line = Vec::new();
            current_line.push(word);
            proof {
                assert(words_view(current_line@) == seq![word@]);
            }
        }
        i = i + 1;
    }
    proof {
        assert(words_view(words@).take(i as int) == words_view(words@));
    }
    if i > 0 {
        proof {
            assert(lines_view(lines@.push(current_line)) == lines_view(lines@).push(
                words_view(current_line@),
            ));
        }
        lines.push(current_line);
    }
    lines
}

/// The largest magnitude a sum of word widths can have: one 64-bit width
/// for each index a vector can hold.
pub open spec fn width_sum_limit() -> int {
    0xffff_ffff_ffff_ffffint * 0x8000_0000_0000_0000int
}

/// Adds up the widths of the words of a line.
fn line_width(line: &Vec<Word>) -> (width: i128)
    ensures
        width == total_width(words_view(line@)),
        -width_sum_limit() <= width <= width_sum_limit(),
{
    let mut width: i128 = 0;
    let mut j: usize = 0;
    while j < line.len()
        invariant
            j <= line.len(),
            width == total_width(words_view(line@).take(j as int)),
            -(j * 0x8000_0000_0000_0000) <= width <= j * 0x8000_0000_0000_0000,
        decreases line.len() - j,
    {
        proof {
            let prefix = words_view(line@).take(j as int + 1);
            assert(prefix.drop_last() == words_view(line@).take(j as int));
            assert(prefix.last() == line@[j as int]@);
        }
        width = width + line[j].bounds.width as i128;
        j = j + 1;
    }
    proof {
        assert(words_view(line@).take(j as int) == words_view(line@));
    }
    width
}

/// Decides `10 * p < 3 * (p + c)` for sums of widths, within 128 bits.
fn is_short_against(p: i128, c: i128) -> (short: bool)
    requires
        -width_sum_limit() <= p <= width_sum_limit(),
        -width_sum_limit() <= c <= width_sum_limit(),
    ensures
        short == (p * 10 < (p + c) * 3),
{
    if p < 0 && c >= 0 {
        true
    } else if p >= 0 && c <= 0 {
        false
    } else if p >= 0 {
        let a: i128 = p / 3;
        let b: i128 = p % 3;
        let d: i128 = c / 7;
        let e: i128 = c % 7;
        a < d || (a == d && 7 * b < 3 * e)
    } else {
        let np: i128 = -p;
        let nc: i128 = -c;
        let a: i128 = np / 3;
        let b: i128 = np % 3;
        let d: i128 = nc / 7;
        let e: i128 = nc % 7;
        d < a || (d == a && 3 * e < 7 * b)
    }
}

/// The distance between two coordinates.
fn coordinate_distance(a: i64, b: i64) -> (d: i128)
    ensures
        d == distance(a as int, b as int),
{
    if a >= b {
        a as i128 - b as i128
    } else {
        b as i128 - a as i128
    }
}

/// Decides whether a new paragraph starts between two lines.
pub fn should_break_paragraph(prev_line: &Vec<Word>, current_line: &Vec<Word>) -> (breaks: bool)
    ensures
        breaks == breaks_paragraph(words_view(prev_line@), words_view(current_line@)),
{
    if prev_line.len() == 0 || current_line.len() == 0 {
        return false;
    }
    let ghost prev = words_view(prev_line@);
    let ghost current = words_view(current_line@);
    proof {
        assert(prev[0] == prev_line@[0]@);
        assert(current[0] == current_line@[0]@);
    }
    let prev_height: i128 = prev_line[0].bounds.height as i128;
    let prev_font_size: u64 = prev_line[0].font_size as u64;
    let current_font_size: u64 = current_line[0].font_size as u64;
    let spacing = coordinate_distance(current_line[0].bounds.y, prev_line[0].bounds.y);

    if spacing > 2 * prev_height {
        return true;
    }
    if current_font_size * 100 > prev_font_size * 115 {
        return true;
    }
    if prev_font_size * 100 > current_font_size * 115 {
        return true;
    }
    let indent_change = coordinate_distance(current_line[0].bounds.x, prev_line[0].bounds.x);
    if indent_change > INDENT_THRESHOLD as i128 && spacing * 10 > prev_height * 13 {
        return true;
    }
    let prev_line_width = line_width(prev_line);
    let current_line_width = line_width(current_line);
    is_short_against(prev_line_width, current_line_width) && spacing * 10 > prev_height * 12
}

/// The texts of the lines, in order.
pub open spec fn line_texts(lines: Seq<Seq<WordView>>) -> Seq<Seq<char>> {
    lines.map_values(|line: Seq<WordView>| line_text(line))
}

/// Appends `part` to `text`, after a space unless it is the first part.
fn append_part(text: &mut String, part: &str, first: bool)
    ensures
        final(text)@ == if first {
            old(text)@ + part@
        } else {
            old(text)@ + seq![' '] + part@
        },
{
    if !first {
        proof {
            reveal_strlit(" ");
            assert(" "@ == seq![' ']);
        }
        text.append(" ");
    }
    text.append(part);
}

/// Builds the text of a line: its words with single spaces between them.
fn join_line(line: &Vec<Word>) -> (text: String)
    ensures
        text@ == line_text(words_view(line@)),
{
    let mut text = String::new();
    let mut j: usize = 0;
    while j < line.len()
        invariant
            j <= line.len(),
            text@ == join_spaced(texts_of(words_view(line@)).take(j as int)),
        decreases line.len() - j,
    {
        proof {
            let prefix = texts_of(words_view(line@)).take(j as int + 1);
            assert(prefix.drop_last() == texts_of(words_view(line@)).take(j as int));
            assert(prefix.last() == line@[j as int].text@);
            if j == 1 {
                assert(prefix.drop_last()[0] == prefix[0]);
            }
        }
        append_part(&mut text, line[j].text.as_str(), j == 0);
        j = j + 1;
    }
    proof {
        assert(texts_of(words_view(line@)).take(j as int) == texts_of(words_view(line@)));
    }
    text
}

/// Makes one paragraph of `lines`, under the index given.
pub fn create_paragraph_from_lines(index: usize, lines: Vec<Vec<Word>>) -> (paragraph: Paragraph)
    ensures
        paragraph@ == paragraph_of(index, lines_view(lines@)),
{
    let mut all_words: Vec<Word> = Vec::new();
    let mut text = String::new();
    let ghost shown = lines_view(lines@);
    let mut k: usize = 0;
    while k < lines.len()
        invariant
            k <= lines.len(),
            shown == lines_view(lines@),
            words_view(all_words@) == flatten_lines(shown.take(k as int)),
            text@ == join_spaced(line_texts(shown).take(k as int)),
        decreases lines.len() - k,
    {
        proof {
            let prefix = shown.take(k as int + 1);
            assert(prefix.drop_last() == shown.take(k as int));
            assert(prefix.last() == words_view(lines@[k as int]@));
            let parts = line_texts(shown).take(k as int + 1);
            assert(parts.drop_last() == line_texts(shown).take(k as int));
            assert(parts.last() == line_text(words_view(lines@[k as int]@)));
            if k == 1 {
                assert(parts.drop_last()[0] == parts[0]);
            }
        }
        let part = join_line(&lines[k]);
        append_part(&mut text, part.as_str(), k == 0);
        let ghost gathered = all_words@;
        append_words(&mut all_words, &lines[k]);
        proof {
            assert(words_view(gathered + lines@[k as int]@) == words_view(gathered) + words_view(
                lines@[k as int]@,
            ));
        }
        k = k + 1;
    }
    proof {
        assert(shown.take(k as int) == shown);
        assert(line_texts(shown).take(k as int) == line_texts(shown));
        if all_words@.len() > 0 {
            assert(words_view(all_words@)[0] == all_words@[0]@);
        }
    }
    let page_number = if all_words.len() > 0 {
        all_words[0].page_number
    } else {
        0
    };
    Paragraph::new(index, text, page_number, all_words)
}

/// Merges lines into paragraphs, in order, numbering them from 0.
pub fn merge_lines_into_paragraphs(lines: Vec<Vec<Word>>) -> (paragraphs: Vec<Paragraph>)
    ensures
        paragraphs_view(paragraphs@) == paragraphs_of_lines(lines_view(lines@)),
{
    let mut paragraphs: Vec<Paragraph> = Vec::new();
    let mut current_para_lines: Vec<Vec<Word>> = Vec::new();
    let ghost shown = lines_view(lines@);
    let mut k: usize = 0;
    while k < lines.len()
        invariant
            k <= lines.len(),
            shown == lines_view(lines@),
            paragraphs@.len() <= k,
            current_para_lines@.len() == 0 ==> paragraphs@.len() == 0 && group_paragraphs(
                shown.take(k as int),
            ).len() == 0,
            current_para_lines@.len() > 0 ==> group_paragraphs(shown.take(k as int)).len()
                == paragraphs@.len() + 1 && group_paragraphs(shown.take(k as int)).last()
                == lines_view(current_para_lines@),
            forall|i: int|
                0 <= i < paragraphs@.len() ==> (#[trigger] paragraphs@[i])@ == paragraph_of(
                    i as usize,
                    group_paragraphs(shown.take(k as int))[i],
                ),
        decreases lines.len() - k,
    {
        let ghost before = group_paragraphs(shown.take(k as int));
        proof {
            let prefix = shown.take(k as int + 1);
            assert(prefix.drop_last() == shown.take(k as int));
            assert(prefix.last() == words_view(lines@[k as int]@));
        }
        if lines[k].len() > 0 {
            let line = copy_words(&lines[k]);
            let open_lines = current_para_lines.len();
            if open_lines == 0 {
                current_para_lines.push(line);
                proof {
                    assert(lines_view(current_para_lines@) == seq![words_view(line@)]);
                }
            } else {
                proof {
                    assert(lines_view(current_para_lines@).last() == words_view(
                        current_para_lines@[open_lines - 1]@,
                    ));
                }
                if should_break_paragraph(&current_para_lines[open_lines - 1], &line) {
                    let paragraph = create_paragraph_from_lines(
                        paragraphs.len(),
                        current_para_lines,
                    );
                    paragraphs.push(paragraph);
                    current_para_lines = Vec::new();
                    current_para_lines.push(line);
                    proof {
                        assert(lines_view(current_para_lines@) == seq![words_view(line@)]);
                    }
                } else {
                    proof {
                        assert(lines_view(current_para_lines@.push(line)) == lines_view(
                            current_para_lines@,
                        ).push(words_view(line@)));
                    }
                    current_para_lines.push(line);
                }
            }
        }
        k = k + 1;
    }
    proof {
        assert(shown.take(k as int) == shown);
    }
    if current_para_lines.len() > 0 {
        let paragraph = create_paragraph_from_lines(paragraphs.len(), current_para_lines);
        paragraphs.push(paragraph);
    }
    proof {
        assert(paragraphs_view(paragraphs@) =~= paragraphs_of_lines(shown));
    }
    paragraphs
}

/// Partitions the words of one page into paragraphs in reading order: words
/// are grouped into lines by their y, and lines into paragraphs by the five
/// rules of [`breaks_paragraph`]. Every word ends up in exactly one
/// paragraph, in the order given; no paragraph is without words; and the
/// paragraphs are numbered from 0 without a gap.
pub fn detect_paragraphs(words: Vec<Word>) -> (paragraphs: Vec<Paragraph>)
    ensures
        paragraphs_view(paragraphs@) == paragraphs_of(words_view(words@)),
        paragraph_words(paragraphs_view(paragraphs@), paragraphs@.len() as int) == words_view(
            words@,
        ),
        forall|i: int|
            0 <= i < paragraphs@.len() ==> (#[trigger] paragraphs@[i]).index == i
                && paragraphs@[i].words@.len() > 0,
{
    let ghost shown = words_view(words@);
    let lines = group_words_into_lines(words);
    let paragraphs = merge_lines_into_paragraphs(lines);
    proof {
        lemma_paragraphs_partition(shown);
        assert(paragraphs_view(paragraphs@).len() == paragraphs@.len());
        assert forall|i: int| 0 <= i < paragraphs@.len() implies (#[trigger] paragraphs@[i]).index
            == i && paragraphs@[i].words@.len() > 0 by {
            assert(paragraphs_view(paragraphs@)[i] == paragraphs@[i]@);
            assert(paragraphs_of(shown)[i] == paragraphs@[i]@);
            assert(paragraphs@.len() == paragraphs.len());
            assert(i as usize == i);
            assert(paragraphs@[i]@.words.len() == paragraphs@[i].words@.len());
        }
    }
    paragraphs
}

} // verus!
