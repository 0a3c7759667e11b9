//! What holds of every word that is assembled from glyphs.

use vstd::prelude::*;
use vstd::seq_lib::{to_multiset_len, to_multiset_remove};
use crate::chars::{char_is_control, char_is_whitespace};
use crate::extraction::words::{
    LineScan, PositionedChar, bounding_box, closed_words, ends_word, font_size_sum, glyph_advance,
    lemma_box_bounds, line_words, max_right, max_top, mean_font_size, min_x, min_y, page_words,
    right_edge, scan_line, scan_step_given, text_of, top_edge, word_of,
};
use crate::models::word::WordView;

verus! {

/// The four extremes of the box are reached by a glyph and passed by none.
pub proof fn lemma_box_extremes(chars: Seq<PositionedChar>)
    requires
        chars.len() > 0,
    ensures
        forall|i: int| 0 <= i < chars.len() ==> min_x(chars) <= (#[trigger] chars[i]).x,
        forall|i: int| 0 <= i < chars.len() ==> min_y(chars) <= (#[trigger] chars[i]).y,
        forall|i: int| 0 <= i < chars.len() ==> max_right(chars) >= right_edge(#[trigger] chars[i]),
        forall|i: int| 0 <= i < chars.len() ==> max_top(chars) >= top_edge(#[trigger] chars[i]),
        exists|i: int| 0 <= i < chars.len() && min_x(chars) == (#[trigger] chars[i]).x,
        exists|i: int| 0 <= i < chars.len() && min_y(chars) == (#[trigger] chars[i]).y,
        exists|i: int| 0 <= i < chars.len() && max_right(chars) == right_edge(#[trigger] chars[i]),
        exists|i: int| 0 <= i < chars.len() && max_top(chars) == top_edge(#[trigger] chars[i]),
    decreases chars.len(),
{
    if chars.len() == 1 {
        assert(min_x(chars) == chars[0].x);
        assert(min_y(chars) == chars[0].y);
        assert(max_right(chars) == right_edge(chars[0]));
        assert(max_top(chars) == top_edge(chars[0]));
    } else {
        let rest = chars.drop_last();
        let last = chars.len() - 1;
        lemma_box_extremes(rest);
        assert forall|i: int| 0 <= i < chars.len() implies min_x(chars) <= (#[trigger] chars[i]).x
            && min_y(chars) <= chars[i].y && max_right(chars) >= right_edge(chars[i]) && max_top(
            chars,
        ) >= top_edge(chars[i]) by {
            if i < last {
                assert(rest[i] == chars[i]);
            }
        }
        let ix = choose|i: int| 0 <= i < rest.len() && min_x(rest) == (#[trigger] rest[i]).x;
        let iy = choose|i: int| 0 <= i < rest.len() && min_y(rest) == (#[trigger] rest[i]).y;
        let ir = choose|i: int| 0 <= i < rest.len() && max_right(rest) == right_edge(#[trigger] rest[i]);
        let it = choose|i: int| 0 <= i < rest.len() && max_top(rest) == top_edge(#[trigger] rest[i]);
        assert(rest[ix] == chars[ix] && rest[iy] == chars[iy] && rest[ir] == chars[ir] && rest[it]
            == chars[it]);
        let jx = if chars.last().x < min_x(rest) { last } else { ix };
        let jy = if chars.last().y < min_y(rest) { last } else { iy };
        let jr = if right_edge(chars.last()) > max_right(rest) { last } else { ir };
        let jt = if top_edge(chars.last()) > max_top(rest) { last } else { it };
        assert(min_x(chars) == chars[jx].x);
        assert(min_y(chars) == chars[jy].y);
        assert(max_right(chars) == right_edge(chars[jr]));
        assert(max_top(chars) == top_edge(chars[jt]));
    }
}

/// The box of a word with glyphs has the least origin as its corner, is at
/// least as wide as the width assumed for any of its glyphs and at least as
/// high as the font size of any of them. So it is never negative, and both
/// its width and its height are positive once a glyph has a font size.
pub proof fn lemma_box_extent(chars: Seq<PositionedChar>)
    requires
        chars.len() > 0,
    ensures
        bounding_box(chars).x == min_x(chars),
        bounding_box(chars).y == min_y(chars),
        bounding_box(chars).width == max_right(chars) - min_x(chars),
        bounding_box(chars).height == max_top(chars) - min_y(chars),
        bounding_box(chars).width >= 0,
        bounding_box(chars).height >= 0,
        forall|i: int|
            0 <= i < chars.len() ==> bounding_box(chars).x <= (#[trigger] chars[i]).x
                && bounding_box(chars).y <= chars[i].y,
        forall|i: int|
            0 <= i < chars.len() ==> bounding_box(chars).width >= glyph_advance(
                (#[trigger] chars[i]).font_size,
            ),
        forall|i: int|
            0 <= i < chars.len() ==> bounding_box(chars).height >= (#[trigger] chars[i]).font_size,
        forall|i: int|
            0 <= i < chars.len() && (#[trigger] chars[i]).font_size >= 1 ==> bounding_box(
                chars,
            ).width > 0 && bounding_box(chars).height > 0,
{
    lemma_box_bounds(chars);
    lemma_box_extremes(chars);
    assert forall|i: int| 0 <= i < chars.len() implies bounding_box(chars).width >= glyph_advance(
        (#[trigger] chars[i]).font_size,
    ) && bounding_box(chars).height >= chars[i].font_size by {
        assert(right_edge(chars[i]) == chars[i].x + glyph_advance(chars[i].font_size));
    }
    assert forall|i: int|
        0 <= i < chars.len() && (#[trigger] chars[i]).font_size >= 1 implies bounding_box(
        chars,
    ).width > 0 && bounding_box(chars).height > 0 by {
        assert(glyph_advance(chars[i].font_size) >= 1);
    }
}

/// Taking one glyph out takes its font size out of the sum.
proof fn lemma_sum_remove(chars: Seq<PositionedChar>, j: int)
    requires
        0 <= j < chars.len(),
    ensures
        font_size_sum(chars) == font_size_sum(chars.remove(j)) + chars[j].font_size,
    decreases chars.len(),
{
    if j == chars.len() - 1 {
        assert(chars.remove(j) == chars.drop_last());
    } else {
        lemma_sum_remove(chars.drop_last(), j);
        assert(chars.remove(j).drop_last() == chars.drop_last().remove(j));
        assert(chars.remove(j).last() == chars.last());
    }
}

/// The sum of the font sizes does not depend on the order of the glyphs.
proof fn lemma_sum_any_order(a: Seq<PositionedChar>, b: Seq<PositionedChar>)
    requires
        a.to_multiset() == b.to_multiset(),
    ensures
        font_size_sum(a) == font_size_sum(b),
        a.len() == b.len(),
    decreases a.len(),
{
    to_multiset_len(a);
    to_multiset_len(b);
    if a.len() > 0 {
        let last = a.last();
        lemma_member(a, b, a.len() - 1);
        let j = choose|j: int| 0 <= j < b.len() && b[j] == last;
        to_multiset_remove(a, a.len() - 1);
        to_multiset_remove(b, j);
        assert(a.remove(a.len() - 1) == a.drop_last());
        lemma_sum_any_order(a.drop_last(), b.remove(j));
        lemma_sum_remove(b, j);
    }
}

/// A glyph of one sequence is in every sequence with the same glyphs.
proof fn lemma_member(a: Seq<PositionedChar>, b: Seq<PositionedChar>, i: int)
    requires
        a.to_multiset() == b.to_multiset(),
        0 <= i < a.len(),
    ensures
        exists|j: int| 0 <= j < b.len() && b[j] == a[i],
{
    a.to_multiset_ensures();
    b.to_multiset_ensures();
    assert(a.contains(a[i]));
    assert(a.to_multiset().count(a[i]) > 0);
    assert(b.to_multiset().count(a[i]) > 0);
    assert(b.contains(a[i]));
}

/// The box and the mean font size of a word depend on which glyphs it has,
/// not on the order in which they come: two sequences of the same glyphs,
/// each as often in one as in the other, give the same box and mean.
pub proof fn lemma_box_any_order(a: Seq<PositionedChar>, b: Seq<PositionedChar>)
    requires
        a.to_multiset() == b.to_multiset(),
    ensures
        bounding_box(a) == bounding_box(b),
        mean_font_size(a) == mean_font_size(b),
{
    lemma_sum_any_order(a, b);
    if a.len() > 0 {
        lemma_box_extremes(a);
        lemma_box_extremes(b);
        assert forall|i: int| 0 <= i < a.len() implies min_x(b) <= (#[trigger] a[i]).x && min_y(b)
            <= a[i].y && max_right(b) >= right_edge(a[i]) && max_top(b) >= top_edge(a[i]) by {
            lemma_member(a, b, i);
        }
        assert forall|i: int| 0 <= i < b.len() implies min_x(a) <= (#[trigger] b[i]).x && min_y(a)
            <= b[i].y && max_right(a) >= right_edge(b[i]) && max_top(a) >= top_edge(b[i]) by {
            lemma_member(b, a, i);
        }
    }
}

/// The characters that end up in words: those that are neither control
/// characters nor whitespace, in order.
pub open spec fn kept_text(chars: Seq<PositionedChar>) -> Seq<char>
    decreases chars.len(),
{
    if chars.len() == 0 {
        Seq::empty()
    } else if char_is_control(chars.last().codepoint) || char_is_whitespace(
        chars.last().codepoint,
    ) {
        kept_text(chars.drop_last())
    } else {
        kept_text(chars.drop_last()).push(chars.last().codepoint)
    }
}

/// The texts of the words, one after the other.
pub open spec fn joined_text(words: Seq<WordView>) -> Seq<char>
    decreases words.len(),
{
    if words.len() == 0 {
        Seq::empty()
    } else {
        joined_text(words.drop_last()) + words.last().text
    }
}

/// Whether the text is not empty and free of whitespace and control
/// characters.
pub open spec fn is_word_text(text: Seq<char>) -> bool {
    text.len() > 0 && forall|k: int|
        0 <= k < text.len() ==> !char_is_whitespace(#[trigger] text[k]) && !char_is_control(text[k])
}

/// What holds of every assembled word: its text is a word text, it is on
/// the page given, its box has no negative extent, and the box has a
/// positive width and height once the word has a font size.
pub open spec fn is_assembled(word: WordView, page_num: u32) -> bool {
    &&& is_word_text(word.text)
    &&& word.page_number == page_num
    &&& word.bounds.width >= 0
    &&& word.bounds.height >= 0
    &&& word.font_size >= 1 ==> word.bounds.width > 0 && word.bounds.height > 0
}

/// What holds of the word made of the glyphs `chars`: the corner of its box
/// lies at or below every origin; its font size lies between those of a
/// smallest and of a greatest glyph; no extent is negative; and width and
/// height are positive once one glyph has a font size.
pub open spec fn is_box_of(word: WordView, chars: Seq<PositionedChar>) -> bool {
    &&& forall|i: int|
        0 <= i < chars.len() ==> word.bounds.x <= (#[trigger] chars[i]).x && word.bounds.y
            <= chars[i].y
    &&& exists|i: int| 0 <= i < chars.len() && (#[trigger] chars[i]).font_size <= word.font_size
    &&& exists|i: int| 0 <= i < chars.len() && (#[trigger] chars[i]).font_size >= word.font_size
    &&& word.bounds.width >= 0
    &&& word.bounds.height >= 0
    &&& forall|i: int|
        0 <= i < chars.len() && (#[trigger] chars[i]).font_size >= 1 ==> word.bounds.width > 0
            && word.bounds.height > 0
}

/// Whether every word is as [`is_assembled`] says.
pub open spec fn all_assembled(words: Seq<WordView>, page_num: u32) -> bool {
    forall|i: int| 0 <= i < words.len() ==> is_assembled(#[trigger] words[i], page_num)
}

/// Whether no glyph is whitespace or a control character.
pub open spec fn all_visible(chars: Seq<PositionedChar>) -> bool {
    forall|k: int|
        0 <= k < chars.len() ==> !char_is_whitespace((#[trigger] chars[k]).codepoint)
            && !char_is_control(chars[k].codepoint)
}

/// Where no font size exceeds `limit`, the sum does not exceed `limit` for
/// each glyph.
proof fn lemma_sum_limit(chars: Seq<PositionedChar>, limit: int)
    requires
        forall|i: int| 0 <= i < chars.len() ==> (#[trigger] chars[i]).font_size <= limit,
    ensures
        font_size_sum(chars) <= chars.len() * limit,
    decreases chars.len(),
{
    if chars.len() > 0 {
        lemma_sum_limit(chars.drop_last(), limit);
        assert(font_size_sum(chars) <= chars.len() * limit) by (nonlinear_arith)
            requires
                font_size_sum(chars) == font_size_sum(chars.drop_last()) + chars.last().font_size,
                font_size_sum(chars.drop_last()) <= (chars.len() - 1) * limit,
                chars.last().font_size <= limit,
        ;
    }
}

/// Where no font size is below `floor`, the sum is not below `floor` for
/// each glyph.
proof fn lemma_sum_floor(chars: Seq<PositionedChar>, floor: int)
    requires
        forall|i: int| 0 <= i < chars.len() ==> (#[trigger] chars[i]).font_size >= floor,
    ensures
        font_size_sum(chars) >= chars.len() * floor,
    decreases chars.len(),
{
    if chars.len() > 0 {
        lemma_sum_floor(chars.drop_last(), floor);
        assert(font_size_sum(chars) >= chars.len() * floor) by (nonlinear_arith)
            requires
                font_size_sum(chars) == font_size_sum(chars.drop_last()) + chars.last().font_size,
                font_size_sum(chars.drop_last()) >= (chars.len() - 1) * floor,
                chars.last().font_size >= floor,
        ;
    }
}

/// The mean font size lies between the font size of some glyph and that of
/// some other: it is neither below the least nor above the greatest.
pub proof fn lemma_mean_between(chars: Seq<PositionedChar>)
    requires
        chars.len() > 0,
    ensures
        exists|i: int| 0 <= i < chars.len() && (#[trigger] chars[i]).font_size <= mean_font_size(
            chars,
        ),
        exists|i: int| 0 <= i < chars.len() && (#[trigger] chars[i]).font_size >= mean_font_size(
            chars,
        ),
{
    let n = chars.len() as int;
    let sum = font_size_sum(chars);
    let mean = mean_font_size(chars);
    if forall|i: int| 0 <= i < chars.len() ==> (#[trigger] chars[i]).font_size >= mean + 1 {
        lemma_sum_floor(chars, mean + 1);
        assert(sum / n >= mean + 1) by (nonlinear_arith)
            requires
                n > 0,
                sum >= n * (mean + 1),
        ;
    }
    if forall|i: int| 0 <= i < chars.len() ==> (#[trigger] chars[i]).font_size <= mean - 1 {
        lemma_sum_limit(chars, mean - 1);
        assert(sum / n <= mean - 1) by (nonlinear_arith)
            requires
                n > 0,
                sum <= n * (mean - 1),
        ;
    }
}

/// The word made of glyphs is as [`is_box_of`] says.
pub proof fn lemma_word_box(text: Seq<char>, chars: Seq<PositionedChar>, page_num: u32)
    requires
        chars.len() > 0,
    ensures
        is_box_of(word_of(text, chars, page_num), chars),
{
    lemma_box_extent(chars);
    lemma_box_bounds(chars);
    lemma_mean_between(chars);
}

/// The word made of visible glyphs is as [`is_assembled`] says.
proof fn lemma_word_is_assembled(chars: Seq<PositionedChar>, page_num: u32)
    requires
        chars.len() > 0,
        all_visible(chars),
    ensures
        is_assembled(word_of(text_of(chars), chars, page_num), page_num),
{
    let word = word_of(text_of(chars), chars, page_num);
    lemma_box_extent(chars);
    lemma_box_bounds(chars);
    assert forall|k: int| 0 <= k < word.text.len() implies !char_is_whitespace(
        #[trigger] word.text[k],
    ) && !char_is_control(word.text[k]) by {
        assert(word.text[k] == chars[k].codepoint);
    }
    lemma_mean_between(chars);
}

/// Closing the open word moves its characters to the closed words.
proof fn lemma_closed(state: LineScan, page_num: u32)
    requires
        all_assembled(state.words, page_num),
        all_visible(state.pending),
    ensures
        joined_text(closed_words(state, page_num)) == joined_text(state.words) + text_of(
            state.pending,
        ),
        all_assembled(closed_words(state, page_num), page_num),
{
    let closed = closed_words(state, page_num);
    if state.pending.len() > 0 {
        assert(closed.drop_last() == state.words);
        assert(closed.last().text == text_of(state.pending));
        lemma_word_is_assembled(state.pending, page_num);
        assert forall|i: int| 0 <= i < closed.len() implies is_assembled(
            #[trigger] closed[i],
            page_num,
        ) by {
            if i < state.words.len() {
                assert(closed[i] == state.words[i]);
            }
        }
    } else {
        assert(text_of(state.pending) == Seq::<char>::empty());
        assert(joined_text(state.words) + Seq::<char>::empty() == joined_text(state.words));
    }
}

/// What holds while a line is scanned: the closed words and the open word
/// together hold the kept characters, and none holds anything else.
proof fn lemma_scan(chars: Seq<PositionedChar>, page_num: u32)
    ensures
        joined_text(scan_line(chars, page_num).words) + text_of(scan_line(chars, page_num).pending)
            == kept_text(chars),
        all_assembled(scan_line(chars, page_num).words, page_num),
        all_visible(scan_line(chars, page_num).pending),
    decreases chars.len(),
{
    let state = scan_line(chars, page_num);
    if chars.len() == 0 {
        assert(joined_text(state.words) + text_of(state.pending) == Seq::<char>::empty());
    } else {
        let before = scan_line(chars.drop_last(), page_num);
        let c = chars.last();
        lemma_scan(chars.drop_last(), page_num);
        if char_is_control(c.codepoint) {
        } else if ends_word(before, c) {
            assert(state == scan_step_given(before, c, char_is_whitespace(c.codepoint), page_num));
            let closed = closed_words(before, page_num);
            lemma_closed(before, page_num);
            assert(state.words == closed);
            if char_is_whitespace(c.codepoint) {
                assert(text_of(state.pending) == Seq::<char>::empty());
                assert(joined_text(closed) + Seq::<char>::empty() == joined_text(closed));
            } else {
                assert(text_of(state.pending) == seq![c.codepoint]);
                assert(joined_text(closed) + seq![c.codepoint] == (joined_text(before.words)
                    + text_of(before.pending)).push(c.codepoint));
            }
        } else {
            assert(text_of(state.pending) == text_of(before.pending).push(c.codepoint));
            assert(joined_text(before.words) + text_of(before.pending).push(c.codepoint) == (
            joined_text(before.words) + text_of(before.pending)).push(c.codepoint));
        }
    }
}

/// The words of a line hold its characters that are neither control
/// characters nor whitespace, each once and in order, and every word is as
/// [`is_assembled`] says: not empty, free of whitespace, on the page given,
/// with a box of no negative extent.
pub proof fn lemma_line_words_keep_text(chars: Seq<PositionedChar>, page_num: u32)
    ensures
        joined_text(line_words(chars, page_num)) == kept_text(chars),
        all_assembled(line_words(chars, page_num), page_num),
{
    lemma_scan(chars, page_num);
    lemma_closed(scan_line(chars, page_num), page_num);
}

/// Every word of a page is as [`is_assembled`] says: not empty, free of
/// whitespace and control characters, on the page given, with a box of no
/// negative extent that is positive where the font size allows it.
pub proof fn lemma_page_words_are_assembled(lines: Seq<Seq<PositionedChar>>, page_num: u32)
    ensures
        all_assembled(page_words(lines, page_num), page_num),
    decreases lines.len(),
{
    if lines.len() > 0 {
        lemma_page_words_are_assembled(lines.drop_last(), page_num);
        lemma_line_words_keep_text(lines.last(), page_num);
        let before = page_words(lines.drop_last(), page_num);
        let added = line_words(lines.last(), page_num);
        assert forall|i: int| 0 <= i < page_words(lines, page_num).len() implies is_assembled(
            #[trigger] page_words(lines, page_num)[i],
            page_num,
        ) by {
            if i < before.len() {
                assert(page_words(lines, page_num)[i] == before[i]);
            } else {
                assert(page_words(lines, page_num)[i] == added[i - before.len()]);
            }
        }
    }
}

} // verus!
