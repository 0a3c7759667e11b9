//! What holds of every grouping of words into lines and paragraphs.

use vstd::prelude::*;
use crate::extraction::paragraphs::{
    breaks_on_spacing, breaks_paragraph, flatten_lines, group_lines, group_paragraphs, line_spacing,
    on_line, paragraph_of, paragraphs_of, paragraphs_of_lines,
};
use crate::models::paragraph::ParagraphView;
use crate::models::word::WordView;

verus! {

/// The lines of any words partition them in order: joined again they are
/// the words; no line is empty; every word of a line lies within the
/// threshold of the line's first word; and the first word of each further
/// line lies at or beyond the threshold from the first word of the line
/// before it.
pub proof fn lemma_lines_partition(words: Seq<WordView>)
    ensures
        flatten_lines(group_lines(words)) == words,
        forall|i: int| 0 <= i < group_lines(words).len() ==> (#[trigger] group_lines(words)[i]).len() > 0,
        forall|i: int, j: int|
            0 <= i < group_lines(words).len() && 0 <= j < group_lines(words)[i].len() ==> on_line(
                group_lines(words)[i][0].bounds.y,
                (#[trigger] group_lines(words)[i][j]).bounds.y,
            ),
        forall|i: int|
            0 < i < group_lines(words).len() ==> !on_line(
                group_lines(words)[i - 1][0].bounds.y,
                (#[trigger] group_lines(words)[i])[0].bounds.y,
            ),
    decreases words.len(),
{
    if words.len() > 0 {
        let before = group_lines(words.drop_last());
        let word = words.last();
        let lines = group_lines(words);
        lemma_lines_partition(words.drop_last());
        if before.len() > 0 && before.last().len() > 0 && on_line(
            before.last()[0].bounds.y,
            word.bounds.y,
        ) {
            let open = before.last().push(word);
            assert(lines == before.drop_last().push(open));
            assert(lines.drop_last() == before.drop_last());
            assert(flatten_lines(lines) == flatten_lines(before.drop_last()) + open);
            assert(flatten_lines(before) == flatten_lines(before.drop_last()) + before.last());
            assert(flatten_lines(before.drop_last()) + open == (flatten_lines(before.drop_last())
                + before.last()).push(word));
            assert(words.drop_last().push(word) == words);
            assert forall|i: int, j: int|
                0 <= i < lines.len() && 0 <= j < lines[i].len() implies on_line(
                lines[i][0].bounds.y,
                (#[trigger] lines[i][j]).bounds.y,
            ) by {
                if i < lines.len() - 1 {
                    assert(lines[i] == before[i]);
                } else if j < before.last().len() {
                    assert(lines[i][j] == before.last()[j]);
                }
            }
            assert forall|i: int| 0 < i < lines.len() implies !on_line(
                lines[i - 1][0].bounds.y,
                (#[trigger] lines[i])[0].bounds.y,
            ) by {
                assert(lines[i - 1] == before[i - 1]);
                assert(lines[i][0] == before[i][0]);
            }
        } else {
            assert(lines == before.push(seq![word]));
            assert(lines.drop_last() == before);
            assert(flatten_lines(lines) == flatten_lines(before) + seq![word]);
            assert(words.drop_last() + seq![word] == words);
            assert forall|i: int, j: int|
                0 <= i < lines.len() && 0 <= j < lines[i].len() implies on_line(
                lines[i][0].bounds.y,
                (#[trigger] lines[i][j]).bounds.y,
            ) by {
                if i < before.len() {
                    assert(lines[i] == before[i]);
                }
            }
            assert forall|i: int| 0 < i < lines.len() implies !on_line(
                lines[i - 1][0].bounds.y,
                (#[trigger] lines[i])[0].bounds.y,
            ) by {
                if i < before.len() {
                    assert(lines[i - 1] == before[i - 1]);
                    assert(lines[i] == before[i]);
                } else {
                    assert(lines[i - 1] == before.last());
                }
            }
        }
    }
}

/// Two words make one line when their y differ by less than the threshold,
/// and two lines otherwise.
pub proof fn lemma_two_words(first: WordView, second: WordView)
    ensures
        on_line(first.bounds.y, second.bounds.y) ==> group_lines(seq![first, second]) == seq![
            seq![first, second],
        ],
        !on_line(first.bounds.y, second.bounds.y) ==> group_lines(seq![first, second]) == seq![
            seq![first],
            seq![second],
        ],
{
    let words = seq![first, second];
    assert(words.drop_last() == seq![first]);
    assert(seq![first].drop_last() == Seq::<WordView>::empty());
    assert(group_lines(Seq::<WordView>::empty()) == Seq::<Seq<WordView>>::empty());
    assert(group_lines(seq![first]) == seq![seq![first]]);
    let before = group_lines(seq![first]);
    assert(before.last() == seq![first]);
    if on_line(first.bounds.y, second.bounds.y) {
        assert(before.last().push(second) == seq![first, second]);
        assert(before.drop_last().push(seq![first, second]) == seq![seq![first, second]]);
    } else {
        assert(before.push(seq![second]) == seq![seq![first], seq![second]]);
    }
}

/// Two lines further apart than twice the height of the first never share
/// a paragraph.
pub proof fn lemma_wide_spacing_breaks(prev: Seq<WordView>, current: Seq<WordView>)
    requires
        prev.len() > 0,
        current.len() > 0,
        line_spacing(prev, current) > 2 * prev[0].bounds.height,
    ensures
        breaks_paragraph(prev, current),
        group_paragraphs(seq![prev, current]) == seq![seq![prev], seq![current]],
{
    assert(breaks_on_spacing(prev, current));
    lemma_two_lines(prev, current);
}

/// Two lines that are not empty make two paragraphs when one of the rules
/// breaks between them, and one paragraph otherwise.
pub proof fn lemma_two_lines(prev: Seq<WordView>, current: Seq<WordView>)
    requires
        prev.len() > 0,
        current.len() > 0,
    ensures
        breaks_paragraph(prev, current) ==> group_paragraphs(seq![prev, current]) == seq![
            seq![prev],
            seq![current],
        ],
        !breaks_paragraph(prev, current) ==> group_paragraphs(seq![prev, current]) == seq![
            seq![prev, current],
        ],
{
    let lines = seq![prev, current];
    assert(lines.drop_last() == seq![prev]);
    assert(seq![prev].drop_last() == Seq::<Seq<WordView>>::empty());
    assert(group_paragraphs(Seq::<Seq<WordView>>::empty()) == Seq::<Seq<Seq<WordView>>>::empty());
    assert(group_paragraphs(seq![prev]) == seq![seq![prev]]);
    let before = group_paragraphs(seq![prev]);
    assert(before.last() == seq![prev]);
    assert(before.last().last() == prev);
    if breaks_paragraph(prev, current) {
        assert(before.push(seq![current]) == seq![seq![prev], seq![current]]);
    } else {
        assert(before.last().push(current) == seq![prev, current]);
        assert(before.drop_last().push(seq![prev, current]) == seq![seq![prev, current]]);
    }
}

/// The words of the first `n` groups of lines, in order.
pub open spec fn group_words(groups: Seq<Seq<Seq<WordView>>>, n: int) -> Seq<WordView>
    decreases n,
{
    if n <= 0 {
        Seq::empty()
    } else {
        group_words(groups, n - 1) + flatten_lines(groups[n - 1])
    }
}

/// The words of the first `n` paragraphs, in order.
pub open spec fn paragraph_words(paragraphs: Seq<ParagraphView>, n: int) -> Seq<WordView>
    decreases n,
{
    if n <= 0 {
        Seq::empty()
    } else {
        paragraph_words(paragraphs, n - 1) + paragraphs[n - 1].words
    }
}

/// The words of the first groups depend on those groups alone.
proof fn lemma_group_words_prefix(
    a: Seq<Seq<Seq<WordView>>>,
    b: Seq<Seq<Seq<WordView>>>,
    n: int,
)
    requires
        n <= a.len(),
        n <= b.len(),
        forall|i: int| 0 <= i < n ==> a[i] == b[i],
    ensures
        group_words(a, n) == group_words(b, n),
    decreases n,
{
    if n > 0 {
        lemma_group_words_prefix(a, b, n - 1);
    }
}

/// Grouping lines into paragraphs loses no word and no order; no group is
/// empty and no group holds an empty line.
pub proof fn lemma_groups_partition(lines: Seq<Seq<WordView>>)
    ensures
        group_words(group_paragraphs(lines), group_paragraphs(lines).len() as int)
            == flatten_lines(lines),
        forall|g: int|
            0 <= g < group_paragraphs(lines).len() ==> (#[trigger] group_paragraphs(lines)[g]).len()
                > 0,
        forall|g: int, l: int|
            0 <= g < group_paragraphs(lines).len() && 0 <= l < group_paragraphs(lines)[g].len()
                ==> (#[trigger] group_paragraphs(lines)[g][l]).len() > 0,
    decreases lines.len(),
{
    if lines.len() > 0 {
        lemma_groups_partition(lines.drop_last());
        let before = group_paragraphs(lines.drop_last());
        let line = lines.last();
        let groups = group_paragraphs(lines);
        let n = before.len() as int;
        if line.len() == 0 {
            assert(flatten_lines(lines) == flatten_lines(lines.drop_last()) + line);
            assert(flatten_lines(lines.drop_last()) + line == flatten_lines(lines.drop_last()));
        } else if before.len() == 0 || before.last().len() == 0 || breaks_paragraph(
            before.last().last(),
            line,
        ) {
            assert(groups == before.push(seq![line]));
            lemma_group_words_prefix(groups, before, n);
            assert(seq![line].drop_last() == Seq::<Seq<WordView>>::empty());
            assert(flatten_lines(Seq::<Seq<WordView>>::empty()) == Seq::<WordView>::empty());
            assert(flatten_lines(seq![line]) == Seq::<WordView>::empty() + line);
            assert(Seq::<WordView>::empty() + line == line);
            assert(group_words(groups, n + 1) == group_words(groups, n) + flatten_lines(groups[n]));
            assert forall|g: int, l: int|
                0 <= g < groups.len() && 0 <= l < groups[g].len() implies (#[trigger] groups[g][l]).len()
                > 0 by {
                if g < n {
                    assert(groups[g] == before[g]);
                }
            }
        } else {
            let open = before.last().push(line);
            assert(groups == before.drop_last().push(open));
            lemma_group_words_prefix(groups, before, n - 1);
            assert(open.drop_last() == before.last());
            assert(flatten_lines(open) == flatten_lines(before.last()) + line);
            assert(group_words(groups, n) == group_words(groups, n - 1) + flatten_lines(open));
            assert(group_words(before, n) == group_words(before, n - 1) + flatten_lines(
                before.last(),
            ));
            assert(group_words(before, n - 1) + (flatten_lines(before.last()) + line) == (
            group_words(before, n - 1) + flatten_lines(before.last())) + line);
            assert forall|g: int, l: int|
                0 <= g < groups.len() && 0 <= l < groups[g].len() implies (#[trigger] groups[g][l]).len()
                > 0 by {
                if g < n - 1 {
                    assert(groups[g] == before[g]);
                } else if l < before.last().len() {
                    assert(groups[g][l] == before.last()[l]);
                }
            }
        }
    }
}

/// Joining lines that are not empty, where there is a line, gives words.
proof fn lemma_flatten_nonempty(lines: Seq<Seq<WordView>>)
    requires
        lines.len() > 0,
        lines.last().len() > 0,
    ensures
        flatten_lines(lines).len() > 0,
{
}

/// The words of the first paragraphs are the words of the first groups.
proof fn lemma_paragraph_words(lines: Seq<Seq<WordView>>, n: int)
    requires
        0 <= n <= group_paragraphs(lines).len(),
    ensures
        paragraph_words(paragraphs_of_lines(lines), n) == group_words(group_paragraphs(lines), n),
    decreases n,
{
    if n > 0 {
        lemma_paragraph_words(lines, n - 1);
        let groups = group_paragraphs(lines);
        assert(paragraphs_of_lines(lines)[n - 1] == paragraph_of((n - 1) as usize, groups[n - 1]));
    }
}

/// The paragraphs of any words partition them in reading order: every word
/// belongs to exactly one paragraph, no paragraph is without words, each
/// paragraph carries the page of its first word, and the paragraphs are
/// numbered from 0 without a gap.
pub proof fn lemma_paragraphs_partition(words: Seq<WordView>)
    ensures
        paragraph_words(paragraphs_of(words), paragraphs_of(words).len() as int) == words,
        forall|i: int|
            0 <= i < paragraphs_of(words).len() ==> {
                let paragraph = #[trigger] paragraphs_of(words)[i];
                &&& paragraph.index == i as usize
                &&& paragraph.words.len() > 0
                &&& paragraph.page_number == paragraph.words[0].page_number
            },
{
    let lines = group_lines(words);
    let groups = group_paragraphs(lines);
    lemma_lines_partition(words);
    lemma_groups_partition(lines);
    lemma_paragraph_words(lines, groups.len() as int);
    assert forall|i: int| 0 <= i < paragraphs_of(words).len() implies {
        let paragraph = #[trigger] paragraphs_of(words)[i];
        &&& paragraph.index == i as usize
        &&& paragraph.words.len() > 0
        &&& paragraph.page_number == paragraph.words[0].page_number
    } by {
        assert(paragraphs_of(words)[i] == paragraph_of(i as usize, groups[i]));
        assert(groups[i].len() > 0);
        assert(groups[i].last().len() > 0);
        lemma_flatten_nonempty(groups[i]);
    }
}

} // verus!
