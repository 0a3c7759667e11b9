use voxpdf_core::extraction::paragraphs::{
    create_paragraph_from_lines, detect_paragraphs, group_words_into_lines,
    merge_lines_into_paragraphs, should_break_paragraph, INDENT_THRESHOLD, LINE_Y_THRESHOLD,
};
use voxpdf_core::models::{Rect, Word};

fn pt(points: f64) -> i64 {
    (points * 1000.0).round() as i64
}

fn word(text: &str, x: f64, y: f64, width: f64, height: f64, size: f64) -> Word {
    Word::new(text.to_string(), Rect::new(pt(x), pt(y), pt(width), pt(height)), 0, pt(size) as u32)
}

#[test]
fn test_group_words_same_line() {
    let words = vec![
        Word::new("Hello".to_string(), Rect::new(pt(10.0), pt(100.0), pt(30.0), pt(12.0)), 0, 12_000),
        Word::new("World".to_string(), Rect::new(pt(50.0), pt(100.0), pt(30.0), pt(12.0)), 0, 12_000),
    ];

    let lines = group_words_into_lines(words);
    assert_eq!(lines.len(), 1);
    assert_eq!(lines[0].len(), 2);
}

#[test]
fn test_group_words_different_lines() {
    let words = vec![
        Word::new("Line1".to_string(), Rect::new(pt(10.0), pt(100.0), pt(30.0), pt(12.0)), 0, 12_000),
        Word::new("Line2".to_string(), Rect::new(pt(10.0), pt(120.0), pt(30.0), pt(12.0)), 0, 12_000),
    ];

    let lines = group_words_into_lines(words);
    assert_eq!(lines.len(), 2);
}

#[test]
fn test_line_threshold_is_strict() {
    assert_eq!(LINE_Y_THRESHOLD, 5_000);
    let near = vec![word("a", 0.0, 100.0, 10.0, 12.0, 12.0), word("b", 20.0, 104.999, 10.0, 12.0, 12.0)];
    assert_eq!(group_words_into_lines(near).len(), 1);
    let at = vec![word("a", 0.0, 100.0, 10.0, 12.0, 12.0), word("b", 20.0, 105.0, 10.0, 12.0, 12.0)];
    assert_eq!(group_words_into_lines(at).len(), 2);
    let below = vec![word("a", 0.0, 100.0, 10.0, 12.0, 12.0), word("b", 20.0, 95.0, 10.0, 12.0, 12.0)];
    assert_eq!(group_words_into_lines(below).len(), 2);
    let just_below = vec![word("a", 0.0, 100.0, 10.0, 12.0, 12.0), word("b", 20.0, 95.001, 10.0, 12.0, 12.0)];
    assert_eq!(group_words_into_lines(just_below).len(), 1);
}

#[test]
fn test_line_is_anchored_at_its_first_word() {
    // 108 is within 5 of 104 but not of 100, where the line began.
    let words = vec![
        word("a", 0.0, 100.0, 10.0, 12.0, 12.0),
        word("b", 20.0, 104.0, 10.0, 12.0, 12.0),
        word("c", 40.0, 108.0, 10.0, 12.0, 12.0),
    ];
    let lines = group_words_into_lines(words);
    assert_eq!(lines.len(), 2);
    assert_eq!(lines[0].len(), 2);
    assert_eq!(lines[1][0].text, "c");
}

#[test]
fn test_lines_are_not_sorted() {
    let words = vec![
        word("a", 0.0, 100.0, 10.0, 12.0, 12.0),
        word("b", 0.0, 50.0, 10.0, 12.0, 12.0),
        word("c", 20.0, 100.0, 10.0, 12.0, 12.0),
    ];
    let lines = group_words_into_lines(words);
    let texts: Vec<Vec<&str>> =
        lines.iter().map(|l| l.iter().map(|w| w.text.as_str()).collect()).collect();
    assert_eq!(texts, vec![vec!["a"], vec!["b"], vec!["c"]]);
}

#[test]
fn test_no_words_no_lines_no_paragraphs() {
    assert!(group_words_into_lines(vec![]).is_empty());
    assert!(merge_lines_into_paragraphs(vec![]).is_empty());
    assert!(detect_paragraphs(vec![]).is_empty());
}

#[test]
fn test_extreme_coordinates_group_without_overflow() {
    let words = vec![
        Word::new("a".to_string(), Rect::new(i64::MIN, i64::MIN, i64::MAX, i64::MIN), 0, u32::MAX),
        Word::new("b".to_string(), Rect::new(i64::MAX, i64::MAX, i64::MAX, i64::MAX), 0, 0),
        Word::new("c".to_string(), Rect::new(i64::MIN, i64::MIN, i64::MIN, i64::MAX), 0, u32::MAX),
    ];
    let paragraphs = detect_paragraphs(words);
    assert_eq!(paragraphs.len(), 3);
}

#[test]
fn test_paragraph_break_on_spacing() {
    let far = vec![word("a", 10.0, 100.0, 50.0, 12.0, 12.0), word("b", 10.0, 130.0, 50.0, 12.0, 12.0)];
    assert_eq!(detect_paragraphs(far).len(), 2);
    let near = vec![word("a", 10.0, 100.0, 50.0, 12.0, 12.0), word("b", 10.0, 114.0, 50.0, 12.0, 12.0)];
    let paragraphs = detect_paragraphs(near);
    assert_eq!(paragraphs.len(), 1);
    assert_eq!(paragraphs[0].text, "a b");
}

#[test]
fn test_spacing_rule_is_strict() {
    let prev = vec![word("a", 10.0, 100.0, 50.0, 12.0, 12.0)];
    let at = vec![word("b", 10.0, 124.0, 50.0, 12.0, 12.0)];
    assert!(!should_break_paragraph(&prev, &at));
    let over = vec![word("b", 10.0, 124.001, 50.0, 12.0, 12.0)];
    assert!(should_break_paragraph(&prev, &over));
    let over_upward = vec![word("b", 10.0, 75.999, 50.0, 12.0, 12.0)];
    assert!(should_break_paragraph(&prev, &over_upward));
}

#[test]
fn test_break_on_larger_font() {
    let prev = vec![word("body", 10.0, 100.0, 50.0, 12.0, 12.0)];
    let at = vec![word("body", 10.0, 86.0, 50.0, 12.0, 13.8)];
    assert!(!should_break_paragraph(&prev, &at));
    let over = vec![word("Heading", 10.0, 86.0, 50.0, 12.0, 13.801)];
    assert!(should_break_paragraph(&prev, &over));
}

#[test]
fn test_break_on_smaller_font() {
    let prev = vec![word("Heading", 10.0, 100.0, 50.0, 12.0, 13.801)];
    let current = vec![word("body", 10.0, 86.0, 50.0, 12.0, 12.0)];
    assert!(should_break_paragraph(&prev, &current));
    let prev = vec![word("Heading", 10.0, 100.0, 50.0, 12.0, 13.8)];
    assert!(!should_break_paragraph(&prev, &current));
}

#[test]
fn test_break_on_indent_needs_spacing_too() {
    assert_eq!(INDENT_THRESHOLD, 10_000);
    let prev = vec![word("a", 10.0, 100.0, 50.0, 12.0, 12.0)];
    // Indent 10.001, spacing 15.601 > 1.3 * 12.
    let both = vec![word("b", 20.001, 84.399, 50.0, 12.0, 12.0)];
    assert!(should_break_paragraph(&prev, &both));
    // Indent exactly 10: no break.
    let indent_at = vec![word("b", 20.0, 84.399, 50.0, 12.0, 12.0)];
    assert!(!should_break_paragraph(&prev, &indent_at));
    // Spacing exactly 1.3 * 12: no break.
    let spacing_at = vec![word("b", 20.001, 84.4, 50.0, 12.0, 12.0)];
    assert!(!should_break_paragraph(&prev, &spacing_at));
    // Outdent counts as well.
    let outdent = vec![word("b", -0.001, 84.399, 50.0, 12.0, 12.0)];
    assert!(should_break_paragraph(&prev, &outdent));
}

#[test]
fn test_break_after_short_line() {
    // Widths 10 and 100: 10 < 0.6 * 55. Spacing 15 > 1.2 * 12.
    let prev = vec![word("Title", 10.0, 100.0, 10.0, 12.0, 12.0)];
    let current = vec![word("text", 10.0, 85.0, 60.0, 12.0, 12.0), word("more", 75.0, 85.0, 40.0, 12.0, 12.0)];
    assert!(should_break_paragraph(&prev, &current));
    // Spacing exactly 1.2 * 12: no break.
    let close = vec![word("text", 10.0, 85.6, 100.0, 12.0, 12.0)];
    assert!(!should_break_paragraph(&prev, &close));
    // 30 against 70: 30 = 0.6 * 50, not shorter.
    let prev = vec![word("Title", 10.0, 100.0, 30.0, 12.0, 12.0)];
    let current = vec![word("text", 10.0, 85.0, 70.0, 12.0, 12.0)];
    assert!(!should_break_paragraph(&prev, &current));
    let current = vec![word("text", 10.0, 85.0, 70.001, 12.0, 12.0)];
    assert!(should_break_paragraph(&prev, &current));
}

#[test]
fn test_short_line_rule_with_huge_widths() {
    // Height 10 and spacing 15: only the short-line rule can fire.
    let wide = |w: i64| Word::new("w".to_string(), Rect::new(0, 0, w, 10), 0, 12_000);
    let under = |w: i64| Word::new("w".to_string(), Rect::new(0, -15, w, 10), 0, 12_000);
    // 7 * prev < 3 * current, far beyond 64 bits when multiplied out.
    let prev = vec![wide(i64::MAX / 3)];
    let current = vec![under(i64::MAX), under(i64::MAX), under(i64::MAX)];
    assert!(should_break_paragraph(&prev, &current));
    let prev = vec![wide(i64::MAX), wide(i64::MAX)];
    assert!(!should_break_paragraph(&prev, &current));
    // 7 * 3 * (MAX / 7) <= 3 * MAX, and one unit more on the left tips it.
    let prev = vec![wide(i64::MAX / 7), wide(i64::MAX / 7), wide(i64::MAX / 7)];
    let current = vec![under(i64::MAX)];
    assert!(!should_break_paragraph(&prev, &current));
    let current = vec![under(i64::MAX), under(1)];
    assert!(should_break_paragraph(&prev, &current));
    // Negative widths on both sides.
    let prev = vec![wide(i64::MIN)];
    let current = vec![under(i64::MIN), under(i64::MIN)];
    assert!(should_break_paragraph(&prev, &current));
    let current = vec![under(i64::MIN), under(i64::MIN), under(i64::MIN)];
    assert!(!should_break_paragraph(&prev, &current));
}

#[test]
fn test_empty_line_never_breaks() {
    let line = vec![word("a", 10.0, 100.0, 50.0, 12.0, 12.0)];
    assert!(!should_break_paragraph(&vec![], &line));
    assert!(!should_break_paragraph(&line, &vec![]));
    assert!(!should_break_paragraph(&vec![], &vec![]));
}

#[test]
fn test_paragraph_text_index_and_page() {
    let mut words = vec![
        word("Hello", 10.0, 700.0, 30.0, 12.0, 12.0),
        word("World", 45.0, 700.0, 30.0, 12.0, 12.0),
        word("again", 10.0, 686.0, 65.0, 12.0, 12.0),
        word("Next", 10.0, 640.0, 30.0, 12.0, 12.0),
        word("one", 45.0, 640.0, 30.0, 12.0, 12.0),
    ];
    for w in words.iter_mut() {
        w.page_number = 7;
    }
    let paragraphs = detect_paragraphs(words.clone());
    assert_eq!(paragraphs.len(), 2);
    assert_eq!(paragraphs[0].index, 0);
    assert_eq!(paragraphs[0].text, "Hello World again");
    assert_eq!(paragraphs[0].page_number, 7);
    assert_eq!(paragraphs[0].words, words[0..3].to_vec());
    assert_eq!(paragraphs[1].index, 1);
    assert_eq!(paragraphs[1].text, "Next one");
    assert_eq!(paragraphs[1].words, words[3..5].to_vec());
}

#[test]
fn test_every_word_lands_in_exactly_one_paragraph() {
    let mut words = Vec::new();
    for i in 0..40 {
        let y = 700.0 - (i / 4) as f64 * (if i % 8 < 4 { 14.0 } else { 31.0 });
        words.push(word(&format!("w{}", i), 10.0 + (i % 4) as f64 * 40.0, y, 35.0, 12.0, 12.0));
    }
    let paragraphs = detect_paragraphs(words.clone());
    let gathered: Vec<Word> = paragraphs.iter().flat_map(|p| p.words.clone()).collect();
    assert_eq!(gathered, words);
    for (i, p) in paragraphs.iter().enumerate() {
        assert_eq!(p.index, i);
        assert!(!p.words.is_empty());
    }
}

#[test]
fn test_merge_drops_empty_lines() {
    let lines = vec![
        vec![],
        vec![word("a", 10.0, 100.0, 50.0, 12.0, 12.0)],
        vec![],
        vec![word("b", 10.0, 86.0, 50.0, 12.0, 12.0)],
    ];
    let paragraphs = merge_lines_into_paragraphs(lines);
    assert_eq!(paragraphs.len(), 1);
    assert_eq!(paragraphs[0].text, "a b");
}

#[test]
fn test_create_paragraph_from_lines() {
    let lines = vec![
        vec![word("one", 0.0, 0.0, 1.0, 1.0, 1.0), word("two", 0.0, 0.0, 1.0, 1.0, 1.0)],
        vec![word("three", 0.0, 0.0, 1.0, 1.0, 1.0)],
    ];
    let paragraph = create_paragraph_from_lines(5, lines);
    assert_eq!(paragraph.index, 5);
    assert_eq!(paragraph.text, "one two three");
    assert_eq!(paragraph.word_count(), 3);
    let empty = create_paragraph_from_lines(0, vec![]);
    assert_eq!(empty.text, "");
    assert_eq!(empty.page_number, 0);
    assert_eq!(empty.word_count(), 0);
}
