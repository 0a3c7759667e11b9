use voxpdf_core::error::VoxPDFError;
use voxpdf_core::extraction::words::{
    assemble_line_words, assemble_page_words, create_word_from_chars, extract_word_positions,
    LineAssembler, PositionedChar, WORD_SPACING_THRESHOLD,
};
use voxpdf_core::models::Rect;

fn glyph(c: char, x: i32, y: i32, size: u32, width: i32) -> PositionedChar {
    PositionedChar { codepoint: c, x, y, font_size: size, glyph_width: width }
}

/// Glyphs of `text` set side by side from `x`, six points wide, twelve points high.
fn typeset(text: &str, x: i32, y: i32) -> Vec<PositionedChar> {
    text.chars()
        .enumerate()
        .map(|(i, c)| glyph(c, x + 6_000 * i as i32, y, 12_000, 6_000))
        .collect()
}

#[test]
fn test_parse_operations() {
    let words = assemble_page_words(&vec![typeset("Hello World", 100_000, 592_000)], 0);
    let texts: Vec<&str> = words.iter().map(|w| w.text.as_str()).collect();
    assert_eq!(texts, vec!["Hello", "World"]);
}

#[test]
fn test_word_boxes_of_a_line() {
    let words = assemble_page_words(&vec![typeset("Hello World", 100_000, 592_000)], 3);
    assert_eq!(words.len(), 2);
    assert_eq!(words[0].bounds, Rect::new(100_000, 592_000, 31_200, 12_000));
    assert_eq!(words[0].font_size, 12_000);
    assert_eq!(words[0].page_number, 3);
    assert_eq!(words[1].bounds, Rect::new(136_000, 592_000, 31_200, 12_000));
    assert_eq!(words[1].page_number, 3);
}

#[test]
fn test_no_glyphs_no_words() {
    assert!(assemble_page_words(&vec![], 0).is_empty());
    assert!(assemble_page_words(&vec![vec![]], 0).is_empty());
    assert!(assemble_page_words(&vec![typeset("   ", 0, 0)], 0).is_empty());
}

#[test]
fn test_gap_over_threshold_splits() {
    assert_eq!(WORD_SPACING_THRESHOLD, 3_000);
    let at_threshold = vec![glyph('a', 0, 0, 10_000, 5_000), glyph('b', 8_000, 0, 10_000, 5_000)];
    let words = assemble_page_words(&vec![at_threshold], 0);
    assert_eq!(words.len(), 1);
    assert_eq!(words[0].text, "ab");

    let over = vec![glyph('a', 0, 0, 10_000, 5_000), glyph('b', 8_001, 0, 10_000, 5_000)];
    let words = assemble_page_words(&vec![over], 0);
    assert_eq!(words.len(), 2);
    assert_eq!(words[0].text, "a");
    assert_eq!(words[1].text, "b");
}

#[test]
fn test_gap_is_measured_from_the_rendered_width() {
    // The box assumes 0.6 of the font size, the gap uses the glyph's own width.
    let line = vec![glyph('W', 0, 0, 10_000, 9_000), glyph('i', 12_000, 0, 10_000, 2_000)];
    let words = assemble_page_words(&vec![line], 0);
    assert_eq!(words.len(), 1);
    assert_eq!(words[0].bounds, Rect::new(0, 0, 18_000, 10_000));
}

#[test]
fn test_control_characters_are_skipped() {
    let mut line = typeset("ab", 0, 0);
    line.insert(1, glyph('\u{7}', 500_000, 0, 12_000, 6_000));
    let words = assemble_page_words(&vec![line], 0);
    assert_eq!(words.len(), 1);
    assert_eq!(words[0].text, "ab");
    assert_eq!(words[0].bounds, Rect::new(0, 0, 13_200, 12_000));
}

#[test]
fn test_tab_is_a_control_character_not_a_separator() {
    let line = vec![
        glyph('a', 0, 0, 12_000, 6_000),
        glyph('\t', 6_000, 0, 12_000, 6_000),
        glyph('b', 6_000, 0, 12_000, 6_000),
    ];
    let words = assemble_page_words(&vec![line], 0);
    assert_eq!(words.len(), 1);
    assert_eq!(words[0].text, "ab");
}

#[test]
fn test_unicode_whitespace_separates() {
    let line = vec![
        glyph('a', 0, 0, 12_000, 6_000),
        glyph('\u{a0}', 6_000, 0, 12_000, 6_000),
        glyph('b', 12_000, 0, 12_000, 6_000),
        glyph('\u{3000}', 18_000, 0, 12_000, 6_000),
        glyph('c', 24_000, 0, 12_000, 6_000),
    ];
    let words = assemble_page_words(&vec![line], 0);
    let texts: Vec<&str> = words.iter().map(|w| w.text.as_str()).collect();
    assert_eq!(texts, vec!["a", "b", "c"]);
}

#[test]
fn test_end_of_line_closes_the_word() {
    let lines = vec![typeset("exam-", 100_000, 500_000), typeset("ple", 100_000, 486_000)];
    let words = assemble_page_words(&lines, 1);
    let texts: Vec<&str> = words.iter().map(|w| w.text.as_str()).collect();
    assert_eq!(texts, vec!["exam-", "ple"]);
    assert_eq!(words[1].bounds.y, 486_000);
}

#[test]
fn test_first_glyph_of_a_line_never_counts_as_a_gap() {
    // The second line starts far to the right of where the first one ended.
    let lines = vec![typeset("a", 0, 100_000), typeset("b", 400_000, 100_000)];
    let words = assemble_page_words(&lines, 0);
    assert_eq!(words.len(), 2);
}

#[test]
fn test_glyph_running_backwards_joins() {
    let line = vec![glyph('a', 100_000, 0, 12_000, 6_000), glyph('b', 50_000, 0, 12_000, 6_000)];
    let words = assemble_page_words(&vec![line], 0);
    assert_eq!(words.len(), 1);
    assert_eq!(words[0].bounds, Rect::new(50_000, 0, 57_200, 12_000));
}

#[test]
fn test_box_and_mean_of_mixed_sizes() {
    let chars = vec![
        glyph('a', 100, 200, 12_000, 50),
        glyph('b', 7_000, 150, 10_000, 50),
        glyph('c', 3_000, 300, 10_001, 50),
    ];
    let word = create_word_from_chars("abc".to_string(), &chars, 9);
    assert_eq!(word.text, "abc");
    assert_eq!(word.page_number, 9);
    // x: least origin; right edge: 7000 + 6000; top: 200 + 12000; bottom: 150.
    assert_eq!(word.bounds, Rect::new(100, 150, 13_000 - 100, 12_200 - 150));
    // (12000 + 10000 + 10001) / 3, rounded down.
    assert_eq!(word.font_size, 10_667);
}

#[test]
fn test_glyph_advance_rounds_up() {
    let chars = vec![glyph('a', 0, 0, 12_001, 0)];
    let word = create_word_from_chars("a".to_string(), &chars, 0);
    assert_eq!(word.bounds.width, 7_201);
    assert_eq!(word.bounds.height, 12_001);
    let chars = vec![glyph('a', 0, 0, 12_000, 0)];
    let word = create_word_from_chars("a".to_string(), &chars, 0);
    assert_eq!(word.bounds.width, 7_200);
    let chars = vec![glyph('a', 0, 0, 2, 0)];
    let word = create_word_from_chars("a".to_string(), &chars, 0);
    assert_eq!(word.bounds.width, 2);
}

#[test]
fn test_smallest_glyph_still_has_a_box() {
    let chars = vec![glyph('a', 500_000, -500_000, 1, 0)];
    let word = create_word_from_chars("a".to_string(), &chars, 0);
    assert_eq!(word.bounds, Rect::new(500_000, -500_000, 1, 1));
    assert_eq!(word.font_size, 1);
    let chars = vec![glyph('a', 0, 0, 0, 0)];
    let word = create_word_from_chars("a".to_string(), &chars, 0);
    assert_eq!(word.bounds, Rect::new(0, 0, 0, 0));
}

#[test]
fn test_box_holds_every_glyph_and_mean_lies_between_sizes() {
    let chars = vec![
        glyph('a', 40, -7, 9_000, 0),
        glyph('b', -3, 12, 1, 0),
        glyph('c', 15, 2, 30_000, 0),
        glyph('d', 0, 0, 0, 0),
    ];
    let word = create_word_from_chars("abcd".to_string(), &chars, 0);
    for c in &chars {
        assert!(word.bounds.x <= c.x as i64 && word.bounds.y <= c.y as i64);
        assert!(word.bounds.x + word.bounds.width >= c.x as i64);
        assert!(word.bounds.y + word.bounds.height >= c.y as i64 + c.font_size as i64);
    }
    assert!(word.bounds.width > 0 && word.bounds.height > 0);
    assert_eq!(word.font_size, 9_750);
    assert!(0 <= word.font_size && word.font_size <= 30_000);
}

#[test]
fn test_word_without_glyphs_has_the_empty_box() {
    let word = create_word_from_chars("ghost".to_string(), &vec![], 4);
    assert_eq!(word.text, "ghost");
    assert_eq!(word.bounds, Rect::new(0, 0, 0, 0));
    assert_eq!(word.font_size, 0);
    assert_eq!(word.page_number, 4);
}

#[test]
fn test_extreme_coordinates_do_not_overflow() {
    let chars = vec![
        glyph('a', i32::MIN, i32::MIN, u32::MAX, 0),
        glyph('b', i32::MAX, i32::MAX, u32::MAX, 0),
    ];
    let word = create_word_from_chars("ab".to_string(), &chars, 0);
    let advance = (u32::MAX as i64 * 6 + 9) / 10;
    assert_eq!(word.bounds.x, i32::MIN as i64);
    assert_eq!(word.bounds.width, i32::MAX as i64 + advance - i32::MIN as i64);
    assert_eq!(word.bounds.height, i32::MAX as i64 + u32::MAX as i64 - i32::MIN as i64);
    assert_eq!(word.font_size, u32::MAX);
    let line = vec![glyph('a', i32::MIN, 0, 1, i32::MIN), glyph('b', i32::MAX, 0, 1, i32::MAX)];
    assert_eq!(assemble_page_words(&vec![line], 0).len(), 2);
}

#[test]
fn test_same_glyphs_same_words() {
    let lines = vec![typeset("one two  three", 10_000, 700_000), typeset("four", 10_000, 686_000)];
    let first = assemble_page_words(&lines, 2);
    let second = assemble_page_words(&lines, 2);
    assert_eq!(first, second);
    assert_eq!(first.len(), 4);
}

#[test]
fn test_control_characters_are_those_of_the_standard_library() {
    for code in 0..=0x10ffffu32 {
        if let Some(c) = char::from_u32(code) {
            assert_eq!(voxpdf_core::chars::is_control(c), c.is_control(), "U+{:04X}", code);
        }
    }
}

#[test]
fn test_line_assembler_takes_the_whitespace_bit() {
    // "ab" with the second glyph declared whitespace: one word, "a".
    let mut pass = LineAssembler::new(2);
    pass.add_glyph(glyph('a', 0, 0, 12_000, 6_000), false);
    pass.add_glyph(glyph('b', 6_000, 0, 12_000, 6_000), true);
    pass.add_glyph(glyph('c', 12_000, 0, 12_000, 6_000), false);
    let words = pass.finish();
    let texts: Vec<&str> = words.iter().map(|w| w.text.as_str()).collect();
    assert_eq!(texts, vec!["a", "c"]);
    assert_eq!(words[0].bounds, Rect::new(0, 0, 7_200, 12_000));
    assert_eq!(words[1].page_number, 2);
    // A real space declared no whitespace joins the word.
    let mut pass = LineAssembler::new(0);
    pass.add_glyph(glyph('a', 0, 0, 12_000, 6_000), false);
    pass.add_glyph(glyph(' ', 6_000, 0, 12_000, 6_000), false);
    let words = pass.finish();
    assert_eq!(words.len(), 1);
    assert_eq!(words[0].text, "a ");
}

#[test]
fn test_line_assembler_steps() {
    let mut pass = LineAssembler::new(0);
    assert!(LineAssembler::new(0).finish().is_empty());
    // A control character changes nothing, not even the edge.
    pass.add_glyph(glyph('a', 0, 0, 10_000, 5_000), false);
    pass.add_glyph(glyph('\u{1b}', 900_000, 0, 10_000, 5_000), false);
    pass.add_glyph(glyph('b', 8_000, 0, 10_000, 5_000), false);
    // A gap over the threshold closes the word and opens the next.
    pass.add_glyph(glyph('c', 16_001, 0, 10_000, 5_000), false);
    // Whitespace closes the word and opens none; a second one closes nothing.
    pass.add_glyph(glyph(' ', 21_001, 0, 10_000, 5_000), true);
    pass.add_glyph(glyph(' ', 26_001, 0, 10_000, 5_000), true);
    pass.add_glyph(glyph('d', 31_001, 0, 10_000, 5_000), false);
    let words = pass.finish();
    let texts: Vec<&str> = words.iter().map(|w| w.text.as_str()).collect();
    assert_eq!(texts, vec!["ab", "c", "d"]);
}

#[test]
fn test_assemble_line_words() {
    let words = assemble_line_words(&typeset("Hello World", 100_000, 592_000), 1);
    let texts: Vec<&str> = words.iter().map(|w| w.text.as_str()).collect();
    assert_eq!(texts, vec!["Hello", "World"]);
    assert!(assemble_line_words(&vec![], 1).is_empty());
}

#[test]
fn test_word_extraction_of_a_page_beyond_the_document() {
    let lines = vec![typeset("Hello", 0, 0)];
    assert_eq!(
        extract_word_positions(3, 3, Ok(lines.clone())),
        Err(VoxPDFError::PageNotFound(3, 3))
    );
    assert_eq!(
        extract_word_positions(7, 0, Err(VoxPDFError::ExtractionError("load".to_string()))),
        Err(VoxPDFError::PageNotFound(7, 0))
    );
    assert_eq!(
        extract_word_positions(u32::MAX, 10, Ok(vec![])),
        Err(VoxPDFError::PageNotFound(u32::MAX, 10))
    );
    let words = extract_word_positions(2, 3, Ok(lines)).unwrap();
    assert_eq!(words.len(), 1);
    assert_eq!(words[0].text, "Hello");
    assert_eq!(words[0].page_number, 2);
}

#[test]
fn test_word_extraction_passes_the_readers_error_on() {
    let failed = VoxPDFError::ExtractionError("Failed to load page 1: broken".to_string());
    assert_eq!(
        extract_word_positions(1, 3, Err(failed)),
        Err(VoxPDFError::ExtractionError("Failed to load page 1: broken".to_string()))
    );
}
