use regex::Regex;
use voxpdf_core::extraction::hyphenation::{
    reassemble_hyphenated_words, reassemble_paragraph, with_rejoined_text, HYPHEN_PATTERN,
    HYPHEN_REPLACEMENT,
};
use voxpdf_core::models::{Paragraph, Rect, Word};

fn paragraph(text: &str) -> Paragraph {
    Paragraph::new(0, text.to_string(), 0, vec![])
}

#[test]
fn test_hyphen_pattern_matches() {
    let pattern = Regex::new(HYPHEN_PATTERN).unwrap();
    let text = "exam- ple";
    assert!(pattern.is_match(text));

    let result = pattern.replace_all(text, "$1$2");
    assert_eq!(result, "example");
    assert_eq!(reassemble_paragraph(paragraph(text)).text, "example");
}

#[test]
fn test_preserves_intentional_hyphens() {
    let pattern = Regex::new(HYPHEN_PATTERN).unwrap();
    let text = "self-contained";
    let result = pattern.replace_all(text, "$1$2");
    assert_eq!(result, "self-contained");
    assert_eq!(reassemble_paragraph(paragraph(text)).text, "self-contained");
}

#[test]
fn test_reassemble_simple_hyphenation() {
    let para = Paragraph::new(0, "This is an exam- ple of hyphenation".to_string(), 0, vec![]);

    let result = reassemble_hyphenated_words(vec![para]);

    assert_eq!(result.len(), 1);
    assert!(result[0].text.contains("example"));
    assert!(!result[0].text.contains("exam-"));
}

#[test]
fn test_preserve_intentional_hyphens() {
    let para = Paragraph::new(0, "This is a self-contained example".to_string(), 0, vec![]);

    let result = reassemble_hyphenated_words(vec![para]);

    assert!(result[0].text.contains("self-contained"));
}

#[test]
fn test_pattern_and_replacement() {
    assert_eq!(HYPHEN_PATTERN, r"(\w+)-\s+([a-z]\w*)");
    assert_eq!(HYPHEN_REPLACEMENT, "$1$2");
}

#[test]
fn test_reassembled_text_is_exact() {
    let out = reassemble_paragraph(paragraph("This is an exam- ple of hyphen-   ation."));
    assert_eq!(out.text, "This is an example of hyphenation.");
    let out = reassemble_paragraph(paragraph("line-\nbreak and tab-\tbreak"));
    assert_eq!(out.text, "linebreak and tabbreak");
}

#[test]
fn test_uppercase_continuation_is_left_alone() {
    let out = reassemble_paragraph(paragraph("It ended- Then it began"));
    assert_eq!(out.text, "It ended- Then it began");
    let out = reassemble_paragraph(paragraph("a dash - between words"));
    assert_eq!(out.text, "a dash - between words");
    let out = reassemble_paragraph(paragraph(""));
    assert_eq!(out.text, "");
}

#[test]
fn test_words_index_and_page_are_kept() {
    let words = vec![
        Word::new("exam-".to_string(), Rect::new(1, 2, 3, 4), 6, 12_000),
        Word::new("ple".to_string(), Rect::new(5, 6, 7, 8), 6, 12_000),
    ];
    let para = Paragraph::new(4, "exam- ple".to_string(), 6, words.clone());
    let out = reassemble_paragraph(para);
    assert_eq!(out.text, "example");
    assert_eq!(out.index, 4);
    assert_eq!(out.page_number, 6);
    assert_eq!(out.words, words);
}

#[test]
fn test_each_paragraph_is_reassembled_in_place() {
    let input = vec![
        Paragraph::new(0, "first para- graph".to_string(), 1, vec![]),
        Paragraph::new(1, "well-known".to_string(), 1, vec![]),
        Paragraph::new(2, "third para- graph".to_string(), 2, vec![]),
    ];
    let out = reassemble_hyphenated_words(input);
    let texts: Vec<&str> = out.iter().map(|p| p.text.as_str()).collect();
    assert_eq!(texts, vec!["first paragraph", "well-known", "third paragraph"]);
    let indices: Vec<usize> = out.iter().map(|p| p.index).collect();
    assert_eq!(indices, vec![0, 1, 2]);
    assert!(reassemble_hyphenated_words(vec![]).is_empty());
}

#[test]
fn test_with_rejoined_text() {
    let para = Paragraph::new(3, "old".to_string(), 9, vec![]);
    let out = with_rejoined_text(para, Some("new".to_string()));
    assert_eq!(out, Paragraph::new(3, "new".to_string(), 9, vec![]));
    let para = Paragraph::new(3, "old".to_string(), 9, vec![]);
    let out = with_rejoined_text(para, None);
    assert_eq!(out, Paragraph::new(3, "old".to_string(), 9, vec![]));
}
