use voxpdf_core::error::VoxPDFError;
use voxpdf_core::ffi::{
    contains_nul, paragraph_entry, toc_entry_record, voxpdf_get_paragraph, voxpdf_get_toc_entry,
    voxpdf_get_word, word_record, CParagraph, CTocEntry, CVoxPDFError, CWordPosition,
};
use voxpdf_core::models::{Paragraph, Rect, TocEntry, Word};

#[test]
fn test_status_codes() {
    assert_eq!(CVoxPDFError::Success.code(), 0);
    assert_eq!(CVoxPDFError::InvalidPDF.code(), 1);
    assert_eq!(CVoxPDFError::PageNotFound.code(), 2);
    assert_eq!(CVoxPDFError::IoError.code(), 3);
    assert_eq!(CVoxPDFError::OutOfMemory.code(), 4);
    assert_eq!(CVoxPDFError::InvalidText.code(), 5);
}

#[test]
fn test_status_of_each_error() {
    assert_eq!(CVoxPDFError::from(VoxPDFError::InvalidPDF("x".to_string())), CVoxPDFError::InvalidPDF);
    assert_eq!(CVoxPDFError::from(VoxPDFError::PageNotFound(3, 2)), CVoxPDFError::PageNotFound);
    assert_eq!(CVoxPDFError::from(VoxPDFError::Io("x".to_string())), CVoxPDFError::IoError);
    assert_eq!(CVoxPDFError::from(VoxPDFError::Lopdf("x".to_string())), CVoxPDFError::InvalidPDF);
    assert_eq!(
        CVoxPDFError::from(VoxPDFError::ExtractionError("x".to_string())),
        CVoxPDFError::InvalidPDF
    );
    let status: CVoxPDFError = VoxPDFError::PageNotFound(0, 0).into();
    assert_eq!(status, CVoxPDFError::PageNotFound);
}

#[test]
fn test_contains_nul() {
    assert!(!contains_nul(""));
    assert!(!contains_nul("plain text"));
    assert!(contains_nul("\0"));
    assert!(contains_nul("mid\0dle"));
    assert!(contains_nul("end\0"));
}

#[test]
fn test_get_word() {
    let words = vec![
        Word::new("Hello".to_string(), Rect::new(100_000, 592_000, 31_200, 12_000), 0, 12_000),
        Word::new("bad\0word".to_string(), Rect::new(1, 2, 3, 4), 0, 12_000),
    ];
    let expected = CWordPosition {
        x: 100_000,
        y: 592_000,
        width: 31_200,
        height: 12_000,
        page: 0,
        font_size: 12_000,
    };
    assert_eq!(voxpdf_get_word(&words, 0), Ok((expected, "Hello".to_string())));
    assert_eq!(voxpdf_get_word(&words, 1), Err(CVoxPDFError::InvalidText));
    assert_eq!(voxpdf_get_word(&words, 2), Err(CVoxPDFError::PageNotFound));
    assert_eq!(voxpdf_get_word(&words, usize::MAX), Err(CVoxPDFError::PageNotFound));
    assert_eq!(voxpdf_get_word(&vec![], 0), Err(CVoxPDFError::PageNotFound));
}

#[test]
fn test_get_paragraph() {
    let word = Word::new("Hello".to_string(), Rect::new(1, 2, 3, 4), 5, 12_000);
    let paragraphs = vec![
        Paragraph::new(0, "Hello Hello".to_string(), 5, vec![word.clone(), word]),
        Paragraph::new(1, "\0".to_string(), 5, vec![]),
    ];
    let expected = CParagraph { index: 0, page_number: 5, word_count: 2 };
    assert_eq!(voxpdf_get_paragraph(&paragraphs, 0), Ok((expected, "Hello Hello".to_string())));
    assert_eq!(voxpdf_get_paragraph(&paragraphs, 1), Err(CVoxPDFError::InvalidText));
    assert_eq!(voxpdf_get_paragraph(&paragraphs, 2), Err(CVoxPDFError::PageNotFound));
}

#[test]
fn test_get_toc_entry() {
    let entries = vec![
        TocEntry::new("Chapter 1: Introduction".to_string(), 0, 0, 0),
        TocEntry::new("Sec\0tion".to_string(), 1, 2, 0),
    ];
    let expected = CTocEntry { level: 0, page_number: 0, paragraph_index: 0 };
    assert_eq!(
        voxpdf_get_toc_entry(&entries, 0),
        Ok((expected, "Chapter 1: Introduction".to_string()))
    );
    assert_eq!(voxpdf_get_toc_entry(&entries, 1), Err(CVoxPDFError::InvalidText));
    assert_eq!(voxpdf_get_toc_entry(&entries, 2), Err(CVoxPDFError::PageNotFound));
}

#[test]
fn test_records() {
    let word = Word::new("bad\0".to_string(), Rect::new(1, -2, 3, 4), 5, 6);
    assert_eq!(
        word_record(&word),
        CWordPosition { x: 1, y: -2, width: 3, height: 4, page: 5, font_size: 6 }
    );
    let paragraph = Paragraph::new(7, "t".to_string(), 8, vec![word]);
    assert_eq!(paragraph_entry(&paragraph), CParagraph { index: 7, page_number: 8, word_count: 1 });
    let entry = TocEntry::new("t".to_string(), 9, 10, 11);
    assert_eq!(
        toc_entry_record(&entry),
        CTocEntry { level: 9, page_number: 10, paragraph_index: 11 }
    );
}
