//! The values that cross the foreign-function boundary: status codes, the
//! plain records of the indexed accessors, and the bounds-checked lookups
//! behind them.

use vstd::prelude::*;
use vstd::std_specs::convert::FromSpecImpl;
use crate::chars::chars_of;
use crate::error::VoxPDFError;
use crate::models::paragraph::Paragraph;
use crate::models::toc_entry::TocEntry;
use crate::models::word::Word;

verus! {

/// The status of a call across the boundary.
#[derive(Debug, Clone, Copy, PartialEq, Eq, Structural)]
pub enum CVoxPDFError {
    Success,
    InvalidPDF,
    PageNotFound,
    IoError,
    OutOfMemory,
    InvalidText,
}

/// The status that reports an error of extraction.
pub open spec fn status_of(err: VoxPDFError) -> CVoxPDFError {
    match err {
        VoxPDFError::InvalidPDF(_) => CVoxPDFError::InvalidPDF,
        VoxPDFError::PageNotFound(_, _) => CVoxPDFError::PageNotFound,
        VoxPDFError::Io(_) => CVoxPDFError::IoError,
        VoxPDFError::Lopdf(_) => CVoxPDFError::InvalidPDF,
        VoxPDFError::ExtractionError(_) => CVoxPDFError::InvalidPDF,
    }
}

impl CVoxPDFError {
    /// The number that stands for the status across the boundary.
    pub open spec fn code_of(self) -> u32 {
        match self {
            CVoxPDFError::Success => 0,
            CVoxPDFError::InvalidPDF => 1,
            CVoxPDFError::PageNotFound => 2,
            CVoxPDFError::IoError => 3,
            CVoxPDFError::OutOfMemory => 4,
            CVoxPDFError::InvalidText => 5,
        }
    }

    /// The number that stands for the status across the boundary.
    pub fn code(self) -> (code: u32)
        ensures
            code == self.code_of(),
    {
        match self {
            CVoxPDFError::Success => 0,
            CVoxPDFError::InvalidPDF => 1,
            CVoxPDFError::PageNotFound => 2,
            CVoxPDFError::IoError => 3,
            CVoxPDFError::OutOfMemory => 4,
            CVoxPDFError::InvalidText => 5,
        }
    }
}

impl From<VoxPDFError> for CVoxPDFError {
    fn from(err: VoxPDFError) -> (status: CVoxPDFError) {
        match err {
            VoxPDFError::InvalidPDF(_) => CVoxPDFError::InvalidPDF,
            VoxPDFError::PageNotFound(_, _) => CVoxPDFError::PageNotFound,
            VoxPDFError::Io(_) => CVoxPDFError::IoError,
            VoxPDFError::Lopdf(_) => CVoxPDFError::InvalidPDF,
            VoxPDFError::ExtractionError(_) => CVoxPDFError::InvalidPDF,
        }
    }
}

impl FromSpecImpl<VoxPDFError> for CVoxPDFError {
    open spec fn obeys_from_spec() -> bool {
        true
    }

    open spec fn from_spec(err: VoxPDFError) -> CVoxPDFError {
        status_of(err)
    }
}

/// The box, page and font size of a word, without its text.
#[derive(Debug, Clone, Copy, PartialEq, Eq, Structural)]
pub struct CWordPosition {
    pub x: i64,
    pub y: i64,
    pub width: i64,
    pub height: i64,
    pub page: u32,
    pub font_size: u32,
}

/// The index, page and word count of a paragraph, without its text.
#[derive(Debug, Clone, Copy, PartialEq, Eq, Structural)]
pub struct CParagraph {
    pub index: usize,
    pub page_number: u32,
    pub word_count: usize,
}

/// The level, page and paragraph of an entry, without its title.
#[derive(Debug, Clone, Copy, PartialEq, Eq, Structural)]
pub struct CTocEntry {
    pub level: u8,
    pub page_number: u32,
    pub paragraph_index: usize,
}

/// Whether the text holds a NUL character, which no C string can carry.
pub open spec fn has_nul(text: Seq<char>) -> bool {
    exists|i: int| 0 <= i < text.len() && text[i] == '\0'
}

/// Decides whether the text can cross the boundary as a C string.
pub fn contains_nul(text: &str) -> (found: bool)
    ensures
        found == has_nul(text@),
{
    let chars = chars_of(text);
    let mut i: usize = 0;
    while i < chars.len()
        invariant
            i <= chars.len(),
            chars@ == text@,
            forall|j: int| 0 <= j < i ==> chars@[j] != '\0',
        decreases chars.len() - i,
    {
        if chars[i] == '\0' {
            return true;
        }
        i = i + 1;
    }
    false
}

/// The record of a word.
pub open spec fn word_position(word: Word) -> CWordPosition {
    CWordPosition {
        x: word.bounds.x,
        y: word.bounds.y,
        width: word.bounds.width,
        height: word.bounds.height,
        page: word.page_number,
        font_size: word.font_size,
    }
}

/// Makes the record of a word.
pub fn word_record(word: &Word) -> (record: CWordPosition)
    ensures
        record == word_position(*word),
{
    CWordPosition {
        x: word.bounds.x,
        y: word.bounds.y,
        width: word.bounds.width,
        height: word.bounds.height,
        page: word.page_number,
        font_size: word.font_size,
    }
}

/// Looks up the word at `index`: its record and its text. An index past the
/// last word is reported as not found, a text with a NUL as invalid.
pub fn voxpdf_get_word(words: &Vec<Word>, index: usize) -> (found: Result<
    (CWordPosition, String),
    CVoxPDFError,
>)
    ensures
        index >= words@.len() ==> found == Err::<(CWordPosition, String), CVoxPDFError>(
            CVoxPDFError::PageNotFound,
        ),
        index < words@.len() && has_nul(words@[index as int].text@) ==> found == Err::<
            (CWordPosition, String),
            CVoxPDFError,
        >(CVoxPDFError::InvalidText),
        index < words@.len() && !has_nul(words@[index as int].text@) ==> found == Ok::<
            (CWordPosition, String),
            CVoxPDFError,
        >((word_position(words@[index as int]), words@[index as int].text)),
{
    if index >= words.len() {
        return Err(CVoxPDFError::PageNotFound);
    }
    let word = &words[index];
    if contains_nul(word.text.as_str()) {
        return Err(CVoxPDFError::InvalidText);
    }
    Ok((word_record(word), word.text.clone()))
}

/// The record of a paragraph.
pub open spec fn paragraph_record(paragraph: Paragraph) -> CParagraph {
    CParagraph {
        index: paragraph.index,
        page_number: paragraph.page_number,
        word_count: paragraph.words@.len() as usize,
    }
}

/// Makes the record of a paragraph.
pub fn paragraph_entry(paragraph: &Paragraph) -> (record: CParagraph)
    ensures
        record == paragraph_record(*paragraph),
{
    CParagraph {
        index: paragraph.index,
        page_number: paragraph.page_number,
        word_count: paragraph.word_count(),
    }
}

/// Looks up the paragraph at `index`: its record and its text. An index
/// past the last paragraph is reported as not found, a text with a NUL as
/// invalid.
pub fn voxpdf_get_paragraph(paragraphs: &Vec<Paragraph>, index: usize) -> (found: Result<
    (CParagraph, String),
    CVoxPDFError,
>)
    ensures
        index >= paragraphs@.len() ==> found == Err::<(CParagraph, String), CVoxPDFError>(
            CVoxPDFError::PageNotFound,
        ),
        index < paragraphs@.len() && has_nul(paragraphs@[index as int].text@) ==> found == Err::<
            (CParagraph, String),
            CVoxPDFError,
        >(CVoxPDFError::InvalidText),
        index < paragraphs@.len() && !has_nul(paragraphs@[index as int].text@) ==> found == Ok::<
            (CParagraph, String),
            CVoxPDFError,
        >((paragraph_record(paragraphs@[index as int]), paragraphs@[index as int].text)),
{
    if index >= paragraphs.len() {
        return Err(CVoxPDFError::PageNotFound);
    }
    let paragraph = &paragraphs[index];
    if contains_nul(paragraph.text.as_str()) {
        return Err(CVoxPDFError::InvalidText);
    }
    Ok((paragraph_entry(paragraph), paragraph.text.clone()))
}

/// The record of an entry of the table of contents.
pub open spec fn toc_record(entry: TocEntry) -> CTocEntry {
    CTocEntry {
        level: entry.level,
        page_number: entry.page_number,
        paragraph_index: entry.paragraph_index,
    }
}

/// Makes the record of an entry of the table of contents.
pub fn toc_entry_record(entry: &TocEntry) -> (record: CTocEntry)
    ensures
        record == toc_record(*entry),
{
    CTocEntry {
        level: entry.level,
        page_number: entry.page_number,
        paragraph_index: entry.paragraph_index,
    }
}

/// Looks up the entry at `index`: its record and its title. An index past
/// the last entry is reported as not found, a title with a NUL as invalid.
pub fn voxpdf_get_toc_entry(entries: &Vec<TocEntry>, index: usize) -> (found: Result<
    (CTocEntry, String),
    CVoxPDFError,
>)
    ensures
        index >= entries@.len() ==> found == Err::<(CTocEntry, String), CVoxPDFError>(
            CVoxPDFError::PageNotFound,
        ),
        index < entries@.len() && has_nul(entries@[index as int].title@) ==> found == Err::<
            (CTocEntry, String),
            CVoxPDFError,
        >(CVoxPDFError::InvalidText),
        index < entries@.len() && !has_nul(entries@[index as int].title@) ==> found == Ok::<
            (CTocEntry, String),
            CVoxPDFError,
        >((toc_record(entries@[index as int]), entries@[index as int].title)),
{
    if index >= entries.len() {
        return Err(CVoxPDFError::PageNotFound);
    }
    let entry = &entries[index];
    if contains_nul(entry.title.as_str()) {
        return Err(CVoxPDFError::InvalidText);
    }
    Ok((toc_entry_record(entry), entry.title.clone()))
}

} // verus!
