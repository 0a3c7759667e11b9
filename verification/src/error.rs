//! The errors of extraction.

use vstd::prelude::*;
use crate::chars::{decimal_digits, decimal_string};

verus! {

/// What can go wrong while a document is opened or a page is extracted.
#[derive(Debug, PartialEq, Eq)]
pub enum VoxPDFError {
    /// The file could not be opened or parsed as a document.
    InvalidPDF(String),
    /// The requested page does not exist: the page asked for, and the
    /// number of pages the document has.
    PageNotFound(u32, usize),
    /// Reading the file failed.
    Io(String),
    /// The document parser reported an error.
    Lopdf(String),
    /// The content of a page could not be decoded.
    ExtractionError(String),
}

/// The result of an extraction.
pub type Result<T> = std::result::Result<T, VoxPDFError>;

/// Checks that `page_num` names a page of a document of `page_count` pages.
pub fn check_page(page_num: u32, page_count: usize) -> (checked: Result<()>)
    ensures
        page_num < page_count ==> checked is Ok,
        page_num >= page_count ==> checked == Err::<(), VoxPDFError>(
            VoxPDFError::PageNotFound(page_num, page_count),
        ),
{
    if (page_num as u64) < page_count as u64 {
        Ok(())
    } else {
        Err(VoxPDFError::PageNotFound(page_num, page_count))
    }
}

/// The message of an error, as it is shown to a reader.
pub open spec fn message_of(error: VoxPDFError) -> Seq<char> {
    match error {
        VoxPDFError::InvalidPDF(detail) => "Failed to open PDF: "@ + detail@,
        VoxPDFError::PageNotFound(page, count) => "Page "@ + decimal_digits(page as nat)
            + " not found (document has "@ + decimal_digits(count as nat) + " pages)"@,
        VoxPDFError::Io(detail) => "IO error: "@ + detail@,
        VoxPDFError::Lopdf(detail) => "lopdf error: "@ + detail@,
        VoxPDFError::ExtractionError(detail) => "Extraction error: "@ + detail@,
    }
}

impl VoxPDFError {
    /// The message of the error. For a page that was not found it names
    /// both the page asked for and the number of pages the document has.
    pub fn message(&self) -> (text: String)
        ensures
            text@ == message_of(*self),
    {
        match self {
            VoxPDFError::InvalidPDF(detail) => {
                let mut text = String::from_str("Failed to open PDF: ");
                text.append(detail.as_str());
                text
            },
            VoxPDFError::PageNotFound(page, count) => {
                let mut text = String::from_str("Page ");
                text.append(decimal_string(*page as u64).as_str());
                text.append(" not found (document has ");
                text.append(decimal_string(*count as u64).as_str());
                text.append(" pages)");
                text
            },
            VoxPDFError::Io(detail) => {
                let mut text = String::from_str("IO error: ");
                text.append(detail.as_str());
                text
            },
            VoxPDFError::Lopdf(detail) => {
                let mut text = String::from_str("lopdf error: ");
                text.append(detail.as_str());
                text
            },
            VoxPDFError::ExtractionError(detail) => {
                let mut text = String::from_str("Extraction error: ");
                text.append(detail.as_str());
                text
            },
        }
    }
}

} // verus!
