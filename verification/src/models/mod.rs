//! The document model: words, paragraphs and table-of-contents entries.

pub mod chapter;
pub mod paragraph;
pub mod toc_entry;
pub mod word;

pub use chapter::Chapter;
pub use paragraph::{Paragraph, ParagraphView};
pub use toc_entry::{TocEntry, TocEntryView};
pub use word::{Rect, Word, WordView, UNITS_PER_POINT};
