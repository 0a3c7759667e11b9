//! The structuring pipeline: glyphs to words, words to paragraphs, and the
//! outline to a table of contents.

pub mod ascii85;
pub mod content_stream;
pub mod hyphenation;
pub mod paragraph_laws;
pub mod paragraphs;
pub mod parallel;
pub mod streaming;
pub mod text;
pub mod toc;
pub mod word_laws;
pub mod words;

pub use hyphenation::reassemble_hyphenated_words;
pub use paragraphs::detect_paragraphs;
pub use parallel::{extract_chunk, extract_page, extract_pages, PageExtractionResult};
pub use streaming::{ExtractionEvent, PageStream, StreamStep};
pub use text::extract_page_text;
pub use toc::{extract_toc, OutlineNode};
pub use words::{assemble_page_words, extract_word_positions, PositionedChar};
