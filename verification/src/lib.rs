//! Text structuring for text-to-speech: positioned glyphs become words,
//! words become lines and paragraphs, and an outline tree becomes a flat
//! table of contents.
//!
//! All geometry is fixed-point: one unit is a thousandth of a point, so the
//! thresholds of the grouping rules are exact integer comparisons.

pub mod cache;
pub mod chars;
pub mod error;
pub mod extraction;
pub mod ffi;
pub mod memory_pool;
pub mod models;

pub use error::{Result, VoxPDFError};
pub use models::{Paragraph, Rect, TocEntry, Word};
