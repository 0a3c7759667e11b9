use vstd::prelude::*;

verus! {

/// One entry of the table of contents. The level is the depth of the entry
/// in the outline it came from: 0 for a chapter, 1 for a section, and so on.
#[derive(Debug, PartialEq, Eq)]
pub struct TocEntry {
    pub title: String,
    pub level: u8,
    pub page_number: u32,
    pub paragraph_index: usize,
}

/// The mathematical value of a [`TocEntry`].
pub struct TocEntryView {
    pub title: Seq<char>,
    pub level: u8,
    pub page_number: u32,
    pub paragraph_index: usize,
}

impl View for TocEntry {
    type V = TocEntryView;

    open spec fn view(&self) -> TocEntryView {
        TocEntryView {
            title: self.title@,
            level: self.level,
            page_number: self.page_number,
            paragraph_index: self.paragraph_index,
        }
    }
}

impl Clone for TocEntry {
    fn clone(&self) -> (copy: TocEntry)
        ensures
            copy == *self,
    {
        TocEntry {
            title: self.title.clone(),
            level: self.level,
            page_number: self.page_number,
            paragraph_index: self.paragraph_index,
        }
    }
}

impl TocEntry {
    pub fn new(title: String, level: u8, page_number: u32, paragraph_index: usize) -> (entry:
        TocEntry)
        ensures
            entry == (TocEntry { title, level, page_number, paragraph_index }),
    {
        TocEntry { title, level, page_number, paragraph_index }
    }

    /// Whether the entry is a top-level chapter.
    pub fn is_chapter(&self) -> (chapter: bool)
        ensures
            chapter == (self.level == 0),
    {
        self.level == 0
    }

    /// Whether the entry is a section, one level below a chapter.
    pub fn is_section(&self) -> (section: bool)
        ensures
            section == (self.level == 1),
    {
        self.level == 1
    }
}

/// The values of a sequence of entries, in order.
pub open spec fn entries_view(entries: Seq<TocEntry>) -> Seq<TocEntryView> {
    entries.map_values(|e: TocEntry| e@)
}

} // verus!
