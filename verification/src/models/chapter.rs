use vstd::prelude::*;

verus! {

/// A chapter heading: its title, nesting level, page and first paragraph.
#[derive(Debug, PartialEq, Eq)]
pub struct Chapter {
    pub title: String,
    pub level: u8,
    pub page_number: u32,
    pub paragraph_index: usize,
}

impl Clone for Chapter {
    fn clone(&self) -> (copy: Chapter)
        ensures
            copy == *self,
    {
        Chapter {
            title: self.title.clone(),
            level: self.level,
            page_number: self.page_number,
            paragraph_index: self.paragraph_index,
        }
    }
}

impl Chapter {
    pub fn new(title: String, level: u8, page_number: u32, paragraph_index: usize) -> (chapter:
        Chapter)
        ensures
            chapter == (Chapter { title, level, page_number, paragraph_index }),
    {
        Chapter { title, level, page_number, paragraph_index }
    }
}

} // verus!
