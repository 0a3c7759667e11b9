//! A cache of extraction results, owned by whoever serves a document.

use vstd::prelude::*;
use crate::models::word::{Word, copy_words};

verus! {

/// The words of one page of one document.
struct CacheEntry {
    doc_path: String,
    page: u32,
    words: Vec<Word>,
}

/// Whether the entry is the one for the page `page` of the document at
/// `doc_path`.
spec fn is_for(entry: CacheEntry, doc_path: Seq<char>, page: u32) -> bool {
    entry.doc_path@ == doc_path && entry.page == page
}

/// The words that the entries hold for a page: those of the last entry for
/// it, if there is one.
spec fn lookup(entries: Seq<CacheEntry>, doc_path: Seq<char>, page: u32) -> Option<Seq<Word>>
    decreases entries.len(),
{
    if entries.len() == 0 {
        None
    } else if is_for(entries.last(), doc_path, page) {
        Some(entries.last().words@)
    } else {
        lookup(entries.drop_last(), doc_path, page)
    }
}

/// No two entries are for the same page of the same document.
spec fn distinct(entries: Seq<CacheEntry>) -> bool {
    forall|i: int, j: int|
        0 <= i < j < entries.len() ==> !is_for(
            #[trigger] entries[i],
            (#[trigger] entries[j]).doc_path@,
            entries[j].page,
        )
}

/// Where no entry is for a page, nothing is found for it.
proof fn lemma_lookup_none(entries: Seq<CacheEntry>, doc_path: Seq<char>, page: u32)
    requires
        forall|i: int| 0 <= i < entries.len() ==> !is_for(#[trigger] entries[i], doc_path, page),
    ensures
        lookup(entries, doc_path, page) is None,
    decreases entries.len(),
{
    if entries.len() > 0 {
        lemma_lookup_none(entries.drop_last(), doc_path, page);
    }
}

/// Where no entry after `i` is for a page, what is found for it is found
/// among the entries up to `i`.
proof fn lemma_lookup_at(entries: Seq<CacheEntry>, i: int, doc_path: Seq<char>, page: u32)
    requires
        0 <= i < entries.len(),
        is_for(entries[i], doc_path, page),
        forall|j: int| i < j < entries.len() ==> !is_for(#[trigger] entries[j], doc_path, page),
    ensures
        lookup(entries, doc_path, page) == Some(entries[i].words@),
    decreases entries.len(),
{
    if i < entries.len() - 1 {
        lemma_lookup_at(entries.drop_last(), i, doc_path, page);
    }
}

/// Two sequences of entries that hold the same words for a page, entry by
/// entry, find the same for it.
proof fn lemma_lookup_same(
    a: Seq<CacheEntry>,
    b: Seq<CacheEntry>,
    doc_path: Seq<char>,
    page: u32,
)
    requires
        a.len() == b.len(),
        forall|i: int|
            0 <= i < a.len() ==> is_for(#[trigger] a[i], doc_path, page) == is_for(
                #[trigger] b[i],
                doc_path,
                page,
            ),
        forall|i: int|
            0 <= i < a.len() && is_for(#[trigger] a[i], doc_path, page) ==> a[i].words@
                == b[i].words@,
    ensures
        lookup(a, doc_path, page) == lookup(b, doc_path, page),
    decreases a.len(),
{
    if a.len() > 0 {
        assert(is_for(a.last(), doc_path, page) == is_for(b.last(), doc_path, page));
        lemma_lookup_same(a.drop_last(), b.drop_last(), doc_path, page);
    }
}

/// Extraction results by document and page, kept to save extracting a page
/// twice. It never forgets by itself: whoever owns it clears it.
pub struct ExtractionCache {
    entries: Vec<CacheEntry>,
}

impl ExtractionCache {
    /// The words kept for a page of a document, if any are.
    pub closed spec fn cached_words(&self, doc_path: Seq<char>, page: u32) -> Option<Seq<Word>> {
        lookup(self.entries@, doc_path, page)
    }

    /// The cache holds each page of each document at most once.
    pub closed spec fn wf(&self) -> bool {
        distinct(self.entries@)
    }

    /// A cache that holds nothing.
    pub fn new() -> (cache: ExtractionCache)
        ensures
            cache.wf(),
            forall|doc_path: Seq<char>, page: u32|
                (#[trigger] cache.cached_words(doc_path, page)) is None,
    {
        ExtractionCache { entries: Vec::new() }
    }

    /// The place of the entry for a page, if there is one.
    fn position(&self, doc_path: &String, page: u32) -> (found: Option<usize>)
        ensures
            match found {
                Some(i) => i < self.entries@.len() && is_for(
                    self.entries@[i as int],
                    doc_path@,
                    page,
                ),
                None => forall|i: int|
                    0 <= i < self.entries@.len() ==> !is_for(
                        #[trigger] self.entries@[i],
                        doc_path@,
                        page,
                    ),
            },
    {
        let mut i: usize = 0;
        while i < self.entries.len()
            invariant
                i <= self.entries@.len(),
                forall|j: int|
                    0 <= j < i ==> !is_for(#[trigger] self.entries@[j], doc_path@, page),
            decreases self.entries.len() - i,
        {
            if self.entries[i].page == page && self.entries[i].doc_path == *doc_path {
                return Some(i);
            }
            i = i + 1;
        }
        None
    }

    /// A copy of the words kept for a page of a document.
    pub fn get_words(&self, doc_path: &str, page: u32) -> (words: Option<Vec<Word>>)
        requires
            self.wf(),
        ensures
            match words {
                Some(found) => self.cached_words(doc_path@, page) == Some(found@),
                None => self.cached_words(doc_path@, page) is None,
            },
    {
        let key = String::from_str(doc_path);
        match self.position(&key, page) {
            Some(i) => {
                proof {
                    lemma_lookup_at(self.entries@, i as int, doc_path@, page);
                }
                Some(copy_words(&self.entries[i].words))
            },
            None => {
                proof {
                    lemma_lookup_none(self.entries@, doc_path@, page);
                }
                None
            },
        }
    }

    /// Keeps `words` for a page of a document, in place of what was kept
    /// for it before. Nothing else changes.
    pub fn set_words(&mut self, doc_path: String, page: u32, words: Vec<Word>)
        requires
            old(self).wf(),
        ensures
            final(self).wf(),
            final(self).cached_words(doc_path@, page) == Some(words@),
            forall|other: Seq<char>, n: u32|
                !(other == doc_path@ && n == page) ==> (#[trigger] final(self).cached_words(other, n))
                    == old(self).cached_words(other, n),
    {
        let ghost before = self.entries@;
        let found = self.position(&doc_path, page);
        let entry = CacheEntry { doc_path, page, words };
        match found {
            Some(i) => {
                self.entries.set(i, entry);
                proof {
                    let after = self.entries@;
                    lemma_lookup_at(after, i as int, entry.doc_path@, page);
                    assert forall|other: Seq<char>, n: u32|
                        !(other == entry.doc_path@ && n == page) implies lookup(after, other, n)
                        == lookup(before, other, n) by {
                        lemma_lookup_same(after, before, other, n);
                    }
                }
            },
            None => {
                self.entries.push(entry);
                proof {
                    let after = self.entries@;
                    assert(after.drop_last() == before);
                }
            },
        }
    }

    /// Forgets everything.
    pub fn clear(&mut self)
        ensures
            final(self).wf(),
            forall|doc_path: Seq<char>, page: u32|
                (#[trigger] final(self).cached_words(doc_path, page)) is None,
    {
        self.entries.clear();
    }
}

} // verus!
