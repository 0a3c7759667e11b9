use vstd::prelude::*;
use crate::error::{Result, VoxPDFError, message_of};
use crate::extraction::hyphenation::{reassemble_hyphenated_words, reassembled};
use crate::extraction::paragraphs::{detect_paragraphs, paragraphs_of};
use crate::models::paragraph::{Paragraph, paragraphs_view};
use crate::models::word::{Word, words_view};

verus! {

/// What the background worker reports to the reader of the queue.
#[derive(Debug, PartialEq, Eq)]
pub enum ExtractionEvent {
    /// A page is ready: its number and its reassembled paragraphs.
    PageComplete { page: u32, paragraphs: Vec<Paragraph> },
    /// A page failed, or (under page 0) the document could not be opened.
    Error { page: u32, error: String },
    /// Every page of the range has been reported.
    Complete,
}

/// The event for one page, from what extracting its words returned: the
/// paragraphs of the words with their hyphenation undone, or the failure
/// with its message. A failed page does not end the stream.
pub fn page_event(page: u32, extracted: Result<Vec<Word>>) -> (event: ExtractionEvent)
    ensures
        match extracted {
            Ok(words) => event matches ExtractionEvent::PageComplete { page: p, paragraphs }
                && p == page && paragraphs@.len() == paragraphs_of(words_view(words@)).len()
                && forall|i: int|
                0 <= i < paragraphs@.len() ==> (#[trigger] paragraphs@[i])@ == reassembled(
                    paragraphs_of(words_view(words@))[i],
                ),
            Err(failure) => event matches ExtractionEvent::Error { page: p, error } && p == page
                && error@ == message_of(failure),
        },
{
    match extracted {
        Ok(words) => {
            let ghost shown = words_view(words@);
            let detected = detect_paragraphs(words);
            proof {
                assert forall|i: int| 0 <= i < detected@.len() implies (#[trigger] detected@[i])@
                    == paragraphs_of(shown)[i] by {
                    assert(paragraphs_view(detected@)[i]
                        == detected@[i]@);
                }
            }
            let paragraphs = reassemble_hyphenated_words(detected);
            ExtractionEvent::PageComplete { page, paragraphs }
        },
        Err(failure) => ExtractionEvent::Error { page, error: failure.message() },
    }
}

/// The event for a document that could not be opened: the message of the
/// failure under page 0. Nothing follows it, not even the completion.
pub fn open_failure_event(failure: &VoxPDFError) -> (event: ExtractionEvent)
    ensures
        event matches ExtractionEvent::Error { page, error } && page == 0 && error@ == message_of(
            *failure,
        ),
{
    ExtractionEvent::Error { page: 0, error: failure.message() }
}

/// What the worker does next.
#[derive(Debug, Clone, Copy, PartialEq, Eq, Structural)]
pub enum StreamStep {
    /// Extract this page and report it.
    Extract(u32),
    /// Report the completion.
    Complete,
    /// Nothing is left to do.
    Stop,
}

/// Where the worker stands in its range of pages.
#[derive(Debug, Clone, Copy, PartialEq, Eq, Structural)]
pub enum StreamPhase {
    /// The next page to extract.
    Page(u32),
    /// All pages are done, the completion is still to be reported.
    Completing,
    /// Everything has been reported.
    Done,
}

/// The steps for the pages `from..=to`, in order, and the completion.
pub open spec fn steps_from(from: int, to: int) -> Seq<StreamStep>
    decreases to - from + 1,
{
    if from > to {
        seq![StreamStep::Complete]
    } else {
        seq![StreamStep::Extract(from as u32)] + steps_from(from + 1, to)
    }
}

/// The worker of a streaming session: it walks the pages of an inclusive
/// range in order and then reports the completion, once.
#[derive(Debug, Clone, Copy)]
pub struct PageStream {
    phase: StreamPhase,
    end_page: u32,
}

impl PageStream {
    /// The steps that are left, in order.
    pub closed spec fn remaining(&self) -> Seq<StreamStep> {
        match self.phase {
            StreamPhase::Page(page) => steps_from(page as int, self.end_page as int),
            StreamPhase::Completing => seq![StreamStep::Complete],
            StreamPhase::Done => Seq::empty(),
        }
    }

    /// A worker is never at a page beyond the end of its range.
    pub closed spec fn wf(&self) -> bool {
        self.phase matches StreamPhase::Page(page) ==> page <= self.end_page
    }

    /// The worker for the pages `start_page..=end_page`. An empty range
    /// leaves only the completion.
    pub fn new(start_page: u32, end_page: u32) -> (stream: PageStream)
        ensures
            stream.wf(),
            stream.remaining() == steps_from(start_page as int, end_page as int),
    {
        if start_page <= end_page {
            PageStream { phase: StreamPhase::Page(start_page), end_page }
        } else {
            PageStream { phase: StreamPhase::Completing, end_page }
        }
    }

    /// Takes the next step off the stream. After the completion every
    /// further call returns `Stop`.
    pub fn next_step(&mut self) -> (step: StreamStep)
        requires
            old(self).wf(),
        ensures
            final(self).wf(),
            old(self).remaining().len() > 0 ==> step == old(self).remaining()[0]
                && final(self).remaining() == old(self).remaining().drop_first(),
            old(self).remaining().len() == 0 ==> step == StreamStep::Stop
                && final(self).remaining() == old(self).remaining(),
    {
        match self.phase {
            StreamPhase::Page(page) => {
                proof {
                    let rest = steps_from(page as int + 1, self.end_page as int);
                    assert((seq![StreamStep::Extract(page)] + rest).drop_first() == rest);
                }
                if page < self.end_page {
                    self.phase = StreamPhase::Page(page + 1);
                } else {
                    self.phase = StreamPhase::Completing;
                }
                StreamStep::Extract(page)
            },
            StreamPhase::Completing => {
                proof {
                    assert(seq![StreamStep::Complete].drop_first() == Seq::<StreamStep>::empty());
                }
                self.phase = StreamPhase::Done;
                StreamStep::Complete
            },
            StreamPhase::Done => StreamStep::Stop,
        }
    }
}

/// A stream over `start..=end` extracts exactly the pages of the range, in
/// rising order, and then completes: step `i` is page `start + i`, and the
/// step after the last page is the completion.
pub proof fn lemma_stream_order(start: int, end: int)
    requires
        0 <= start <= end + 1,
        end <= u32::MAX,
    ensures
        steps_from(start, end).len() == end - start + 2,
        forall|i: int|
            0 <= i <= end - start ==> #[trigger] steps_from(start, end)[i] == StreamStep::Extract(
                (start + i) as u32,
            ),
        steps_from(start, end)[end - start + 1] == StreamStep::Complete,
    decreases end - start + 1,
{
    if start <= end {
        lemma_stream_order(start + 1, end);
        let rest = steps_from(start + 1, end);
        assert forall|i: int| 0 <= i <= end - start implies #[trigger] steps_from(start, end)[i]
            == StreamStep::Extract((start + i) as u32) by {
            if i > 0 {
                assert(steps_from(start, end)[i] == rest[i - 1]);
            }
        }
        assert(steps_from(start, end)[end - start + 1] == rest[end - start]);
    }
}

} // verus!
