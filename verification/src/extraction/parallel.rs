use vstd::prelude::*;
use crate::error::{Result, VoxPDFError};
use crate::extraction::hyphenation::{reassemble_hyphenated_words, reassembled};
use crate::extraction::paragraphs::{detect_paragraphs, paragraphs_of};
use crate::extraction::words::{
    PositionedChar, assemble_page_words, extract_word_positions, lines_view, page_words,
    word_extraction,
};
use crate::models::paragraph::{Paragraph, paragraphs_view};
use crate::models::word::{Word, WordView, copy_words, words_view};

verus! {

/// What the pipeline makes of one page.
#[derive(Debug, PartialEq, Eq)]
pub struct PageExtractionResult {
    pub page_num: u32,
    pub words: Vec<Word>,
    pub paragraphs: Vec<Paragraph>,
}

/// Whether `result` is what the pipeline makes of the words of page
/// `page_num`: the words themselves, and their paragraphs with the
/// hyphenation undone.
pub open spec fn is_result_of(
    result: PageExtractionResult,
    page_num: u32,
    words: Seq<WordView>,
) -> bool {
    &&& result.page_num == page_num
    &&& words_view(result.words@) == words
    &&& result.paragraphs@.len() == paragraphs_of(words).len()
    &&& forall|i: int|
        0 <= i < result.paragraphs@.len() ==> (#[trigger] result.paragraphs@[i])@ == reassembled(
            paragraphs_of(words)[i],
        )
}

/// Runs the rest of the pipeline on the words of one page: paragraphs, then
/// the paragraphs with their hyphenation undone.
pub fn finish_page(page_num: u32, words: Vec<Word>) -> (result: PageExtractionResult)
    ensures
        is_result_of(result, page_num, words_view(words@)),
{
    let detected = detect_paragraphs(copy_words(&words));
    proof {
        assert forall|i: int| 0 <= i < detected@.len() implies (#[trigger] detected@[i])@
            == paragraphs_of(words_view(words@))[i] by {
            assert(paragraphs_view(detected@)[i] == detected@[i]@);
        }
    }
    let paragraphs = reassemble_hyphenated_words(detected);
    PageExtractionResult { page_num, words, paragraphs }
}

/// Runs the pipeline on the glyphs of one page: words, then paragraphs,
/// then the paragraphs with their hyphenation undone.
pub fn extract_page(page_num: u32, lines: &Vec<Vec<PositionedChar>>) -> (result:
    PageExtractionResult)
    ensures
        is_result_of(result, page_num, page_words(lines_view(lines@), page_num)),
{
    finish_page(page_num, assemble_page_words(lines, page_num))
}

/// What extracting the words of the `i`-th of `pages` gives, from what
/// reading its glyphs returned.
pub open spec fn page_outcome(
    pages: Seq<u32>,
    doc_pages: usize,
    loaded: Seq<Result<Vec<Vec<PositionedChar>>>>,
    i: int,
) -> std::result::Result<Seq<WordView>, VoxPDFError> {
    word_extraction(pages[i], doc_pages, loaded[i])
}

/// Whether the first `n` of `pages` can all be extracted.
pub open spec fn pages_ok(
    pages: Seq<u32>,
    doc_pages: usize,
    loaded: Seq<Result<Vec<Vec<PositionedChar>>>>,
    n: int,
) -> bool {
    forall|i: int| 0 <= i < n ==> (#[trigger] page_outcome(pages, doc_pages, loaded, i)) is Ok
}

/// Whether `results` are what the pipeline makes of `pages`, page by page.
pub open spec fn are_results_of(
    results: Seq<PageExtractionResult>,
    pages: Seq<u32>,
    doc_pages: usize,
    loaded: Seq<Result<Vec<Vec<PositionedChar>>>>,
) -> bool {
    &&& results.len() == pages.len()
    &&& forall|i: int|
        0 <= i < results.len() ==> page_outcome(pages, doc_pages, loaded, i) is Ok && is_result_of(
            #[trigger] results[i],
            pages[i],
            page_outcome(pages, doc_pages, loaded, i)->Ok_0,
        )
}

/// Whether the batch fails with the error of the first page, in the order
/// of `pages`, that cannot be extracted.
pub open spec fn fails_at_first(
    outcome: Result<Vec<PageExtractionResult>>,
    pages: Seq<u32>,
    doc_pages: usize,
    loaded: Seq<Result<Vec<Vec<PositionedChar>>>>,
) -> bool {
    exists|g: int|
        0 <= g < loaded.len() && g < pages.len() && pages_ok(pages, doc_pages, loaded, g)
            && (#[trigger] page_outcome(pages, doc_pages, loaded, g)) is Err && outcome == Err::<
            Vec<PageExtractionResult>,
            VoxPDFError,
        >(page_outcome(pages, doc_pages, loaded, g)->Err_0)
}

/// What one worker does with its chunk of pages, given what reading the
/// glyphs of each page returned: the pages are taken in order; the first
/// that cannot be extracted ends the chunk with its error; otherwise there
/// is one result for each page, in the order of the chunk. Reading may have
/// stopped at the first page that could not be read: `loaded` then ends
/// with that failure.
pub fn extract_chunk(
    chunk: &Vec<u32>,
    doc_pages: usize,
    loaded: Vec<Result<Vec<Vec<PositionedChar>>>>,
) -> (outcome: Result<Vec<PageExtractionResult>>)
    requires
        loaded@.len() <= chunk@.len(),
        loaded@.len() == chunk@.len() || !pages_ok(chunk@, doc_pages, loaded@, loaded@.len() as int),
    ensures
        pages_ok(chunk@, doc_pages, loaded@, loaded@.len() as int) ==> (outcome matches Ok(
            results,
        ) && are_results_of(results@, chunk@, doc_pages, loaded@) && page_nums_of(results@)
            == chunk@),
        !pages_ok(chunk@, doc_pages, loaded@, loaded@.len() as int) ==> fails_at_first(
            outcome,
            chunk@,
            doc_pages,
            loaded@,
        ),
{
    let ghost given = loaded@;
    let mut rest = loaded;
    let mut results: Vec<PageExtractionResult> = Vec::new();
    let mut i: usize = 0;
    while i < rest.len()
        invariant
            i <= rest.len(),
            given == loaded@,
            rest@.len() == given.len(),
            given.len() <= chunk@.len(),
            forall|j: int| i <= j < given.len() ==> rest@[j] == given[j],
            pages_ok(chunk@, doc_pages, given, i as int),
            results@.len() == i,
            forall|j: int|
                0 <= j < i ==> is_result_of(
                    #[trigger] results@[j],
                    chunk@[j],
                    page_outcome(chunk@, doc_pages, given, j)->Ok_0,
                ),
        decreases rest.len() - i,
    {
        let mut glyphs: Result<Vec<Vec<PositionedChar>>> = Ok(Vec::new());
        std::mem::swap(&mut glyphs, &mut rest[i]);
        let page_num = chunk[i];
        match extract_word_positions(page_num, doc_pages, glyphs) {
            Err(e) => {
                proof {
                    assert(page_outcome(chunk@, doc_pages, given, i as int) is Err);
                }
                return Err(e);
            },
            Ok(words) => {
                results.push(finish_page(page_num, words));
            },
        }
        i = i + 1;
    }
    proof {
        assert(page_nums_of(results@) == chunk@);
    }
    Ok(results)
}

/// The number of pages each worker takes: the pages shared out evenly,
/// rounded down, and never less than one.
pub open spec fn chunk_size_of(page_count: int, worker_count: int) -> int {
    if page_count / worker_count >= 1 {
        page_count / worker_count
    } else {
        1
    }
}

/// The number of pages in each chunk when `page_count` pages are shared out
/// among `worker_count` workers.
pub fn chunk_size(page_count: usize, worker_count: usize) -> (size: usize)
    requires
        worker_count > 0,
    ensures
        size == chunk_size_of(page_count as int, worker_count as int),
        size >= 1,
{
    let share = page_count / worker_count;
    if share >= 1 {
        share
    } else {
        1
    }
}

/// The chunks joined again, chunk after chunk.
pub open spec fn concat_chunks<T>(chunks: Seq<Seq<T>>) -> Seq<T>
    decreases chunks.len(),
{
    if chunks.len() == 0 {
        Seq::empty()
    } else {
        concat_chunks(chunks.drop_last()) + chunks.last()
    }
}

/// The page numbers cut into contiguous chunks of `size`, the last one
/// shorter where the pages do not divide evenly.
pub open spec fn chunks_of(pages: Seq<u32>, size: int) -> Seq<Seq<u32>>
    recommends
        size > 0,
    decreases pages.len(),
{
    if pages.len() == 0 || size <= 0 {
        Seq::empty()
    } else if pages.len() <= size {
        seq![pages]
    } else {
        seq![pages.take(size)] + chunks_of(pages.skip(size), size)
    }
}

/// The page numbers of each chunk.
pub open spec fn chunks_view(chunks: Seq<Vec<u32>>) -> Seq<Seq<u32>> {
    chunks.map_values(|chunk: Vec<u32>| chunk@)
}

/// Cuts the requested pages into contiguous chunks of `size` pages, one for
/// each worker to open the document for.
pub fn split_into_chunks(page_nums: &Vec<u32>, size: usize) -> (chunks: Vec<Vec<u32>>)
    requires
        size > 0,
    ensures
        chunks_view(chunks@) == chunks_of(page_nums@, size as int),
{
    let mut chunks: Vec<Vec<u32>> = Vec::new();
    let mut start: usize = 0;
    let n = page_nums.len();
    proof {
        assert(page_nums@.skip(0) == page_nums@);
        assert(chunks_view(chunks@) + chunks_of(page_nums@, size as int) == chunks_of(
            page_nums@,
            size as int,
        ));
    }
    while start < n
        invariant
            start <= n,
            n == page_nums.len(),
            size > 0,
            chunks_of(page_nums@, size as int) == chunks_view(chunks@) + chunks_of(
                page_nums@.skip(start as int),
                size as int,
            ),
        decreases n - start,
    {
        let end: usize = if n - start <= size {
            n
        } else {
            start + size
        };
        let mut chunk: Vec<u32> = Vec::new();
        let mut i: usize = start;
        while i < end
            invariant
                start <= i <= end <= n,
                n == page_nums.len(),
                chunk@ == page_nums@.subrange(start as int, i as int),
            decreases end - i,
        {
            chunk.push(page_nums[i]);
            proof {
                assert(page_nums@.subrange(start as int, i as int + 1) == page_nums@.subrange(
                    start as int,
                    i as int,
                ).push(page_nums@[i as int]));
            }
            i = i + 1;
        }
        proof {
            let rest = page_nums@.skip(start as int);
            if end == n {
                assert(chunk@ == rest);
                assert(page_nums@.skip(end as int).len() == 0);
                assert(chunks_of(rest, size as int) == seq![rest]);
            } else {
                assert(chunk@ == rest.take(size as int));
                assert(rest.skip(size as int) == page_nums@.skip(end as int));
            }
            assert(chunks_view(chunks@.push(chunk)) == chunks_view(chunks@).push(chunk@));
            assert(chunks_view(chunks@).push(chunk@) + chunks_of(
                page_nums@.skip(end as int),
                size as int,
            ) == chunks_view(chunks@) + (seq![chunk@] + chunks_of(
                page_nums@.skip(end as int),
                size as int,
            )));
        }
        chunks.push(chunk);
        start = end;
    }
    proof {
        assert(page_nums@.skip(start as int).len() == 0);
    }
    chunks
}

/// The results of each chunk that succeeded (for a failed chunk, nothing).
pub open spec fn chunk_results(chunks: Seq<Result<Vec<PageExtractionResult>>>) -> Seq<
    Seq<PageExtractionResult>,
> {
    chunks.map_values(
        |chunk: Result<Vec<PageExtractionResult>>|
            match chunk {
                Ok(results) => results@,
                Err(_) => Seq::empty(),
            },
    )
}

/// Whether the first `n` chunks all succeeded.
pub open spec fn all_ok(chunks: Seq<Result<Vec<PageExtractionResult>>>, n: int) -> bool {
    forall|i: int| 0 <= i < n ==> (#[trigger] chunks[i]) is Ok
}

/// Joins the results of the chunks in the order of the chunks, whatever
/// order the workers finished in. One failed chunk fails the batch, with
/// the error of the first chunk that failed.
pub fn merge_chunk_results(chunks: Vec<Result<Vec<PageExtractionResult>>>) -> (merged: Result<
    Vec<PageExtractionResult>,
>)
    ensures
        all_ok(chunks@, chunks@.len() as int) ==> (merged matches Ok(results) && results@
            == concat_chunks(chunk_results(chunks@))),
        !all_ok(chunks@, chunks@.len() as int) ==> exists|i: int|
            0 <= i < chunks@.len() && all_ok(chunks@, i) && (#[trigger] chunks@[i]) is Err
                && merged == Err::<Vec<PageExtractionResult>, VoxPDFError>(chunks@[i]->Err_0),
{
    let ghost given = chunks@;
    let mut rest = chunks;
    let mut merged: Vec<PageExtractionResult> = Vec::new();
    let mut i: usize = 0;
    while i < rest.len()
        invariant
            i <= rest.len(),
            given == chunks@,
            rest@.len() == given.len(),
            forall|j: int| i <= j < given.len() ==> rest@[j] == given[j],
            all_ok(given, i as int),
            merged@ == concat_chunks(chunk_results(given).take(i as int)),
        decreases rest.len() - i,
    {
        let mut chunk: Result<Vec<PageExtractionResult>> = Ok(Vec::new());
        std::mem::swap(&mut chunk, &mut rest[i]);
        proof {
            let prefix = chunk_results(given).take(i as int + 1);
            assert(prefix.drop_last() == chunk_results(given).take(i as int));
            assert(chunk == given[i as int]);
        }
        match chunk {
            Err(e) => {
                proof {
                    assert(given[i as int] is Err);
                }
                return Err(e);
            },
            Ok(results) => {
                let mut results = results;
                proof {
                    assert(chunk_results(given).take(i as int + 1).last() == results@);
                }
                merged.append(&mut results);
            },
        }
        i = i + 1;
    }
    proof {
        assert(chunk_results(given).take(i as int) == chunk_results(given));
    }
    Ok(merged)
}

/// The page numbers of the results, in order.
pub open spec fn page_nums_of(results: Seq<PageExtractionResult>) -> Seq<u32> {
    results.map_values(|r: PageExtractionResult| r.page_num)
}

/// Joining chunks after a first chunk puts the first chunk in front.
pub proof fn lemma_concat_front<T>(first: Seq<T>, rest: Seq<Seq<T>>)
    ensures
        concat_chunks(seq![first] + rest) == first + concat_chunks(rest),
    decreases rest.len(),
{
    let all = seq![first] + rest;
    if rest.len() == 0 {
        assert(all.drop_last() == Seq::<Seq<T>>::empty());
        assert(all.last() == first);
        assert(Seq::<T>::empty() + first == first);
        assert(concat_chunks(all.drop_last()) == Seq::<T>::empty());
        assert(concat_chunks(all) == first);
        assert(first + concat_chunks(rest) == first);
    } else {
        assert(all.drop_last() == seq![first] + rest.drop_last());
        assert(all.last() == rest.last());
        lemma_concat_front(first, rest.drop_last());
        assert((first + concat_chunks(rest.drop_last())) + rest.last() == first + (concat_chunks(
            rest.drop_last(),
        ) + rest.last()));
    }
}

/// Cutting pages into chunks and joining the chunks gives the pages back.
pub proof fn lemma_chunks_cover(pages: Seq<u32>, size: int)
    requires
        size > 0,
    ensures
        concat_chunks(chunks_of(pages, size)) == pages,
    decreases pages.len(),
{
    if pages.len() == 0 {
    } else if pages.len() <= size {
        lemma_concat_front(pages, Seq::empty());
        assert(seq![pages] + Seq::<Seq<u32>>::empty() == seq![pages]);
        assert(pages + Seq::<u32>::empty() == pages);
    } else {
        lemma_chunks_cover(pages.skip(size), size);
        lemma_concat_front(pages.take(size), chunks_of(pages.skip(size), size));
        assert(pages.take(size) + pages.skip(size) == pages);
    }
}

/// Joining the results of the chunks in chunk order gives one result per
/// requested page, in the order requested: whenever each chunk's results
/// carry the page numbers of that chunk in order, the joined results carry
/// the requested page numbers in order.
pub proof fn lemma_parallel_order(
    pages: Seq<u32>,
    size: int,
    results: Seq<Seq<PageExtractionResult>>,
)
    requires
        size > 0,
        results.len() == chunks_of(pages, size).len(),
        forall|i: int|
            0 <= i < results.len() ==> page_nums_of(#[trigger] results[i]) == chunks_of(
                pages,
                size,
            )[i],
    ensures
        page_nums_of(concat_chunks(results)) == pages,
{
    let chunks = chunks_of(pages, size);
    lemma_page_nums_of_concat(results);
    assert(results.map_values(|r: Seq<PageExtractionResult>| page_nums_of(r)) == chunks);
    lemma_chunks_cover(pages, size);
}

/// The page numbers of joined chunks are the joined page numbers of the
/// chunks.
pub proof fn lemma_page_nums_of_concat(results: Seq<Seq<PageExtractionResult>>)
    ensures
        page_nums_of(concat_chunks(results)) == concat_chunks(
            results.map_values(|r: Seq<PageExtractionResult>| page_nums_of(r)),
        ),
    decreases results.len(),
{
    let mapped = results.map_values(|r: Seq<PageExtractionResult>| page_nums_of(r));
    if results.len() == 0 {
        assert(page_nums_of(concat_chunks(results)) == Seq::<u32>::empty());
    } else {
        lemma_page_nums_of_concat(results.drop_last());
        assert(mapped.drop_last() == results.drop_last().map_values(
            |r: Seq<PageExtractionResult>| page_nums_of(r),
        ));
        assert(page_nums_of(concat_chunks(results.drop_last()) + results.last()) == page_nums_of(
            concat_chunks(results.drop_last()),
        ) + page_nums_of(results.last()));
    }
}

/// Chunks joined are the first of them joined, followed by the rest joined.
pub proof fn lemma_concat_split<T>(chunks: Seq<Seq<T>>, m: int)
    requires
        0 <= m <= chunks.len(),
    ensures
        concat_chunks(chunks) == concat_chunks(chunks.take(m)) + concat_chunks(chunks.skip(m)),
    decreases chunks.len(),
{
    if m == chunks.len() {
        assert(chunks.take(m) == chunks);
        assert(chunks.skip(m) == Seq::<Seq<T>>::empty());
        assert(concat_chunks(chunks) + Seq::<T>::empty() == concat_chunks(chunks));
    } else {
        let front = chunks.drop_last();
        lemma_concat_split(front, m);
        assert(front.take(m) == chunks.take(m));
        assert(chunks.skip(m).drop_last() == front.skip(m));
        assert(chunks.skip(m).last() == chunks.last());
        assert((concat_chunks(chunks.take(m)) + concat_chunks(front.skip(m))) + chunks.last()
            == concat_chunks(chunks.take(m)) + (concat_chunks(front.skip(m)) + chunks.last()));
    }
}

/// What a batch returns, worked out on one thread: the requested pages are
/// cut into chunks for `worker_count` workers, each chunk is extracted as
/// [`extract_chunk`] does it, and the outcomes are joined in chunk order.
/// Whatever the number of workers, there is one result for each requested
/// page, in the order requested, or the error of the first requested page
/// that cannot be extracted.
pub fn extract_pages(
    page_nums: &Vec<u32>,
    doc_pages: usize,
    loaded: Vec<Result<Vec<Vec<PositionedChar>>>>,
    worker_count: usize,
) -> (outcome: Result<Vec<PageExtractionResult>>)
    requires
        worker_count > 0,
        loaded@.len() == page_nums@.len(),
    ensures
        pages_ok(page_nums@, doc_pages, loaded@, page_nums@.len() as int) ==> (outcome matches Ok(
            results,
        ) && are_results_of(results@, page_nums@, doc_pages, loaded@) && page_nums_of(results@)
            == page_nums@),
        !pages_ok(page_nums@, doc_pages, loaded@, page_nums@.len() as int) ==> fails_at_first(
            outcome,
            page_nums@,
            doc_pages,
            loaded@,
        ),
{
    let n = page_nums.len();
    let size = chunk_size(n, worker_count);
    let chunks = split_into_chunks(page_nums, size);
    let ghost pages = page_nums@;
    let ghost given = loaded@;
    let ghost cut = chunks_view(chunks@);
    proof {
        lemma_chunks_cover(pages, size as int);
        assert(cut.take(0) == Seq::<Seq<u32>>::empty());
        assert(pages.take(0) == Seq::<u32>::empty());
    }
    let mut rest = loaded;
    let mut outcomes: Vec<Result<Vec<PageExtractionResult>>> = Vec::new();
    let ghost mut flat: Seq<PageExtractionResult> = Seq::empty();
    let mut offset: usize = 0;
    let mut k: usize = 0;
    proof {
        assert(chunk_results(outcomes@) == Seq::<Seq<PageExtractionResult>>::empty());
    }
    while k < chunks.len()
        invariant
            k <= chunks.len(),
            n == pages.len(),
            pages == page_nums@,
            given == loaded@,
            given.len() == n,
            cut == chunks_view(chunks@),
            concat_chunks(cut) == pages,
            offset <= n,
            concat_chunks(cut.take(k as int)) == pages.take(offset as int),
            rest@.len() == n,
            forall|j: int| offset <= j < n ==> rest@[j] == given[j],
            outcomes@.len() == k,
            all_ok(outcomes@, k as int) ==> pages_ok(pages, doc_pages, given, offset as int)
                && concat_chunks(chunk_results(outcomes@)) == flat && flat.len() == offset
                && forall|j: int|
                0 <= j < offset ==> is_result_of(
                    #[trigger] flat[j],
                    pages[j],
                    page_outcome(pages, doc_pages, given, j)->Ok_0,
                ),
            !all_ok(outcomes@, k as int) ==> exists|c: int, g: int|
                0 <= c < k && all_ok(outcomes@, c) && (#[trigger] outcomes@[c]) is Err && 0 <= g < n
                    && pages_ok(pages, doc_pages, given, g) && (#[trigger] page_outcome(
                    pages,
                    doc_pages,
                    given,
                    g,
                )) is Err && outcomes@[c] == Err::<Vec<PageExtractionResult>, VoxPDFError>(
                    page_outcome(pages, doc_pages, given, g)->Err_0,
                ),
        decreases chunks.len() - k,
    {
        let chunk = &chunks[k];
        let len = chunk.len();
        proof {
            let upto = cut.take(k as int + 1);
            assert(upto.drop_last() == cut.take(k as int));
            assert(upto.last() == chunk@);
            lemma_concat_split(cut, k as int + 1);
            let tail = concat_chunks(cut.skip(k as int + 1));
            assert(pages == (pages.take(offset as int) + chunk@) + tail);
            assert(offset + len <= n);
            assert(pages.subrange(offset as int, offset + len) == chunk@);
            assert(pages.take(offset + len) == pages.take(offset as int) + chunk@);
        }
        let mut part: Vec<Result<Vec<Vec<PositionedChar>>>> = Vec::new();
        let mut j: usize = 0;
        while j < len
            invariant
                j <= len,
                offset + len <= n,
                rest@.len() == n,
                given.len() == n,
                forall|i: int| offset + j <= i < n ==> rest@[i] == given[i],
                part@ == given.subrange(offset as int, offset + j),
            decreases len - j,
        {
            let mut glyphs: Result<Vec<Vec<PositionedChar>>> = Ok(Vec::new());
            std::mem::swap(&mut glyphs, &mut rest[offset + j]);
            proof {
                assert(given.subrange(offset as int, offset + j + 1) == given.subrange(
                    offset as int,
                    offset + j,
                ).push(glyphs));
            }
            part.push(glyphs);
            j = j + 1;
        }
        let ghost before = outcomes@;
        let ghost was_ok = all_ok(before, k as int);
        proof {
            assert forall|i: int| 0 <= i < len implies #[trigger] page_outcome(
                chunk@,
                doc_pages,
                part@,
                i,
            ) == page_outcome(pages, doc_pages, given, offset + i) by {
                assert(chunk@[i] == pages[offset + i]);
                assert(part@[i] == given[offset + i]);
            }
        }
        let outcome = extract_chunk(chunk, doc_pages, part);
        proof {
            let after = before.push(outcome);
            assert(after.drop_last() == before);
            assert forall|c: int| 0 <= c <= k implies all_ok(after, c) == all_ok(before, c) by {
                assert forall|i: int| 0 <= i < c implies after[i] == before[i] by {}
            }
            let shown = chunk_results(after);
            assert(shown.drop_last() == chunk_results(before));
            if was_ok {
                if pages_ok(chunk@, doc_pages, part@, len as int) {
                    let results = outcome->Ok_0@;
                    assert(shown.last() == results);
                    assert forall|i: int| 0 <= i < offset + len implies (#[trigger] page_outcome(
                        pages,
                        doc_pages,
                        given,
                        i,
                    )) is Ok by {
                        if i >= offset {
                            assert(page_outcome(chunk@, doc_pages, part@, i - offset) is Ok);
                        }
                    }
                    let longer = flat + results;
                    assert forall|i: int| 0 <= i < offset + len implies is_result_of(
                        #[trigger] longer[i],
                        pages[i],
                        page_outcome(pages, doc_pages, given, i)->Ok_0,
                    ) by {
                        if i >= offset {
                            assert(longer[i] == results[i - offset]);
                            assert(page_outcome(chunk@, doc_pages, part@, i - offset)
                                == page_outcome(pages, doc_pages, given, i));
                        } else {
                            assert(longer[i] == flat[i]);
                        }
                    }
                    flat = longer;
                    assert(all_ok(after, k as int + 1));
                } else {
                    let g = choose|g: int|
                        0 <= g < part@.len() && g < chunk@.len() && pages_ok(
                            chunk@,
                            doc_pages,
                            part@,
                            g,
                        ) && (#[trigger] page_outcome(chunk@, doc_pages, part@, g)) is Err
                            && outcome == Err::<Vec<PageExtractionResult>, VoxPDFError>(
                            page_outcome(chunk@, doc_pages, part@, g)->Err_0,
                        );
                    assert forall|i: int| 0 <= i < offset + g implies (#[trigger] page_outcome(
                        pages,
                        doc_pages,
                        given,
                        i,
                    )) is Ok by {
                        if i >= offset {
                            assert(page_outcome(chunk@, doc_pages, part@, i - offset) is Ok);
                        }
                    }
                    assert(page_outcome(pages, doc_pages, given, offset + g) == page_outcome(
                        chunk@,
                        doc_pages,
                        part@,
                        g,
                    ));
                    assert(after[k as int] is Err);
                    assert(!all_ok(after, k as int + 1));
                    assert(all_ok(after, k as int) && after[k as int] is Err && pages_ok(
                        pages,
                        doc_pages,
                        given,
                        offset + g,
                    ) && page_outcome(pages, doc_pages, given, offset + g) is Err);
                }
            } else {
                let (c, g) = choose|c: int, g: int|
                    0 <= c < k && all_ok(before, c) && (#[trigger] before[c]) is Err && 0 <= g < n
                        && pages_ok(pages, doc_pages, given, g) && (#[trigger] page_outcome(
                        pages,
                        doc_pages,
                        given,
                        g,
                    )) is Err && before[c] == Err::<Vec<PageExtractionResult>, VoxPDFError>(
                        page_outcome(pages, doc_pages, given, g)->Err_0,
                    );
                assert(after[c] == before[c]);
                assert(!all_ok(after, k as int + 1));
                assert(all_ok(after, c) && after[c] is Err && page_outcome(
                    pages,
                    doc_pages,
                    given,
                    g,
                ) is Err);
            }
        }
        outcomes.push(outcome);
        offset = offset + len;
        k = k + 1;
    }
    proof {
        assert(cut.take(k as int) == cut);
        assert(pages.take(offset as int).len() == pages.len());
        assert(offset == n);
    }
    let merged = merge_chunk_results(outcomes);
    proof {
        if all_ok(outcomes@, k as int) {
            let results = merged->Ok_0@;
            assert(page_nums_of(results) == pages);
        } else {
            let (c, g) = choose|c: int, g: int|
                0 <= c < k && all_ok(outcomes@, c) && (#[trigger] outcomes@[c]) is Err && 0 <= g < n
                    && pages_ok(pages, doc_pages, given, g) && (#[trigger] page_outcome(
                    pages,
                    doc_pages,
                    given,
                    g,
                )) is Err && outcomes@[c] == Err::<Vec<PageExtractionResult>, VoxPDFError>(
                    page_outcome(pages, doc_pages, given, g)->Err_0,
                );
            let first = choose|i: int|
                0 <= i < outcomes@.len() && all_ok(outcomes@, i) && (#[trigger] outcomes@[i]) is Err
                    && merged == Err::<Vec<PageExtractionResult>, VoxPDFError>(
                    outcomes@[i]->Err_0,
                );
            assert(first == c);
        }
    }
    merged
}

} // verus!
