//! What is imported is stored whole: the paper, its file, its text piece by piece, and how each file of a
//! batch came through.
use vstd::prelude::*;
use vstd::string::*;

use crate::batch_import::{
    has_doi, is_recorded, paper_with_content, plain_doi, BatchImportSummary, ItemOutcome,
};
use crate::chunk_rows::{are_added, is_recounted, Extracted, NewChunk};
use crate::document_text::{
    document_text, injected, page_blocks, reading_of, text_of_bytes, unmarked, Charset, Content, PageText,
    Reading, INJECT_BUDGET_CHARS,
};
use crate::file_store::blob_rel;
use crate::import_store::{is_finalized, is_record, ImportIds, ImportRow, ImportStore, Standing};
use crate::models::{ChunkData, Paper};
use crate::paper_service::ImportModel;
use crate::settings_service::{account_keys, device_after, synced_after};
use crate::table::first_place;
use crate::text::{decimal, join, opt_text, texts};

verus! {

// ---------------------------------------------------------------------------------------------
// Papers
// ---------------------------------------------------------------------------------------------
/// An import adds the paper behind the others with all that is known of it, and its PDF behind the other
/// files, as that of the paper; where the pages were not counted they are counted by the text.
pub proof fn law_import_stores_the_paper(
    s: ImportStore,
    t: ImportStore,
    ids: ImportIds,
    file_name: Seq<char>,
    m: ImportModel,
    text: Option<Extracted>,
    now: Seq<char>,
    r: Paper,
)
    requires
        is_finalized(s, t, ids, file_name, m, text, now, r),
    ensures
        t.papers@.len() == s.papers@.len() + 1,
        forall|i: int| 0 <= i < s.papers@.len() ==> #[trigger] t.papers@[i] == s.papers@[i],
        t.papers@.last().id@ == ids.paper@,
        t.papers@.last().title@ == m.title,
        t.papers@.last().year == m.year,
        opt_text(t.papers@.last().doi) == m.doi,
        opt_text(t.papers@.last().url) == m.url,
        opt_text(t.papers@.last().journal) == m.journal,
        opt_text(t.papers@.last().abstract_text) == m.abstract_text,
        opt_text(t.papers@.last().file_path) == m.file_path,
        crate::citation_export::names_in(t.papers@.last().authors@) == m.authors,
        m.page_count is Some ==> t.papers@.last().page_count == m.page_count,
        m.page_count is None && m.file_path is Some && text is Some && text->0.pages != 0
            ==> t.papers@.last().page_count == Some(text->0.pages),
        m.file_path is Some ==> t.attachments@.len() == s.attachments@.len() + 1
            && t.attachments@.last().paper_id@ == ids.paper@ && t.attachments@.last().file_path@
            == m.file_path->0 && t.attachments@.last().file_name@ == file_name,
        m.file_path is None ==> t.attachments@ == s.attachments@,
        (forall|i: int|
            0 <= i < s.knowledge@.len() ==> (#[trigger] s.knowledge@[i]).id@ != ids.knowledge@)
            ==> t.knowledge@.len() == s.knowledge@.len() + 1 && t.knowledge@.last().title@ == m.title
            && opt_text(t.knowledge@.last().source_id) == Some(ids.paper@),
        m.file_path is Some && text is Some && text->0.pages != 0 ==> t.chunks@.len()
            == s.chunks@.len() + text->0.chunks@.len(),
{
    crate::table::law_first_place(s.knowledge@, crate::knowledge::with_id(ids.knowledge@), 0);
    assert forall|i: int| 0 <= i < s.papers@.len() implies #[trigger] t.papers@[i]
        == s.papers@[i] by {}
}

/// The record of an import says how it stands: under way, through with its paper, or failed with what went
/// wrong.
pub proof fn law_record_says_how_it_stands(
    r: ImportRow,
    id: Seq<char>,
    file_path: Option<Seq<char>>,
    source_url: Option<Seq<char>>,
    standing: Standing,
    now: Seq<char>,
)
    requires
        is_record(r, id, file_path, source_url, standing, now),
    ensures
        r.id@ == id,
        opt_text(r.file_path) == file_path,
        opt_text(r.source_url) == source_url,
        standing is Processing ==> r.status@ == "processing"@ && r.completed_at is None,
        standing is Completed ==> r.status@ == "completed"@ && opt_text(r.paper_id) == Some(
            standing->Completed_0,
        ) && r.error is None && opt_text(r.completed_at) == Some(now),
        standing is Failed ==> r.status@ == "failed"@ && r.paper_id is None && opt_text(r.error)
            == Some(standing->Failed_0) && opt_text(r.completed_at) == Some(now),
{
}

/// Every piece of the text of a paper is stored behind the rows that there were, in its order, with its
/// text, its pages and its section.
pub proof fn law_every_piece_is_stored(
    old: Seq<ChunkData>,
    chunks: Seq<NewChunk>,
    ids: Seq<String>,
    paper: Seq<char>,
    now: Seq<char>,
    r: Seq<ChunkData>,
    k: int,
)
    requires
        are_added(old, chunks, ids, paper, now, r),
        0 <= k < chunks.len(),
    ensures
        r.len() == old.len() + chunks.len(),
        r.take(old.len() as int) == old,
        r[old.len() + k].id@ == ids[k]@,
        r[old.len() + k].paper_id@ == paper,
        r[old.len() + k].content@ == chunks[k].content@,
        r[old.len() + k].page_start == chunks[k].page_start,
        r[old.len() + k].page_end == chunks[k].page_end,
        opt_text(r[old.len() + k].section) == opt_text(chunks[k].section),
        r[old.len() + k].chunk_index == chunks[k].chunk_index,
        r[old.len() + k].token_count == chunks[k].token_count,
{
    assert(crate::chunk_rows::is_row(chunks[k], ids[k]@, paper, now, r[old.len() + k]));
}

/// Counting the pages of a paper anew changes nothing else of it.
pub proof fn law_recount_keeps_the_paper(p: Paper, pages: i32, now: Seq<char>, r: Paper)
    requires
        is_recounted(p, pages, now, r),
    ensures
        r.page_count == Some(pages),
        r.updated_at@ == now,
        r.id == p.id,
        r.title == p.title,
        r.authors == p.authors,
        r.doi == p.doi,
        r.file_path == p.file_path,
        r.read_status == p.read_status,
{
}

// ---------------------------------------------------------------------------------------------
// Batches
// ---------------------------------------------------------------------------------------------
/// Each file of a batch is counted once, by how it came through, and a failure is listed with its file as
/// long as there is room.
pub proof fn law_each_file_counts_once(
    s: BatchImportSummary,
    file: Seq<char>,
    outcome: ItemOutcome,
    r: BatchImportSummary,
)
    requires
        is_recorded(s, file, outcome, r),
    ensures
        r.imported + r.skipped + r.failed == s.imported + s.skipped + s.failed + 1,
        outcome is Imported ==> r.imported == s.imported + 1,
        outcome is Skipped ==> r.skipped == s.skipped + 1,
        outcome is Failed ==> r.failed == s.failed + 1,
        r.total == s.total,
        outcome is Failed && s.errors.len() < 50 ==> texts(r.errors@) == texts(s.errors@).push(
            file + "："@ + outcome->Failed_0@,
        ),
        !(outcome is Failed) ==> texts(r.errors@) == texts(s.errors@),
{
}

/// A paper outside the trash whose file has a content is found by it, and one with a DOI, whatever its
/// case, by that: the first of them.
pub proof fn law_stored_content_is_found(
    papers: Seq<Paper>,
    hash: Seq<char>,
    ext: Seq<char>,
    doi: Seq<char>,
    k: int,
)
    requires
        0 <= k < papers.len(),
        papers[k].deleted_at is None,
    ensures
        opt_text(papers[k].file_path) == Some(blob_rel(hash, ext)) ==> paper_with_content(
            papers,
            hash,
            ext,
        ) is Some,
        papers[k].doi is Some && plain_doi(papers[k].doi->0@) == plain_doi(doi) ==> first_place(
            papers,
            has_doi(doi),
            0,
        ) is Some,
{
    crate::table::law_first_place(papers, crate::batch_import::has_file(blob_rel(hash, ext)), 0);
    crate::table::law_first_place(papers, has_doi(doi), 0);
    if opt_text(papers[k].file_path) == Some(blob_rel(hash, ext)) {
        assert(crate::batch_import::has_file(blob_rel(hash, ext))(papers[k]));
    }
    if papers[k].doi is Some && plain_doi(papers[k].doi->0@) == plain_doi(doi) {
        assert(has_doi(doi)(papers[k]));
    }
}

// ---------------------------------------------------------------------------------------------
// Documents
// ---------------------------------------------------------------------------------------------
/// The text of a PDF is that of all its pages, in their order, each below its number.
pub proof fn law_text_has_every_page(name: Seq<char>, pages: Vec<PageText>, k: int)
    requires
        0 <= k < pages@.len(),
    ensures
        document_text(name, Content::Pages(pages)) is Ok,
        document_text(name, Content::Pages(pages))->Ok_0 == join(page_blocks(pages@), "\n\n"@),
        page_blocks(pages@).len() == pages@.len(),
        page_blocks(pages@)[k] == "【第 "@ + decimal(pages@[k].page as nat) + " 页】\n"@
            + pages@[k].text@,
{
}

/// A text within the budget goes into a message whole, and a longer one by its beginning.
pub proof fn law_short_text_goes_in_whole(text: Seq<char>, cache_path: Seq<char>)
    ensures
        text.len() <= INJECT_BUDGET_CHARS ==> injected(text, cache_path) == text,
        text.len() > INJECT_BUDGET_CHARS ==> injected(text, cache_path).take(
            INJECT_BUDGET_CHARS as int,
        ) == text.take(INJECT_BUDGET_CHARS as int),
{
    if text.len() > INJECT_BUDGET_CHARS {
        assert(injected(text, cache_path).take(INJECT_BUDGET_CHARS as int) =~= text.take(
            INJECT_BUDGET_CHARS as int,
        ));
    }
}

/// A byte order mark decides how bytes are read, and bytes with a zero near their start are no text.
pub proof fn law_mark_decides(bytes: Seq<u8>, k: int)
    ensures
        bytes.len() >= 2 && bytes[0] == 0xFFu8 && bytes[1] == 0xFEu8 ==> reading_of(bytes)
            == Reading::Marked(Charset::Utf16Le),
        bytes.len() >= 2 && bytes[0] == 0xFEu8 && bytes[1] == 0xFFu8 ==> reading_of(bytes)
            == Reading::Marked(Charset::Utf16Be),
        reading_of(bytes) is Utf8 || reading_of(bytes) is Legacy ==> (0 <= k < bytes.len() && k
            < 8192 ==> bytes[k] != 0u8),
        reading_of(bytes) is Binary <==> text_of_bytes(bytes) is Err,
{
}

/// The mark at the start of a text goes, and nothing else.
pub proof fn law_mark_goes(s: Seq<char>)
    ensures
        unmarked(seq!['\u{feff}'] + s) == s,
        s.len() > 0 && s[0] != '\u{feff}' ==> unmarked(s) == s,
{
    assert((seq!['\u{feff}'] + s).skip(1) =~= s);
}

// ---------------------------------------------------------------------------------------------
// Settings
// ---------------------------------------------------------------------------------------------
/// When account data are moved to this device nothing is lost: what was synced is the device's where it
/// had nothing, what the device had stays, and all other settings stay as they were.
pub proof fn law_account_data_are_not_lost(
    key: Seq<char>,
    was: Option<Seq<char>>,
    synced: Option<Seq<char>>,
)
    ensures
        account_keys().contains(key) && synced is Some && synced->0.len() > 0 && (was is None
            || was->0.len() == 0) ==> device_after(key, was, synced) == synced,
        was is Some && was->0.len() > 0 ==> device_after(key, was, synced) == was,
        !account_keys().contains(key) ==> device_after(key, was, synced) == was && synced_after(
            key,
            synced,
        ) == synced,
        account_keys().contains(key) && synced is Some && synced->0.len() > 0 ==> synced_after(
            key,
            synced,
        ) is None,
{
}

} // verus!
