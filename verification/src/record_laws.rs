//! What is said of a note, a memory or a link is kept wherever its record is made, changed or completed.
use vstd::prelude::*;
use vstd::string::*;

use crate::agent_memory_service::{restored, snapshotted, with_active, with_content, StoreModel};
use crate::json::json_array_text;
use crate::link_import::{
    arxiv_model, completed, link_of, link_record, prepared, resolved_link, with_pdf_info, year_in,
    ArxivRecord, ErrorModel, MetadataModel,
};
use crate::models::Note;
use crate::note_service::{is_edited, is_new_note, note_tags, plain_text, NoteEdit};
use crate::note_store::{is_extended, is_moved};
use crate::paper_service::PdfInfo;
use crate::text::{opt_text, texts, trim, until};

verus! {

// ---------------------------------------------------------------------------------------------
// Notes
// ---------------------------------------------------------------------------------------------
/// An edit writes all that it says: the title, the text with its plain text and its tags, the paper, the
/// aliases and the mark; what it does not say stays, and so does what no edit says.
pub proof fn law_edit_writes_what_is_said(n: Note, e: NoteEdit, now: Seq<char>, r: Note)
    requires
        is_edited(n, e, now, r),
    ensures
        r.id@ == n.id@,
        r.vault_id@ == n.vault_id@,
        e.title is Some ==> r.title@ == e.title->0@,
        e.title is None ==> r.title@ == n.title@,
        e.content is Some ==> r.content@ == e.content->0@,
        e.content is Some ==> r.content_plain@ == plain_text(e.content->0@),
        e.content is Some ==> r.tags@ == json_array_text(note_tags(e.content->0@)),
        e.content is None ==> r.content@ == n.content@,
        e.content is None ==> r.content_plain@ == n.content_plain@,
        e.content is None ==> r.tags@ == n.tags@,
        e.paper_id is Some ==> opt_text(r.paper_id) == Some(e.paper_id->0@),
        e.paper_id is None ==> opt_text(r.paper_id) == opt_text(n.paper_id),
        e.aliases is Some ==> r.aliases@ == e.aliases->0@,
        e.aliases is None ==> r.aliases@ == n.aliases@,
        e.is_favorite is Some ==> r.is_favorite == e.is_favorite->0,
        e.is_favorite is None ==> r.is_favorite == n.is_favorite,
        r.is_folder == n.is_folder,
        r.is_system == n.is_system,
        opt_text(r.source_collection_id) == opt_text(n.source_collection_id),
        r.is_excerpt == n.is_excerpt,
        opt_text(r.agent_edited_at) == opt_text(n.agent_edited_at),
        r.agent_edit_count == n.agent_edit_count,
        opt_text(r.parent_id) == opt_text(n.parent_id),
        r.sort_order == n.sort_order,
        r.is_literature_note == n.is_literature_note,
        r.created_at@ == n.created_at@,
        (e.title is Some || e.content is Some || e.paper_id is Some || e.aliases is Some
            || e.is_favorite is Some) && e.touch != Some(false) ==> r.updated_at@ == now,
{
}

/// A new note has the title, the text, the paper and the folder that it is made with; its plain text and
/// its tags follow from its text.
pub proof fn law_new_note_holds_what_is_said(
    id: Seq<char>,
    vault_id: Seq<char>,
    title: Seq<char>,
    content: Seq<char>,
    paper_id: Option<Seq<char>>,
    parent_id: Option<Seq<char>>,
    is_folder: bool,
    now: Seq<char>,
    r: Note,
)
    requires
        is_new_note(id, vault_id, title, content, paper_id, parent_id, is_folder, now, r),
    ensures
        r.id@ == id,
        r.vault_id@ == vault_id,
        r.title@ == title,
        r.content@ == content,
        r.content_plain@ == plain_text(content),
        r.tags@ == json_array_text(note_tags(content)),
        opt_text(r.paper_id) == paper_id,
        opt_text(r.parent_id) == parent_id,
        is_folder ==> r.is_folder == 1,
        !is_folder ==> r.is_folder == 0,
        r.created_at@ == now,
        r.updated_at@ == now,
        r.is_system == 0,
        r.is_favorite == 0,
{
}

/// A move changes where a note stands, and nothing of what it says.
pub proof fn law_move_keeps_the_note(
    n: Note,
    parent: Option<Seq<char>>,
    sort_order: Option<i32>,
    now: Seq<char>,
    r: Note,
)
    requires
        is_moved(n, parent, sort_order, now, r),
    ensures
        opt_text(r.parent_id) == parent,
        sort_order is Some ==> r.sort_order == sort_order->0,
        sort_order is None ==> r.sort_order == n.sort_order,
        r.updated_at@ == now,
        r.id == n.id,
        r.vault_id == n.vault_id,
        r.title == n.title,
        r.content == n.content,
        r.tags == n.tags,
        r.paper_id == n.paper_id,
        r.is_folder == n.is_folder,
        r.created_at == n.created_at,
{
}

/// An excerpt that is added to a note stands at its end, and all that was there before stands before it.
pub proof fn law_excerpt_stands_at_the_end(n: Note, excerpt: Seq<char>, now: Seq<char>, r: Note)
    requires
        is_extended(n, excerpt, now, r),
    ensures
        r.id@ == n.id@,
        r.title@ == n.title@,
        r.content@.len() >= n.content@.len() + excerpt.len(),
        r.content@.take(n.content@.len() as int) == n.content@,
        r.content@.skip(r.content@.len() - excerpt.len()) == excerpt,
        opt_text(r.paper_id) == opt_text(n.paper_id),
        opt_text(r.parent_id) == opt_text(n.parent_id),
        r.updated_at@ == now,
{
    let e = choose|e: NoteEdit| #[trigger]
        is_edited(n, e, now, r) && e.title is None && e.paper_id is None && e.aliases is None
            && e.is_favorite is None && e.touch is None && e.content is Some && e.content->0@
            == n.content@ + "\n\n---\n\n"@ + excerpt;
    law_edit_writes_what_is_said(n, e, now, r);
    assert(r.content@.take(n.content@.len() as int) =~= n.content@);
    assert(r.content@.skip(r.content@.len() - excerpt.len()) =~= excerpt);
}

// ---------------------------------------------------------------------------------------------
// Memories
// ---------------------------------------------------------------------------------------------
/// A memory holds what was written last; switching it on or off keeps its content, and restoring a version
/// brings its content back and keeps the one before, unless that was blank or the same.
pub proof fn law_memory_holds_what_was_written(
    s: StoreModel,
    content: Seq<char>,
    active: bool,
    now: Seq<char>,
    threshold: Seq<char>,
    version_id: Seq<char>,
    spare_id: Seq<char>,
)
    ensures
        ({
            let w = with_content(s, content, now, threshold, version_id);
            &&& w.memory is Some
            &&& w.memory->0.content == content
            &&& w.memory->0.updated_at == now
            &&& s.memory is Some ==> w.memory->0.active == s.memory->0.active
            &&& s.memory is None ==> w.memory->0.active
        }),
        ({
            let w = with_active(s, active, now);
            &&& w.memory is Some
            &&& w.memory->0.active == active
            &&& s.memory is Some ==> w.memory->0.content == s.memory->0.content
            &&& w.versions == s.versions
        }),
        ({
            let w = restored(s, content, now, threshold, version_id, spare_id);
            &&& w.memory is Some
            &&& w.memory->0.content == content
            &&& s.memory is Some && trim(s.memory->0.content).len() > 0 && s.memory->0.content
                != content ==> w.versions.len() > s.versions.len()
                && w.versions[s.versions.len() as int].content == s.memory->0.content
        }),
{
}

/// No version is lost: the ones that there were stay, in their order, whatever is written or restored.
pub proof fn law_versions_stay(
    s: StoreModel,
    content: Seq<char>,
    force: bool,
    now: Seq<char>,
    threshold: Seq<char>,
    version_id: Seq<char>,
    spare_id: Seq<char>,
)
    ensures
        ({
            let v = snapshotted(s, content, force, now, threshold, version_id).versions;
            s.versions.len() <= v.len() <= s.versions.len() + 1 && v.take(s.versions.len() as int)
                == s.versions
        }),
        ({
            let v = with_content(s, content, now, threshold, version_id).versions;
            s.versions.len() <= v.len() && v.take(s.versions.len() as int) == s.versions
        }),
        ({
            let v = restored(s, content, now, threshold, version_id, spare_id).versions;
            s.versions.len() <= v.len() && v.take(s.versions.len() as int) == s.versions
        }),
{
    let n = s.versions.len() as int;
    let a = snapshotted(s, content, force, now, threshold, version_id).versions;
    assert(a.take(n) =~= s.versions);
    let b = with_content(s, content, now, threshold, version_id).versions;
    assert(b.take(n) =~= s.versions);
    let c = restored(s, content, now, threshold, version_id, spare_id).versions;
    assert(c.take(n) =~= s.versions);
}

// ---------------------------------------------------------------------------------------------
// Links
// ---------------------------------------------------------------------------------------------
/// A record that is completed keeps all that it says; without an address it gets that of the link.
pub proof fn law_completion_keeps_what_is_said(m: MetadataModel, url: Seq<char>)
    ensures
        ({
            let r = completed(m, url);
            &&& m.title.len() > 0 ==> r.title == m.title
            &&& m.url is Some ==> r.url == m.url
            &&& m.url is None ==> r.url == Some(url)
            &&& r.authors == m.authors
            &&& r.year == m.year
            &&& r.journal == m.journal
            &&& r.doi == m.doi
            &&& r.abstract_text == m.abstract_text
            &&& r.keywords == m.keywords
            &&& r.pdf_url == m.pdf_url
            &&& r.page_count == m.page_count
            &&& r.isbn == m.isbn
        }),
{
}

/// A PDF fills every gap of a record that it can fill, and replaces nothing but the title of a direct PDF.
pub proof fn law_pdf_fills_every_gap(m: MetadataModel, direct: bool, info: PdfInfo)
    ensures
        ({
            let r = with_pdf_info(m, direct, info);
            &&& direct && info.title is Some ==> r.title == info.title->0@
            &&& m.title.len() == 0 && info.title is Some ==> r.title == info.title->0@
            &&& !direct && m.title.len() > 0 ==> r.title == m.title
            &&& info.title is None ==> r.title == m.title
            &&& m.authors.len() == 0 ==> r.authors == texts(info.authors@)
            &&& m.authors.len() > 0 ==> r.authors == m.authors
            &&& m.abstract_text is None ==> r.abstract_text == opt_text(info.subject)
            &&& m.abstract_text is Some ==> r.abstract_text == m.abstract_text
            &&& m.keywords.len() == 0 ==> r.keywords == texts(info.keywords@)
            &&& m.keywords.len() > 0 ==> r.keywords == m.keywords
            &&& m.page_count is None && 0 < info.page_count <= i32::MAX ==> r.page_count == Some(
                info.page_count as i32,
            )
            &&& m.page_count is Some ==> r.page_count == m.page_count
            &&& r.year == m.year
            &&& r.journal == m.journal
            &&& r.doi == m.doi
            &&& r.url == m.url
            &&& r.pdf_url == m.pdf_url
            &&& r.isbn == m.isbn
        }),
{
}

/// What is stored of a paper from a link is all that is known of it, with its PDF where there is one.
pub proof fn law_link_record_keeps_everything(
    m: MetadataModel,
    file_path: Option<Seq<char>>,
    file_size: Option<i64>,
)
    ensures
        ({
            let r = link_record(m, file_path, file_size);
            &&& r.title == m.title
            &&& r.authors == m.authors
            &&& r.year == m.year
            &&& r.journal == m.journal
            &&& r.doi == m.doi
            &&& r.url == m.url
            &&& r.abstract_text == m.abstract_text
            &&& r.keywords == m.keywords
            &&& r.page_count == m.page_count
            &&& r.isbn == m.isbn
            &&& r.file_path == file_path
            &&& r.file_size == file_size
        }),
{
}

/// A link that can be read leads to what its service answers, completed; what the user was shown before is
/// not asked for again; and what the service does not know, or fails to say, is an error.
pub proof fn law_answer_is_used(
    url: Seq<char>,
    m: MetadataModel,
    answer: Result<Option<MetadataModel>, ErrorModel>,
    e: ErrorModel,
)
    ensures
        link_of(url) is Unsupported ==> prepared(url, Some(m), answer) is Err,
        !(link_of(url) is Unsupported) ==> prepared(url, Some(m), answer) == Ok::<
            MetadataModel,
            ErrorModel,
        >(completed(m, url)),
        !(link_of(url) is Unsupported) && !(link_of(url) is DirectPdf) ==> prepared(
            url,
            None,
            Ok(Some(m)),
        ) == Ok::<MetadataModel, ErrorModel>(completed(m, url)),
        !(link_of(url) is Unsupported) && !(link_of(url) is DirectPdf) ==> prepared(
            url,
            None,
            Ok(None),
        ) is Err,
        !(link_of(url) is Unsupported) && !(link_of(url) is DirectPdf) ==> prepared(
            url,
            None,
            Err(e),
        ) == Err::<MetadataModel, ErrorModel>(e),
        link_of(url) is DirectPdf ==> prepared(url, None, answer) is Ok && prepared(
            url,
            None,
            answer,
        )->Ok_0.pdf_url == Some(link_of(url)->DirectPdf_0),
{
}

/// Where a work has a DOI and no PDF is known, the open one is looked for and taken.
pub proof fn law_open_pdf_is_taken(
    url: Seq<char>,
    answer: Result<Option<MetadataModel>, ErrorModel>,
    found: Option<Seq<char>>,
)
    requires
        prepared(url, None, answer) is Ok,
    ensures
        ({
            let m = prepared(url, None, answer)->Ok_0;
            let r = resolved_link(url, answer, Ok(found));
            &&& r is Ok
            &&& m.pdf_url is None && m.doi is Some ==> r->Ok_0.pdf_url == found
            &&& m.pdf_url is Some || m.doi is None ==> r->Ok_0 == m
            &&& r->Ok_0.title == m.title
            &&& r->Ok_0.authors == m.authors
            &&& r->Ok_0.doi == m.doi
        }),
{
}

/// The record of an arXiv paper has its title, authors, categories, abstract and DOI, the year that its
/// date starts with, and the addresses of its page and its PDF.
pub proof fn law_arxiv_record_keeps_everything(p: ArxivRecord)
    ensures
        ({
            let m = arxiv_model(p);
            &&& m.title == p.title@
            &&& m.authors == texts(p.authors@)
            &&& m.keywords == texts(p.categories@)
            &&& m.abstract_text == Some(p.abstract_text@)
            &&& m.doi == opt_text(p.doi)
            &&& m.year == year_in(until(p.published@, "-"@))
            &&& m.url == Some("https://arxiv.org/abs/"@ + p.arxiv_id@)
            &&& m.pdf_url == Some("https://arxiv.org/pdf/"@ + p.arxiv_id@ + ".pdf"@)
        }),
{
}

} // verus!
