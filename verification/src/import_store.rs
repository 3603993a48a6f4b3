//! Importing papers: the rows that an import adds, and the record of how it went.
use vstd::prelude::*;
use vstd::string::*;

use crate::chunk_rows::{are_added, insert_chunks_for_paper, says_missing, Extracted};
use crate::error::SikuError;
use crate::knowledge::{get_item, with_id};
use crate::link_import::{
    enrich_from_pdf, import_metadata, import_warning, link_error, link_of, link_record,
    opt_metadata, parse_link, prepare_import, prepared, reply_outcome, warning, with_pdf_info,
    ErrorModel, LinkImportError, LinkModel, MetadataModel, PaperMetadata, ParsedLink,
};
use crate::models::{ChunkData, KnowledgeItem, Paper};
use crate::paper_service::{
    file_metadata, file_record, is_new_paper, new_paper, ImportMetadata, ImportModel, PdfInfo,
};
use crate::table::first_place;
use crate::text::{concat2, opt_text};

verus! {

// ---------------------------------------------------------------------------------------------
// Rows
// ---------------------------------------------------------------------------------------------
/// A file that belongs to a paper.
pub struct AttachmentRow {
    pub id: String,
    pub paper_id: String,
    pub file_name: String,
    pub file_path: String,
    pub file_type: String,
    pub description: Option<String>,
    pub created_at: String,
}

/// The record of an import.
pub struct ImportRow {
    pub id: String,
    pub file_path: Option<String>,
    pub source_url: Option<String>,
    pub paper_id: Option<String>,
    pub status: String,
    pub error: Option<String>,
    pub created_at: String,
    pub completed_at: Option<String>,
}

/// The rows that imports add to.
pub struct ImportStore {
    pub papers: Vec<Paper>,
    pub attachments: Vec<AttachmentRow>,
    pub knowledge: Vec<KnowledgeItem>,
    pub chunks: Vec<ChunkData>,
    pub imports: Vec<ImportRow>,
}

/// Fresh ids for the rows of an import.
pub struct ImportIds {
    pub import: String,
    pub paper: String,
    pub attachment: String,
    pub knowledge: String,
    pub chunks: Vec<String>,
}

/// Whether a row is the PDF of a paper.
pub open spec fn is_attachment(
    a: AttachmentRow,
    ids: ImportIds,
    file_name: Seq<char>,
    path: Seq<char>,
    now: Seq<char>,
) -> bool {
    &&& a.id@ == ids.attachment@
    &&& a.paper_id@ == ids.paper@
    &&& a.file_name@ == file_name
    &&& a.file_path@ == path
    &&& a.file_type@ == "pdf"@
    &&& a.description is None
    &&& a.created_at@ == now
}

/// Whether an item refers to a paper.
pub open spec fn is_reference(
    k: KnowledgeItem,
    ids: ImportIds,
    title: Seq<char>,
    now: Seq<char>,
) -> bool {
    &&& k.id@ == ids.knowledge@
    &&& k.domain_id@ == "dom-research"@
    &&& k.title@ == title
    &&& k.content_type@ == "paper_ref"@
    &&& k.content is None
    &&& opt_text(k.source_type) == Some("paper"@)
    &&& opt_text(k.source_id) == Some(ids.paper@)
    &&& k.tags@ == "[]"@
    &&& k.metadata@ == "{}"@
    &&& k.created_at@ == now
    &&& k.updated_at@ == now
}

/// Whether the text of a PDF was found: there is a file, it could be read, and it has pages.
pub open spec fn has_pages(m: ImportModel, text: Option<Extracted>) -> bool {
    m.file_path is Some && text is Some && text->0.pages != 0
}

/// A paper whose pages are counted by its text, where they were not counted before.
pub open spec fn recounted(m: ImportModel, text: Option<Extracted>, p: Paper) -> Paper {
    if has_pages(m, text) && m.page_count is None {
        Paper { page_count: Some(text->0.pages), ..p }
    } else {
        p
    }
}

/// Whether a row was added behind those that were there.
pub open spec fn is_behind<T>(old: Seq<T>, new: Seq<T>) -> bool {
    new.len() == old.len() + 1 && new.take(old.len() as int) == old
}

/// Whether the rows of a paper were added: the paper, its PDF where it has one, an item that refers to
/// it unless there is one with that id, and the pieces of its text where it has any.
pub open spec fn is_finalized(
    s: ImportStore,
    t: ImportStore,
    ids: ImportIds,
    file_name: Seq<char>,
    m: ImportModel,
    text: Option<Extracted>,
    now: Seq<char>,
    r: Paper,
) -> bool {
    &&& is_new_paper(ids.paper@, m, now, r)
    &&& t.papers@ == s.papers@.push(recounted(m, text, r))
    &&& match m.file_path {
        Some(path) => is_behind(s.attachments@, t.attachments@) && is_attachment(
            t.attachments@.last(),
            ids,
            file_name,
            path,
            now,
        ),
        None => t.attachments@ == s.attachments@,
    }
    &&& if first_place(s.knowledge@, with_id(ids.knowledge@), 0) is Some {
        t.knowledge@ == s.knowledge@
    } else {
        is_behind(s.knowledge@, t.knowledge@) && is_reference(
            t.knowledge@.last(),
            ids,
            m.title,
            now,
        )
    }
    &&& if has_pages(m, text) {
        are_added(s.chunks@, text->0.chunks@, ids.chunks@, ids.paper@, now, t.chunks@)
    } else {
        t.chunks@ == s.chunks@
    }
}

fn copied(o: &Option<String>) -> (r: Option<String>)
    ensures
        r == *o,
{
    match o {
        Some(s) => Some(s.clone()),
        None => None,
    }
}

fn copy_paper(p: &Paper) -> (r: Paper)
    ensures
        r == *p,
{
    Paper {
        id: p.id.clone(),
        title: p.title.clone(),
        authors: p.authors.clone(),
        year: p.year,
        journal: copied(&p.journal),
        doi: copied(&p.doi),
        url: copied(&p.url),
        abstract_text: copied(&p.abstract_text),
        keywords: p.keywords.clone(),
        citation_key: copied(&p.citation_key),
        bibtex: copied(&p.bibtex),
        file_path: copied(&p.file_path),
        file_size: p.file_size,
        page_count: p.page_count,
        language: copied(&p.language),
        item_type: copied(&p.item_type),
        volume: copied(&p.volume),
        issue: copied(&p.issue),
        pages: copied(&p.pages),
        conference_name: copied(&p.conference_name),
        publisher: copied(&p.publisher),
        place: copied(&p.place),
        editor: p.editor.clone(),
        series: copied(&p.series),
        edition: copied(&p.edition),
        isbn: copied(&p.isbn),
        issn: copied(&p.issn),
        num_pages: p.num_pages,
        archive_location: copied(&p.archive_location),
        call_number: copied(&p.call_number),
        rights: copied(&p.rights),
        deleted_at: copied(&p.deleted_at),
        is_favorite: p.is_favorite,
        read_status: p.read_status.clone(),
        last_read_at: copied(&p.last_read_at),
        created_at: p.created_at.clone(),
        updated_at: p.updated_at.clone(),
        imported_at: p.imported_at.clone(),
    }
}

/// Adds the rows of a paper, and gives its record as it was first stored. `text` is what the PDF says,
/// where it could be read.
pub fn finalize_paper_import(
    store: &mut ImportStore,
    ids: &ImportIds,
    file_name: &str,
    m: ImportMetadata,
    text: Option<Extracted>,
    now: &str,
) -> (r: Paper)
    requires
        text is Some ==> text->0.chunks.len() <= ids.chunks.len(),
    ensures
        is_finalized(*old(store), *final(store), *ids, file_name@, m@, text, now@, r),
        final(store).imports@ == old(store).imports@,
{
    let ghost model = m@;
    let known = m.page_count;
    let title = m.title.clone();
    let path = copied(&m.file_path);
    let paper = new_paper(ids.paper.as_str(), m, now);
    let mut stored = copy_paper(&paper);
    let ghost attachments = store.attachments@;
    if let Some(p) = &path {
        store.attachments.push(
            AttachmentRow {
                id: ids.attachment.clone(),
                paper_id: ids.paper.clone(),
                file_name: file_name.to_owned(),
                file_path: p.clone(),
                file_type: "pdf".to_owned(),
                description: None,
                created_at: now.to_owned(),
            },
        );
        assert(store.attachments@.take(attachments.len() as int) =~= attachments);
    }
    let ghost knowledge = store.knowledge@;
    if get_item(&store.knowledge, ids.knowledge.as_str()).is_err() {
        store.knowledge.push(
            KnowledgeItem {
                id: ids.knowledge.clone(),
                domain_id: "dom-research".to_owned(),
                title,
                content_type: "paper_ref".to_owned(),
                content: None,
                source_type: Some("paper".to_owned()),
                source_id: Some(ids.paper.clone()),
                metadata: "{}".to_owned(),
                tags: "[]".to_owned(),
                created_at: now.to_owned(),
                updated_at: now.to_owned(),
            },
        );
        assert(store.knowledge@.take(knowledge.len() as int) =~= knowledge);
    }
    if path.is_some() {
        if let Some(t) = &text {
            if t.pages != 0 {
                if known.is_none() {
                    stored.page_count = Some(t.pages);
                }
                insert_chunks_for_paper(
                    &mut store.chunks,
                    ids.paper.as_str(),
                    &t.chunks,
                    &ids.chunks,
                    now,
                );
            }
        }
    }
    store.papers.push(stored);
    paper
}

/// Nothing is lost by an import: what was there is still there.
pub proof fn law_import_keeps_the_rest(
    s: ImportStore,
    t: ImportStore,
    ids: ImportIds,
    file_name: Seq<char>,
    m: ImportModel,
    text: Option<Extracted>,
    now: Seq<char>,
    r: Paper,
)
    requires
        is_finalized(s, t, ids, file_name, m, text, now, r),
    ensures
        forall|p: Paper| #[trigger] s.papers@.contains(p) ==> t.papers@.contains(p),
        forall|a: AttachmentRow| #[trigger]
            s.attachments@.contains(a) ==> t.attachments@.contains(a),
        forall|k: KnowledgeItem| #[trigger] s.knowledge@.contains(k) ==> t.knowledge@.contains(k),
        forall|c: ChunkData| #[trigger] s.chunks@.contains(c) ==> t.chunks@.contains(c),
{
    assert(t.papers@.take(s.papers@.len() as int) =~= s.papers@);
    assert(t.attachments@.take(s.attachments@.len() as int) =~= s.attachments@);
    assert(t.knowledge@.take(s.knowledge@.len() as int) =~= s.knowledge@);
    assert(t.chunks@.take(s.chunks@.len() as int) =~= s.chunks@);
    lemma_prefix_contains(s.papers@, t.papers@);
    lemma_prefix_contains(s.attachments@, t.attachments@);
    lemma_prefix_contains(s.knowledge@, t.knowledge@);
    lemma_prefix_contains(s.chunks@, t.chunks@);
}

proof fn lemma_prefix_contains<T>(a: Seq<T>, b: Seq<T>)
    requires
        a.len() <= b.len(),
        b.take(a.len() as int) == a,
    ensures
        forall|x: T| #[trigger] a.contains(x) ==> b.contains(x),
{
    assert forall|x: T| #[trigger] a.contains(x) implies b.contains(x) by {
        let k = choose|k: int| 0 <= k < a.len() && a[k] == x;
        assert(b.take(a.len() as int)[k] == x);
        assert(b[k] == x);
    }
}

/// A paper with a file is stored together with that file: the attachment that is added belongs to the
/// paper and lies where the paper says.
pub proof fn law_file_belongs_to_paper(
    s: ImportStore,
    t: ImportStore,
    ids: ImportIds,
    file_name: Seq<char>,
    m: ImportModel,
    text: Option<Extracted>,
    now: Seq<char>,
    r: Paper,
)
    requires
        is_finalized(s, t, ids, file_name, m, text, now, r),
    ensures
        ({
            let p = t.papers@.last();
            &&& p.id@ == ids.paper@
            &&& p.file_path is None ==> t.attachments@ == s.attachments@
            &&& p.file_path is Some ==> t.attachments@.len() == s.attachments@.len() + 1
                && t.attachments@.last().paper_id@ == p.id@ && Some(
                t.attachments@.last().file_path@,
            ) == opt_text(p.file_path)
        }),
{
}

// ---------------------------------------------------------------------------------------------
// Records of imports
// ---------------------------------------------------------------------------------------------
/// How an import stands.
pub enum Standing {
    Processing,
    Completed(Seq<char>),
    Failed(Seq<char>),
}

/// Whether a record says how an import stands. What was begun at `now` ends at `now`.
pub open spec fn is_record(
    r: ImportRow,
    id: Seq<char>,
    file_path: Option<Seq<char>>,
    source_url: Option<Seq<char>>,
    standing: Standing,
    now: Seq<char>,
) -> bool {
    &&& r.id@ == id
    &&& opt_text(r.file_path) == file_path
    &&& opt_text(r.source_url) == source_url
    &&& r.created_at@ == now
    &&& match standing {
        Standing::Processing => r.status@ == "processing"@ && r.paper_id is None && r.error is None
            && r.completed_at is None,
        Standing::Completed(paper) => r.status@ == "completed"@ && opt_text(r.paper_id) == Some(
            paper,
        ) && r.error is None && opt_text(r.completed_at) == Some(now),
        Standing::Failed(error) => r.status@ == "failed"@ && r.paper_id is None && opt_text(r.error)
            == Some(error) && opt_text(r.completed_at) == Some(now),
    }
}

/// Whether a record of an import was added behind those that were there.
pub open spec fn is_recorded(
    old: Seq<ImportRow>,
    new: Seq<ImportRow>,
    id: Seq<char>,
    file_path: Option<Seq<char>>,
    source_url: Option<Seq<char>>,
    standing: Standing,
    now: Seq<char>,
) -> bool {
    is_behind(old, new) && is_record(new.last(), id, file_path, source_url, standing, now)
}

/// Whether two stores hold the same but for the records of imports.
pub open spec fn same_rows(s: ImportStore, t: ImportStore) -> bool {
    &&& t.papers@ == s.papers@
    &&& t.attachments@ == s.attachments@
    &&& t.knowledge@ == s.knowledge@
    &&& t.chunks@ == s.chunks@
}

fn begin(
    imports: &mut Vec<ImportRow>,
    id: &str,
    file_path: Option<String>,
    source_url: Option<String>,
    now: &str,
)
    ensures
        is_recorded(
            old(imports)@,
            final(imports)@,
            id@,
            opt_text(file_path),
            opt_text(source_url),
            Standing::Processing,
            now@,
        ),
{
    let ghost before = imports@;
    imports.push(
        ImportRow {
            id: id.to_owned(),
            file_path,
            source_url,
            paper_id: None,
            status: "processing".to_owned(),
            error: None,
            created_at: now.to_owned(),
            completed_at: None,
        },
    );
    assert(imports@.take(before.len() as int) =~= before);
}

/// Notes in the last record that its import came through.
fn complete(
    imports: &mut Vec<ImportRow>,
    paper_id: &str,
    now: &str,
    Ghost(before): Ghost<Seq<ImportRow>>,
    Ghost(id): Ghost<Seq<char>>,
    Ghost(file_path): Ghost<Option<Seq<char>>>,
    Ghost(source_url): Ghost<Option<Seq<char>>>,
)
    requires
        is_recorded(
            before,
            old(imports)@,
            id,
            file_path,
            source_url,
            Standing::Processing,
            now@,
        ),
    ensures
        is_recorded(
            before,
            final(imports)@,
            id,
            file_path,
            source_url,
            Standing::Completed(paper_id@),
            now@,
        ),
{
    if let Some(mut row) = imports.pop() {
        row.status = "completed".to_owned();
        row.paper_id = Some(paper_id.to_owned());
        row.completed_at = Some(now.to_owned());
        imports.push(row);
        assert(imports@.take(before.len() as int) =~= before);
    }
}

/// Notes in the last record that its import failed.
fn fail(
    imports: &mut Vec<ImportRow>,
    error: String,
    now: &str,
    Ghost(before): Ghost<Seq<ImportRow>>,
    Ghost(id): Ghost<Seq<char>>,
    Ghost(file_path): Ghost<Option<Seq<char>>>,
    Ghost(source_url): Ghost<Option<Seq<char>>>,
)
    requires
        is_recorded(
            before,
            old(imports)@,
            id,
            file_path,
            source_url,
            Standing::Processing,
            now@,
        ),
    ensures
        is_recorded(
            before,
            final(imports)@,
            id,
            file_path,
            source_url,
            Standing::Failed(error@),
            now@,
        ),
{
    if let Some(mut row) = imports.pop() {
        row.status = "failed".to_owned();
        row.error = Some(error);
        row.completed_at = Some(now.to_owned());
        imports.push(row);
        assert(imports@.take(before.len() as int) =~= before);
    }
}

// ---------------------------------------------------------------------------------------------
// Importing a file
// ---------------------------------------------------------------------------------------------
/// A PDF that is to be imported: its path as it is shown, its name, whether it is there, and its size.
pub struct SourceFile {
    pub path: String,
    pub name: String,
    pub is_there: bool,
    pub size: i64,
}

/// Imports a PDF. `blob` is where its bytes were stored, or why they were not, `info` what the PDF says
/// of itself, and `text` its text, where it could be read.
pub fn import_paper(
    store: &mut ImportStore,
    ids: &ImportIds,
    source: &SourceFile,
    blob: Result<String, SikuError>,
    info: Option<PdfInfo>,
    text: Option<Extracted>,
    now: &str,
) -> (r: Result<Paper, SikuError>)
    requires
        text is Some ==> text->0.chunks.len() <= ids.chunks.len(),
    ensures
        match r {
            Ok(p) => source.is_there && blob is Ok && is_finalized(
                *old(store),
                *final(store),
                *ids,
                source.name@,
                file_record(source.name@, info, blob->Ok_0@, source.size),
                text,
                now@,
                p,
            ) && is_recorded(
                old(store).imports@,
                final(store).imports@,
                ids.import@,
                Some(source.path@),
                None,
                Standing::Completed(ids.paper@),
                now@,
            ),
            Err(e) => same_rows(*old(store), *final(store)) && if !source.is_there {
                says_missing(e, "source file not found: "@ + source.path@) && final(store).imports@
                    == old(store).imports@
            } else {
                blob is Err && blob->Err_0 == e && is_recorded(
                    old(store).imports@,
                    final(store).imports@,
                    ids.import@,
                    Some(source.path@),
                    None,
                    Standing::Processing,
                    now@,
                )
            },
        },
{
    if !source.is_there {
        return Err(
            SikuError::NotFound(concat2("source file not found: ", source.path.as_str())),
        );
    }
    let ghost imports = store.imports@;
    begin(&mut store.imports, ids.import.as_str(), Some(source.path.clone()), None, now);
    let rel = match blob {
        Ok(rel) => rel,
        Err(e) => {
            return Err(e);
        },
    };
    let m = file_metadata(source.name.as_str(), info, rel, source.size);
    let paper = finalize_paper_import(store, ids, source.name.as_str(), m, text, now);
    complete(
        &mut store.imports,
        paper.id.as_str(),
        now,
        Ghost(imports),
        Ghost(ids.import@),
        Ghost(Some(source.path@)),
        Ghost(None),
    );
    Ok(paper)
}

// ---------------------------------------------------------------------------------------------
// Importing from a link
// ---------------------------------------------------------------------------------------------
/// An imported paper and what the user is warned of.
pub struct PaperImportResult {
    pub paper: Paper,
    pub warning: Option<String>,
}

/// What became of the PDF of a link: there is none to be had, it could not be downloaded, or it was
/// stored.
pub enum LinkPdf {
    Nowhere,
    NotDownloaded(String),
    Stored {
        path: String,
        size: i64,
        name: String,
        info: Option<PdfInfo>,
        text: Option<Extracted>,
    },
}

impl LinkPdf {
    /// Where the PDF was stored.
    pub open spec fn path(self) -> Option<Seq<char>> {
        match self {
            LinkPdf::Stored { path, .. } => Some(path@),
            _ => None,
        }
    }

    /// The size of the PDF.
    pub open spec fn size(self) -> Option<i64> {
        match self {
            LinkPdf::Stored { size, .. } => Some(size),
            _ => None,
        }
    }

    /// The name under which the PDF is shown.
    pub open spec fn name(self) -> Seq<char> {
        match self {
            LinkPdf::Stored { name, .. } => name@,
            _ => "original.pdf"@,
        }
    }

    /// What the PDF says of itself.
    pub open spec fn info(self) -> Option<PdfInfo> {
        match self {
            LinkPdf::Stored { info, .. } => info,
            _ => None,
        }
    }

    /// The text of the PDF.
    pub open spec fn text(self) -> Option<Extracted> {
        match self {
            LinkPdf::Stored { text, .. } => text,
            _ => None,
        }
    }

    /// Why the PDF could not be downloaded.
    pub open spec fn error(self) -> Option<Seq<char>> {
        match self {
            LinkPdf::NotDownloaded(e) => Some(e@),
            _ => None,
        }
    }
}

/// What is known of a paper once its PDF is there.
pub open spec fn with_pdf(link: LinkModel, m: MetadataModel, pdf: LinkPdf) -> MetadataModel {
    match pdf.info() {
        Some(info) => with_pdf_info(m, link is DirectPdf, info),
        None => m,
    }
}

/// An error as one line.
pub open spec fn error_line(e: ErrorModel) -> Seq<char> {
    "["@ + e.code + "] "@ + e.message
}

/// Imports the paper behind a link. `preview` holds what the user has seen of it, `answer` what the
/// service for the link says, and `pdf` what became of its PDF, or why the import ended there.
pub fn import_paper_from_link(
    store: &mut ImportStore,
    ids: &ImportIds,
    url: &str,
    preview: Option<PaperMetadata>,
    answer: Result<Option<PaperMetadata>, LinkImportError>,
    pdf: Result<LinkPdf, LinkImportError>,
    now: &str,
) -> (r: Result<PaperImportResult, LinkImportError>)
    requires
        pdf is Ok && pdf->Ok_0.text() is Some ==> pdf->Ok_0.text()->0.chunks.len()
            <= ids.chunks.len(),
    ensures
        match r {
            Ok(made) => {
                let known = prepared(url@, opt_metadata(preview), reply_outcome(answer));
                let m = with_pdf(link_of(url@), known->Ok_0, pdf->Ok_0);
                &&& !(link_of(url@) is Unsupported) && known is Ok && pdf is Ok
                &&& is_finalized(
                    *old(store),
                    *final(store),
                    *ids,
                    pdf->Ok_0.name(),
                    link_record(m, pdf->Ok_0.path(), pdf->Ok_0.size()),
                    pdf->Ok_0.text(),
                    now@,
                    made.paper,
                )
                &&& opt_text(made.warning) == warning(link_of(url@), m, pdf->Ok_0.error())
                &&& is_recorded(
                    old(store).imports@,
                    final(store).imports@,
                    ids.import@,
                    None,
                    Some(url@),
                    Standing::Completed(ids.paper@),
                    now@,
                )
            },
            Err(e) => {
                let known = prepared(url@, opt_metadata(preview), reply_outcome(answer));
                &&& same_rows(*old(store), *final(store))
                &&& if link_of(url@) is Unsupported {
                    &&& e@ == link_error("unsupported_url"@, "不支持的链接格式"@)
                    &&& final(store).imports@ == old(store).imports@
                } else {
                    &&& known is Err ==> e@ == known->Err_0
                    &&& known is Ok ==> pdf is Err && e == pdf->Err_0
                    &&& is_recorded(
                        old(store).imports@,
                        final(store).imports@,
                        ids.import@,
                        None,
                        Some(url@),
                        Standing::Failed(error_line(e@)),
                        now@,
                    )
                }
            },
        },
{
    let link = parse_link(url);
    match &link {
        ParsedLink::Unsupported => {
            return Err(LinkImportError::new("unsupported_url", "不支持的链接格式".to_owned()));
        },
        _ => {},
    }
    let ghost imports = store.imports@;
    begin(&mut store.imports, ids.import.as_str(), None, Some(url.to_owned()), now);
    let m = match prepare_import(url, preview, answer) {
        Ok(m) => m,
        Err(e) => {
            fail(
                &mut store.imports,
                e.to_text(),
                now,
                Ghost(imports),
                Ghost(ids.import@),
                Ghost(None),
                Ghost(Some(url@)),
            );
            return Err(e);
        },
    };
    let found = match pdf {
        Ok(found) => found,
        Err(e) => {
            fail(
                &mut store.imports,
                e.to_text(),
                now,
                Ghost(imports),
                Ghost(ids.import@),
                Ghost(None),
                Ghost(Some(url@)),
            );
            return Err(e);
        },
    };
    let (m, path, size, name, text, error) = match found {
        LinkPdf::Nowhere => (m, None, None, "original.pdf".to_owned(), None, None),
        LinkPdf::NotDownloaded(e) => (m, None, None, "original.pdf".to_owned(), None, Some(e)),
        LinkPdf::Stored { path, size, name, info, text } => {
            let m = match info {
                Some(i) => enrich_from_pdf(m, &link, i),
                None => m,
            };
            (m, Some(path), Some(size), name, text, None)
        },
    };
    let warning = import_warning(&link, &m, &error);
    let record = import_metadata(m, path, size);
    let paper = finalize_paper_import(store, ids, name.as_str(), record, text, now);
    complete(
        &mut store.imports,
        paper.id.as_str(),
        now,
        Ghost(imports),
        Ghost(ids.import@),
        Ghost(None),
        Ghost(Some(url@)),
    );
    Ok(PaperImportResult { paper, warning })
}

} // verus!
