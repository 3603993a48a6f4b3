//! Importing one item of a batch, a PDF or an item of a Zotero library: what is in the library already
//! is not imported again.
use vstd::prelude::*;
use vstd::string::*;

use crate::batch_import::{
    check_pdf, find_paper_by_blob_hash, find_paper_by_doi, has_doi, law_no_content_twice,
    opt_outcome, paper_with_content, pdf_check, stored_extension, ItemOutcome, OutcomeModel,
};
use crate::chunk_rows::Extracted;
use crate::digest::{content_digest, sha256_hex};
use crate::error::{told, SikuError};
use crate::file_store::blob_rel;
use crate::import_store::{
    finalize_paper_import, import_paper, is_finalized, is_recorded, same_rows, ImportIds,
    ImportStore, SourceFile, Standing,
};
use crate::models::Paper;
use crate::paper_service::{file_record, ImportModel, PdfInfo};
use crate::table::{first_place, law_first_place};
use crate::text::concat2;
use crate::zotero_import::{item_file_name, item_metadata, item_record, ZoteroItem};

verus! {

// ---------------------------------------------------------------------------------------------
// PDFs
// ---------------------------------------------------------------------------------------------
/// Imports a PDF of a batch. `read` holds its bytes, or why they could not be read, and `blob` where
/// they were stored, or why they were not.
pub fn import_pdf_one(
    store: &mut ImportStore,
    ids: &ImportIds,
    source: &SourceFile,
    read: &Result<Vec<u8>, String>,
    blob: Result<String, SikuError>,
    info: Option<PdfInfo>,
    text: Option<Extracted>,
    now: &str,
) -> (r: ItemOutcome)
    requires
        text is Some ==> text->0.chunks.len() <= ids.chunks.len(),
    ensures
        match pdf_check(source.path@, *read, old(store).papers@) {
            Some(o) => r.model() == o && *final(store) == *old(store),
            None => if source.is_there && blob is Ok {
                &&& r.model() == OutcomeModel::Imported(ids.paper@)
                &&& exists|p: Paper| #[trigger]
                    is_finalized(
                        *old(store),
                        *final(store),
                        *ids,
                        source.name@,
                        file_record(source.name@, info, blob->Ok_0@, source.size),
                        text,
                        now@,
                        p,
                    )
                &&& is_recorded(
                    old(store).imports@,
                    final(store).imports@,
                    ids.import@,
                    Some(source.path@),
                    None,
                    Standing::Completed(ids.paper@),
                    now@,
                )
            } else {
                &&& same_rows(*old(store), *final(store))
                &&& r.model() == OutcomeModel::Failed(
                    if source.is_there {
                        told(blob->Err_0)
                    } else {
                        "not found: "@ + ("source file not found: "@ + source.path@)
                    },
                )
            },
        },
{
    if let Some(end) = check_pdf(source.path.as_str(), read, &store.papers) {
        return end;
    }
    match import_paper(store, ids, source, blob, info, text, now) {
        Ok(p) => ItemOutcome::Imported(p.id),
        Err(e) => ItemOutcome::Failed(e.to_text()),
    }
}

/// A PDF is not imported twice: once it is imported, an import of the same content under a name with
/// the same extension does nothing.
pub proof fn law_file_is_not_imported_twice(
    s: ImportStore,
    t: ImportStore,
    ids: ImportIds,
    name: Seq<char>,
    info: Option<PdfInfo>,
    size: i64,
    text: Option<Extracted>,
    now: Seq<char>,
    p: Paper,
    bytes: Vec<u8>,
    path: Seq<char>,
)
    requires
        is_finalized(
            s,
            t,
            ids,
            name,
            file_record(
                name,
                info,
                blob_rel(content_digest(bytes@), stored_extension(path)),
                size,
            ),
            text,
            now,
            p,
        ),
    ensures
        pdf_check(path, Ok(bytes), t.papers@) == Some(OutcomeModel::Skipped),
{
    law_no_content_twice(
        t.papers@,
        t.papers@.len() - 1,
        content_digest(bytes@),
        stored_extension(path),
    );
}

// ---------------------------------------------------------------------------------------------
// Items of a Zotero library
// ---------------------------------------------------------------------------------------------
/// How the import of an item ends before it begins: with nothing done where its DOI or the content of
/// its PDF is in the library already, and with a failure where its PDF cannot be read.
pub open spec fn item_check(
    item: ZoteroItem,
    read: Result<Vec<u8>, String>,
    papers: Seq<Paper>,
) -> Option<OutcomeModel> {
    if item.doi is Some && first_place(papers, has_doi(item.doi->0@), 0) is Some {
        Some(OutcomeModel::Skipped)
    } else if item.pdf_path is Some {
        match read {
            Err(e) => Some(OutcomeModel::Failed("读取 PDF 失败："@ + e@)),
            Ok(bytes) => if paper_with_content(papers, content_digest(bytes@), "pdf"@) is Some {
                Some(OutcomeModel::Skipped)
            } else {
                None
            },
        }
    } else {
        None
    }
}

/// How the import of an item ends before it begins. `read` holds the bytes of its PDF, where it has
/// one.
pub fn check_item(
    item: &ZoteroItem,
    read: &Result<Vec<u8>, String>,
    papers: &Vec<Paper>,
) -> (r: Option<ItemOutcome>)
    ensures
        opt_outcome(r) == item_check(*item, *read, papers@),
{
    if let Some(doi) = &item.doi {
        if find_paper_by_doi(papers, doi.as_str()).is_some() {
            return Some(ItemOutcome::Skipped);
        }
    }
    if item.pdf_path.is_none() {
        return None;
    }
    match read {
        Err(e) => Some(ItemOutcome::Failed(concat2("读取 PDF 失败：", e.as_str()))),
        Ok(bytes) => {
            match find_paper_by_blob_hash(papers, sha256_hex(bytes).as_str(), "pdf") {
                Some(_) => Some(ItemOutcome::Skipped),
                None => None,
            }
        },
    }
}

/// What is stored of an item, next to its PDF where it has one.
pub open spec fn stored_item(
    item: ZoteroItem,
    read: Result<Vec<u8>, String>,
    blob: Result<String, String>,
) -> ImportModel {
    if item.pdf_path is Some {
        item_record(item, Some(blob->Ok_0@), Some(read->Ok_0.len() as i64))
    } else {
        item_record(item, None, None)
    }
}

/// Imports an item. `read` holds the bytes of its PDF, or why they could not be read, and `blob` where
/// they were stored, or why they were not. Both count only where the item has a PDF.
pub fn import_one(
    store: &mut ImportStore,
    ids: &ImportIds,
    item: &ZoteroItem,
    read: &Result<Vec<u8>, String>,
    blob: Result<String, String>,
    text: Option<Extracted>,
    now: &str,
) -> (r: ItemOutcome)
    requires
        text is Some ==> text->0.chunks.len() <= ids.chunks.len(),
    ensures
        match item_check(*item, *read, old(store).papers@) {
            Some(o) => r.model() == o && *final(store) == *old(store),
            None => if item.pdf_path is Some && blob is Err {
                r.model() == OutcomeModel::Failed(blob->Err_0@) && *final(store) == *old(store)
            } else {
                &&& r.model() == OutcomeModel::Imported(ids.paper@)
                &&& exists|p: Paper| #[trigger]
                    is_finalized(
                        *old(store),
                        *final(store),
                        *ids,
                        item_file_name(*item),
                        stored_item(*item, *read, blob),
                        text,
                        now@,
                        p,
                    )
                &&& final(store).imports@ == old(store).imports@
            },
        },
{
    if let Some(end) = check_item(item, read, &store.papers) {
        return end;
    }
    let mut path: Option<String> = None;
    let mut size: Option<i64> = None;
    if item.pdf_path.is_some() {
        match blob {
            Ok(rel) => {
                path = Some(rel);
            },
            Err(e) => {
                return ItemOutcome::Failed(e);
            },
        }
        if let Ok(bytes) = read {
            size = Some(bytes.len() as i64);
        }
    }
    let (m, name) = item_metadata(item, path, size);
    let paper = finalize_paper_import(store, ids, name.as_str(), m, text, now);
    ItemOutcome::Imported(paper.id)
}

/// An item is not imported twice: once it is imported, another import of it does nothing, so long as it
/// has a DOI, or a PDF that was stored under its content.
pub proof fn law_item_is_not_imported_twice(
    s: ImportStore,
    t: ImportStore,
    ids: ImportIds,
    item: ZoteroItem,
    read: Result<Vec<u8>, String>,
    blob: Result<String, String>,
    text: Option<Extracted>,
    now: Seq<char>,
    p: Paper,
)
    requires
        is_finalized(
            s,
            t,
            ids,
            item_file_name(item),
            stored_item(item, read, blob),
            text,
            now,
            p,
        ),
        item.doi is Some || (item.pdf_path is Some && read is Ok && blob is Ok && blob->Ok_0@
            == blob_rel(content_digest(read->Ok_0@), "pdf"@)),
    ensures
        item_check(item, read, t.papers@) == Some(OutcomeModel::Skipped),
{
    let k = t.papers@.len() - 1;
    if item.doi is Some {
        law_first_place(t.papers@, has_doi(item.doi->0@), 0);
        assert(has_doi(item.doi->0@)(t.papers@[k]));
    } else {
        law_no_content_twice(t.papers@, k, content_digest(read->Ok_0@), "pdf"@);
    }
}

} // verus!
