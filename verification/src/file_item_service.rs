//! Files that are kept in a vault.
use vstd::prelude::*;
use vstd::string::*;

use crate::document_text::is_binary;
use crate::file_service::{file_part, file_part_of, mime_guess, mime_type_of};
use crate::file_store::{resolve_blob_path, resolved};
use crate::models::{FileItem, TextPreview};
use crate::office_text::{
    extract_text, handed_out, is_cut, is_office_name, office_name, whole_text,
};
use crate::order::{place_list, sorted, text_before};
use crate::table::{
    find_row, first_place, order_picked, pick_rows, picked, remove_rows, rows_without,
};
use crate::text::{
    concat2, copy_opt, from_utf8_lossy, lossy_text, lower, opt_text, same, to_lower, trim, trimmed,
};

verus! {

/// How many bytes of a file are shown.
pub const MAX_PREVIEW: usize = 2_097_152;

/// Whether a path has a last part that can be a file's name.
pub open spec fn has_name(path: Seq<char>) -> bool {
    let n = file_part(path);
    n.len() > 0 && n != "."@ && n != ".."@
}

/// The row of a file that is imported. `is_file` says whether the path is that of a file, and
/// `blob_path` where its content is stored.
pub fn import_file(
    source_path: &str,
    is_file: bool,
    size: i64,
    blob_path: &str,
    vault_id: &str,
    parent_id: &Option<String>,
    id: &str,
    now: &str,
) -> (r: Result<FileItem, String>)
    ensures
        match r {
            Ok(f) => is_file && has_name(source_path@) && f.id@ == id@ && f.vault_id@ == vault_id@
                && opt_text(f.parent_id) == opt_text(*parent_id) && f.name@ == file_part(
                source_path@,
            ) && f.blob_path@ == blob_path@ && f.size == size && opt_text(f.mime_type)
                == mime_type_of(file_part(source_path@)) && f.sort_order == 0 && f.created_at@
                == now@ && f.updated_at@ == now@,
            Err(e) => if !is_file {
                e@ == "not a file: "@ + source_path@
            } else {
                !has_name(source_path@) && e@ == "invalid file name: "@ + source_path@
            },
        },
{
    if !is_file {
        return Err(concat2("not a file: ", source_path));
    }
    let name = file_part_of(source_path);
    if name.as_str().is_empty() || same(name.as_str(), ".") || same(name.as_str(), "..") {
        return Err(concat2("invalid file name: ", source_path));
    }
    let mime_type = mime_guess(name.as_str());
    Ok(
        FileItem {
            id: id.to_owned(),
            vault_id: vault_id.to_owned(),
            parent_id: copy_opt(parent_id),
            name,
            blob_path: blob_path.to_owned(),
            size,
            mime_type,
            sort_order: 0,
            created_at: now.to_owned(),
            updated_at: now.to_owned(),
        },
    )
}

/// A file once it was moved: into a folder, or out of all folders, and to another place in the order
/// where one is given.
pub fn move_file(f: &mut FileItem, parent_id: Option<String>, sort_order: Option<i32>, now: &str)
    ensures
        final(f).parent_id == parent_id,
        final(f).sort_order == (match sort_order {
            Some(n) => n,
            None => old(f).sort_order,
        }),
        final(f).updated_at@ == now@,
        final(f).id == old(f).id && final(f).vault_id == old(f).vault_id && final(f).name == old(
            f).name && final(f).blob_path == old(f).blob_path && final(f).size == old(f).size
            && final(f).mime_type == old(f).mime_type && final(f).created_at == old(f).created_at,
{
    f.parent_id = parent_id;
    if let Some(n) = sort_order {
        f.sort_order = n;
    }
    f.updated_at = now.to_owned();
}

/// Gives a file another name, trimmed, and the type that goes with it. What it holds stays where it is.
pub fn rename_file(f: &mut FileItem, name: &str, now: &str) -> (r: Result<(), String>)
    ensures
        match r {
            Ok(_) => trim(name@).len() > 0 && final(f).name@ == trim(name@) && opt_text(
                final(f).mime_type,
            ) == mime_type_of(trim(name@)) && final(f).updated_at@ == now@ && final(f).id == old(
                f).id && final(f).vault_id == old(f).vault_id && final(f).parent_id == old(
                f).parent_id && final(f).blob_path == old(f).blob_path && final(f).size == old(
                f).size && final(f).sort_order == old(f).sort_order && final(f).created_at == old(
                f).created_at,
            Err(e) => trim(name@).len() == 0 && e@ == "文件名不能为空"@ && *final(f) == *old(f),
        },
{
    let n = trimmed(name);
    if n.as_str().is_empty() {
        return Err("文件名不能为空".to_owned());
    }
    f.mime_type = mime_guess(n.as_str());
    f.name = n;
    f.updated_at = now.to_owned();
    Ok(())
}

/// Whether a file stands before another: by its number, then by its name, whatever its case.
pub open spec fn stands_before(a: FileItem, b: FileItem) -> bool {
    a.sort_order < b.sort_order || (a.sort_order == b.sort_order && text_before(
        lower(a.name@),
        lower(b.name@),
    ))
}

/// Places go as what stands at them is listed.
pub open spec fn by_listing(list: Seq<FileItem>) -> spec_fn(int, int) -> bool {
    |a: int, b: int| stands_before(list[a], list[b])
}

/// Whether a file is in a vault.
pub open spec fn in_vault(vault: Seq<char>) -> spec_fn(FileItem) -> bool {
    |f: FileItem| f.vault_id@ == vault
}

/// The places of the files in a vault as they are listed.
pub fn list_files(files: &Vec<FileItem>, vault_id: &str) -> (r: Vec<usize>)
    ensures
        place_list(r@) == sorted(picked(files@, in_vault(vault_id@)), by_listing(files@)),
        forall|i: int| 0 <= i < r.len() ==> #[trigger] r@[i] < files.len(),
{
    let is = |f: &FileItem| -> (c: bool)
        ensures
            c == (f.vault_id@ == vault_id@),
        { same(f.vault_id.as_str(), vault_id) };
    let found = pick_rows(files, is, Ghost(in_vault(vault_id@)));
    let goes = |a: usize, b: usize| -> (c: bool)
        requires
            a < files.len() && b < files.len(),
        ensures
            c == stands_before(files@[a as int], files@[b as int]),
        {
            let x = &files[a];
            let y = &files[b];
            x.sort_order < y.sort_order || (x.sort_order == y.sort_order
                && crate::order::goes_before(
                to_lower(x.name.as_str()).as_str(),
                to_lower(y.name.as_str()).as_str(),
            ))
        };
    order_picked(&found, files.len(), goes, Ghost(by_listing(files@)))
}

/// Whether a file has an id.
pub open spec fn with_id(id: Seq<char>) -> spec_fn(FileItem) -> bool {
    |f: FileItem| f.id@ == id
}

/// The place of a file.
pub fn get_file(files: &Vec<FileItem>, id: &str) -> (r: Result<usize, String>)
    ensures
        match r {
            Ok(k) => k < files.len() && first_place(files@, with_id(id@), 0) == Some(k as int)
                && files@[k as int].id@ == id@,
            Err(e) => first_place(files@, with_id(id@), 0) is None && e@ == "file not found: "@
                + id@,
        },
{
    let is = |f: &FileItem| -> (c: bool)
        ensures
            c == (f.id@ == id@),
        { same(f.id.as_str(), id) };
    match find_row(files, is, Ghost(with_id(id@))) {
        Some(k) => Ok(k),
        None => Err(concat2("file not found: ", id)),
    }
}

/// Takes a file away. What it holds stays in the store: others may share it.
pub fn delete_file(files: &mut Vec<FileItem>, id: &str)
    ensures
        final(files)@ == rows_without(old(files)@, with_id(id@)),
{
    let goes = |f: &FileItem| -> (c: bool)
        ensures
            c == (f.id@ == id@),
        { same(f.id.as_str(), id) };
    remove_rows(files, goes, Ghost(with_id(id@)));
}

/// Where the content of a file is. `is_there` says whether there is something.
pub fn resolve_file_path(files: &Vec<FileItem>, data_dir: &str, id: &str, is_there: bool) -> (r:
    Result<String, String>)
    ensures
        match first_place(files@, with_id(id@), 0) {
            None => r is Err && r->Err_0@ == "file not found: "@ + id@,
            Some(k) => if is_there {
                r is Ok && r->Ok_0@ == resolved(data_dir@, files@[k].blob_path@)
            } else {
                r is Err && r->Err_0@ == "file blob missing on disk: "@ + resolved(
                    data_dir@,
                    files@[k].blob_path@,
                )
            },
        },
{
    let k = match get_file(files, id) {
        Ok(k) => k,
        Err(e) => {
            return Err(e);
        },
    };
    let path = resolve_blob_path(data_dir, files[k].blob_path.as_str());
    if is_there {
        Ok(path)
    } else {
        Err(concat2("file blob missing on disk: ", path.as_str()))
    }
}

/// The bytes of a file that are shown.
pub open spec fn shown_bytes(bytes: Seq<u8>) -> Seq<u8> {
    if bytes.len() > MAX_PREVIEW {
        bytes.take(MAX_PREVIEW as int)
    } else {
        bytes
    }
}

/// A file as a text: an office document as what is written in it, and any other file as its bytes,
/// unless a zero among the first says that it is no text. Its name does not matter for that.
pub fn read_file_text(name: &str, bytes: &[u8]) -> (r: Result<TextPreview, String>)
    ensures
        if office_name(name@) {
            match whole_text(bytes@, name@) {
                Ok(t) => r is Ok && r->Ok_0.truncated == is_cut(t) && r->Ok_0.content@
                    == handed_out(t),
                Err(e) => r is Err && r->Err_0@ == e,
            }
        } else {
            match r {
                Ok(p) => !is_binary(bytes@) && p.truncated == (bytes@.len() > MAX_PREVIEW)
                    && p.content@ == lossy_text(shown_bytes(bytes@)),
                Err(e) => is_binary(bytes@) && e@ == "binary file"@,
            }
        },
{
    if is_office_name(name) {
        return match extract_text(bytes, name) {
            Ok((content, truncated)) => Ok(TextPreview { content, truncated }),
            Err(e) => Err(e),
        };
    }
    let mut i: usize = 0;
    while i < bytes.len() && i < 8192
        invariant
            i <= bytes.len(),
            !office_name(name@),
            forall|k: int| 0 <= k < i ==> #[trigger] bytes@[k] != 0u8,
        decreases bytes.len() - i,
    {
        if bytes[i] == 0 {
            return Err("binary file".to_owned());
        }
        i += 1;
    }
    if bytes.len() > MAX_PREVIEW {
        let head = vstd::slice::slice_subrange(bytes, 0, MAX_PREVIEW);
        assert(head@ =~= bytes@.take(MAX_PREVIEW as int));
        Ok(TextPreview { content: from_utf8_lossy(head), truncated: true })
    } else {
        Ok(TextPreview { content: from_utf8_lossy(bytes), truncated: false })
    }
}

} // verus!
