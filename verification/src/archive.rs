//! Zip archives. `zip` does the reading.
use std::io::Read;
use vstd::prelude::*;
use vstd::string::*;

use crate::paths::{drive_first, has_drive, to_slashes, with_slashes};
use crate::text::{chars_of, has_prefix, same, split, split_on, starts_with, texts};

verus! {

/// `zip::ZipArchive`, an archive whose table of contents has been read.
#[verifier::external_type_specification]
#[verifier::external_body]
#[verifier::reject_recursive_types(R)]
pub struct ExZipArchive<R>(zip::ZipArchive<R>);

/// `std::io::Cursor`, a position in bytes.
#[verifier::external_type_specification]
#[verifier::external_body]
#[verifier::reject_recursive_types(T)]
pub struct ExCursor<T>(std::io::Cursor<T>);

/// What an archive says of one of its entries beside its name.
#[derive(Clone, Copy)]
pub struct ZipEntry {
    pub is_dir: bool,
    pub size: u64,
}

/// An entry of an archive: its name, what is said of it, its bytes, and its bytes as a text. Each of
/// the last three can fail on its own.
pub struct Entry {
    pub name: Seq<char>,
    pub info: Result<ZipEntry, Seq<char>>,
    pub bytes: Result<Seq<u8>, Seq<char>>,
    pub text: Result<Seq<char>, Seq<char>>,
}

/// What `zip` finds in the bytes of an archive.
pub uninterp spec fn zip_read(bytes: Seq<u8>) -> Result<Seq<Entry>, Seq<char>>;

/// The entries of an archive.
pub uninterp spec fn zip_entries(archive: zip::ZipArchive<std::io::Cursor<&[u8]>>) -> Seq<Entry>;

/// The first entry from `i` on that has a name.
pub open spec fn entry_named(list: Seq<Entry>, name: Seq<char>, i: int) -> Option<Entry>
    decreases list.len() - i,
{
    if i < 0 || i >= list.len() {
        None
    } else if list[i].name == name {
        Some(list[i])
    } else {
        entry_named(list, name, i + 1)
    }
}

/// The names of entries.
pub open spec fn entry_names(list: Seq<Entry>) -> Seq<Seq<char>> {
    Seq::new(list.len(), |i: int| list[i].name)
}

/// Why an entry could not be read: there is none, or its bytes are broken.
pub enum ReadFailure {
    Missing,
    Broken(String),
}

/// What comes of reading an entry: there is none where it is not listed or cannot be opened.
pub open spec fn read_of(list: Seq<Entry>, name: Seq<char>) -> Result<
    Seq<u8>,
    Option<Seq<char>>,
> {
    match entry_named(list, name, 0) {
        Some(e) => match (e.info, e.bytes) {
            (Err(_), _) => Err(None),
            (Ok(_), Ok(b)) => Ok(b),
            (Ok(_), Err(why)) => Err(Some(why)),
        },
        None => Err(None),
    }
}

/// `zip::ZipArchive::new` on bytes in memory. What it finds is named.
#[verifier::external_body]
pub(crate) fn open_zip(bytes: &[u8]) -> (r: Result<
    zip::ZipArchive<std::io::Cursor<&[u8]>>,
    String,
>)
    ensures
        match r {
            Ok(a) => zip_read(bytes@) == Ok::<Seq<Entry>, Seq<char>>(zip_entries(a)),
            Err(e) => zip_read(bytes@) == Err::<Seq<Entry>, Seq<char>>(e@),
        },
{
    zip::ZipArchive::new(std::io::Cursor::new(bytes)).map_err(|e| e.to_string())
}

/// `zip::ZipArchive::file_names`: the names of all entries, in the order of the archive.
#[verifier::external_body]
pub(crate) fn zip_names(archive: &zip::ZipArchive<std::io::Cursor<&[u8]>>) -> (r: Vec<String>)
    ensures
        texts(r@) == entry_names(zip_entries(*archive)),
{
    archive.file_names().map(|n| n.to_string()).collect()
}

/// `zip::ZipArchive::by_name`, read to the end: the bytes of the entry of a name. An archive holds
/// no two entries of one name.
#[verifier::external_body]
pub(crate) fn read_named(
    archive: &mut zip::ZipArchive<std::io::Cursor<&[u8]>>,
    name: &str,
) -> (r: Result<Vec<u8>, ReadFailure>)
    ensures
        zip_entries(*final(archive)) == zip_entries(*old(archive)),
        match r {
            Ok(b) => read_of(zip_entries(*old(archive)), name@) == Ok::<
                Seq<u8>,
                Option<Seq<char>>,
            >(b@),
            Err(ReadFailure::Missing) => read_of(zip_entries(*old(archive)), name@) == Err::<
                Seq<u8>,
                Option<Seq<char>>,
            >(None),
            Err(ReadFailure::Broken(e)) => read_of(zip_entries(*old(archive)), name@) == Err::<
                Seq<u8>,
                Option<Seq<char>>,
            >(Some(e@)),
        },
{
    let mut buf = Vec::new();
    match archive.by_name(name) {
        Ok(mut entry) => match entry.read_to_end(&mut buf) {
            Ok(_) => Ok(buf),
            Err(e) => Err(ReadFailure::Broken(e.to_string())),
        },
        Err(_) => Err(ReadFailure::Missing),
    }
}

/// `zip::ZipArchive::by_index`: what an archive says of an entry.
#[verifier::external_body]
pub(crate) fn entry_at(
    archive: &mut zip::ZipArchive<std::io::Cursor<&[u8]>>,
    index: usize,
) -> (r: Result<ZipEntry, String>)
    requires
        index < zip_entries(*old(archive)).len(),
    ensures
        zip_entries(*final(archive)) == zip_entries(*old(archive)),
        match r {
            Ok(e) => zip_entries(*old(archive))[index as int].info == Ok::<ZipEntry, Seq<char>>(e),
            Err(e) => zip_entries(*old(archive))[index as int].info == Err::<ZipEntry, Seq<char>>(
                e@,
            ),
        },
{
    let entry = archive.by_index(index).map_err(|e| e.to_string())?;
    Ok(ZipEntry { is_dir: entry.is_dir(), size: entry.size() })
}

/// `std::io::Read::read_to_string` on an entry that `zip::ZipArchive::by_index` opens: the text of
/// the entry.
#[verifier::external_body]
pub(crate) fn text_at(
    archive: &mut zip::ZipArchive<std::io::Cursor<&[u8]>>,
    index: usize,
) -> (r: Result<String, String>)
    requires
        index < zip_entries(*old(archive)).len(),
        zip_entries(*old(archive))[index as int].info is Ok,
    ensures
        zip_entries(*final(archive)) == zip_entries(*old(archive)),
        match r {
            Ok(t) => zip_entries(*old(archive))[index as int].text == Ok::<Seq<char>, Seq<char>>(
                t@,
            ),
            Err(e) => zip_entries(*old(archive))[index as int].text == Err::<Seq<char>, Seq<char>>(
                e@,
            ),
        },
{
    let mut text = String::new();
    let mut entry = archive.by_index(index).map_err(|e| e.to_string())?;
    entry.read_to_string(&mut text).map_err(|e| e.to_string())?;
    Ok(text)
}

// ---------------------------------------------------------------------------------------------
// Paths in archives
// ---------------------------------------------------------------------------------------------
/// How deep below its start a path ends, where no beginning of it leads above its start: two dots
/// lead one level up, and an empty part or a dot stays.
pub open spec fn depth_of(parts: Seq<Seq<char>>) -> Option<nat>
    decreases parts.len(),
{
    if parts.len() == 0 {
        Some(0)
    } else {
        match depth_of(parts.drop_last()) {
            None => None,
            Some(d) => if parts.last() == ".."@ {
                if d == 0 {
                    None
                } else {
                    Some((d - 1) as nat)
                }
            } else if parts.last().len() == 0 || parts.last() == "."@ {
                Some(d)
            } else {
                Some(d + 1)
            },
        }
    }
}

/// Whether a path stays below the directory that it is put behind, on every system: it is not absolute,
/// names no drive, holds no zero character, and never leads above its start, be its parts divided by
/// slashes or backslashes.
pub open spec fn is_enclosed(path: Seq<char>) -> bool {
    let p = with_slashes(path);
    !path.contains('\0') && !has_drive(path) && !starts_with(p, "/"@) && depth_of(split(p, "/"@)) is Some
}

/// Tells whether a path stays below the directory that it is put behind.
pub fn enclosed(path: &str) -> (r: bool)
    ensures
        r == is_enclosed(path@),
{
    let a = chars_of(path);
    let mut i: usize = 0;
    while i < a.len()
        invariant
            i <= a.len(),
            a@ == path@,
            forall|k: int| 0 <= k < i ==> #[trigger] path@[k] != '\0',
        decreases a.len() - i,
    {
        if a[i] == '\0' {
            assert(path@[i as int] == '\0');
            return false;
        }
        i += 1;
    }
    let p = to_slashes(path);
    if drive_first(path) || has_prefix(p.as_str(), "/") {
        return false;
    }
    proof {
        reveal_strlit("/");
    }
    let parts = split_on(p.as_str(), "/");
    let ghost all = texts(parts@);
    let mut depth: usize = 0;
    let mut j: usize = 0;
    while j < parts.len()
        invariant
            j <= parts.len(),
            all == texts(parts@),
            all == split(with_slashes(path@), "/"@),
            depth <= j,
            depth_of(all.take(j as int)) == Some(depth as nat),
        decreases parts.len() - j,
    {
        proof {
            assert(all.take(j + 1).drop_last() =~= all.take(j as int));
            assert(all.take(j + 1).last() == parts@[j as int]@);
        }
        let part = parts[j].as_str();
        if same(part, "..") {
            if depth == 0 {
                proof {
                    lemma_depth_lost(all, j + 1);
                }
                return false;
            }
            depth -= 1;
        } else if !(part.is_empty() || same(part, ".")) {
            depth += 1;
        }
        j += 1;
    }
    assert(all.take(all.len() as int) =~= all);
    true
}

proof fn lemma_depth_lost(parts: Seq<Seq<char>>, k: int)
    requires
        0 <= k <= parts.len(),
        depth_of(parts.take(k)) is None,
    ensures
        depth_of(parts) is None,
    decreases parts.len() - k,
{
    if k == parts.len() {
        assert(parts.take(k) =~= parts);
    } else {
        assert(parts.take(k + 1).drop_last() =~= parts.take(k));
        lemma_depth_lost(parts, k + 1);
    }
}

} // verus!
