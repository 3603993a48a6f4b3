//! Files as the user browses them: their types, and the order in which they are listed.
use vstd::prelude::*;
use vstd::string::*;

use crate::models::FileEntry;
use crate::order::{
    goes_before, in_order, law_sorted, lemma_text_before, order_places, place_list, places, sorted,
    text_before,
};
use crate::paths::{slashed, slashed_path};
use crate::text::{
    after_last, behind_last, chars_of, concat2, copy_opt, has_prefix, last_segment, lowercase_of, opt_text,
    same, segment_start, slice, starts_with, to_lowercase,
};

verus! {

/// A path without what does not count at its end: slashes, and single dots behind them.
pub open spec fn plain_end(path: Seq<char>) -> Seq<char>
    decreases path.len(),
{
    if path.len() > 0 && path.last() == '/' {
        plain_end(path.drop_last())
    } else if path.len() > 1 && path.last() == '.' && path[path.len() - 2] == '/' {
        plain_end(path.drop_last())
    } else {
        path
    }
}

/// The last part of a path.
pub open spec fn file_part(path: Seq<char>) -> Seq<char> {
    after_last(plain_end(slashed(path)), '/')
}

/// The last part of a path.
pub fn file_part_of(path: &str) -> (r: String)
    ensures
        r@ == file_part(path@),
{
    let path = slashed_path(path);
    let a = chars_of(path.as_str());
    let mut n: usize = a.len();
    assert(a@.take(n as int) =~= path@);
    while n > 0 && (a[n - 1] == '/' || (n > 1 && a[n - 1] == '.' && a[n - 2] == '/'))
        invariant
            n <= a.len(),
            plain_end(path@) == plain_end(a@.take(n as int)),
        decreases n,
    {
        assert(a@.take(n as int).drop_last() =~= a@.take(n - 1));
        n -= 1;
    }
    let s = slice(&a, 0, n);
    assert(a@.subrange(0, n as int) =~= a@.take(n as int));
    behind_last(s.as_str(), '/')
}

/// The extension of a file name: what stands behind its last dot, unless that is its first
/// character or the name is `..`.
pub open spec fn extension(name: Seq<char>) -> Option<Seq<char>> {
    let base = file_part(name);
    let k = segment_start(base, '.', base.len() as int);
    if k <= 1 || base == ".."@ {
        None
    } else {
        Some(base.skip(k))
    }
}

/// The extension of a file name.
pub fn extension_of(name: &str) -> (r: Option<String>)
    ensures
        opt_text(r) == extension(name@),
{
    let base = file_part_of(name);
    let b = chars_of(base.as_str());
    let k = last_segment(&b, '.');
    if k <= 1 || same(base.as_str(), "..") {
        None
    } else {
        assert(b@.subrange(k as int, b.len() as int) =~= base@.skip(k as int));
        Some(slice(&b, k, b.len()))
    }
}

/// The media type for an extension in lower case.
pub open spec fn mime_of_extension(e: Seq<char>) -> Option<Seq<char>> {
    if e == "pdf"@ {
        Some("application/pdf"@)
    } else if e == "txt"@ || e == "md"@ || e == "rs"@ || e == "ts"@ || e == "tsx"@ || e == "js"@
        || e == "json"@ || e == "yaml"@ || e == "toml"@ {
        Some("text/plain"@)
    } else if e == "png"@ {
        Some("image/png"@)
    } else if e == "jpg"@ || e == "jpeg"@ {
        Some("image/jpeg"@)
    } else if e == "gif"@ {
        Some("image/gif"@)
    } else if e == "svg"@ {
        Some("image/svg+xml"@)
    } else if e == "html"@ || e == "htm"@ {
        Some("text/html"@)
    } else if e == "css"@ {
        Some("text/css"@)
    } else if e == "mp4"@ {
        Some("video/mp4"@)
    } else if e == "mp3"@ {
        Some("audio/mpeg"@)
    } else if e == "zip"@ {
        Some("application/zip"@)
    } else if e == "gz"@ {
        Some("application/gzip"@)
    } else {
        None
    }
}

/// The media type of a file, by its name.
pub open spec fn mime_type_of(name: Seq<char>) -> Option<Seq<char>> {
    match extension(name) {
        Some(e) => mime_of_extension(lowercase_of(e)),
        None => None,
    }
}

/// The media type for an extension in lower case.
pub fn mime_for(e: &str) -> (r: Option<&'static str>)
    ensures
        (match r {
            Some(s) => Some(s@),
            None => None,
        }) == mime_of_extension(e@),
{
    if same(e, "pdf") {
        Some("application/pdf")
    } else if same(e, "txt") || same(e, "md") || same(e, "rs") || same(e, "ts") || same(e, "tsx")
        || same(e, "js") || same(e, "json") || same(e, "yaml") || same(e, "toml") {
        Some("text/plain")
    } else if same(e, "png") {
        Some("image/png")
    } else if same(e, "jpg") || same(e, "jpeg") {
        Some("image/jpeg")
    } else if same(e, "gif") {
        Some("image/gif")
    } else if same(e, "svg") {
        Some("image/svg+xml")
    } else if same(e, "html") || same(e, "htm") {
        Some("text/html")
    } else if same(e, "css") {
        Some("text/css")
    } else if same(e, "mp4") {
        Some("video/mp4")
    } else if same(e, "mp3") {
        Some("audio/mpeg")
    } else if same(e, "zip") {
        Some("application/zip")
    } else if same(e, "gz") {
        Some("application/gzip")
    } else {
        None
    }
}

/// The media type of a file, by its name.
pub fn mime_guess(name: &str) -> (r: Option<String>)
    ensures
        opt_text(r) == mime_type_of(name@),
{
    match extension_of(name) {
        Some(e) => match mime_for(to_lowercase(e.as_str()).as_str()) {
            Some(m) => Some(m.to_owned()),
            None => None,
        },
        None => None,
    }
}

// ---------------------------------------------------------------------------------------------
// Listings
// ---------------------------------------------------------------------------------------------
/// What a directory holds under a name.
pub struct FoundEntry {
    pub name: String,
    pub path: String,
    pub is_dir: bool,
    pub size: u64,
    pub modified_at: Option<String>,
}

/// Whether an entry is listed: hidden ones only where they are wanted.
pub open spec fn is_listed(e: FoundEntry, show_hidden: bool) -> bool {
    show_hidden || !starts_with(e.name@, "."@)
}

/// Whether an entry stands before another: directories first, then by name, whatever its case.
pub open spec fn stands_before(a: FileEntry, b: FileEntry) -> bool {
    (a.is_dir && !b.is_dir) || (a.is_dir == b.is_dir && text_before(
        lowercase_of(a.name@),
        lowercase_of(b.name@),
    ))
}

/// Whether a row is that of an entry: a directory has no media type.
pub open spec fn is_row(e: FoundEntry, r: FileEntry) -> bool {
    &&& r.name@ == e.name@ && r.path@ == e.path@ && r.is_dir == e.is_dir && r.size == e.size
    &&& opt_text(r.modified_at) == opt_text(e.modified_at)
    &&& opt_text(r.mime_type) == (if e.is_dir {
        None
    } else {
        mime_type_of(e.name@)
    })
}

/// The row of an entry.
pub fn entry_row(e: &FoundEntry) -> (r: FileEntry)
    ensures
        is_row(*e, r),
{
    let mime_type = if e.is_dir {
        None
    } else {
        mime_guess(e.name.as_str())
    };
    FileEntry {
        name: e.name.clone(),
        path: e.path.clone(),
        is_dir: e.is_dir,
        size: e.size,
        modified_at: copy_opt(&e.modified_at),
        mime_type,
    }
}

/// The places of the entries that are listed.
pub open spec fn listed_places(v: Seq<FoundEntry>, show_hidden: bool) -> Seq<int>
    decreases v.len(),
{
    if v.len() == 0 {
        Seq::empty()
    } else if is_listed(v.last(), show_hidden) {
        listed_places(v.drop_last(), show_hidden).push(v.len() - 1)
    } else {
        listed_places(v.drop_last(), show_hidden)
    }
}

/// Whether rows are those of the entries at the given places.
pub open spec fn are_rows(v: Seq<FoundEntry>, at: Seq<int>, rows: Seq<FileEntry>) -> bool {
    &&& rows.len() == at.len()
    &&& forall|i: int| 0 <= i < at.len() ==> 0 <= #[trigger] at[i] < v.len() && is_row(v[at[i]], rows[i])
}

/// The rows of a directory that are listed, in the order in which they were found.
pub fn listed_rows(v: &Vec<FoundEntry>, show_hidden: bool) -> (r: Vec<FileEntry>)
    ensures
        are_rows(v@, listed_places(v@, show_hidden), r@),
{
    let mut out: Vec<FileEntry> = Vec::new();
    let mut i: usize = 0;
    while i < v.len()
        invariant
            i <= v.len(),
            are_rows(v@, listed_places(v@.take(i as int), show_hidden), out@),
        decreases v.len() - i,
    {
        let ghost at = listed_places(v@.take(i as int), show_hidden);
        let ghost rows = out@;
        proof {
            assert(v@.take(i + 1).drop_last() =~= v@.take(i as int));
            assert(v@.take(i + 1).last() == v@[i as int]);
        }
        if show_hidden || !has_prefix(v[i].name.as_str(), ".") {
            out.push(entry_row(&v[i]));
            proof {
                let next = at.push(i as int);
                assert forall|k: int| 0 <= k < next.len() implies 0 <= #[trigger] next[k] < v@.len()
                    && is_row(v@[next[k]], out@[k]) by {
                    if k < at.len() {
                        assert(next[k] == at[k]);
                        assert(out@[k] == rows[k]);
                    }
                }
            }
        }
        i += 1;
    }
    assert(v@.take(v.len() as int) =~= v@);
    out
}

/// Places go as what stands at them is listed.
pub open spec fn by_listing(list: Seq<FileEntry>) -> spec_fn(int, int) -> bool {
    |a: int, b: int| stands_before(list[a], list[b])
}

/// The places of rows as they are shown.
pub fn list_dir(rows: &Vec<FileEntry>) -> (r: Vec<usize>)
    ensures
        place_list(r@) == sorted(places(rows@.len()), by_listing(rows@)),
        r.len() == rows.len(),
        forall|i: int| 0 <= i < r.len() ==> #[trigger] r@[i] < rows.len(),
{
    let goes = |a: usize, b: usize| -> (c: bool)
        requires
            a < rows.len() && b < rows.len(),
        ensures
            c == stands_before(rows@[a as int], rows@[b as int]),
        {
            let x = &rows[a];
            let y = &rows[b];
            (x.is_dir && !y.is_dir) || (x.is_dir == y.is_dir && goes_before(
                to_lowercase(x.name.as_str()).as_str(),
                to_lowercase(y.name.as_str()).as_str(),
            ))
        };
    order_places(rows.len(), goes, Ghost(by_listing(rows@)))
}

/// Rows are shown in order, and each once.
pub proof fn law_rows_in_order(list: Seq<FileEntry>)
    ensures
        in_order(sorted(places(list.len()), by_listing(list)), by_listing(list)),
        sorted(places(list.len()), by_listing(list)).to_multiset() == places(
            list.len(),
        ).to_multiset(),
{
    let before = by_listing(list);
    assert forall|a: int, b: int| #[trigger] before(a, b) implies !before(b, a) by {
        lemma_text_before(
            lowercase_of(list[a].name@),
            lowercase_of(list[b].name@),
            lowercase_of(list[b].name@),
        );
    }
    assert forall|a: int, b: int, c: int| #[trigger] before(a, c) implies #[trigger] before(a, b)
        || #[trigger] before(b, c) by {
        lemma_text_before(
            lowercase_of(list[a].name@),
            lowercase_of(list[b].name@),
            lowercase_of(list[c].name@),
        );
    }
    law_sorted(places(list.len()), before);
}

/// What the system says of a file or a directory.
pub struct FileMeta {
    pub is_dir: bool,
    pub size: u64,
    pub modified_at: Option<String>,
}

/// The name at the end of a path; empty where there is none.
pub open spec fn name_at(path: Seq<char>) -> Seq<char> {
    let n = file_part(path);
    if n == "."@ || n == ".."@ {
        Seq::empty()
    } else {
        n
    }
}

/// A file or a directory as it is listed. `found` is what the system says of it.
pub fn get_file_info(path: &str, found: Result<Option<FileMeta>, String>) -> (r: Result<
    FileEntry,
    String,
>)
    ensures
        match found {
            Ok(Some(m)) => r is Ok && r->Ok_0.name@ == name_at(path@) && r->Ok_0.path@ == path@
                && r->Ok_0.is_dir == m.is_dir && r->Ok_0.size == m.size && opt_text(
                r->Ok_0.modified_at,
            ) == opt_text(m.modified_at) && opt_text(r->Ok_0.mime_type) == (if m.is_dir {
                None
            } else {
                mime_type_of(name_at(path@))
            }),
            Ok(None) => r is Err && r->Err_0@ == "not found"@,
            Err(e) => r is Err && r->Err_0@ == "metadata: "@ + e@,
        },
{
    match found {
        Ok(Some(m)) => {
            let part = file_part_of(path);
            let name = if same(part.as_str(), ".") || same(part.as_str(), "..") {
                String::new()
            } else {
                part
            };
            let mime_type = if m.is_dir {
                None
            } else {
                mime_guess(name.as_str())
            };
            Ok(
                FileEntry {
                    name,
                    path: path.to_owned(),
                    is_dir: m.is_dir,
                    size: m.size,
                    modified_at: m.modified_at,
                    mime_type,
                },
            )
        },
        Ok(None) => Err("not found".to_owned()),
        Err(e) => Err(concat2("metadata: ", e.as_str())),
    }
}

} // verus!
