//! Where papers and the content-addressed blobs are kept.
use vstd::prelude::*;
use vstd::string::*;

use crate::digest::{content_digest, sha256_hex};
use crate::paths::{absolute, is_absolute, of_windows, separator};
use crate::text::{
    chars_of, concat2, concat3, cut, ends_with, has_prefix, has_suffix, holds, last_segment, list_has, opt_text, segment_start,
    slice, split_once, starts_with, strip_prefix, texts, without_prefix,
};

verus! {

/// A path below another: an absolute one stands for itself, and otherwise a slash goes between, or a
/// backslash where the path is one of Windows.
pub open spec fn joined(dir: Seq<char>, name: Seq<char>) -> Seq<char> {
    if is_absolute(name) {
        name
    } else if dir.len() == 0 || ends_with(dir, "/"@) || ends_with(dir, separator(dir)) {
        dir + name
    } else {
        dir + separator(dir) + name
    }
}

/// A path below another.
pub fn join_path(dir: &str, name: &str) -> (r: String)
    ensures
        r@ == joined(dir@, name@),
{
    let between = if of_windows(dir) {
        "\\"
    } else {
        "/"
    };
    if absolute(name) {
        name.to_owned()
    } else if dir.is_empty() || has_suffix(dir, "/") || has_suffix(dir, between) {
        concat2(dir, name)
    } else {
        concat3(dir, between, name)
    }
}

/// The directory of the managed papers.
pub fn papers_dir(app_data_dir: &str) -> (r: String)
    ensures
        r@ == joined(app_data_dir@, "papers"@),
{
    join_path(app_data_dir, "papers")
}

/// The directory of a paper.
pub open spec fn paper_place(app_data_dir: Seq<char>, paper_id: Seq<char>) -> Seq<char> {
    joined(joined(app_data_dir, "papers"@), paper_id)
}

/// The directory of a paper.
pub fn paper_dir(app_data_dir: &str, paper_id: &str) -> (r: String)
    ensures
        r@ == paper_place(app_data_dir@, paper_id@),
{
    join_path(papers_dir(app_data_dir).as_str(), paper_id)
}

/// The thumbnail of a paper.
pub fn thumbnail_path(app_data_dir: &str, paper_id: &str) -> (r: String)
    ensures
        r@ == joined(paper_place(app_data_dir@, paper_id@), "thumbnail.png"@),
{
    join_path(paper_dir(app_data_dir, paper_id).as_str(), "thumbnail.png")
}

/// Where the PDF of a paper is downloaded to before it becomes a blob.
pub fn original_pdf_path(app_data_dir: &str, paper_id: &str) -> (r: String)
    ensures
        r@ == joined(paper_place(app_data_dir@, paper_id@), "original.pdf"@),
{
    join_path(paper_dir(app_data_dir, paper_id).as_str(), "original.pdf")
}

/// The directory of the blobs.
pub fn blob_dir(app_data_dir: &str) -> (r: String)
    ensures
        r@ == joined(app_data_dir@, "blobs"@),
{
    join_path(app_data_dir, "blobs")
}

/// The place of a blob with the given hash and extension.
pub fn blob_path(app_data_dir: &str, hash: &str, ext: &str) -> (r: String)
    ensures
        r@ == joined(joined(app_data_dir@, "blobs"@), hash@ + "."@ + ext@),
{
    join_path(blob_dir(app_data_dir).as_str(), concat3(hash, ".", ext).as_str())
}

/// The place that a stored path stands for: below the blobs, or anywhere below the data directory.
pub open spec fn resolved(app_data_dir: Seq<char>, rel: Seq<char>) -> Seq<char> {
    match strip_prefix(rel, "blobs/"@) {
        Some(name) => joined(joined(app_data_dir, "blobs"@), name),
        None => joined(app_data_dir, rel),
    }
}

/// The place that a stored path such as `blobs/abc.pdf` stands for.
pub fn resolve_blob_path(app_data_dir: &str, rel_path: &str) -> (r: String)
    ensures
        r@ == resolved(app_data_dir@, rel_path@),
{
    match without_prefix(rel_path, "blobs/") {
        Some(name) => join_path(blob_dir(app_data_dir).as_str(), name.as_str()),
        None => join_path(app_data_dir, rel_path),
    }
}

/// The stored path of a blob.
pub open spec fn blob_rel(hash: Seq<char>, ext: Seq<char>) -> Seq<char> {
    "blobs/"@ + hash + "."@ + ext
}

/// The stored path that bytes with the given extension get: their digest names them.
pub fn blob_rel_path(bytes: &[u8], ext: &str) -> (r: String)
    ensures
        r@ == blob_rel(content_digest(bytes@), ext@),
{
    let mut s = concat3("blobs/", sha256_hex(bytes).as_str(), ".");
    s.append(ext);
    s
}

/// The hash and the extension in a stored path: the two sides of the last dot behind `blobs/`.
pub open spec fn blob_parts(rel: Seq<char>) -> Option<(Seq<char>, Seq<char>)> {
    match strip_prefix(rel, "blobs/"@) {
        Some(name) => {
            let k = segment_start(name, '.', name.len() as int);
            if k == 0 {
                None
            } else {
                Some((name.take(k - 1), name.skip(k)))
            }
        },
        None => None,
    }
}

/// The hash and the extension in a stored path.
pub fn parse_blob_path(rel_path: &str) -> (r: Option<(String, String)>)
    ensures
        match r {
            Some(p) => blob_parts(rel_path@) == Some((p.0@, p.1@)),
            None => blob_parts(rel_path@) is None,
        },
{
    match without_prefix(rel_path, "blobs/") {
        Some(name) => {
            let a = chars_of(name.as_str());
            let k = last_segment(&a, '.');
            if k == 0 {
                None
            } else {
                assert(a@.subrange(0, k - 1) =~= name@.take(k - 1));
                assert(a@.subrange(k as int, a.len() as int) =~= name@.skip(k as int));
                Some((slice(&a, 0, k - 1), slice(&a, k, a.len())))
            }
        },
        None => None,
    }
}

/// The hash in the name of a file in the blob directory: what stands before its first dot.
pub fn blob_hash_of_name(name: &str) -> (r: Option<String>)
    ensures
        opt_text(r) == (match split_once(name@, "."@) {
            Some((h, _)) => Some(h),
            None => None,
        }),
{
    match cut(name, ".") {
        Some((h, _)) => Some(h),
        None => None,
    }
}

/// The hashes in the names of files in the blob directory, each once.
pub open spec fn hashes_in(names: Seq<Seq<char>>) -> Seq<Seq<char>>
    decreases names.len(),
{
    if names.len() == 0 {
        Seq::empty()
    } else {
        let before = hashes_in(names.drop_last());
        match split_once(names.last(), "."@) {
            Some((h, _)) => if holds(before, h) {
                before
            } else {
                before.push(h)
            },
            None => before,
        }
    }
}

/// The hashes of all contents in the blob directory, each once. Names without a dot are no blobs.
pub fn list_blob_hashes(names: &Vec<String>) -> (r: Vec<String>)
    ensures
        texts(r@) == hashes_in(texts(names@)),
{
    let ghost all = texts(names@);
    let mut out: Vec<String> = Vec::new();
    let mut i: usize = 0;
    assert(texts(out@) =~= hashes_in(all.take(0)));
    while i < names.len()
        invariant
            i <= names.len(),
            all == texts(names@),
            texts(out@) == hashes_in(all.take(i as int)),
        decreases names.len() - i,
    {
        let ghost before = texts(out@);
        proof {
            assert(all.take(i + 1).drop_last() =~= all.take(i as int));
            assert(all.take(i + 1).last() == names@[i as int]@);
        }
        if let Some(h) = blob_hash_of_name(names[i].as_str()) {
            if !list_has(&out, h.as_str()) {
                out.push(h);
                assert(texts(out@) =~= before.push(h@));
            }
        }
        i += 1;
    }
    assert(all.take(all.len() as int) =~= all);
    out
}

/// Whether some file in the blob directory holds the content with the given hash.
pub open spec fn blob_present(names: Seq<Seq<char>>, hash: Seq<char>) -> bool {
    exists|i: int| 0 <= i < names.len() && starts_with(#[trigger] names[i], hash + "."@)
}

/// Tells whether some file in the blob directory holds the content with the given hash, whatever
/// its extension.
pub fn has_blob(names: &Vec<String>, hash: &str) -> (r: bool)
    ensures
        r == blob_present(texts(names@), hash@),
{
    let wanted = concat2(hash, ".");
    let mut i: usize = 0;
    while i < names.len()
        invariant
            i <= names.len(),
            wanted@ == hash@ + "."@,
            forall|j: int| 0 <= j < i ==> !starts_with(#[trigger] texts(names@)[j], hash@ + "."@),
        decreases names.len() - i,
    {
        if has_prefix(names[i].as_str(), wanted.as_str()) {
            assert(starts_with(texts(names@)[i as int], hash@ + "."@));
            return true;
        }
        i += 1;
    }
    false
}

// ---------------------------------------------------------------------------------------------
// Laws
// ---------------------------------------------------------------------------------------------
proof fn lemma_segment_behind(s: Seq<char>, c: char, k: int, i: int)
    requires
        0 <= k < i <= s.len(),
        s[k] == c,
        forall|j: int| k < j < i ==> #[trigger] s[j] != c,
    ensures
        segment_start(s, c, i) == k + 1,
    decreases i - k,
{
    if i > k + 1 {
        lemma_segment_behind(s, c, k, i - 1);
    }
}

/// The stored path of a blob is taken apart into its hash and its extension again, where the
/// extension holds no dot.
pub proof fn law_blob_path_round_trip(hash: Seq<char>, ext: Seq<char>)
    requires
        forall|i: int| 0 <= i < ext.len() ==> #[trigger] ext[i] != '.',
    ensures
        blob_parts(blob_rel(hash, ext)) == Some((hash, ext)),
{
    reveal_strlit("blobs/");
    reveal_strlit(".");
    let rel = blob_rel(hash, ext);
    let name = hash + "."@ + ext;
    assert(rel.subrange(0, 6) =~= "blobs/"@);
    assert(rel.skip(6) =~= name);
    let k = hash.len() as int;
    assert forall|j: int| k < j < name.len() implies #[trigger] name[j] != '.' by {
        assert(name[j] == ext[j - k - 1]);
    }
    lemma_segment_behind(name, '.', k, name.len() as int);
    assert(name.take(k) =~= hash);
    assert(name.skip(k + 1) =~= ext);
}

/// A stored path stands for the place that the blob with that hash and extension has.
pub proof fn law_blob_paths_agree(app_data_dir: Seq<char>, hash: Seq<char>, ext: Seq<char>)
    ensures
        resolved(app_data_dir, blob_rel(hash, ext)) == joined(
            joined(app_data_dir, "blobs"@),
            hash + "."@ + ext,
        ),
{
    reveal_strlit("blobs/");
    let rel = blob_rel(hash, ext);
    assert(rel.subrange(0, 6) =~= "blobs/"@);
    assert(rel.skip(6) =~= hash + "."@ + ext);
}

/// The same bytes get the same stored path, and the path holds their digest.
pub proof fn law_blob_path_is_content_addressed(bytes: Seq<u8>, ext: Seq<char>)
    requires
        forall|i: int| 0 <= i < ext.len() ==> #[trigger] ext[i] != '.',
    ensures
        blob_parts(blob_rel(content_digest(bytes), ext)) == Some((content_digest(bytes), ext)),
{
    law_blob_path_round_trip(content_digest(bytes), ext);
}

} // verus!
