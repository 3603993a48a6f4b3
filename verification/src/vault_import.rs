//! Importing a folder of files into a vault: what is new, what has changed, and what is there
//! already.
use vstd::prelude::*;
use vstd::string::*;

use crate::digest::{content_digest, sha256_hex};
use crate::file_service::{mime_guess, mime_type_of};
use crate::file_store::{blob_parts, blob_rel, blob_rel_path, parse_blob_path};
use crate::json::{json_array_text, print_strings};
use crate::text::{
    after_last, chars_of, ends_with, has_suffix, last_segment, opt_text, same, segment_start, slice,
    texts,
};
use crate::vault_service::{body_of, front_of, parse_frontmatter};

verus! {

// ---------------------------------------------------------------------------------------------
// Paths
// ---------------------------------------------------------------------------------------------
/// The directory part of a path below the source: what stands before its last slash.
pub open spec fn dir_of(rel: Seq<char>) -> Seq<char> {
    let k = segment_start(rel, '/', rel.len() as int);
    if k <= 0 {
        Seq::empty()
    } else {
        rel.take(k - 1)
    }
}

/// The last part of a path.
pub open spec fn base_of(rel: Seq<char>) -> Seq<char> {
    after_last(rel, '/')
}

/// The directory part of a path, and its last part.
pub fn split_rel(rel: &str) -> (r: (String, String))
    ensures
        r.0@ == dir_of(rel@),
        r.1@ == base_of(rel@),
{
    let a = chars_of(rel);
    let k = last_segment(&a, '/');
    assert(a@.subrange(k as int, a.len() as int) =~= rel@.skip(k as int));
    let base = slice(&a, k, a.len());
    if k == 0 {
        (String::new(), base)
    } else {
        assert(a@.subrange(0, k - 1) =~= rel@.take(k - 1));
        (slice(&a, 0, k - 1), base)
    }
}

/// Whether a directory or file is left out: what other programs keep beside the notes.
pub open spec fn left_out(name: Seq<char>) -> bool {
    name == ".obsidian"@ || name == ".trash"@ || name == ".git"@ || name == "node_modules"@
}

/// Tells whether a directory or file is left out.
pub fn is_left_out(name: &str) -> (r: bool)
    ensures
        r == left_out(name@),
{
    same(name, ".obsidian") || same(name, ".trash") || same(name, ".git") || same(
        name,
        "node_modules",
    )
}

/// Tells whether a file is a note: it is a Markdown file.
pub fn is_note_file(name: &str) -> (r: bool)
    ensures
        r == ends_with(name@, ".md"@),
{
    has_suffix(name, ".md")
}

/// The title of a note file: its name without the ending, unless there is nothing else.
pub open spec fn note_title(name: Seq<char>) -> Seq<char> {
    if ends_with(name, ".md"@) && name.len() > 3 {
        name.take(name.len() - 3)
    } else if name.len() == 0 {
        "未命名"@
    } else {
        name
    }
}

/// The title of a note file.
pub fn title_of_file(name: &str) -> (r: String)
    ensures
        r@ == note_title(name@),
{
    let a = chars_of(name);
    if has_suffix(name, ".md") && a.len() > 3 {
        assert(a@.subrange(0, a.len() - 3) =~= name@.take(name@.len() - 3));
        slice(&a, 0, a.len() - 3)
    } else if a.len() == 0 {
        "未命名".to_owned()
    } else {
        name.to_owned()
    }
}

// ---------------------------------------------------------------------------------------------
// What a vault holds
// ---------------------------------------------------------------------------------------------
/// A folder of a vault.
pub struct FolderRow {
    pub parent_id: Option<String>,
    pub title: String,
    pub id: String,
}

/// A note of a vault.
pub struct StoredNote {
    pub parent_id: Option<String>,
    pub title: String,
    pub content: String,
}

/// A managed file of a vault.
pub struct StoredFile {
    pub parent_id: Option<String>,
    pub name: String,
    pub id: String,
    pub blob_path: String,
    pub size: i64,
    pub mime_type: Option<String>,
}

/// A directory of the source and the folder that stands for it.
pub struct Placed {
    pub rel: String,
    pub id: String,
}

/// Where something stands in a vault: below which folder, and under which name.
pub struct Key {
    pub parent: Option<Seq<char>>,
    pub name: Seq<char>,
}

/// What stands at a place of a vault, as far as an import looks at it: the identifier of a folder,
/// or the text of a note.
pub struct Entry {
    pub key: Key,
    pub value: Seq<char>,
}

/// The value of the last entry with a key.
pub open spec fn last_value(list: Seq<Entry>, key: Key) -> Option<Seq<char>>
    decreases list.len(),
{
    if list.len() == 0 {
        None
    } else if list.last().key == key {
        Some(list.last().value)
    } else {
        last_value(list.drop_last(), key)
    }
}

/// The entries that folders make.
pub open spec fn folder_entries(v: Seq<FolderRow>) -> Seq<Entry> {
    Seq::new(
        v.len(),
        |i: int|
            Entry {
                key: Key { parent: opt_text(v[i].parent_id), name: v[i].title@ },
                value: v[i].id@,
            },
    )
}

/// The entries that notes make.
pub open spec fn note_entries(v: Seq<StoredNote>) -> Seq<Entry> {
    Seq::new(
        v.len(),
        |i: int|
            Entry {
                key: Key { parent: opt_text(v[i].parent_id), name: v[i].title@ },
                value: v[i].content@,
            },
    )
}

/// The entries that directories with folders make.
pub open spec fn placed_entries(v: Seq<Placed>) -> Seq<Entry> {
    Seq::new(v.len(), |i: int| Entry { key: Key { parent: None, name: v[i].rel@ }, value: v[i].id@ })
}

/// Tells whether two optional texts are the same.
pub fn same_opt(a: &Option<String>, b: &Option<String>) -> (r: bool)
    ensures
        r == (opt_text(*a) == opt_text(*b)),
{
    match (a, b) {
        (Some(x), Some(y)) => same(x.as_str(), y.as_str()),
        (None, None) => true,
        _ => false,
    }
}

/// The folder with the given parent and title.
pub fn find_folder(rows: &Vec<FolderRow>, parent: &Option<String>, title: &str) -> (r: Option<
    String,
>)
    ensures
        opt_text(r) == last_value(
            folder_entries(rows@),
            (Key { parent: opt_text(*parent), name: title@ }),
        ),
{
    let ghost all = folder_entries(rows@);
    let ghost key = Key { parent: opt_text(*parent), name: title@ };
    let mut i: usize = rows.len();
    assert(all.take(i as int) =~= all);
    while i > 0
        invariant
            i <= rows.len(),
            all == folder_entries(rows@),
            key == (Key { parent: opt_text(*parent), name: title@ }),
            last_value(all, key) == last_value(all.take(i as int), key),
        decreases i,
    {
        proof {
            assert(all.take(i as int).last() == all[i - 1]);
            assert(all.take(i as int).drop_last() =~= all.take(i - 1));
        }
        let row = &rows[i - 1];
        if same_opt(&row.parent_id, parent) && same(row.title.as_str(), title) {
            assert(all[i - 1].key == key);
            return Some(row.id.clone());
        }
        i -= 1;
    }
    None
}

/// The text of the note with the given parent and title.
pub fn find_note<'a>(rows: &'a Vec<StoredNote>, parent: &Option<String>, title: &str) -> (r: Option<
    &'a str,
>)
    ensures
        (match r {
            Some(s) => Some(s@),
            None => None,
        }) == last_value(
            note_entries(rows@),
            (Key { parent: opt_text(*parent), name: title@ }),
        ),
{
    let ghost all = note_entries(rows@);
    let ghost key = Key { parent: opt_text(*parent), name: title@ };
    let mut i: usize = rows.len();
    assert(all.take(i as int) =~= all);
    while i > 0
        invariant
            i <= rows.len(),
            all == note_entries(rows@),
            key == (Key { parent: opt_text(*parent), name: title@ }),
            last_value(all, key) == last_value(all.take(i as int), key),
        decreases i,
    {
        proof {
            assert(all.take(i as int).last() == all[i - 1]);
            assert(all.take(i as int).drop_last() =~= all.take(i - 1));
        }
        let row = &rows[i - 1];
        if same_opt(&row.parent_id, parent) && same(row.title.as_str(), title) {
            assert(all[i - 1].key == key);
            return Some(row.content.as_str());
        }
        i -= 1;
    }
    None
}

/// The folder below which a path stands: that of its directory, or none at the top of the source.
pub open spec fn place_of(placed: Seq<Entry>, rel: Seq<char>) -> Option<Seq<char>> {
    if dir_of(rel).len() == 0 {
        None
    } else {
        last_value(placed, Key { parent: None, name: dir_of(rel) })
    }
}

/// The folder below which a path stands.
pub fn folder_of(placed: &Vec<Placed>, rel: &str) -> (r: Option<String>)
    ensures
        opt_text(r) == place_of(placed_entries(placed@), rel@),
{
    let (dir, _) = split_rel(rel);
    if dir.as_str().is_empty() {
        return None;
    }
    let ghost all = placed_entries(placed@);
    let ghost key = Key { parent: None, name: dir@ };
    let mut i: usize = placed.len();
    assert(all.take(i as int) =~= all);
    while i > 0
        invariant
            i <= placed.len(),
            all == placed_entries(placed@),
            key == (Key { parent: None, name: dir@ }),
            last_value(all, key) == last_value(all.take(i as int), key),
            dir@ == dir_of(rel@),
            dir@.len() > 0,
        decreases i,
    {
        proof {
            assert(all.take(i as int).last() == all[i - 1]);
            assert(all.take(i as int).drop_last() =~= all.take(i - 1));
        }
        if same(placed[i - 1].rel.as_str(), dir.as_str()) {
            assert(all[i - 1].key == key);
            return Some(placed[i - 1].id.clone());
        }
        i -= 1;
    }
    None
}

// ---------------------------------------------------------------------------------------------
// Steps
// ---------------------------------------------------------------------------------------------
/// What an import has done so far.
pub struct ImportCounts {
    pub imported: usize,
    pub files_imported: usize,
    pub unchanged: usize,
    pub skipped: usize,
}

impl ImportCounts {
    /// Nothing has been done yet.
    pub fn new() -> (r: ImportCounts)
        ensures
            r.imported == 0 && r.files_imported == 0 && r.unchanged == 0 && r.skipped == 0,
    {
        ImportCounts { imported: 0, files_imported: 0, unchanged: 0, skipped: 0 }
    }

    /// How many items have been dealt with.
    pub open spec fn total(&self) -> int {
        self.imported + self.files_imported + self.unchanged + self.skipped
    }

    /// Counts a note file.
    pub fn count_note(&mut self, step: &NoteStep)
        requires
            old(self).total() < usize::MAX,
        ensures
            final(self).total() == old(self).total() + 1,
            final(self).imported == old(self).imported + (if step is Create {
                1int
            } else {
                0
            }),
            final(self).unchanged == old(self).unchanged + (if step is Unchanged {
                1int
            } else {
                0
            }),
            final(self).files_imported == old(self).files_imported,
            final(self).skipped == old(self).skipped,
    {
        match step {
            NoteStep::Unchanged => {
                self.unchanged = self.unchanged + 1;
            },
            NoteStep::Create(_) => {
                self.imported = self.imported + 1;
            },
        }
    }

    /// Counts any other file: `Some(true)` was stored, `Some(false)` was there, and `None` failed.
    pub fn count_file(&mut self, outcome: Option<bool>)
        requires
            old(self).total() < usize::MAX,
        ensures
            final(self).total() == old(self).total() + 1,
            final(self).files_imported == old(self).files_imported + (if outcome == Some(true) {
                1int
            } else {
                0
            }),
            final(self).unchanged == old(self).unchanged + (if outcome == Some(false) {
                1int
            } else {
                0
            }),
            final(self).skipped == old(self).skipped + (if outcome is None {
                1int
            } else {
                0
            }),
            final(self).imported == old(self).imported,
    {
        match outcome {
            Some(true) => {
                self.files_imported = self.files_imported + 1;
            },
            Some(false) => {
                self.unchanged = self.unchanged + 1;
            },
            None => {
                self.skipped = self.skipped + 1;
            },
        }
    }
}

/// What becomes of a directory.
pub enum FolderStep {
    /// The folder that stands for it is there.
    Reuse(String),
    /// A folder with the given parent is created.
    Create(Option<String>),
}

/// Decides on a directory: a folder with its name below the same parent stands for it.
pub fn folder_step(existing: &Vec<FolderRow>, placed: &Vec<Placed>, rel: &str) -> (r: FolderStep)
    ensures
        ({
            let parent = place_of(placed_entries(placed@), rel@);
            let found = last_value(
                folder_entries(existing@),
                Key { parent, name: base_of(rel@) },
            );
            match r {
                FolderStep::Reuse(id) => found == Some(id@),
                FolderStep::Create(p) => found is None && opt_text(p) == parent,
            }
        }),
{
    let parent = folder_of(placed, rel);
    let (_, name) = split_rel(rel);
    match find_folder(existing, &parent, name.as_str()) {
        Some(id) => FolderStep::Reuse(id),
        None => FolderStep::Create(parent),
    }
}

/// A note that an import creates. Aliases and tags are JSON arrays, where there are some.
pub struct NewNote {
    pub parent_id: Option<String>,
    pub title: String,
    pub content: String,
    pub created_at: String,
    pub updated_at: String,
    pub aliases: Option<String>,
    pub tags: Option<String>,
}

/// A list as a JSON array, where it is not empty.
pub open spec fn array_text(list: Seq<Seq<char>>) -> Option<Seq<char>> {
    if list.len() == 0 {
        None
    } else {
        Some(json_array_text(list))
    }
}

fn array_text_of(list: &Vec<String>) -> (r: Option<String>)
    ensures
        opt_text(r) == array_text(texts(list@)),
{
    if list.len() == 0 {
        None
    } else {
        Some(print_strings(list))
    }
}

/// Whether `n` is the note that a file with the given content becomes at the time `now`.
pub open spec fn is_new_note(
    parent: Option<Seq<char>>,
    name: Seq<char>,
    content: Seq<char>,
    now: Seq<char>,
    n: NewNote,
) -> bool {
    let front = front_of(content);
    &&& opt_text(n.parent_id) == parent
    &&& n.title@ == note_title(name)
    &&& n.content@ == body_of(content)
    &&& n.created_at@ == (if front is Some && front->0.created_at is Some {
        front->0.created_at->0
    } else {
        now
    })
    &&& n.updated_at@ == (if front is Some && front->0.updated_at is Some {
        front->0.updated_at->0
    } else {
        now
    })
    &&& opt_text(n.aliases) == (match front {
        Some(f) => array_text(f.aliases),
        None => None,
    })
    &&& opt_text(n.tags) == (match front {
        Some(f) => array_text(f.tags),
        None => None,
    })
}

/// What becomes of a note file.
pub enum NoteStep {
    /// A note with its title, place and text is there.
    Unchanged,
    /// A new note is created; an edited one is never overwritten.
    Create(NewNote),
}

fn dated(date: Option<String>, now: &str) -> (r: String)
    ensures
        r@ == (match opt_text(date) {
            Some(d) => d,
            None => now@,
        }),
{
    match date {
        Some(d) => d,
        None => now.to_owned(),
    }
}

/// Decides on a note file: where a note with its title, place and text is there, nothing is done.
pub fn note_step(
    existing: &Vec<StoredNote>,
    placed: &Vec<Placed>,
    rel: &str,
    content: &str,
    now: &str,
) -> (r: NoteStep)
    ensures
        ({
            let parent = place_of(placed_entries(placed@), rel@);
            let name = base_of(rel@);
            let found = last_value(
                note_entries(existing@),
                Key { parent, name: note_title(name) },
            );
            match r {
                NoteStep::Unchanged => found == Some(body_of(content@)),
                NoteStep::Create(n) => found != Some(body_of(content@)) && is_new_note(
                    parent,
                    name,
                    content@,
                    now@,
                    n,
                ),
            }
        }),
{
    let parent_id = folder_of(placed, rel);
    let (_, name) = split_rel(rel);
    let title = title_of_file(name.as_str());
    let (front, body) = parse_frontmatter(content);
    match find_note(existing, &parent_id, title.as_str()) {
        Some(text) => {
            if same(text, body.as_str()) {
                return NoteStep::Unchanged;
            }
        },
        None => {},
    }
    let note = match front {
        Some(f) => {
            let aliases = array_text_of(&f.aliases);
            let tags = array_text_of(&f.tags);
            NewNote {
                parent_id,
                title,
                content: body,
                created_at: dated(f.created_at, now),
                updated_at: dated(f.updated_at, now),
                aliases,
                tags,
            }
        },
        None => NewNote {
            parent_id,
            title,
            content: body,
            created_at: now.to_owned(),
            updated_at: now.to_owned(),
            aliases: None,
            tags: None,
        },
    };
    NoteStep::Create(note)
}

/// The hash in a stored path, empty where there is none.
pub open spec fn stored_hash(blob_path: Seq<char>) -> Seq<char> {
    match blob_parts(blob_path) {
        Some((h, _)) => h,
        None => Seq::empty(),
    }
}

/// The place of the last file with the given parent and name.
pub open spec fn file_at(
    files: Seq<StoredFile>,
    parent: Option<Seq<char>>,
    name: Seq<char>,
    i: int,
) -> Option<int>
    decreases i,
{
    if i <= 0 || i > files.len() {
        None
    } else if opt_text(files[i - 1].parent_id) == parent && files[i - 1].name@ == name {
        Some(i - 1)
    } else {
        file_at(files, parent, name, i - 1)
    }
}

/// What becomes of any other file.
pub enum FileStep {
    /// A file with its name, place and content is there.
    Unchanged,
    /// The content of the file with the identifier is replaced.
    Update(String, FileContent),
    /// A new file with the given parent and name is created.
    Create(Option<String>, String, FileContent),
}

/// Where the content of a file is stored, how large it is, and of which type.
pub struct FileContent {
    pub blob_path: String,
    pub size: i64,
    pub mime_type: Option<String>,
}

/// The extension under which a file's content is stored.
pub open spec fn stored_extension(name: Seq<char>) -> Seq<char> {
    match crate::file_service::extension(name) {
        Some(e) => e,
        None => "bin"@,
    }
}

/// Whether `c` is the content of a file with the given name.
pub open spec fn is_content(name: Seq<char>, bytes: Seq<u8>, c: FileContent) -> bool {
    &&& c.blob_path@ == blob_rel(content_digest(bytes), stored_extension(name))
    &&& c.size == bytes.len()
    &&& opt_text(c.mime_type) == mime_type_of(name)
}

/// Where the content of a file is to be stored.
pub fn content_of(name: &str, bytes: &[u8]) -> (r: FileContent)
    requires
        bytes.len() <= i64::MAX,
    ensures
        is_content(name@, bytes@, r),
{
    let ext = match crate::file_service::extension_of(name) {
        Some(e) => e,
        None => "bin".to_owned(),
    };
    FileContent {
        blob_path: blob_rel_path(bytes, ext.as_str()),
        size: bytes.len() as i64,
        mime_type: mime_guess(name),
    }
}

/// Decides on any other file: one with its name and place that holds the same content stays, one
/// that holds another gets the new content, and otherwise it is new.
pub fn file_step(existing: &Vec<StoredFile>, placed: &Vec<Placed>, rel: &str, bytes: &[u8]) -> (r:
    FileStep)
    requires
        bytes.len() <= i64::MAX,
    ensures
        ({
            let parent = place_of(placed_entries(placed@), rel@);
            let name = base_of(rel@);
            match file_at(existing@, parent, name, existing.len() as int) {
                Some(k) => {
                    let old = existing@[k];
                    match r {
                        FileStep::Unchanged => stored_hash(old.blob_path@) == content_digest(bytes@),
                        FileStep::Update(id, c) => stored_hash(old.blob_path@) != content_digest(
                            bytes@,
                        ) && id@ == old.id@ && is_content(name, bytes@, c),
                        FileStep::Create(_, _, _) => false,
                    }
                },
                None => match r {
                    FileStep::Create(p, n, c) => opt_text(p) == parent && n@ == name && is_content(
                        name,
                        bytes@,
                        c,
                    ),
                    _ => false,
                },
            }
        }),
{
    let parent = folder_of(placed, rel);
    let (_, name) = split_rel(rel);
    let ghost p = opt_text(parent);
    let mut i: usize = existing.len();
    while i > 0
        invariant
            i <= existing.len(),
            p == opt_text(parent),
            p == place_of(placed_entries(placed@), rel@),
            name@ == base_of(rel@),
            bytes.len() <= i64::MAX,
            file_at(existing@, p, name@, existing.len() as int) == file_at(
                existing@,
                p,
                name@,
                i as int,
            ),
        decreases i,
    {
        let row = &existing[i - 1];
        if same_opt(&row.parent_id, &parent) && same(row.name.as_str(), name.as_str()) {
            let hash = sha256_hex(bytes);
            let old = match parse_blob_path(row.blob_path.as_str()) {
                Some((h, _)) => h,
                None => String::new(),
            };
            if same(hash.as_str(), old.as_str()) {
                return FileStep::Unchanged;
            }
            return FileStep::Update(row.id.clone(), content_of(name.as_str(), bytes));
        }
        i -= 1;
    }
    let content = content_of(name.as_str(), bytes);
    FileStep::Create(parent, name, content)
}

} // verus!
