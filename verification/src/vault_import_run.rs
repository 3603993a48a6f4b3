//! The import of a whole folder into a vault: folders first, then notes, then all other files.
use vstd::prelude::*;
use vstd::string::*;

use crate::digest::content_digest;
use crate::file_service::{extension, mime_type_of};
use crate::file_store::blob_rel;
use crate::text::{lemma_texts_push, opt_text, same, segment_start, texts};
use crate::vault_dirs::{dirs_in_order, is_tree, law_parents_come_first, order_dirs};
use crate::vault_import::{
    base_of, file_at, file_step, folder_entries, is_new_note, last_value, note_entries, note_step,
    note_title, place_of, placed_entries, split_rel, stored_extension, stored_hash, title_of_file, Entry, FileStep, FolderRow,
    ImportCounts, Key, NewNote, NoteStep, Placed, StoredFile, StoredNote,
};
use crate::vault_import_laws::{
    created_folders, created_notes, dotless, file_entries, imported_files, is_stored,
    keys_differ, lemma_stored, law_file_lookup_agrees, law_files_are_unchanged, law_folders_are_reused,
    law_notes_are_unchanged, new_folder_entries, place_folders, placed_folders, places_differ,
    stored, unique_ids, Asset, NewFolder,
};
use crate::vault_service::body_of;

verus! {

/// A note file of the source.
pub struct NoteFile {
    pub rel: String,
    pub content: String,
}

/// Any other file of the source.
pub struct AssetFile {
    pub rel: String,
    pub bytes: Vec<u8>,
}

/// The notes that note files stand for.
pub open spec fn note_sources(placed: Seq<Entry>, v: Seq<NoteFile>) -> Seq<Entry> {
    Seq::new(
        v.len(),
        |i: int|
            Entry {
                key: Key {
                    parent: place_of(placed, v[i].rel@),
                    name: note_title(base_of(v[i].rel@)),
                },
                value: body_of(v[i].content@),
            },
    )
}

/// What other files are to be stored as.
pub open spec fn asset_sources(placed: Seq<Entry>, v: Seq<AssetFile>) -> Seq<Asset> {
    Seq::new(
        v.len(),
        |i: int|
            Asset {
                key: Key { parent: place_of(placed, v[i].rel@), name: base_of(v[i].rel@) },
                digest: content_digest(v[i].bytes@),
                ext: stored_extension(base_of(v[i].rel@)),
            },
    )
}

/// The entries that new notes make.
pub open spec fn new_note_entries(v: Seq<NewNote>) -> Seq<Entry> {
    Seq::new(
        v.len(),
        |i: int|
            Entry {
                key: Key { parent: opt_text(v[i].parent_id), name: v[i].title@ },
                value: v[i].content@,
            },
    )
}

/// The places of the note files that become notes.
pub open spec fn note_picks(existing: Seq<Entry>, sources: Seq<Entry>) -> Seq<int>
    decreases sources.len(),
{
    if sources.len() == 0 {
        Seq::empty()
    } else {
        let before = note_picks(existing, sources.drop_last());
        if last_value(existing, sources.last().key) == Some(sources.last().value) {
            before
        } else {
            before.push(sources.len() - 1)
        }
    }
}

/// Whether notes are those that the files at the given places become.
pub open spec fn are_new_notes(
    placed: Seq<Entry>,
    v: Seq<NoteFile>,
    picks: Seq<int>,
    now: Seq<char>,
    made: Seq<NewNote>,
) -> bool {
    &&& made.len() == picks.len()
    &&& forall|m: int|
        0 <= m < picks.len() ==> 0 <= #[trigger] picks[m] < v.len() && is_new_note(
            place_of(placed, v[picks[m]].rel@),
            base_of(v[picks[m]].rel@),
            v[picks[m]].content@,
            now,
            made[m],
        )
}

/// The notes that note files become, where they are not there.
pub fn import_notes(
    existing: &Vec<StoredNote>,
    placed: &Vec<Placed>,
    files: &Vec<NoteFile>,
    now: &str,
) -> (r: Vec<NewNote>)
    ensures
        new_note_entries(r@) == created_notes(
            note_entries(existing@),
            note_sources(placed_entries(placed@), files@),
        ),
        are_new_notes(
            placed_entries(placed@),
            files@,
            note_picks(
                note_entries(existing@),
                note_sources(placed_entries(placed@), files@),
            ),
            now@,
            r@,
        ),
        r@.len() <= files@.len(),
{
    let ghost e = note_entries(existing@);
    let ghost p = placed_entries(placed@);
    let ghost all = note_sources(p, files@);
    let mut out: Vec<NewNote> = Vec::new();
    let mut i: usize = 0;
    assert(new_note_entries(out@) =~= created_notes(e, all.take(0)));
    while i < files.len()
        invariant
            i <= files.len(),
            e == note_entries(existing@),
            p == placed_entries(placed@),
            all == note_sources(p, files@),
            out@.len() <= i,
            new_note_entries(out@) == created_notes(e, all.take(i as int)),
            are_new_notes(p, files@, note_picks(e, all.take(i as int)), now@, out@),
        decreases files.len() - i,
    {
        let ghost before = out@;
        let ghost picks = note_picks(e, all.take(i as int));
        proof {
            assert(all.take(i + 1).drop_last() =~= all.take(i as int));
            assert(all.take(i + 1).last() == all[i as int]);
        }
        if let NoteStep::Create(n) = note_step(
            existing,
            placed,
            files[i].rel.as_str(),
            files[i].content.as_str(),
            now,
        ) {
            out.push(n);
            proof {
                assert(new_note_entries(out@) =~= new_note_entries(before).push(all[i as int]));
                let next = picks.push(i as int);
                assert forall|m: int| 0 <= m < next.len() implies 0 <= #[trigger] next[m]
                    < files@.len() && is_new_note(
                    place_of(p, files@[next[m]].rel@),
                    base_of(files@[next[m]].rel@),
                    files@[next[m]].content@,
                    now@,
                    out@[m],
                ) by {
                    if m < picks.len() {
                        assert(next[m] == picks[m]);
                        assert(out@[m] == before[m]);
                    }
                }
            }
        }
        i += 1;
    }
    assert(all.take(all.len() as int) =~= all);
    out
}

// ---------------------------------------------------------------------------------------------
// Other files
// ---------------------------------------------------------------------------------------------
/// How many files are not stored yet when it is their turn.
pub open spec fn changed_files(files: Seq<Entry>, assets: Seq<Asset>) -> nat
    decreases assets.len(),
{
    if assets.len() == 0 {
        0
    } else {
        changed_files(files, assets.drop_last()) + (if is_stored(
            imported_files(files, assets.drop_last()),
            assets.last(),
        ) {
            0nat
        } else {
            1
        })
    }
}

/// Replacing or adding an entry, by the place of the file that it stands for.
proof fn lemma_stored_at(
    files: Seq<StoredFile>,
    parent: Option<Seq<char>>,
    name: Seq<char>,
    value: Seq<char>,
    i: int,
)
    requires
        0 <= i <= files.len(),
    ensures
        ({
            let key = Key { parent, name };
            let list = file_entries(files).take(i);
            let one = Entry { key, value };
            match file_at(files, parent, name, i) {
                Some(k) => 0 <= k < i && stored(list, key, value) == list.update(k, one),
                None => stored(list, key, value) == list.push(one),
            }
        }),
    decreases i,
{
    let key = Key { parent, name };
    let all = file_entries(files);
    let list = all.take(i);
    let one = Entry { key, value };
    law_file_lookup_agrees(files, parent, name, i);
    if i > 0 {
        assert(list.last() == all[i - 1]);
        assert(list.drop_last() =~= all.take(i - 1));
        lemma_stored_at(files, parent, name, value, i - 1);
        match file_at(files, parent, name, i) {
            Some(k) => {
                if k == i - 1 {
                    assert(list.last().key == key);
                    assert(list.drop_last().push(one) =~= list.update(k, one));
                } else {
                    assert(list.last().key != key);
                    assert(all.take(i - 1).update(k, one).push(list.last()) =~= list.update(
                        k,
                        one,
                    ));
                }
            },
            None => {},
        }
    } else {
        assert(list =~= Seq::empty());
        assert(seq![one] =~= list.push(one));
    }
}

fn find_file(files: &Vec<StoredFile>, parent: &Option<String>, name: &str) -> (r: Option<usize>)
    ensures
        match r {
            Some(k) => k < files.len() && file_at(
                files@,
                opt_text(*parent),
                name@,
                files.len() as int,
            ) == Some(k as int),
            None => file_at(files@, opt_text(*parent), name@, files.len() as int) is None,
        },
{
    let mut i: usize = files.len();
    while i > 0
        invariant
            i <= files.len(),
            file_at(files@, opt_text(*parent), name@, files.len() as int) == file_at(
                files@,
                opt_text(*parent),
                name@,
                i as int,
            ),
        decreases i,
    {
        if crate::vault_import::same_opt(&files[i - 1].parent_id, parent) && same(
            files[i - 1].name.as_str(),
            name,
        ) {
            return Some(i - 1);
        }
        i -= 1;
    }
    None
}

/// A managed file, read as its texts.
pub struct FileModel {
    pub id: Seq<char>,
    pub key: Key,
    pub blob_path: Seq<char>,
    pub size: int,
    pub mime_type: Option<Seq<char>>,
}

/// The managed files, read as their texts.
pub open spec fn file_models(v: Seq<StoredFile>) -> Seq<FileModel> {
    Seq::new(
        v.len(),
        |i: int|
            FileModel {
                id: v[i].id@,
                key: Key { parent: opt_text(v[i].parent_id), name: v[i].name@ },
                blob_path: v[i].blob_path@,
                size: v[i].size as int,
                mime_type: opt_text(v[i].mime_type),
            },
    )
}

/// The file that a file of the source is to be stored as, under an id of its own.
pub open spec fn source_model(placed: Seq<Entry>, a: AssetFile, id: Seq<char>) -> FileModel {
    FileModel {
        id,
        key: Key { parent: place_of(placed, a.rel@), name: base_of(a.rel@) },
        blob_path: blob_rel(content_digest(a.bytes@), stored_extension(base_of(a.rel@))),
        size: a.bytes@.len() as int,
        mime_type: mime_type_of(base_of(a.rel@)),
    }
}

/// The files that the files of the source are to be stored as. `fresh` holds an id for each.
pub open spec fn source_models(
    placed: Seq<Entry>,
    v: Seq<AssetFile>,
    fresh: Seq<Seq<char>>,
) -> Seq<FileModel> {
    Seq::new(v.len(), |i: int| source_model(placed, v[i], fresh[i]))
}

/// The place of the last of the first `i` files with a key.
pub open spec fn model_at(rows: Seq<FileModel>, key: Key, i: int) -> Option<int>
    decreases i,
{
    if i <= 0 || i > rows.len() {
        None
    } else if rows[i - 1].key == key {
        Some(i - 1)
    } else {
        model_at(rows, key, i - 1)
    }
}

/// The files once one more is imported: it is added under its own id where there is none with its key,
/// and else the one that is there keeps its id and gets the content, unless it has it.
pub open spec fn with_file(rows: Seq<FileModel>, digest: Seq<char>, f: FileModel) -> Seq<FileModel> {
    match model_at(rows, f.key, rows.len() as int) {
        Some(k) => if stored_hash(rows[k].blob_path) == digest {
            rows
        } else {
            rows.update(k, FileModel { id: rows[k].id, ..f })
        },
        None => rows.push(f),
    }
}

/// The files once those of the source are imported.
pub open spec fn with_files(
    rows: Seq<FileModel>,
    digests: Seq<Seq<char>>,
    list: Seq<FileModel>,
) -> Seq<FileModel>
    decreases list.len(),
{
    if list.len() == 0 {
        rows
    } else {
        with_file(
            with_files(rows, digests, list.drop_last()),
            digests[list.len() - 1],
            list.last(),
        )
    }
}

/// The digests of the files of the source.
pub open spec fn source_digests(v: Seq<AssetFile>) -> Seq<Seq<char>> {
    Seq::new(v.len(), |i: int| content_digest(v[i].bytes@))
}

proof fn lemma_model_at(files: Seq<StoredFile>, parent: Option<Seq<char>>, name: Seq<char>, i: int)
    requires
        0 <= i <= files.len(),
    ensures
        model_at(file_models(files), Key { parent, name }, i) == file_at(files, parent, name, i),
    decreases i,
{
    if i > 0 {
        lemma_model_at(files, parent, name, i - 1);
    }
}

/// The file that is found by its key has that key, and none has it where none is found.
pub proof fn lemma_model_place(rows: Seq<FileModel>, key: Key, i: int)
    requires
        0 <= i <= rows.len(),
    ensures
        match model_at(rows, key, i) {
            Some(k) => 0 <= k < i && rows[k].key == key,
            None => forall|j: int| 0 <= j < i ==> (#[trigger] rows[j]).key != key,
        },
    decreases i,
{
    if i > 0 {
        lemma_model_place(rows, key, i - 1);
    }
}

/// A file that is there keeps its id and its place, and a file that is added has the fresh id of a file
/// of the source with its name and place.
pub proof fn law_files_keep_their_ids(
    rows: Seq<FileModel>,
    digests: Seq<Seq<char>>,
    list: Seq<FileModel>,
)
    ensures
        ({
            let r = with_files(rows, digests, list);
            &&& r.len() >= rows.len()
            &&& forall|k: int|
                0 <= k < rows.len() ==> (#[trigger] r[k]).id == rows[k].id && r[k].key
                    == rows[k].key
            &&& forall|k: int|
                rows.len() <= k < r.len() ==> exists|j: int|
                    0 <= j < list.len() && (#[trigger] r[k]).id == (#[trigger] list[j]).id && r[k].key
                        == list[j].key
        }),
    decreases list.len(),
{
    if list.len() > 0 {
        let shorter = list.drop_last();
        let f = list.last();
        let before = with_files(rows, digests, shorter);
        let r = with_files(rows, digests, list);
        law_files_keep_their_ids(rows, digests, shorter);
        lemma_model_place(before, f.key, before.len() as int);
        assert forall|k: int| rows.len() <= k < r.len() implies exists|j: int|
            0 <= j < list.len() && (#[trigger] r[k]).id == (#[trigger] list[j]).id && r[k].key
                == list[j].key by {
            if k < before.len() {
                assert(before[k].id == r[k].id && before[k].key == r[k].key);
                let j = choose|j: int|
                    0 <= j < shorter.len() && before[k].id == (#[trigger] shorter[j]).id
                        && before[k].key == shorter[j].key;
                assert(list[j] == shorter[j]);
            } else {
                assert(r[k] == f);
                assert(list[list.len() - 1] == f);
            }
        }
    }
}

/// Stores files: one that holds what it held is left alone, one that holds something else is changed in
/// its place, and a new one is added. Tells how many were changed or added. `fresh` holds an id for
/// each file.
pub fn import_files(
    files: &mut Vec<StoredFile>,
    placed: &Vec<Placed>,
    sources: &Vec<AssetFile>,
    fresh: &Vec<String>,
) -> (r: usize)
    requires
        fresh@.len() >= sources@.len(),
        forall|i: int| 0 <= i < sources@.len() ==> (#[trigger] sources@[i]).bytes@.len() <= i64::MAX,
    ensures
        file_entries(final(files)@) == imported_files(
            file_entries(old(files)@),
            asset_sources(placed_entries(placed@), sources@),
        ),
        r == changed_files(
            file_entries(old(files)@),
            asset_sources(placed_entries(placed@), sources@),
        ),
        r <= sources@.len(),
        file_models(final(files)@) == with_files(
            file_models(old(files)@),
            source_digests(sources@),
            source_models(placed_entries(placed@), sources@, texts(fresh@)),
        ),
{
    let ghost start = file_entries(files@);
    let ghost first = file_models(files@);
    let ghost p = placed_entries(placed@);
    let ghost all = asset_sources(p, sources@);
    let ghost digests = source_digests(sources@);
    let ghost wanted = source_models(p, sources@, texts(fresh@));
    let mut changed: usize = 0;
    let mut i: usize = 0;
    assert(imported_files(start, all.take(0)) =~= start);
    assert(with_files(first, digests, wanted.take(0)) =~= first);
    while i < sources.len()
        invariant
            i <= sources.len(),
            fresh@.len() >= sources@.len(),
            forall|i: int|
                0 <= i < sources@.len() ==> (#[trigger] sources@[i]).bytes@.len() <= i64::MAX,
            p == placed_entries(placed@),
            all == asset_sources(p, sources@),
            start == file_entries(old(files)@),
            changed <= i,
            file_entries(files@) == imported_files(start, all.take(i as int)),
            changed == changed_files(start, all.take(i as int)),
            digests == source_digests(sources@),
            wanted == source_models(p, sources@, texts(fresh@)),
            file_models(files@) == with_files(first, digests, wanted.take(i as int)),
        decreases sources.len() - i,
    {
        let ghost before = files@;
        let ghost a = all[i as int];
        proof {
            assert(all.take(i + 1).drop_last() =~= all.take(i as int));
            assert(all.take(i + 1).last() == a);
            law_file_lookup_agrees(before, a.key.parent, a.key.name, before.len() as int);
            lemma_stored_at(
                before,
                a.key.parent,
                a.key.name,
                blob_rel(a.digest, a.ext),
                before.len() as int,
            );
            assert(file_entries(before).take(before.len() as int) =~= file_entries(before));
            assert(wanted.take(i + 1).drop_last() =~= wanted.take(i as int));
            assert(wanted.take(i + 1).last() == wanted[i as int]);
            lemma_model_at(before, a.key.parent, a.key.name, before.len() as int);
        }
        let ghost f = wanted[i as int];
        let rel = sources[i].rel.as_str();
        match file_step(files, placed, rel, sources[i].bytes.as_slice()) {
            FileStep::Unchanged => {},
            FileStep::Update(_, content) => {
                let parent = crate::vault_import::folder_of(placed, rel);
                let (_, name) = split_rel(rel);
                if let Some(k) = find_file(files, &parent, name.as_str()) {
                    files[k].blob_path = content.blob_path;
                    files[k].size = content.size;
                    files[k].mime_type = content.mime_type;
                    assert(file_models(files@) =~= file_models(before).update(
                        k as int,
                        FileModel { id: before[k as int].id@, ..f },
                    )) by {
                        lemma_file_key(before, a.key.parent, a.key.name, before.len() as int);
                    }
                    assert(file_entries(files@) =~= file_entries(before).update(
                        k as int,
                        Entry { key: a.key, value: blob_rel(a.digest, a.ext) },
                    )) by {
                        lemma_file_key(before, a.key.parent, a.key.name, before.len() as int);
                    }
                }
                changed += 1;
            },
            FileStep::Create(parent_id, name, content) => {
                files.push(
                    StoredFile {
                        parent_id,
                        name,
                        id: fresh[i].clone(),
                        blob_path: content.blob_path,
                        size: content.size,
                        mime_type: content.mime_type,
                    },
                );
                assert(file_models(files@) =~= file_models(before).push(f));
                assert(file_entries(files@) =~= file_entries(before).push(
                    Entry { key: a.key, value: blob_rel(a.digest, a.ext) },
                ));
                changed += 1;
            },
        }
        i += 1;
    }
    assert(all.take(all.len() as int) =~= all);
    assert(wanted.take(wanted.len() as int) =~= wanted);
    changed
}

/// The file at the place of a parent and a name has them.
proof fn lemma_file_key(
    files: Seq<StoredFile>,
    parent: Option<Seq<char>>,
    name: Seq<char>,
    i: int,
)
    requires
        0 <= i <= files.len(),
    ensures
        match file_at(files, parent, name, i) {
            Some(k) => 0 <= k < i && opt_text(files[k].parent_id) == parent && files[k].name@
                == name,
            None => true,
        },
    decreases i,
{
    if i > 0 {
        lemma_file_key(files, parent, name, i - 1);
    }
}

// ---------------------------------------------------------------------------------------------
// The whole import
// ---------------------------------------------------------------------------------------------
/// What a source holds: its directories, parents first, its note files, all other files, and the paths
/// of those that could not be read or stored.
pub struct VaultSource {
    pub dirs: Vec<String>,
    pub notes: Vec<NoteFile>,
    pub files: Vec<AssetFile>,
    pub unreadable: Vec<String>,
}

/// How far an import is: how many items are done, of how many, and the name of the last one.
pub struct ImportProgress {
    pub current: usize,
    pub total: usize,
    pub name: String,
}

/// How far an import is, read as its text.
pub struct ProgressModel {
    pub current: int,
    pub total: int,
    pub name: Seq<char>,
}

/// How far an import is, item by item.
pub open spec fn progress_models(v: Seq<ImportProgress>) -> Seq<ProgressModel> {
    Seq::new(
        v.len(),
        |i: int|
            ProgressModel {
                current: v[i].current as int,
                total: v[i].total as int,
                name: v[i].name@,
            },
    )
}

/// The directories of a source in the order in which folders are made for them, parents first.
pub open spec fn source_dirs(source: VaultSource) -> Seq<Seq<char>> {
    dirs_in_order(texts(source.dirs@))
}

/// The names of the items of a source in the order in which they are imported: directories, notes by
/// their titles, and other files, those last that could not be read or stored.
pub open spec fn item_names(source: VaultSource) -> Seq<Seq<char>> {
    Seq::new(source_dirs(source).len(), |i: int| base_of(source_dirs(source)[i])) + Seq::new(
        source.notes@.len(),
        |i: int| note_title(base_of(source.notes@[i].rel@)),
    ) + Seq::new(source.files@.len(), |i: int| base_of(source.files@[i].rel@)) + Seq::new(
        source.unreadable@.len(),
        |i: int| base_of(source.unreadable@[i]@),
    )
}

/// What is reported of an import: after each item how many are done, of how many, and its name.
pub open spec fn reported(names: Seq<Seq<char>>) -> Seq<ProgressModel> {
    Seq::new(
        names.len(),
        |i: int| ProgressModel { current: i + 1, total: names.len() as int, name: names[i] },
    )
}

/// What is reported of the import of a source.
pub fn progress_of(source: &VaultSource) -> (r: Vec<ImportProgress>)
    requires
        item_names(*source).len() <= usize::MAX,
    ensures
        progress_models(r@) == reported(item_names(*source)),
{
    let ghost all = item_names(*source);
    let dirs = order_dirs(&source.dirs);
    let mut names: Vec<String> = Vec::new();
    let mut i: usize = 0;
    assert(texts(dirs@).len() == dirs@.len());
    assert(texts(names@) =~= all.take(0));
    while i < dirs.len()
        invariant
            i <= dirs.len(),
            texts(dirs@) == source_dirs(*source),
            texts(dirs@).len() == dirs@.len(),
            all == item_names(*source),
            texts(names@) == all.take(i as int),
        decreases dirs.len() - i,
    {
        broadcast use lemma_texts_push;

        let (_, name) = split_rel(dirs[i].as_str());
        names.push(name);
        assert(texts(dirs@)[i as int] == dirs@[i as int]@);
        assert(texts(names@) =~= all.take(i as int).push(all[i as int]));
        assert(all.take(i + 1) =~= all.take(i as int).push(all[i as int]));
        i += 1;
    }
    let ghost d = i as int;
    i = 0;
    while i < source.notes.len()
        invariant
            i <= source.notes.len(),
            d == source_dirs(*source).len(),
            all == item_names(*source),
            texts(names@) == all.take(d + i),
        decreases source.notes.len() - i,
    {
        broadcast use lemma_texts_push;

        let (_, name) = split_rel(source.notes[i].rel.as_str());
        names.push(title_of_file(name.as_str()));
        assert(texts(names@) =~= all.take(d + i).push(all[d + i]));
        assert(all.take(d + i + 1) =~= all.take(d + i).push(all[d + i]));
        i += 1;
    }
    let ghost n = d + i;
    i = 0;
    while i < source.files.len()
        invariant
            i <= source.files.len(),
            n == source_dirs(*source).len() + source.notes@.len(),
            all == item_names(*source),
            texts(names@) == all.take(n + i),
        decreases source.files.len() - i,
    {
        broadcast use lemma_texts_push;

        let (_, name) = split_rel(source.files[i].rel.as_str());
        names.push(name);
        assert(texts(names@) =~= all.take(n + i).push(all[n + i]));
        assert(all.take(n + i + 1) =~= all.take(n + i).push(all[n + i]));
        i += 1;
    }
    let ghost f = n + i;
    i = 0;
    while i < source.unreadable.len()
        invariant
            i <= source.unreadable.len(),
            f == source_dirs(*source).len() + source.notes@.len() + source.files@.len(),
            all == item_names(*source),
            texts(names@) == all.take(f + i),
        decreases source.unreadable.len() - i,
    {
        broadcast use lemma_texts_push;

        let (_, name) = split_rel(source.unreadable[i].as_str());
        names.push(name);
        assert(texts(names@) =~= all.take(f + i).push(all[f + i]));
        assert(all.take(f + i + 1) =~= all.take(f + i).push(all[f + i]));
        i += 1;
    }
    assert(texts(names@) =~= all);
    assert(names@.len() == texts(names@).len());
    let total = names.len();
    let mut out: Vec<ImportProgress> = Vec::new();
    i = 0;
    assert(progress_models(out@) =~= reported(all).take(0));
    while i < total
        invariant
            i <= total,
            total == names@.len(),
            texts(names@) == all,
            progress_models(out@) == reported(all).take(i as int),
        decreases total - i,
    {
        assert(all[i as int] == names@[i as int]@);
        let ghost before = progress_models(out@);
        out.push(ImportProgress { current: i + 1, total, name: names[i].clone() });
        proof {
            assert(progress_models(out@) =~= before.push(reported(all)[i as int]));
            assert(reported(all).take(i + 1) =~= reported(all).take(i as int).push(
                reported(all)[i as int],
            ));
        }
        i += 1;
    }
    assert(reported(all).take(total as int) =~= reported(all));
    out
}

/// What an import makes, and what is reported on the way.
pub struct VaultImport {
    pub folders: Vec<NewFolder>,
    pub notes: Vec<NewNote>,
    pub counts: ImportCounts,
    pub progress: Vec<ImportProgress>,
}

/// The folders that stand for the directories of a source.
pub open spec fn source_places(
    folders: Seq<Entry>,
    source: VaultSource,
    fresh: Seq<Seq<char>>,
) -> Seq<Entry> {
    placed_folders(folders, source_dirs(source), fresh)
}

/// Imports a source into a vault: which folders and notes are made, and what its files become.
pub fn import_vault(
    folders: &Vec<FolderRow>,
    notes: &Vec<StoredNote>,
    files: &mut Vec<StoredFile>,
    source: &VaultSource,
    folder_ids: &Vec<String>,
    file_ids: &Vec<String>,
    now: &str,
) -> (r: VaultImport)
    requires
        folder_ids@.len() == source.dirs@.len(),
        file_ids@.len() >= source.files@.len(),
        item_names(*source).len() <= usize::MAX,
        forall|i: int|
            0 <= i < source.files@.len() ==> (#[trigger] source.files@[i]).bytes@.len() <= i64::MAX,
    ensures
        ({
            let placed = source_places(folder_entries(folders@), *source, texts(folder_ids@));
            let wanted = note_sources(placed, source.notes@);
            let assets = asset_sources(placed, source.files@);
            let changed = changed_files(file_entries(old(files)@), assets);
            &&& new_folder_entries(r.folders@) == created_folders(
                folder_entries(folders@),
                source_dirs(*source),
                texts(folder_ids@),
            )
            &&& new_note_entries(r.notes@) == created_notes(note_entries(notes@), wanted)
            &&& are_new_notes(
                placed,
                source.notes@,
                note_picks(note_entries(notes@), wanted),
                now@,
                r.notes@,
            )
            &&& file_entries(final(files)@) == imported_files(file_entries(old(files)@), assets)
            &&& r.counts.imported == r.notes@.len()
            &&& r.counts.files_imported == changed
            &&& r.counts.unchanged == source.notes@.len() - r.notes@.len() + source.files@.len()
                - changed
            &&& file_models(final(files)@) == with_files(
                file_models(old(files)@),
                source_digests(source.files@),
                source_models(placed, source.files@, texts(file_ids@)),
            )
            &&& r.counts.skipped == source.unreadable@.len()
        }),
        r.counts.imported + r.counts.files_imported + r.counts.unchanged + r.counts.skipped
            == source.notes@.len() + source.files@.len() + source.unreadable@.len(),
        progress_models(r.progress@) == reported(item_names(*source)),
{
    let dirs = order_dirs(&source.dirs);
    let (placed, made) = place_folders(folders, &dirs, folder_ids);
    let new_notes = import_notes(notes, &placed, &source.notes, now);
    let changed = import_files(files, &placed, &source.files, file_ids);
    let counts = ImportCounts {
        imported: new_notes.len(),
        files_imported: changed,
        unchanged: (source.notes.len() - new_notes.len()) + (source.files.len() - changed),
        skipped: source.unreadable.len(),
    };
    VaultImport { folders: made, notes: new_notes, counts, progress: progress_of(source) }
}

proof fn lemma_extension_dotless(s: Seq<char>, i: int)
    requires
        0 <= i <= s.len(),
    ensures
        0 <= segment_start(s, '.', i) <= i,
        forall|k: int| segment_start(s, '.', i) <= k < i ==> #[trigger] s[k] != '.',
    decreases i,
{
    if i > 0 && s[i - 1] != '.' {
        lemma_extension_dotless(s, i - 1);
    }
}

/// The extension under which a file is stored holds no dot.
pub proof fn lemma_stored_extension_dotless(name: Seq<char>)
    ensures
        dotless(stored_extension(name)),
{
    reveal_strlit("bin");
    let base = crate::file_service::file_part(name);
    lemma_extension_dotless(base, base.len() as int);
    let k = segment_start(base, '.', base.len() as int);
    if extension(name) is Some {
        assert forall|i: int| 0 <= i < base.skip(k).len() implies #[trigger] base.skip(k)[i]
            != '.' by {
            assert(base.skip(k)[i] == base[k + i]);
        }
    }
}

proof fn lemma_nothing_changes(files: Seq<Entry>, assets: Seq<Asset>)
    requires
        forall|j: int| 0 <= j < assets.len() ==> is_stored(files, #[trigger] assets[j]),
    ensures
        imported_files(files, assets) == files,
        changed_files(files, assets) == 0,
    decreases assets.len(),
{
    if assets.len() > 0 {
        let shorter = assets.drop_last();
        assert forall|j: int| 0 <= j < shorter.len() implies is_stored(
            files,
            #[trigger] shorter[j],
        ) by {
            assert(shorter[j] == assets[j]);
        }
        lemma_nothing_changes(files, shorter);
        assert(is_stored(files, assets[assets.len() - 1]));
    }
}

/// Importing the same source again makes no folder and no note, changes no file, and gives every
/// directory the folder that it had.
pub proof fn law_second_import_changes_nothing(
    folders: Seq<Entry>,
    notes: Seq<Entry>,
    files: Seq<Entry>,
    source: VaultSource,
    fresh: Seq<Seq<char>>,
    other: Seq<Seq<char>>,
)
    requires
        is_tree(texts(source.dirs@)),
        fresh.len() == source.dirs@.len(),
        unique_ids(folders, fresh),
        keys_differ(note_sources(source_places(folders, source, fresh), source.notes@)),
        places_differ(asset_sources(source_places(folders, source, fresh), source.files@)),
    ensures
        ({
            let dirs = source_dirs(source);
            let placed = source_places(folders, source, fresh);
            let wanted = note_sources(placed, source.notes@);
            let assets = asset_sources(placed, source.files@);
            let folders2 = folders + created_folders(folders, dirs, fresh);
            let notes2 = notes + created_notes(notes, wanted);
            let files2 = imported_files(files, assets);
            let placed2 = source_places(folders2, source, other);
            &&& placed2 == placed
            &&& created_folders(folders2, dirs, other) == Seq::<Entry>::empty()
            &&& created_notes(notes2, note_sources(placed2, source.notes@)) == Seq::<Entry>::empty()
            &&& imported_files(files2, asset_sources(placed2, source.files@)) == files2
            &&& changed_files(files2, asset_sources(placed2, source.files@)) == 0
        }),
{
    let dirs = source_dirs(source);
    law_parents_come_first(texts(source.dirs@));
    let placed = source_places(folders, source, fresh);
    let wanted = note_sources(placed, source.notes@);
    let assets = asset_sources(placed, source.files@);
    let files2 = imported_files(files, assets);
    law_folders_are_reused(folders, dirs, fresh, other);
    law_notes_are_unchanged(notes, wanted);
    assert forall|i: int| 0 <= i < assets.len() implies dotless((#[trigger] assets[i]).ext) by {
        lemma_stored_extension_dotless(base_of(source.files@[i].rel@));
    }
    assert forall|j: int| 0 <= j < assets.len() implies is_stored(files2, #[trigger] assets[j]) by {
        law_files_are_unchanged(files, assets, j);
    }
    lemma_nothing_changes(files2, assets);
}

proof fn lemma_one_changes(files: Seq<Entry>, assets: Seq<Asset>, j: int, n: int)
    requires
        places_differ(assets),
        0 <= j < assets.len(),
        0 <= n <= assets.len(),
        !is_stored(files, assets[j]),
        forall|i: int|
            0 <= i < assets.len() && i != j ==> is_stored(files, #[trigger] assets[i]),
    ensures
        n <= j ==> imported_files(files, assets.take(n)) == files && changed_files(
            files,
            assets.take(n),
        ) == 0,
        n > j ==> imported_files(files, assets.take(n)) == stored(
            files,
            assets[j].key,
            blob_rel(assets[j].digest, assets[j].ext),
        ) && changed_files(files, assets.take(n)) == 1,
    decreases n,
{
    if n > 0 {
        lemma_one_changes(files, assets, j, n - 1);
        assert(assets.take(n).drop_last() =~= assets.take(n - 1));
        assert(assets.take(n).last() == assets[n - 1]);
        if n - 1 > j {
            assert(assets[j].key != assets[n - 1].key);
            lemma_stored(
                files,
                assets[j].key,
                blob_rel(assets[j].digest, assets[j].ext),
                assets[n - 1].key,
            );
        }
    }
}

/// Importing a source again in which the content of one file has changed counts that file alone, and
/// the others stay as they are.
pub proof fn law_one_changed_file_counts_one(
    files: Seq<Entry>,
    assets: Seq<Asset>,
    j: int,
    digest: Seq<char>,
)
    requires
        places_differ(assets),
        forall|i: int| 0 <= i < assets.len() ==> dotless((#[trigger] assets[i]).ext),
        0 <= j < assets.len(),
        digest != assets[j].digest,
    ensures
        ({
            let again = assets.update(j, Asset { digest, ..assets[j] });
            let before = imported_files(files, assets);
            &&& changed_files(before, again) == 1
            &&& imported_files(before, again) == stored(
                before,
                assets[j].key,
                blob_rel(digest, assets[j].ext),
            )
        }),
{
    let again = assets.update(j, Asset { digest, ..assets[j] });
    let before = imported_files(files, assets);
    assert forall|i: int| 0 <= i < again.len() && i != j implies is_stored(
        before,
        #[trigger] again[i],
    ) by {
        law_files_are_unchanged(files, assets, i);
    }
    law_files_are_unchanged(files, assets, j);
    assert forall|x: int, y: int| 0 <= x < y < again.len() implies (#[trigger] again[x]).key != (
    #[trigger] again[y]).key by {
        assert(assets[x].key != assets[y].key);
    }
    lemma_one_changes(before, again, j, again.len() as int);
    assert(again.take(again.len() as int) =~= again);
}

} // verus!
