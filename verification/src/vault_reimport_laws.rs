//! What becomes of a folder that is imported three times: into an empty vault, again as it is, and again
//! with one file changed.
use vstd::prelude::*;

use crate::digest::content_digest;
use crate::file_store::{blob_rel, law_blob_path_round_trip};
use crate::text::texts;
use crate::vault_dirs::{is_tree, law_parents_come_first};
use crate::vault_import::{base_of, last_value, stored_extension, stored_hash, Entry};
use crate::vault_import_laws::{
    created_folders, created_notes, dotless, imported_files, keys_differ, lemma_stored, places_differ,
    unique_ids, Asset,
};
use crate::vault_import_run::{
    asset_sources, changed_files, law_one_changed_file_counts_one,
    law_second_import_changes_nothing, lemma_model_place, lemma_stored_extension_dotless, model_at,
    note_sources, source_digests, source_dirs, source_models, source_places, with_files,
    FileModel, VaultSource,
};

verus! {

/// Whether two sources are the same but for the content of the file at `j`.
pub open spec fn differs_at(a: VaultSource, b: VaultSource, j: int) -> bool {
    &&& b.dirs == a.dirs
    &&& b.notes == a.notes
    &&& b.files@.len() == a.files@.len()
    &&& 0 <= j < a.files@.len()
    &&& forall|i: int|
        0 <= i < a.files@.len() && i != j ==> #[trigger] b.files@[i] == a.files@[i]
    &&& b.files@[j].rel == a.files@[j].rel
    &&& content_digest(b.files@[j].bytes@) != content_digest(a.files@[j].bytes@)
}

proof fn lemma_all_notes_are_new(notes: Seq<Entry>)
    ensures
        created_notes(Seq::empty(), notes) == notes,
    decreases notes.len(),
{
    if notes.len() > 0 {
        lemma_all_notes_are_new(notes.drop_last());
        assert(notes.drop_last().push(notes.last()) =~= notes);
    }
}

proof fn lemma_all_folders_are_new(dirs: Seq<Seq<char>>, fresh: Seq<Seq<char>>)
    ensures
        created_folders(Seq::empty(), dirs, fresh).len() == dirs.len(),
    decreases dirs.len(),
{
    if dirs.len() > 0 {
        lemma_all_folders_are_new(dirs.drop_last(), fresh);
    }
}

proof fn lemma_all_files_are_new(assets: Seq<Asset>, n: int)
    requires
        places_differ(assets),
        0 <= n <= assets.len(),
    ensures
        changed_files(Seq::empty(), assets.take(n)) == n,
        forall|m: int|
            n <= m < assets.len() ==> last_value(
                imported_files(Seq::empty(), assets.take(n)),
                (#[trigger] assets[m]).key,
            ) is None,
    decreases n,
{
    if n > 0 {
        lemma_all_files_are_new(assets, n - 1);
        let before = imported_files(Seq::empty(), assets.take(n - 1));
        let a = assets[n - 1];
        assert(assets.take(n).drop_last() =~= assets.take(n - 1));
        assert(assets.take(n).last() == a);
        assert(last_value(before, a.key) is None);
        assert forall|m: int| n <= m < assets.len() implies last_value(
            imported_files(Seq::empty(), assets.take(n)),
            (#[trigger] assets[m]).key,
        ) is None by {
            assert(assets[n - 1].key != assets[m].key);
            lemma_stored(before, a.key, blob_rel(a.digest, a.ext), assets[m].key);
        }
    }
}

/// Whether no two files have one place.
spec fn model_keys_differ(list: Seq<FileModel>) -> bool {
    forall|i: int, j: int| 0 <= i < j < list.len() ==> (#[trigger] list[i]).key != (
    #[trigger] list[j]).key
}

proof fn lemma_all_models_are_new(digests: Seq<Seq<char>>, list: Seq<FileModel>, n: int)
    requires
        model_keys_differ(list),
        0 <= n <= list.len(),
    ensures
        with_files(Seq::empty(), digests, list.take(n)) == list.take(n),
    decreases n,
{
    if n > 0 {
        lemma_all_models_are_new(digests, list, n - 1);
        assert(list.take(n).drop_last() =~= list.take(n - 1));
        let before = list.take(n - 1);
        let f = list[n - 1];
        assert(list.take(n).last() == f);
        lemma_model_place(before, f.key, n - 1);
        if let Some(k) = model_at(before, f.key, n - 1) {
            assert(list[k].key != list[n - 1].key);
        }
        assert(before.push(f) =~= list.take(n));
    } else {
        assert(list.take(0) =~= Seq::empty());
    }
}

/// Files that hold what they held stay as they are, and the one at `j` gets its content under its id.
proof fn lemma_models_again(
    rows: Seq<FileModel>,
    digests: Seq<Seq<char>>,
    list: Seq<FileModel>,
    j: int,
    n: int,
)
    requires
        model_keys_differ(rows),
        list.len() == rows.len(),
        0 <= n <= list.len(),
        forall|i: int| 0 <= i < rows.len() ==> (#[trigger] list[i]).key == rows[i].key,
        forall|i: int|
            0 <= i < rows.len() && i != j ==> stored_hash((#[trigger] rows[i]).blob_path)
                == digests[i],
        0 <= j < rows.len() ==> stored_hash(rows[j].blob_path) != digests[j],
    ensures
        with_files(rows, digests, list.take(n)) == (if 0 <= j < n {
            rows.update(j, FileModel { id: rows[j].id, ..list[j] })
        } else {
            rows
        }),
    decreases n,
{
    if n > 0 {
        lemma_models_again(rows, digests, list, j, n - 1);
        assert(list.take(n).drop_last() =~= list.take(n - 1));
        let before = with_files(rows, digests, list.take(n - 1));
        let f = list[n - 1];
        assert(list.take(n).last() == f);
        lemma_model_place(before, f.key, before.len() as int);
        assert(before[n - 1].key == f.key);
        let k = model_at(before, f.key, before.len() as int)->0;
        assert(before[k].key == rows[k].key);
        if k < n - 1 {
            assert(rows[k].key != rows[n - 1].key);
        } else if k > n - 1 {
            assert(rows[n - 1].key != rows[k].key);
        }
        assert(k == n - 1);
        assert(before[n - 1] == rows[n - 1]);
    }
}

/// Three imports in a row. The first, into an empty vault, makes every folder and every note and stores
/// every file. The second, with nothing changed, makes and changes nothing. The third, with the content of
/// one file changed, changes that file alone: it keeps its id and its place, and has the new content.
pub proof fn law_three_imports(
    source: VaultSource,
    changed: VaultSource,
    j: int,
    fresh: Seq<Seq<char>>,
    fresh2: Seq<Seq<char>>,
    fresh3: Seq<Seq<char>>,
    ids: Seq<Seq<char>>,
    ids2: Seq<Seq<char>>,
    ids3: Seq<Seq<char>>,
)
    requires
        is_tree(texts(source.dirs@)),
        fresh.len() == source.dirs@.len(),
        unique_ids(Seq::empty(), fresh),
        keys_differ(note_sources(source_places(Seq::empty(), source, fresh), source.notes@)),
        places_differ(asset_sources(source_places(Seq::empty(), source, fresh), source.files@)),
        differs_at(source, changed, j),
    ensures
        ({
            let none = Seq::<Entry>::empty();
            let dirs = source_dirs(source);
            let placed = source_places(none, source, fresh);
            let folders = created_folders(none, dirs, fresh);
            let notes = created_notes(none, note_sources(placed, source.notes@));
            let files = imported_files(none, asset_sources(placed, source.files@));
            let rows = with_files(
                Seq::empty(),
                source_digests(source.files@),
                source_models(placed, source.files@, ids),
            );
            &&& folders.len() == source.dirs@.len()
            &&& notes.len() == source.notes@.len()
            &&& changed_files(none, asset_sources(placed, source.files@)) == source.files@.len()
            &&& rows == source_models(placed, source.files@, ids)
        }),
        ({
            let none = Seq::<Entry>::empty();
            let dirs = source_dirs(source);
            let placed = source_places(none, source, fresh);
            let folders = created_folders(none, dirs, fresh);
            let notes = created_notes(none, note_sources(placed, source.notes@));
            let files = imported_files(none, asset_sources(placed, source.files@));
            let rows = source_models(placed, source.files@, ids);
            let placed2 = source_places(folders, source, fresh2);
            &&& created_folders(folders, dirs, fresh2).len() == 0
            &&& created_notes(notes, note_sources(placed2, source.notes@)).len() == 0
            &&& changed_files(files, asset_sources(placed2, source.files@)) == 0
            &&& imported_files(files, asset_sources(placed2, source.files@)) == files
            &&& with_files(
                rows,
                source_digests(source.files@),
                source_models(placed2, source.files@, ids2),
            ) == rows
        }),
        ({
            let none = Seq::<Entry>::empty();
            let dirs = source_dirs(source);
            let placed = source_places(none, source, fresh);
            let folders = created_folders(none, dirs, fresh);
            let notes = created_notes(none, note_sources(placed, source.notes@));
            let files = imported_files(none, asset_sources(placed, source.files@));
            let rows = source_models(placed, source.files@, ids);
            let placed3 = source_places(folders, changed, fresh3);
            let rows3 = with_files(
                rows,
                source_digests(changed.files@),
                source_models(placed3, changed.files@, ids3),
            );
            &&& created_folders(folders, source_dirs(changed), fresh3).len() == 0
            &&& created_notes(notes, note_sources(placed3, changed.notes@)).len() == 0
            &&& changed_files(files, asset_sources(placed3, changed.files@)) == 1
            &&& rows3.len() == rows.len()
            &&& forall|i: int| 0 <= i < rows.len() && i != j ==> #[trigger] rows3[i] == rows[i]
            &&& rows3[j].id == rows[j].id && rows3[j].key == rows[j].key
            &&& rows3[j].blob_path == blob_rel(
                content_digest(changed.files@[j].bytes@),
                stored_extension(base_of(changed.files@[j].rel@)),
            )
            &&& rows3[j].size == changed.files@[j].bytes@.len()
        }),
{
    let none = Seq::<Entry>::empty();
    let dirs = source_dirs(source);
    let placed = source_places(none, source, fresh);
    let folders = created_folders(none, dirs, fresh);
    let wanted = note_sources(placed, source.notes@);
    let assets = asset_sources(placed, source.files@);
    let notes = created_notes(none, wanted);
    let files = imported_files(none, assets);
    let rows = source_models(placed, source.files@, ids);
    let digests = source_digests(source.files@);
    let digests3 = source_digests(changed.files@);
    law_parents_come_first(texts(source.dirs@));
    assert(texts(source.dirs@).len() == source.dirs@.len());
    lemma_all_folders_are_new(dirs, fresh);
    lemma_all_notes_are_new(wanted);
    lemma_all_files_are_new(assets, assets.len() as int);
    assert(assets.take(assets.len() as int) =~= assets);
    assert(none + folders =~= folders);
    assert(none + notes =~= notes);
    law_second_import_changes_nothing(none, none, none, source, fresh, fresh2);
    law_second_import_changes_nothing(none, none, none, source, fresh, fresh3);
    assert forall|i: int, k: int| 0 <= i < k < rows.len() implies (#[trigger] rows[i]).key != (
    #[trigger] rows[k]).key by {
        assert(assets[i].key != assets[k].key);
    }
    lemma_all_models_are_new(digests, rows, rows.len() as int);
    assert(rows.take(rows.len() as int) =~= rows);
    assert forall|i: int| 0 <= i < rows.len() implies stored_hash((#[trigger] rows[i]).blob_path)
        == digests[i] by {
        let ext = stored_extension(base_of(source.files@[i].rel@));
        lemma_stored_extension_dotless(base_of(source.files@[i].rel@));
        law_blob_path_round_trip(digests[i], ext);
    }
    let list2 = source_models(placed, source.files@, ids2);
    lemma_models_again(rows, digests, list2, -1, list2.len() as int);
    assert(list2.take(list2.len() as int) =~= list2);
    let digest = content_digest(changed.files@[j].bytes@);
    let assets3 = asset_sources(placed, changed.files@);
    assert(assets3 =~= assets.update(j, Asset { digest, ..assets[j] }));
    assert forall|i: int| 0 <= i < assets.len() implies dotless(
        (#[trigger] assets[i]).ext,
    ) by {
        lemma_stored_extension_dotless(base_of(source.files@[i].rel@));
    }
    law_one_changed_file_counts_one(none, assets, j, digest);
    let list3 = source_models(placed, changed.files@, ids3);
    assert forall|i: int| 0 <= i < rows.len() && i != j implies stored_hash(
        (#[trigger] rows[i]).blob_path,
    ) == digests3[i] by {
        assert(changed.files@[i] == source.files@[i]);
        assert(digests[i] == digests3[i]);
    }
    assert forall|i: int| 0 <= i < rows.len() implies (#[trigger] list3[i]).key == rows[i].key by {
        if i != j {
            assert(changed.files@[i] == source.files@[i]);
        }
    }
    lemma_models_again(rows, digests3, list3, j, list3.len() as int);
    assert(list3.take(list3.len() as int) =~= list3);
}

} // verus!
