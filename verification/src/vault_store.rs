//! The deletion of a vault with all that is in it.
use vstd::prelude::*;
use vstd::string::*;

use crate::models::{FileItem, Note, NoteVersion, Setting, Vault};
use crate::note_rows::in_vault;
use crate::note_service::StoredLink;
use crate::note_store::{link_among, version_among, NoteStore};
use crate::settings_service::{keys_differ, set_setting, setting_of};
use crate::table::{law_rows_without, remove_rows, rows_without};
use crate::text::{holds, lemma_texts_push, list_has, same, texts};
use crate::vault_service::{
    current_vault_key, get_current_vault_id, is_first_other, plan_deletion, with_id, Deletion,
};

verus! {

/// The ids of the notes in a vault.
pub open spec fn note_ids(notes: Seq<Note>, vault: Seq<char>) -> Seq<Seq<char>>
    decreases notes.len(),
{
    if notes.len() == 0 {
        Seq::empty()
    } else if notes.last().vault_id@ == vault {
        note_ids(notes.drop_last(), vault).push(notes.last().id@)
    } else {
        note_ids(notes.drop_last(), vault)
    }
}

fn ids_in(notes: &Vec<Note>, vault: &str) -> (r: Vec<String>)
    ensures
        texts(r@) == note_ids(notes@, vault@),
{
    broadcast use lemma_texts_push;

    let mut out: Vec<String> = Vec::new();
    let mut i: usize = 0;
    assert(texts(out@) =~= note_ids(notes@.take(0), vault@));
    while i < notes.len()
        invariant
            i <= notes.len(),
            texts(out@) == note_ids(notes@.take(i as int), vault@),
        decreases notes.len() - i,
    {
        let ghost before = texts(out@);
        proof {
            assert(notes@.take(i + 1).drop_last() =~= notes@.take(i as int));
            assert(notes@.take(i + 1).last() == notes@[i as int]);
        }
        if same(notes[i].vault_id.as_str(), vault) {
            out.push(notes[i].id.clone());
            assert(texts(out@) =~= before.push(notes@[i as int].id@));
        }
        i += 1;
    }
    assert(notes@.take(notes.len() as int) =~= notes@);
    out
}

/// The ids of vaults.
pub open spec fn vault_ids(vaults: Seq<Vault>) -> Seq<Seq<char>> {
    Seq::new(vaults.len(), |i: int| vaults[i].id@)
}

/// Whether a file is in a vault.
pub open spec fn file_in(vault: Seq<char>) -> spec_fn(FileItem) -> bool {
    |f: FileItem| f.vault_id@ == vault
}

/// Whether a vault is emptied: its notes are gone with their links and versions, and its files; all
/// else is as it was.
pub open spec fn is_emptied(a: NoteStore, r: NoteStore, vault: Seq<char>) -> bool {
    &&& r.notes@ == rows_without(a.notes@, in_vault(vault))
    &&& r.links@ == rows_without(a.links@, link_among(note_ids(a.notes@, vault)))
    &&& r.versions@ == rows_without(a.versions@, version_among(note_ids(a.notes@, vault)))
    &&& r.files@ == rows_without(a.files@, file_in(vault))
}

fn empty_vault(store: &mut NoteStore, id: &str)
    ensures
        is_emptied(*old(store), *final(store), id@),
{
    let ids = ids_in(&store.notes, id);
    let link_goes = |l: &StoredLink| -> (c: bool)
        ensures
            c == (holds(texts(ids@), l.source_id@) || holds(texts(ids@), l.target_id@)),
        { list_has(&ids, l.source_id.as_str()) || list_has(&ids, l.target_id.as_str()) };
    remove_rows(&mut store.links, link_goes, Ghost(link_among(texts(ids@))));
    let version_goes = |v: &NoteVersion| -> (c: bool)
        ensures
            c == holds(texts(ids@), v.note_id@),
        { list_has(&ids, v.note_id.as_str()) };
    remove_rows(&mut store.versions, version_goes, Ghost(version_among(texts(ids@))));
    let note_goes = |n: &Note| -> (c: bool)
        ensures
            c == (n.vault_id@ == id@),
        { same(n.vault_id.as_str(), id) };
    remove_rows(&mut store.notes, note_goes, Ghost(in_vault(id@)));
    let file_goes = |f: &FileItem| -> (c: bool)
        ensures
            c == (f.vault_id@ == id@),
        { same(f.vault_id.as_str(), id) };
    remove_rows(&mut store.files, file_goes, Ghost(file_in(id@)));
}

/// The vault that is the current one by the settings.
pub open spec fn current_vault(settings: Seq<Setting>) -> Seq<char> {
    match setting_of(settings, "notes.current_vault_id"@) {
        Some(v) => v,
        None => "00000000-0000-0000-0000-000000000001"@,
    }
}

/// Whether the settings name another vault as the current one where the current one is deleted: the
/// first of the others by its id.
pub open spec fn is_switched(
    a: Seq<Setting>,
    r: Seq<Setting>,
    ids: Seq<Seq<char>>,
    deleted: Seq<char>,
) -> bool {
    if current_vault(a) != deleted || (forall|i: int| 0 <= i < ids.len() ==> #[trigger] ids[i] == deleted) {
        r == a
    } else {
        &&& is_first_other(ids, deleted, current_vault(r))
        &&& forall|k: Seq<char>|
            k != "notes.current_vault_id"@ ==> setting_of(r, k) == #[trigger] setting_of(a, k)
    }
}

/// Deletes a vault with all that is in it. The last vault stays.
pub fn delete_vault(
    vaults: &mut Vec<Vault>,
    store: &mut NoteStore,
    settings: &mut Vec<Setting>,
    id: &str,
    now: &str,
) -> (r: Result<(), String>)
    requires
        keys_differ(old(settings)@),
    ensures
        keys_differ(final(settings)@),
        match r {
            Err(e) => old(vaults)@.len() <= 1 && e@ == "不能删除最后一个库"@ && final(vaults)@ == old(vaults)@
                && *final(store) == *old(store) && final(settings)@ == old(settings)@,
            Ok(_) => old(vaults)@.len() > 1 && final(vaults)@ == rows_without(
                old(vaults)@,
                with_id(id@),
            ) && is_emptied(*old(store), *final(store), id@) && is_switched(
                old(settings)@,
                final(settings)@,
                vault_ids(old(vaults)@),
                id@,
            ),
        },
{
    let mut ids: Vec<String> = Vec::new();
    let mut i: usize = 0;
    while i < vaults.len()
        invariant
            i <= vaults.len(),
            ids.len() == i,
            vaults@ == old(vaults)@,
            forall|k: int| 0 <= k < i ==> (#[trigger] ids@[k])@ == vaults@[k].id@,
        decreases vaults.len() - i,
    {
        ids.push(vaults[i].id.clone());
        i += 1;
    }
    assert(texts(ids@) =~= vault_ids(vaults@));
    let current = get_current_vault_id(settings);
    let step = plan_deletion(&ids, current.as_str(), id);
    if let Deletion::Refused(e) = step {
        return Err(e);
    }
    empty_vault(store, id);
    let goes = |v: &Vault| -> (c: bool)
        ensures
            c == (v.id@ == id@),
        { same(v.id.as_str(), id) };
    remove_rows(vaults, goes, Ghost(with_id(id@)));
    if let Deletion::DeleteAndSwitch(next) = step {
        set_setting(settings, current_vault_key(), next.as_str(), now);
    }
    Ok(())
}

/// Once a vault is deleted, no note and no file of it is left, and every note of another vault is.
pub proof fn law_vault_goes_with_its_notes(a: NoteStore, r: NoteStore, vault: Seq<char>)
    requires
        is_emptied(a, r, vault),
    ensures
        forall|n: Note|
            #[trigger] r.notes@.contains(n) <==> a.notes@.contains(n) && n.vault_id@ != vault,
        forall|f: FileItem|
            #[trigger] r.files@.contains(f) <==> a.files@.contains(f) && f.vault_id@ != vault,
{
    law_rows_without(a.notes@, in_vault(vault));
    law_rows_without(a.files@, file_in(vault));
    assert forall|n: Note|
        #[trigger] r.notes@.contains(n) <==> a.notes@.contains(n) && n.vault_id@ != vault by {
        assert(r.notes@.contains(n) <==> a.notes@.contains(n) && !in_vault(vault)(n));
    }
    assert forall|f: FileItem|
        #[trigger] r.files@.contains(f) <==> a.files@.contains(f) && f.vault_id@ != vault by {
        assert(r.files@.contains(f) <==> a.files@.contains(f) && !file_in(vault)(f));
    }
}

} // verus!
