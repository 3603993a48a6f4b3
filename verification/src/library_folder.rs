//! The library folder of a vault: there is one, it has the same identifier on every device, and the notes
//! on papers stand below it.
use vstd::prelude::*;
use vstd::string::*;

use crate::models::{FileItem, Note};
use crate::note_service::{
    create_note, ensure_system_library_folder, folder_digest, grouped, is_new_note, others,
    system_library_folder_id, system_library_name, LibraryFolder,
};
use crate::note_store::NoteStore;
use crate::table::{
    find_row, first_place, law_first_place, law_rows_without, remove_rows, rows_without,
};
use crate::text::{holds, lemma_texts_push, list_has, opt_text, same, texts};

verus! {

/// The identifier of the library folder of a vault.
pub open spec fn library_id(vault: Seq<char>) -> Seq<char> {
    grouped(folder_digest(vault))
}

/// Whether a note is a library folder of a vault, whatever its identifier.
pub open spec fn is_system_folder(n: Note, vault: Seq<char>) -> bool {
    n.vault_id@ == vault && n.is_system == 1 && n.is_folder == 1
}

/// Whether a note is a library folder of a vault with another identifier than the fixed one.
pub open spec fn legacy_in(vault: Seq<char>) -> spec_fn(Note) -> bool {
    |n: Note| is_system_folder(n, vault) && n.id@ != library_id(vault)
}

/// Whether a note has the fixed identifier of the library folder of its vault.
pub open spec fn library_of(vault: Seq<char>) -> spec_fn(Note) -> bool {
    |n: Note| n.vault_id@ == vault && n.id@ == library_id(vault)
}

/// The identifiers of the library folders of a vault.
pub open spec fn system_ids(notes: Seq<Note>, vault: Seq<char>) -> Seq<Seq<char>>
    decreases notes.len(),
{
    if notes.len() == 0 {
        Seq::empty()
    } else if is_system_folder(notes.last(), vault) {
        system_ids(notes.drop_last(), vault).push(notes.last().id@)
    } else {
        system_ids(notes.drop_last(), vault)
    }
}

/// The identifiers of the library folders of a vault that have to go.
pub open spec fn legacy_ids(notes: Seq<Note>, vault: Seq<char>) -> Seq<Seq<char>> {
    others(system_ids(notes, vault), library_id(vault))
}

/// Whether `r` is a note that was in one of the folders and is in the new one, or one that was in none
/// and is as it was.
pub open spec fn note_moves(
    n: Note,
    r: Note,
    ids: Seq<Seq<char>>,
    new_id: Seq<char>,
    now: Seq<char>,
) -> bool {
    if n.parent_id is Some && holds(ids, n.parent_id->0@) {
        opt_text(r.parent_id) == Some(new_id) && r.updated_at@ == now && r == (Note {
            parent_id: r.parent_id,
            updated_at: r.updated_at,
            ..n
        })
    } else {
        r == n
    }
}

/// Whether all notes that were in the folders are in the new one, and the others are as they were.
pub open spec fn notes_move(
    a: Seq<Note>,
    r: Seq<Note>,
    ids: Seq<Seq<char>>,
    new_id: Seq<char>,
    now: Seq<char>,
) -> bool {
    r.len() == a.len() && forall|i: int|
        0 <= i < a.len() ==> note_moves(a[i], #[trigger] r[i], ids, new_id, now)
}

/// Whether `r` is a file that was in one of the folders and is in the new one, or one that was in none
/// and is as it was.
pub open spec fn file_moves(f: FileItem, r: FileItem, ids: Seq<Seq<char>>, new_id: Seq<char>) -> bool {
    if f.parent_id is Some && holds(ids, f.parent_id->0@) {
        opt_text(r.parent_id) == Some(new_id) && r == (FileItem { parent_id: r.parent_id, ..f })
    } else {
        r == f
    }
}

/// Whether all files that were in the folders are in the new one, and the others are as they were.
pub open spec fn files_move(
    a: Seq<FileItem>,
    r: Seq<FileItem>,
    ids: Seq<Seq<char>>,
    new_id: Seq<char>,
) -> bool {
    r.len() == a.len() && forall|i: int|
        0 <= i < a.len() ==> file_moves(a[i], #[trigger] r[i], ids, new_id)
}

/// Whether a note is a new library folder.
pub open spec fn is_library_folder(n: Note, vault: Seq<char>, now: Seq<char>) -> bool {
    &&& n.is_system == 1
    &&& is_new_note(
        library_id(vault),
        vault,
        "我的图书馆"@,
        ""@,
        None,
        None,
        true,
        now,
        (Note { is_system: 0, ..n }),
    )
}

/// Whether the notes are those that were there, with the library folder of the vault among them: it is
/// put behind where it is missing.
pub open spec fn is_completed(a: Seq<Note>, r: Seq<Note>, vault: Seq<char>, now: Seq<char>) -> bool {
    if first_place(a, library_of(vault), 0) is Some {
        r == a
    } else {
        r.len() == a.len() + 1 && r.drop_last() == a && is_library_folder(r.last(), vault, now)
    }
}

/// Whether a vault has got its one library folder: what was in folders with other identifiers is in it,
/// those folders are gone, it is made where it was missing, and all else is as it was.
pub open spec fn is_ensured(a: NoteStore, r: NoteStore, vault: Seq<char>, now: Seq<char>) -> bool {
    let ids = legacy_ids(a.notes@, vault);
    &&& exists|mid: Seq<Note>| #[trigger]
        notes_move(a.notes@, mid, ids, library_id(vault), now) && is_completed(
            rows_without(mid, legacy_in(vault)),
            r.notes@,
            vault,
            now,
        )
    &&& files_move(a.files@, r.files@, ids, library_id(vault))
    &&& r.links == a.links
    &&& r.versions == a.versions
}

/// Whether the library folder of a vault is there, and no other one.
pub open spec fn has_library(notes: Seq<Note>, vault: Seq<char>) -> bool {
    &&& exists|i: int| 0 <= i < notes.len() && library_of(vault)(#[trigger] notes[i])
    &&& forall|i: int|
        0 <= i < notes.len() && is_system_folder(#[trigger] notes[i], vault) ==> notes[i].id@
            == library_id(vault)
}

/// Whether no two notes have one id, and the identifier of the library folder is kept for it.
pub open spec fn ids_in_order(notes: Seq<Note>, vault: Seq<char>) -> bool {
    &&& forall|i: int, j: int|
        0 <= i < j < notes.len() ==> (#[trigger] notes[i]).id@ != (#[trigger] notes[j]).id@
    &&& forall|i: int|
        0 <= i < notes.len() && (#[trigger] notes[i]).id@ == library_id(vault) ==> is_system_folder(
            notes[i],
            vault,
        )
}

/// Whether exactly one note is a library folder of the vault, and has the fixed identifier.
pub open spec fn one_library(notes: Seq<Note>, vault: Seq<char>) -> bool {
    exists|i: int|
        0 <= i < notes.len() && (#[trigger] notes[i]).id@ == library_id(vault) && is_system_folder(
            notes[i],
            vault,
        ) && forall|j: int|
            0 <= j < notes.len() && is_system_folder(#[trigger] notes[j], vault) ==> j == i
}

fn system_ids_of(notes: &Vec<Note>, vault_id: &str) -> (r: Vec<String>)
    ensures
        texts(r@) == system_ids(notes@, vault_id@),
{
    broadcast use lemma_texts_push;

    let mut out: Vec<String> = Vec::new();
    let mut i: usize = 0;
    assert(texts(out@) =~= Seq::empty());
    while i < notes.len()
        invariant
            i <= notes.len(),
            texts(out@) == system_ids(notes@.take(i as int), vault_id@),
        decreases notes.len() - i,
    {
        assert(notes@.take(i + 1).drop_last() =~= notes@.take(i as int));
        if notes[i].is_system == 1 && notes[i].is_folder == 1 && same(
            notes[i].vault_id.as_str(),
            vault_id,
        ) {
            out.push(notes[i].id.clone());
        }
        i += 1;
    }
    assert(notes@.take(notes@.len() as int) =~= notes@);
    out
}

/// Puts the files of folders that go into the one that stays.
pub fn refile(files: &mut Vec<FileItem>, ids: &Vec<String>, new_id: &str)
    ensures
        files_move(old(files)@, final(files)@, texts(ids@), new_id@),
{
    let ghost start = files@;
    let n: usize = files.len();
    let mut i: usize = 0;
    while i < n
        invariant
            i <= n,
            n == files.len(),
            n == start.len(),
            start == old(files)@,
            forall|k: int|
                0 <= k < i ==> file_moves(start[k], #[trigger] files@[k], texts(ids@), new_id@),
            forall|k: int| i <= k < n ==> #[trigger] files@[k] == start[k],
        decreases n - i,
    {
        let inside = match &files[i].parent_id {
            Some(p) => list_has(ids, p.as_str()),
            None => false,
        };
        if inside {
            files[i].parent_id = Some(new_id.to_owned());
        }
        i += 1;
    }
}

fn rehome(notes: &mut Vec<Note>, ids: &Vec<String>, new_id: &str, now: &str)
    ensures
        notes_move(old(notes)@, final(notes)@, texts(ids@), new_id@, now@),
{
    let ghost start = notes@;
    let n: usize = notes.len();
    let mut i: usize = 0;
    while i < n
        invariant
            i <= n,
            n == notes.len(),
            n == start.len(),
            start == old(notes)@,
            forall|k: int|
                0 <= k < i ==> note_moves(
                    start[k],
                    #[trigger] notes@[k],
                    texts(ids@),
                    new_id@,
                    now@,
                ),
            forall|k: int| i <= k < n ==> #[trigger] notes@[k] == start[k],
        decreases n - i,
    {
        let inside = match &notes[i].parent_id {
            Some(p) => list_has(ids, p.as_str()),
            None => false,
        };
        if inside {
            notes[i].parent_id = Some(new_id.to_owned());
            notes[i].updated_at = now.to_owned();
        }
        i += 1;
    }
}

/// Makes the library folder of a vault where it is missing.
pub fn create_system_library_folder(notes: &mut Vec<Note>, vault_id: &str, now: &str)
    ensures
        is_completed(old(notes)@, final(notes)@, vault_id@, now@),
{
    let id = system_library_folder_id(vault_id);
    let wanted = id.as_str();
    let is = |n: &Note| -> (c: bool)
        ensures
            c == (n.vault_id@ == vault_id@ && n.id@ == wanted@),
        { same(n.vault_id.as_str(), vault_id) && same(n.id.as_str(), wanted) };
    let found = find_row(notes, is, Ghost(library_of(vault_id@)));
    if found.is_none() {
        proof {
            reveal_strlit("");
        }
        let mut folder = create_note(
            wanted,
            vault_id,
            system_library_name(),
            "",
            &None,
            &None,
            true,
            now,
        );
        folder.is_system = 1;
        let ghost before = notes@;
        notes.push(folder);
        assert(notes@.drop_last() =~= before);
    }
}

/// Brings the library folders of a vault together: what is in the folders with the identifiers `ids` goes
/// into the one with the fixed identifier, and all library folders but that one go.
pub fn converge_system_library_folder(
    store: &mut NoteStore,
    vault_id: &str,
    ids: &Vec<String>,
    now: &str,
)
    requires
        texts(ids@) == legacy_ids(old(store).notes@, vault_id@),
    ensures
        is_ensured(*old(store), *final(store), vault_id@, now@),
{
    let id = system_library_folder_id(vault_id);
    let ghost a = *store;
    rehome(&mut store.notes, ids, id.as_str(), now);
    let ghost mid = store.notes@;
    refile(&mut store.files, ids, id.as_str());
    let wanted = id.as_str();
    let goes = |n: &Note| -> (c: bool)
        ensures
            c == (is_system_folder(*n, vault_id@) && n.id@ != wanted@),
        {
            n.is_system == 1 && n.is_folder == 1 && same(n.vault_id.as_str(), vault_id) && !same(
                n.id.as_str(),
                wanted,
            )
        };
    remove_rows(&mut store.notes, goes, Ghost(legacy_in(vault_id@)));
    create_system_library_folder(&mut store.notes, vault_id, now);
    assert(notes_move(a.notes@, mid, texts(ids@), library_id(vault_id@), now@));
}

proof fn lemma_system_ids(notes: Seq<Note>, vault: Seq<char>, x: Seq<char>)
    ensures
        holds(system_ids(notes, vault), x) <==> exists|i: int|
            0 <= i < notes.len() && is_system_folder(#[trigger] notes[i], vault) && notes[i].id@ == x,
    decreases notes.len(),
{
    if notes.len() > 0 {
        let front = notes.drop_last();
        let n = notes.len() - 1;
        let before = system_ids(front, vault);
        let all = system_ids(notes, vault);
        lemma_system_ids(front, vault, x);
        if holds(all, x) {
            let k = choose|k: int| 0 <= k < all.len() && #[trigger] all[k] == x;
            if k < before.len() {
                assert(before[k] == x);
                let i = choose|i: int|
                    0 <= i < front.len() && is_system_folder(#[trigger] front[i], vault)
                        && front[i].id@ == x;
                assert(is_system_folder(notes[i], vault) && notes[i].id@ == x);
            } else {
                assert(is_system_folder(notes[n], vault) && notes[n].id@ == x);
            }
        }
        if exists|i: int|
            0 <= i < notes.len() && is_system_folder(#[trigger] notes[i], vault) && notes[i].id@
                == x {
            let i = choose|i: int|
                0 <= i < notes.len() && is_system_folder(#[trigger] notes[i], vault) && notes[i].id@
                    == x;
            if i < n {
                assert(is_system_folder(front[i], vault) && front[i].id@ == x);
                let k = choose|k: int| 0 <= k < before.len() && #[trigger] before[k] == x;
                assert(all[k] == x);
            } else {
                assert(all[before.len() as int] == x);
            }
        }
    }
}

proof fn lemma_others(ids: Seq<Seq<char>>, id: Seq<char>, x: Seq<char>)
    ensures
        holds(others(ids, id), x) <==> holds(ids, x) && x != id,
    decreases ids.len(),
{
    if ids.len() > 0 {
        let front = ids.drop_last();
        let before = others(front, id);
        let all = others(ids, id);
        lemma_others(front, id, x);
        if holds(all, x) {
            let k = choose|k: int| 0 <= k < all.len() && #[trigger] all[k] == x;
            if k < before.len() {
                assert(before[k] == x);
                let i = choose|i: int| 0 <= i < front.len() && #[trigger] front[i] == x;
                assert(ids[i] == x);
            } else {
                assert(ids[ids.len() - 1] == x);
            }
        }
        if holds(ids, x) && x != id {
            let i = choose|i: int| 0 <= i < ids.len() && #[trigger] ids[i] == x;
            if i < front.len() {
                assert(front[i] == x);
                let k = choose|k: int| 0 <= k < before.len() && #[trigger] before[k] == x;
                assert(all[k] == x);
            } else {
                assert(all[before.len() as int] == x);
            }
        }
    }
}

/// The identifiers that have to go are those of the library folders that have another identifier than the
/// fixed one.
pub proof fn law_legacy_ids(notes: Seq<Note>, vault: Seq<char>, x: Seq<char>)
    ensures
        holds(legacy_ids(notes, vault), x) <==> exists|i: int|
            0 <= i < notes.len() && legacy_in(vault)(#[trigger] notes[i]) && notes[i].id@ == x,
{
    lemma_system_ids(notes, vault, x);
    lemma_others(system_ids(notes, vault), library_id(vault), x);
    if holds(legacy_ids(notes, vault), x) {
        let i = choose|i: int|
            0 <= i < notes.len() && is_system_folder(#[trigger] notes[i], vault) && notes[i].id@
                == x;
        assert(legacy_in(vault)(notes[i]));
    }
    if exists|i: int|
        0 <= i < notes.len() && legacy_in(vault)(#[trigger] notes[i]) && notes[i].id@ == x {
        let i = choose|i: int|
            0 <= i < notes.len() && legacy_in(vault)(#[trigger] notes[i]) && notes[i].id@ == x;
        assert(is_system_folder(notes[i], vault) && notes[i].id@ == x);
    }
}

proof fn lemma_none_goes(notes: Seq<Note>, unwanted: spec_fn(Note) -> bool)
    requires
        forall|i: int| 0 <= i < notes.len() ==> !unwanted(#[trigger] notes[i]),
    ensures
        rows_without(notes, unwanted) == notes,
    decreases notes.len(),
{
    if notes.len() > 0 {
        let front = notes.drop_last();
        assert forall|i: int| 0 <= i < front.len() implies !unwanted(#[trigger] front[i]) by {
            assert(front[i] == notes[i]);
        }
        lemma_none_goes(front, unwanted);
        assert(!unwanted(notes[notes.len() - 1]));
        assert(front.push(notes.last()) =~= notes);
    }
}

/// Where no library folder has another identifier, nothing moves and nothing goes.
proof fn lemma_nothing_to_do(a: NoteStore, vault: Seq<char>, now: Seq<char>)
    requires
        legacy_ids(a.notes@, vault).len() == 0,
    ensures
        notes_move(a.notes@, a.notes@, legacy_ids(a.notes@, vault), library_id(vault), now),
        rows_without(a.notes@, legacy_in(vault)) == a.notes@,
        files_move(a.files@, a.files@, legacy_ids(a.notes@, vault), library_id(vault)),
{
    assert forall|i: int| 0 <= i < a.notes@.len() implies !legacy_in(vault)(
        #[trigger] a.notes@[i],
    ) by {
        law_legacy_ids(a.notes@, vault, a.notes@[i].id@);
    }
    lemma_none_goes(a.notes@, legacy_in(vault));
}

/// Sees to it that a vault has its one library folder, and gives its identifier. Folders of other
/// identifiers give it what is in them and go, and where there is none it is made.
pub fn ensure_library_folder(store: &mut NoteStore, vault_id: &str, now: &str) -> (r: String)
    ensures
        r@ == grouped(folder_digest(vault_id@)),
        is_ensured(*old(store), *final(store), vault_id@, now@),
        has_library(final(store).notes@, vault_id@),
        ids_in_order(old(store).notes@, vault_id@) ==> one_library(final(store).notes@, vault_id@),
        final(store).files@.len() == old(store).files@.len(),
        forall|i: int|
            0 <= i < final(store).files@.len() ==> file_moves(
                old(store).files@[i],
                #[trigger] final(store).files@[i],
                legacy_ids(old(store).notes@, vault_id@),
                r@,
            ),
        forall|i: int|
            0 <= i < old(store).notes@.len() && !legacy_in(vault_id@)(
                #[trigger] old(store).notes@[i],
            ) ==> stays_in(
                old(store).notes@[i],
                final(store).notes@,
                legacy_ids(old(store).notes@, vault_id@),
                r@,
                now@,
            ),
{
    let ghost a = *store;
    let folders = system_ids_of(&store.notes, vault_id);
    match ensure_system_library_folder(vault_id, &folders) {
        LibraryFolder::Converge(ids) => {
            converge_system_library_folder(store, vault_id, &ids, now);
        },
        _ => {
            create_system_library_folder(&mut store.notes, vault_id, now);
            proof {
                lemma_nothing_to_do(a, vault_id@, now@);
                assert(notes_move(
                    a.notes@,
                    a.notes@,
                    legacy_ids(a.notes@, vault_id@),
                    library_id(vault_id@),
                    now@,
                ));
            }
        },
    }
    proof {
        law_library_is_there(a, *store, vault_id@, now@);
        if ids_in_order(a.notes@, vault_id@) {
            law_one_library(a, *store, vault_id@, now@);
        }
        assert forall|i: int|
            0 <= i < a.notes@.len() && !legacy_in(vault_id@)(#[trigger] a.notes@[i]) implies stays_in(
            a.notes@[i],
            store.notes@,
            legacy_ids(a.notes@, vault_id@),
            library_id(vault_id@),
            now@,
        ) by {
            law_nothing_is_left_behind(a, *store, vault_id@, now@, i);
        }
    }
    system_library_folder_id(vault_id)
}

// ---------------------------------------------------------------------------------------------
// Laws
// ---------------------------------------------------------------------------------------------
/// Whether a note is still there, in the new folder where it was in one that had to go.
pub open spec fn stays_in(
    n: Note,
    notes: Seq<Note>,
    ids: Seq<Seq<char>>,
    new_id: Seq<char>,
    now: Seq<char>,
) -> bool {
    exists|j: int| 0 <= j < notes.len() && note_moves(n, #[trigger] notes[j], ids, new_id, now)
}

/// The notes between: those that were there, in their new folders.
spec fn between(a: NoteStore, r: NoteStore, vault: Seq<char>, now: Seq<char>) -> Seq<Note> {
    choose|mid: Seq<Note>| #[trigger]
        notes_move(a.notes@, mid, legacy_ids(a.notes@, vault), library_id(vault), now)
            && is_completed(rows_without(mid, legacy_in(vault)), r.notes@, vault, now)
}

/// Once a vault has got its library folder, it is there, and no other one is.
pub proof fn law_library_is_there(a: NoteStore, r: NoteStore, vault: Seq<char>, now: Seq<char>)
    requires
        is_ensured(a, r, vault, now),
    ensures
        has_library(r.notes@, vault),
{
    let mid = between(a, r, vault, now);
    let kept = rows_without(mid, legacy_in(vault));
    law_rows_without(mid, legacy_in(vault));
    law_first_place(kept, library_of(vault), 0);
    let notes = r.notes@;
    if first_place(kept, library_of(vault), 0) is None {
        let n = notes.len() - 1;
        assert(library_of(vault)(notes[n]));
    } else {
        let k = first_place(kept, library_of(vault), 0)->0;
        assert(library_of(vault)(notes[k]));
    }
    assert forall|i: int|
        0 <= i < notes.len() && is_system_folder(#[trigger] notes[i], vault) implies notes[i].id@
        == library_id(vault) by {
        if i < kept.len() {
            assert(notes[i] == kept[i]) by {
                if first_place(kept, library_of(vault), 0) is None {
                    assert(notes.drop_last()[i] == kept[i]);
                }
            }
            assert(kept.contains(kept[i]));
            assert(!legacy_in(vault)(kept[i]));
        } else {
            assert(notes[i] == notes.last());
        }
    }
}

proof fn lemma_kept_ids(notes: Seq<Note>, unwanted: spec_fn(Note) -> bool)
    requires
        forall|i: int, j: int|
            0 <= i < j < notes.len() ==> (#[trigger] notes[i]).id@ != (#[trigger] notes[j]).id@,
    ensures
        forall|i: int, j: int|
            0 <= i < j < rows_without(notes, unwanted).len() ==> (#[trigger] rows_without(
                notes,
                unwanted,
            )[i]).id@ != (#[trigger] rows_without(notes, unwanted)[j]).id@,
    decreases notes.len(),
{
    if notes.len() > 0 {
        let front = notes.drop_last();
        let n = notes.len() - 1;
        assert forall|i: int, j: int| 0 <= i < j < front.len() implies (#[trigger] front[i]).id@ != (
        #[trigger] front[j]).id@ by {
            assert(notes[i].id@ != notes[j].id@);
        }
        lemma_kept_ids(front, unwanted);
        law_rows_without(front, unwanted);
        let kept = rows_without(front, unwanted);
        assert forall|i: int| 0 <= i < kept.len() implies (#[trigger] kept[i]).id@ != notes[n].id@ by {
            assert(kept.contains(kept[i]));
            let k = choose|k: int| 0 <= k < front.len() && front[k] == kept[i];
            assert(notes[k].id@ != notes[n].id@);
        }
    }
}

/// Once a vault has got its library folder, exactly one note is a library folder of the vault, and it has
/// the fixed identifier.
pub proof fn law_one_library(a: NoteStore, r: NoteStore, vault: Seq<char>, now: Seq<char>)
    requires
        is_ensured(a, r, vault, now),
        ids_in_order(a.notes@, vault),
    ensures
        one_library(r.notes@, vault),
{
    law_library_is_there(a, r, vault, now);
    let mid = between(a, r, vault, now);
    let kept = rows_without(mid, legacy_in(vault));
    let notes = r.notes@;
    law_rows_without(mid, legacy_in(vault));
    law_first_place(kept, library_of(vault), 0);
    assert forall|i: int, j: int| 0 <= i < j < mid.len() implies (#[trigger] mid[i]).id@ != (
    #[trigger] mid[j]).id@ by {
        assert(a.notes@[i].id@ != a.notes@[j].id@);
        assert(mid[i].id == a.notes@[i].id && mid[j].id == a.notes@[j].id);
    }
    lemma_kept_ids(mid, legacy_in(vault));
    let found = first_place(kept, library_of(vault), 0);
    let i = match found {
        Some(k) => k,
        None => kept.len() as int,
    };
    assert(library_of(vault)(notes[i]) && is_system_folder(notes[i], vault)) by {
        if found is Some {
            assert(kept.contains(kept[i]));
            let m = choose|m: int| 0 <= m < mid.len() && mid[m] == kept[i];
            assert(note_moves(
                a.notes@[m],
                mid[m],
                legacy_ids(a.notes@, vault),
                library_id(vault),
                now,
            ));
            assert(a.notes@[m].id@ == library_id(vault));
        } else {
            assert(notes[i] == notes.last());
        }
    }
    assert forall|j: int|
        0 <= j < notes.len() && is_system_folder(#[trigger] notes[j], vault) implies j == i by {
        assert(notes[j].id@ == library_id(vault));
        if found is Some {
            if j < i {
                assert(kept[j].id@ != kept[i].id@);
            } else if i < j {
                assert(kept[i].id@ != kept[j].id@);
            }
        } else if j < kept.len() {
            assert(notes.drop_last()[j] == kept[j]);
            assert(library_of(vault)(kept[j]));
        }
    }
}

/// Once a vault has got its library folder, every other note is still there, and what was in a folder that
/// had to go is in the library folder.
pub proof fn law_nothing_is_left_behind(
    a: NoteStore,
    r: NoteStore,
    vault: Seq<char>,
    now: Seq<char>,
    i: int,
)
    requires
        is_ensured(a, r, vault, now),
        0 <= i < a.notes@.len(),
        !legacy_in(vault)(a.notes@[i]),
    ensures
        stays_in(a.notes@[i], r.notes@, legacy_ids(a.notes@, vault), library_id(vault), now),
{
    let mid = between(a, r, vault, now);
    let kept = rows_without(mid, legacy_in(vault));
    law_rows_without(mid, legacy_in(vault));
    assert(note_moves(a.notes@[i], mid[i], legacy_ids(a.notes@, vault), library_id(vault), now));
    assert(!legacy_in(vault)(mid[i]));
    assert(mid.contains(mid[i]));
    assert(kept.contains(mid[i]));
    let k = choose|k: int| 0 <= k < kept.len() && kept[k] == mid[i];
    assert(r.notes@[k] == kept[k]) by {
        if first_place(kept, library_of(vault), 0) is None {
            assert(r.notes@.drop_last()[k] == kept[k]);
        }
    }
}

/// Seeing to the library folder again changes nothing.
pub proof fn law_library_is_ensured_once(
    a: NoteStore,
    b: NoteStore,
    c: NoteStore,
    vault: Seq<char>,
    now: Seq<char>,
    later: Seq<char>,
)
    requires
        is_ensured(a, b, vault, now),
        is_ensured(b, c, vault, later),
    ensures
        c.notes@ == b.notes@,
        c.files@ == b.files@,
        c.links == b.links,
        c.versions == b.versions,
{
    law_library_is_there(a, b, vault, now);
    let ids = legacy_ids(b.notes@, vault);
    assert forall|x: Seq<char>| !holds(ids, x) by {
        law_legacy_ids(b.notes@, vault, x);
    }
    let mid = between(b, c, vault, later);
    assert(mid =~= b.notes@) by {
        assert forall|i: int| 0 <= i < mid.len() implies mid[i] == b.notes@[i] by {
            assert(note_moves(b.notes@[i], mid[i], ids, library_id(vault), later));
        }
    }
    lemma_none_goes(b.notes@, legacy_in(vault));
    law_first_place(b.notes@, library_of(vault), 0);
    assert(c.files@ =~= b.files@);
}

/// Seeing to the library folder of one vault leaves that of another as it is.
pub proof fn law_other_libraries_stay(
    a: NoteStore,
    r: NoteStore,
    vault: Seq<char>,
    other: Seq<char>,
    now: Seq<char>,
)
    requires
        is_ensured(a, r, vault, now),
        has_library(a.notes@, other),
        other != vault,
    ensures
        has_library(r.notes@, other),
{
    let mid = between(a, r, vault, now);
    let ids = legacy_ids(a.notes@, vault);
    let kept = rows_without(mid, legacy_in(vault));
    law_rows_without(mid, legacy_in(vault));
    let i = choose|i: int| 0 <= i < a.notes@.len() && library_of(other)(#[trigger] a.notes@[i]);
    law_nothing_is_left_behind(a, r, vault, now, i);
    let j = choose|j: int|
        0 <= j < r.notes@.len() && note_moves(
            a.notes@[i],
            #[trigger] r.notes@[j],
            ids,
            library_id(vault),
            now,
        );
    assert(library_of(other)(r.notes@[j]));
    assert forall|k: int|
        0 <= k < r.notes@.len() && is_system_folder(#[trigger] r.notes@[k], other) implies r.notes@[k].id@
        == library_id(other) by {
        if k < kept.len() {
            assert(r.notes@[k] == kept[k]) by {
                if first_place(kept, library_of(vault), 0) is None {
                    assert(r.notes@.drop_last()[k] == kept[k]);
                }
            }
            assert(kept.contains(kept[k]));
            let m = choose|m: int| 0 <= m < mid.len() && mid[m] == kept[k];
            assert(note_moves(a.notes@[m], mid[m], ids, library_id(vault), now));
            assert(is_system_folder(a.notes@[m], other));
        } else {
            assert(r.notes@[k] == r.notes@.last());
        }
    }
}

} // verus!
