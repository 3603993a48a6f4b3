//! Changes of collections, and of the folders of notes that mirror them.
use vstd::prelude::*;
use vstd::string::*;

use crate::collection_service::{
    check_parent, deletion_order, get_collection, is_deletion, with_id,
};
use crate::library_folder::{
    ensure_library_folder, has_library, is_ensured, is_system_folder, law_other_libraries_stay,
    library_id, library_of,
};
use crate::models::{Collection, Note};
use crate::note_service::system_library_folder_id;
use crate::note_store::NoteStore;
use crate::paper_rows::Link;
use crate::table::{find_row, first_place, law_rows_without, remove_rows, rows_without};
use crate::text::{copy_opt, holds, lemma_texts_push, list_has, opt_text, same, texts};

verus! {

/// Whether a note is a folder that mirrors a collection.
pub open spec fn mirrors(collection: Seq<char>) -> spec_fn(Note) -> bool {
    |n: Note| n.is_folder == 1 && opt_text(n.source_collection_id) == Some(collection)
}

fn is_mirror(n: &Note, collection: &str) -> (r: bool)
    ensures
        r == mirrors(collection@)(*n),
{
    n.is_folder == 1 && match &n.source_collection_id {
        Some(c) => same(c.as_str(), collection),
        None => false,
    }
}

/// What a caller wants to change about a collection: its name, and the collection above it, which may
/// be none.
pub struct CollectionEdit {
    pub name: Option<String>,
    pub parent_id: Option<Option<String>>,
}

/// Whether a collection would become its own parent.
pub open spec fn own_parent(e: CollectionEdit, id: Seq<char>) -> bool {
    e.parent_id is Some && opt_text(e.parent_id->0) == Some(id)
}

/// Whether `r` is a collection that was edited. One that would become its own parent stays where it is.
pub open spec fn is_edited(c: Collection, e: CollectionEdit, id: Seq<char>, r: Collection) -> bool {
    if c.id@ != id {
        r == c
    } else {
        &&& r.name@ == (match e.name {
            Some(n) => n@,
            None => c.name@,
        })
        &&& opt_text(r.parent_id) == (if e.parent_id is Some && !own_parent(e, id) {
            opt_text(e.parent_id->0)
        } else {
            opt_text(c.parent_id)
        })
        &&& r == (Collection { name: r.name, parent_id: r.parent_id, ..c })
    }
}

/// The folder into which the folder of a moved collection goes: that of the collection above, else the
/// library folder of the vault.
pub open spec fn new_folder(notes: Seq<Note>, parent: Option<Seq<char>>, vault: Seq<char>) -> Seq<char> {
    match (if parent is Some {
        first_place(notes, mirrors(parent->0), 0)
    } else {
        None
    }) {
        Some(k) => notes[k].id@,
        None => library_id(vault),
    }
}

/// Whether `r` is a note that follows the edit of a collection: a folder that mirrors it gets its name
/// and goes where it went, and any other note is as it was.
pub open spec fn follows(
    notes: Seq<Note>,
    n: Note,
    e: CollectionEdit,
    id: Seq<char>,
    now: Seq<char>,
    r: Note,
) -> bool {
    let moves = e.parent_id is Some && !own_parent(e, id);
    if !mirrors(id)(n) {
        r == n
    } else {
        &&& r.title@ == (match e.name {
            Some(t) => t@,
            None => n.title@,
        })
        &&& opt_text(r.parent_id) == (if moves {
            Some(new_folder(notes, opt_text(e.parent_id->0), n.vault_id@))
        } else {
            opt_text(n.parent_id)
        })
        &&& r.updated_at@ == (if e.name is Some || moves {
            now
        } else {
            n.updated_at@
        })
        &&& r == (Note {
            title: r.title,
            parent_id: r.parent_id,
            updated_at: r.updated_at,
            ..n
        })
    }
}

fn parent_folder(notes: &Vec<Note>, parent: &Option<String>) -> (r: Option<String>)
    ensures
        match r {
            Some(f) => parent is Some && first_place(notes@, mirrors(parent->0@), 0) is Some && f@
                == notes@[first_place(notes@, mirrors(parent->0@), 0)->0].id@,
            None => parent is None || first_place(notes@, mirrors(parent->0@), 0) is None,
        },
{
    match parent {
        Some(p) => {
            let wanted = p.as_str();
            let is = |n: &Note| -> (c: bool)
                ensures
                    c == mirrors(wanted@)(*n),
                { is_mirror(n, wanted) };
            match find_row(notes, is, Ghost(mirrors(wanted@))) {
                Some(k) => Some(notes[k].id.clone()),
                None => None,
            }
        },
        None => None,
    }
}

/// Whether the folders of a moved collection go into library folders: the collection above has none of
/// its own, or there is none above.
pub open spec fn goes_to_library(notes: Seq<Note>, e: CollectionEdit, id: Seq<char>) -> bool {
    e.parent_id is Some && !own_parent(e, id) && (e.parent_id->0 is None || first_place(
        notes,
        mirrors(e.parent_id->0->0@),
        0,
    ) is None)
}

/// The vaults of the folders that mirror a collection.
pub open spec fn mirror_vaults(notes: Seq<Note>, id: Seq<char>) -> Seq<Seq<char>>
    decreases notes.len(),
{
    if notes.len() == 0 {
        Seq::empty()
    } else if mirrors(id)(notes.last()) {
        mirror_vaults(notes.drop_last(), id).push(notes.last().vault_id@)
    } else {
        mirror_vaults(notes.drop_last(), id)
    }
}

/// Whether each of the vaults in turn has got its library folder.
pub open spec fn all_ensured(
    a: NoteStore,
    steps: Seq<NoteStore>,
    vaults: Seq<Seq<char>>,
    now: Seq<char>,
) -> bool {
    &&& steps.len() == vaults.len() + 1
    &&& steps[0] == a
    &&& forall|k: int|
        0 <= k < vaults.len() ==> is_ensured(steps[k], steps[k + 1], #[trigger] vaults[k], now)
}

/// The vaults whose library folders an edit of a collection needs.
pub open spec fn needed_vaults(notes: Seq<Note>, e: CollectionEdit, id: Seq<char>) -> Seq<Seq<char>> {
    if goes_to_library(notes, e, id) {
        mirror_vaults(notes, id)
    } else {
        Seq::empty()
    }
}

/// Whether the folders that mirror a collection have followed its edit, once the library folders that they
/// need are there.
pub open spec fn is_followed(
    a: NoteStore,
    steps: Seq<NoteStore>,
    r: NoteStore,
    e: CollectionEdit,
    id: Seq<char>,
    now: Seq<char>,
) -> bool {
    &&& all_ensured(a, steps, needed_vaults(a.notes@, e, id), now)
    &&& r.notes@.len() == steps.last().notes@.len()
    &&& forall|i: int|
        0 <= i < r.notes@.len() ==> follows(
            a.notes@,
            steps.last().notes@[i],
            e,
            id,
            now,
            #[trigger] r.notes@[i],
        )
    &&& r.files == steps.last().files
    &&& r.links == steps.last().links
    &&& r.versions == steps.last().versions
}

fn vaults_of(notes: &Vec<Note>, id: &str) -> (r: Vec<String>)
    ensures
        texts(r@) == mirror_vaults(notes@, id@),
{
    broadcast use lemma_texts_push;

    let mut out: Vec<String> = Vec::new();
    let mut i: usize = 0;
    assert(texts(out@) =~= Seq::empty());
    while i < notes.len()
        invariant
            i <= notes.len(),
            texts(out@) == mirror_vaults(notes@.take(i as int), id@),
        decreases notes.len() - i,
    {
        assert(notes@.take(i + 1).drop_last() =~= notes@.take(i as int));
        if is_mirror(&notes[i], id) {
            out.push(notes[i].vault_id.clone());
        }
        i += 1;
    }
    assert(notes@.take(notes@.len() as int) =~= notes@);
    out
}

/// Sees to the library folders of the vaults.
fn ensure_all(store: &mut NoteStore, vaults: &Vec<String>, now: &str)
    ensures
        exists|steps: Seq<NoteStore>| #[trigger]
            all_ensured(*old(store), steps, texts(vaults@), now@) && steps.last() == *final(store),
        forall|k: int|
            0 <= k < vaults@.len() ==> has_library(final(store).notes@, #[trigger] texts(vaults@)[k]),
{
    let ghost a = *store;
    let ghost mut steps: Seq<NoteStore> = seq![a];
    let ghost all = texts(vaults@);
    let mut i: usize = 0;
    while i < vaults.len()
        invariant
            i <= vaults.len(),
            all == texts(vaults@),
            a == *old(store),
            all_ensured(a, steps, all.take(i as int), now@),
            steps.last() == *store,
            forall|k: int| 0 <= k < i ==> has_library(store.notes@, #[trigger] all[k]),
        decreases vaults.len() - i,
    {
        let ghost before = *store;
        let ghost was = steps;
        let _ = ensure_library_folder(store, vaults[i].as_str(), now);
        proof {
            steps = was.push(*store);
            let next = all.take(i + 1);
            assert(next[i as int] == vaults@[i as int]@);
            assert forall|k: int| 0 <= k < next.len() implies is_ensured(
                steps[k],
                steps[k + 1],
                #[trigger] next[k],
                now@,
            ) by {
                if k < i {
                    assert(all.take(i as int)[k] == next[k]);
                }
            }
            assert forall|k: int| 0 <= k < i + 1 implies has_library(
                store.notes@,
                #[trigger] all[k],
            ) by {
                if k < i && all[k] != all[i as int] {
                    law_other_libraries_stay(before, *store, all[i as int], all[k], now@);
                }
            }
        }
        i += 1;
    }
    assert(all.take(all.len() as int) =~= all);
    assert(all_ensured(a, steps, all, now@));
}

proof fn lemma_library_stays(
    a: Seq<Note>,
    r: Seq<Note>,
    first: Seq<Note>,
    e: CollectionEdit,
    id: Seq<char>,
    now: Seq<char>,
    vault: Seq<char>,
)
    requires
        has_library(a, vault),
        a.len() == r.len(),
        forall|i: int| 0 <= i < r.len() ==> follows(first, a[i], e, id, now, #[trigger] r[i]),
    ensures
        has_library(r, vault),
{
    let i = choose|i: int| 0 <= i < a.len() && library_of(vault)(#[trigger] a[i]);
    assert(follows(first, a[i], e, id, now, r[i]));
    assert(library_of(vault)(r[i]));
    assert forall|k: int| 0 <= k < r.len() && is_system_folder(#[trigger] r[k], vault) implies r[k].id@
        == library_id(vault) by {
        assert(is_system_folder(a[k], vault));
    }
}

/// Changes a collection and the folders that mirror it, and gives its place. A new name is kept even
/// where the collection would become its own parent, which is refused. A folder that goes into a library
/// folder finds it there.
pub fn update_collection(
    collections: &mut Vec<Collection>,
    store: &mut NoteStore,
    id: &str,
    e: &CollectionEdit,
    now: &str,
) -> (r: Result<usize, String>)
    ensures
        final(collections)@.len() == old(collections)@.len(),
        forall|i: int|
            0 <= i < final(collections)@.len() ==> is_edited(
                old(collections)@[i],
                *e,
                id@,
                #[trigger] final(collections)@[i],
            ),
        exists|steps: Seq<NoteStore>| #[trigger]
            is_followed(*old(store), steps, *final(store), *e, id@, now@),
        forall|k: int|
            0 <= k < needed_vaults(old(store).notes@, *e, id@).len() ==> has_library(
                final(store).notes@,
                #[trigger] needed_vaults(old(store).notes@, *e, id@)[k],
            ),
        match r {
            Ok(k) => !own_parent(*e, id@) && first_place(final(collections)@, with_id(id@), 0)
                == Some(k as int),
            Err(m) => if own_parent(*e, id@) {
                m@ == "collection cannot be its own parent"@
            } else {
                first_place(final(collections)@, with_id(id@), 0) is None && m@
                    == "collection not found: "@ + id@
            },
        },
{
    let ghost a = *store;
    let allowed = match &e.parent_id {
        Some(p) => check_parent(id, p),
        None => Ok(()),
    };
    let target: Option<Option<String>> = match (&e.parent_id, &allowed) {
        (Some(p), Ok(_)) => Some(parent_folder(&store.notes, p)),
        _ => None,
    };
    let ghost start = collections@;
    let n: usize = collections.len();
    let mut i: usize = 0;
    while i < n
        invariant
            i <= n,
            n == collections.len(),
            n == start.len(),
            start == old(collections)@,
            (allowed is Ok) == !own_parent(*e, id@),
            forall|k: int|
                0 <= k < i ==> is_edited(start[k], *e, id@, #[trigger] collections@[k]),
            forall|k: int| i <= k < n ==> #[trigger] collections@[k] == start[k],
        decreases n - i,
    {
        if same(collections[i].id.as_str(), id) {
            if let Some(t) = &e.name {
                collections[i].name = t.clone();
            }
            if let Some(p) = &e.parent_id {
                if allowed.is_ok() {
                    collections[i].parent_id = copy_opt(p);
                }
            }
        }
        i += 1;
    }
    let library = match &target {
        Some(None) => true,
        _ => false,
    };
    let vaults = if library {
        vaults_of(&store.notes, id)
    } else {
        let none: Vec<String> = Vec::new();
        assert(texts(none@) =~= Seq::empty());
        none
    };
    ensure_all(store, &vaults, now);
    let ghost ready = *store;
    let ghost first = a.notes@;
    let ghost needed = needed_vaults(first, *e, id@);
    assert(texts(vaults@) == needed);
    let ghost before = store.notes@;
    let m: usize = store.notes.len();
    let mut j: usize = 0;
    while j < m
        invariant
            j <= m,
            m == store.notes.len(),
            m == before.len(),
            first == old(store).notes@,
            *store == (NoteStore { notes: store.notes, ..ready }),
            target is Some == (e.parent_id is Some && !own_parent(*e, id@)),
            target is Some ==> match target->0 {
                Some(f) => e.parent_id->0 is Some && first_place(
                    first,
                    mirrors(e.parent_id->0->0@),
                    0,
                ) is Some && f@ == first[first_place(
                    first,
                    mirrors(e.parent_id->0->0@),
                    0,
                )->0].id@,
                None => e.parent_id->0 is None || first_place(
                    first,
                    mirrors(e.parent_id->0->0@),
                    0,
                ) is None,
            },
            forall|k: int|
                0 <= k < j ==> follows(first, before[k], *e, id@, now@, #[trigger] store.notes@[k]),
            forall|k: int| j <= k < m ==> #[trigger] store.notes@[k] == before[k],
        decreases m - j,
    {
        if is_mirror(&store.notes[j], id) {
            if let Some(t) = &e.name {
                store.notes[j].title = t.clone();
                store.notes[j].updated_at = now.to_owned();
            }
            if let Some(t) = &target {
                let folder = match t {
                    Some(f) => f.clone(),
                    None => system_library_folder_id(store.notes[j].vault_id.as_str()),
                };
                store.notes[j].parent_id = Some(folder);
                store.notes[j].updated_at = now.to_owned();
            }
        }
        j += 1;
    }
    proof {
        let steps = choose|steps: Seq<NoteStore>| #[trigger]
            all_ensured(a, steps, needed, now@) && steps.last() == ready;
        assert(is_followed(a, steps, *store, *e, id@, now@));
        assert forall|k: int| 0 <= k < needed.len() implies has_library(
            store.notes@,
            #[trigger] needed[k],
        ) by {
            assert(has_library(ready.notes@, texts(vaults@)[k]));
            lemma_library_stays(ready.notes@, store.notes@, first, *e, id@, now@, needed[k]);
        }
    }
    match allowed {
        Ok(_) => get_collection(collections, id),
        Err(e) => Err(e),
    }
}

// ---------------------------------------------------------------------------------------------
// Deletion
// ---------------------------------------------------------------------------------------------
/// Whether a collection is one of those with the given ids.
pub open spec fn among(ids: Seq<Seq<char>>) -> spec_fn(Collection) -> bool {
    |c: Collection| holds(ids, c.id@)
}

/// Whether a link leads to one of the collections with the given ids.
pub open spec fn leads_to(ids: Seq<Seq<char>>) -> spec_fn(Link) -> bool {
    |l: Link| holds(ids, l.other_id@)
}

/// Whether `r` is a note that mirrors none of the collections that went, and else as it was.
pub open spec fn is_freed(n: Note, ids: Seq<Seq<char>>, now: Seq<char>, r: Note) -> bool {
    if n.source_collection_id is Some && holds(ids, n.source_collection_id->0@) {
        r.updated_at@ == now && r == (Note {
            source_collection_id: None,
            updated_at: r.updated_at,
            ..n
        })
    } else {
        r == n
    }
}

/// Whether collections are gone, with the links to them, and their folders mirror nothing any more.
pub open spec fn are_gone(
    collections: Seq<Collection>,
    links: Seq<Link>,
    notes: Seq<Note>,
    ids: Seq<Seq<char>>,
    now: Seq<char>,
    new_collections: Seq<Collection>,
    new_links: Seq<Link>,
    new_notes: Seq<Note>,
) -> bool {
    &&& new_collections == rows_without(collections, among(ids))
    &&& new_links == rows_without(links, leads_to(ids))
    &&& new_notes.len() == notes.len()
    &&& forall|i: int|
        0 <= i < notes.len() ==> is_freed(notes[i], ids, now, #[trigger] new_notes[i])
}

/// Deletes a collection and all below it. Papers stay, and so do the folders of notes.
pub fn delete_collection(
    collections: &mut Vec<Collection>,
    links: &mut Vec<Link>,
    notes: &mut Vec<Note>,
    id: &str,
    now: &str,
)
    ensures
        exists|ids: Seq<Seq<char>>| #[trigger]
            is_deletion(old(collections)@, id@, ids) && are_gone(
                old(collections)@,
                old(links)@,
                old(notes)@,
                ids,
                now@,
                final(collections)@,
                final(links)@,
                final(notes)@,
            ),
{
    let ids = deletion_order(collections, id);
    let goes = |c: &Collection| -> (b: bool)
        ensures
            b == holds(texts(ids@), c.id@),
        { list_has(&ids, c.id.as_str()) };
    remove_rows(collections, goes, Ghost(among(texts(ids@))));
    let link_goes = |l: &Link| -> (b: bool)
        ensures
            b == holds(texts(ids@), l.other_id@),
        { list_has(&ids, l.other_id.as_str()) };
    remove_rows(links, link_goes, Ghost(leads_to(texts(ids@))));
    let ghost before = notes@;
    let n: usize = notes.len();
    let mut i: usize = 0;
    while i < n
        invariant
            i <= n,
            n == notes.len(),
            n == before.len(),
            before == old(notes)@,
            forall|k: int|
                0 <= k < i ==> is_freed(before[k], texts(ids@), now@, #[trigger] notes@[k]),
            forall|k: int| i <= k < n ==> #[trigger] notes@[k] == before[k],
        decreases n - i,
    {
        let freed = match &notes[i].source_collection_id {
            Some(c) => list_has(&ids, c.as_str()),
            None => false,
        };
        if freed {
            notes[i].source_collection_id = None;
            notes[i].updated_at = now.to_owned();
        }
        i += 1;
    }
    assert(is_deletion(old(collections)@, id@, texts(ids@)));
}

/// Once a collection is deleted, no paper is linked to it or to one below it, and no note mirrors one
/// of them; every other link is still there.
pub proof fn law_collection_leaves_nothing(
    collections: Seq<Collection>,
    links: Seq<Link>,
    notes: Seq<Note>,
    ids: Seq<Seq<char>>,
    now: Seq<char>,
    new_collections: Seq<Collection>,
    new_links: Seq<Link>,
    new_notes: Seq<Note>,
)
    requires
        are_gone(
            collections,
            links,
            notes,
            ids,
            now,
            new_collections,
            new_links,
            new_notes,
        ),
    ensures
        forall|l: Link|
            #[trigger] new_links.contains(l) <==> links.contains(l) && !holds(ids, l.other_id@),
        forall|i: int|
            0 <= i < new_notes.len() ==> match (#[trigger] new_notes[i]).source_collection_id {
                Some(c) => !holds(ids, c@),
                None => true,
            },
{
    law_rows_without(links, leads_to(ids));
    assert forall|l: Link|
        #[trigger] new_links.contains(l) <==> links.contains(l) && !holds(ids, l.other_id@) by {
        assert(new_links.contains(l) <==> links.contains(l) && !leads_to(ids)(l));
    }
    assert forall|i: int| 0 <= i < new_notes.len() implies match (
    #[trigger] new_notes[i]).source_collection_id {
        Some(c) => !holds(ids, c@),
        None => true,
    } by {
        assert(is_freed(notes[i], ids, now, new_notes[i]));
    }
}

} // verus!
