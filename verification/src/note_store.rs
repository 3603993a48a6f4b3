//! Notes with what belongs to them: their links, their versions and the files in their folders.
use vstd::prelude::*;
use vstd::string::*;

use crate::collection_service::{as_places, collection_chain};
use crate::library_folder::{
    ensure_library_folder, has_library, is_ensured, is_system_folder, law_library_is_there,
    library_id, library_of,
};
use crate::models::{Collection, FileItem, Note, NoteVersion};
use crate::note_rows::{
    ensure_folders, first_collection, folder_chain, folders_made, folders_ready, get_note, lemma_chain_is_short,
    with_id,
};
use crate::note_service::{
    check_deletable, check_mergeable, check_movable, create_note, excerpt_content, is_edited,
    is_new_note, links_added, links_of_others, parse_wiki_links, stored_links, update_note,
    update_note_links, wiki_links, NoteEdit, StoredLink, StoredLinkModel, TitledNote,
};
use crate::paper_rows::{link_models, Link, LinkModel};
use crate::table::{
    find_row, first_place, law_rows_without, lemma_push_contains, remove_rows, rows_without,
};
use crate::text::{copy_opt, holds, list_has, opt_text, same, texts, trim};
use crate::tree::{is_child, is_subtree, subtree, TreeRow};

verus! {

/// Notes with what belongs to them.
pub struct NoteStore {
    pub notes: Vec<Note>,
    pub links: Vec<StoredLink>,
    pub versions: Vec<NoteVersion>,
    pub files: Vec<FileItem>,
}

// ---------------------------------------------------------------------------------------------
// Deletion
// ---------------------------------------------------------------------------------------------
/// Whether a note is one of those with the given ids.
pub open spec fn note_among(ids: Seq<Seq<char>>) -> spec_fn(Note) -> bool {
    |n: Note| holds(ids, n.id@)
}

/// Whether a link leads from or to one of the notes with the given ids.
pub open spec fn link_among(ids: Seq<Seq<char>>) -> spec_fn(StoredLink) -> bool {
    |l: StoredLink| holds(ids, l.source_id@) || holds(ids, l.target_id@)
}

/// Whether a version is of one of the notes with the given ids.
pub open spec fn version_among(ids: Seq<Seq<char>>) -> spec_fn(NoteVersion) -> bool {
    |v: NoteVersion| holds(ids, v.note_id@)
}

/// Whether a file is in one of the folders with the given ids.
pub open spec fn file_among(ids: Seq<Seq<char>>) -> spec_fn(FileItem) -> bool {
    |f: FileItem|
        match f.parent_id {
            Some(p) => holds(ids, p@),
            None => false,
        }
}

/// Whether the notes with the given ids are gone with all that belonged to them, and all else is as
/// it was.
pub open spec fn is_without(a: NoteStore, r: NoteStore, ids: Seq<Seq<char>>) -> bool {
    &&& r.notes@ == rows_without(a.notes@, note_among(ids))
    &&& r.links@ == rows_without(a.links@, link_among(ids))
    &&& r.versions@ == rows_without(a.versions@, version_among(ids))
    &&& r.files@ == rows_without(a.files@, file_among(ids))
}

fn remove_notes(store: &mut NoteStore, ids: &Vec<String>)
    ensures
        is_without(*old(store), *final(store), texts(ids@)),
{
    let note_goes = |n: &Note| -> (c: bool)
        ensures
            c == holds(texts(ids@), n.id@),
        { list_has(ids, n.id.as_str()) };
    remove_rows(&mut store.notes, note_goes, Ghost(note_among(texts(ids@))));
    let link_goes = |l: &StoredLink| -> (c: bool)
        ensures
            c == (holds(texts(ids@), l.source_id@) || holds(texts(ids@), l.target_id@)),
        { list_has(ids, l.source_id.as_str()) || list_has(ids, l.target_id.as_str()) };
    remove_rows(&mut store.links, link_goes, Ghost(link_among(texts(ids@))));
    let version_goes = |v: &NoteVersion| -> (c: bool)
        ensures
            c == holds(texts(ids@), v.note_id@),
        { list_has(ids, v.note_id.as_str()) };
    remove_rows(&mut store.versions, version_goes, Ghost(version_among(texts(ids@))));
    let file_goes = |f: &FileItem| -> (c: bool)
        ensures
            c == (match f.parent_id {
                Some(p) => holds(texts(ids@), p@),
                None => false,
            }),
        {
            match &f.parent_id {
                Some(p) => list_has(ids, p.as_str()),
                None => false,
            }
        };
    remove_rows(&mut store.files, file_goes, Ghost(file_among(texts(ids@))));
}

/// Whether rows are the tree that notes form.
pub open spec fn is_note_tree(rows: Seq<TreeRow>, notes: Seq<Note>) -> bool {
    rows.len() == notes.len() && forall|i: int|
        0 <= i < rows.len() ==> (#[trigger] rows[i]).id@ == notes[i].id@ && opt_text(
            rows[i].parent_id,
        ) == opt_text(notes[i].parent_id)
}

fn tree_of(notes: &Vec<Note>) -> (r: Vec<TreeRow>)
    ensures
        is_note_tree(r@, notes@),
{
    let mut rows: Vec<TreeRow> = Vec::new();
    let mut i: usize = 0;
    while i < notes.len()
        invariant
            i <= notes.len(),
            rows.len() == i,
            forall|j: int|
                0 <= j < i ==> (#[trigger] rows@[j]).id@ == notes@[j].id@ && opt_text(
                    rows@[j].parent_id,
                ) == opt_text(notes@[j].parent_id),
        decreases notes.len() - i,
    {
        rows.push(
            TreeRow { id: notes[i].id.clone(), parent_id: copy_opt(&notes[i].parent_id) },
        );
        i += 1;
    }
    rows
}

/// Whether a list holds the id of a note and of all notes below it, each once.
pub open spec fn is_below(notes: Seq<Note>, id: Seq<char>, ids: Seq<Seq<char>>) -> bool {
    exists|rows: Seq<TreeRow>| #[trigger] is_note_tree(rows, notes) && is_subtree(rows, id, ids)
}

/// Whether a note is gone with all notes below it and all that belonged to them.
pub open spec fn is_deleted(a: NoteStore, r: NoteStore, id: Seq<char>) -> bool {
    exists|ids: Seq<Seq<char>>| #[trigger] is_below(a.notes@, id, ids) && is_without(a, r, ids)
}

/// Whether the note of an id is the library folder.
pub open spec fn is_system_note(notes: Seq<Note>, id: Seq<char>) -> bool {
    match first_place(notes, with_id(id), 0) {
        Some(k) => notes[k].is_system == 1,
        None => false,
    }
}

/// Deletes a note with all notes below it and all that belongs to them. The library folder stays.
pub fn delete_note(store: &mut NoteStore, id: &str) -> (r: Result<(), String>)
    ensures
        match r {
            Ok(_) => !is_system_note(old(store).notes@, id@) && is_deleted(
                *old(store),
                *final(store),
                id@,
            ),
            Err(e) => is_system_note(old(store).notes@, id@) && *final(store) == *old(store) && e@
                == "不能删除系统目录「我的图书馆」"@,
        },
{
    let is_system = match get_note(&store.notes, id) {
        Ok(k) => Some(store.notes[k].is_system),
        Err(_) => None,
    };
    match check_deletable(is_system) {
        Ok(_) => {},
        Err(e) => {
            return Err(e);
        },
    }
    let rows = tree_of(&store.notes);
    let ids = subtree(&rows, id);
    assert(is_note_tree(rows@, store.notes@));
    assert(is_below(store.notes@, id@, texts(ids@)));
    remove_notes(store, &ids);
    Ok(())
}

/// Once a note is deleted, no note is left that stood below one that went, and no link that led from
/// or to one.
pub proof fn law_whole_subtree_goes(a: NoteStore, r: NoteStore, id: Seq<char>, ids: Seq<Seq<char>>)
    requires
        is_below(a.notes@, id, ids),
        is_without(a, r, ids),
    ensures
        holds(ids, id),
        forall|n: Note|
            #[trigger] r.notes@.contains(n) ==> !holds(ids, n.id@) && (match n.parent_id {
                Some(p) => !holds(ids, p@),
                None => true,
            }),
        forall|l: StoredLink|
            #[trigger] r.links@.contains(l) ==> !holds(ids, l.source_id@) && !holds(
                ids,
                l.target_id@,
            ),
{
    let rows = choose|rows: Seq<TreeRow>| #[trigger]
        is_note_tree(rows, a.notes@) && is_subtree(rows, id, ids);
    assert(ids[0] == id);
    law_rows_without(a.notes@, note_among(ids));
    law_rows_without(a.links@, link_among(ids));
    assert forall|n: Note| #[trigger] r.notes@.contains(n) implies !holds(ids, n.id@) && (
    match n.parent_id {
        Some(p) => !holds(ids, p@),
        None => true,
    }) by {
        assert(a.notes@.contains(n) && !note_among(ids)(n));
        let k = choose|k: int| 0 <= k < a.notes@.len() && a.notes@[k] == n;
        if let Some(p) = n.parent_id {
            if holds(ids, p@) {
                let i = choose|i: int| 0 <= i < ids.len() && #[trigger] ids[i] == p@;
                assert(rows[k].id@ == n.id@);
                assert(is_child(rows, k, ids[i]));
                assert(holds(ids, rows[k].id@));
            }
        }
    }
    assert forall|l: StoredLink| #[trigger] r.links@.contains(l) implies !holds(
        ids,
        l.source_id@,
    ) && !holds(ids, l.target_id@) by {
        assert(a.links@.contains(l) && !link_among(ids)(l));
    }
}

// ---------------------------------------------------------------------------------------------
// Moves
// ---------------------------------------------------------------------------------------------
/// Whether `r` is a note that was moved: into a folder, or out of all folders, and to another place in
/// the order where one is given.
pub open spec fn is_moved(
    n: Note,
    parent: Option<Seq<char>>,
    sort_order: Option<i32>,
    now: Seq<char>,
    r: Note,
) -> bool {
    &&& opt_text(r.parent_id) == parent
    &&& r.sort_order == (match sort_order {
        Some(s) => s,
        None => n.sort_order,
    })
    &&& r.updated_at@ == now
    &&& r == (Note {
        parent_id: r.parent_id,
        sort_order: r.sort_order,
        updated_at: r.updated_at,
        ..n
    })
}

/// Whether two lists of notes differ at most at `k`.
pub open spec fn only_at(a: Seq<Note>, r: Seq<Note>, k: int) -> bool {
    r.len() == a.len() && forall|j: int| 0 <= j < r.len() && j != k ==> #[trigger] r[j] == a[j]
}

/// Moves a note, and gives its place in the list. The library folder stays at the top.
pub fn move_note(
    notes: &mut Vec<Note>,
    id: &str,
    parent_id: &Option<String>,
    sort_order: Option<i32>,
    now: &str,
) -> (r: Result<usize, String>)
    ensures
        match first_place(old(notes)@, with_id(id@), 0) {
            Some(k) => if parent_id is Some && old(notes)@[k].is_system == 1 {
                r is Err && r->Err_0@ == "不能移动系统目录「我的图书馆」"@ && final(notes)@ == old(
                    notes)@
            } else {
                r is Ok && r->Ok_0 == k && only_at(old(notes)@, final(notes)@, k) && is_moved(
                    old(notes)@[k],
                    opt_text(*parent_id),
                    sort_order,
                    now@,
                    final(notes)@[k],
                )
            },
            None => r is Err && r->Err_0@ == "note not found: "@ + id@ && final(notes)@ == old(
                notes)@,
        },
{
    let k = match get_note(notes, id) {
        Ok(k) => k,
        Err(e) => {
            return Err(e);
        },
    };
    match check_movable(Some(notes[k].is_system), parent_id) {
        Ok(_) => {},
        Err(e) => {
            return Err(e);
        },
    }
    notes[k].parent_id = copy_opt(parent_id);
    if let Some(s) = sort_order {
        notes[k].sort_order = s;
    }
    notes[k].updated_at = now.to_owned();
    Ok(k)
}

// ---------------------------------------------------------------------------------------------
// Links of a note that was written
// ---------------------------------------------------------------------------------------------
/// Whether a list holds the ids and the titles of notes.
pub open spec fn are_titles(notes: Seq<Note>, list: Seq<TitledNote>) -> bool {
    list.len() == notes.len() && forall|i: int|
        0 <= i < list.len() ==> (#[trigger] list[i]).id@ == notes[i].id@ && list[i].title@
            == notes[i].title@
}

fn titles_of(notes: &Vec<Note>) -> (r: Vec<TitledNote>)
    ensures
        are_titles(notes@, r@),
{
    let mut out: Vec<TitledNote> = Vec::new();
    let mut i: usize = 0;
    while i < notes.len()
        invariant
            i <= notes.len(),
            out.len() == i,
            forall|k: int|
                0 <= k < i ==> (#[trigger] out@[k]).id@ == notes@[k].id@ && out@[k].title@
                    == notes@[k].title@,
        decreases notes.len() - i,
    {
        out.push(TitledNote { id: notes[i].id.clone(), title: notes[i].title.clone() });
        i += 1;
    }
    out
}

/// Whether links are those from before with the ones of a note replaced by what its text says.
pub open spec fn is_relinked(
    a: Seq<StoredLinkModel>,
    notes: Seq<Note>,
    n: Note,
    r: Seq<StoredLinkModel>,
) -> bool {
    exists|list: Seq<TitledNote>| #[trigger]
        are_titles(notes, list) && r == links_added(
            links_of_others(a, n.id@),
            list,
            n.id@,
            wiki_links(n.content@),
        )
}

fn relink(store: &mut NoteStore, k: usize)
    requires
        k < old(store).notes.len(),
    ensures
        is_relinked(
            stored_links(old(store).links@),
            old(store).notes@,
            old(store).notes@[k as int],
            stored_links(final(store).links@),
        ),
        final(store).notes == old(store).notes,
        final(store).versions == old(store).versions,
        final(store).files == old(store).files,
{
    let titles = titles_of(&store.notes);
    let targets = parse_wiki_links(store.notes[k].content.as_str());
    let links = update_note_links(
        &store.links,
        &titles,
        store.notes[k].id.as_str(),
        &targets,
    );
    assert(are_titles(store.notes@, titles@));
    store.links = links;
}

/// Adds a note, links what its text names, and gives its place.
pub fn add_note(store: &mut NoteStore, n: Note) -> (r: usize)
    ensures
        r == old(store).notes.len(),
        final(store).notes@ == old(store).notes@.push(n),
        is_relinked(
            stored_links(old(store).links@),
            final(store).notes@,
            n,
            stored_links(final(store).links@),
        ),
        final(store).versions == old(store).versions,
        final(store).files == old(store).files,
{
    let k = store.notes.len();
    store.notes.push(n);
    relink(store, k);
    k
}

/// Edits a note, and gives its place. Where its text changes, it is linked anew. The library folder
/// cannot be renamed, and where there is no such note nothing changes.
pub fn edit_note(store: &mut NoteStore, id: &str, e: &NoteEdit, now: &str) -> (r: Result<
    usize,
    String,
>)
    ensures
        match first_place(old(store).notes@, with_id(id@), 0) {
            None => r is Err && r->Err_0@ == "note not found: "@ + id@ && *final(store) == *old(store),
            Some(k) => if e.title is Some && old(store).notes@[k].is_system == 1 {
                r is Err && r->Err_0@ == "不能重命名系统目录「我的图书馆」"@ && *final(store) == *old(store)
            } else {
                &&& r is Ok && r->Ok_0 == k
                &&& only_at(old(store).notes@, final(store).notes@, k)
                &&& is_edited(old(store).notes@[k], *e, now@, final(store).notes@[k])
                &&& final(store).versions == old(store).versions && final(store).files == old(store).files
                &&& if e.content is Some {
                    is_relinked(
                        stored_links(old(store).links@),
                        final(store).notes@,
                        final(store).notes@[k],
                        stored_links(final(store).links@),
                    )
                } else {
                    final(store).links == old(store).links
                }
            },
        },
{
    let k = match get_note(&store.notes, id) {
        Ok(k) => k,
        Err(m) => {
            return Err(m);
        },
    };
    let n = match update_note(&store.notes[k], e, now) {
        Ok(n) => n,
        Err(m) => {
            return Err(m);
        },
    };
    store.notes.set(k, n);
    if e.content.is_some() {
        relink(store, k);
    }
    Ok(k)
}

proof fn lemma_links_of_others(a: Seq<StoredLinkModel>, source: Seq<char>)
    ensures
        forall|l: StoredLinkModel|
            #[trigger] links_of_others(a, source).contains(l) <==> a.contains(l) && l.source_id
                != source,
    decreases a.len(),
{
    if a.len() > 0 {
        let head = a.drop_last();
        let rest = links_of_others(head, source);
        lemma_links_of_others(head, source);
        assert(a =~= head.push(a.last()));
        assert forall|l: StoredLinkModel|
            #[trigger] links_of_others(a, source).contains(l) <==> a.contains(l) && l.source_id
                != source by {
            assert(rest.contains(l) <==> head.contains(l) && l.source_id != source);
            lemma_push_contains(head, a.last(), l);
            lemma_push_contains(rest, a.last(), l);
        }
    }
}

proof fn lemma_links_added(
    a: Seq<StoredLinkModel>,
    list: Seq<TitledNote>,
    source: Seq<char>,
    targets: Seq<Seq<char>>,
)
    ensures
        forall|l: StoredLinkModel|
            #[trigger] links_added(a, list, source, targets).contains(l) ==> a.contains(l) || (
            l.source_id == source && targets.contains(l.context)),
        forall|l: StoredLinkModel|
            a.contains(l) ==> #[trigger] links_added(a, list, source, targets).contains(l),
    decreases targets.len(),
{
    if targets.len() > 0 {
        let head = targets.drop_last();
        let before = links_added(a, list, source, head);
        let after = links_added(a, list, source, targets);
        lemma_links_added(a, list, source, head);
        assert(targets =~= head.push(targets.last()));
        assert forall|l: StoredLinkModel| #[trigger] after.contains(l) implies a.contains(l) || (
        l.source_id == source && targets.contains(l.context)) by {
            if before.contains(l) {
                if !a.contains(l) {
                    lemma_push_contains(head, targets.last(), l.context);
                }
            } else {
                assert(after.len() == before.len() + 1);
                lemma_push_contains(before, after.last(), l);
                assert(after =~= before.push(after.last()));
                assert(targets[targets.len() - 1] == l.context);
            }
        }
        assert forall|l: StoredLinkModel| a.contains(l) implies #[trigger] after.contains(l) by {
            assert(before.contains(l));
            if after != before {
                assert(after =~= before.push(after.last()));
                lemma_push_contains(before, after.last(), l);
            }
        }
    }
}

/// Once a note was written, its links bear titles that its text names, and the links of all other notes
/// are as they were.
pub proof fn law_links_follow_text(
    a: Seq<StoredLinkModel>,
    notes: Seq<Note>,
    n: Note,
    r: Seq<StoredLinkModel>,
)
    requires
        is_relinked(a, notes, n, r),
    ensures
        forall|l: StoredLinkModel|
            #[trigger] r.contains(l) && l.source_id == n.id@ ==> wiki_links(n.content@).contains(
                l.context,
            ),
        forall|l: StoredLinkModel|
            l.source_id != n.id@ ==> (#[trigger] r.contains(l) <==> a.contains(l)),
{
    let list = choose|list: Seq<TitledNote>| #[trigger]
        are_titles(notes, list) && r == links_added(
            links_of_others(a, n.id@),
            list,
            n.id@,
            wiki_links(n.content@),
        );
    let kept = links_of_others(a, n.id@);
    lemma_links_of_others(a, n.id@);
    lemma_links_added(kept, list, n.id@, wiki_links(n.content@));
    assert forall|l: StoredLinkModel|
        #[trigger] r.contains(l) && l.source_id == n.id@ implies wiki_links(n.content@).contains(
        l.context,
    ) by {
        assert(kept.contains(l) <==> a.contains(l) && l.source_id != n.id@);
    }
    assert forall|l: StoredLinkModel| l.source_id != n.id@ implies (#[trigger] r.contains(l)
        <==> a.contains(l)) by {
        assert(kept.contains(l) <==> a.contains(l) && l.source_id != n.id@);
    }
}

// ---------------------------------------------------------------------------------------------
// Excerpts
// ---------------------------------------------------------------------------------------------
/// Whether a note is the excerpt note of a paper in a folder.
pub open spec fn excerpts_of(paper: Seq<char>, folder: Seq<char>) -> spec_fn(Note) -> bool {
    |n: Note|
        opt_text(n.paper_id) == Some(paper) && n.is_excerpt == 1 && opt_text(n.parent_id) == Some(
            folder,
        )
}

/// Whether a note was edited so that an excerpt stands behind a rule at its end, and nothing else.
pub open spec fn is_extended(n: Note, excerpt: Seq<char>, now: Seq<char>, r: Note) -> bool {
    exists|e: NoteEdit| #[trigger]
        is_edited(n, e, now, r) && e.title is None && e.paper_id is None && e.aliases is None
            && e.is_favorite is None && e.touch is None && e.content is Some && e.content->0@
            == n.content@ + "\n\n---\n\n"@ + excerpt
}

/// The title of a new excerpt note: that of the paper.
pub open spec fn excerpt_title(paper_title: Option<Seq<char>>) -> Seq<char> {
    match paper_title {
        Some(t) => t,
        None => "文献摘录"@,
    }
}

/// What is known about an excerpt that is added.
pub struct NewExcerpt {
    pub paper_id: String,
    pub paper_title: Option<String>,
    pub text: String,
    pub vault_id: String,
    pub note_id: String,
}

/// Whether an excerpt was added to notes that have their folders: at the end of the excerpt note that
/// is in `folder`, or as a new one. `k` is the place of the note.
pub open spec fn is_excerpted(
    mid: Seq<Note>,
    r: Seq<Note>,
    x: NewExcerpt,
    folder: Seq<char>,
    now: Seq<char>,
    k: int,
) -> bool {
    match first_place(mid, excerpts_of(x.paper_id@, folder), 0) {
        Some(j) => k == j && only_at(mid, r, j) && is_extended(mid[j], x.text@, now, r[j]),
        None => k == mid.len() && r.len() == mid.len() + 1 && r.drop_last() == mid && r[k].is_excerpt
            == 1 && is_new_note(
            x.note_id@,
            x.vault_id@,
            excerpt_title(opt_text(x.paper_title)),
            x.text@,
            Some(x.paper_id@),
            Some(folder),
            false,
            now,
            (Note { is_excerpt: 0, ..r[k] }),
        ),
    }
}

/// The folders of a chain that leads to the notes on a paper.
fn folder_places(collections: &Vec<Collection>, links: &Vec<Link>, paper_id: &str) -> (r: Vec<usize>)
    ensures
        as_places(r@) == folder_chain(collections@, link_models(links@), paper_id@),
        r@.len() <= 32,
        forall|i: int| 0 <= i < r@.len() ==> #[trigger] r@[i] < collections.len(),
{
    let ghost want = folder_chain(collections@, link_models(links@), paper_id@);
    match first_collection(collections, links, paper_id) {
        Some(leaf) => {
            let chain = collection_chain(collections, leaf);
            proof {
                lemma_chain_is_short(collections@, leaf as int);
                assert(as_places(chain@).len() == chain.len());
                assert(as_places(chain@) =~= want);
            }
            chain
        },
        None => {
            let v: Vec<usize> = Vec::new();
            assert(as_places(v@) =~= want);
            v
        },
    }
}

/// Whether the vault has its library folder, the folders for the notes on a paper are there below it, and
/// `folder` is the last of them, or the library folder where the paper is in no collection. `mid` is what
/// there is once the library folder is there.
pub open spec fn is_prepared(
    a: NoteStore,
    mid: NoteStore,
    r: NoteStore,
    collections: Seq<Collection>,
    links: Seq<LinkModel>,
    paper: Seq<char>,
    vault: Seq<char>,
    ids: Seq<Seq<char>>,
    now: Seq<char>,
    path: Seq<int>,
    folder: Seq<char>,
) -> bool {
    &&& is_ensured(a, mid, vault, now)
    &&& folders_ready(
        mid.notes@,
        r.notes@,
        path,
        collections,
        folder_chain(collections, links, paper),
        vault,
        library_id(vault),
        folder,
    )
    &&& folders_made(
        mid.notes@,
        r.notes@,
        path,
        collections,
        folder_chain(collections, links, paper),
        vault,
        library_id(vault),
        ids,
        now,
    )
    &&& r.files == mid.files
    &&& r.links == mid.links
    &&& r.versions == mid.versions
}

/// Sees to it that the folders for the notes on a paper are there, and gives the id of the last of them.
/// `ids` are for folders that are not there yet.
pub fn collection_parent_for_paper(
    store: &mut NoteStore,
    collections: &Vec<Collection>,
    links: &Vec<Link>,
    paper_id: &str,
    vault_id: &str,
    ids: &Vec<String>,
    now: &str,
) -> (r: String)
    requires
        ids.len() >= 32,
    ensures
        exists|mid: NoteStore, path: Seq<int>|
            is_prepared(
                *old(store),
                mid,
                *final(store),
                collections@,
                link_models(links@),
                paper_id@,
                vault_id@,
                texts(ids@),
                now@,
                path,
                r@,
            ),
{
    let ghost a = *store;
    let chain = folder_places(collections, links, paper_id);
    let root = ensure_library_folder(store, vault_id, now);
    let ghost mid = *store;
    let folder = ensure_folders(
        &mut store.notes,
        collections,
        &chain,
        vault_id,
        root.as_str(),
        ids,
        now,
    );
    proof {
        let path = choose|path: Seq<int>|
            folders_ready(
                mid.notes@,
                store.notes@,
                path,
                collections@,
                as_places(chain@),
                vault_id@,
                root@,
                folder@,
            ) && folders_made(
                mid.notes@,
                store.notes@,
                path,
                collections@,
                as_places(chain@),
                vault_id@,
                root@,
                texts(ids@),
                now@,
            );
        assert(is_prepared(
            a,
            mid,
            *store,
            collections@,
            link_models(links@),
            paper_id@,
            vault_id@,
            texts(ids@),
            now@,
            path,
            folder@,
        ));
    }
    folder
}

/// Makes a note on a paper, in the folder of the oldest collection that holds the paper, or in the
/// library folder where none does. `ids` are for folders that are not there yet.
pub fn create_note_under_paper(
    store: &mut NoteStore,
    collections: &Vec<Collection>,
    links: &Vec<Link>,
    paper_id: &str,
    title: &str,
    content: &str,
    vault_id: &str,
    ids: &Vec<String>,
    note_id: &str,
    now: &str,
) -> (r: Note)
    requires
        ids.len() >= 32,
    ensures
        exists|mid: NoteStore, path: Seq<int>, folder: Seq<char>|
            #[trigger] is_prepared(
                *old(store),
                mid,
                *final(store),
                collections@,
                link_models(links@),
                paper_id@,
                vault_id@,
                texts(ids@),
                now@,
                path,
                folder,
            ) && is_new_note(
                note_id@,
                vault_id@,
                title@,
                content@,
                Some(paper_id@),
                Some(folder),
                false,
                now@,
                r,
            ),
{
    let folder = collection_parent_for_paper(store, collections, links, paper_id, vault_id, ids, now);
    create_note(
        note_id,
        vault_id,
        title,
        content,
        &Some(paper_id.to_owned()),
        &Some(folder),
        false,
        now,
    )
}

/// The folder for the notes on a paper stands below the library folder of the vault: it is the library
/// folder, or the last of a row of folders of which each is in the one before and the first is in the
/// library folder.
pub proof fn law_paper_notes_stand_in_the_library(
    a: NoteStore,
    mid: NoteStore,
    r: NoteStore,
    collections: Seq<Collection>,
    links: Seq<LinkModel>,
    paper: Seq<char>,
    vault: Seq<char>,
    ids: Seq<Seq<char>>,
    now: Seq<char>,
    path: Seq<int>,
    folder: Seq<char>,
)
    requires
        is_prepared(a, mid, r, collections, links, paper, vault, ids, now, path, folder),
    ensures
        has_library(r.notes@, vault),
        path.len() == 0 ==> folder == library_id(vault),
        path.len() > 0 ==> {
            &&& folder == r.notes@[path.last()].id@
            &&& opt_text(r.notes@[path[0]].parent_id) == Some(library_id(vault))
        },
        forall|i: int|
            0 < i < path.len() ==> opt_text(r.notes@[#[trigger] path[i]].parent_id) == Some(
                r.notes@[path[i - 1]].id@,
            ),
{
    law_library_is_there(a, mid, vault, now);
    let n = mid.notes@.len() as int;
    let b = r.notes@;
    let k = choose|k: int| 0 <= k < n && library_of(vault)(#[trigger] mid.notes@[k]);
    assert(b.take(n)[k] == b[k]);
    assert(library_of(vault)(b[k]));
    assert forall|i: int| 0 <= i < b.len() && is_system_folder(#[trigger] b[i], vault) implies b[i].id@
        == library_id(vault) by {
        if i < n {
            assert(b.take(n)[i] == b[i]);
            assert(is_system_folder(mid.notes@[i], vault));
        } else {
            assert(b[i].is_system == 0);
        }
    }
    if path.len() > 0 {
        assert(0 <= path[0] < b.len());
    }
}

/// Whether an excerpt was added in the folder for the notes on a paper. `ready` is what there is once the
/// folders that lead to it are there.
pub open spec fn is_excerpt_added(
    a: NoteStore,
    r: NoteStore,
    collections: Seq<Collection>,
    links: Seq<LinkModel>,
    x: NewExcerpt,
    ids: Seq<Seq<char>>,
    now: Seq<char>,
    mid: NoteStore,
    ready: NoteStore,
    path: Seq<int>,
    folder: Seq<char>,
    k: int,
) -> bool {
    &&& is_prepared(
        a,
        mid,
        ready,
        collections,
        links,
        x.paper_id@,
        x.vault_id@,
        ids,
        now,
        path,
        folder,
    )
    &&& 0 <= k < r.notes@.len()
    &&& is_excerpted(ready.notes@, r.notes@, x, folder, now, k)
    &&& is_relinked(stored_links(a.links@), r.notes@, r.notes@[k], stored_links(r.links@))
    &&& r.versions == ready.versions
    &&& r.files == ready.files
}

/// Adds an excerpt to the excerpt note of a paper, which is made where there is none, and gives the
/// place of that note. `ids` are for folders that are not there yet.
pub fn add_excerpt_to_paper(
    store: &mut NoteStore,
    collections: &Vec<Collection>,
    links: &Vec<Link>,
    x: &NewExcerpt,
    ids: &Vec<String>,
    now: &str,
) -> (r: usize)
    requires
        ids.len() >= 32,
    ensures
        exists|mid: NoteStore, ready: NoteStore, path: Seq<int>, folder: Seq<char>|
            is_excerpt_added(
                *old(store),
                *final(store),
                collections@,
                link_models(links@),
                *x,
                texts(ids@),
                now@,
                mid,
                ready,
                path,
                folder,
                r as int,
            ),
{
    let ghost a = *store;
    let folder = collection_parent_for_paper(
        store,
        collections,
        links,
        x.paper_id.as_str(),
        x.vault_id.as_str(),
        ids,
        now,
    );
    let ghost ready = *store;
    let ghost mid = store.notes@;
    let f = folder.as_str();
    let wanted = x.paper_id.as_str();
    let is = |n: &Note| -> (c: bool)
        ensures
            c == (opt_text(n.paper_id) == Some(wanted@) && n.is_excerpt == 1 && opt_text(
                n.parent_id,
            ) == Some(f@)),
        {
            n.is_excerpt == 1 && (match &n.paper_id {
                Some(p) => same(p.as_str(), wanted),
                None => false,
            }) && (match &n.parent_id {
                Some(p) => same(p.as_str(), f),
                None => false,
            })
        };
    let found = find_row(&store.notes, is, Ghost(excerpts_of(x.paper_id@, folder@)));
    let k: usize = match found {
        Some(k) => {
            let edit = NoteEdit {
                title: None,
                content: Some(excerpt_content(store.notes[k].content.as_str(), x.text.as_str())),
                paper_id: None,
                aliases: None,
                is_favorite: None,
                touch: None,
            };
            if let Ok(n) = update_note(&store.notes[k], &edit, now) {
                proof {
                    assert(is_edited(mid[k as int], edit, now@, n));
                }
                store.notes.set(k, n);
            }
            k
        },
        None => {
            let title = match &x.paper_title {
                Some(t) => t.clone(),
                None => "文献摘录".to_owned(),
            };
            let mut n = create_note(
                x.note_id.as_str(),
                x.vault_id.as_str(),
                title.as_str(),
                x.text.as_str(),
                &Some(x.paper_id.clone()),
                &Some(folder.clone()),
                false,
                now,
            );
            n.is_excerpt = 1;
            let k = store.notes.len();
            store.notes.push(n);
            assert(store.notes@.drop_last() =~= mid);
            k
        },
    };
    assert(is_excerpted(mid, store.notes@, *x, folder@, now@, k as int));
    relink(store, k);
    proof {
        let (between, path) = choose|between: NoteStore, path: Seq<int>|
            is_prepared(
                a,
                between,
                ready,
                collections@,
                link_models(links@),
                x.paper_id@,
                x.vault_id@,
                texts(ids@),
                now@,
                path,
                folder@,
            );
        assert(is_excerpt_added(
            a,
            *store,
            collections@,
            link_models(links@),
            *x,
            texts(ids@),
            now@,
            between,
            ready,
            path,
            folder@,
            k as int,
        ));
    }
    k
}

/// The reason why a note cannot be merged into the excerpt note of a paper, if there is one.
pub open spec fn merge_error(n: Note, paper: Seq<char>) -> Option<Seq<char>> {
    if n.is_excerpt == 1 {
        Some("该笔记已是摘录笔记"@)
    } else if opt_text(n.paper_id) != Some(paper) {
        Some("笔记与文献不匹配"@)
    } else if trim(n.content@).len() == 0 {
        Some("笔记内容为空，无需合并"@)
    } else {
        None
    }
}

/// Whether an excerpt is for the same paper as another, and holds a text.
pub open spec fn is_excerpt_of(x: NewExcerpt, text: Seq<char>, r: NewExcerpt) -> bool {
    r.text@ == text && r == (NewExcerpt { text: r.text, ..x })
}

/// Whether a note was merged: `mid` is what there is once the text of the note was added to the excerpt
/// note of its paper, which stands at `k`. After that the note is deleted, which the library folder
/// refuses.
pub open spec fn is_merged(
    a: NoteStore,
    mid: NoteStore,
    r: NoteStore,
    collections: Seq<Collection>,
    links: Seq<LinkModel>,
    x: NewExcerpt,
    ids: Seq<Seq<char>>,
    now: Seq<char>,
    id: Seq<char>,
    k: int,
    outcome: Result<String, String>,
) -> bool {
    &&& exists|library: NoteStore, ready: NoteStore, path: Seq<int>, folder: Seq<char>|
        is_excerpt_added(a, mid, collections, links, x, ids, now, library, ready, path, folder, k)
    &&& match outcome {
        Ok(target) => !is_system_note(mid.notes@, id) && is_deleted(mid, r, id) && target@
            == mid.notes@[k].id@,
        Err(e) => is_system_note(mid.notes@, id) && r == mid && e@
            == "不能删除系统目录「我的图书馆」"@,
    }
}

/// Merges a note into the excerpt note of its paper, and gives the id of that note. `x` says which
/// paper; the text of the excerpt is that of the note.
pub fn merge_note_into_paper_note(
    store: &mut NoteStore,
    collections: &Vec<Collection>,
    links: &Vec<Link>,
    id: &str,
    x: NewExcerpt,
    ids: &Vec<String>,
    now: &str,
) -> (r: Result<String, String>)
    requires
        ids.len() >= 32,
    ensures
        match first_place(old(store).notes@, with_id(id@), 0) {
            None => r is Err && r->Err_0@ == "note not found: "@ + id@ && *final(store) == *old(store),
            Some(j) => match merge_error(old(store).notes@[j], x.paper_id@) {
                Some(e) => r is Err && r->Err_0@ == e && *final(store) == *old(store),
                None => exists|mid: NoteStore, y: NewExcerpt, k: int|
                    is_excerpt_of(x, old(store).notes@[j].content@, y) && is_merged(
                        *old(store),
                        mid,
                        *final(store),
                        collections@,
                        link_models(links@),
                        y,
                        texts(ids@),
                        now@,
                        id@,
                        k,
                        r,
                    ),
            },
        },
{
    let j = match get_note(&store.notes, id) {
        Ok(j) => j,
        Err(e) => {
            return Err(e);
        },
    };
    match check_mergeable(&store.notes[j], x.paper_id.as_str()) {
        Ok(_) => {},
        Err(e) => {
            return Err(e);
        },
    }
    let mut y = x;
    y.text = store.notes[j].content.clone();
    let k = add_excerpt_to_paper(store, collections, links, &y, ids, now);
    let ghost mid = *store;
    let target = store.notes[k].id.clone();
    let deleted = delete_note(store, id);
    let r: Result<String, String> = match deleted {
        Ok(_) => Ok(target),
        Err(e) => Err(e),
    };
    proof {
        assert(is_excerpt_of(x, old(store).notes@[j as int].content@, y));
        assert(is_merged(
            *old(store),
            mid,
            *store,
            collections@,
            link_models(links@),
            y,
            texts(ids@),
            now@,
            id@,
            k as int,
            r,
        ));
    }
    r
}

} // verus!
