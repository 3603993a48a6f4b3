//! The rows of notes: finding and listing them, what links to a note, and the folders that lead to
//! the notes on a paper.
use vstd::prelude::*;
use vstd::string::*;

use crate::collection_service::{ancestors, as_places, collection_at, with_folders};
use crate::models::{Collection, Note};
use crate::note_service::{
    ensure_collection_folder, is_collection_folder, is_new_note, stored_links, StoredLink,
    StoredLinkModel,
};
use crate::order::{
    goes_before, greatest_first, least_first, place_list, sorted, text_before,
};
use crate::paper_rows::{has_link, link, link_models, Link, LinkModel};
use crate::table::{find_row, first_place, order_picked, pick_rows, picked};
use crate::text::{concat2, opt_text, same, texts};

verus! {

/// Whether a note has an id.
pub open spec fn with_id(id: Seq<char>) -> spec_fn(Note) -> bool {
    |n: Note| n.id@ == id
}

/// The place of a note.
pub fn get_note(notes: &Vec<Note>, id: &str) -> (r: Result<usize, String>)
    ensures
        match r {
            Ok(k) => k < notes.len() && first_place(notes@, with_id(id@), 0) == Some(k as int)
                && notes@[k as int].id@ == id@,
            Err(e) => first_place(notes@, with_id(id@), 0) is None && e@ == "note not found: "@
                + id@,
        },
{
    let is = |n: &Note| -> (r: bool)
        ensures
            r == (n.id@ == id@),
        { same(n.id.as_str(), id) };
    match find_row(notes, is, Ghost(with_id(id@))) {
        Some(k) => Ok(k),
        None => Err(concat2("note not found: ", id)),
    }
}

/// Whether a note is in a vault.
pub open spec fn in_vault(vault: Seq<char>) -> spec_fn(Note) -> bool {
    |n: Note| n.vault_id@ == vault
}

/// When notes were changed.
pub open spec fn note_times(list: Seq<Note>) -> Seq<Seq<char>> {
    Seq::new(list.len(), |i: int| list[i].updated_at@)
}

/// The places of the notes in a vault, in whatever folder, the latest changed first.
pub fn list_all_notes(notes: &Vec<Note>, vault_id: &str) -> (r: Vec<usize>)
    ensures
        place_list(r@) == sorted(
            picked(notes@, in_vault(vault_id@)),
            greatest_first(note_times(notes@)),
        ),
        forall|i: int| 0 <= i < r.len() ==> #[trigger] r@[i] < notes.len(),
{
    let is = |n: &Note| -> (r: bool)
        ensures
            r == (n.vault_id@ == vault_id@),
        { same(n.vault_id.as_str(), vault_id) };
    let found = pick_rows(notes, is, Ghost(in_vault(vault_id@)));
    let goes = |a: usize, b: usize| -> (c: bool)
        requires
            a < notes.len() && b < notes.len(),
        ensures
            c == text_before(notes@[b as int].updated_at@, notes@[a as int].updated_at@),
        { goes_before(notes[b].updated_at.as_str(), notes[a].updated_at.as_str()) };
    order_picked(&found, notes.len(), goes, Ghost(greatest_first(note_times(notes@))))
}

// ---------------------------------------------------------------------------------------------
// What links to a note
// ---------------------------------------------------------------------------------------------
/// The place of a note that links to another, and the title by which it does.
pub struct Backlink {
    pub note: usize,
    pub context: String,
}

/// A note that links to another, read as its text.
pub struct BacklinkModel {
    pub note: int,
    pub context: Seq<char>,
}

/// The texts of what links to a note.
pub open spec fn backlink_models(v: Seq<Backlink>) -> Seq<BacklinkModel> {
    Seq::new(v.len(), |i: int| BacklinkModel { note: v[i].note as int, context: v[i].context@ })
}

/// The notes in a vault that link to a note, as the links stand.
pub open spec fn backlinks(
    notes: Seq<Note>,
    links: Seq<StoredLinkModel>,
    target: Seq<char>,
    vault: Seq<char>,
) -> Seq<BacklinkModel>
    decreases links.len(),
{
    if links.len() == 0 {
        Seq::empty()
    } else {
        let before = backlinks(notes, links.drop_last(), target, vault);
        let l = links.last();
        match first_place(notes, with_id(l.source_id), 0) {
            Some(k) => if l.target_id == target && notes[k].vault_id@ == vault {
                before.push(BacklinkModel { note: k, context: l.context })
            } else {
                before
            },
            None => before,
        }
    }
}

/// The notes in a vault that link to a note.
pub fn get_backlinks(
    notes: &Vec<Note>,
    links: &Vec<StoredLink>,
    note_id: &str,
    vault_id: &str,
) -> (r: Vec<Backlink>)
    ensures
        backlink_models(r@) == backlinks(notes@, stored_links(links@), note_id@, vault_id@),
        forall|i: int| 0 <= i < r.len() ==> (#[trigger] r@[i]).note < notes.len(),
{
    let ghost all = stored_links(links@);
    let mut out: Vec<Backlink> = Vec::new();
    let mut i: usize = 0;
    assert(backlink_models(out@) =~= backlinks(notes@, all.take(0), note_id@, vault_id@));
    while i < links.len()
        invariant
            i <= links.len(),
            all == stored_links(links@),
            backlink_models(out@) == backlinks(notes@, all.take(i as int), note_id@, vault_id@),
            forall|k: int| 0 <= k < out.len() ==> (#[trigger] out@[k]).note < notes.len(),
        decreases links.len() - i,
    {
        let ghost before = backlink_models(out@);
        proof {
            assert(all.take(i + 1).drop_last() =~= all.take(i as int));
            assert(all.take(i + 1).last() == all[i as int]);
        }
        if same(links[i].target_id.as_str(), note_id) {
            if let Ok(k) = get_note(notes, links[i].source_id.as_str()) {
                if same(notes[k].vault_id.as_str(), vault_id) {
                    out.push(Backlink { note: k, context: links[i].context.clone() });
                    assert(backlink_models(out@) =~= before.push(
                        BacklinkModel { note: k as int, context: all[i as int].context },
                    ));
                }
            }
        }
        i += 1;
    }
    assert(all.take(all.len() as int) =~= all);
    out
}

// ---------------------------------------------------------------------------------------------
// The folders that lead to the notes on a paper
// ---------------------------------------------------------------------------------------------
/// Whether a collection holds a paper.
pub open spec fn holding(links: Seq<LinkModel>, paper: Seq<char>) -> spec_fn(Collection) -> bool {
    |c: Collection| links.contains(link(paper, c.id@))
}

/// When collections were made.
pub open spec fn collection_times(list: Seq<Collection>) -> Seq<Seq<char>> {
    Seq::new(list.len(), |i: int| list[i].created_at@)
}

/// The places of the collections that hold a paper, the oldest first.
pub open spec fn collections_of(
    collections: Seq<Collection>,
    links: Seq<LinkModel>,
    paper: Seq<char>,
) -> Seq<int> {
    sorted(picked(collections, holding(links, paper)), least_first(collection_times(collections)))
}

/// The place of the oldest collection that holds a paper.
pub fn first_collection(collections: &Vec<Collection>, links: &Vec<Link>, paper_id: &str) -> (r:
    Option<usize>)
    ensures
        ({
            let all = collections_of(collections@, link_models(links@), paper_id@);
            match r {
                Some(k) => k < collections.len() && all.len() > 0 && all[0] == k,
                None => all.len() == 0,
            }
        }),
{
    let is = |c: &Collection| -> (r: bool)
        ensures
            r == link_models(links@).contains(link(paper_id@, c.id@)),
        { has_link(links, paper_id, c.id.as_str()) };
    let found = pick_rows(collections, is, Ghost(holding(link_models(links@), paper_id@)));
    let goes = |a: usize, b: usize| -> (c: bool)
        requires
            a < collections.len() && b < collections.len(),
        ensures
            c == text_before(
                collections@[a as int].created_at@,
                collections@[b as int].created_at@,
            ),
        { goes_before(collections[a].created_at.as_str(), collections[b].created_at.as_str()) };
    let list = order_picked(
        &found,
        collections.len(),
        goes,
        Ghost(least_first(collection_times(collections@))),
    );
    assert(place_list(list@).len() == list.len());
    if list.len() == 0 {
        None
    } else {
        assert(place_list(list@)[0] == list@[0]);
        Some(list[0])
    }
}

/// The places of the collections whose folders lead to the notes on a paper, from the top down.
pub open spec fn folder_chain(
    collections: Seq<Collection>,
    links: Seq<LinkModel>,
    paper: Seq<char>,
) -> Seq<int> {
    let all = collections_of(collections, links, paper);
    if all.len() == 0 {
        Seq::empty()
    } else {
        with_folders(collections, ancestors(collections, all[0], 31).reverse())
    }
}

/// The id of the folder in which the folder of the `i`-th collection of a chain stands.
pub open spec fn above(notes: Seq<Note>, path: Seq<int>, root: Seq<char>, i: int) -> Seq<char> {
    if i <= 0 {
        root
    } else {
        notes[path[i - 1]].id@
    }
}

/// Whether the notes at the places of `path` are the folders of the first collections of a chain,
/// each the first inside the one before, and the first of them inside `root`.
pub open spec fn leads(
    notes: Seq<Note>,
    path: Seq<int>,
    collections: Seq<Collection>,
    chain: Seq<int>,
    vault: Seq<char>,
    root: Seq<char>,
) -> bool {
    &&& path.len() <= chain.len()
    &&& forall|i: int|
        0 <= i < path.len() ==> 0 <= #[trigger] path[i] < notes.len() && is_collection_folder(
            notes[path[i]],
            vault,
            Some(above(notes, path, root, i)),
            collections[chain[i]].id@,
        )
    &&& forall|i: int, k: int|
        0 <= i < path.len() && 0 <= k < #[trigger] path[i] && k < notes.len()
            ==> !is_collection_folder(
            #[trigger] notes[k],
            vault,
            Some(above(notes, path, root, i)),
            collections[chain[i]].id@,
        )
}

/// Whether all notes are still there, the only new ones are folders on a path, and none of these was
/// made where there was one.
pub open spec fn only_folders_added(
    old: Seq<Note>,
    notes: Seq<Note>,
    path: Seq<int>,
    collections: Seq<Collection>,
    chain: Seq<int>,
    vault: Seq<char>,
    root: Seq<char>,
) -> bool {
    &&& notes.len() >= old.len()
    &&& notes.take(old.len() as int) == old
    &&& forall|j: int| old.len() <= j < notes.len() ==> #[trigger] path.contains(j)
    &&& forall|i: int, k: int|
        0 <= i < path.len() && #[trigger] path[i] >= old.len() && 0 <= k < old.len()
            ==> !is_collection_folder(
            #[trigger] old[k],
            vault,
            Some(above(notes, path, root, i)),
            collections[chain[i]].id@,
        )
}

/// Whether a note is a new folder that mirrors a collection.
pub open spec fn is_made_folder(
    n: Note,
    id: Seq<char>,
    vault: Seq<char>,
    parent: Seq<char>,
    c: Collection,
    now: Seq<char>,
) -> bool {
    &&& opt_text(n.source_collection_id) == Some(c.id@)
    &&& is_new_note(
        id,
        vault,
        c.name@,
        ""@,
        None,
        Some(parent),
        true,
        now,
        (Note { source_collection_id: None, ..n }),
    )
}

/// Whether a note at a place is the new folder for a collection of a chain.
pub open spec fn is_made_for(
    n: Note,
    place: int,
    notes: Seq<Note>,
    path: Seq<int>,
    collections: Seq<Collection>,
    chain: Seq<int>,
    vault: Seq<char>,
    root: Seq<char>,
    ids: Seq<Seq<char>>,
    now: Seq<char>,
) -> bool {
    exists|i: int|
        0 <= i < path.len() && #[trigger] path[i] == place && is_made_folder(
            n,
            ids[i],
            vault,
            above(notes, path, root, i),
            collections[chain[i]],
            now,
        )
}

/// Whether the folders on a path that were not there are new ones, each with its own of `ids`.
pub open spec fn folders_made(
    old: Seq<Note>,
    notes: Seq<Note>,
    path: Seq<int>,
    collections: Seq<Collection>,
    chain: Seq<int>,
    vault: Seq<char>,
    root: Seq<char>,
    ids: Seq<Seq<char>>,
    now: Seq<char>,
) -> bool {
    forall|j: int|
        old.len() <= j < notes.len() ==> is_made_for(
            #[trigger] notes[j],
            j,
            notes,
            path,
            collections,
            chain,
            vault,
            root,
            ids,
            now,
        )
}

/// Whether the folders for a paper are there, and `folder` is the id of the last of them, or of the
/// library where there are none.
pub open spec fn folders_ready(
    old: Seq<Note>,
    notes: Seq<Note>,
    path: Seq<int>,
    collections: Seq<Collection>,
    chain: Seq<int>,
    vault: Seq<char>,
    root: Seq<char>,
    folder: Seq<char>,
) -> bool {
    &&& path.len() == chain.len()
    &&& leads(notes, path, collections, chain, vault, root)
    &&& only_folders_added(old, notes, path, collections, chain, vault, root)
    &&& folder == above(notes, path, root, path.len() as int)
}

proof fn lemma_leads_grow(
    a: Seq<Note>,
    b: Seq<Note>,
    path: Seq<int>,
    collections: Seq<Collection>,
    chain: Seq<int>,
    vault: Seq<char>,
    root: Seq<char>,
)
    requires
        leads(a, path, collections, chain, vault, root),
        a.len() <= b.len(),
        b.take(a.len() as int) == a,
    ensures
        leads(b, path, collections, chain, vault, root),
        forall|i: int| 0 <= i <= path.len() ==> #[trigger] above(b, path, root, i) == above(
            a,
            path,
            root,
            i,
        ),
{
    assert forall|i: int| 0 <= i <= path.len() implies #[trigger] above(b, path, root, i) == above(
        a,
        path,
        root,
        i,
    ) by {
        if i > 0 {
            assert(0 <= path[i - 1] < a.len());
            assert(b[path[i - 1]] == b.take(a.len() as int)[path[i - 1]]);
        }
    }
    assert forall|i: int| 0 <= i < path.len() implies 0 <= #[trigger] path[i] < b.len()
        && is_collection_folder(
        b[path[i]],
        vault,
        Some(above(b, path, root, i)),
        collections[chain[i]].id@,
    ) by {
        assert(0 <= path[i] < a.len());
        assert(b[path[i]] == b.take(a.len() as int)[path[i]]);
        assert(above(b, path, root, i) == above(a, path, root, i));
    }
    assert forall|i: int, k: int|
        0 <= i < path.len() && 0 <= k < #[trigger] path[i] && k
            < b.len() implies !is_collection_folder(
        #[trigger] b[k],
        vault,
        Some(above(b, path, root, i)),
        collections[chain[i]].id@,
    ) by {
        assert(0 <= path[i] < a.len());
        assert(b[k] == b.take(a.len() as int)[k]);
        assert(a[k] == b[k]);
        assert(above(b, path, root, i) == above(a, path, root, i));
    }
}

/// Sees to it that the folders for the notes on a paper are there, and gives the id of the last: one
/// for each collection above the paper, inside the library folder `root`. `ids` are for new folders.
#[verifier::rlimit(40)]
pub fn ensure_folders(
    notes: &mut Vec<Note>,
    collections: &Vec<Collection>,
    chain: &Vec<usize>,
    vault_id: &str,
    root: &str,
    ids: &Vec<String>,
    now: &str,
) -> (r: String)
    requires
        forall|i: int| 0 <= i < chain.len() ==> #[trigger] chain@[i] < collections.len(),
        chain.len() <= ids.len(),
    ensures
        exists|path: Seq<int>|
            folders_ready(
                old(notes)@,
                final(notes)@,
                path,
                collections@,
                as_places(chain@),
                vault_id@,
                root@,
                r@,
            ) && folders_made(
                old(notes)@,
                final(notes)@,
                path,
                collections@,
                as_places(chain@),
                vault_id@,
                root@,
                texts(ids@),
                now@,
            ),
{
    let ghost start = notes@;
    let ghost places = as_places(chain@);
    let ghost mut path = Seq::<int>::empty();
    let mut folder = root.to_owned();
    let mut i: usize = 0;
    assert(notes@.take(start.len() as int) =~= start);
    while i < chain.len()
        invariant
            i <= chain.len(),
            chain.len() <= ids.len(),
            start == old(notes)@,
            places == as_places(chain@),
            forall|k: int| 0 <= k < chain.len() ==> #[trigger] chain@[k] < collections.len(),
            path.len() == i,
            leads(notes@, path, collections@, places, vault_id@, root@),
            only_folders_added(start, notes@, path, collections@, places, vault_id@, root@),
            folders_made(
                start,
                notes@,
                path,
                collections@,
                places,
                vault_id@,
                root@,
                texts(ids@),
                now@,
            ),
            folder@ == above(notes@, path, root@, i as int),
        decreases chain.len() - i,
    {
        let ghost before = notes@;
        let ghost was = path;
        let c = chain[i];
        assert(places[i as int] == c);
        let parent = Some(folder);
        let made = ensure_collection_folder(
            notes,
            vault_id,
            &parent,
            collections[c].name.as_str(),
            collections[c].id.as_str(),
            ids[i].as_str(),
            now,
        );
        let k: usize = match made {
            Ok(k) => k,
            Err(n) => {
                let k = notes.len();
                notes.push(n);
                k
            },
        };
        folder = notes[k].id.clone();
        proof {
            path = was.push(k as int);
            assert(before =~= notes@.take(before.len() as int));
            lemma_leads_grow(before, notes@, was, collections@, places, vault_id@, root@);
            assert forall|j: int| 0 <= j <= i implies #[trigger] above(notes@, path, root@, j)
                == above(before, was, root@, j) by {
                assert(above(notes@, was, root@, j) == above(before, was, root@, j));
                if j > 0 {
                    assert(path[j - 1] == was[j - 1]);
                }
            }
            assert(above(notes@, path, root@, i as int) == parent->0@);
            assert forall|j: int| 0 <= j < path.len() implies 0 <= #[trigger] path[j] < notes@.len()
                && is_collection_folder(
                notes@[path[j]],
                vault_id@,
                Some(above(notes@, path, root@, j)),
                collections@[places[j]].id@,
            ) by {
                if j < i {
                    assert(path[j] == was[j]);
                    assert(above(notes@, path, root@, j) == above(notes@, was, root@, j));
                }
            }
            assert forall|j: int, q: int|
                0 <= j < path.len() && 0 <= q < #[trigger] path[j] && q
                    < notes@.len() implies !is_collection_folder(
                #[trigger] notes@[q],
                vault_id@,
                Some(above(notes@, path, root@, j)),
                collections@[places[j]].id@,
            ) by {
                if j < i {
                    assert(path[j] == was[j]);
                    assert(above(notes@, path, root@, j) == above(notes@, was, root@, j));
                } else {
                    assert(q < before.len());
                    assert(before[q] == notes@[q]);
                }
            }
            assert forall|j: int| start.len() <= j < notes@.len() implies is_made_for(
                #[trigger] notes@[j],
                j,
                notes@,
                path,
                collections@,
                places,
                vault_id@,
                root@,
                texts(ids@),
                now@,
            ) by {
                if j < before.len() {
                    assert(before[j] == notes@[j]);
                    let m = choose|m: int|
                        0 <= m < was.len() && #[trigger] was[m] == j && is_made_folder(
                            before[j],
                            texts(ids@)[m],
                            vault_id@,
                            above(before, was, root@, m),
                            collections@[places[m]],
                            now@,
                        );
                    assert(path[m] == was[m]);
                    assert(above(notes@, path, root@, m) == above(before, was, root@, m));
                } else {
                    assert(path[i as int] == j);
                    assert(texts(ids@)[i as int] == ids@[i as int]@);
                }
            }
            assert(notes@.take(start.len() as int) =~= start) by {
                assert(before.take(start.len() as int) =~= start);
                assert(notes@.take(start.len() as int) =~= before.take(start.len() as int));
            }
            assert forall|j: int| start.len() <= j < notes@.len() implies #[trigger] path.contains(
                j,
            ) by {
                if j < before.len() {
                    assert(was.contains(j));
                    let m = choose|m: int| 0 <= m < was.len() && was[m] == j;
                    assert(path[m] == j);
                } else {
                    assert(path[i as int] == j);
                }
            }
            assert forall|m: int, q: int|
                0 <= m < path.len() && #[trigger] path[m] >= start.len() && 0 <= q
                    < start.len() implies !is_collection_folder(
                #[trigger] start[q],
                vault_id@,
                Some(above(notes@, path, root@, m)),
                collections@[places[m]].id@,
            ) by {
                if m < i {
                    assert(path[m] == was[m]);
                    assert(above(notes@, path, root@, m) == above(before, was, root@, m));
                } else {
                    assert(before.take(start.len() as int)[q] == start[q]);
                    assert(before[q] == start[q]);
                }
            }
        }
        i += 1;
    }
    assert(folders_ready(
        start,
        notes@,
        path,
        collections@,
        places,
        vault_id@,
        root@,
        folder@,
    ));
    folder
}

proof fn lemma_same_path(
    b: Seq<Note>,
    c: Seq<Note>,
    path: Seq<int>,
    again: Seq<int>,
    collections: Seq<Collection>,
    chain: Seq<int>,
    vault: Seq<char>,
    root: Seq<char>,
    i: int,
)
    requires
        path.len() == chain.len(),
        again.len() == chain.len(),
        leads(b, path, collections, chain, vault, root),
        leads(c, again, collections, chain, vault, root),
        only_folders_added(b, c, again, collections, chain, vault, root),
        0 <= i <= chain.len(),
    ensures
        forall|j: int| 0 <= j < i ==> #[trigger] again[j] == path[j],
        above(c, again, root, i) == above(b, path, root, i),
    decreases i,
{
    if i > 0 {
        lemma_same_path(b, c, path, again, collections, chain, vault, root, i - 1);
        let parent = above(b, path, root, i - 1);
        let p = path[i - 1];
        let q = again[i - 1];
        assert(c.take(b.len() as int)[p] == b[p]);
        assert(b[p] == c[p]);
        if q >= b.len() {
            assert(is_collection_folder(b[p], vault, Some(parent), collections[chain[i - 1]].id@));
            assert(false);
        }
        assert(c.take(b.len() as int)[q] == b[q]);
        if q < p {
            assert(!is_collection_folder(b[q], vault, Some(parent), collections[chain[i - 1]].id@));
            assert(c[q] == b[q]);
            assert(false);
        }
        if p < q {
            assert(!is_collection_folder(c[p], vault, Some(parent), collections[chain[i - 1]].id@));
            assert(false);
        }
    }
}

/// Once the folders for a paper are there, seeing to it again makes no more, and leads to the same
/// folder.
pub proof fn law_folders_are_made_once(
    a: Seq<Note>,
    b: Seq<Note>,
    c: Seq<Note>,
    path: Seq<int>,
    again: Seq<int>,
    collections: Seq<Collection>,
    chain: Seq<int>,
    vault: Seq<char>,
    root: Seq<char>,
    folder: Seq<char>,
    other: Seq<char>,
)
    requires
        folders_ready(a, b, path, collections, chain, vault, root, folder),
        folders_ready(b, c, again, collections, chain, vault, root, other),
    ensures
        c == b,
        other == folder,
{
    lemma_same_path(b, c, path, again, collections, chain, vault, root, chain.len() as int);
    if c.len() > b.len() {
        assert(again.contains(b.len() as int));
        let j = choose|j: int| 0 <= j < again.len() && again[j] == b.len();
        assert(path[j] == again[j]);
        assert(false);
    }
    assert(c =~= c.take(b.len() as int));
}

proof fn lemma_ancestors_len(collections: Seq<Collection>, k: int, left: nat)
    ensures
        ancestors(collections, k, left).len() <= left + 1,
    decreases left,
{
    if left > 0 && 0 <= k < collections.len() {
        if let Some(p) = collections[k].parent_id {
            if let Some(m) = collection_at(collections, p@, 0) {
                lemma_ancestors_len(collections, m, (left - 1) as nat);
            }
        }
    }
}

proof fn lemma_with_folders_len(collections: Seq<Collection>, chain: Seq<int>)
    ensures
        with_folders(collections, chain).len() <= chain.len(),
    decreases chain.len(),
{
    if chain.len() > 0 {
        lemma_with_folders_len(collections, chain.drop_last());
    }
}

/// The chain of folders that leads to a collection is short.
pub proof fn lemma_chain_is_short(collections: Seq<Collection>, leaf: int)
    ensures
        with_folders(collections, ancestors(collections, leaf, 31).reverse()).len() <= 32,
{
    lemma_ancestors_len(collections, leaf, 31);
    lemma_with_folders_len(collections, ancestors(collections, leaf, 31).reverse());
}

} // verus!
