//! Collections and the folders that mirror them change as they are told, and nothing else does; paths do
//! not lead out of where they are put.
use vstd::prelude::*;
use vstd::string::*;

use crate::archive::{depth_of, is_enclosed, Entry};
use crate::collection_service::by_listing;
use crate::collection_store::{follows, is_edited, is_freed, mirrors, CollectionEdit};
use crate::library_folder::library_id;
use crate::listing_laws::{lemma_listed, lemma_places, lemma_same_place, lemma_within};
use crate::models::{Collection, Note};
use crate::order::{lemma_text_before, orders, places, sorted};
use crate::skills::{is_skill_file, skill_folder, zipped_skill, installed_as, ZIP_MAX_ENTRIES};
use crate::text::{digit_value, holds, number_value, opt_text};

verus! {

// ---------------------------------------------------------------------------------------------
// Collections
// ---------------------------------------------------------------------------------------------
/// An edit gives the collection the name and the parent that it says, and changes no other collection.
pub proof fn law_edit_of_a_collection(
    c: Collection,
    e: CollectionEdit,
    id: Seq<char>,
    r: Collection,
)
    requires
        is_edited(c, e, id, r),
    ensures
        c.id@ != id ==> r == c,
        c.id@ == id && e.name is Some ==> r.name@ == e.name->0@,
        c.id@ == id && e.name is None ==> r.name@ == c.name@,
        c.id@ == id && e.parent_id is Some && opt_text(e.parent_id->0) != Some(id) ==> opt_text(
            r.parent_id,
        ) == opt_text(e.parent_id->0),
        c.id@ == id && e.parent_id is None ==> opt_text(r.parent_id) == opt_text(c.parent_id),
        r.id == c.id,
        r.sort_order == c.sort_order,
        r.created_at == c.created_at,
{
}

/// A folder that mirrors a collection takes over its new name and goes below the folder of its new parent,
/// or into the library where that has none; every other note is as it was.
pub proof fn law_folders_follow_their_collection(
    notes: Seq<Note>,
    n: Note,
    e: CollectionEdit,
    id: Seq<char>,
    now: Seq<char>,
    r: Note,
    k: int,
)
    requires
        follows(notes, n, e, id, now, r),
    ensures
        !(n.is_folder == 1 && opt_text(n.source_collection_id) == Some(id)) ==> r == n,
        n.is_folder == 1 && opt_text(n.source_collection_id) == Some(id) && e.name is Some
            ==> r.title@ == e.name->0@,
        n.is_folder == 1 && opt_text(n.source_collection_id) == Some(id) && e.parent_id is Some
            && e.parent_id->0 is None ==> opt_text(r.parent_id) == Some(library_id(n.vault_id@)),
        n.is_folder == 1 && opt_text(n.source_collection_id) == Some(id) && e.parent_id is Some
            && e.parent_id->0 is Some && e.parent_id->0->0@ != id && 0 <= k < notes.len()
            && notes[k].is_folder == 1 && opt_text(notes[k].source_collection_id) == opt_text(
            e.parent_id->0,
        ) && (forall|j: int|
            0 <= j < k ==> !((#[trigger] notes[j]).is_folder == 1 && opt_text(
                notes[j].source_collection_id,
            ) == opt_text(e.parent_id->0))) ==> opt_text(r.parent_id) == Some(notes[k].id@),
        r.id == n.id,
        r.content == n.content,
        r.vault_id == n.vault_id,
{
    if e.parent_id is Some && e.parent_id->0 is Some {
        let p = e.parent_id->0->0@;
        crate::table::law_first_place(notes, mirrors(p), 0);
        if 0 <= k < notes.len() {
            assert(mirrors(p)(notes[k]) == (notes[k].is_folder == 1 && opt_text(
                notes[k].source_collection_id,
            ) == Some(p)));
            if let Some(f) = crate::table::first_place(notes, mirrors(p), 0) {
                assert(mirrors(p)(notes[f]) == (notes[f].is_folder == 1 && opt_text(
                    notes[f].source_collection_id,
                ) == Some(p)));
            }
        }
    }
}

/// When collections go, a note that mirrored one of them mirrors none, and every other is as it was.
pub proof fn law_mirrors_are_freed(n: Note, ids: Seq<Seq<char>>, now: Seq<char>, r: Note)
    requires
        is_freed(n, ids, now, r),
    ensures
        n.source_collection_id is Some && holds(ids, n.source_collection_id->0@)
            ==> r.source_collection_id is None && r.updated_at@ == now,
        n.source_collection_id is None || !holds(ids, n.source_collection_id->0@) ==> r == n,
        r.id == n.id,
        r.title == n.title,
        r.content == n.content,
        r.parent_id == n.parent_id,
{
}

/// All collections are listed: those at the top first, and those below one parent by their numbers.
pub proof fn law_collections_by_number(list: Seq<Collection>, i: int, j: int, k: int)
    ensures
        ({
            let s = sorted(places(list.len()), by_listing(list));
            &&& s.contains(k) <==> 0 <= k < list.len()
            &&& 0 <= i < j < s.len() ==> (list[s[j]].parent_id is None ==> list[s[i]].parent_id
                is None) && (opt_text(list[s[i]].parent_id) == opt_text(list[s[j]].parent_id)
                ==> list[s[i]].sort_order <= list[s[j]].sort_order)
        }),
{
    let before = by_listing(list);
    let all = places(list.len());
    let s = sorted(all, before);
    assert(orders(before)) by {
        assert forall|a: int, b: int| #[trigger] before(a, b) implies !before(b, a) by {
            lemma_text_before(list[a].name@, list[b].name@, list[b].name@);
            if list[a].parent_id is Some && list[b].parent_id is Some {
                let x = list[a].parent_id->0@;
                let y = list[b].parent_id->0@;
                lemma_text_before(x, y, y);
                lemma_text_before(y, x, x);
            }
        }
        assert forall|a: int, b: int, c: int| #[trigger] before(a, c) implies #[trigger] before(a, b)
            || #[trigger] before(b, c) by {
            lemma_text_before(list[a].name@, list[b].name@, list[c].name@);
            if list[a].parent_id is Some && list[b].parent_id is Some && list[c].parent_id is Some {
                let x = list[a].parent_id->0@;
                let y = list[b].parent_id->0@;
                let z = list[c].parent_id->0@;
                lemma_text_before(x, y, z);
                lemma_text_before(x, y, x);
                lemma_same_place(x, y);
                lemma_same_place(y, z);
            }
        }
    }
    lemma_listed(all, before, k, i, j);
    lemma_places(list.len(), k);
    if 0 <= i < j < s.len() {
        lemma_within(all, before, i);
        lemma_within(all, before, j);
        lemma_places(list.len(), s[i]);
        lemma_places(list.len(), s[j]);
        if list[s[i]].parent_id is Some && list[s[j]].parent_id is Some {
            lemma_text_before(
                list[s[i]].parent_id->0@,
                list[s[j]].parent_id->0@,
                list[s[i]].parent_id->0@,
            );
        }
    }
}

// ---------------------------------------------------------------------------------------------
// Paths
// ---------------------------------------------------------------------------------------------
/// Each part of a path leads a level down, two dots lead one up, and a path that leads above its start once
/// does so whatever follows.
pub proof fn law_every_part_of_a_path_counts(parts: Seq<Seq<char>>, part: Seq<char>, rest: Seq<Seq<char>>)
    ensures
        depth_of(parts) is Some && part.len() > 0 && part != "."@ && part != ".."@ ==> depth_of(
            parts.push(part),
        ) == Some(depth_of(parts)->0 + 1),
        depth_of(parts) is Some && (part.len() == 0 || part == "."@) ==> depth_of(parts.push(part))
            == depth_of(parts),
        depth_of(parts) == Some(0nat) ==> depth_of(parts.push(".."@)) is None,
        depth_of(parts) is Some && depth_of(parts)->0 > 0 ==> depth_of(parts.push(".."@)) == Some(
            (depth_of(parts)->0 - 1) as nat,
        ),
        depth_of(parts) is None ==> depth_of(parts + rest) is None,
        depth_of(Seq::<Seq<char>>::empty()) == Some(0nat),
{
    reveal_strlit("..");
    reveal_strlit(".");
    assert(".."@.len() == 2 && "."@.len() == 1);
    assert(parts.push(part).drop_last() =~= parts);
    assert(parts.push(".."@).drop_last() =~= parts);
    assert(parts.push(part).last() == part);
    assert(parts.push(".."@).last() == ".."@);
    lemma_leads_out(parts, rest);
}

proof fn lemma_leads_out(parts: Seq<Seq<char>>, rest: Seq<Seq<char>>)
    ensures
        depth_of(parts) is None ==> depth_of(parts + rest) is None,
    decreases rest.len(),
{
    if rest.len() == 0 {
        assert(parts + rest =~= parts);
    } else {
        lemma_leads_out(parts, rest.drop_last());
        assert((parts + rest).drop_last() =~= parts + rest.drop_last());
    }
}

// ---------------------------------------------------------------------------------------------
// Skills in archives
// ---------------------------------------------------------------------------------------------
/// The skill in an archive is that of its first `SKILL.md`, with the folder in which that stands.
pub proof fn law_archive_gives_its_first_skill(list: Seq<Entry>, k: int, text: Seq<char>)
    requires
        list.len() <= ZIP_MAX_ENTRIES,
        0 <= k < list.len(),
        forall|j: int| 0 <= j < list.len() ==> (#[trigger] list[j]).info is Ok,
        is_enclosed(list[k].name) && is_skill_file(list[k].name),
        forall|j: int|
            0 <= j < k ==> !(is_enclosed((#[trigger] list[j]).name) && is_skill_file(list[j].name)),
        list[k].text == Ok::<Seq<char>, Seq<char>>(text),
        installed_as(text) is Ok,
    ensures
        zipped_skill(list) is Ok,
        zipped_skill(list)->Ok_0.name == installed_as(text)->Ok_0.name,
        zipped_skill(list)->Ok_0.description == installed_as(text)->Ok_0.description,
        zipped_skill(list)->Ok_0.prefix == skill_folder(list[k].name),
{
    crate::skill_laws::law_first_skill_file_is_taken(list, 0);
    if let Ok(Some(f)) = crate::skills::skill_entry(list, 0) {
        if f < k {
            assert(!(is_enclosed(list[f].name) && is_skill_file(list[f].name)));
        } else if k < f {
            assert(!(is_enclosed(list[k].name) && is_skill_file(list[k].name)));
        }
    }
}

// ---------------------------------------------------------------------------------------------
// Numbers and details
// ---------------------------------------------------------------------------------------------
/// Each digit of a number counts ten times as much as the one behind it.
pub proof fn law_every_digit_counts(s: Seq<char>, c: char)
    ensures
        number_value(s.push(c)) == number_value(s) * 10 + digit_value(c),
        number_value(Seq::empty()) == 0,
{
    assert(s.push(c).drop_last() =~= s);
    assert(s.push(c).last() == c);
}

} // verus!
