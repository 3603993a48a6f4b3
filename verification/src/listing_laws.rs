//! Lists hold all that they should, in the order that they should: by number, by name or by time.
use vstd::prelude::*;
use vstd::string::*;

use crate::annotation_service::{listed, on_paper};
use crate::bookmark_service::bookmark_times;
use crate::llm_provider_service::{by_shown, LlmProvider};
use crate::models::{
    Annotation, Bookmark, FileEntry, FileItem, Note, Paper, Project, SavedSearch, Setting, Tag, Vault,
};
use crate::note_rows::{in_vault, note_times};
use crate::order::{
    greatest_first, law_sorted, least_first, lemma_text_before, orders, places, rising_texts,
    sorted, text_before,
};
use crate::paper_rows::{paper_times, related_to, search_times, LinkModel};
use crate::settings_service::row_keys;
use crate::table::{law_picked, picked};
use crate::tag_service::{tag_names, tags_by_name};
use crate::tasks::{newest_tasks, task_times, TaskHandle};
use crate::text::{lower, lowercase_of};
use crate::time::is_earlier;
use crate::timeline_service::{lemma_newest_first, newest_first, ItemModel};

verus! {

// ---------------------------------------------------------------------------------------------
// Orders
// ---------------------------------------------------------------------------------------------
/// Texts are ordered by the first character in which they differ, and a text goes before each that goes on
/// where it ends; none goes before itself.
pub proof fn law_first_difference_decides(
    p: Seq<char>,
    x: char,
    a: Seq<char>,
    y: char,
    b: Seq<char>,
)
    ensures
        x != y ==> text_before(p + seq![x] + a, p + seq![y] + b) == (x < y),
        text_before(p, p + seq![x] + a),
        !text_before(p + seq![x] + a, p),
        !text_before(p, p),
    decreases p.len(),
{
    let s = p + seq![x] + a;
    let t = p + seq![y] + b;
    if p.len() == 0 {
        assert(s[0] == x && t[0] == y);
    } else {
        let q = p.skip(1);
        law_first_difference_decides(q, x, a, y, b);
        assert(s[0] == p[0] && t[0] == p[0]);
        assert(s.skip(1) =~= q + seq![x] + a);
        assert(t.skip(1) =~= q + seq![y] + b);
    }
}

proof fn lemma_greatest(keys: Seq<Seq<char>>)
    ensures
        orders(greatest_first(keys)),
{
    let before = greatest_first(keys);
    assert forall|a: int, b: int| #[trigger] before(a, b) implies !before(b, a) by {
        lemma_text_before(keys[b], keys[a], keys[a]);
    }
    assert forall|a: int, b: int, c: int| #[trigger] before(a, c) implies #[trigger] before(a, b)
        || #[trigger] before(b, c) by {
        lemma_text_before(keys[c], keys[b], keys[a]);
    }
}

proof fn lemma_least(keys: Seq<Seq<char>>)
    ensures
        orders(least_first(keys)),
{
    let before = least_first(keys);
    assert forall|a: int, b: int| #[trigger] before(a, b) implies !before(b, a) by {
        lemma_text_before(keys[a], keys[b], keys[b]);
    }
    assert forall|a: int, b: int, c: int| #[trigger] before(a, c) implies #[trigger] before(a, b)
        || #[trigger] before(b, c) by {
        lemma_text_before(keys[a], keys[b], keys[c]);
    }
}

pub proof fn lemma_listed<T>(s: Seq<T>, before: spec_fn(T, T) -> bool, x: T, i: int, j: int)
    requires
        orders(before),
    ensures
        sorted(s, before).contains(x) <==> s.contains(x),
        0 <= i < j < sorted(s, before).len() ==> !before(sorted(s, before)[j], sorted(s, before)[i]),
{
    law_sorted(s, before);
    let r = sorted(s, before);
    r.to_multiset_ensures();
    s.to_multiset_ensures();
    assert(r.contains(x) <==> r.to_multiset().count(x) > 0);
    assert(s.contains(x) <==> s.to_multiset().count(x) > 0);
    if 0 <= i < j < r.len() {
        assert(!before(r[j], r[i]));
    }
}

pub proof fn lemma_places(n: nat, k: int)
    ensures
        places(n).contains(k) <==> 0 <= k < n,
{
    if 0 <= k < n {
        assert(places(n)[k] == k);
    }
}

// ---------------------------------------------------------------------------------------------
// By time
// ---------------------------------------------------------------------------------------------
pub proof fn lemma_within(p: Seq<int>, before: spec_fn(int, int) -> bool, i: int)
    requires
        orders(before),
        0 <= i < sorted(p, before).len(),
    ensures
        p.contains(sorted(p, before)[i]),
{
    crate::order::lemma_sorted_members(p, before);
}

/// All bookmarks are listed, the newest first.
pub proof fn law_bookmarks_newest_first(list: Seq<Bookmark>, i: int, j: int, k: int)
    ensures
        ({
            let s = sorted(places(list.len()), greatest_first(bookmark_times(list)));
            &&& s.contains(k) <==> 0 <= k < list.len()
            &&& 0 <= i < j < s.len() ==> !text_before(list[s[i]].created_at@, list[s[j]].created_at@)
        }),
{
    let keys = bookmark_times(list);
    let s = sorted(places(list.len()), greatest_first(keys));
    lemma_greatest(keys);
    lemma_listed(places(list.len()), greatest_first(keys), k, i, j);
    lemma_places(list.len(), k);
    if 0 <= i < j < s.len() {
        lemma_within(places(list.len()), greatest_first(keys), i);
        lemma_within(places(list.len()), greatest_first(keys), j);
        lemma_places(list.len(), s[i]);
        lemma_places(list.len(), s[j]);
    }
}

/// All saved searches are listed, the newest first.
pub proof fn law_searches_newest_first(list: Seq<SavedSearch>, i: int, j: int, k: int)
    ensures
        ({
            let s = sorted(places(list.len()), greatest_first(search_times(list)));
            &&& s.contains(k) <==> 0 <= k < list.len()
            &&& 0 <= i < j < s.len() ==> !text_before(list[s[i]].created_at@, list[s[j]].created_at@)
        }),
{
    let keys = search_times(list);
    let s = sorted(places(list.len()), greatest_first(keys));
    lemma_greatest(keys);
    lemma_listed(places(list.len()), greatest_first(keys), k, i, j);
    lemma_places(list.len(), k);
    if 0 <= i < j < s.len() {
        lemma_within(places(list.len()), greatest_first(keys), i);
        lemma_within(places(list.len()), greatest_first(keys), j);
        lemma_places(list.len(), s[i]);
        lemma_places(list.len(), s[j]);
    }
}

/// All settings are listed, by their keys.
pub proof fn law_settings_by_key(list: Seq<Setting>, i: int, j: int, k: int)
    ensures
        ({
            let s = sorted(places(list.len()), least_first(row_keys(list)));
            &&& s.contains(k) <==> 0 <= k < list.len()
            &&& 0 <= i < j < s.len() ==> !text_before(list[s[j]].key@, list[s[i]].key@)
        }),
{
    let keys = row_keys(list);
    let s = sorted(places(list.len()), least_first(keys));
    lemma_least(keys);
    lemma_listed(places(list.len()), least_first(keys), k, i, j);
    lemma_places(list.len(), k);
    if 0 <= i < j < s.len() {
        lemma_within(places(list.len()), least_first(keys), i);
        lemma_within(places(list.len()), least_first(keys), j);
        lemma_places(list.len(), s[i]);
        lemma_places(list.len(), s[j]);
    }
}

/// All notes of a vault are listed, the one changed last first.
pub proof fn law_notes_of_a_vault_newest_first(notes: Seq<Note>, vault: Seq<char>, i: int, j: int, k: int)
    ensures
        ({
            let s = sorted(picked(notes, in_vault(vault)), greatest_first(note_times(notes)));
            &&& s.contains(k) <==> 0 <= k < notes.len() && notes[k].vault_id@ == vault
            &&& 0 <= i < j < s.len() ==> !text_before(notes[s[i]].updated_at@, notes[s[j]].updated_at@)
        }),
{
    let keys = note_times(notes);
    let p = picked(notes, in_vault(vault));
    let s = sorted(p, greatest_first(keys));
    lemma_greatest(keys);
    law_picked(notes, in_vault(vault));
    lemma_listed(p, greatest_first(keys), k, i, j);
    assert(p.contains(k) <==> 0 <= k < notes.len() && in_vault(vault)(notes[k]));
    if 0 <= i < j < s.len() {
        lemma_within(p, greatest_first(keys), i);
        lemma_within(p, greatest_first(keys), j);
        assert(p.contains(s[i]) && p.contains(s[j]));
    }
}

/// All papers that are linked to a paper, in either direction, and are not in the trash are listed, the
/// one changed last first.
pub proof fn law_related_papers_newest_first(list: Seq<Paper>, links: Seq<LinkModel>, id: Seq<char>, i: int, j: int, k: int)
    ensures
        ({
            let s = sorted(picked(list, related_to(links, id)), greatest_first(paper_times(list)));
            &&& s.contains(k) <==> 0 <= k < list.len() && list[k].deleted_at is None && (links.contains(
                LinkModel { paper_id: id, other_id: list[k].id@ },
            ) || links.contains(LinkModel { paper_id: list[k].id@, other_id: id }))
            &&& 0 <= i < j < s.len() ==> !text_before(list[s[i]].updated_at@, list[s[j]].updated_at@)
        }),
{
    let keys = paper_times(list);
    let p = picked(list, related_to(links, id));
    let s = sorted(p, greatest_first(keys));
    lemma_greatest(keys);
    law_picked(list, related_to(links, id));
    lemma_listed(p, greatest_first(keys), k, i, j);
    assert(p.contains(k) <==> 0 <= k < list.len() && related_to(links, id)(list[k]));
    if 0 <= i < j < s.len() {
        lemma_within(p, greatest_first(keys), i);
        lemma_within(p, greatest_first(keys), j);
        assert(p.contains(s[i]) && p.contains(s[j]));
    }
}

/// All tasks are listed, the newest first.
pub proof fn law_tasks_newest_first(store: Seq<TaskHandle>, i: int, j: int, k: int)
    ensures
        ({
            let s = newest_tasks(store);
            &&& s.contains(k) <==> 0 <= k < store.len()
            &&& 0 <= i < j < s.len() ==> !text_before(
                store[s[i]].info.created_at@,
                store[s[j]].info.created_at@,
            )
        }),
{
    let keys = task_times(store);
    let all = places(store.len());
    let s = newest_tasks(store);
    lemma_greatest(keys);
    lemma_listed(all, greatest_first(keys), k, i, j);
    lemma_places(store.len(), k);
    if 0 <= i < j < s.len() {
        lemma_within(all, greatest_first(keys), i);
        lemma_within(all, greatest_first(keys), j);
        lemma_places(store.len(), s[i]);
        lemma_places(store.len(), s[j]);
    }
}

/// No entry of the timeline comes before a later one.
pub proof fn law_later_entries_come_first(items: Seq<ItemModel>, x: ItemModel, i: int, j: int)
    ensures
        ({
            let s = sorted(items, newest_first());
            &&& s.contains(x) <==> items.contains(x)
            &&& 0 <= i < j < s.len() ==> !is_earlier(s[i].timestamp, s[j].timestamp)
        }),
{
    lemma_newest_first();
    lemma_listed(items, newest_first(), x, i, j);
}

// ---------------------------------------------------------------------------------------------
// By name and number
// ---------------------------------------------------------------------------------------------
/// The tags that are wanted are all listed, by their names.
pub proof fn law_tags_by_name(
    tags: Seq<Tag>,
    wanted: spec_fn(Tag) -> bool,
    i: int,
    j: int,
    k: int,
)
    ensures
        ({
            let s = tags_by_name(tags, wanted);
            &&& s.contains(k) <==> 0 <= k < tags.len() && wanted(tags[k])
            &&& 0 <= i < j < s.len() ==> !text_before(tags[s[j]].name@, tags[s[i]].name@)
        }),
{
    let keys = tag_names(tags);
    let p = picked(tags, wanted);
    let s = tags_by_name(tags, wanted);
    lemma_least(keys);
    law_picked(tags, wanted);
    lemma_listed(p, least_first(keys), k, i, j);
    assert(p.contains(k) <==> 0 <= k < tags.len() && wanted(tags[k]));
    if 0 <= i < j < s.len() {
        lemma_within(p, least_first(keys), i);
        lemma_within(p, least_first(keys), j);
        assert(p.contains(s[i]) && p.contains(s[j]));
    }
}

/// Sorted texts are all there, and none stands behind one that it goes before.
pub proof fn law_texts_rise(v: Seq<Seq<char>>, x: Seq<char>, i: int, j: int)
    ensures
        ({
            let s = sorted(v, rising_texts());
            &&& s.contains(x) <==> v.contains(x)
            &&& 0 <= i < j < s.len() ==> !text_before(s[j], s[i])
        }),
{
    crate::order::lemma_rising_orders();
    lemma_listed(v, rising_texts(), x, i, j);
}

/// All projects are listed: those that are put away behind the others, and of two of a kind the older first.
pub proof fn law_projects_in_use_first(list: Seq<Project>, i: int, j: int, k: int)
    ensures
        ({
            let s = sorted(places(list.len()), crate::project_service::by_listing(list));
            &&& s.contains(k) <==> 0 <= k < list.len()
            &&& 0 <= i < j < s.len() ==> (list[s[i]].archived ==> list[s[j]].archived) && (
            list[s[i]].archived == list[s[j]].archived ==> !text_before(
                list[s[j]].created_at@,
                list[s[i]].created_at@,
            ))
        }),
{
    let before = crate::project_service::by_listing(list);
    let all = places(list.len());
    let s = sorted(all, before);
    assert(orders(before)) by {
        assert forall|a: int, b: int| #[trigger] before(a, b) implies !before(b, a) by {
            lemma_text_before(list[a].created_at@, list[b].created_at@, list[b].created_at@);
        }
        assert forall|a: int, b: int, c: int| #[trigger] before(a, c) implies #[trigger] before(a, b)
            || #[trigger] before(b, c) by {
            lemma_text_before(list[a].created_at@, list[b].created_at@, list[c].created_at@);
        }
    }
    lemma_listed(all, before, k, i, j);
    lemma_places(list.len(), k);
    if 0 <= i < j < s.len() {
        lemma_within(all, before, i);
        lemma_within(all, before, j);
        lemma_places(list.len(), s[i]);
        lemma_places(list.len(), s[j]);
    }
}

/// All entries of a directory are listed: directories before files, and each kind by name.
pub proof fn law_directories_first(list: Seq<FileEntry>, i: int, j: int, k: int)
    ensures
        ({
            let s = sorted(places(list.len()), crate::file_service::by_listing(list));
            &&& s.contains(k) <==> 0 <= k < list.len()
            &&& 0 <= i < j < s.len() ==> (list[s[j]].is_dir ==> list[s[i]].is_dir) && (list[s[i]].is_dir
                == list[s[j]].is_dir ==> !text_before(
                lowercase_of(list[s[j]].name@),
                lowercase_of(list[s[i]].name@),
            ))
        }),
{
    let before = crate::file_service::by_listing(list);
    let all = places(list.len());
    let s = sorted(all, before);
    assert(orders(before)) by {
        assert forall|a: int, b: int| #[trigger] before(a, b) implies !before(b, a) by {
            lemma_text_before(lowercase_of(list[a].name@), lowercase_of(list[b].name@), lowercase_of(list[b].name@));
        }
        assert forall|a: int, b: int, c: int| #[trigger] before(a, c) implies #[trigger] before(a, b)
            || #[trigger] before(b, c) by {
            lemma_text_before(lowercase_of(list[a].name@), lowercase_of(list[b].name@), lowercase_of(list[c].name@));
        }
    }
    lemma_listed(all, before, k, i, j);
    lemma_places(list.len(), k);
    if 0 <= i < j < s.len() {
        lemma_within(all, before, i);
        lemma_within(all, before, j);
        lemma_places(list.len(), s[i]);
        lemma_places(list.len(), s[j]);
    }
}

/// All vaults are listed, the oldest first.
pub proof fn law_vaults_oldest_first(list: Seq<Vault>, i: int, j: int, k: int)
    ensures
        ({
            let s = sorted(places(list.len()), crate::vault_service::by_listing(list));
            &&& s.contains(k) <==> 0 <= k < list.len()
            &&& 0 <= i < j < s.len() ==> !text_before(list[s[j]].created_at@, list[s[i]].created_at@)
        }),
{
    let before = crate::vault_service::by_listing(list);
    let all = places(list.len());
    let s = sorted(all, before);
    assert(orders(before)) by {
        assert forall|a: int, b: int| #[trigger] before(a, b) implies !before(b, a) by {
            lemma_text_before(list[a].created_at@, list[b].created_at@, list[b].created_at@);
            lemma_text_before(list[a].id@, list[b].id@, list[b].id@);
        }
        assert forall|a: int, b: int, c: int| #[trigger] before(a, c) implies #[trigger] before(a, b)
            || #[trigger] before(b, c) by {
            lemma_text_before(list[a].created_at@, list[b].created_at@, list[c].created_at@);
            lemma_text_before(list[b].created_at@, list[a].created_at@, list[a].created_at@);
            lemma_text_before(list[a].id@, list[b].id@, list[c].id@);
            lemma_same_place(list[a].created_at@, list[b].created_at@);
            lemma_same_place(list[b].created_at@, list[c].created_at@);
        }
    }
    lemma_listed(all, before, k, i, j);
    lemma_places(list.len(), k);
    if 0 <= i < j < s.len() {
        lemma_within(all, before, i);
        lemma_within(all, before, j);
        lemma_places(list.len(), s[i]);
        lemma_places(list.len(), s[j]);
    }
}

/// All models are listed: the default first, and then by their numbers.
pub proof fn law_default_model_first<T>(list: Seq<LlmProvider<T>>, i: int, j: int, k: int)
    ensures
        ({
            let s = sorted(places(list.len()), by_shown(list));
            &&& s.contains(k) <==> 0 <= k < list.len()
            &&& 0 <= i < j < s.len() ==> (list[s[j]].is_default ==> list[s[i]].is_default) && (
            list[s[i]].is_default == list[s[j]].is_default ==> list[s[i]].sort_order
                <= list[s[j]].sort_order)
        }),
{
    let before = by_shown(list);
    let all = places(list.len());
    let s = sorted(all, before);
    assert(orders(before)) by {
        assert forall|a: int, b: int| #[trigger] before(a, b) implies !before(b, a) by {
            lemma_text_before(list[a].created_at@, list[b].created_at@, list[b].created_at@);
        }
        assert forall|a: int, b: int, c: int| #[trigger] before(a, c) implies #[trigger] before(a, b)
            || #[trigger] before(b, c) by {
            lemma_text_before(list[a].created_at@, list[b].created_at@, list[c].created_at@);
        }
    }
    lemma_listed(all, before, k, i, j);
    lemma_places(list.len(), k);
    if 0 <= i < j < s.len() {
        lemma_within(all, before, i);
        lemma_within(all, before, j);
        lemma_places(list.len(), s[i]);
        lemma_places(list.len(), s[j]);
    }
}

/// Of two texts neither of which goes before the other both are the same.
pub proof fn lemma_same_place(a: Seq<char>, b: Seq<char>)
    ensures
        text_before(a, b) || text_before(b, a) || a == b,
    decreases a.len(),
{
    if a.len() > 0 && b.len() > 0 {
        if a[0] == b[0] {
            lemma_same_place(a.skip(1), b.skip(1));
            if a.skip(1) == b.skip(1) {
                assert(a =~= seq![a[0]] + a.skip(1));
                assert(b =~= seq![b[0]] + b.skip(1));
            }
        }
    } else if a.len() == 0 && b.len() == 0 {
        assert(a =~= b);
    }
}

/// All marks on a paper are listed, by page, and on one page the older first.
pub proof fn law_marks_by_page(list: Seq<Annotation>, paper: Seq<char>, i: int, j: int, k: int)
    ensures
        ({
            let s = listed(list, paper);
            &&& s.contains(k) <==> 0 <= k < list.len() && list[k].paper_id@ == paper
            &&& 0 <= i < j < s.len() ==> list[s[i]].page <= list[s[j]].page && (list[s[i]].page
                == list[s[j]].page ==> !text_before(
                list[s[j]].created_at@,
                list[s[i]].created_at@,
            ))
        }),
{
    let before = crate::annotation_service::by_listing(list);
    let p = picked(list, on_paper(paper));
    let s = listed(list, paper);
    assert(orders(before)) by {
        assert forall|a: int, b: int| #[trigger] before(a, b) implies !before(b, a) by {
            lemma_text_before(list[a].created_at@, list[b].created_at@, list[b].created_at@);
        }
        assert forall|a: int, b: int, c: int| #[trigger] before(a, c) implies #[trigger] before(a, b)
            || #[trigger] before(b, c) by {
            lemma_text_before(list[a].created_at@, list[b].created_at@, list[c].created_at@);
        }
    }
    law_picked(list, on_paper(paper));
    lemma_listed(p, before, k, i, j);
    assert(p.contains(k) <==> 0 <= k < list.len() && on_paper(paper)(list[k]));
    if 0 <= i < j < s.len() {
        lemma_within(p, before, i);
        lemma_within(p, before, j);
        assert(p.contains(s[i]) && p.contains(s[j]));
    }
}

/// All files of a vault are listed, by their numbers, and those with one number by name.
pub proof fn law_files_by_number(list: Seq<FileItem>, vault: Seq<char>, i: int, j: int, k: int)
    ensures
        ({
            let s = sorted(
                picked(list, crate::file_item_service::in_vault(vault)),
                crate::file_item_service::by_listing(list),
            );
            &&& s.contains(k) <==> 0 <= k < list.len() && list[k].vault_id@ == vault
            &&& 0 <= i < j < s.len() ==> list[s[i]].sort_order <= list[s[j]].sort_order && (
            list[s[i]].sort_order == list[s[j]].sort_order ==> !text_before(
                lower(list[s[j]].name@),
                lower(list[s[i]].name@),
            ))
        }),
{
    let before = crate::file_item_service::by_listing(list);
    let wanted = crate::file_item_service::in_vault(vault);
    let p = picked(list, wanted);
    let s = sorted(p, before);
    assert(orders(before)) by {
        assert forall|a: int, b: int| #[trigger] before(a, b) implies !before(b, a) by {
            lemma_text_before(lower(list[a].name@), lower(list[b].name@), lower(list[b].name@));
        }
        assert forall|a: int, b: int, c: int| #[trigger] before(a, c) implies #[trigger] before(a, b)
            || #[trigger] before(b, c) by {
            lemma_text_before(lower(list[a].name@), lower(list[b].name@), lower(list[c].name@));
        }
    }
    law_picked(list, wanted);
    lemma_listed(p, before, k, i, j);
    assert(p.contains(k) <==> 0 <= k < list.len() && wanted(list[k]));
    if 0 <= i < j < s.len() {
        lemma_within(p, before, i);
        lemma_within(p, before, j);
        assert(p.contains(s[i]) && p.contains(s[j]));
    }
}

} // verus!
