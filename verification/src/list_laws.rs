//! What is picked from a list is all that should be, and what is looked for is found.
use vstd::prelude::*;
use vstd::string::*;

use crate::agent_memory_service::{version_at, VersionModel};
use crate::archive::{entry_named, Entry as ArchiveEntry};
use crate::batch_import::{is_pdf_path, pdf_paths};
use crate::creator_rows::{
    all_rows, has_rows, missing_rows, numbered, rows_for, rows_of, rows_of_others, rows_without_papers,
    CreatorRowModel,
};
use crate::file_service::{listed_places, FoundEntry};
use crate::file_store::hashes_in;
use crate::library_folder::{is_system_folder, system_ids};
use crate::llm_provider_service::{default_from, highest, provider_from, LlmProvider};
use crate::models::{Note, Paper, Setting};
use crate::navigation_guard::{hex_number, hex_value};
use crate::pairs::pairs_map;
use crate::paper_query::search_terms;
use crate::paper_service::CreatorModel;
use crate::pattern::{is_meta, regex_literal};
use crate::settings_service::setting_from;
use crate::text::{holds, split_once, starts_with};
use crate::vault_import::{last_value, Entry};
use crate::vault_import_run::note_picks;
use crate::vault_store::note_ids;

verus! {

// ---------------------------------------------------------------------------------------------
// What is picked
// ---------------------------------------------------------------------------------------------
/// The PDFs among paths are all paths of PDFs, in their order.
pub proof fn law_every_pdf_is_taken(paths: Seq<Seq<char>>)
    ensures
        pdf_paths(paths) == paths.filter(|p: Seq<char>| is_pdf_path(p)),
    decreases paths.len(),
{
    reveal(Seq::filter);
    if paths.len() > 0 {
        law_every_pdf_is_taken(paths.drop_last());
    }
}

/// The rows of a paper are all rows with its id, those of others all rows with another, in their order.
pub proof fn law_every_row_of_a_paper(rows: Seq<CreatorRowModel>, paper: Seq<char>)
    ensures
        rows_of(rows, paper) == rows.filter(|r: CreatorRowModel| r.paper_id == paper),
        rows_of_others(rows, paper) == rows.filter(|r: CreatorRowModel| r.paper_id != paper),
    decreases rows.len(),
{
    reveal(Seq::filter);
    if rows.len() > 0 {
        law_every_row_of_a_paper(rows.drop_last(), paper);
    }
}

/// When papers are deleted, just their rows go.
pub proof fn law_rows_of_deleted_papers_go(
    rows: Seq<CreatorRowModel>,
    ids: Seq<Seq<char>>,
    r: CreatorRowModel,
)
    ensures
        rows_without_papers(rows, ids).contains(r) <==> rows.contains(r) && !holds(ids, r.paper_id),
    decreases ids.len(),
{
    if ids.len() > 0 {
        let shorter = ids.drop_last();
        let before = rows_without_papers(rows, shorter);
        law_rows_of_deleted_papers_go(rows, shorter, r);
        lemma_others(before, ids.last(), r);
        if holds(shorter, r.paper_id) {
            let i = choose|i: int| 0 <= i < shorter.len() && shorter[i] == r.paper_id;
            assert(ids[i] == r.paper_id);
        }
        if holds(ids, r.paper_id) {
            let i = choose|i: int| 0 <= i < ids.len() && ids[i] == r.paper_id;
            if i < shorter.len() {
                assert(shorter[i] == r.paper_id);
            }
        }
        assert(ids[ids.len() - 1] == ids.last());
    }
}

proof fn lemma_others(rows: Seq<CreatorRowModel>, paper: Seq<char>, r: CreatorRowModel)
    ensures
        rows_of_others(rows, paper).contains(r) <==> rows.contains(r) && r.paper_id != paper,
    decreases rows.len(),
{
    if rows.len() > 0 {
        let shorter = rows.drop_last();
        let before = rows_of_others(shorter, paper);
        let all = rows_of_others(rows, paper);
        lemma_others(shorter, paper, r);
        if shorter.contains(r) {
            let i = choose|i: int| 0 <= i < shorter.len() && shorter[i] == r;
            assert(rows[i] == r);
        }
        if rows.contains(r) {
            let i = choose|i: int| 0 <= i < rows.len() && rows[i] == r;
            if i < shorter.len() {
                assert(shorter[i] == r);
            }
        }
        assert(rows[rows.len() - 1] == rows.last());
        if rows.last().paper_id != paper {
            assert(all[before.len() as int] == rows.last());
            if before.contains(r) {
                let i = choose|i: int| 0 <= i < before.len() && before[i] == r;
                assert(all[i] == r);
            }
            if all.contains(r) {
                let i = choose|i: int| 0 <= i < all.len() && all[i] == r;
                if i < before.len() {
                    assert(before[i] == r);
                }
            }
        }
    }
}

/// The rows of papers are those of each of them, in their order, and the missing ones those of each that
/// has none; a paper has a row for each author and each editor, numbered in their order.
pub proof fn law_every_paper_has_its_rows(
    known: Seq<CreatorRowModel>,
    a: Seq<Paper>,
    b: Seq<Paper>,
    p: Paper,
    creators: Seq<CreatorModel>,
    k: int,
)
    ensures
        all_rows(a + b) == all_rows(a) + all_rows(b),
        all_rows(seq![p]) == rows_for(p),
        missing_rows(known, a + b) == missing_rows(known, a) + missing_rows(known, b),
        !has_rows(known, p.id@) ==> missing_rows(known, seq![p]) == rows_for(p),
        has_rows(known, p.id@) ==> missing_rows(known, seq![p]).len() == 0,
        numbered(p.id@, creators).len() == creators.len(),
        0 <= k < creators.len() ==> numbered(p.id@, creators)[k] == (CreatorRowModel {
            paper_id: p.id@,
            creator: creators[k],
            sort_order: k,
        }),
    decreases b.len(),
{
    let none = Seq::<Paper>::empty();
    assert(all_rows(none) =~= Seq::empty());
    assert(missing_rows(known, none) =~= Seq::empty());
    assert(seq![p].drop_last() =~= none);
    assert(seq![p].last() == p);
    assert(all_rows(seq![p]) =~= rows_for(p));
    if !has_rows(known, p.id@) {
        assert(missing_rows(known, seq![p]) =~= rows_for(p));
    }
    if b.len() == 0 {
        assert(a + b =~= a);
        assert(all_rows(a) + all_rows(b) =~= all_rows(a));
        assert(missing_rows(known, a) + missing_rows(known, b) =~= missing_rows(known, a));
    } else {
        law_every_paper_has_its_rows(known, a, b.drop_last(), p, creators, k);
        assert((a + b).drop_last() =~= a + b.drop_last());
        assert((a + b).last() == b.last());
        assert(all_rows(a + b) =~= all_rows(a) + all_rows(b));
        assert(missing_rows(known, a + b) =~= missing_rows(known, a) + missing_rows(known, b));
    }
}

/// The entries of a directory that are listed are all of them where hidden ones are wanted, else all but
/// the hidden ones, in their order.
pub proof fn law_every_entry_is_listed(v: Seq<FoundEntry>, show_hidden: bool)
    ensures
        listed_places(v, show_hidden) == Seq::new(v.len(), |i: int| i).filter(
            |i: int| show_hidden || !starts_with(v[i].name@, "."@),
        ),
{
    lemma_listed(v, show_hidden, v.len());
    assert(v.take(v.len() as int) =~= v);
}

proof fn lemma_listed(v: Seq<FoundEntry>, show_hidden: bool, n: nat)
    requires
        n <= v.len(),
    ensures
        listed_places(v.take(n as int), show_hidden) == Seq::new(n, |i: int| i).filter(
            |i: int| show_hidden || !starts_with(v[i].name@, "."@),
        ),
    decreases n,
{
    reveal(Seq::filter);
    let all = Seq::new(n, |i: int| i);
    if n > 0 {
        lemma_listed(v, show_hidden, (n - 1) as nat);
        assert(v.take(n as int).drop_last() =~= v.take(n - 1));
        assert(all.drop_last() =~= Seq::new((n - 1) as nat, |i: int| i));
        assert(all.last() == n - 1);
        assert(v.take(n as int).last() == v[n - 1]);
    }
}

/// The hashes of stored files are those in front of the first dot of every name that has one.
pub proof fn law_every_hash_is_known(names: Seq<Seq<char>>, name: Seq<char>, h: Seq<char>)
    ensures
        holds(hashes_in(names.push(name)), h) <==> holds(hashes_in(names), h) || (split_once(
            name,
            "."@,
        ) is Some && ({
            let (front, _) = split_once(name, "."@)->0;
            front == h
        })),
{
    assert(names.push(name).drop_last() =~= names);
    assert(names.push(name).last() == name);
    let before = hashes_in(names);
    if let Some((x, _)) = split_once(name, "."@) {
        let r = before.push(x);
        assert(r[before.len() as int] == x);
        if holds(before, h) {
            let i = choose|i: int| 0 <= i < before.len() && before[i] == h;
            assert(r[i] == h);
        }
        if holds(r, h) {
            let i = choose|i: int| 0 <= i < r.len() && r[i] == h;
            if i < before.len() {
                assert(before[i] == h);
            }
        }
    }
}

/// The words of a search are all that have three characters or more, in their order, each as a prefix.
pub proof fn law_every_long_word_is_searched(a: Seq<Seq<char>>, b: Seq<Seq<char>>, w: Seq<char>)
    ensures
        search_terms(a + b) == search_terms(a) + search_terms(b),
        w.len() >= 3 ==> search_terms(seq![w]) == seq![w + "*"@],
        w.len() < 3 ==> search_terms(seq![w]).len() == 0,
    decreases b.len(),
{
    let none = Seq::<Seq<char>>::empty();
    assert(search_terms(none) =~= Seq::empty());
    assert(seq![w].drop_last() =~= none);
    assert(seq![w].last() == w);
    if b.len() == 0 {
        assert(a + b =~= a);
        assert(search_terms(a) + search_terms(b) =~= search_terms(a));
    } else {
        law_every_long_word_is_searched(a, b.drop_last(), w);
        assert((a + b).drop_last() =~= a + b.drop_last());
        assert((a + b).last() == b.last());
    }
}

/// The notes of a vault are all notes in it, and its library folders all folders in it that are one.
pub proof fn law_every_note_of_a_vault(notes: Seq<Note>, vault: Seq<char>)
    ensures
        note_ids(notes, vault) == notes.filter(|n: Note| n.vault_id@ == vault).map_values(
            |n: Note| n.id@,
        ),
        system_ids(notes, vault) == notes.filter(
            |n: Note| is_system_folder(n, vault),
        ).map_values(|n: Note| n.id@),
    decreases notes.len(),
{
    reveal(Seq::filter);
    let f = |n: Note| n.id@;
    let p = |n: Note| n.vault_id@ == vault;
    let q = |n: Note| is_system_folder(n, vault);
    if notes.len() > 0 {
        law_every_note_of_a_vault(notes.drop_last(), vault);
        let a = notes.drop_last().filter(p);
        let b = notes.drop_last().filter(q);
        assert(a.push(notes.last()).map_values(f) =~= a.map_values(f).push(notes.last().id@));
        assert(b.push(notes.last()).map_values(f) =~= b.map_values(f).push(notes.last().id@));
    } else {
        assert(notes.filter(p).map_values(f) =~= Seq::empty());
        assert(notes.filter(q).map_values(f) =~= Seq::empty());
    }
}

/// Of the files of a vault just those become notes whose text is not stored already under their place.
pub proof fn law_every_changed_note_is_picked(existing: Seq<Entry>, sources: Seq<Entry>)
    ensures
        note_picks(existing, sources) == Seq::new(sources.len(), |i: int| i).filter(
            |i: int| last_value(existing, sources[i].key) != Some(sources[i].value),
        ),
{
    lemma_picks(existing, sources, sources.len());
    assert(sources.take(sources.len() as int) =~= sources);
}

proof fn lemma_picks(existing: Seq<Entry>, sources: Seq<Entry>, n: nat)
    requires
        n <= sources.len(),
    ensures
        note_picks(existing, sources.take(n as int)) == Seq::new(n, |i: int| i).filter(
            |i: int| last_value(existing, sources[i].key) != Some(sources[i].value),
        ),
    decreases n,
{
    reveal(Seq::filter);
    let all = Seq::new(n, |i: int| i);
    if n > 0 {
        lemma_picks(existing, sources, (n - 1) as nat);
        assert(sources.take(n as int).drop_last() =~= sources.take(n - 1));
        assert(all.drop_last() =~= Seq::new((n - 1) as nat, |i: int| i));
        assert(all.last() == n - 1);
        assert(sources.take(n as int).last() == sources[n - 1]);
    }
}

// ---------------------------------------------------------------------------------------------
// What is found
// ---------------------------------------------------------------------------------------------
/// A setting has the value of the first row with its key, and none where no row has it.
pub proof fn law_setting_is_found(rows: Seq<Setting>, key: Seq<char>, i: int, k: int)
    requires
        0 <= i <= k <= rows.len(),
        forall|j: int| i <= j < k ==> (#[trigger] rows[j]).key@ != key,
    ensures
        k < rows.len() && rows[k].key@ == key ==> setting_from(rows, key, i) == Some(rows[k].value@),
        k == rows.len() ==> setting_from(rows, key, i) is None,
    decreases k - i,
{
    if i < k {
        assert(rows[i].key@ != key);
        law_setting_is_found(rows, key, i + 1, k);
    }
}

/// A version is found by its id, and an entry of an archive by its name: the first with it.
pub proof fn law_version_is_found(versions: Seq<VersionModel>, id: Seq<char>, i: int, k: int)
    requires
        0 <= i <= k <= versions.len(),
        forall|j: int| i <= j < k ==> (#[trigger] versions[j]).id != id,
    ensures
        k < versions.len() && versions[k].id == id ==> version_at(versions, id, i) == Some(k),
        k == versions.len() ==> version_at(versions, id, i) is None,
    decreases k - i,
{
    if i < k {
        assert(versions[i].id != id);
        law_version_is_found(versions, id, i + 1, k);
    }
}

/// An entry of an archive is found by its name: the first with it.
pub proof fn law_archive_entry_is_found(list: Seq<ArchiveEntry>, name: Seq<char>, i: int, k: int)
    requires
        0 <= i <= k <= list.len(),
        forall|j: int| i <= j < k ==> (#[trigger] list[j]).name != name,
    ensures
        k < list.len() && list[k].name == name ==> entry_named(list, name, i) == Some(list[k]),
        k == list.len() ==> entry_named(list, name, i) is None,
    decreases k - i,
{
    if i < k {
        assert(list[i].name != name);
        law_archive_entry_is_found(list, name, i + 1, k);
    }
}

/// A model is found by its id, and the default is the first that is marked as one.
pub proof fn law_model_is_found<T>(list: Seq<LlmProvider<T>>, id: Seq<char>, i: int)
    requires
        0 <= i,
    ensures
        match provider_from(list, id, i) {
            Some(k) => i <= k < list.len() && list[k].id@ == id && forall|j: int|
                i <= j < k ==> (#[trigger] list[j]).id@ != id,
            None => forall|j: int| i <= j < list.len() ==> (#[trigger] list[j]).id@ != id,
        },
        match default_from(list, i) {
            Some(k) => i <= k < list.len() && list[k].is_default && forall|j: int|
                i <= j < k ==> !(#[trigger] list[j]).is_default,
            None => forall|j: int| i <= j < list.len() ==> !(#[trigger] list[j]).is_default,
        },
    decreases list.len() - i,
{
    if i < list.len() {
        law_model_is_found(list, id, i + 1);
    }
}

/// The highest number is that of some model, and none has a higher one.
pub proof fn law_highest_number_of_models<T>(list: Seq<LlmProvider<T>>)
    ensures
        list.len() == 0 ==> highest(list) == 0,
        list.len() > 0 ==> exists|i: int|
            0 <= i < list.len() && (#[trigger] list[i]).sort_order == highest(list),
        forall|i: int| 0 <= i < list.len() ==> (#[trigger] list[i]).sort_order <= highest(list),
    decreases list.len(),
{
    if list.len() == 1 {
        assert(list[0].sort_order == highest(list));
    } else if list.len() > 1 {
        let shorter = list.drop_last();
        law_highest_number_of_models(shorter);
        let i = choose|i: int|
            0 <= i < shorter.len() && (#[trigger] shorter[i]).sort_order == highest(shorter);
        assert(list[i].sort_order == highest(shorter));
        assert(list[list.len() - 1] == list.last());
        assert forall|j: int| 0 <= j < list.len() implies (#[trigger] list[j]).sort_order <= highest(
            list,
        ) by {
            if j < shorter.len() {
                assert(shorter[j] == list[j]);
            }
        }
    }
}

// ---------------------------------------------------------------------------------------------
// Characters
// ---------------------------------------------------------------------------------------------
/// A text is made literal character by character: a backslash stands before each that means more than
/// itself, and no other is changed.
pub proof fn law_every_character_is_literal(a: Seq<char>, b: Seq<char>, c: char)
    ensures
        regex_literal(a + b) == regex_literal(a) + regex_literal(b),
        is_meta(c) ==> regex_literal(seq![c]) == seq!['\\', c],
        !is_meta(c) ==> regex_literal(seq![c]) == seq![c],
    decreases b.len(),
{
    let none = Seq::<char>::empty();
    assert(regex_literal(none) =~= none);
    assert(seq![c].drop_last() =~= none);
    assert(seq![c].last() == c);
    assert(none + seq!['\\', c] =~= seq!['\\', c]);
    if b.len() == 0 {
        assert(a + b =~= a);
        assert(regex_literal(a) + regex_literal(b) =~= regex_literal(a));
    } else {
        law_every_character_is_literal(a, b.drop_last(), c);
        assert((a + b).drop_last() =~= a + b.drop_last());
        assert((a + b).last() == b.last());
        assert(regex_literal(a + b) =~= regex_literal(a) + regex_literal(b));
    }
}

/// Of key and value pairs the last with a key counts, and a key is there just where a pair has it.
pub proof fn law_last_pair_counts(v: Seq<(String, String)>, p: (String, String), key: Seq<char>)
    ensures
        pairs_map(v.push(p))[p.0@] == p.1@,
        key != p.0@ ==> pairs_map(v.push(p)).dom().contains(key) == pairs_map(v).dom().contains(key),
        key != p.0@ ==> pairs_map(v.push(p))[key] == pairs_map(v)[key],
        pairs_map(v.push(p)).dom().contains(p.0@),
        !pairs_map(Seq::empty()).dom().contains(key),
{
    assert(v.push(p).drop_last() =~= v);
    assert(v.push(p).last() == p);
}

/// Each hexadecimal digit counts for its place.
pub proof fn law_every_hex_digit_counts(s: Seq<char>, c: char, n: int)
    ensures
        hex_number(s) == Some(n) && hex_value(c) is Some ==> hex_number(s.push(c)) == Some(
            n * 16 + hex_value(c)->0,
        ),
        hex_value(c) is None ==> hex_number(s.push(c)) is None,
        hex_number(s) is None ==> hex_number(s.push(c)) is None,
        hex_number(Seq::empty()) == Some(0int),
{
    assert(s.push(c).drop_last() =~= s);
    assert(s.push(c).last() == c);
}

} // verus!
