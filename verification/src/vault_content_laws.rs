//! An import brings everything over: every directory, every note with what its frontmatter says, and every
//! other file.
use vstd::prelude::*;
use vstd::string::*;

use crate::file_store::{blob_rel, law_blob_path_round_trip};
use crate::text::{lower, opt_text, split, split_once, starts_with, trim};
use crate::vault_import::{array_text, is_new_note, last_value, note_title, Entry, Key, NewNote};
use crate::vault_import_laws::{
    created_folders, created_notes, folder_key, imported_files, is_stored, lemma_stored,
    placed_folders, Asset,
};
use crate::vault_service::{body_of, csv_items, front_lines, front_of, front_value};
use crate::word_laws::law_sides_of_the_first_place;

verus! {

// ---------------------------------------------------------------------------------------------
// Directories
// ---------------------------------------------------------------------------------------------
/// Every directory of a source has a folder: the one that stands at its place already, else a new one.
pub proof fn law_every_directory_has_a_folder(
    existing: Seq<Entry>,
    dirs: Seq<Seq<char>>,
    fresh: Seq<Seq<char>>,
    k: int,
)
    requires
        0 <= k < dirs.len(),
        fresh.len() == dirs.len(),
    ensures
        ({
            let placed = placed_folders(existing, dirs, fresh);
            let key = folder_key(placed_folders(existing, dirs.take(k), fresh), dirs[k]);
            &&& placed.len() == dirs.len()
            &&& placed[k].key == (Key { parent: None, name: dirs[k] })
            &&& last_value(existing, key) is Some ==> placed[k].value == last_value(existing, key)->0
            &&& last_value(existing, key) is None ==> placed[k].value == fresh[k]
                && created_folders(existing, dirs, fresh).contains(Entry { key, value: fresh[k] })
        }),
    decreases dirs.len(),
{
    let shorter = dirs.drop_last();
    let n = dirs.len() - 1;
    lemma_placed_len(existing, shorter, fresh);
    let made = created_folders(existing, shorter, fresh);
    let all = created_folders(existing, dirs, fresh);
    if k == n {
        assert(dirs.take(k) =~= shorter);
        let key = folder_key(placed_folders(existing, shorter, fresh), dirs[k]);
        if last_value(existing, key) is None {
            assert(all[made.len() as int] == (Entry { key, value: fresh[k] }));
        }
    } else {
        assert(shorter[k] == dirs[k]);
        assert(shorter.take(k) =~= dirs.take(k));
        lemma_fewer(existing, shorter, fresh, fresh.drop_last());
        assert forall|i: int| 0 <= i < shorter.len() implies fresh.drop_last()[i] == fresh[i] by {}
        law_every_directory_has_a_folder(existing, shorter, fresh.drop_last(), k);
        lemma_fewer(existing, dirs.take(k), fresh, fresh.drop_last());
        let key = folder_key(placed_folders(existing, dirs.take(k), fresh), dirs[k]);
        if last_value(existing, key) is None {
            let x = Entry { key, value: fresh[k] };
            let i = choose|i: int| 0 <= i < made.len() && made[i] == x;
            assert(all[i] == x);
        }
    }
}

proof fn lemma_placed_len(existing: Seq<Entry>, dirs: Seq<Seq<char>>, fresh: Seq<Seq<char>>)
    ensures
        placed_folders(existing, dirs, fresh).len() == dirs.len(),
    decreases dirs.len(),
{
    if dirs.len() > 0 {
        lemma_placed_len(existing, dirs.drop_last(), fresh);
    }
}

proof fn lemma_fewer(
    existing: Seq<Entry>,
    dirs: Seq<Seq<char>>,
    a: Seq<Seq<char>>,
    b: Seq<Seq<char>>,
)
    requires
        dirs.len() <= a.len(),
        dirs.len() <= b.len(),
        forall|i: int| 0 <= i < dirs.len() ==> #[trigger] a[i] == b[i],
    ensures
        placed_folders(existing, dirs, a) == placed_folders(existing, dirs, b),
        created_folders(existing, dirs, a) == created_folders(existing, dirs, b),
    decreases dirs.len(),
{
    if dirs.len() > 0 {
        lemma_fewer(existing, dirs.drop_last(), a, b);
        assert(a[dirs.len() - 1] == b[dirs.len() - 1]);
    }
}

// ---------------------------------------------------------------------------------------------
// Notes
// ---------------------------------------------------------------------------------------------
/// The notes that an import makes are all notes of the source that are not there with their text already,
/// in their order.
pub proof fn law_every_new_note_is_made(existing: Seq<Entry>, notes: Seq<Entry>)
    ensures
        created_notes(existing, notes) == notes.filter(
            |n: Entry| last_value(existing, n.key) != Some(n.value),
        ),
    decreases notes.len(),
{
    reveal(Seq::filter);
    if notes.len() > 0 {
        law_every_new_note_is_made(existing, notes.drop_last());
    }
}

/// An imported note has the text of its file without the frontmatter, its name for a title, and the times,
/// the tags and the aliases that the frontmatter gives.
pub proof fn law_imported_note_holds_its_file(
    parent: Option<Seq<char>>,
    name: Seq<char>,
    content: Seq<char>,
    now: Seq<char>,
    n: NewNote,
)
    requires
        is_new_note(parent, name, content, now, n),
    ensures
        opt_text(n.parent_id) == parent,
        n.title@ == note_title(name),
        n.content@ == body_of(content),
        front_of(content) is None ==> n.created_at@ == now && n.updated_at@ == now && n.tags is None
            && n.aliases is None,
        front_of(content) is Some && front_of(content)->0.created_at is Some ==> n.created_at@
            == front_of(content)->0.created_at->0,
        front_of(content) is Some && front_of(content)->0.updated_at is Some ==> n.updated_at@
            == front_of(content)->0.updated_at->0,
        front_of(content) is Some ==> opt_text(n.tags) == array_text(front_of(content)->0.tags),
        front_of(content) is Some ==> opt_text(n.aliases) == array_text(front_of(content)->0.aliases),
{
}

/// A file without frontmatter is all text; of another the text is what stands behind it.
pub proof fn law_text_stands_behind_the_frontmatter(block: Seq<char>, body: Seq<char>)
    requires
        forall|j: int|
            0 <= j < block.len() ==> !#[trigger] crate::text::matches_at(
                block + "\n---"@ + (seq!['\n'] + body),
                "\n---"@,
                j,
            ),
    ensures
        body_of("---\n"@ + block + "\n---"@ + (seq!['\n'] + body)) == body,
        front_of("---\n"@ + block + "\n---"@ + (seq!['\n'] + body)) == Some(
            front_lines(crate::text::lines(block)).said,
        ),
        !starts_with(body, "---\n"@) ==> body_of(body) == body && front_of(body) is None,
{
    reveal_strlit("---\n");
    reveal_strlit("\n");
    let rest = seq!['\n'] + body;
    let inner = block + "\n---"@ + rest;
    let all = "---\n"@ + block + "\n---"@ + rest;
    assert(all.subrange(0, 4) =~= "---\n"@);
    assert(all.skip(4) =~= inner);
    law_sides_of_the_first_place(block, "\n---"@, rest);
    assert(rest.subrange(0, 1) =~= "\n"@);
    assert(rest.skip(1) =~= body);
}

/// A line of the frontmatter says what it says: a time is taken as it is, the tags or aliases on one line
/// are added to those before, and an item below such a field is added to its list.
pub proof fn law_every_line_of_the_frontmatter_counts(
    list: Seq<Seq<char>>,
    line: Seq<char>,
    k: Seq<char>,
    v: Seq<char>,
)
    requires
        !starts_with(trim(line), "- "@),
        split_once(trim(line), ":"@) == Some((k, v)),
        front_value(v).len() > 0,
    ensures
        ({
            let before = front_lines(list);
            let after = front_lines(list.push(line));
            let val = front_value(v);
            &&& lower(trim(k)) == "created"@ ==> after.said.created_at == Some(val)
                && after.said.tags == before.said.tags && after.said.aliases == before.said.aliases
            &&& lower(trim(k)) == "updated"@ ==> after.said.updated_at == Some(val)
                && after.said.created_at == before.said.created_at
            &&& lower(trim(k)) == "tags"@ ==> after.said.tags == before.said.tags + csv_items(
                split(val, ","@),
            ) && after.in_tags && after.said.aliases == before.said.aliases
            &&& lower(trim(k)) == "aliases"@ ==> after.said.aliases == before.said.aliases
                + csv_items(split(val, ","@)) && after.in_aliases && after.said.tags
                == before.said.tags
        }),
{
    assert(list.push(line).drop_last() =~= list);
    assert(list.push(line).last() == line);
    reveal_strlit("created");
    reveal_strlit("date");
    reveal_strlit("updated");
    reveal_strlit("modified");
    reveal_strlit("aliases");
    reveal_strlit("tags");
    assert("created"@[0] == 'c' && "date"@[0] == 'd' && "updated"@[0] == 'u' && "modified"@[0] == 'm'
        && "aliases"@[0] == 'a' && "tags"@[0] == 't');
}

/// An item below `tags` is a tag more, and one below `aliases` an alias more.
pub proof fn law_every_item_of_a_list_counts(list: Seq<Seq<char>>, line: Seq<char>, item: Seq<char>)
    requires
        crate::text::strip_prefix(trim(line), "- "@) == Some(item),
    ensures
        ({
            let before = front_lines(list);
            let after = front_lines(list.push(line));
            let val = crate::text::strip_both(crate::text::strip_both(trim(item), '"'), '\'');
            &&& before.in_tags ==> after.said.tags == before.said.tags.push(val)
            &&& before.in_aliases ==> after.said.aliases == before.said.aliases.push(val)
            &&& after.in_tags == before.in_tags
            &&& after.in_aliases == before.in_aliases
        }),
{
    assert(list.push(line).drop_last() =~= list);
    assert(list.push(line).last() == line);
}

// ---------------------------------------------------------------------------------------------
// Files
// ---------------------------------------------------------------------------------------------
/// Once files were imported, each of them is stored with its content, unless one behind it has its place;
/// and what stands at other places is as it was.
pub proof fn law_every_file_is_stored(
    files: Seq<Entry>,
    assets: Seq<Asset>,
    k: int,
    key: Key,
)
    requires
        0 <= k < assets.len(),
        forall|j: int| k < j < assets.len() ==> (#[trigger] assets[j]).key != assets[k].key,
        forall|i: int| 0 <= i < assets[k].ext.len() ==> #[trigger] assets[k].ext[i] != '.',
    ensures
        is_stored(imported_files(files, assets), assets[k]),
        (forall|j: int| 0 <= j < assets.len() ==> (#[trigger] assets[j]).key != key) ==> last_value(
            imported_files(files, assets),
            key,
        ) == last_value(files, key),
    decreases assets.len(),
{
    let shorter = assets.drop_last();
    let before = imported_files(files, shorter);
    let a = assets.last();
    let path = blob_rel(a.digest, a.ext);
    lemma_stored(before, a.key, path, key);
    lemma_stored(before, a.key, path, assets[k].key);
    lemma_other_places(files, assets, key);
    if k == assets.len() - 1 {
        law_blob_path_round_trip(a.digest, a.ext);
    } else {
        assert(shorter[k] == assets[k]);
        assert(assets[assets.len() - 1].key != assets[k].key);
        assert forall|j: int| k < j < shorter.len() implies (#[trigger] shorter[j]).key
            != shorter[k].key by {
            assert(shorter[j] == assets[j]);
        }
        law_every_file_is_stored(files, shorter, k, key);
    }
}

proof fn lemma_other_places(files: Seq<Entry>, assets: Seq<Asset>, key: Key)
    ensures
        (forall|j: int| 0 <= j < assets.len() ==> (#[trigger] assets[j]).key != key) ==> last_value(
            imported_files(files, assets),
            key,
        ) == last_value(files, key),
    decreases assets.len(),
{
    if assets.len() > 0 && (forall|j: int|
        0 <= j < assets.len() ==> (#[trigger] assets[j]).key != key) {
        let shorter = assets.drop_last();
        assert forall|j: int| 0 <= j < shorter.len() implies (#[trigger] shorter[j]).key != key by {
            assert(shorter[j] == assets[j]);
        }
        lemma_other_places(files, shorter, key);
        assert(assets[assets.len() - 1].key != key);
        let a = assets.last();
        lemma_stored(imported_files(files, shorter), a.key, blob_rel(a.digest, a.ext), key);
    }
}

} // verus!
