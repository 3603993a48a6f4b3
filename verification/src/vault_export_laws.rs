//! An export holds every note: each that stands below the top of the vault has a file with its text.
use vstd::prelude::*;
use vstd::string::*;

use crate::models::Note;
use crate::text::{holds, opt_text};
use crate::vault_service::{
    csv_item, csv_items, export_files, file_name, file_paths, front_list_items, note_markdown,
    tree_files, unique, FileModel,
};

verus! {

/// Whether a note stands below a parent, at most `depth` levels below it, under one of its children from
/// the `i`-th note on.
pub open spec fn is_below(
    notes: Seq<Note>,
    parent: Option<Seq<char>>,
    i: int,
    k: int,
    depth: nat,
) -> bool
    decreases depth,
{
    exists|j: int|
        i <= j < notes.len() && opt_text((#[trigger] notes[j]).parent_id) == parent && (k == j || (
        depth > 0 && is_below(notes, Some(notes[j].id@), 0, k, (depth - 1) as nat)))
}

/// Whether a file with a text is among files.
pub open spec fn has_text(files: Seq<FileModel>, text: Seq<char>) -> bool {
    exists|i: int| 0 <= i < files.len() && (#[trigger] files[i]).text == text
}

proof fn lemma_kept(
    notes: Seq<Note>,
    existing: Seq<Seq<char>>,
    parent: Option<Seq<char>>,
    dir: Seq<char>,
    files: Seq<FileModel>,
    i: int,
    depth: nat,
    text: Seq<char>,
)
    requires
        has_text(files, text),
    ensures
        has_text(tree_files(notes, existing, parent, dir, files, i, depth), text),
    decreases depth, notes.len() - i,
{
    if 0 <= i < notes.len() {
        if opt_text(notes[i].parent_id) == parent {
            let name = file_name(notes[i].title@);
            let path = unique(existing + file_paths(files), dir, name);
            let f = FileModel { path, text: note_markdown(notes[i]) };
            let with_note = files.push(f);
            let m = choose|m: int| 0 <= m < files.len() && (#[trigger] files[m]).text == text;
            assert(with_note[m] == files[m]);
            let below = dir + name + "/"@;
            let with_tree = if depth > 0 {
                tree_files(
                    notes,
                    existing,
                    Some(notes[i].id@),
                    below,
                    with_note,
                    0,
                    (depth - 1) as nat,
                )
            } else {
                with_note
            };
            if depth > 0 {
                lemma_kept(
                    notes,
                    existing,
                    Some(notes[i].id@),
                    below,
                    with_note,
                    0,
                    (depth - 1) as nat,
                    text,
                );
            }
            lemma_kept(notes, existing, parent, dir, with_tree, i + 1, depth, text);
        } else {
            lemma_kept(notes, existing, parent, dir, files, i + 1, depth, text);
        }
    }
}

proof fn lemma_exported(
    notes: Seq<Note>,
    existing: Seq<Seq<char>>,
    parent: Option<Seq<char>>,
    dir: Seq<char>,
    files: Seq<FileModel>,
    i: int,
    depth: nat,
    k: int,
)
    requires
        0 <= i,
        0 <= k < notes.len(),
        is_below(notes, parent, i, k, depth),
    ensures
        has_text(tree_files(notes, existing, parent, dir, files, i, depth), note_markdown(notes[k])),
    decreases depth, notes.len() - i,
{
    let text = note_markdown(notes[k]);
    let j = choose|j: int|
        i <= j < notes.len() && opt_text((#[trigger] notes[j]).parent_id) == parent && (k == j || (
        depth > 0 && is_below(notes, Some(notes[j].id@), 0, k, (depth - 1) as nat)));
    if opt_text(notes[i].parent_id) == parent {
        let name = file_name(notes[i].title@);
        let path = unique(existing + file_paths(files), dir, name);
        let f = FileModel { path, text: note_markdown(notes[i]) };
        let with_note = files.push(f);
        assert(with_note[files.len() as int] == f);
        let below = dir + name + "/"@;
        let with_tree = if depth > 0 {
            tree_files(
                notes,
                existing,
                Some(notes[i].id@),
                below,
                with_note,
                0,
                (depth - 1) as nat,
            )
        } else {
            with_note
        };
        if j == i {
            if k == i {
                assert(has_text(with_note, text));
                if depth > 0 {
                    lemma_kept(
                        notes,
                        existing,
                        Some(notes[i].id@),
                        below,
                        with_note,
                        0,
                        (depth - 1) as nat,
                        text,
                    );
                }
            } else {
                lemma_exported(
                    notes,
                    existing,
                    Some(notes[i].id@),
                    below,
                    with_note,
                    0,
                    (depth - 1) as nat,
                    k,
                );
            }
            lemma_kept(notes, existing, parent, dir, with_tree, i + 1, depth, text);
        } else {
            assert(is_below(notes, parent, i + 1, k, depth));
            lemma_exported(notes, existing, parent, dir, with_tree, i + 1, depth, k);
        }
    } else {
        assert(is_below(notes, parent, i + 1, k, depth));
        lemma_exported(notes, existing, parent, dir, files, i + 1, depth, k);
    }
}

/// Every note that stands at the top of a vault, or below a note that is exported, has a file with its
/// text in an export.
pub proof fn law_every_note_is_exported(notes: Seq<Note>, existing: Seq<Seq<char>>, k: int)
    requires
        0 <= k < notes.len(),
        is_below(notes, None, 0, k, notes.len()),
    ensures
        has_text(export_files(notes, existing), note_markdown(notes[k])),
{
    lemma_exported(notes, existing, None, Seq::empty(), Seq::empty(), 0, notes.len(), k);
}

/// A note without a parent stands at the top, and one whose parent stands at a depth stands one level
/// below it.
pub proof fn law_children_stand_below(notes: Seq<Note>, k: int, p: int, depth: nat)
    requires
        0 <= k < notes.len(),
        0 <= p < notes.len(),
    ensures
        opt_text(notes[k].parent_id) is None ==> is_below(notes, None, 0, k, depth),
        is_below(notes, None, 0, p, depth) && opt_text(notes[k].parent_id) == Some(notes[p].id@)
            ==> is_below(notes, None, 0, k, depth + 1),
{
    if is_below(notes, None, 0, p, depth) && opt_text(notes[k].parent_id) == Some(notes[p].id@) {
        lemma_below(notes, None, k, p, depth);
    }
}

proof fn lemma_below(notes: Seq<Note>, parent: Option<Seq<char>>, k: int, p: int, depth: nat)
    requires
        0 <= k < notes.len(),
        0 <= p < notes.len(),
        is_below(notes, parent, 0, p, depth),
        opt_text(notes[k].parent_id) == Some(notes[p].id@),
    ensures
        is_below(notes, parent, 0, k, depth + 1),
    decreases depth,
{
    let j = choose|j: int|
        0 <= j < notes.len() && opt_text((#[trigger] notes[j]).parent_id) == parent && (p == j || (
        depth > 0 && is_below(notes, Some(notes[j].id@), 0, p, (depth - 1) as nat)));
    if p == j {
        assert(opt_text(notes[k].parent_id) == Some(notes[j].id@));
        assert(is_below(notes, Some(notes[j].id@), 0, k, depth));
    } else {
        lemma_below(notes, Some(notes[j].id@), k, p, (depth - 1) as nat);
    }
}

/// A file gets its plain name, unless that is taken.
pub proof fn law_free_name_is_kept(taken: Seq<Seq<char>>, dir: Seq<char>, base: Seq<char>)
    ensures
        !holds(taken, dir + base + ".md"@) ==> unique(taken, dir, base) == dir + base + ".md"@,
{
}

/// The items of a list on one line are those of all its pieces, in their order, without the empty ones.
pub proof fn law_every_item_is_kept(a: Seq<Seq<char>>, b: Seq<Seq<char>>, s: Seq<char>)
    ensures
        csv_items(a + b) == csv_items(a) + csv_items(b),
        csv_item(s).len() > 0 ==> csv_items(seq![s]) == seq![csv_item(s)],
        csv_item(s).len() == 0 ==> csv_items(seq![s]).len() == 0,
        front_list_items(a + b) == front_list_items(a) + front_list_items(b),
        front_list_items(seq![s]) == "  - "@ + s + "\n"@,
    decreases b.len(),
{
    let none = Seq::<Seq<char>>::empty();
    assert(csv_items(none) =~= Seq::empty());
    assert(front_list_items(none) =~= Seq::empty());
    assert(seq![s].drop_last() =~= none);
    assert(seq![s].last() == s);
    assert(front_list_items(seq![s]) =~= "  - "@ + s + "\n"@);
    if b.len() == 0 {
        assert(a + b =~= a);
        assert(csv_items(a) + csv_items(b) =~= csv_items(a));
        assert(front_list_items(a) + front_list_items(b) =~= front_list_items(a));
    } else {
        law_every_item_is_kept(a, b.drop_last(), s);
        assert((a + b).drop_last() =~= a + b.drop_last());
        assert((a + b).last() == b.last());
        assert(front_list_items(a + b) =~= front_list_items(a) + front_list_items(b));
    }
}

} // verus!
