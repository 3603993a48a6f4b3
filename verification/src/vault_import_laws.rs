//! Importing the same folder again changes nothing.
use vstd::prelude::*;
use vstd::string::*;

use crate::file_store::{blob_rel, law_blob_path_round_trip};
use crate::text::{opt_text, segment_start, texts};
use crate::vault_import::{
    base_of, dir_of, file_at, folder_entries, folder_step, last_value, place_of, placed_entries,
    stored_hash, Entry, FolderRow, FolderStep, Key, Placed, StoredFile,
};

verus! {

// ---------------------------------------------------------------------------------------------
// Folders
// ---------------------------------------------------------------------------------------------
/// Where a directory stands in the vault when the directories before it are placed.
pub open spec fn folder_key(placed: Seq<Entry>, rel: Seq<char>) -> Key {
    Key { parent: place_of(placed, rel), name: base_of(rel) }
}

/// The folder that stands for a directory: the one that is there, or a new one.
pub open spec fn folder_for(
    existing: Seq<Entry>,
    placed: Seq<Entry>,
    rel: Seq<char>,
    fresh: Seq<char>,
) -> Seq<char> {
    match last_value(existing, folder_key(placed, rel)) {
        Some(id) => id,
        None => fresh,
    }
}

/// The directories with the folders that stand for them. The `i`-th directory gets the `i`-th
/// fresh identifier, where a folder has to be created for it.
pub open spec fn placed_folders(
    existing: Seq<Entry>,
    dirs: Seq<Seq<char>>,
    fresh: Seq<Seq<char>>,
) -> Seq<Entry>
    decreases dirs.len(),
{
    if dirs.len() == 0 {
        Seq::empty()
    } else {
        let placed = placed_folders(existing, dirs.drop_last(), fresh);
        let rel = dirs.last();
        placed.push(
            Entry {
                key: Key { parent: None, name: rel },
                value: folder_for(existing, placed, rel, fresh[dirs.len() - 1]),
            },
        )
    }
}

/// The folders that are created for the directories.
pub open spec fn created_folders(
    existing: Seq<Entry>,
    dirs: Seq<Seq<char>>,
    fresh: Seq<Seq<char>>,
) -> Seq<Entry>
    decreases dirs.len(),
{
    if dirs.len() == 0 {
        Seq::empty()
    } else {
        let placed = placed_folders(existing, dirs.drop_last(), fresh);
        let made = created_folders(existing, dirs.drop_last(), fresh);
        let key = folder_key(placed, dirs.last());
        if last_value(existing, key) is None {
            made.push(Entry { key, value: fresh[dirs.len() - 1] })
        } else {
            made
        }
    }
}

/// A folder that an import creates.
pub struct NewFolder {
    pub parent_id: Option<String>,
    pub title: String,
    pub id: String,
}

/// The entries that new folders make.
pub open spec fn new_folder_entries(v: Seq<NewFolder>) -> Seq<Entry> {
    Seq::new(
        v.len(),
        |i: int|
            Entry {
                key: Key { parent: opt_text(v[i].parent_id), name: v[i].title@ },
                value: v[i].id@,
            },
    )
}

/// Places the directories of a source, parents first: which folder stands for each of them, and
/// which folders have to be created for that.
pub fn place_folders(existing: &Vec<FolderRow>, dirs: &Vec<String>, fresh: &Vec<String>) -> (r: (
    Vec<Placed>,
    Vec<NewFolder>,
))
    requires
        fresh.len() == dirs.len(),
    ensures
        placed_entries(r.0@) == placed_folders(
            folder_entries(existing@),
            texts(dirs@),
            texts(fresh@),
        ),
        new_folder_entries(r.1@) == created_folders(
            folder_entries(existing@),
            texts(dirs@),
            texts(fresh@),
        ),
{
    let ghost e = folder_entries(existing@);
    let ghost all = texts(dirs@);
    let ghost ids = texts(fresh@);
    let mut placed: Vec<Placed> = Vec::new();
    let mut made: Vec<NewFolder> = Vec::new();
    assert(placed_entries(placed@) =~= Seq::empty());
    assert(new_folder_entries(made@) =~= Seq::empty());
    let mut i: usize = 0;
    while i < dirs.len()
        invariant
            i <= dirs.len(),
            fresh.len() == dirs.len(),
            e == folder_entries(existing@),
            all == texts(dirs@),
            ids == texts(fresh@),
            placed_entries(placed@) == placed_folders(e, all.take(i as int), ids),
            new_folder_entries(made@) == created_folders(e, all.take(i as int), ids),
        decreases dirs.len() - i,
    {
        let ghost before = placed_entries(placed@);
        let ghost made_before = new_folder_entries(made@);
        proof {
            assert(all.take(i + 1).drop_last() =~= all.take(i as int));
            assert(all.take(i + 1).last() == all[i as int]);
        }
        let rel = dirs[i].as_str();
        let (_, name) = crate::vault_import::split_rel(rel);
        let id = match folder_step(existing, &placed, rel) {
            FolderStep::Reuse(id) => id,
            FolderStep::Create(parent_id) => {
                let id = fresh[i].clone();
                let ghost key = Key { parent: opt_text(parent_id), name: name@ };
                made.push(NewFolder { parent_id, title: name, id: id.clone() });
                assert(new_folder_entries(made@) =~= made_before.push(Entry { key, value: id@ }));
                id
            },
        };
        let ghost entry = Entry { key: Key { parent: None, name: rel@ }, value: id@ };
        placed.push(Placed { rel: rel.to_owned(), id });
        assert(placed_entries(placed@) =~= before.push(entry));
        i += 1;
    }
    assert(all.take(all.len() as int) =~= all);
    (placed, made)
}

/// Whether a path is taken apart into its directory and its last part without loss: it is relative
/// and neither part is missing where there is a slash.
pub open spec fn proper(rel: Seq<char>) -> bool {
    let k = segment_start(rel, '/', rel.len() as int);
    base_of(rel).len() > 0 && k != 1
}

/// Whether a list of directories is one that a walk gives: proper paths, none of them twice, and
/// each behind its parent.
pub open spec fn is_walk(dirs: Seq<Seq<char>>) -> bool {
    &&& forall|i: int| 0 <= i < dirs.len() ==> proper(#[trigger] dirs[i])
    &&& forall|i: int, j: int| 0 <= i < j < dirs.len() ==> dirs[i] != dirs[j]
    &&& forall|i: int|
        0 <= i < dirs.len() && dir_of(#[trigger] dirs[i]).len() > 0 ==> exists|p: int|
            0 <= p < i && dirs[p] == dir_of(dirs[i])
}

/// Whether identifiers are unique among the folders that are there and the fresh ones.
pub open spec fn unique_ids(existing: Seq<Entry>, fresh: Seq<Seq<char>>) -> bool {
    &&& forall|i: int, j: int|
        0 <= i < j < existing.len() ==> (#[trigger] existing[i]).value != (
        #[trigger] existing[j]).value
    &&& forall|i: int, j: int| 0 <= i < j < fresh.len() ==> fresh[i] != fresh[j]
    &&& forall|i: int, j: int|
        0 <= i < existing.len() && 0 <= j < fresh.len() ==> (#[trigger] existing[i]).value
            != #[trigger] fresh[j]
}

/// A proper path is determined by its directory and its last part.
proof fn lemma_path_parts(a: Seq<char>, b: Seq<char>)
    requires
        proper(a),
        proper(b),
        dir_of(a) == dir_of(b),
        base_of(a) == base_of(b),
    ensures
        a == b,
{
    lemma_rejoin(a);
    lemma_rejoin(b);
}

/// A path is its directory, a slash and its last part, or its last part alone.
pub proof fn lemma_rejoin(rel: Seq<char>)
    requires
        proper(rel),
    ensures
        dir_of(rel).len() == 0 ==> rel == base_of(rel),
        dir_of(rel).len() > 0 ==> rel == dir_of(rel).push('/') + base_of(rel),
{
    let k = segment_start(rel, '/', rel.len() as int);
    lemma_segment_start(rel, rel.len() as int);
    if k == 0 {
        assert(rel.skip(0) =~= rel);
    } else {
        assert(rel =~= rel.take(k - 1).push('/') + rel.skip(k));
    }
}

proof fn lemma_segment_start(s: Seq<char>, i: int)
    requires
        0 <= i <= s.len(),
    ensures
        0 <= segment_start(s, '/', i) <= i,
        segment_start(s, '/', i) > 0 ==> s[segment_start(s, '/', i) - 1] == '/',
    decreases i,
{
    if i > 0 && s[i - 1] != '/' {
        lemma_segment_start(s, i - 1);
    }
}

/// The last entry with a key is an entry with that key.
proof fn lemma_last_value(list: Seq<Entry>, key: Key)
    ensures
        match last_value(list, key) {
            Some(v) => exists|i: int|
                0 <= i < list.len() && (#[trigger] list[i]).key == key && list[i].value == v,
            None => forall|i: int| 0 <= i < list.len() ==> (#[trigger] list[i]).key != key,
        },
    decreases list.len(),
{
    if list.len() > 0 {
        lemma_last_value(list.drop_last(), key);
        if list.last().key == key {
            assert(list[list.len() - 1].key == key);
        } else {
            match last_value(list.drop_last(), key) {
                Some(v) => {
                    let i = choose|i: int|
                        0 <= i < list.drop_last().len() && (#[trigger] list.drop_last()[i]).key
                            == key && list.drop_last()[i].value == v;
                    assert(list[i].key == key && list[i].value == v);
                },
                None => {
                    assert forall|i: int| 0 <= i < list.len() implies (#[trigger] list[i]).key
                        != key by {
                        if i < list.len() - 1 {
                            assert(list.drop_last()[i] == list[i]);
                        }
                    }
                },
            }
        }
    }
}

/// With a key that stands once the value is the one that stands there.
proof fn lemma_last_value_at(list: Seq<Entry>, k: int)
    requires
        0 <= k < list.len(),
        forall|i: int| k < i < list.len() ==> (#[trigger] list[i]).key != list[k].key,
    ensures
        last_value(list, list[k].key) == Some(list[k].value),
    decreases list.len() - k,
{
    if k < list.len() - 1 {
        assert(list[list.len() - 1].key != list[k].key);
        assert(list.drop_last()[k] == list[k]);
        assert forall|i: int| k < i < list.drop_last().len() implies (
        #[trigger] list.drop_last()[i]).key != list.drop_last()[k].key by {
            assert(list.drop_last()[i] == list[i]);
        }
        lemma_last_value_at(list.drop_last(), k);
    }
}

/// Entries with other keys behind a list change nothing.
proof fn lemma_last_value_before(a: Seq<Entry>, b: Seq<Entry>, key: Key)
    requires
        forall|i: int| 0 <= i < b.len() ==> (#[trigger] b[i]).key != key,
    ensures
        last_value(a + b, key) == last_value(a, key),
    decreases b.len(),
{
    if b.len() == 0 {
        assert(a + b =~= a);
    } else {
        assert(b[b.len() - 1].key != key);
        assert((a + b).drop_last() =~= a + b.drop_last());
        assert forall|i: int| 0 <= i < b.drop_last().len() implies (#[trigger] b.drop_last()[i]).key
            != key by {
            assert(b.drop_last()[i] == b[i]);
        }
        lemma_last_value_before(a, b.drop_last(), key);
    }
}

/// The placement of the first `k` directories.
spec fn first_placed(
    existing: Seq<Entry>,
    dirs: Seq<Seq<char>>,
    fresh: Seq<Seq<char>>,
    k: int,
) -> Seq<Entry> {
    placed_folders(existing, dirs.take(k), fresh)
}

/// Where the `j`-th directory stands.
spec fn key_at(existing: Seq<Entry>, dirs: Seq<Seq<char>>, fresh: Seq<Seq<char>>, j: int) -> Key {
    folder_key(first_placed(existing, dirs, fresh, j), dirs[j])
}

/// The folder that stands for the `j`-th directory.
spec fn id_at(existing: Seq<Entry>, dirs: Seq<Seq<char>>, fresh: Seq<Seq<char>>, j: int) -> Seq<
    char,
> {
    folder_for(existing, first_placed(existing, dirs, fresh, j), dirs[j], fresh[j])
}

proof fn lemma_placed_shape(
    existing: Seq<Entry>,
    dirs: Seq<Seq<char>>,
    fresh: Seq<Seq<char>>,
    k: int,
)
    requires
        0 <= k <= dirs.len(),
    ensures
        first_placed(existing, dirs, fresh, k).len() == k,
        forall|j: int|
            0 <= j < k ==> (#[trigger] first_placed(existing, dirs, fresh, k)[j]) == (Entry {
                key: Key { parent: None, name: dirs[j] },
                value: id_at(existing, dirs, fresh, j),
            }),
    decreases k,
{
    if k > 0 {
        lemma_placed_shape(existing, dirs, fresh, k - 1);
        assert(dirs.take(k).drop_last() =~= dirs.take(k - 1));
        assert(dirs.take(k).last() == dirs[k - 1]);
        let shorter = first_placed(existing, dirs, fresh, k - 1);
        assert forall|j: int| 0 <= j < k implies (#[trigger] first_placed(
            existing,
            dirs,
            fresh,
            k,
        )[j]) == (Entry {
            key: Key { parent: None, name: dirs[j] },
            value: id_at(existing, dirs, fresh, j),
        }) by {
            if j < k - 1 {
                assert(first_placed(existing, dirs, fresh, k)[j] == shorter[j]);
            }
        }
    }
}

/// A directory stands below the folder of its parent.
proof fn lemma_place(
    existing: Seq<Entry>,
    dirs: Seq<Seq<char>>,
    fresh: Seq<Seq<char>>,
    k: int,
) -> (p: int)
    requires
        is_walk(dirs),
        0 <= k < dirs.len(),
    ensures
        dir_of(dirs[k]).len() == 0 ==> key_at(existing, dirs, fresh, k).parent is None,
        dir_of(dirs[k]).len() > 0 ==> 0 <= p < k && dirs[p] == dir_of(dirs[k]) && key_at(
            existing,
            dirs,
            fresh,
            k,
        ).parent == Some(id_at(existing, dirs, fresh, p)),
{
    let placed = first_placed(existing, dirs, fresh, k);
    lemma_placed_shape(existing, dirs, fresh, k);
    if dir_of(dirs[k]).len() > 0 {
        let p = choose|p: int| 0 <= p < k && dirs[p] == dir_of(dirs[k]);
        assert forall|i: int| p < i < placed.len() implies (#[trigger] placed[i]).key
            != placed[p].key by {
            assert(dirs[p] != dirs[i]);
        }
        lemma_last_value_at(placed, p);
        p
    } else {
        0
    }
}

/// No two directories stand at one place, and none shares its folder with another.
proof fn lemma_distinct(
    existing: Seq<Entry>,
    dirs: Seq<Seq<char>>,
    fresh: Seq<Seq<char>>,
    m: int,
)
    requires
        is_walk(dirs),
        fresh.len() == dirs.len(),
        unique_ids(existing, fresh),
        0 <= m <= dirs.len(),
    ensures
        forall|i: int, j: int|
            0 <= i < j < m ==> #[trigger] key_at(existing, dirs, fresh, i) != #[trigger] key_at(
                existing,
                dirs,
                fresh,
                j,
            ),
        forall|i: int, j: int|
            0 <= i < j < m ==> #[trigger] id_at(existing, dirs, fresh, i) != #[trigger] id_at(
                existing,
                dirs,
                fresh,
                j,
            ),
    decreases m,
{
    if m > 0 {
        lemma_distinct(existing, dirs, fresh, m - 1);
        let j = m - 1;
        assert forall|i: int| 0 <= i < j implies #[trigger] key_at(existing, dirs, fresh, i)
            != key_at(existing, dirs, fresh, j) && id_at(existing, dirs, fresh, i) != id_at(
            existing,
            dirs,
            fresh,
            j,
        ) by {
            let ki = key_at(existing, dirs, fresh, i);
            let kj = key_at(existing, dirs, fresh, j);
            let pi = lemma_place(existing, dirs, fresh, i);
            let pj = lemma_place(existing, dirs, fresh, j);
            if ki == kj {
                if dir_of(dirs[i]).len() > 0 && dir_of(dirs[j]).len() > 0 {
                    if pi < pj {
                        assert(id_at(existing, dirs, fresh, pi) != id_at(
                            existing,
                            dirs,
                            fresh,
                            pj,
                        ));
                    } else if pj < pi {
                        assert(id_at(existing, dirs, fresh, pj) != id_at(
                            existing,
                            dirs,
                            fresh,
                            pi,
                        ));
                    }
                }
                assert(dir_of(dirs[i]) =~= dir_of(dirs[j]));
                assert(proper(dirs[i]) && proper(dirs[j]));
                lemma_path_parts(dirs[i], dirs[j]);
                assert(dirs[i] != dirs[j]);
            }
            lemma_last_value(existing, ki);
            lemma_last_value(existing, kj);
            if id_at(existing, dirs, fresh, i) == id_at(existing, dirs, fresh, j) {
                match (last_value(existing, ki), last_value(existing, kj)) {
                    (Some(a), Some(b)) => {
                        let x = choose|x: int|
                            0 <= x < existing.len() && (#[trigger] existing[x]).key == ki
                                && existing[x].value == a;
                        let y = choose|y: int|
                            0 <= y < existing.len() && (#[trigger] existing[y]).key == kj
                                && existing[y].value == b;
                        if x < y {
                            assert(existing[x].value != existing[y].value);
                        } else if y < x {
                            assert(existing[y].value != existing[x].value);
                        }
                    },
                    (Some(a), None) => {
                        let x = choose|x: int|
                            0 <= x < existing.len() && (#[trigger] existing[x]).key == ki
                                && existing[x].value == a;
                        assert(existing[x].value != fresh[j]);
                    },
                    (None, Some(b)) => {
                        let y = choose|y: int|
                            0 <= y < existing.len() && (#[trigger] existing[y]).key == kj
                                && existing[y].value == b;
                        assert(existing[y].value != fresh[i]);
                    },
                    (None, None) => {
                        assert(fresh[i] != fresh[j]);
                    },
                }
            }
        }
        assert forall|a: int, b: int| 0 <= a < b < m implies #[trigger] id_at(
            existing,
            dirs,
            fresh,
            a,
        ) != #[trigger] id_at(existing, dirs, fresh, b) by {
            if b == j {
                assert(key_at(existing, dirs, fresh, a) != key_at(existing, dirs, fresh, j));
            }
        }
    }
}

/// The folder that the `j`-th directory has created for it.
spec fn made_for(existing: Seq<Entry>, dirs: Seq<Seq<char>>, fresh: Seq<Seq<char>>, j: int) -> Entry {
    Entry { key: key_at(existing, dirs, fresh, j), value: fresh[j] }
}

/// Whether the `j`-th directory has a folder created for it.
spec fn is_missing(
    existing: Seq<Entry>,
    dirs: Seq<Seq<char>>,
    fresh: Seq<Seq<char>>,
    j: int,
) -> bool {
    last_value(existing, key_at(existing, dirs, fresh, j)) is None
}

/// One more directory has a folder created for it, or none.
proof fn lemma_created_next(
    existing: Seq<Entry>,
    dirs: Seq<Seq<char>>,
    fresh: Seq<Seq<char>>,
    k: int,
)
    requires
        0 < k <= dirs.len(),
    ensures
        created_folders(existing, dirs.take(k), fresh) == (if is_missing(
            existing,
            dirs,
            fresh,
            k - 1,
        ) {
            created_folders(existing, dirs.take(k - 1), fresh).push(
                made_for(existing, dirs, fresh, k - 1),
            )
        } else {
            created_folders(existing, dirs.take(k - 1), fresh)
        }),
{
    assert(dirs.take(k).drop_last() =~= dirs.take(k - 1));
    assert(dirs.take(k).last() == dirs[k - 1]);
}

/// What is created was created for a directory without a folder.
proof fn lemma_created_from(
    existing: Seq<Entry>,
    dirs: Seq<Seq<char>>,
    fresh: Seq<Seq<char>>,
    k: int,
    c: int,
) -> (j: int)
    requires
        0 <= k <= dirs.len(),
        0 <= c < created_folders(existing, dirs.take(k), fresh).len(),
    ensures
        0 <= j < k,
        is_missing(existing, dirs, fresh, j),
        created_folders(existing, dirs.take(k), fresh)[c] == made_for(existing, dirs, fresh, j),
    decreases k,
{
    if k == 0 {
        0
    } else {
        lemma_created_next(existing, dirs, fresh, k);
        let shorter = created_folders(existing, dirs.take(k - 1), fresh);
        if c < shorter.len() {
            lemma_created_from(existing, dirs, fresh, k - 1, c)
        } else {
            k - 1
        }
    }
}

/// A directory without a folder has one created for it.
proof fn lemma_created_for(
    existing: Seq<Entry>,
    dirs: Seq<Seq<char>>,
    fresh: Seq<Seq<char>>,
    k: int,
    j: int,
) -> (c: int)
    requires
        0 <= j < k <= dirs.len(),
        is_missing(existing, dirs, fresh, j),
    ensures
        0 <= c < created_folders(existing, dirs.take(k), fresh).len(),
        created_folders(existing, dirs.take(k), fresh)[c] == made_for(existing, dirs, fresh, j),
    decreases k,
{
    lemma_created_next(existing, dirs, fresh, k);
    let shorter = created_folders(existing, dirs.take(k - 1), fresh);
    if j == k - 1 {
        shorter.len() as int
    } else {
        lemma_created_for(existing, dirs, fresh, k - 1, j)
    }
}

/// Once the folders are created, each directory finds its own.
proof fn lemma_found_again(
    existing: Seq<Entry>,
    dirs: Seq<Seq<char>>,
    fresh: Seq<Seq<char>>,
    j: int,
)
    requires
        is_walk(dirs),
        fresh.len() == dirs.len(),
        unique_ids(existing, fresh),
        0 <= j < dirs.len(),
    ensures
        last_value(
            existing + created_folders(existing, dirs, fresh),
            key_at(existing, dirs, fresh, j),
        ) == Some(id_at(existing, dirs, fresh, j)),
{
    let n = dirs.len() as int;
    assert(dirs.take(n) =~= dirs);
    let made = created_folders(existing, dirs, fresh);
    let all = existing + made;
    let key = key_at(existing, dirs, fresh, j);
    lemma_distinct(existing, dirs, fresh, n);
    lemma_last_value(existing, key);
    if is_missing(existing, dirs, fresh, j) {
        let c = lemma_created_for(existing, dirs, fresh, n, j);
        assert(all[existing.len() + c] == made[c]);
        lemma_last_value(all, key);
        let v = last_value(all, key)->0;
        let x = choose|x: int|
            0 <= x < all.len() && (#[trigger] all[x]).key == key && all[x].value == v;
        if x < existing.len() {
            assert(existing[x].key == key);
        } else {
            let d = x - existing.len();
            assert(all[x] == made[d]);
            let o = lemma_created_from(existing, dirs, fresh, n, d);
            if o < j {
                assert(key_at(existing, dirs, fresh, o) != key_at(existing, dirs, fresh, j));
            } else if j < o {
                assert(key_at(existing, dirs, fresh, j) != key_at(existing, dirs, fresh, o));
            }
        }
    } else {
        assert forall|c: int| 0 <= c < made.len() implies (#[trigger] made[c]).key != key by {
            let o = lemma_created_from(existing, dirs, fresh, n, c);
            assert(made[c].key == key_at(existing, dirs, fresh, o));
        }
        lemma_last_value_before(existing, made, key);
    }
}

proof fn lemma_placed_again(
    existing: Seq<Entry>,
    dirs: Seq<Seq<char>>,
    fresh: Seq<Seq<char>>,
    other: Seq<Seq<char>>,
    k: int,
)
    requires
        is_walk(dirs),
        fresh.len() == dirs.len(),
        unique_ids(existing, fresh),
        0 <= k <= dirs.len(),
    ensures
        ({
            let after = existing + created_folders(existing, dirs, fresh);
            &&& first_placed(after, dirs, other, k) == first_placed(existing, dirs, fresh, k)
            &&& created_folders(after, dirs.take(k), other).len() == 0
        }),
    decreases k,
{
    if k > 0 {
        lemma_placed_again(existing, dirs, fresh, other, k - 1);
        lemma_found_again(existing, dirs, fresh, k - 1);
        assert(dirs.take(k).drop_last() =~= dirs.take(k - 1));
        assert(dirs.take(k).last() == dirs[k - 1]);
    }
}

/// Importing the same directories again creates no folder, and each directory is given the same
/// folder as before.
pub proof fn law_folders_are_reused(
    existing: Seq<Entry>,
    dirs: Seq<Seq<char>>,
    fresh: Seq<Seq<char>>,
    other: Seq<Seq<char>>,
)
    requires
        is_walk(dirs),
        fresh.len() == dirs.len(),
        unique_ids(existing, fresh),
    ensures
        ({
            let after = existing + created_folders(existing, dirs, fresh);
            &&& created_folders(after, dirs, other) == Seq::<Entry>::empty()
            &&& placed_folders(after, dirs, other) == placed_folders(existing, dirs, fresh)
        }),
{
    let n = dirs.len() as int;
    assert(dirs.take(n) =~= dirs);
    lemma_placed_again(existing, dirs, fresh, other, n);
    assert(created_folders(
        existing + created_folders(existing, dirs, fresh),
        dirs,
        other,
    ) =~= Seq::empty());
}

// ---------------------------------------------------------------------------------------------
// Notes
// ---------------------------------------------------------------------------------------------
/// Whether no two entries have one key.
pub open spec fn keys_differ(list: Seq<Entry>) -> bool {
    forall|i: int, j: int| 0 <= i < j < list.len() ==> (#[trigger] list[i]).key != (
    #[trigger] list[j]).key
}

/// The notes that an import creates: those of which no note with their place, title and text is
/// there.
pub open spec fn created_notes(existing: Seq<Entry>, notes: Seq<Entry>) -> Seq<Entry>
    decreases notes.len(),
{
    if notes.len() == 0 {
        Seq::empty()
    } else {
        let made = created_notes(existing, notes.drop_last());
        if last_value(existing, notes.last().key) == Some(notes.last().value) {
            made
        } else {
            made.push(notes.last())
        }
    }
}

/// What is created is a note of the source that was not there.
proof fn lemma_created_note(existing: Seq<Entry>, notes: Seq<Entry>, c: int) -> (j: int)
    requires
        0 <= c < created_notes(existing, notes).len(),
    ensures
        0 <= j < notes.len(),
        created_notes(existing, notes)[c] == notes[j],
        last_value(existing, notes[j].key) != Some(notes[j].value),
    decreases notes.len(),
{
    if notes.len() == 0 {
        0
    } else {
        let made = created_notes(existing, notes.drop_last());
        if c < made.len() {
            let j = lemma_created_note(existing, notes.drop_last(), c);
            assert(notes[j] == notes.drop_last()[j]);
            j
        } else {
            notes.len() - 1
        }
    }
}

/// A note of the source that was not there is created.
proof fn lemma_note_created(existing: Seq<Entry>, notes: Seq<Entry>, j: int) -> (c: int)
    requires
        0 <= j < notes.len(),
        last_value(existing, notes[j].key) != Some(notes[j].value),
    ensures
        0 <= c < created_notes(existing, notes).len(),
        created_notes(existing, notes)[c] == notes[j],
    decreases notes.len(),
{
    let made = created_notes(existing, notes.drop_last());
    if j == notes.len() - 1 {
        made.len() as int
    } else {
        assert(notes[j] == notes.drop_last()[j]);
        lemma_note_created(existing, notes.drop_last(), j)
    }
}

proof fn lemma_note_found_again(existing: Seq<Entry>, notes: Seq<Entry>, j: int)
    requires
        keys_differ(notes),
        0 <= j < notes.len(),
    ensures
        last_value(existing + created_notes(existing, notes), notes[j].key) == Some(notes[j].value),
{
    let made = created_notes(existing, notes);
    let all = existing + made;
    let key = notes[j].key;
    if last_value(existing, key) == Some(notes[j].value) {
        assert forall|c: int| 0 <= c < made.len() implies (#[trigger] made[c]).key != key by {
            let o = lemma_created_note(existing, notes, c);
            if o < j {
                assert(notes[o].key != notes[j].key);
            } else if j < o {
                assert(notes[j].key != notes[o].key);
            }
        }
        lemma_last_value_before(existing, made, key);
    } else {
        let c = lemma_note_created(existing, notes, j);
        assert(all[existing.len() + c] == made[c]);
        assert forall|i: int| existing.len() + c < i < all.len() implies (#[trigger] all[i]).key
            != all[existing.len() + c].key || all[i].value == notes[j].value by {
            let d = i - existing.len();
            assert(all[i] == made[d]);
            let o = lemma_created_note(existing, notes, d);
            if o < j {
                assert(notes[o].key != notes[j].key);
            } else if j < o {
                assert(notes[j].key != notes[o].key);
            }
        }
        lemma_last_value(all, key);
        let v = last_value(all, key)->0;
        let x = lemma_last_place(all, key, existing.len() + c);
        assert(all[x].value == v);
        if x > existing.len() + c {
            assert(all[x].value == notes[j].value);
        }
    }
}

/// The value of a key is that of a place at or behind any place with the key.
proof fn lemma_last_place(list: Seq<Entry>, key: Key, k: int) -> (x: int)
    requires
        0 <= k < list.len(),
        list[k].key == key,
    ensures
        k <= x < list.len(),
        list[x].key == key,
        last_value(list, key) == Some(list[x].value),
    decreases list.len(),
{
    if list.last().key == key {
        list.len() - 1
    } else {
        assert(list.drop_last()[k] == list[k]);
        let x = lemma_last_place(list.drop_last(), key, k);
        assert(list.drop_last()[x] == list[x]);
        x
    }
}

/// Importing the same notes again creates none.
pub proof fn law_notes_are_unchanged(existing: Seq<Entry>, notes: Seq<Entry>)
    requires
        keys_differ(notes),
    ensures
        created_notes(existing + created_notes(existing, notes), notes) == Seq::<Entry>::empty(),
{
    let after = existing + created_notes(existing, notes);
    assert forall|j: int| 0 <= j < notes.len() implies last_value(
        after,
        (#[trigger] notes[j]).key,
    ) == Some(notes[j].value) by {
        lemma_note_found_again(existing, notes, j);
    }
    lemma_none_created(after, notes);
}

proof fn lemma_none_created(existing: Seq<Entry>, notes: Seq<Entry>)
    requires
        forall|j: int|
            0 <= j < notes.len() ==> last_value(existing, (#[trigger] notes[j]).key) == Some(
                notes[j].value,
            ),
    ensures
        created_notes(existing, notes) == Seq::<Entry>::empty(),
    decreases notes.len(),
{
    if notes.len() > 0 {
        assert forall|j: int| 0 <= j < notes.drop_last().len() implies last_value(
            existing,
            (#[trigger] notes.drop_last()[j]).key,
        ) == Some(notes.drop_last()[j].value) by {
            assert(notes.drop_last()[j] == notes[j]);
        }
        lemma_none_created(existing, notes.drop_last());
        assert(last_value(existing, notes[notes.len() - 1].key) == Some(
            notes[notes.len() - 1].value,
        ));
    }
}

// ---------------------------------------------------------------------------------------------
// Files
// ---------------------------------------------------------------------------------------------
/// The list with the value of the last entry with a key replaced, or with a new entry.
pub open spec fn stored(list: Seq<Entry>, key: Key, value: Seq<char>) -> Seq<Entry>
    decreases list.len(),
{
    if list.len() == 0 {
        seq![Entry { key, value }]
    } else if last_value(list, key) is None {
        list.push(Entry { key, value })
    } else if list.last().key == key {
        list.drop_last().push(Entry { key, value })
    } else {
        stored(list.drop_last(), key, value).push(list.last())
    }
}

/// Storing gives a key its value and leaves the others theirs.
pub proof fn lemma_stored(list: Seq<Entry>, key: Key, value: Seq<char>, other: Key)
    ensures
        last_value(stored(list, key, value), key) == Some(value),
        other != key ==> last_value(stored(list, key, value), other) == last_value(list, other),
    decreases list.len(),
{
    let r = stored(list, key, value);
    let one = Entry { key, value };
    if list.len() == 0 {
        assert(r.drop_last() =~= Seq::empty());
        assert(r.last() == one);
        assert(last_value(r, other) == if other == key {
            Some(value)
        } else {
            last_value(r.drop_last(), other)
        });
        assert(last_value(r.drop_last(), other) is None);
    } else if last_value(list, key) is None {
        assert(r =~= list.push(one));
        assert(r.drop_last() =~= list);
        assert(r.last() == one);
        if other != key {
            assert(last_value(r, other) == last_value(r.drop_last(), other));
        }
    } else if list.last().key == key {
        assert(r =~= list.drop_last().push(one));
        assert(r.drop_last() =~= list.drop_last());
        assert(r.last() == one);
        if other != key {
            assert(last_value(r, other) == last_value(r.drop_last(), other));
            assert(last_value(list, other) == last_value(list.drop_last(), other));
        }
    } else {
        let rest = stored(list.drop_last(), key, value);
        lemma_stored(list.drop_last(), key, value, other);
        assert(r == rest.push(list.last()));
        assert(r.drop_last() =~= rest);
        assert(r.last() == list.last());
        assert(last_value(r, key) == last_value(rest, key));
        if list.last().key == other {
            assert(last_value(r, other) == Some(list.last().value));
            assert(last_value(list, other) == Some(list.last().value));
        } else {
            assert(last_value(r, other) == last_value(rest, other));
            assert(last_value(list, other) == last_value(list.drop_last(), other));
        }
    }
}

/// What an import makes of a file: where it stands, its digest and its extension.
pub struct Asset {
    pub key: Key,
    pub digest: Seq<char>,
    pub ext: Seq<char>,
}

/// Whether the content of a file is stored already.
pub open spec fn is_stored(files: Seq<Entry>, a: Asset) -> bool {
    match last_value(files, a.key) {
        Some(path) => stored_hash(path) == a.digest,
        None => false,
    }
}

/// The stored files once files have been imported: what was not stored is.
pub open spec fn imported_files(files: Seq<Entry>, assets: Seq<Asset>) -> Seq<Entry>
    decreases assets.len(),
{
    if assets.len() == 0 {
        files
    } else {
        let before = imported_files(files, assets.drop_last());
        let a = assets.last();
        if is_stored(before, a) {
            before
        } else {
            stored(before, a.key, blob_rel(a.digest, a.ext))
        }
    }
}

/// Whether no two files have one place.
pub open spec fn places_differ(assets: Seq<Asset>) -> bool {
    forall|i: int, j: int| 0 <= i < j < assets.len() ==> (#[trigger] assets[i]).key != (
    #[trigger] assets[j]).key
}

/// Whether an extension holds no dot.
pub open spec fn dotless(ext: Seq<char>) -> bool {
    forall|i: int| 0 <= i < ext.len() ==> #[trigger] ext[i] != '.'
}

/// Importing the same files again finds each of them stored.
pub proof fn law_files_are_unchanged(files: Seq<Entry>, assets: Seq<Asset>, j: int)
    requires
        places_differ(assets),
        forall|i: int| 0 <= i < assets.len() ==> dotless((#[trigger] assets[i]).ext),
        0 <= j < assets.len(),
    ensures
        is_stored(imported_files(files, assets), assets[j]),
    decreases assets.len(),
{
    let shorter = assets.drop_last();
    let before = imported_files(files, shorter);
    let a = assets.last();
    assert(dotless(assets[assets.len() - 1].ext));
    if j == assets.len() - 1 {
        if !is_stored(before, a) {
            lemma_stored(before, a.key, blob_rel(a.digest, a.ext), a.key);
            law_blob_path_round_trip(a.digest, a.ext);
        }
    } else {
        assert(shorter[j] == assets[j]);
        assert forall|i: int| 0 <= i < shorter.len() implies dotless((#[trigger] shorter[i]).ext) by {
            assert(shorter[i] == assets[i]);
        }
        assert(places_differ(shorter)) by {
            assert forall|x: int, y: int| 0 <= x < y < shorter.len() implies (
            #[trigger] shorter[x]).key != (#[trigger] shorter[y]).key by {
                assert(shorter[x] == assets[x] && shorter[y] == assets[y]);
            }
        }
        law_files_are_unchanged(files, shorter, j);
        assert(assets[j].key != assets[assets.len() - 1].key);
        lemma_stored(before, a.key, blob_rel(a.digest, a.ext), assets[j].key);
    }
}

/// The entries that managed files make.
pub open spec fn file_entries(v: Seq<StoredFile>) -> Seq<Entry> {
    Seq::new(
        v.len(),
        |i: int|
            Entry {
                key: Key { parent: opt_text(v[i].parent_id), name: v[i].name@ },
                value: v[i].blob_path@,
            },
    )
}

/// The file that an import looks at is the one that its entry stands for.
pub proof fn law_file_lookup_agrees(files: Seq<StoredFile>, parent: Option<Seq<char>>, name: Seq<char>, i: int)
    requires
        0 <= i <= files.len(),
    ensures
        last_value(file_entries(files).take(i), (Key { parent, name })) == (match file_at(
            files,
            parent,
            name,
            i,
        ) {
            Some(k) => Some(files[k].blob_path@),
            None => None,
        }),
    decreases i,
{
    if i > 0 {
        let all = file_entries(files);
        assert(all.take(i).last() == all[i - 1]);
        assert(all.take(i).drop_last() =~= all.take(i - 1));
        law_file_lookup_agrees(files, parent, name, i - 1);
    }
}

} // verus!
