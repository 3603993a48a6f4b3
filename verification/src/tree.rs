//! Trees that are kept as rows with a parent: what stands below a row.
use vstd::prelude::*;
use vstd::string::*;

use crate::text::{holds, lemma_texts_push, list_has, opt_text, same, texts};

verus! {

/// A row of a tree.
pub struct TreeRow {
    pub id: String,
    pub parent_id: Option<String>,
}

/// Whether the `k`-th row stands directly below `id`.
pub open spec fn is_child(rows: Seq<TreeRow>, k: int, id: Seq<char>) -> bool {
    0 <= k < rows.len() && opt_text(rows[k].parent_id) == Some(id)
}

/// Whether every row below one of the list is in the list.
pub open spec fn closed_below(rows: Seq<TreeRow>, list: Seq<Seq<char>>) -> bool {
    forall|i: int, k: int|
        0 <= i < list.len() && #[trigger] is_child(rows, k, #[trigger] list[i]) ==> holds(
            list,
            rows[k].id@,
        )
}

/// Whether the list starts with the root and every other one of it stands directly below an earlier
/// one.
pub open spec fn grown_from(rows: Seq<TreeRow>, root: Seq<char>, list: Seq<Seq<char>>) -> bool {
    &&& list.len() > 0
    &&& list[0] == root
    &&& forall|j: int|
        0 < j < list.len() ==> exists|i: int, k: int|
            0 <= i < j && is_child(rows, k, #[trigger] list[i]) && #[trigger] rows[k].id@
                == #[trigger] list[j]
}

/// Whether the list is the root with all that stands below it, each once.
pub open spec fn is_subtree(rows: Seq<TreeRow>, root: Seq<char>, list: Seq<Seq<char>>) -> bool {
    grown_from(rows, root, list) && closed_below(rows, list) && list.no_duplicates()
}

/// A list without repetition is no longer than one that holds all of it.
pub proof fn lemma_distinct_len(a: Seq<Seq<char>>, b: Seq<Seq<char>>)
    requires
        a.no_duplicates(),
        forall|i: int| 0 <= i < a.len() ==> holds(b, #[trigger] a[i]),
    ensures
        a.len() <= b.len(),
{
    a.unique_seq_to_set();
    b.lemma_cardinality_of_set();
    assert(a.to_set().subset_of(b.to_set())) by {
        assert forall|p: Seq<char>| a.to_set().contains(p) implies b.to_set().contains(p) by {
            let i = choose|i: int| 0 <= i < a.len() && a[i] == p;
            assert(holds(b, a[i]));
            let k = choose|k: int| 0 <= k < b.len() && #[trigger] b[k] == p;
            assert(b[k] == p);
        }
    }
    vstd::set_lib::lemma_len_subset(a.to_set(), b.to_set());
}

/// The root and the identifiers of all rows.
spec fn known(rows: Seq<TreeRow>, root: Seq<char>) -> Seq<Seq<char>> {
    Seq::new(rows.len(), |i: int| rows[i].id@).push(root)
}

proof fn lemma_grown_len(rows: Seq<TreeRow>, root: Seq<char>, list: Seq<Seq<char>>)
    requires
        grown_from(rows, root, list),
        list.no_duplicates(),
    ensures
        list.len() <= rows.len() + 1,
{
    let all = known(rows, root);
    assert forall|j: int| 0 <= j < list.len() implies holds(all, #[trigger] list[j]) by {
        if j == 0 {
            assert(all[rows.len() as int] == root);
        } else {
            let (i, k) = choose|i: int, k: int|
                0 <= i < j && is_child(rows, k, #[trigger] list[i]) && #[trigger] rows[k].id@
                    == list[j];
            assert(all[k] == list[j]);
        }
    }
    lemma_distinct_len(list, all);
}

/// The root and all that stands below it, each once, a row always behind the one above it. Rows that
/// stand below one another in a circle do no harm.
pub fn subtree(rows: &Vec<TreeRow>, root: &str) -> (r: Vec<String>)
    ensures
        is_subtree(rows@, root@, texts(r@)),
{
    broadcast use lemma_texts_push;

    let mut out: Vec<String> = Vec::new();
    out.push(root.to_owned());
    assert(texts(out@) =~= seq![root@]);
    let mut i: usize = 0;
    while i < out.len()
        invariant
            i <= out.len(),
            grown_from(rows@, root@, texts(out@)),
            texts(out@).no_duplicates(),
            out.len() <= rows.len() + 1,
            forall|a: int, k: int|
                0 <= a < i && #[trigger] is_child(rows@, k, #[trigger] texts(out@)[a]) ==> holds(
                    texts(out@),
                    rows@[k].id@,
                ),
        decreases rows.len() + 1 - i,
    {
        let ghost above = texts(out@)[i as int];
        let mut k: usize = 0;
        while k < rows.len()
            invariant
                i < out.len(),
                k <= rows.len(),
                above == texts(out@)[i as int],
                grown_from(rows@, root@, texts(out@)),
                texts(out@).no_duplicates(),
                out.len() <= rows.len() + 1,
                forall|a: int, c: int|
                    0 <= a < i && #[trigger] is_child(rows@, c, #[trigger] texts(out@)[a])
                        ==> holds(texts(out@), rows@[c].id@),
                forall|c: int|
                    0 <= c < k && #[trigger] is_child(rows@, c, above) ==> holds(
                        texts(out@),
                        rows@[c].id@,
                    ),
            decreases rows.len() - k,
        {
            let below = match &rows[k].parent_id {
                Some(p) => same(p.as_str(), out[i].as_str()),
                None => false,
            };
            let ghost before = texts(out@);
            if below && !list_has(&out, rows[k].id.as_str()) {
                out.push(rows[k].id.clone());
                let ghost after = texts(out@);
                let ghost id = rows@[k as int].id@;
                proof {
                    assert(after =~= before.push(id));
                    assert forall|j: int| 0 < j < after.len() implies exists|a: int, c: int|
                        0 <= a < j && is_child(rows@, c, #[trigger] after[a]) && #[trigger] rows@[c].id@
                            == #[trigger] after[j] by {
                        if j < before.len() {
                            let (a, c) = choose|a: int, c: int|
                                0 <= a < j && is_child(rows@, c, #[trigger] before[a])
                                    && #[trigger] rows@[c].id@ == before[j];
                            assert(after[a] == before[a] && after[j] == before[j]);
                        } else {
                            assert(after[i as int] == above);
                            assert(is_child(rows@, k as int, after[i as int]));
                        }
                    }
                    assert(after[0] == before[0]);
                    assert forall|x: int, y: int|
                        0 <= x < after.len() && 0 <= y < after.len() && x != y implies after[x]
                        != after[y] by {
                        if x < before.len() && y < before.len() {
                            assert(after[x] == before[x] && after[y] == before[y]);
                        } else if x < before.len() {
                            assert(after[x] == before[x]);
                        } else {
                            assert(after[y] == before[y]);
                        }
                    }
                    lemma_grown_len(rows@, root@, after);
                    assert forall|s: Seq<char>| holds(before, s) implies holds(after, s) by {
                        let x = choose|x: int| 0 <= x < before.len() && #[trigger] before[x] == s;
                        assert(after[x] == s);
                    }
                    assert forall|a: int, c: int|
                        0 <= a < i && #[trigger] is_child(rows@, c, #[trigger] after[a]) implies holds(
                        after,
                        rows@[c].id@,
                    ) by {
                        assert(after[a] == before[a]);
                    }
                    assert(holds(after, id)) by {
                        assert(after[before.len() as int] == id);
                    }
                }
            }
            k += 1;
        }
        i += 1;
    }
    out
}

/// Two lists that hold all below a root hold the same.
pub proof fn law_subtrees_agree(
    rows: Seq<TreeRow>,
    root: Seq<char>,
    a: Seq<Seq<char>>,
    b: Seq<Seq<char>>,
    j: int,
)
    requires
        grown_from(rows, root, a),
        grown_from(rows, root, b),
        closed_below(rows, b),
        0 <= j < a.len(),
    ensures
        holds(b, a[j]),
    decreases j,
{
    if j == 0 {
        assert(b[0] == root);
    } else {
        let (i, k) = choose|i: int, k: int|
            0 <= i < j && is_child(rows, k, #[trigger] a[i]) && #[trigger] rows[k].id@ == a[j];
        law_subtrees_agree(rows, root, a, b, i);
        let x = choose|x: int| 0 <= x < b.len() && #[trigger] b[x] == a[i];
        assert(is_child(rows, k, b[x]));
    }
}

} // verus!
