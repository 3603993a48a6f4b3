//! Small maps from text to text, kept as lists in the order in which the keys came.
use vstd::prelude::*;

use crate::text::same;

verus! {

/// The map that a list of key and value pairs stands for; of pairs with one key the last counts.
pub open spec fn pairs_map(v: Seq<(String, String)>) -> Map<Seq<char>, Seq<char>>
    decreases v.len(),
{
    if v.len() == 0 {
        Map::empty()
    } else {
        pairs_map(v.drop_last()).insert(v.last().0@, v.last().1@)
    }
}

/// Whether no key stands twice.
pub open spec fn keys_distinct(v: Seq<(String, String)>) -> bool {
    forall|i: int, j: int| 0 <= i < j < v.len() ==> (#[trigger] v[i]).0@ != (#[trigger] v[j]).0@
}

/// A list without a key twice holds exactly the pairs of its map.
pub proof fn lemma_pairs_map(v: Seq<(String, String)>)
    requires
        keys_distinct(v),
    ensures
        forall|i: int| 0 <= i < v.len() ==> pairs_map(v).dom().contains((#[trigger] v[i]).0@)
            && pairs_map(v)[v[i].0@] == v[i].1@,
        forall|k: Seq<char>| #[trigger]
            pairs_map(v).dom().contains(k) ==> exists|i: int| 0 <= i < v.len() && (#[trigger] v[i]).0@ == k,
    decreases v.len(),
{
    if v.len() > 0 {
        let w = v.drop_last();
        assert(keys_distinct(w)) by {
            assert forall|i: int, j: int| 0 <= i < j < w.len() implies (#[trigger] w[i]).0@ != (
            #[trigger] w[j]).0@ by {
                assert(w[i] == v[i] && w[j] == v[j]);
            }
        }
        lemma_pairs_map(w);
        assert forall|i: int| 0 <= i < v.len() implies pairs_map(v).dom().contains(
            (#[trigger] v[i]).0@,
        ) && pairs_map(v)[v[i].0@] == v[i].1@ by {
            if i < w.len() {
                assert(w[i] == v[i]);
                assert(v[i].0@ != v[v.len() - 1].0@);
            }
        }
        assert forall|k: Seq<char>| #[trigger] pairs_map(v).dom().contains(k) implies exists|i: int|
            0 <= i < v.len() && (#[trigger] v[i]).0@ == k by {
            if k == v.last().0@ {
                assert(v[v.len() - 1].0@ == k);
            } else {
                assert(pairs_map(w).dom().contains(k));
                let i = choose|i: int| 0 <= i < w.len() && (#[trigger] w[i]).0@ == k;
                assert(v[i].0@ == k);
            }
        }
    }
}

/// The list with the pair in it; the key's earlier value goes.
pub fn put(fields: &mut Vec<(String, String)>, key: String, value: String)
    requires
        keys_distinct(old(fields)@),
    ensures
        keys_distinct(final(fields)@),
        pairs_map(final(fields)@) == pairs_map(old(fields)@).insert(key@, value@),
{
    let ghost before = fields@;
    let ghost (k, v) = (key@, value@);
    let mut i: usize = 0;
    while i < fields.len()
        invariant
            i <= fields.len(),
            fields@ == before,
            before == old(fields)@,
            keys_distinct(before),
            k == key@,
            v == value@,
            forall|j: int| 0 <= j < i ==> (#[trigger] before[j]).0@ != k,
        decreases fields.len() - i,
    {
        if same(fields[i].0.as_str(), key.as_str()) {
            fields.set(i, (key, value));
            proof {
                assert(keys_distinct(fields@)) by {
                    assert forall|a: int, b: int| 0 <= a < b < fields@.len() implies (
                    #[trigger] fields@[a]).0@ != (#[trigger] fields@[b]).0@ by {
                        assert(before[a].0@ != before[b].0@);
                    }
                }
                lemma_pairs_map(before);
                lemma_pairs_map(fields@);
                let x = pairs_map(fields@);
                let y = pairs_map(before).insert(k, v);
                assert forall|q: Seq<char>| x.dom().contains(q) == y.dom().contains(q) by {
                    if x.dom().contains(q) {
                        let a = choose|a: int| 0 <= a < fields@.len() && (#[trigger] fields@[a]).0@ == q;
                        assert(before[a].0@ == q);
                    }
                    if y.dom().contains(q) {
                        if q == k {
                            assert(fields@[i as int].0@ == q);
                        } else {
                            let a = choose|a: int| 0 <= a < before.len() && (#[trigger] before[a]).0@ == q;
                            assert(fields@[a].0@ == q);
                        }
                    }
                }
                assert forall|q: Seq<char>| #[trigger] x.dom().contains(q) implies x[q] == y[q] by {
                    let a = choose|a: int| 0 <= a < fields@.len() && (#[trigger] fields@[a]).0@ == q;
                    if q == k {
                        assert(fields@[i as int].0@ == q);
                    } else {
                        assert(before[a].0@ == q);
                    }
                }
                assert(x =~= y);
            }
            return;
        }
        i += 1;
    }
    fields.push((key, value));
    proof {
        assert(fields@.drop_last() =~= before);
        assert forall|a: int, b: int| 0 <= a < b < fields@.len() implies (#[trigger] fields@[a]).0@
            != (#[trigger] fields@[b]).0@ by {
            if b == before.len() {
                assert(before[a].0@ != k);
            } else {
                assert(before[a].0@ != before[b].0@);
            }
        }
    }
}

/// The value of a key.
pub fn value_of<'a>(list: &'a Vec<(String, String)>, key: &str) -> (r: Option<&'a str>)
    requires
        keys_distinct(list@),
    ensures
        match r {
            Some(v) => pairs_map(list@).dom().contains(key@) && pairs_map(list@)[key@] == v@,
            None => !pairs_map(list@).dom().contains(key@),
        },
{
    proof {
        lemma_pairs_map(list@);
    }
    let mut i: usize = 0;
    while i < list.len()
        invariant
            i <= list.len(),
            forall|k: int|
                0 <= k < list.len() ==> pairs_map(list@).dom().contains((#[trigger] list@[k]).0@)
                    && pairs_map(list@)[list@[k].0@] == list@[k].1@,
            forall|k: int| 0 <= k < i ==> (#[trigger] list@[k]).0@ != key@,
        decreases list.len() - i,
    {
        if same(list[i].0.as_str(), key) {
            assert(pairs_map(list@).dom().contains(list@[i as int].0@));
            return Some(list[i].1.as_str());
        }
        i += 1;
    }
    proof {
        lemma_pairs_map(list@);
    }
    None
}

} // verus!
