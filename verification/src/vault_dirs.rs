//! The directories of a vault that is imported, parents first.
use vstd::prelude::*;

use crate::order::{
    at_places, law_sorted, lemma_sorted_by_index, lemma_sorted_len, lemma_sorted_members,
    order_places, orders, place_list, sorted,
};
use crate::text::{chars_of, lemma_texts_push, texts};
use crate::vault_import::{base_of, dir_of};
use crate::vault_import_laws::{is_walk, lemma_rejoin, proper};

verus! {

/// How deep a path lies: how many slashes are in it.
pub open spec fn depth(rel: Seq<char>) -> nat
    decreases rel.len(),
{
    if rel.len() == 0 {
        0
    } else {
        depth(rel.drop_last()) + (if rel.last() == '/' {
            1nat
        } else {
            0
        })
    }
}

/// Paths that lie less deep come first.
pub open spec fn shallowest_first() -> spec_fn(Seq<char>, Seq<char>) -> bool {
    |a: Seq<char>, b: Seq<char>| depth(a) < depth(b)
}

/// The directories in the order in which folders are made for them.
pub open spec fn dirs_in_order(dirs: Seq<Seq<char>>) -> Seq<Seq<char>> {
    sorted(dirs, shallowest_first())
}

fn depth_of(rel: &str) -> (r: usize)
    ensures
        r == depth(rel@),
{
    let a = chars_of(rel);
    let mut n: usize = 0;
    let mut i: usize = 0;
    while i < a.len()
        invariant
            i <= a.len(),
            a@ == rel@,
            n <= i,
            n == depth(rel@.take(i as int)),
        decreases a.len() - i,
    {
        assert(rel@.take(i + 1).drop_last() =~= rel@.take(i as int));
        if a[i] == '/' {
            n += 1;
        }
        i += 1;
    }
    assert(rel@.take(rel@.len() as int) =~= rel@);
    n
}

/// The directories in the order in which folders are made for them: those that lie less deep first, and
/// else as they came.
pub fn order_dirs(dirs: &Vec<String>) -> (r: Vec<String>)
    ensures
        texts(r@) == dirs_in_order(texts(dirs@)),
        r@.len() == dirs@.len(),
{
    let ghost all = texts(dirs@);
    let mut keys: Vec<usize> = Vec::new();
    let mut i: usize = 0;
    while i < dirs.len()
        invariant
            i <= dirs.len(),
            keys.len() == i,
            all == texts(dirs@),
            forall|j: int| 0 <= j < i ==> #[trigger] keys@[j] == depth(all[j]),
        decreases dirs.len() - i,
    {
        keys.push(depth_of(dirs[i].as_str()));
        i += 1;
    }
    let goes = |a: usize, b: usize| -> (c: bool)
        requires
            a < keys.len() && b < keys.len(),
        ensures
            c == (keys@[a as int] < keys@[b as int]),
        { keys[a] < keys[b] };
    let ghost by_index = |a: int, b: int| keys@[a] < keys@[b];
    let order = order_places(keys.len(), goes, Ghost(by_index));
    proof {
        assert forall|a: int, b: int| 0 <= a < all.len() && 0 <= b < all.len() implies #[trigger] by_index(
            a,
            b,
        ) == shallowest_first()(all[a], all[b]) by {
            assert(keys@[a] == depth(all[a]) && keys@[b] == depth(all[b]));
        }
        lemma_sorted_by_index(all, all.len(), by_index, shallowest_first());
        assert(all.take(all.len() as int) =~= all);
    }
    let ghost result = dirs_in_order(all);
    let mut out: Vec<String> = Vec::new();
    let mut k: usize = 0;
    assert(texts(out@) =~= result.take(0));
    while k < order.len()
        invariant
            k <= order.len(),
            order.len() == dirs.len(),
            all == texts(dirs@),
            result.len() == order.len(),
            result == at_places(all, place_list(order@)),
            forall|j: int| 0 <= j < order.len() ==> #[trigger] order@[j] < dirs.len(),
            texts(out@) == result.take(k as int),
        decreases order.len() - k,
    {
        broadcast use lemma_texts_push;

        out.push(dirs[order[k]].clone());
        proof {
            assert(place_list(order@)[k as int] == order@[k as int]);
            assert(result[k as int] == all[order@[k as int] as int]);
            assert(result.take(k + 1) =~= result.take(k as int).push(result[k as int]));
        }
        k += 1;
    }
    assert(result.take(result.len() as int) =~= result);
    assert(texts(out@).len() == out@.len());
    out
}

/// Whether directories are those of a tree: proper paths, none of them twice, and each with its parent
/// among them, wherever that stands.
pub open spec fn is_tree(dirs: Seq<Seq<char>>) -> bool {
    &&& forall|i: int| 0 <= i < dirs.len() ==> proper(#[trigger] dirs[i])
    &&& dirs.no_duplicates()
    &&& forall|i: int|
        0 <= i < dirs.len() && dir_of(#[trigger] dirs[i]).len() > 0 ==> dirs.contains(
            dir_of(dirs[i]),
        )
}

proof fn lemma_depth_joined(a: Seq<char>, b: Seq<char>)
    ensures
        depth(a + b) == depth(a) + depth(b),
    decreases b.len(),
{
    if b.len() == 0 {
        assert(a + b =~= a);
    } else {
        lemma_depth_joined(a, b.drop_last());
        assert((a + b).drop_last() =~= a + b.drop_last());
    }
}

/// A directory lies less deep than what is in it.
pub proof fn law_parents_lie_less_deep(rel: Seq<char>)
    requires
        proper(rel),
        dir_of(rel).len() > 0,
    ensures
        depth(dir_of(rel)) < depth(rel),
{
    lemma_rejoin(rel);
    let d = dir_of(rel);
    lemma_depth_joined(d.push('/'), base_of(rel));
    assert(d.push('/').drop_last() =~= d);
}

/// In the order in which folders are made, every directory of a tree stands once and behind its parent.
pub proof fn law_parents_come_first(dirs: Seq<Seq<char>>)
    requires
        is_tree(dirs),
    ensures
        is_walk(dirs_in_order(dirs)),
        dirs_in_order(dirs).len() == dirs.len(),
        dirs_in_order(dirs).to_multiset() == dirs.to_multiset(),
{
    let before = shallowest_first();
    let s = dirs_in_order(dirs);
    assert(orders(before));
    law_sorted(dirs, before);
    lemma_sorted_len(dirs, before);
    lemma_sorted_members(dirs, before);
    dirs.lemma_multiset_has_no_duplicates();
    s.lemma_multiset_has_no_duplicates_conv();
    assert forall|i: int| 0 <= i < s.len() implies proper(#[trigger] s[i]) by {
        assert(dirs.contains(s[i]));
    }
    assert forall|i: int| 0 <= i < s.len() && dir_of(#[trigger] s[i]).len() > 0 implies exists|p: int|
        0 <= p < i && s[p] == dir_of(s[i]) by {
        assert(dirs.contains(s[i]));
        let d = dir_of(s[i]);
        assert(dirs.contains(d));
        dirs.to_multiset_ensures();
        s.to_multiset_ensures();
        assert(s.to_multiset().count(d) > 0);
        assert(s.contains(d));
        let p = choose|p: int| 0 <= p < s.len() && s[p] == d;
        law_parents_lie_less_deep(s[i]);
        if p > i {
            assert(!before(s[p], s[i]));
        }
        assert(0 <= p < i && s[p] == d);
    }
}

} // verus!
