//! Collections of papers: their tree, and the folders of notes that mirror them.
use vstd::prelude::*;
use vstd::string::*;

use crate::models::Collection;
use crate::order::{goes_before, order_places, place_list, places, sorted, text_before};
use crate::paper_rows::{
    add_link, just, link, link_models, links_without, remove_link, with_link, Link, LinkModel,
};
use crate::table::{find_row, first_place};
use crate::text::{concat2, copy_opt, opt_text, same, texts};
use crate::tree::{is_subtree, subtree, TreeRow};

verus! {

/// Decides whether a collection may get a parent: it may not be its own.
pub fn check_parent(id: &str, parent_id: &Option<String>) -> (r: Result<(), String>)
    ensures
        match r {
            Ok(_) => opt_text(*parent_id) != Some(id@),
            Err(e) => opt_text(*parent_id) == Some(id@) && e@
                == "collection cannot be its own parent"@,
        },
{
    match parent_id {
        Some(p) => if same(p.as_str(), id) {
            Err("collection cannot be its own parent".to_owned())
        } else {
            Ok(())
        },
        None => Ok(()),
    }
}

/// The rows of the tree that collections make.
pub open spec fn is_tree_of(rows: Seq<TreeRow>, collections: Seq<Collection>) -> bool {
    rows.len() == collections.len() && forall|i: int|
        0 <= i < rows.len() ==> (#[trigger] rows[i]).id@ == collections[i].id@ && opt_text(
            rows[i].parent_id,
        ) == opt_text(collections[i].parent_id)
}

fn tree_of(collections: &Vec<Collection>) -> (r: Vec<TreeRow>)
    ensures
        is_tree_of(r@, collections@),
{
    let mut rows: Vec<TreeRow> = Vec::new();
    let mut i: usize = 0;
    while i < collections.len()
        invariant
            i <= collections.len(),
            rows.len() == i,
            forall|j: int|
                0 <= j < i ==> (#[trigger] rows@[j]).id@ == collections@[j].id@ && opt_text(
                    rows@[j].parent_id,
                ) == opt_text(collections@[j].parent_id),
        decreases collections.len() - i,
    {
        rows.push(
            TreeRow {
                id: collections[i].id.clone(),
                parent_id: copy_opt(&collections[i].parent_id),
            },
        );
        i += 1;
    }
    rows
}

/// Whether a list holds a collection and all below it, the deepest first.
pub open spec fn is_deletion(collections: Seq<Collection>, id: Seq<char>, list: Seq<Seq<char>>) -> bool {
    exists|rows: Seq<TreeRow>| #[trigger]
        is_tree_of(rows, collections) && is_subtree(rows, id, list.reverse())
}

/// The collections that go when one is deleted: it and all below it, the deepest first.
pub fn deletion_order(collections: &Vec<Collection>, id: &str) -> (r: Vec<String>)
    ensures
        is_deletion(collections@, id@, texts(r@)),
{
    let rows = tree_of(collections);
    let down = subtree(&rows, id);
    let ghost all = texts(down@);
    let mut out: Vec<String> = Vec::new();
    let mut i: usize = down.len();
    while i > 0
        invariant
            i <= down.len(),
            all == texts(down@),
            out.len() == down.len() - i,
            forall|j: int|
                0 <= j < out.len() ==> (#[trigger] out@[j])@ == all[all.len() - 1 - j],
        decreases i,
    {
        i -= 1;
        out.push(down[i].clone());
    }
    assert(texts(out@).reverse() =~= all);
    assert(is_tree_of(rows@, collections@));
    out
}

/// The place of the first collection with an identifier.
pub open spec fn collection_at(collections: Seq<Collection>, id: Seq<char>, i: int) -> Option<int>
    decreases collections.len() - i,
{
    if i < 0 || i >= collections.len() {
        None
    } else if collections[i].id@ == id {
        Some(i)
    } else {
        collection_at(collections, id, i + 1)
    }
}

/// The places of a collection and of those above it, upwards, over at most `left` of them.
pub open spec fn ancestors(collections: Seq<Collection>, k: int, left: nat) -> Seq<int>
    decreases left,
{
    if left == 0 || k < 0 || k >= collections.len() {
        seq![k]
    } else {
        match collections[k].parent_id {
            Some(p) => match collection_at(collections, p@, 0) {
                Some(m) => seq![k] + ancestors(collections, m, (left - 1) as nat),
                None => seq![k],
            },
            None => seq![k],
        }
    }
}

fn find_collection(collections: &Vec<Collection>, id: &str) -> (r: Option<usize>)
    ensures
        match r {
            Some(k) => collection_at(collections@, id@, 0) == Some(k as int) && k
                < collections.len(),
            None => collection_at(collections@, id@, 0) is None,
        },
{
    let mut i: usize = 0;
    while i < collections.len()
        invariant
            i <= collections.len(),
            collection_at(collections@, id@, 0) == collection_at(collections@, id@, i as int),
        decreases collections.len() - i,
    {
        if same(collections[i].id.as_str(), id) {
            return Some(i);
        }
        i += 1;
    }
    None
}

/// The places in a list of numbers.
pub open spec fn as_places(v: Seq<usize>) -> Seq<int> {
    Seq::new(v.len(), |i: int| v[i] as int)
}

/// Whether a collection has a folder of its own: the one that is the library itself has none.
pub open spec fn has_folder(c: Collection) -> bool {
    c.name@ != "我的图书馆"@
}

/// The places at which collections with folders of their own stand.
pub open spec fn with_folders(collections: Seq<Collection>, chain: Seq<int>) -> Seq<int>
    decreases chain.len(),
{
    if chain.len() == 0 {
        Seq::empty()
    } else if has_folder(collections[chain.last()]) {
        with_folders(collections, chain.drop_last()).push(chain.last())
    } else {
        with_folders(collections, chain.drop_last())
    }
}

/// The collections, from the top down, whose folders lead to the notes on a paper in the given
/// collection: at most thirty-one above it, and without the library itself.
pub fn collection_chain(collections: &Vec<Collection>, leaf: usize) -> (r: Vec<usize>)
    requires
        leaf < collections.len(),
    ensures
        as_places(r@) == with_folders(
            collections@,
            ancestors(collections@, leaf as int, 31).reverse(),
        ),
        forall|i: int| 0 <= i < r.len() ==> #[trigger] r@[i] < collections.len(),
{
    let ghost all = ancestors(collections@, leaf as int, 31);
    let mut up: Vec<usize> = Vec::new();
    up.push(leaf);
    let mut at: usize = leaf;
    let mut left: u32 = 31;
    let ghost first = seq![leaf as int];
    assert(as_places(up@) =~= first);
    proof {
        assert(all[0] == leaf);
        assert(first + all.skip(1) =~= all);
        assert(ancestors(collections@, at as int, left as nat).skip(1) =~= all.skip(1));
    }
    while left > 0
        invariant
            left <= 31,
            at < collections.len(),
            up.len() > 0,
            forall|i: int| 0 <= i < up.len() ==> #[trigger] up@[i] < collections.len(),
            as_places(up@) + ancestors(collections@, at as int, left as nat).skip(1) == all,
        ensures
            as_places(up@) == all,
        decreases left,
    {
        let ghost before = as_places(up@);
        let ghost rest = ancestors(collections@, at as int, left as nat);
        let next = match &collections[at].parent_id {
            Some(p) => find_collection(collections, p.as_str()),
            None => None,
        };
        match next {
            Some(m) => {
                up.push(m);
                proof {
                    let tail = ancestors(collections@, m as int, (left - 1) as nat);
                    assert(tail[0] == m);
                    assert(rest.skip(1) =~= tail);
                    assert(as_places(up@) =~= before.push(m as int));
                    assert(before + tail =~= before.push(m as int) + tail.skip(1));
                }
                at = m;
            },
            None => {
                assert(rest.skip(1) =~= Seq::empty());
                assert(before + Seq::<int>::empty() =~= before);
                break;
            },
        }
        left -= 1;
        proof {
            if left == 0 {
                assert(ancestors(collections@, at as int, 0).skip(1) =~= Seq::empty());
                assert(as_places(up@) + Seq::<int>::empty() =~= as_places(up@));
            }
        }
    }
    let ghost down = all.reverse();
    let mut out: Vec<usize> = Vec::new();
    assert(as_places(out@) =~= with_folders(collections@, down.take(0)));
    let mut i: usize = up.len();
    while i > 0
        invariant
            i <= up.len(),
            as_places(up@) == all,
            down == all.reverse(),
            forall|k: int| 0 <= k < up.len() ==> #[trigger] up@[k] < collections.len(),
            forall|k: int| 0 <= k < out.len() ==> #[trigger] out@[k] < collections.len(),
            as_places(out@) == with_folders(collections@, down.take(up.len() - i)),
        decreases i,
    {
        i -= 1;
        let k = up[i];
        let ghost n = up.len() - i;
        let ghost before = as_places(out@);
        proof {
            assert(all[i as int] == k);
            assert(down[n - 1] == k);
            assert(down.take(n).drop_last() =~= down.take(n - 1));
            assert(down.take(n).last() == k);
        }
        if !same(collections[k].name.as_str(), "我的图书馆") {
            out.push(k);
            assert(as_places(out@) =~= before.push(k as int));
        }
    }
    assert(down.take(down.len() as int) =~= down);
    out
}

// ---------------------------------------------------------------------------------------------
// New collections, and their papers
// ---------------------------------------------------------------------------------------------
/// The highest number among the collections below a parent, or 0 where there are none.
pub open spec fn highest_below(list: Seq<Collection>, parent: Option<Seq<char>>) -> Option<int>
    decreases list.len(),
{
    if list.len() == 0 {
        None
    } else {
        let before = highest_below(list.drop_last(), parent);
        let c = list.last();
        if opt_text(c.parent_id) != parent {
            before
        } else {
            match before {
                Some(n) => if c.sort_order > n {
                    Some(c.sort_order as int)
                } else {
                    Some(n)
                },
                None => Some(c.sort_order as int),
            }
        }
    }
}

/// The number of a new collection below a parent: one more than the highest.
pub open spec fn next_number(list: Seq<Collection>, parent: Option<Seq<char>>) -> int {
    match highest_below(list, parent) {
        Some(n) => n + 1,
        None => 1,
    }
}

fn same_parent(a: &Option<String>, b: &Option<String>) -> (r: bool)
    ensures
        r == (opt_text(*a) == opt_text(*b)),
{
    match (a, b) {
        (Some(x), Some(y)) => same(x.as_str(), y.as_str()),
        (None, None) => true,
        _ => false,
    }
}

/// A new collection, behind all others below its parent.
pub fn create_collection(
    list: &Vec<Collection>,
    name: &str,
    parent_id: &Option<String>,
    id: &str,
    now: &str,
) -> (r: Collection)
    requires
        next_number(list@, opt_text(*parent_id)) <= i32::MAX,
    ensures
        r.id@ == id@,
        r.name@ == name@,
        opt_text(r.parent_id) == opt_text(*parent_id),
        r.sort_order == next_number(list@, opt_text(*parent_id)),
        r.created_at@ == now@,
{
    let ghost parent = opt_text(*parent_id);
    let mut most: Option<i32> = None;
    let mut i: usize = 0;
    while i < list.len()
        invariant
            i <= list.len(),
            parent == opt_text(*parent_id),
            match most {
                Some(n) => highest_below(list@.take(i as int), parent) == Some(n as int),
                None => highest_below(list@.take(i as int), parent) is None,
            },
        decreases list.len() - i,
    {
        proof {
            assert(list@.take(i + 1).drop_last() =~= list@.take(i as int));
            assert(list@.take(i + 1).last() == list@[i as int]);
        }
        if same_parent(&list[i].parent_id, parent_id) {
            most = match most {
                Some(n) => if list[i].sort_order > n {
                    Some(list[i].sort_order)
                } else {
                    Some(n)
                },
                None => Some(list[i].sort_order),
            };
        }
        i += 1;
    }
    assert(list@.take(list.len() as int) =~= list@);
    let sort_order: i32 = match most {
        Some(n) => n + 1,
        None => 1,
    };
    Collection {
        id: id.to_owned(),
        name: name.to_owned(),
        parent_id: copy_opt(parent_id),
        sort_order,
        created_at: now.to_owned(),
    }
}

/// Links of papers to a collection, with those of more papers.
pub open spec fn with_papers(
    links: Seq<LinkModel>,
    papers: Seq<Seq<char>>,
    collection: Seq<char>,
) -> Seq<LinkModel>
    decreases papers.len(),
{
    if papers.len() == 0 {
        links
    } else {
        with_link(
            with_papers(links, papers.drop_last(), collection),
            link(papers.last(), collection),
        )
    }
}

/// Puts papers into a collection; those that are in it are left alone.
pub fn add_papers_to_collection(
    links: &mut Vec<Link>,
    collection_id: &str,
    paper_ids: &Vec<String>,
)
    ensures
        link_models(final(links)@) == with_papers(
            link_models(old(links)@),
            texts(paper_ids@),
            collection_id@,
        ),
{
    let ghost all = texts(paper_ids@);
    let ghost start = link_models(links@);
    let mut i: usize = 0;
    assert(with_papers(start, all.take(0), collection_id@) =~= start);
    while i < paper_ids.len()
        invariant
            i <= paper_ids.len(),
            all == texts(paper_ids@),
            start == link_models(old(links)@),
            link_models(links@) == with_papers(start, all.take(i as int), collection_id@),
        decreases paper_ids.len() - i,
    {
        proof {
            assert(all.take(i + 1).drop_last() =~= all.take(i as int));
            assert(all.take(i + 1).last() == paper_ids@[i as int]@);
        }
        add_link(links, paper_ids[i].as_str(), collection_id);
        i += 1;
    }
    assert(all.take(all.len() as int) =~= all);
}

/// Links of papers to a collection, without those of some papers.
pub open spec fn without_papers(
    links: Seq<LinkModel>,
    papers: Seq<Seq<char>>,
    collection: Seq<char>,
) -> Seq<LinkModel>
    decreases papers.len(),
{
    if papers.len() == 0 {
        links
    } else {
        links_without(
            without_papers(links, papers.drop_last(), collection),
            just(link(papers.last(), collection)),
        )
    }
}

/// Takes papers out of a collection.
pub fn remove_papers_from_collection(
    links: &mut Vec<Link>,
    collection_id: &str,
    paper_ids: &Vec<String>,
)
    ensures
        link_models(final(links)@) == without_papers(
            link_models(old(links)@),
            texts(paper_ids@),
            collection_id@,
        ),
{
    let ghost all = texts(paper_ids@);
    let ghost start = link_models(links@);
    let mut i: usize = 0;
    assert(without_papers(start, all.take(0), collection_id@) =~= start);
    while i < paper_ids.len()
        invariant
            i <= paper_ids.len(),
            all == texts(paper_ids@),
            start == link_models(old(links)@),
            link_models(links@) == without_papers(start, all.take(i as int), collection_id@),
        decreases paper_ids.len() - i,
    {
        proof {
            assert(all.take(i + 1).drop_last() =~= all.take(i as int));
            assert(all.take(i + 1).last() == paper_ids@[i as int]@);
        }
        remove_link(links, paper_ids[i].as_str(), collection_id);
        i += 1;
    }
    assert(all.take(all.len() as int) =~= all);
}

/// Whether a collection stands before another: those at the top first, then by their parents, their
/// numbers and their names.
pub open spec fn stands_before(a: Collection, b: Collection) -> bool {
    match (a.parent_id, b.parent_id) {
        (None, Some(_)) => true,
        (Some(_), None) => false,
        (Some(x), Some(y)) => text_before(x@, y@) || (x@ == y@ && follows(a, b)),
        (None, None) => follows(a, b),
    }
}

/// Whether a collection stands before another below the same parent.
pub open spec fn follows(a: Collection, b: Collection) -> bool {
    a.sort_order < b.sort_order || (a.sort_order == b.sort_order && text_before(a.name@, b.name@))
}

/// Places go as what stands at them is listed.
pub open spec fn by_listing(list: Seq<Collection>) -> spec_fn(int, int) -> bool {
    |a: int, b: int| stands_before(list[a], list[b])
}

fn goes_first(a: &Collection, b: &Collection) -> (r: bool)
    ensures
        r == stands_before(*a, *b),
{
    let after = a.sort_order < b.sort_order || (a.sort_order == b.sort_order && goes_before(
        a.name.as_str(),
        b.name.as_str(),
    ));
    match (&a.parent_id, &b.parent_id) {
        (None, Some(_)) => true,
        (Some(_), None) => false,
        (Some(x), Some(y)) => goes_before(x.as_str(), y.as_str()) || (same(x.as_str(), y.as_str())
            && after),
        (None, None) => after,
    }
}

/// The places of collections as they are listed.
pub fn list_collections(list: &Vec<Collection>) -> (r: Vec<usize>)
    ensures
        place_list(r@) == sorted(places(list@.len()), by_listing(list@)),
        r.len() == list.len(),
        forall|i: int| 0 <= i < r.len() ==> #[trigger] r@[i] < list.len(),
{
    let goes = |a: usize, b: usize| -> (c: bool)
        requires
            a < list.len() && b < list.len(),
        ensures
            c == stands_before(list@[a as int], list@[b as int]),
        { goes_first(&list[a], &list[b]) };
    order_places(list.len(), goes, Ghost(by_listing(list@)))
}

/// Whether a collection has an id.
pub open spec fn with_id(id: Seq<char>) -> spec_fn(Collection) -> bool {
    |c: Collection| c.id@ == id
}

/// The place of a collection.
pub fn get_collection(list: &Vec<Collection>, id: &str) -> (r: Result<usize, String>)
    ensures
        match r {
            Ok(k) => k < list.len() && first_place(list@, with_id(id@), 0) == Some(k as int)
                && list@[k as int].id@ == id@,
            Err(e) => first_place(list@, with_id(id@), 0) is None && e@ == "collection not found: "@
                + id@,
        },
{
    let is = |c: &Collection| -> (r: bool)
        ensures
            r == (c.id@ == id@),
        { same(c.id.as_str(), id) };
    match find_row(list, is, Ghost(with_id(id@))) {
        Some(k) => Ok(k),
        None => Err(concat2("collection not found: ", id)),
    }
}

} // verus!
