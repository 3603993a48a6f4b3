//! Tags and collections hold just what was put into them: each link that is given is there, each that is
//! taken away is gone, and no other changes.
use vstd::prelude::*;
use vstd::string::*;

use crate::collection_service::{
    ancestors, collection_at, has_folder, highest_below, with_folders, with_papers, without_papers,
};
use crate::collection_store::mirror_vaults;
use crate::models::{Collection, Note, Tag};
use crate::paper_rows::{
    copied, just, lemma_links_without, link, links_without, with_link, LinkModel,
};
use crate::tag_service::{
    has_tag, links_count, made_tag, other_tags, with_made_tags, with_tags, without_tags, TagModel,
};
use crate::text::{holds, opt_text};

verus! {

// ---------------------------------------------------------------------------------------------
// Links
// ---------------------------------------------------------------------------------------------
proof fn lemma_push_contains(links: Seq<LinkModel>, l: LinkModel, m: LinkModel)
    ensures
        links.push(l).contains(m) <==> links.contains(m) || m == l,
{
    let r = links.push(l);
    assert(r[links.len() as int] == l);
    if links.contains(m) {
        let i = choose|i: int| 0 <= i < links.len() && links[i] == m;
        assert(r[i] == m);
    }
    if r.contains(m) {
        let i = choose|i: int| 0 <= i < r.len() && r[i] == m;
        if i < links.len() {
            assert(links[i] == m);
        }
    }
}

proof fn lemma_holds_last(list: Seq<Seq<char>>, x: Seq<char>)
    requires
        list.len() > 0,
    ensures
        holds(list, x) <==> holds(list.drop_last(), x) || x == list.last(),
{
    if holds(list.drop_last(), x) {
        let i = choose|i: int| 0 <= i < list.len() - 1 && list.drop_last()[i] == x;
        assert(list[i] == x);
    }
    if holds(list, x) {
        let i = choose|i: int| 0 <= i < list.len() && list[i] == x;
        if i < list.len() - 1 {
            assert(list.drop_last()[i] == x);
        }
    }
    assert(list[list.len() - 1] == list.last());
}

/// Giving a link adds it, unless it is there, and changes no other; no link is there twice for it.
pub proof fn law_link_is_given(links: Seq<LinkModel>, l: LinkModel, m: LinkModel)
    ensures
        with_link(links, l).contains(m) <==> links.contains(m) || m == l,
        links.contains(l) ==> with_link(links, l) == links,
        !links.contains(l) ==> with_link(links, l).len() == links.len() + 1,
{
    lemma_push_contains(links, l, m);
}

/// Once a paper was given tags, its tags are those that it had and all those that it was given, and
/// the tags of other papers are as they were.
pub proof fn law_every_tag_is_given(
    links: Seq<LinkModel>,
    paper: Seq<char>,
    tags: Seq<Seq<char>>,
    m: LinkModel,
)
    ensures
        with_tags(links, paper, tags).contains(m) <==> links.contains(m) || (m.paper_id == paper
            && holds(tags, m.other_id)),
    decreases tags.len(),
{
    if tags.len() > 0 {
        law_every_tag_is_given(links, paper, tags.drop_last(), m);
        law_link_is_given(
            with_tags(links, paper, tags.drop_last()),
            link(paper, tags.last()),
            m,
        );
        lemma_holds_last(tags, m.other_id);
    }
}

/// Once tags were taken from a paper, all of them are gone from it, and everything else is as it was.
pub proof fn law_every_tag_is_taken(
    links: Seq<LinkModel>,
    paper: Seq<char>,
    tags: Seq<Seq<char>>,
    m: LinkModel,
)
    ensures
        without_tags(links, paper, tags).contains(m) <==> links.contains(m) && !(m.paper_id == paper
            && holds(tags, m.other_id)),
    decreases tags.len(),
{
    if tags.len() > 0 {
        let before = without_tags(links, paper, tags.drop_last());
        let gone = just(link(paper, tags.last()));
        law_every_tag_is_taken(links, paper, tags.drop_last(), m);
        lemma_links_without(before, gone);
        assert(links_without(before, gone).contains(m) == (before.contains(m) && !gone(m)));
        lemma_holds_last(tags, m.other_id);
    }
}

/// Once papers were put into a collection, it holds those that it held and all those that were put into
/// it, and the other collections are as they were.
pub proof fn law_every_paper_is_put_in(
    links: Seq<LinkModel>,
    papers: Seq<Seq<char>>,
    collection: Seq<char>,
    m: LinkModel,
)
    ensures
        with_papers(links, papers, collection).contains(m) <==> links.contains(m) || (m.other_id
            == collection && holds(papers, m.paper_id)),
    decreases papers.len(),
{
    if papers.len() > 0 {
        law_every_paper_is_put_in(links, papers.drop_last(), collection, m);
        law_link_is_given(
            with_papers(links, papers.drop_last(), collection),
            link(papers.last(), collection),
            m,
        );
        lemma_holds_last(papers, m.paper_id);
    }
}

/// Once papers were taken out of a collection, it holds none of them, and everything else is as it was.
pub proof fn law_every_paper_is_taken_out(
    links: Seq<LinkModel>,
    papers: Seq<Seq<char>>,
    collection: Seq<char>,
    m: LinkModel,
)
    ensures
        without_papers(links, papers, collection).contains(m) <==> links.contains(m) && !(m.other_id
            == collection && holds(papers, m.paper_id)),
    decreases papers.len(),
{
    if papers.len() > 0 {
        let before = without_papers(links, papers.drop_last(), collection);
        let gone = just(link(papers.last(), collection));
        law_every_paper_is_taken_out(links, papers.drop_last(), collection, m);
        lemma_links_without(before, gone);
        assert(links_without(before, gone).contains(m) == (before.contains(m) && !gone(m)));
        lemma_holds_last(papers, m.paper_id);
    }
}

/// What is left of links is, in their order, what is not taken away.
pub proof fn law_other_links_are_left(links: Seq<LinkModel>, gone: spec_fn(LinkModel) -> bool)
    ensures
        links_without(links, gone) == links.filter(|l: LinkModel| !gone(l)),
    decreases links.len(),
{
    reveal(Seq::filter);
    if links.len() > 0 {
        law_other_links_are_left(links.drop_last(), gone);
    } else {
        assert(links =~= Seq::empty());
    }
}

/// A paper that takes over from another has every link of it, next to all that there were.
pub proof fn law_every_link_is_copied(
    links: Seq<LinkModel>,
    from: Seq<char>,
    to: Seq<char>,
    n: int,
    m: LinkModel,
)
    requires
        0 <= n <= links.len(),
    ensures
        copied(links, from, to, n).contains(m) <==> links.contains(m) || (m.paper_id == to
            && links.take(n).contains(link(from, m.other_id))),
    decreases n,
{
    if n > 0 {
        law_every_link_is_copied(links, from, to, n - 1, m);
        let l = links[n - 1];
        let before = copied(links, from, to, n - 1);
        law_link_is_given(before, link(to, l.other_id), m);
        assert(links.take(n) =~= links.take(n - 1).push(l));
        lemma_push_contains(links.take(n - 1), l, link(from, m.other_id));
    } else {
        assert(links.take(n) =~= Seq::empty());
        assert(copied(links, from, to, n) == links);
    }
}

// ---------------------------------------------------------------------------------------------
// Tags
// ---------------------------------------------------------------------------------------------
/// The papers of a tag are counted link by link.
pub proof fn law_every_paper_of_a_tag_counts(links: Seq<LinkModel>, other: Seq<char>)
    ensures
        links_count(links, other) == links.filter(|l: LinkModel| l.other_id == other).len(),
    decreases links.len(),
{
    reveal(Seq::filter);
    if links.len() > 0 {
        law_every_paper_of_a_tag_counts(links.drop_last(), other);
    }
}

/// Deleting a tag leaves just the tags with other ids, in their order.
pub proof fn law_other_tags_stay(tags: Seq<Tag>, id: Seq<char>)
    ensures
        other_tags(tags, id) == Seq::new(tags.len(), |i: int| i).filter(
            |i: int| tags[i].id@ != id,
        ),
{
    lemma_other_tags(tags, id, tags.len());
    assert(tags.take(tags.len() as int) =~= tags);
}

proof fn lemma_other_tags(tags: Seq<Tag>, id: Seq<char>, n: nat)
    requires
        n <= tags.len(),
    ensures
        other_tags(tags.take(n as int), id) == Seq::new(n, |i: int| i).filter(
            |i: int| tags[i].id@ != id,
        ),
    decreases n,
{
    reveal(Seq::filter);
    let all = Seq::new(n, |i: int| i);
    if n > 0 {
        lemma_other_tags(tags, id, (n - 1) as nat);
        assert(tags.take(n as int).drop_last() =~= tags.take(n - 1));
        assert(all.drop_last() =~= Seq::new((n - 1) as nat, |i: int| i));
        assert(all.last() == n - 1);
    }
}

/// Where a paper is given tags that there are none of, each is made once, by its id, and the tags that
/// there were stay as they are.
pub proof fn law_missing_tags_are_made(
    tags: Seq<TagModel>,
    ids: Seq<Seq<char>>,
    now: Seq<char>,
    id: Seq<char>,
)
    ensures
        tags.len() <= with_made_tags(tags, ids, now).len(),
        with_made_tags(tags, ids, now).take(tags.len() as int) == tags,
        has_tag(with_made_tags(tags, ids, now), id) <==> has_tag(tags, id) || holds(ids, id),
        forall|k: int|
            tags.len() <= k < with_made_tags(tags, ids, now).len() ==> holds(
                ids,
                (#[trigger] with_made_tags(tags, ids, now)[k]).id,
            ) && with_made_tags(tags, ids, now)[k].name == with_made_tags(tags, ids, now)[k].id
                && with_made_tags(tags, ids, now)[k].created_at == now && with_made_tags(
                tags,
                ids,
                now,
            )[k].paper_count == 0,
    decreases ids.len(),
{
    assert(tags.take(tags.len() as int) =~= tags);
    if ids.len() > 0 {
        let before = with_made_tags(tags, ids.drop_last(), now);
        law_missing_tags_are_made(tags, ids.drop_last(), now, id);
        let r = with_made_tags(tags, ids, now);
        let t = made_tag(ids.last(), now);
        lemma_holds_last(ids, id);
        assert(r.take(tags.len() as int) =~= before.take(tags.len() as int));
        if !has_tag(before, ids.last()) {
            assert(r[before.len() as int] == t);
            if has_tag(before, id) {
                let k = choose|k: int| 0 <= k < before.len() && (#[trigger] before[k]).id == id;
                assert(r[k] == before[k]);
            }
            if has_tag(r, id) {
                let k = choose|k: int| 0 <= k < r.len() && (#[trigger] r[k]).id == id;
                if k < before.len() {
                    assert(before[k] == r[k]);
                }
            }
        }
        assert forall|k: int| tags.len() <= k < r.len() implies holds(ids, (#[trigger] r[k]).id)
            && r[k].name == r[k].id && r[k].created_at == now && r[k].paper_count == 0 by {
            if k < before.len() {
                assert(r[k] == before[k]);
                lemma_holds_last(ids, before[k].id);
            } else {
                assert(r[k] == t);
                lemma_holds_last(ids, t.id);
            }
        }
    }
}

// ---------------------------------------------------------------------------------------------
// Collections
// ---------------------------------------------------------------------------------------------
/// The collection with an identifier is the first one with it.
pub proof fn law_collection_is_found(collections: Seq<Collection>, id: Seq<char>, i: int)
    requires
        0 <= i,
    ensures
        match collection_at(collections, id, i) {
            Some(k) => i <= k < collections.len() && collections[k].id@ == id && forall|j: int|
                i <= j < k ==> (#[trigger] collections[j]).id@ != id,
            None => forall|j: int|
                i <= j < collections.len() ==> (#[trigger] collections[j]).id@ != id,
        },
    decreases collections.len() - i,
{
    if i < collections.len() && collections[i].id@ != id {
        law_collection_is_found(collections, id, i + 1);
    }
}

/// Whether a collection is the parent of another.
pub open spec fn is_parent(collections: Seq<Collection>, k: int, m: int) -> bool {
    0 <= k < collections.len() && collections[k].parent_id is Some && collection_at(
        collections,
        collections[k].parent_id->0@,
        0,
    ) == Some(m)
}

/// The way up from a collection starts there, goes from each to its parent, and ends where there is no
/// parent or where the way is as long as it may be.
pub proof fn law_way_up_is_whole(collections: Seq<Collection>, k: int, left: nat)
    requires
        0 <= k < collections.len(),
    ensures
        ({
            let way = ancestors(collections, k, left);
            &&& 0 < way.len() <= left + 1
            &&& way[0] == k
            &&& forall|i: int| 0 <= i < way.len() - 1 ==> is_parent(collections, #[trigger] way[i], way[i + 1])
            &&& way.len() < left + 1 ==> forall|m: int| !#[trigger] is_parent(collections, way.last(), m)
        }),
    decreases left,
{
    let way = ancestors(collections, k, left);
    if left > 0 {
        if let Some(p) = collections[k].parent_id {
            if let Some(m) = collection_at(collections, p@, 0) {
                law_collection_is_found(collections, p@, 0);
                law_way_up_is_whole(collections, m, (left - 1) as nat);
                let rest = ancestors(collections, m, (left - 1) as nat);
                assert(way == seq![k] + rest);
                assert forall|i: int| 0 <= i < way.len() - 1 implies is_parent(
                    collections,
                    #[trigger] way[i],
                    way[i + 1],
                ) by {
                    if i > 0 {
                        assert(way[i] == rest[i - 1]);
                        assert(way[i + 1] == rest[i]);
                    }
                }
                assert(way.last() == rest.last());
            }
        }
    }
}

/// The folders on a way are those of all its collections that have one, in their order.
pub proof fn law_every_folder_of_the_way(collections: Seq<Collection>, chain: Seq<int>)
    ensures
        with_folders(collections, chain) == chain.filter(|k: int| has_folder(collections[k])),
    decreases chain.len(),
{
    reveal(Seq::filter);
    if chain.len() > 0 {
        law_every_folder_of_the_way(collections, chain.drop_last());
    }
}

/// The highest number below a parent is that of a collection there, and no collection there has a higher
/// one.
pub proof fn law_highest_number_is_highest(list: Seq<Collection>, parent: Option<Seq<char>>)
    ensures
        match highest_below(list, parent) {
            Some(n) => {
                &&& exists|i: int|
                    0 <= i < list.len() && opt_text((#[trigger] list[i]).parent_id) == parent
                        && list[i].sort_order == n
                &&& forall|i: int|
                    0 <= i < list.len() && opt_text((#[trigger] list[i]).parent_id) == parent
                        ==> list[i].sort_order <= n
            },
            None => forall|i: int|
                0 <= i < list.len() ==> opt_text((#[trigger] list[i]).parent_id) != parent,
        },
    decreases list.len(),
{
    if list.len() > 0 {
        let shorter = list.drop_last();
        law_highest_number_is_highest(shorter, parent);
        assert forall|i: int| 0 <= i < shorter.len() implies #[trigger] list[i] == shorter[i] by {}
        assert(list[list.len() - 1] == list.last());
        if let Some(n) = highest_below(shorter, parent) {
            let i = choose|i: int|
                0 <= i < shorter.len() && opt_text((#[trigger] shorter[i]).parent_id) == parent
                    && shorter[i].sort_order == n;
            assert(opt_text(list[i].parent_id) == parent);
        }
    }
}

/// The vaults in which a collection is mirrored are those of all the folders that stand for it.
pub proof fn law_every_mirror_is_found(notes: Seq<Note>, id: Seq<char>)
    ensures
        mirror_vaults(notes, id) == notes.filter(
            |n: Note| n.is_folder == 1 && opt_text(n.source_collection_id) == Some(id),
        ).map_values(|n: Note| n.vault_id@),
    decreases notes.len(),
{
    reveal(Seq::filter);
    let f = |n: Note| n.vault_id@;
    let is_mirror = |n: Note| n.is_folder == 1 && opt_text(n.source_collection_id) == Some(id);
    if notes.len() > 0 {
        law_every_mirror_is_found(notes.drop_last(), id);
        let before = notes.drop_last().filter(is_mirror);
        assert(before.push(notes.last()).map_values(f) =~= before.map_values(f).push(
            notes.last().vault_id@,
        ));
    } else {
        assert(notes.filter(is_mirror).map_values(f) =~= Seq::empty());
    }
}

} // verus!
