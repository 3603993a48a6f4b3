//! Tags for papers.
use vstd::prelude::*;
use vstd::string::*;

use crate::models::Tag;
use crate::order::{
    goes_before, least_first, lemma_sorted_len, place_list, sorted, text_before,
};
use crate::paper_rows::{
    add_link, has_link, just, link, link_models, links_to, links_without, remove_link,
    remove_links_to, with_link, Link, LinkModel,
};
use crate::table::{find_row, first_place, law_first_place, law_picked, order_picked, pick_rows, picked};
use crate::text::{concat2, concat3, copy_opt, opt_text, same, texts, trim, trimmed};

verus! {

/// Whether another tag than the given one has a name.
pub open spec fn tag_name_taken(tags: Seq<Tag>, name: Seq<char>, except: Option<Seq<char>>) -> bool {
    exists|i: int|
        0 <= i < tags.len() && (#[trigger] tags[i]).name@ == name && Some(tags[i].id@) != except
}

/// The name that a tag gets, or why it gets none: a blank one, or one that another tag has.
pub fn tag_name(tags: &Vec<Tag>, name: &str, except: &Option<String>) -> (r: Result<String, String>)
    ensures
        match r {
            Ok(n) => n@ == trim(name@) && trim(name@).len() > 0 && !tag_name_taken(
                tags@,
                trim(name@),
                opt_text(*except),
            ),
            Err(e) => if trim(name@).len() == 0 {
                e@ == "标签名不能为空"@
            } else {
                tag_name_taken(tags@, trim(name@), opt_text(*except)) && e@ == "已存在同名标签「"@
                    + trim(name@) + "」"@
            },
        },
{
    let wanted = trimmed(name);
    if wanted.as_str().is_empty() {
        return Err("标签名不能为空".to_owned());
    }
    let mut i: usize = 0;
    while i < tags.len()
        invariant
            i <= tags.len(),
            wanted@ == trim(name@),
            wanted@.len() > 0,
            forall|j: int|
                0 <= j < i ==> (#[trigger] tags@[j]).name@ != wanted@ || Some(tags@[j].id@)
                    == opt_text(*except),
        decreases tags.len() - i,
    {
        let own = match except {
            Some(id) => same(tags[i].id.as_str(), id.as_str()),
            None => false,
        };
        if !own && same(tags[i].name.as_str(), wanted.as_str()) {
            assert(tags@[i as int].name@ == trim(name@));
            return Err(concat3("已存在同名标签「", wanted.as_str(), "」"));
        }
        i += 1;
    }
    Ok(wanted)
}

/// Why a tag does not get a name, if it does not: it is blank, or another tag has it.
pub open spec fn name_error(tags: Seq<Tag>, name: Seq<char>, except: Option<Seq<char>>) -> Option<
    Seq<char>,
> {
    if trim(name).len() == 0 {
        Some("标签名不能为空"@)
    } else if tag_name_taken(tags, trim(name), except) {
        Some("已存在同名标签「"@ + trim(name) + "」"@)
    } else {
        None
    }
}

/// Makes a tag, and gives its place.
pub fn create_tag(
    tags: &mut Vec<Tag>,
    name: &str,
    color: &Option<String>,
    id: &str,
    now: &str,
) -> (r: Result<usize, String>)
    ensures
        match name_error(old(tags)@, name@, None) {
            Some(e) => r is Err && r->Err_0@ == e && final(tags)@ == old(tags)@,
            None => {
                let t = final(tags)@.last();
                &&& r is Ok && r->Ok_0 == old(tags)@.len()
                &&& final(tags)@.len() == old(tags)@.len() + 1
                &&& final(tags)@.drop_last() == old(tags)@
                &&& t.id@ == id@ && t.name@ == trim(name@) && t.created_at@ == now@
                &&& t.color@ == (match *color {
                    Some(c) => c@,
                    None => "#3b82f6"@,
                })
                &&& t.parent_id is None && t.paper_count == 0
            },
        },
{
    match tag_name(tags, name, &None) {
        Ok(n) => {
            let k = tags.len();
            tags.push(
                Tag {
                    id: id.to_owned(),
                    name: n,
                    color: match color {
                        Some(c) => c.clone(),
                        None => "#3b82f6".to_owned(),
                    },
                    parent_id: None,
                    created_at: now.to_owned(),
                    paper_count: 0,
                },
            );
            assert(tags@.drop_last() =~= old(tags)@);
            Ok(k)
        },
        Err(e) => Err(e),
    }
}

/// Whether `r` is a tag with the name and the color that are given, and else as it was.
pub open spec fn is_changed(t: Tag, name: Option<Seq<char>>, color: Option<Seq<char>>, r: Tag) -> bool {
    &&& r.name@ == (match name {
        Some(n) => trim(n),
        None => t.name@,
    })
    &&& r.color@ == (match color {
        Some(c) => c,
        None => t.color@,
    })
    &&& r == (Tag { name: r.name, color: r.color, ..t })
}

/// Changes the name and the color of a tag, and gives its place.
pub fn update_tag(tags: &mut Vec<Tag>, id: &str, name: &Option<String>, color: &Option<String>) -> (r:
    Result<usize, String>)
    ensures
        match (if name is Some {
            name_error(old(tags)@, name->0@, Some(id@))
        } else {
            None
        }) {
            Some(e) => r is Err && r->Err_0@ == e && final(tags)@ == old(tags)@,
            None => match first_place(old(tags)@, with_id(id@), 0) {
                Some(k) => r is Ok && r->Ok_0 == k && final(tags)@.len() == old(tags)@.len()
                    && is_changed(
                    old(tags)@[k],
                    opt_text(*name),
                    opt_text(*color),
                    final(tags)@[k],
                ) && forall|j: int|
                    0 <= j < final(tags)@.len() && j != k ==> #[trigger] final(tags)@[j] == old(tags)@[j],
                None => r is Err && r->Err_0@ == "tag not found: "@ + id@ && final(tags)@ == old(tags)@,
            },
        },
{
    let wanted = match name {
        Some(n) => match tag_name(tags, n.as_str(), &Some(id.to_owned())) {
            Ok(n) => Some(n),
            Err(e) => {
                return Err(e);
            },
        },
        None => None,
    };
    let is = |t: &Tag| -> (c: bool)
        ensures
            c == (t.id@ == id@),
        { same(t.id.as_str(), id) };
    match find_row(tags, is, Ghost(with_id(id@))) {
        Some(k) => {
            if let Some(n) = wanted {
                tags[k].name = n;
            }
            if let Some(c) = color {
                tags[k].color = c.clone();
            }
            Ok(k)
        },
        None => Err(concat2("tag not found: ", id)),
    }
}

/// The statement that lists the papers with a tag, by title, by year or by the time of import.
pub fn list_papers_by_tag(sort_by: Option<&str>, sort_order: Option<&str>) -> (r: String)
    ensures
        ({
            let column = match sort_by {
                Some(s) => if s@ == "title"@ || s@ == "year"@ {
                    s@
                } else {
                    "imported_at"@
                },
                None => "imported_at"@,
            };
            let direction = match sort_order {
                Some(s) => if s@ == "asc"@ {
                    "ASC"@
                } else {
                    "DESC"@
                },
                None => "DESC"@,
            };
            r@
                == "SELECT p.* FROM papers p INNER JOIN paper_tags pt ON pt.paper_id = p.id WHERE pt.tag_id = ? ORDER BY p."@
                + column + " "@ + direction
        }),
{
    let column = match sort_by {
        Some(s) => if same(s, "title") || same(s, "year") {
            s
        } else {
            "imported_at"
        },
        None => "imported_at",
    };
    let direction = match sort_order {
        Some(s) => if same(s, "asc") {
            "ASC"
        } else {
            "DESC"
        },
        None => "DESC",
    };
    let mut s = concat3(
        "SELECT p.* FROM papers p INNER JOIN paper_tags pt ON pt.paper_id = p.id WHERE pt.tag_id = ? ORDER BY p.",
        column,
        " ",
    );
    s.append(direction);
    s
}

// ---------------------------------------------------------------------------------------------
// Tags of papers
// ---------------------------------------------------------------------------------------------
/// Links of a paper to tags, with more tags.
pub open spec fn with_tags(links: Seq<LinkModel>, paper: Seq<char>, tags: Seq<Seq<char>>) -> Seq<
    LinkModel,
>
    decreases tags.len(),
{
    if tags.len() == 0 {
        links
    } else {
        with_link(with_tags(links, paper, tags.drop_last()), link(paper, tags.last()))
    }
}

/// A tag, read as its texts.
pub struct TagModel {
    pub id: Seq<char>,
    pub name: Seq<char>,
    pub color: Seq<char>,
    pub parent_id: Option<Seq<char>>,
    pub created_at: Seq<char>,
    pub paper_count: int,
}

/// Tags, read as their texts.
pub open spec fn tag_models(v: Seq<Tag>) -> Seq<TagModel> {
    Seq::new(
        v.len(),
        |i: int|
            TagModel {
                id: v[i].id@,
                name: v[i].name@,
                color: v[i].color@,
                parent_id: opt_text(v[i].parent_id),
                created_at: v[i].created_at@,
                paper_count: v[i].paper_count as int,
            },
    )
}

/// Whether there is a tag with an id.
pub open spec fn has_tag(tags: Seq<TagModel>, id: Seq<char>) -> bool {
    exists|k: int| 0 <= k < tags.len() && (#[trigger] tags[k]).id == id
}

/// The tag that is made for an id of which nothing else is known: it is named by the id.
pub open spec fn made_tag(id: Seq<char>, now: Seq<char>) -> TagModel {
    TagModel {
        id,
        name: id,
        color: "#3b82f6"@,
        parent_id: None,
        created_at: now,
        paper_count: 0,
    }
}

/// Tags, with one for each id that has none.
pub open spec fn with_made_tags(tags: Seq<TagModel>, ids: Seq<Seq<char>>, now: Seq<char>) -> Seq<
    TagModel,
>
    decreases ids.len(),
{
    if ids.len() == 0 {
        tags
    } else {
        let before = with_made_tags(tags, ids.drop_last(), now);
        if has_tag(before, ids.last()) {
            before
        } else {
            before.push(made_tag(ids.last(), now))
        }
    }
}

/// Gives a paper tags; those that it has are left alone, and tags that are not there are made.
pub fn add_tags_to_paper(
    tags: &mut Vec<Tag>,
    links: &mut Vec<Link>,
    paper_id: &str,
    tag_ids: &Vec<String>,
    now: &str,
)
    ensures
        link_models(final(links)@) == with_tags(
            link_models(old(links)@),
            paper_id@,
            texts(tag_ids@),
        ),
        tag_models(final(tags)@) == with_made_tags(tag_models(old(tags)@), texts(tag_ids@), now@),
{
    let ghost all = texts(tag_ids@);
    let ghost start = link_models(links@);
    let ghost first = tag_models(tags@);
    let mut i: usize = 0;
    assert(with_tags(start, paper_id@, all.take(0)) =~= start);
    assert(with_made_tags(first, all.take(0), now@) =~= first);
    while i < tag_ids.len()
        invariant
            i <= tag_ids.len(),
            all == texts(tag_ids@),
            start == link_models(old(links)@),
            first == tag_models(old(tags)@),
            link_models(links@) == with_tags(start, paper_id@, all.take(i as int)),
            tag_models(tags@) == with_made_tags(first, all.take(i as int), now@),
        decreases tag_ids.len() - i,
    {
        proof {
            assert(all.take(i + 1).drop_last() =~= all.take(i as int));
            assert(all.take(i + 1).last() == tag_ids@[i as int]@);
        }
        let id = tag_ids[i].as_str();
        add_link(links, paper_id, id);
        let ghost before = tag_models(tags@);
        let is = |t: &Tag| -> (c: bool)
            ensures
                c == (t.id@ == id@),
            { same(t.id.as_str(), id) };
        let missing = find_row(tags, is, Ghost(with_id(id@))).is_none();
        proof {
            law_first_place(tags@, with_id(id@), 0);
            if !missing {
                let k = first_place(tags@, with_id(id@), 0)->0;
                assert(before[k].id == id@);
            } else {
                assert forall|k: int| 0 <= k < before.len() implies (#[trigger] before[k]).id
                    != id@ by {
                    assert(!with_id(id@)(tags@[k]));
                }
            }
        }
        if missing {
            tags.push(
                Tag {
                    id: id.to_owned(),
                    name: id.to_owned(),
                    color: "#3b82f6".to_owned(),
                    parent_id: None,
                    created_at: now.to_owned(),
                    paper_count: 0,
                },
            );
            assert(tag_models(tags@) =~= before.push(made_tag(id@, now@)));
        }
        i += 1;
    }
    assert(all.take(all.len() as int) =~= all);
}

proof fn lemma_made_tags(tags: Seq<TagModel>, ids: Seq<Seq<char>>, now: Seq<char>)
    ensures
        ({
            let r = with_made_tags(tags, ids, now);
            &&& forall|id: Seq<char>| has_tag(tags, id) ==> #[trigger] has_tag(r, id)
            &&& forall|j: int| 0 <= j < ids.len() ==> has_tag(r, #[trigger] ids[j])
        }),
    decreases ids.len(),
{
    if ids.len() > 0 {
        let shorter = ids.drop_last();
        let before = with_made_tags(tags, shorter, now);
        let r = with_made_tags(tags, ids, now);
        lemma_made_tags(tags, shorter, now);
        assert forall|id: Seq<char>| has_tag(before, id) implies #[trigger] has_tag(r, id) by {
            let k = choose|k: int| 0 <= k < before.len() && (#[trigger] before[k]).id == id;
            assert(r[k].id == id);
        }
        assert forall|j: int| 0 <= j < ids.len() implies has_tag(r, #[trigger] ids[j]) by {
            if j < shorter.len() {
                assert(shorter[j] == ids[j]);
                assert(has_tag(before, shorter[j]));
            } else if !has_tag(before, ids.last()) {
                assert(r[before.len() as int].id == ids.last());
            }
        }
    }
}

proof fn lemma_nothing_made(tags: Seq<TagModel>, ids: Seq<Seq<char>>, now: Seq<char>)
    requires
        forall|j: int| 0 <= j < ids.len() ==> has_tag(tags, #[trigger] ids[j]),
    ensures
        with_made_tags(tags, ids, now) == tags,
    decreases ids.len(),
{
    if ids.len() > 0 {
        let shorter = ids.drop_last();
        assert forall|j: int| 0 <= j < shorter.len() implies has_tag(tags, #[trigger] shorter[j]) by {
            assert(shorter[j] == ids[j]);
        }
        lemma_nothing_made(tags, shorter, now);
        assert(has_tag(tags, ids[ids.len() - 1]));
    }
}

proof fn lemma_with_tags(links: Seq<LinkModel>, paper: Seq<char>, ids: Seq<Seq<char>>)
    ensures
        forall|l: LinkModel| links.contains(l) ==> #[trigger] with_tags(links, paper, ids).contains(l),
        forall|j: int|
            0 <= j < ids.len() ==> with_tags(links, paper, ids).contains(
                link(paper, #[trigger] ids[j]),
            ),
    decreases ids.len(),
{
    if ids.len() > 0 {
        let shorter = ids.drop_last();
        let before = with_tags(links, paper, shorter);
        let r = with_tags(links, paper, ids);
        let one = link(paper, ids.last());
        lemma_with_tags(links, paper, shorter);
        assert forall|l: LinkModel| before.contains(l) implies #[trigger] r.contains(l) by {
            let k = choose|k: int| 0 <= k < before.len() && before[k] == l;
            assert(r[k] == l);
        }
        assert forall|j: int| 0 <= j < ids.len() implies r.contains(link(paper, #[trigger] ids[j])) by {
            if j < shorter.len() {
                assert(shorter[j] == ids[j]);
                assert(before.contains(link(paper, shorter[j])));
            } else if !before.contains(one) {
                assert(r[before.len() as int] == one);
            }
        }
    }
}

proof fn lemma_nothing_given(links: Seq<LinkModel>, paper: Seq<char>, ids: Seq<Seq<char>>)
    requires
        forall|j: int| 0 <= j < ids.len() ==> links.contains(link(paper, #[trigger] ids[j])),
    ensures
        with_tags(links, paper, ids) == links,
    decreases ids.len(),
{
    if ids.len() > 0 {
        let shorter = ids.drop_last();
        assert forall|j: int| 0 <= j < shorter.len() implies links.contains(
            link(paper, #[trigger] shorter[j]),
        ) by {
            assert(shorter[j] == ids[j]);
        }
        lemma_nothing_given(links, paper, shorter);
        assert(links.contains(link(paper, ids[ids.len() - 1])));
    }
}

/// Once tags are given to a paper each of them is there and given, and giving them again changes
/// nothing.
pub proof fn law_tags_are_given_once(
    tags: Seq<TagModel>,
    links: Seq<LinkModel>,
    paper: Seq<char>,
    ids: Seq<Seq<char>>,
    now: Seq<char>,
    later: Seq<char>,
)
    ensures
        ({
            let t = with_made_tags(tags, ids, now);
            let l = with_tags(links, paper, ids);
            &&& forall|j: int|
                0 <= j < ids.len() ==> has_tag(t, #[trigger] ids[j]) && l.contains(
                    link(paper, ids[j]),
                )
            &&& with_made_tags(t, ids, later) == t
            &&& with_tags(l, paper, ids) == l
        }),
{
    lemma_made_tags(tags, ids, now);
    lemma_with_tags(links, paper, ids);
    lemma_nothing_made(with_made_tags(tags, ids, now), ids, later);
    lemma_nothing_given(with_tags(links, paper, ids), paper, ids);
}

/// Links of a paper to tags, without some tags.
pub open spec fn without_tags(
    links: Seq<LinkModel>,
    paper: Seq<char>,
    tags: Seq<Seq<char>>,
) -> Seq<LinkModel>
    decreases tags.len(),
{
    if tags.len() == 0 {
        links
    } else {
        links_without(without_tags(links, paper, tags.drop_last()), just(link(paper, tags.last())))
    }
}

/// Takes tags from a paper.
pub fn remove_tags_from_paper(links: &mut Vec<Link>, paper_id: &str, tag_ids: &Vec<String>)
    ensures
        link_models(final(links)@) == without_tags(
            link_models(old(links)@),
            paper_id@,
            texts(tag_ids@),
        ),
{
    let ghost all = texts(tag_ids@);
    let ghost start = link_models(links@);
    let mut i: usize = 0;
    assert(without_tags(start, paper_id@, all.take(0)) =~= start);
    while i < tag_ids.len()
        invariant
            i <= tag_ids.len(),
            all == texts(tag_ids@),
            start == link_models(old(links)@),
            link_models(links@) == without_tags(start, paper_id@, all.take(i as int)),
        decreases tag_ids.len() - i,
    {
        proof {
            assert(all.take(i + 1).drop_last() =~= all.take(i as int));
            assert(all.take(i + 1).last() == tag_ids@[i as int]@);
        }
        remove_link(links, paper_id, tag_ids[i].as_str());
        i += 1;
    }
    assert(all.take(all.len() as int) =~= all);
}

/// Whether a tag is left once another is deleted, and is the same, but for a parent that is gone.
pub open spec fn is_left(t: Tag, id: Seq<char>, r: Tag) -> bool {
    &&& r.id@ == t.id@ && r.name@ == t.name@ && r.color@ == t.color@ && r.created_at@
        == t.created_at@
    &&& r.paper_count == t.paper_count
    &&& opt_text(r.parent_id) == (if opt_text(t.parent_id) == Some(id) {
        None
    } else {
        opt_text(t.parent_id)
    })
}

/// The places of the tags with other ids.
pub open spec fn other_tags(tags: Seq<Tag>, id: Seq<char>) -> Seq<int>
    decreases tags.len(),
{
    if tags.len() == 0 {
        Seq::empty()
    } else if tags.last().id@ == id {
        other_tags(tags.drop_last(), id)
    } else {
        other_tags(tags.drop_last(), id).push(tags.len() - 1)
    }
}

/// Whether tags are those at the given places, without a parent that is gone.
pub open spec fn are_left(tags: Seq<Tag>, at: Seq<int>, id: Seq<char>, r: Seq<Tag>) -> bool {
    &&& r.len() == at.len()
    &&& forall|i: int|
        0 <= i < at.len() ==> 0 <= #[trigger] at[i] < tags.len() && is_left(tags[at[i]], id, r[i])
}

/// Deletes a tag: papers lose it, and the tags below it come to the top.
pub fn delete_tag(tags: Vec<Tag>, links: &mut Vec<Link>, id: &str) -> (r: Vec<Tag>)
    ensures
        are_left(tags@, other_tags(tags@, id@), id@, r@),
        link_models(final(links)@) == links_without(link_models(old(links)@), links_to(id@)),
{
    remove_links_to(links, id);
    let mut out: Vec<Tag> = Vec::new();
    let mut i: usize = 0;
    while i < tags.len()
        invariant
            i <= tags.len(),
            are_left(tags@, other_tags(tags@.take(i as int), id@), id@, out@),
        decreases tags.len() - i,
    {
        let ghost at = other_tags(tags@.take(i as int), id@);
        let ghost before = out@;
        proof {
            assert(tags@.take(i + 1).drop_last() =~= tags@.take(i as int));
            assert(tags@.take(i + 1).last() == tags@[i as int]);
        }
        if !same(tags[i].id.as_str(), id) {
            let orphan = match &tags[i].parent_id {
                Some(p) => same(p.as_str(), id),
                None => false,
            };
            let t = Tag {
                id: tags[i].id.clone(),
                name: tags[i].name.clone(),
                color: tags[i].color.clone(),
                parent_id: if orphan {
                    None
                } else {
                    copy_opt(&tags[i].parent_id)
                },
                created_at: tags[i].created_at.clone(),
                paper_count: tags[i].paper_count,
            };
            out.push(t);
            proof {
                let next = at.push(i as int);
                assert forall|k: int| 0 <= k < next.len() implies 0 <= #[trigger] next[k]
                    < tags@.len() && is_left(tags@[next[k]], id@, out@[k]) by {
                    if k < at.len() {
                        assert(next[k] == at[k]);
                        assert(out@[k] == before[k]);
                    }
                }
            }
        }
        i += 1;
    }
    assert(tags@.take(tags.len() as int) =~= tags@);
    out
}

// ---------------------------------------------------------------------------------------------
// Listings
// ---------------------------------------------------------------------------------------------
/// How many of the links lead to something.
pub open spec fn links_count(links: Seq<LinkModel>, other: Seq<char>) -> nat
    decreases links.len(),
{
    if links.len() == 0 {
        0
    } else {
        links_count(links.drop_last(), other) + (if links.last().other_id == other {
            1nat
        } else {
            0nat
        })
    }
}

fn count_links(links: &Vec<Link>, other: &str) -> (r: usize)
    ensures
        r == links_count(link_models(links@), other@),
        r <= links.len(),
{
    let ghost all = link_models(links@);
    let mut n: usize = 0;
    let mut i: usize = 0;
    while i < links.len()
        invariant
            i <= links.len(),
            n <= i,
            all == link_models(links@),
            n == links_count(all.take(i as int), other@),
        decreases links.len() - i,
    {
        proof {
            assert(all.take(i + 1).drop_last() =~= all.take(i as int));
            assert(all.take(i + 1).last().other_id == links@[i as int].other_id@);
        }
        if same(links[i].other_id.as_str(), other) {
            n += 1;
        }
        i += 1;
    }
    assert(all.take(all.len() as int) =~= all);
    n
}

/// Whether a tag is the one that it was, with the number of its papers.
pub open spec fn is_counted(t: Tag, links: Seq<LinkModel>, r: Tag) -> bool {
    &&& r.id@ == t.id@ && r.name@ == t.name@ && r.color@ == t.color@ && r.created_at@
        == t.created_at@
    &&& opt_text(r.parent_id) == opt_text(t.parent_id)
    &&& r.paper_count == links_count(links, t.id@)
}

fn counted(t: &Tag, links: &Vec<Link>) -> (r: Tag)
    requires
        links.len() <= i64::MAX,
    ensures
        is_counted(*t, link_models(links@), r),
{
    Tag {
        id: t.id.clone(),
        name: t.name.clone(),
        color: t.color.clone(),
        parent_id: copy_opt(&t.parent_id),
        created_at: t.created_at.clone(),
        paper_count: count_links(links, t.id.as_str()) as i64,
    }
}

/// Whether tags are those at the given places, with the numbers of their papers.
pub open spec fn are_counted(tags: Seq<Tag>, at: Seq<int>, links: Seq<LinkModel>, r: Seq<Tag>) -> bool {
    &&& r.len() == at.len()
    &&& forall|i: int|
        0 <= i < at.len() ==> 0 <= #[trigger] at[i] < tags.len() && is_counted(
            tags[at[i]],
            links,
            r[i],
        )
}

/// The names of tags.
pub open spec fn tag_names(tags: Seq<Tag>) -> Seq<Seq<char>> {
    Seq::new(tags.len(), |i: int| tags[i].name@)
}

/// The places of the wanted tags, by their names.
pub open spec fn tags_by_name(tags: Seq<Tag>, wanted: spec_fn(Tag) -> bool) -> Seq<int> {
    sorted(picked(tags, wanted), least_first(tag_names(tags)))
}

fn listed(tags: &Vec<Tag>, found: &Vec<usize>, links: &Vec<Link>) -> (r: Vec<Tag>)
    requires
        links.len() <= i64::MAX,
        forall|i: int| 0 <= i < found.len() ==> #[trigger] found@[i] < tags.len(),
    ensures
        are_counted(
            tags@,
            sorted(place_list(found@), least_first(tag_names(tags@))),
            link_models(links@),
            r@,
        ),
{
    let goes = |a: usize, b: usize| -> (c: bool)
        requires
            a < tags.len() && b < tags.len(),
        ensures
            c == text_before(tags@[a as int].name@, tags@[b as int].name@),
        { goes_before(tags[a].name.as_str(), tags[b].name.as_str()) };
    let order = order_picked(found, tags.len(), goes, Ghost(least_first(tag_names(tags@))));
    let ghost at = place_list(order@);
    let mut out: Vec<Tag> = Vec::new();
    let mut i: usize = 0;
    while i < order.len()
        invariant
            i <= order.len(),
            links.len() <= i64::MAX,
            out.len() == i,
            at == place_list(order@),
            forall|k: int| 0 <= k < order.len() ==> #[trigger] order@[k] < tags.len(),
            forall|k: int|
                0 <= k < i ==> 0 <= #[trigger] at[k] < tags.len() && is_counted(
                    tags@[at[k]],
                    link_models(links@),
                    out@[k],
                ),
        decreases order.len() - i,
    {
        assert(at[i as int] == order@[i as int]);
        out.push(counted(&tags[order[i]], links));
        i += 1;
    }
    out
}

/// Any tag.
pub open spec fn any_tag() -> spec_fn(Tag) -> bool {
    |t: Tag| true
}

/// All tags by their names, each with the number of its papers.
pub fn list_tags(tags: &Vec<Tag>, links: &Vec<Link>) -> (r: Vec<Tag>)
    requires
        links.len() <= i64::MAX,
    ensures
        are_counted(tags@, tags_by_name(tags@, any_tag()), link_models(links@), r@),
        r.len() == tags.len(),
{
    let is = |t: &Tag| -> (c: bool)
        ensures
            c,
        { true };
    let found = pick_rows(tags, is, Ghost(any_tag()));
    proof {
        lemma_all_picked(tags@);
        lemma_sorted_len(picked(tags@, any_tag()), least_first(tag_names(tags@)));
    }
    listed(tags, &found, links)
}

proof fn lemma_all_picked(tags: Seq<Tag>)
    ensures
        picked(tags, any_tag()).len() == tags.len(),
    decreases tags.len(),
{
    if tags.len() > 0 {
        lemma_all_picked(tags.drop_last());
    }
}

/// Whether a tag has an id.
pub open spec fn with_id(id: Seq<char>) -> spec_fn(Tag) -> bool {
    |t: Tag| t.id@ == id
}

/// A tag with the number of its papers.
pub fn get_tag(tags: &Vec<Tag>, links: &Vec<Link>, id: &str) -> (r: Result<Tag, String>)
    requires
        links.len() <= i64::MAX,
    ensures
        match first_place(tags@, with_id(id@), 0) {
            Some(k) => r is Ok && is_counted(tags@[k], link_models(links@), r->Ok_0),
            None => r is Err && r->Err_0@ == "tag not found: "@ + id@,
        },
{
    let is = |t: &Tag| -> (c: bool)
        ensures
            c == (t.id@ == id@),
        { same(t.id.as_str(), id) };
    match find_row(tags, is, Ghost(with_id(id@))) {
        Some(k) => Ok(counted(&tags[k], links)),
        None => Err(concat2("tag not found: ", id)),
    }
}

/// Whether a tag is one of a paper.
pub open spec fn tag_of(links: Seq<LinkModel>, paper: Seq<char>) -> spec_fn(Tag) -> bool {
    |t: Tag| links.contains(link(paper, t.id@))
}

/// The tags of a paper by their names, each with the number of its papers.
pub fn get_paper_tags(tags: &Vec<Tag>, links: &Vec<Link>, paper_id: &str) -> (r: Vec<Tag>)
    requires
        links.len() <= i64::MAX,
    ensures
        are_counted(
            tags@,
            tags_by_name(tags@, tag_of(link_models(links@), paper_id@)),
            link_models(links@),
            r@,
        ),
{
    let is = |t: &Tag| -> (c: bool)
        ensures
            c == link_models(links@).contains(link(paper_id@, t.id@)),
        { has_link(links, paper_id, t.id.as_str()) };
    let found = pick_rows(tags, is, Ghost(tag_of(link_models(links@), paper_id@)));
    listed(tags, &found, links)
}

/// A tag that was given to a paper is among the tags of the paper.
pub proof fn law_given_tag_is_listed(
    tags: Seq<Tag>,
    links: Seq<LinkModel>,
    paper: Seq<char>,
    k: int,
)
    requires
        0 <= k < tags.len(),
    ensures
        picked(tags, tag_of(with_link(links, link(paper, tags[k].id@)), paper)).contains(k),
{
    let after = with_link(links, link(paper, tags[k].id@));
    law_picked(tags, tag_of(after, paper));
    if !links.contains(link(paper, tags[k].id@)) {
        assert(after[links.len() as int] == link(paper, tags[k].id@));
    }
    assert(picked(tags, tag_of(after, paper)).contains(k) <==> 0 <= k < tags.len() && tag_of(
        after,
        paper,
    )(tags[k]));
}

} // verus!
