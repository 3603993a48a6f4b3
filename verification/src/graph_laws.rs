//! The graph around a note is complete: every link within its reach is in it, with both ends, and
//! nothing else is. The graph of everything has every row and every reference.
use vstd::prelude::*;
use vstd::string::*;

use crate::graph_service::{
    has_link, hops, incoming, link_edges, linked, meet, neighbourhood, note_nodes, outgoing,
    row_edges, row_nodes, title_from, visit, EdgeModel, LinkModel, LinkRow, TitledRow, Walk,
};
use crate::text::holds;

verus! {

/// Whether there is a link from one note to another.
pub open spec fn goes(links: Seq<LinkModel>, a: Seq<char>, b: Seq<char>) -> bool {
    has_link(links, LinkModel { source: a, target: b })
}

/// Whether one of the ends of a link is a note.
pub open spec fn touches(l: LinkModel, id: Seq<char>) -> bool {
    l.source == id || l.target == id
}

/// Whether a note is another one, or a link stands between them.
pub open spec fn is_near(links: Seq<LinkModel>, id: Seq<char>, x: Seq<char>) -> bool {
    x == id || goes(links, id, x) || goes(links, x, id)
}

// ---------------------------------------------------------------------------------------------
// Steps
// ---------------------------------------------------------------------------------------------
proof fn lemma_link_push(list: Seq<LinkModel>, l: LinkModel, m: LinkModel)
    ensures
        has_link(list.push(l), m) <==> has_link(list, m) || m == l,
{
    let r = list.push(l);
    assert(r[list.len() as int] == l);
    if has_link(list, m) {
        let i = choose|i: int| 0 <= i < list.len() && #[trigger] list[i] == m;
        assert(r[i] == m);
    }
    if has_link(r, m) {
        let i = choose|i: int| 0 <= i < r.len() && #[trigger] r[i] == m;
        if i < list.len() {
            assert(list[i] == m);
        }
    }
}

proof fn lemma_text_push(list: Seq<Seq<char>>, s: Seq<char>, x: Seq<char>)
    ensures
        holds(list.push(s), x) <==> holds(list, x) || x == s,
{
    let r = list.push(s);
    assert(r[list.len() as int] == s);
    if holds(list, x) {
        let i = choose|i: int| 0 <= i < list.len() && list[i] == x;
        assert(r[i] == x);
    }
    if holds(r, x) {
        let i = choose|i: int| 0 <= i < r.len() && r[i] == x;
        if i < list.len() {
            assert(list[i] == x);
        }
    }
}

proof fn lemma_meet(w: Walk, l: LinkModel, other: Seq<char>, m: LinkModel, x: Seq<char>)
    ensures
        has_link(meet(w, l, other).links, m) <==> has_link(w.links, m) || m == l,
        holds(meet(w, l, other).nodes, x) <==> holds(w.nodes, x) || x == other,
        holds(meet(w, l, other).next, x) <==> holds(w.next, x) || (x == other && !holds(w.nodes, x)),
{
    lemma_link_push(w.links, l, m);
    lemma_text_push(w.nodes, other, x);
    lemma_text_push(w.next, other, x);
}

proof fn lemma_take(links: Seq<LinkModel>, n: int, m: LinkModel)
    requires
        0 < n <= links.len(),
    ensures
        has_link(links.take(n), m) <==> has_link(links.take(n - 1), m) || m == links[n - 1],
{
    assert(links.take(n) =~= links.take(n - 1).push(links[n - 1]));
    lemma_link_push(links.take(n - 1), links[n - 1], m);
}

proof fn lemma_outgoing(
    w: Walk,
    id: Seq<char>,
    links: Seq<LinkModel>,
    n: int,
    m: LinkModel,
    x: Seq<char>,
)
    requires
        0 <= n <= links.len(),
    ensures
        ({
            let r = outgoing(w, id, links, n);
            let seen = links.take(n);
            &&& has_link(r.links, m) <==> has_link(w.links, m) || (has_link(seen, m) && m.source == id)
            &&& holds(r.nodes, x) <==> holds(w.nodes, x) || goes(seen, id, x)
            &&& holds(r.next, x) <==> holds(w.next, x) || (goes(seen, id, x) && !holds(w.nodes, x))
        }),
    decreases n,
{
    if n > 0 {
        let l = links[n - 1];
        lemma_outgoing(w, id, links, n - 1, m, x);
        lemma_take(links, n, m);
        lemma_take(links, n, LinkModel { source: id, target: x });
        lemma_meet(outgoing(w, id, links, n - 1), l, l.target, m, x);
    }
}

proof fn lemma_incoming(
    w: Walk,
    id: Seq<char>,
    links: Seq<LinkModel>,
    n: int,
    m: LinkModel,
    x: Seq<char>,
)
    requires
        0 <= n <= links.len(),
    ensures
        ({
            let r = incoming(w, id, links, n);
            let seen = links.take(n);
            &&& has_link(r.links, m) <==> has_link(w.links, m) || (has_link(seen, m) && m.target == id)
            &&& holds(r.nodes, x) <==> holds(w.nodes, x) || goes(seen, x, id)
            &&& holds(r.next, x) <==> holds(w.next, x) || (goes(seen, x, id) && !holds(w.nodes, x))
        }),
    decreases n,
{
    if n > 0 {
        let l = links[n - 1];
        lemma_incoming(w, id, links, n - 1, m, x);
        lemma_take(links, n, m);
        lemma_take(links, n, LinkModel { source: x, target: id });
        lemma_meet(incoming(w, id, links, n - 1), l, l.source, m, x);
    }
}

spec fn touches_any(from: Seq<Seq<char>>, n: int, m: LinkModel) -> bool {
    exists|k: int| 0 <= k < n && touches(m, #[trigger] from[k])
}

spec fn near_any(links: Seq<LinkModel>, from: Seq<Seq<char>>, n: int, x: Seq<char>) -> bool {
    exists|k: int|
        0 <= k < n && (goes(links, #[trigger] from[k], x) || goes(links, x, from[k]))
}

proof fn lemma_any_step(
    links: Seq<LinkModel>,
    from: Seq<Seq<char>>,
    n: int,
    m: LinkModel,
    x: Seq<char>,
)
    requires
        0 < n,
    ensures
        touches_any(from, n, m) <==> touches_any(from, n - 1, m) || touches(m, from[n - 1]),
        near_any(links, from, n, x) <==> near_any(links, from, n - 1, x) || goes(
            links,
            from[n - 1],
            x,
        ) || goes(links, x, from[n - 1]),
{
    if touches_any(from, n, m) {
        let k = choose|k: int| 0 <= k < n && touches(m, #[trigger] from[k]);
        if k < n - 1 {
            assert(touches_any(from, n - 1, m));
        }
    }
    if near_any(links, from, n, x) {
        let k = choose|k: int|
            0 <= k < n && (goes(links, #[trigger] from[k], x) || goes(links, x, from[k]));
        if k < n - 1 {
            assert(near_any(links, from, n - 1, x));
        }
    }
    assert(touches(m, from[n - 1]) ==> touches_any(from, n, m));
}

proof fn lemma_visit(
    w: Walk,
    from: Seq<Seq<char>>,
    links: Seq<LinkModel>,
    n: int,
    m: LinkModel,
    x: Seq<char>,
)
    requires
        0 <= n <= from.len(),
    ensures
        ({
            let r = visit(w, from, links, n);
            &&& has_link(r.links, m) <==> has_link(w.links, m) || (has_link(links, m) && touches_any(
                from,
                n,
                m,
            ))
            &&& holds(r.nodes, x) <==> holds(w.nodes, x) || near_any(links, from, n, x)
            &&& holds(r.next, x) <==> holds(w.next, x) || (near_any(links, from, n, x) && !holds(
                w.nodes,
                x,
            ))
        }),
    decreases n,
{
    if n > 0 {
        let id = from[n - 1];
        let all = links.len() as int;
        lemma_visit(w, from, links, n - 1, m, x);
        lemma_any_step(links, from, n, m, x);
        let before = visit(w, from, links, n - 1);
        assert(links.take(all) =~= links);
        lemma_outgoing(before, id, links, all, m, x);
        lemma_incoming(outgoing(before, id, links, all), id, links, all, m, x);
    }
}

// ---------------------------------------------------------------------------------------------
// Around a note
// ---------------------------------------------------------------------------------------------
proof fn lemma_start(id: Seq<char>, x: Seq<char>, m: LinkModel)
    ensures
        holds(seq![id], x) <==> x == id,
        !has_link(Seq::empty(), m),
        touches_any(seq![id], 1, m) <==> touches(m, id),
{
    let one = seq![id];
    assert(one[0] == id);
    if x == id {
        assert(holds(one, x));
    }
    if touches(m, id) {
        assert(touches(m, one[0]));
    }
}

proof fn lemma_one_hop(id: Seq<char>, links: Seq<LinkModel>, m: LinkModel, x: Seq<char>)
    ensures
        ({
            let none = Walk { nodes: seq![id], links: Seq::empty(), next: Seq::empty() };
            let r = visit(none, seq![id], links, 1);
            &&& has_link(r.links, m) <==> has_link(links, m) && touches(m, id)
            &&& holds(r.nodes, x) <==> is_near(links, id, x)
            &&& holds(r.next, x) <==> is_near(links, id, x) && x != id
        }),
{
    let none = Walk { nodes: seq![id], links: Seq::empty(), next: Seq::empty() };
    let one = seq![id];
    lemma_visit(none, one, links, 1, m, x);
    lemma_start(id, x, m);
    lemma_any_step(links, one, 1, m, x);
    assert(one[0] == id);
    assert(!near_any(links, one, 0, x));
    assert(!holds(Seq::<Seq<char>>::empty(), x));
}

/// Over one hop the graph around a note holds just the links that start or end there, and the notes at
/// their other ends.
pub proof fn law_one_hop_reaches_the_neighbours(
    id: Seq<char>,
    links: Seq<LinkModel>,
    depth: i32,
    m: LinkModel,
    x: Seq<char>,
)
    requires
        depth < 2,
    ensures
        has_link(neighbourhood(id, links, depth).links, m) <==> has_link(links, m) && (m.source == id
            || m.target == id),
        holds(neighbourhood(id, links, depth).nodes, x) <==> x == id || has_link(
            links,
            LinkModel { source: id, target: x },
        ) || has_link(links, LinkModel { source: x, target: id }),
{
    reveal_with_fuel(hops, 3);
    lemma_one_hop(id, links, m, x);
    let none = Walk { nodes: seq![id], links: Seq::empty(), next: Seq::empty() };
    let w = Walk { nodes: seq![id], links: Seq::empty(), next: seq![id] };
    let start = Walk { next: Seq::empty(), ..w };
    assert(start == none);
}

/// Over two hops the graph around a note holds just the links that start or end at the note or at one
/// of its neighbours, and the notes at their ends.
pub proof fn law_two_hops_reach_their_neighbours(
    id: Seq<char>,
    links: Seq<LinkModel>,
    depth: i32,
    m: LinkModel,
    x: Seq<char>,
)
    requires
        depth >= 2,
    ensures
        has_link(neighbourhood(id, links, depth).links, m) <==> has_link(links, m) && (is_near(
            links,
            id,
            m.source,
        ) || is_near(links, id, m.target)),
        holds(neighbourhood(id, links, depth).nodes, x) <==> exists|y: Seq<char>| #[trigger]
            is_near(links, id, y) && is_near(links, y, x),
{
    reveal_with_fuel(hops, 4);
    let none = Walk { nodes: seq![id], links: Seq::empty(), next: Seq::empty() };
    let w = Walk { nodes: seq![id], links: Seq::empty(), next: seq![id] };
    let start = Walk { next: Seq::empty(), ..w };
    assert(start == none);
    let first = visit(none, seq![id], links, 1);
    let from = first.next;
    let second = Walk { next: Seq::empty(), ..first };
    let n = from.len() as int;
    let r = if n == 0 {
        first
    } else {
        visit(second, from, links, n)
    };
    assert(neighbourhood(id, links, depth).links == r.links);
    assert(neighbourhood(id, links, depth).nodes == r.nodes);
    lemma_visit(second, from, links, n, m, x);
    assert forall|y: Seq<char>|
        #![trigger is_near(links, id, y)]
        (holds(first.nodes, y) <==> is_near(links, id, y)) && (holds(from, y) <==> is_near(
            links,
            id,
            y,
        ) && y != id) by {
        lemma_one_hop(id, links, m, y);
    }
    lemma_one_hop(id, links, m, x);
    if has_link(r.links, m) {
        if touches(m, id) {
            assert(is_near(links, id, id));
        } else {
            let k = choose|k: int| 0 <= k < n && touches(m, #[trigger] from[k]);
            assert(holds(from, from[k]));
            lemma_one_hop(id, links, m, from[k]);
        }
    }
    if has_link(links, m) && (is_near(links, id, m.source) || is_near(links, id, m.target)) {
        let y = if is_near(links, id, m.source) {
            m.source
        } else {
            m.target
        };
        if y != id {
            lemma_one_hop(id, links, m, y);
            let k = choose|k: int| 0 <= k < from.len() && from[k] == y;
            assert(touches(m, from[k]));
        }
    }
    if holds(r.nodes, x) {
        if is_near(links, id, x) {
            assert(is_near(links, x, x));
        } else {
            let k = choose|k: int|
                0 <= k < n && (goes(links, #[trigger] from[k], x) || goes(links, x, from[k]));
            assert(holds(from, from[k]));
            lemma_one_hop(id, links, m, from[k]);
            assert(is_near(links, id, from[k]) && is_near(links, from[k], x));
        }
    }
    if exists|y: Seq<char>| #[trigger] is_near(links, id, y) && is_near(links, y, x) {
        let y = choose|y: Seq<char>| #[trigger] is_near(links, id, y) && is_near(links, y, x);
        lemma_one_hop(id, links, m, y);
        if y != id && y != x {
            let k = choose|k: int| 0 <= k < from.len() && from[k] == y;
            assert(goes(links, from[k], x) || goes(links, x, from[k]));
        }
    }
}

/// Every link that starts or ends at a note is in the graph around it, with both its ends, whatever the
/// depth.
pub proof fn law_local_graph_is_complete(
    id: Seq<char>,
    links: Seq<LinkModel>,
    depth: i32,
    m: LinkModel,
)
    requires
        has_link(links, m),
        m.source == id || m.target == id,
    ensures
        has_link(neighbourhood(id, links, depth).links, m),
        holds(neighbourhood(id, links, depth).nodes, m.source),
        holds(neighbourhood(id, links, depth).nodes, m.target),
{
    assert(m == (LinkModel { source: m.source, target: m.target }));
    if depth < 2 {
        law_one_hop_reaches_the_neighbours(id, links, depth, m, m.source);
        law_one_hop_reaches_the_neighbours(id, links, depth, m, m.target);
    } else {
        law_two_hops_reach_their_neighbours(id, links, depth, m, m.source);
        law_two_hops_reach_their_neighbours(id, links, depth, m, m.target);
        assert(is_near(links, id, id));
        assert(is_near(links, id, m.source) && is_near(links, m.source, m.source));
        assert(is_near(links, id, m.target) && is_near(links, m.target, m.target));
    }
}

// ---------------------------------------------------------------------------------------------
// Nodes and edges
// ---------------------------------------------------------------------------------------------
proof fn lemma_title(notes: Seq<TitledRow>, id: Seq<char>, i: int, k: int)
    requires
        0 <= i <= k < notes.len(),
        notes[k].id@ == id,
        forall|j: int| i <= j < k ==> (#[trigger] notes[j]).id@ != id,
    ensures
        title_from(notes, id, i) == Some(notes[k].title@),
    decreases k - i,
{
    if i < k {
        assert(notes[i].id@ != id);
        lemma_title(notes, id, i + 1, k);
    }
}

proof fn lemma_shown(
    ids: Seq<Seq<char>>,
    notes: Seq<TitledRow>,
    middle: Seq<char>,
    k: int,
    title: Seq<char>,
) -> (i: int)
    requires
        0 <= k < ids.len(),
        title_from(notes, ids[k], 0) == Some(title),
    ensures
        0 <= i < note_nodes(ids, notes, middle).len(),
        note_nodes(ids, notes, middle)[i].id == ids[k],
        note_nodes(ids, notes, middle)[i].label == title,
    decreases ids.len(),
{
    let rest = note_nodes(ids.drop_last(), notes, middle);
    if k == ids.len() - 1 {
        rest.len() as int
    } else {
        assert(ids.drop_last()[k] == ids[k]);
        let i = lemma_shown(ids.drop_last(), notes, middle, k, title);
        assert(note_nodes(ids, notes, middle)[i] == rest[i]);
        i
    }
}

/// Every note that is found around a note and is there is shown, under its title.
pub proof fn law_found_notes_are_shown(
    ids: Seq<Seq<char>>,
    notes: Seq<TitledRow>,
    middle: Seq<char>,
    k: int,
)
    requires
        0 <= k < notes.len(),
        holds(ids, notes[k].id@),
        forall|j: int| 0 <= j < k ==> (#[trigger] notes[j]).id@ != notes[k].id@,
    ensures
        exists|i: int|
            0 <= i < note_nodes(ids, notes, middle).len() && (#[trigger] note_nodes(
                ids,
                notes,
                middle,
            )[i]).id == notes[k].id@ && note_nodes(ids, notes, middle)[i].label == notes[k].title@,
{
    let j = choose|j: int| 0 <= j < ids.len() && ids[j] == notes[k].id@;
    lemma_title(notes, ids[j], 0, k);
    let i = lemma_shown(ids, notes, middle, j, notes[k].title@);
}

/// A note that a link joins to the note in the middle is shown, and so is the link.
pub proof fn law_neighbours_are_shown(
    notes: Seq<TitledRow>,
    links: Seq<LinkModel>,
    id: Seq<char>,
    depth: i32,
    m: LinkModel,
    k: int,
)
    requires
        has_link(links, m),
        m.source == id || m.target == id,
        0 <= k < notes.len(),
        notes[k].id@ == m.source || notes[k].id@ == m.target,
        forall|j: int| 0 <= j < k ==> (#[trigger] notes[j]).id@ != notes[k].id@,
    ensures
        ({
            let w = neighbourhood(id, links, depth);
            &&& exists|i: int|
                0 <= i < note_nodes(w.nodes, notes, id).len() && (#[trigger] note_nodes(
                    w.nodes,
                    notes,
                    id,
                )[i]).id == notes[k].id@ && note_nodes(w.nodes, notes, id)[i].label
                    == notes[k].title@
            &&& exists|i: int|
                0 <= i < linked(w.links).len() && (#[trigger] linked(w.links)[i]).source == m.source
                    && linked(w.links)[i].target == m.target
        }),
{
    let w = neighbourhood(id, links, depth);
    law_local_graph_is_complete(id, links, depth, m);
    law_found_notes_are_shown(w.nodes, notes, id, k);
    let i = choose|i: int| 0 <= i < w.links.len() && #[trigger] w.links[i] == m;
    assert(linked(w.links)[i].source == m.source);
}

/// The references of two lists of rows are those of the first and then those of the second; a row that
/// refers to something has an edge to it, and another has none.
pub proof fn law_every_reference_is_an_edge(
    a: Seq<TitledRow>,
    b: Seq<TitledRow>,
    row: TitledRow,
    edge_type: Seq<char>,
)
    ensures
        row_edges(a + b, edge_type) == row_edges(a, edge_type) + row_edges(b, edge_type),
        row.refers_to is Some ==> row_edges(seq![row], edge_type) == seq![
            EdgeModel { source: row.id@, target: row.refers_to->0@, edge_type },
        ],
        row.refers_to is None ==> row_edges(seq![row], edge_type) == Seq::<EdgeModel>::empty(),
    decreases b.len(),
{
    let none = Seq::<TitledRow>::empty();
    assert(row_edges(none, edge_type) =~= Seq::empty());
    assert(seq![row].drop_last() =~= none);
    assert(seq![row].last() == row);
    if row.refers_to is Some {
        assert(row_edges(seq![row], edge_type) =~= seq![
            EdgeModel { source: row.id@, target: row.refers_to->0@, edge_type },
        ]);
    }
    if b.len() == 0 {
        assert(a + b =~= a);
        assert(row_edges(a, edge_type) + row_edges(b, edge_type) =~= row_edges(a, edge_type));
    } else {
        law_every_reference_is_an_edge(a, b.drop_last(), row, edge_type);
        assert((a + b).drop_last() =~= a + b.drop_last());
        assert((a + b).last() == b.last());
    }
}

/// Every row is a node under its identifier, with its title for a label, whole or cut to the length that
/// is given, and every link is an edge from its source to its target.
pub proof fn law_every_row_is_a_node(
    rows: Seq<TitledRow>,
    max: Option<int>,
    node_type: Seq<char>,
    color: Seq<char>,
    links: Seq<LinkRow>,
)
    ensures
        row_nodes(rows, max, node_type, color).len() == rows.len(),
        forall|i: int|
            0 <= i < rows.len() ==> {
                let n = #[trigger] row_nodes(rows, max, node_type, color)[i];
                &&& n.id == rows[i].id@
                &&& n.node_type == node_type
                &&& n.color == color
                &&& max is None || rows[i].title@.len() <= max->0 ==> n.label == rows[i].title@
                &&& max is Some && 0 <= max->0 < rows[i].title@.len() ==> n.label
                    == rows[i].title@.take(max->0)
            },
        link_edges(links).len() == links.len(),
        forall|i: int|
            0 <= i < links.len() ==> {
                let e = #[trigger] link_edges(links)[i];
                e.source == links[i].source@ && e.target == links[i].target@ && e.edge_type
                    == "links_to"@
            },
{
}

} // verus!
