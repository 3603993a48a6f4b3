//! The graph of papers, notes and knowledge items.
use vstd::prelude::*;
use vstd::string::*;

use crate::text::{first_chars, holds, lemma_texts_push, list_has, same, take_chars, texts};

verus! {

/// A node: a paper, a note or a knowledge item.
#[derive(Debug)]
pub struct GraphNode {
    pub id: String,
    pub label: String,
    pub node_type: String,
    pub color: String,
}

/// An edge: `links_to`, `attached_to` or `references`.
#[derive(Debug)]
pub struct GraphEdge {
    pub source: String,
    pub target: String,
    pub edge_type: String,
}

/// A graph.
#[derive(Debug)]
pub struct GraphData {
    pub nodes: Vec<GraphNode>,
    pub edges: Vec<GraphEdge>,
}

/// What a node says.
pub struct NodeModel {
    pub id: Seq<char>,
    pub label: Seq<char>,
    pub node_type: Seq<char>,
    pub color: Seq<char>,
}

/// What an edge says.
pub struct EdgeModel {
    pub source: Seq<char>,
    pub target: Seq<char>,
    pub edge_type: Seq<char>,
}

/// What nodes say.
pub open spec fn node_models(v: Seq<GraphNode>) -> Seq<NodeModel> {
    Seq::new(
        v.len(),
        |i: int|
            NodeModel {
                id: v[i].id@,
                label: v[i].label@,
                node_type: v[i].node_type@,
                color: v[i].color@,
            },
    )
}

/// What edges say.
pub open spec fn edge_models(v: Seq<GraphEdge>) -> Seq<EdgeModel> {
    Seq::new(
        v.len(),
        |i: int|
            EdgeModel { source: v[i].source@, target: v[i].target@, edge_type: v[i].edge_type@ },
    )
}

/// Something with a title that may refer to something else: a note to its paper, a knowledge item
/// to its source.
pub struct TitledRow {
    pub id: String,
    pub title: String,
    pub refers_to: Option<String>,
}

/// A link between two notes.
pub struct LinkRow {
    pub source: String,
    pub target: String,
}

/// A title as a label: cut to the given length, where there is one.
pub open spec fn label_of(title: Seq<char>, max: Option<int>) -> Seq<char> {
    match max {
        Some(n) => first_chars(title, n),
        None => title,
    }
}

/// The node of a row.
pub open spec fn row_node(
    r: TitledRow,
    max: Option<int>,
    node_type: Seq<char>,
    color: Seq<char>,
) -> NodeModel {
    NodeModel { id: r.id@, label: label_of(r.title@, max), node_type, color }
}

/// The nodes of rows.
pub open spec fn row_nodes(
    rows: Seq<TitledRow>,
    max: Option<int>,
    node_type: Seq<char>,
    color: Seq<char>,
) -> Seq<NodeModel> {
    Seq::new(rows.len(), |i: int| row_node(rows[i], max, node_type, color))
}

/// The edges of the rows that refer to something.
pub open spec fn row_edges(rows: Seq<TitledRow>, edge_type: Seq<char>) -> Seq<EdgeModel>
    decreases rows.len(),
{
    if rows.len() == 0 {
        Seq::empty()
    } else {
        let rest = row_edges(rows.drop_last(), edge_type);
        match rows.last().refers_to {
            Some(t) => rest.push(
                EdgeModel { source: rows.last().id@, target: t@, edge_type },
            ),
            None => rest,
        }
    }
}

/// The edges of links.
pub open spec fn link_edges(links: Seq<LinkRow>) -> Seq<EdgeModel> {
    Seq::new(
        links.len(),
        |i: int|
            EdgeModel { source: links[i].source@, target: links[i].target@, edge_type: "links_to"@ },
    )
}

/// A limit as a number.
pub open spec fn limit(max: Option<usize>) -> Option<int> {
    match max {
        Some(n) => Some(n as int),
        None => None,
    }
}

fn add_nodes(
    g: &mut GraphData,
    rows: &Vec<TitledRow>,
    max: Option<usize>,
    node_type: &str,
    color: &str,
)
    ensures
        node_models(final(g).nodes@) == node_models(old(g).nodes@) + row_nodes(
            rows@,
            limit(max),
            node_type@,
            color@,
        ),
        final(g).edges == old(g).edges,
{
    let ghost before = node_models(g.nodes@);
    let ghost all = row_nodes(rows@, limit(max), node_type@, color@);
    let mut i: usize = 0;
    assert(before + all.take(0) =~= before);
    while i < rows.len()
        invariant
            i <= rows.len(),
            all == row_nodes(rows@, limit(max), node_type@, color@),
            node_models(g.nodes@) == before + all.take(i as int),
            g.edges == old(g).edges,
        decreases rows.len() - i,
    {
        let ghost so_far = node_models(g.nodes@);
        g.nodes.push(
            GraphNode {
                id: rows[i].id.clone(),
                label: match max {
                    Some(n) => take_chars(rows[i].title.as_str(), n),
                    None => rows[i].title.clone(),
                },
                node_type: node_type.to_owned(),
                color: color.to_owned(),
            },
        );
        proof {
            assert(node_models(g.nodes@) =~= so_far.push(all[i as int]));
            crate::text::lemma_take_next(all, i as int);
            assert(so_far.push(all[i as int]) =~= before + all.take(i as int).push(all[i as int]));
        }
        i += 1;
    }
    assert(all.take(all.len() as int) =~= all);
}

fn add_references(g: &mut GraphData, rows: &Vec<TitledRow>, edge_type: &str)
    ensures
        edge_models(final(g).edges@) == edge_models(old(g).edges@) + row_edges(rows@, edge_type@),
        final(g).nodes == old(g).nodes,
{
    let ghost before = edge_models(g.edges@);
    let mut i: usize = 0;
    assert(before + row_edges(rows@.take(0), edge_type@) =~= before);
    while i < rows.len()
        invariant
            i <= rows.len(),
            edge_models(g.edges@) == before + row_edges(rows@.take(i as int), edge_type@),
            g.nodes == old(g).nodes,
        decreases rows.len() - i,
    {
        let ghost so_far = edge_models(g.edges@);
        let ghost rest = row_edges(rows@.take(i as int), edge_type@);
        proof {
            assert(rows@.take(i + 1).drop_last() =~= rows@.take(i as int));
            assert(rows@.take(i + 1).last() == rows@[i as int]);
        }
        match &rows[i].refers_to {
            Some(t) => {
                let ghost e = EdgeModel {
                    source: rows@[i as int].id@,
                    target: t@,
                    edge_type: edge_type@,
                };
                g.edges.push(
                    GraphEdge {
                        source: rows[i].id.clone(),
                        target: t.clone(),
                        edge_type: edge_type.to_owned(),
                    },
                );
                assert(edge_models(g.edges@) =~= so_far.push(e));
                assert(so_far.push(e) =~= before + rest.push(e));
            },
            None => {},
        }
        i += 1;
    }
    assert(rows@.take(rows@.len() as int) =~= rows@);
}

fn add_links(g: &mut GraphData, links: &Vec<LinkRow>)
    ensures
        edge_models(final(g).edges@) == edge_models(old(g).edges@) + link_edges(links@),
        final(g).nodes == old(g).nodes,
{
    let ghost before = edge_models(g.edges@);
    let ghost all = link_edges(links@);
    let mut i: usize = 0;
    assert(before + all.take(0) =~= before);
    while i < links.len()
        invariant
            i <= links.len(),
            all == link_edges(links@),
            edge_models(g.edges@) == before + all.take(i as int),
            g.nodes == old(g).nodes,
        decreases links.len() - i,
    {
        let ghost so_far = edge_models(g.edges@);
        g.edges.push(
            GraphEdge {
                source: links[i].source.clone(),
                target: links[i].target.clone(),
                edge_type: "links_to".to_owned(),
            },
        );
        proof {
            assert(edge_models(g.edges@) =~= so_far.push(all[i as int]));
            crate::text::lemma_take_next(all, i as int);
            assert(so_far.push(all[i as int]) =~= before + all.take(i as int).push(all[i as int]));
        }
        i += 1;
    }
    assert(all.take(all.len() as int) =~= all);
}

/// The longest label that a setting allows, at least one character.
pub open spec fn label_max(setting: i32) -> int {
    if setting < 1 {
        1
    } else {
        setting as int
    }
}

/// The graph of everything: papers, notes with the papers that they are attached to, the links
/// between notes, and the knowledge items that refer to papers. The labels of papers are cut to
/// the given number of characters.
pub fn build_graph(
    papers: &Vec<TitledRow>,
    notes: &Vec<TitledRow>,
    links: &Vec<LinkRow>,
    items: &Vec<TitledRow>,
    label_max_chars: i32,
) -> (r: GraphData)
    ensures
        node_models(r.nodes@) == row_nodes(
            papers@,
            Some(label_max(label_max_chars)),
            "paper"@,
            "#3b82f6"@,
        ) + row_nodes(notes@, None, "note"@, "#27ae60"@) + row_nodes(
            items@,
            None,
            "knowledge_item"@,
            "#8e44ad"@,
        ),
        edge_models(r.edges@) == row_edges(notes@, "attached_to"@) + link_edges(links@) + row_edges(
            items@,
            "references"@,
        ),
{
    let max: usize = if label_max_chars < 1 {
        1
    } else {
        label_max_chars as usize
    };
    let mut g = GraphData { nodes: Vec::new(), edges: Vec::new() };
    let ghost no_nodes = Seq::<NodeModel>::empty();
    let ghost no_edges = Seq::<EdgeModel>::empty();
    assert(node_models(g.nodes@) =~= no_nodes);
    assert(edge_models(g.edges@) =~= no_edges);
    add_nodes(&mut g, papers, Some(max), "paper", "#3b82f6");
    add_nodes(&mut g, notes, None, "note", "#27ae60");
    add_references(&mut g, notes, "attached_to");
    add_links(&mut g, links);
    add_nodes(&mut g, items, None, "knowledge_item", "#8e44ad");
    add_references(&mut g, items, "references");
    proof {
        let p = row_nodes(papers@, Some(label_max(label_max_chars)), "paper"@, "#3b82f6"@);
        assert(no_nodes + p =~= p);
        let a = row_edges(notes@, "attached_to"@);
        assert(no_edges + a =~= a);
    }
    g
}

// ---------------------------------------------------------------------------------------------
// Around a note
// ---------------------------------------------------------------------------------------------
/// A link between two notes.
pub struct LinkModel {
    pub source: Seq<char>,
    pub target: Seq<char>,
}

/// The links that rows stand for.
pub open spec fn link_models(v: Seq<LinkRow>) -> Seq<LinkModel> {
    Seq::new(v.len(), |i: int| LinkModel { source: v[i].source@, target: v[i].target@ })
}

/// How far a walk through the links has come: the notes and links found, and the notes from which
/// it goes on.
pub struct Walk {
    pub nodes: Seq<Seq<char>>,
    pub links: Seq<LinkModel>,
    pub next: Seq<Seq<char>>,
}

/// Whether a link is in a list.
pub open spec fn has_link(list: Seq<LinkModel>, l: LinkModel) -> bool {
    exists|i: int| 0 <= i < list.len() && #[trigger] list[i] == l
}

/// Takes a link in, and the note at its other end where that is new.
pub open spec fn meet(w: Walk, l: LinkModel, other: Seq<char>) -> Walk {
    Walk {
        links: if has_link(w.links, l) {
            w.links
        } else {
            w.links.push(l)
        },
        nodes: if holds(w.nodes, other) {
            w.nodes
        } else {
            w.nodes.push(other)
        },
        next: if holds(w.nodes, other) {
            w.next
        } else {
            w.next.push(other)
        },
    }
}

/// Follows those of the first `n` links that go out from a note.
pub open spec fn outgoing(w: Walk, id: Seq<char>, links: Seq<LinkModel>, n: int) -> Walk
    decreases n,
{
    if n <= 0 || n > links.len() {
        w
    } else {
        let before = outgoing(w, id, links, n - 1);
        if links[n - 1].source == id {
            meet(before, links[n - 1], links[n - 1].target)
        } else {
            before
        }
    }
}

/// Follows those of the first `n` links that come in at a note.
pub open spec fn incoming(w: Walk, id: Seq<char>, links: Seq<LinkModel>, n: int) -> Walk
    decreases n,
{
    if n <= 0 || n > links.len() {
        w
    } else {
        let before = incoming(w, id, links, n - 1);
        if links[n - 1].target == id {
            meet(before, links[n - 1], links[n - 1].source)
        } else {
            before
        }
    }
}

/// Follows the links of the first `n` notes of a list.
pub open spec fn visit(w: Walk, from: Seq<Seq<char>>, links: Seq<LinkModel>, n: int) -> Walk
    decreases n,
{
    if n <= 0 || n > from.len() {
        w
    } else {
        let before = visit(w, from, links, n - 1);
        let out = outgoing(before, from[n - 1], links, links.len() as int);
        incoming(out, from[n - 1], links, links.len() as int)
    }
}

/// Follows the links over the given number of hops.
pub open spec fn hops(w: Walk, links: Seq<LinkModel>, depth: nat) -> Walk
    decreases depth,
{
    if depth == 0 || w.next.len() == 0 {
        w
    } else {
        let start = Walk { next: Seq::empty(), ..w };
        hops(visit(start, w.next, links, w.next.len() as int), links, (depth - 1) as nat)
    }
}

/// One hop or two.
pub open spec fn hop_count(depth: i32) -> nat {
    if depth >= 2 {
        2
    } else {
        1
    }
}

/// The notes and links around a note.
pub open spec fn neighbourhood(id: Seq<char>, links: Seq<LinkModel>, depth: i32) -> Walk {
    hops(Walk { nodes: seq![id], links: Seq::empty(), next: seq![id] }, links, hop_count(depth))
}

/// The notes, links and places of a walk as they are kept.
struct WalkData {
    nodes: Vec<String>,
    links: Vec<LinkRow>,
    next: Vec<String>,
}

impl WalkData {
    spec fn model(&self) -> Walk {
        Walk {
            nodes: texts(self.nodes@),
            links: link_models(self.links@),
            next: texts(self.next@),
        }
    }

    fn meet_link(&mut self, l: &LinkRow, other: &str)
        ensures
            final(self).model() == meet(
                old(self).model(),
                (LinkModel { source: l.source@, target: l.target@ }),
                other@,
            ),
    {
        broadcast use lemma_texts_push;

        let ghost before = self.model();
        let ghost m = LinkModel { source: l.source@, target: l.target@ };
        let mut known = false;
        let mut i: usize = 0;
        while i < self.links.len()
            invariant_except_break
                !known,
            invariant
                i <= self.links.len(),
                self.model() == before,
                m == (LinkModel { source: l.source@, target: l.target@ }),
                forall|j: int| 0 <= j < i ==> (#[trigger] before.links[j]) != m,
            ensures
                self.model() == before,
                known == has_link(before.links, m),
            decreases self.links.len() - i,
        {
            if same(self.links[i].source.as_str(), l.source.as_str()) && same(
                self.links[i].target.as_str(),
                l.target.as_str(),
            ) {
                assert(before.links[i as int] == m);
                known = true;
                break;
            }
            assert(before.links[i as int] != m);
            i += 1;
        }
        if !known {
            self.links.push(LinkRow { source: l.source.clone(), target: l.target.clone() });
            assert(link_models(self.links@) =~= before.links.push(m));
        }
        if !list_has(&self.nodes, other) {
            self.nodes.push(other.to_owned());
            self.next.push(other.to_owned());
            assert(texts(self.nodes@) =~= before.nodes.push(other@));
            assert(texts(self.next@) =~= before.next.push(other@));
        }
    }

    fn follow(&mut self, id: &str, links: &Vec<LinkRow>)
        ensures
            final(self).model() == incoming(
                outgoing(old(self).model(), id@, link_models(links@), links.len() as int),
                id@,
                link_models(links@),
                links.len() as int,
            ),
    {
        let ghost start = self.model();
        let ghost all = link_models(links@);
        let mut i: usize = 0;
        while i < links.len()
            invariant
                i <= links.len(),
                all == link_models(links@),
                self.model() == outgoing(start, id@, all, i as int),
            decreases links.len() - i,
        {
            assert(all[i as int] == (LinkModel {
                source: links@[i as int].source@,
                target: links@[i as int].target@,
            }));
            if same(links[i].source.as_str(), id) {
                self.meet_link(&links[i], links[i].target.as_str());
            }
            i += 1;
        }
        let ghost out = self.model();
        let mut k: usize = 0;
        while k < links.len()
            invariant
                k <= links.len(),
                all == link_models(links@),
                self.model() == incoming(out, id@, all, k as int),
            decreases links.len() - k,
        {
            assert(all[k as int] == (LinkModel {
                source: links@[k as int].source@,
                target: links@[k as int].target@,
            }));
            if same(links[k].target.as_str(), id) {
                self.meet_link(&links[k], links[k].source.as_str());
            }
            k += 1;
        }
    }
}

/// The title of the first row with an identifier.
pub open spec fn title_from(rows: Seq<TitledRow>, id: Seq<char>, i: int) -> Option<Seq<char>>
    decreases rows.len() - i,
{
    if i < 0 || i >= rows.len() {
        None
    } else if rows[i].id@ == id {
        Some(rows[i].title@)
    } else {
        title_from(rows, id, i + 1)
    }
}

/// The nodes of the notes in a list that there are; the one in the middle stands out.
pub open spec fn note_nodes(ids: Seq<Seq<char>>, notes: Seq<TitledRow>, middle: Seq<char>) -> Seq<
    NodeModel,
>
    decreases ids.len(),
{
    if ids.len() == 0 {
        Seq::empty()
    } else {
        let rest = note_nodes(ids.drop_last(), notes, middle);
        match title_from(notes, ids.last(), 0) {
            Some(label) => rest.push(
                NodeModel {
                    id: ids.last(),
                    label,
                    node_type: "note"@,
                    color: if ids.last() == middle {
                        "#E67E22"@
                    } else {
                        "#27AE60"@
                    },
                },
            ),
            None => rest,
        }
    }
}

/// The edges of links.
pub open spec fn linked(links: Seq<LinkModel>) -> Seq<EdgeModel> {
    Seq::new(
        links.len(),
        |i: int|
            EdgeModel { source: links[i].source, target: links[i].target, edge_type: "links_to"@ },
    )
}

fn find_title<'a>(rows: &'a Vec<TitledRow>, id: &str) -> (r: Option<&'a str>)
    ensures
        (match r {
            Some(s) => Some(s@),
            None => None,
        }) == title_from(rows@, id@, 0),
{
    let mut i: usize = 0;
    while i < rows.len()
        invariant
            i <= rows.len(),
            title_from(rows@, id@, 0) == title_from(rows@, id@, i as int),
        decreases rows.len() - i,
    {
        if same(rows[i].id.as_str(), id) {
            return Some(rows[i].title.as_str());
        }
        i += 1;
    }
    None
}

/// The graph around a note, over one hop or two in either direction.
pub fn build_local_graph(
    notes: &Vec<TitledRow>,
    links: &Vec<LinkRow>,
    note_id: &str,
    depth: i32,
) -> (r: GraphData)
    ensures
        ({
            let w = neighbourhood(note_id@, link_models(links@), depth);
            &&& node_models(r.nodes@) == note_nodes(w.nodes, notes@, note_id@)
            &&& edge_models(r.edges@) == linked(w.links)
        }),
{
    let ghost all = link_models(links@);
    let mut w = WalkData { nodes: Vec::new(), links: Vec::new(), next: Vec::new() };
    w.nodes.push(note_id.to_owned());
    w.next.push(note_id.to_owned());
    let ghost goal = neighbourhood(note_id@, all, depth);
    proof {
        assert(texts(w.nodes@) =~= seq![note_id@]);
        assert(texts(w.next@) =~= seq![note_id@]);
        assert(link_models(w.links@) =~= Seq::empty());
    }
    let mut left: usize = if depth >= 2 {
        2
    } else {
        1
    };
    while left > 0 && w.next.len() > 0
        invariant
            all == link_models(links@),
            goal == hops(w.model(), all, left as nat),
        decreases left,
    {
        let ghost from = texts(w.next@);
        let ghost start = Walk { next: Seq::empty(), ..w.model() };
        let mut frontier: Vec<String> = Vec::new();
        core::mem::swap(&mut frontier, &mut w.next);
        assert(texts(w.next@) =~= Seq::empty());
        let mut i: usize = 0;
        while i < frontier.len()
            invariant
                i <= frontier.len(),
                all == link_models(links@),
                from == texts(frontier@),
                w.model() == visit(start, from, all, i as int),
            decreases frontier.len() - i,
        {
            w.follow(frontier[i].as_str(), links);
            i += 1;
        }
        left -= 1;
    }
    let mut g = GraphData { nodes: Vec::new(), edges: Vec::new() };
    assert(node_models(g.nodes@) =~= Seq::empty());
    assert(edge_models(g.edges@) =~= Seq::empty());
    let ghost ids = texts(w.nodes@);
    let mut i: usize = 0;
    while i < w.nodes.len()
        invariant
            i <= w.nodes.len(),
            ids == texts(w.nodes@),
            w.model() == goal,
            edge_models(g.edges@) == Seq::<EdgeModel>::empty(),
            node_models(g.nodes@) == note_nodes(ids.take(i as int), notes@, note_id@),
        decreases w.nodes.len() - i,
    {
        proof {
            assert(ids.take(i + 1).drop_last() =~= ids.take(i as int));
            assert(ids.take(i + 1).last() == ids[i as int]);
        }
        let ghost before = node_models(g.nodes@);
        let id = w.nodes[i].as_str();
        match find_title(notes, id) {
            Some(title) => {
                let node = GraphNode {
                    id: id.to_owned(),
                    label: title.to_owned(),
                    node_type: "note".to_owned(),
                    color: if same(id, note_id) {
                        "#E67E22".to_owned()
                    } else {
                        "#27AE60".to_owned()
                    },
                };
                let ghost m = NodeModel {
                    id: node.id@,
                    label: node.label@,
                    node_type: node.node_type@,
                    color: node.color@,
                };
                g.nodes.push(node);
                assert(node_models(g.nodes@) =~= before.push(m));
            },
            None => {},
        }
        i += 1;
    }
    assert(ids.take(ids.len() as int) =~= ids);
    add_links(&mut g, &w.links);
    assert(edge_models(g.edges@) =~= linked(goal.links));
    g
}

/// Whether a walk holds links that are there only, with both their ends, and goes on from notes that
/// it found.
pub open spec fn is_sound(w: Walk, links: Seq<LinkModel>) -> bool {
    &&& forall|i: int|
        0 <= i < w.links.len() ==> has_link(links, #[trigger] w.links[i]) && holds(
            w.nodes,
            w.links[i].source,
        ) && holds(w.nodes, w.links[i].target)
    &&& forall|i: int| 0 <= i < w.next.len() ==> holds(w.nodes, #[trigger] w.next[i])
}

/// Whether a walk found all that another found.
pub open spec fn goes_further(w: Walk, r: Walk) -> bool {
    forall|x: Seq<char>| holds(w.nodes, x) ==> #[trigger] holds(r.nodes, x)
}

proof fn lemma_meet(w: Walk, links: Seq<LinkModel>, l: LinkModel, id: Seq<char>, other: Seq<char>)
    requires
        is_sound(w, links),
        has_link(links, l),
        holds(w.nodes, id),
        (l.source == id && l.target == other) || (l.target == id && l.source == other),
    ensures
        is_sound(meet(w, l, other), links),
        goes_further(w, meet(w, l, other)),
{
    let r = meet(w, l, other);
    assert forall|x: Seq<char>| holds(w.nodes, x) implies #[trigger] holds(r.nodes, x) by {
        let k = choose|k: int| 0 <= k < w.nodes.len() && w.nodes[k] == x;
        assert(r.nodes[k] == x);
    }
    if !holds(w.nodes, other) {
        assert(r.nodes[w.nodes.len() as int] == other);
    }
    assert(holds(r.nodes, other));
    assert(holds(r.nodes, id));
    assert forall|i: int| 0 <= i < r.links.len() implies has_link(links, #[trigger] r.links[i])
        && holds(r.nodes, r.links[i].source) && holds(r.nodes, r.links[i].target) by {
        if i < w.links.len() {
            assert(r.links[i] == w.links[i]);
        } else {
            assert(r.links[i] == l);
        }
    }
    assert forall|i: int| 0 <= i < r.next.len() implies holds(r.nodes, #[trigger] r.next[i]) by {
        if i < w.next.len() {
            assert(r.next[i] == w.next[i]);
        }
    }
}

proof fn lemma_outgoing(w: Walk, id: Seq<char>, links: Seq<LinkModel>, n: int)
    requires
        is_sound(w, links),
        holds(w.nodes, id),
        0 <= n <= links.len(),
    ensures
        is_sound(outgoing(w, id, links, n), links),
        goes_further(w, outgoing(w, id, links, n)),
    decreases n,
{
    if n > 0 {
        lemma_outgoing(w, id, links, n - 1);
        if links[n - 1].source == id {
            lemma_meet(
                outgoing(w, id, links, n - 1),
                links,
                links[n - 1],
                id,
                links[n - 1].target,
            );
        }
    }
}

proof fn lemma_incoming(w: Walk, id: Seq<char>, links: Seq<LinkModel>, n: int)
    requires
        is_sound(w, links),
        holds(w.nodes, id),
        0 <= n <= links.len(),
    ensures
        is_sound(incoming(w, id, links, n), links),
        goes_further(w, incoming(w, id, links, n)),
    decreases n,
{
    if n > 0 {
        lemma_incoming(w, id, links, n - 1);
        if links[n - 1].target == id {
            lemma_meet(
                incoming(w, id, links, n - 1),
                links,
                links[n - 1],
                id,
                links[n - 1].source,
            );
        }
    }
}

proof fn lemma_visit(w: Walk, from: Seq<Seq<char>>, links: Seq<LinkModel>, n: int)
    requires
        is_sound(w, links),
        forall|i: int| 0 <= i < from.len() ==> holds(w.nodes, #[trigger] from[i]),
        0 <= n <= from.len(),
    ensures
        is_sound(visit(w, from, links, n), links),
        goes_further(w, visit(w, from, links, n)),
    decreases n,
{
    if n > 0 {
        lemma_visit(w, from, links, n - 1);
        let before = visit(w, from, links, n - 1);
        assert(holds(w.nodes, from[n - 1]));
        lemma_outgoing(before, from[n - 1], links, links.len() as int);
        let out = outgoing(before, from[n - 1], links, links.len() as int);
        lemma_incoming(out, from[n - 1], links, links.len() as int);
    }
}

proof fn lemma_hops(w: Walk, links: Seq<LinkModel>, depth: nat)
    requires
        is_sound(w, links),
    ensures
        is_sound(hops(w, links, depth), links),
        goes_further(w, hops(w, links, depth)),
    decreases depth,
{
    if depth > 0 && w.next.len() > 0 {
        let start = Walk { next: Seq::empty(), ..w };
        lemma_visit(start, w.next, links, w.next.len() as int);
        lemma_hops(
            visit(start, w.next, links, w.next.len() as int),
            links,
            (depth - 1) as nat,
        );
    }
}

/// The graph around a note holds the note, only links that are there, and both ends of each of them.
pub proof fn law_local_graph_is_closed(id: Seq<char>, links: Seq<LinkModel>, depth: i32)
    ensures
        is_sound(neighbourhood(id, links, depth), links),
        holds(neighbourhood(id, links, depth).nodes, id),
{
    let w = Walk { nodes: seq![id], links: Seq::empty(), next: seq![id] };
    assert(w.nodes[0] == id);
    assert(holds(w.nodes, id));
    lemma_hops(w, links, hop_count(depth));
}

} // verus!
