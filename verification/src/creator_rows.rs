//! The rows of creators. They follow from the columns of papers, and are made anew where these came
//! from another device.
use vstd::prelude::*;
use vstd::string::*;

use crate::citation_export::names_in;
use crate::models::Paper;
use crate::paper_rows::{get_paper, paper_from};
use crate::paper_service::{
    creator_models, creators_from, creators_from_json, Creator, CreatorModel,
};
use crate::text::{same, texts};

verus! {

/// A creator of a paper, and where it stands among the creators of the paper.
pub struct CreatorRow {
    pub paper_id: String,
    pub creator: Creator,
    pub sort_order: usize,
}

/// A creator of a paper, read as its texts.
pub struct CreatorRowModel {
    pub paper_id: Seq<char>,
    pub creator: CreatorModel,
    pub sort_order: int,
}

impl CreatorRow {
    /// The texts of a row.
    pub open spec fn model(self) -> CreatorRowModel {
        CreatorRowModel {
            paper_id: self.paper_id@,
            creator: CreatorModel {
                role: self.creator.role@,
                last_name: self.creator.last_name@,
                first_name: self.creator.first_name@,
                name: self.creator.name@,
            },
            sort_order: self.sort_order as int,
        }
    }
}

/// The texts of rows.
pub open spec fn row_models(v: Seq<CreatorRow>) -> Seq<CreatorRowModel> {
    Seq::new(v.len(), |i: int| v[i].model())
}

/// The rows for the creators of a paper, numbered from 0.
pub open spec fn numbered(paper: Seq<char>, list: Seq<CreatorModel>) -> Seq<CreatorRowModel> {
    Seq::new(
        list.len(),
        |i: int| CreatorRowModel { paper_id: paper, creator: list[i], sort_order: i },
    )
}

/// The rows that follow from the columns of a paper: the authors, then the editors.
pub open spec fn rows_for(p: Paper) -> Seq<CreatorRowModel> {
    numbered(p.id@, creators_from(names_in(p.authors@), names_in(p.editor@)))
}

/// The rows of a paper.
pub open spec fn rows_of(rows: Seq<CreatorRowModel>, paper: Seq<char>) -> Seq<CreatorRowModel>
    decreases rows.len(),
{
    if rows.len() == 0 {
        Seq::empty()
    } else if rows.last().paper_id == paper {
        rows_of(rows.drop_last(), paper).push(rows.last())
    } else {
        rows_of(rows.drop_last(), paper)
    }
}

/// The rows of other papers.
pub open spec fn rows_of_others(rows: Seq<CreatorRowModel>, paper: Seq<char>) -> Seq<CreatorRowModel>
    decreases rows.len(),
{
    if rows.len() == 0 {
        Seq::empty()
    } else if rows.last().paper_id == paper {
        rows_of_others(rows.drop_last(), paper)
    } else {
        rows_of_others(rows.drop_last(), paper).push(rows.last())
    }
}

/// The rows once those of deleted papers are gone.
pub open spec fn rows_without_papers(rows: Seq<CreatorRowModel>, ids: Seq<Seq<char>>) -> Seq<
    CreatorRowModel,
>
    decreases ids.len(),
{
    if ids.len() == 0 {
        rows
    } else {
        rows_of_others(rows_without_papers(rows, ids.drop_last()), ids.last())
    }
}

/// The rows once those of some papers are made anew. A paper that is not there changes nothing.
pub open spec fn rebuilt(rows: Seq<CreatorRowModel>, papers: Seq<Paper>, ids: Seq<Seq<char>>) -> Seq<
    CreatorRowModel,
>
    decreases ids.len(),
{
    if ids.len() == 0 {
        rows
    } else {
        let before = rebuilt(rows, papers, ids.drop_last());
        match paper_from(papers, ids.last(), 0) {
            Some(k) => rows_of_others(before, ids.last()) + rows_for(papers[k]),
            None => before,
        }
    }
}

fn remove_paper(rows: &mut Vec<CreatorRow>, paper: &str)
    ensures
        row_models(final(rows)@) == rows_of_others(row_models(old(rows)@), paper@),
{
    let ghost all = row_models(rows@);
    let mut n: usize = rows.len();
    let ghost mut tail = Seq::<CreatorRowModel>::empty();
    assert(all.take(n as int) =~= all);
    assert(rows_of_others(all, paper@) =~= rows_of_others(all.take(n as int), paper@) + tail);
    assert(row_models(rows@) =~= all.take(n as int) + tail);
    while n > 0
        invariant
            n <= rows.len(),
            n <= all.len(),
            all == row_models(old(rows)@),
            row_models(rows@) =~= all.take(n as int) + tail,
            rows_of_others(all, paper@) == rows_of_others(all.take(n as int), paper@) + tail,
        decreases n,
    {
        let ghost was = tail;
        proof {
            assert(all.take(n as int).drop_last() =~= all.take(n - 1));
            assert(all.take(n as int).last() == all[n - 1]);
            assert(row_models(rows@)[n - 1] == all[n - 1]);
            assert(rows@[n - 1].model() == all[n - 1]);
        }
        let ghost before = row_models(rows@);
        if same(rows[n - 1].paper_id.as_str(), paper) {
            let _ = rows.remove(n - 1);
            assert(row_models(rows@) =~= before.remove(n - 1));
            assert(row_models(rows@) =~= all.take(n - 1) + tail);
        } else {
            proof {
                tail = seq![all[n - 1]] + was;
                assert(row_models(rows@) =~= all.take(n - 1) + tail);
                assert(rows_of_others(all.take(n - 1), paper@).push(all[n - 1]) + was
                    =~= rows_of_others(all.take(n - 1), paper@) + tail);
            }
        }
        n -= 1;
    }
    assert(row_models(rows@) =~= rows_of_others(all, paper@));
}

/// Adds the rows that follow from the columns of a paper.
pub fn insert_creators_from_json(rows: &mut Vec<CreatorRow>, p: &Paper)
    ensures
        row_models(final(rows)@) == row_models(old(rows)@) + rows_for(*p),
{
    let list = creators_from_json(p.authors.as_str(), p.editor.as_str());
    let ghost all = rows_for(*p);
    let ghost start = row_models(rows@);
    let ghost models = creator_models(list@);
    assert(models.len() == list.len());
    let mut i: usize = 0;
    assert(start + all.take(0) =~= start);
    while i < list.len()
        invariant
            i <= list.len(),
            list.len() == all.len(),
            models == creator_models(list@),
            all == numbered(p.id@, models),
            row_models(rows@) == start + all.take(i as int),
        decreases list.len() - i,
    {
        let ghost before = row_models(rows@);
        let creator = Creator {
            role: list[i].role.clone(),
            last_name: list[i].last_name.clone(),
            first_name: list[i].first_name.clone(),
            name: list[i].name.clone(),
        };
        let row = CreatorRow { paper_id: p.id.clone(), creator, sort_order: i };
        assert(row.model() == all[i as int]);
        rows.push(row);
        i += 1;
        proof {
            assert(row_models(rows@) =~= before.push(row.model()));
            assert(row_models(rows@) =~= start + all.take(i as int));
        }
    }
    assert(all.take(all.len() as int) =~= all);
}

/// Makes the rows of some papers anew, and takes away those of papers that were deleted.
pub fn rebuild_creators_for_papers(
    rows: &mut Vec<CreatorRow>,
    papers: &Vec<Paper>,
    upsert_ids: &Vec<String>,
    delete_ids: &Vec<String>,
)
    ensures
        row_models(final(rows)@) == rebuilt(
            rows_without_papers(row_models(old(rows)@), texts(delete_ids@)),
            papers@,
            texts(upsert_ids@),
        ),
{
    let ghost start = row_models(rows@);
    let ghost gone = texts(delete_ids@);
    let mut i: usize = 0;
    assert(rows_without_papers(start, gone.take(0)) =~= start);
    while i < delete_ids.len()
        invariant
            i <= delete_ids.len(),
            gone == texts(delete_ids@),
            row_models(rows@) == rows_without_papers(start, gone.take(i as int)),
        decreases delete_ids.len() - i,
    {
        proof {
            assert(gone.take(i + 1).drop_last() =~= gone.take(i as int));
            assert(gone.take(i + 1).last() == delete_ids@[i as int]@);
        }
        remove_paper(rows, delete_ids[i].as_str());
        i += 1;
    }
    assert(gone.take(gone.len() as int) =~= gone);
    let ghost left = row_models(rows@);
    let ghost wanted = texts(upsert_ids@);
    let mut j: usize = 0;
    assert(rebuilt(left, papers@, wanted.take(0)) =~= left);
    while j < upsert_ids.len()
        invariant
            j <= upsert_ids.len(),
            wanted == texts(upsert_ids@),
            row_models(rows@) == rebuilt(left, papers@, wanted.take(j as int)),
        decreases upsert_ids.len() - j,
    {
        proof {
            assert(wanted.take(j + 1).drop_last() =~= wanted.take(j as int));
            assert(wanted.take(j + 1).last() == upsert_ids@[j as int]@);
        }
        if let Ok(k) = get_paper(papers, upsert_ids[j].as_str()) {
            remove_paper(rows, upsert_ids[j].as_str());
            insert_creators_from_json(rows, &papers[k]);
        }
        j += 1;
    }
    assert(wanted.take(wanted.len() as int) =~= wanted);
}

/// Whether a paper has rows.
pub open spec fn has_rows(rows: Seq<CreatorRowModel>, paper: Seq<char>) -> bool {
    exists|i: int| 0 <= i < rows.len() && (#[trigger] rows[i]).paper_id == paper
}

fn paper_has_rows(rows: &Vec<CreatorRow>, n: usize, paper: &str) -> (r: bool)
    requires
        n <= rows.len(),
    ensures
        r == has_rows(row_models(rows@).take(n as int), paper@),
{
    let ghost all = row_models(rows@).take(n as int);
    let mut i: usize = 0;
    while i < n
        invariant
            i <= n <= rows.len(),
            all == row_models(rows@).take(n as int),
            forall|k: int| 0 <= k < i ==> (#[trigger] all[k]).paper_id != paper@,
        decreases n - i,
    {
        assert(all[i as int].paper_id == rows@[i as int].paper_id@);
        if same(rows[i].paper_id.as_str(), paper) {
            return true;
        }
        i += 1;
    }
    false
}

/// The rows that follow from the columns of the papers that have none among `known`.
pub open spec fn missing_rows(known: Seq<CreatorRowModel>, papers: Seq<Paper>) -> Seq<
    CreatorRowModel,
>
    decreases papers.len(),
{
    if papers.len() == 0 {
        Seq::empty()
    } else {
        let before = missing_rows(known, papers.drop_last());
        if has_rows(known, papers.last().id@) {
            before
        } else {
            before + rows_for(papers.last())
        }
    }
}

/// Makes the rows of the papers that have none. The others are left alone.
pub fn rebuild_creators_where_missing(rows: &mut Vec<CreatorRow>, papers: &Vec<Paper>)
    ensures
        row_models(final(rows)@) == row_models(old(rows)@) + missing_rows(
            row_models(old(rows)@),
            papers@,
        ),
{
    let ghost known = row_models(rows@);
    let n: usize = rows.len();
    let mut i: usize = 0;
    assert(known + missing_rows(known, papers@.take(0)) =~= known);
    while i < papers.len()
        invariant
            i <= papers.len(),
            n == known.len(),
            n <= rows.len(),
            row_models(rows@) == known + missing_rows(known, papers@.take(i as int)),
        decreases papers.len() - i,
    {
        proof {
            assert(papers@.take(i + 1).drop_last() =~= papers@.take(i as int));
            assert(papers@.take(i + 1).last() == papers@[i as int]);
            assert(row_models(rows@).take(n as int) =~= known);
        }
        if !paper_has_rows(rows, n, papers[i].id.as_str()) {
            let ghost before = missing_rows(known, papers@.take(i as int));
            insert_creators_from_json(rows, &papers[i]);
            proof {
                assert((known + before) + rows_for(papers@[i as int]) =~= known + (before
                    + rows_for(papers@[i as int])));
                assert(row_models(rows@).len() == rows.len());
            }
        }
        i += 1;
    }
    assert(papers@.take(papers.len() as int) =~= papers@);
}

/// The rows that follow from the columns of papers.
pub open spec fn all_rows(papers: Seq<Paper>) -> Seq<CreatorRowModel>
    decreases papers.len(),
{
    if papers.len() == 0 {
        Seq::empty()
    } else {
        all_rows(papers.drop_last()) + rows_for(papers.last())
    }
}

/// Makes the rows of all papers for the first time.
pub fn backfill_creators(papers: &Vec<Paper>) -> (r: Vec<CreatorRow>)
    ensures
        row_models(r@) == all_rows(papers@),
{
    let mut out: Vec<CreatorRow> = Vec::new();
    let mut i: usize = 0;
    assert(row_models(out@) =~= all_rows(papers@.take(0)));
    while i < papers.len()
        invariant
            i <= papers.len(),
            row_models(out@) == all_rows(papers@.take(i as int)),
        decreases papers.len() - i,
    {
        proof {
            assert(papers@.take(i + 1).drop_last() =~= papers@.take(i as int));
            assert(papers@.take(i + 1).last() == papers@[i as int]);
        }
        insert_creators_from_json(&mut out, &papers[i]);
        i += 1;
    }
    assert(papers@.take(papers.len() as int) =~= papers@);
    out
}

// ---------------------------------------------------------------------------------------------
// Laws
// ---------------------------------------------------------------------------------------------
proof fn lemma_rows_of_join(a: Seq<CreatorRowModel>, b: Seq<CreatorRowModel>, paper: Seq<char>)
    ensures
        rows_of(a + b, paper) == rows_of(a, paper) + rows_of(b, paper),
    decreases b.len(),
{
    if b.len() == 0 {
        assert(a + b =~= a);
        assert(rows_of(a, paper) + rows_of(b, paper) =~= rows_of(a, paper));
    } else {
        lemma_rows_of_join(a, b.drop_last(), paper);
        assert((a + b).drop_last() =~= a + b.drop_last());
        assert((a + b).last() == b.last());
        if b.last().paper_id == paper {
            assert((rows_of(a, paper) + rows_of(b.drop_last(), paper)).push(b.last()) =~= rows_of(
                a,
                paper,
            ) + rows_of(b, paper));
        }
    }
}

proof fn lemma_rows_of_others(rows: Seq<CreatorRowModel>, gone: Seq<char>, paper: Seq<char>)
    ensures
        rows_of(rows_of_others(rows, gone), paper) == (if gone == paper {
            Seq::empty()
        } else {
            rows_of(rows, paper)
        }),
    decreases rows.len(),
{
    if rows.len() > 0 {
        lemma_rows_of_others(rows.drop_last(), gone, paper);
        if rows.last().paper_id != gone {
            let rest = rows_of_others(rows.drop_last(), gone);
            assert(rest.push(rows.last()).drop_last() =~= rest);
        }
    }
}

proof fn lemma_rows_of_same(rows: Seq<CreatorRowModel>, paper: Seq<char>, other: Seq<char>)
    requires
        forall|i: int| 0 <= i < rows.len() ==> (#[trigger] rows[i]).paper_id == other,
    ensures
        rows_of(rows, paper) == (if paper == other {
            rows
        } else {
            Seq::empty()
        }),
    decreases rows.len(),
{
    if rows.len() > 0 {
        lemma_rows_of_same(rows.drop_last(), paper, other);
        assert(rows.drop_last().push(rows.last()) =~= rows);
    }
}

proof fn lemma_paper_found(papers: Seq<Paper>, id: Seq<char>, i: int)
    requires
        0 <= i,
    ensures
        match paper_from(papers, id, i) {
            Some(k) => i <= k < papers.len() && papers[k].id@ == id,
            None => true,
        },
    decreases papers.len() - i,
{
    if i < papers.len() && papers[i].id@ != id {
        lemma_paper_found(papers, id, i + 1);
    }
}

/// Once its rows are made anew, the rows of a paper are those that follow from its columns; and the
/// rows of a paper that was not named are as they were.
pub proof fn law_rows_follow_columns(
    rows: Seq<CreatorRowModel>,
    papers: Seq<Paper>,
    ids: Seq<Seq<char>>,
    id: Seq<char>,
)
    ensures
        ids.contains(id) && paper_from(papers, id, 0) is Some ==> rows_of(
            rebuilt(rows, papers, ids),
            id,
        ) == rows_for(papers[paper_from(papers, id, 0)->0]),
        !ids.contains(id) ==> rows_of(rebuilt(rows, papers, ids), id) == rows_of(rows, id),
    decreases ids.len(),
{
    if ids.len() > 0 {
        let head = ids.drop_last();
        let last = ids.last();
        let before = rebuilt(rows, papers, head);
        law_rows_follow_columns(rows, papers, head, id);
        assert(ids =~= head.push(last));
        if ids.contains(id) && id != last {
            let j = choose|j: int| 0 <= j < ids.len() && ids[j] == id;
            assert(head[j] == id);
        }
        if head.contains(id) {
            let j = choose|j: int| 0 <= j < head.len() && head[j] == id;
            assert(ids[j] == id);
        }
        assert(ids[ids.len() - 1] == last);
        if let Some(k) = paper_from(papers, last, 0) {
            lemma_paper_found(papers, last, 0);
            let more = rows_for(papers[k]);
            lemma_rows_of_join(rows_of_others(before, last), more, id);
            lemma_rows_of_others(before, last, id);
            lemma_rows_of_same(more, id, last);
            assert(Seq::<CreatorRowModel>::empty() + more =~= more);
            assert(rows_of(before, id) + Seq::<CreatorRowModel>::empty() =~= rows_of(before, id));
        }
    }
}

proof fn lemma_missing_has(
    known: Seq<CreatorRowModel>,
    papers: Seq<Paper>,
    k: int,
    i: int,
)
    requires
        0 <= k < papers.len(),
        !has_rows(known, papers[k].id@),
        0 <= i < rows_for(papers[k]).len(),
    ensures
        missing_rows(known, papers).contains(rows_for(papers[k])[i]),
    decreases papers.len(),
{
    let before = missing_rows(known, papers.drop_last());
    let x = rows_for(papers[k])[i];
    if k == papers.len() - 1 {
        let all = before + rows_for(papers.last());
        assert(all[before.len() + i] == x);
    } else {
        lemma_missing_has(known, papers.drop_last(), k, i);
        let j = choose|j: int| 0 <= j < before.len() && before[j] == x;
        if !has_rows(known, papers.last().id@) {
            assert((before + rows_for(papers.last()))[j] == x);
        }
    }
}

proof fn lemma_nothing_missing(known: Seq<CreatorRowModel>, papers: Seq<Paper>)
    requires
        forall|k: int|
            0 <= k < papers.len() ==> has_rows(known, (#[trigger] papers[k]).id@) || rows_for(
                papers[k],
            ).len() == 0,
    ensures
        missing_rows(known, papers).len() == 0,
    decreases papers.len(),
{
    if papers.len() > 0 {
        assert forall|k: int| 0 <= k < papers.drop_last().len() implies has_rows(
            known,
            (#[trigger] papers.drop_last()[k]).id@,
        ) || rows_for(papers.drop_last()[k]).len() == 0 by {
            assert(papers.drop_last()[k] == papers[k]);
        }
        lemma_nothing_missing(known, papers.drop_last());
    }
}

/// Making the missing rows a second time adds nothing.
pub proof fn law_missing_rows_once(rows: Seq<CreatorRowModel>, papers: Seq<Paper>)
    ensures
        missing_rows(rows + missing_rows(rows, papers), papers).len() == 0,
{
    let more = missing_rows(rows, papers);
    let all = rows + more;
    assert forall|k: int| 0 <= k < papers.len() implies has_rows(
        all,
        (#[trigger] papers[k]).id@,
    ) || rows_for(papers[k]).len() == 0 by {
        let id = papers[k].id@;
        if has_rows(rows, id) {
            let j = choose|j: int| 0 <= j < rows.len() && (#[trigger] rows[j]).paper_id == id;
            assert(all[j].paper_id == id);
        } else if rows_for(papers[k]).len() > 0 {
            lemma_missing_has(rows, papers, k, 0);
            let j = choose|j: int| 0 <= j < more.len() && more[j] == rows_for(papers[k])[0];
            assert(all[rows.len() + j].paper_id == id);
        }
    }
    lemma_nothing_missing(all, papers);
}

} // verus!
