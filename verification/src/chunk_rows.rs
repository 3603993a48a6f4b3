//! The pieces into which the text of a paper is cut, so that it can be searched.
use vstd::prelude::*;
use vstd::string::*;

use crate::error::SikuError;
use crate::models::{ChunkData, Paper};
use crate::table::{law_rows_without, remove_rows, rows_without};
use crate::text::{concat2, copy_opt, opt_text, same};

verus! {

/// A piece of the text of a paper.
pub struct NewChunk {
    pub content: String,
    pub page_start: Option<i32>,
    pub page_end: Option<i32>,
    pub section: Option<String>,
    pub chunk_index: i32,
    pub token_count: Option<i32>,
}

/// Whether a row holds a piece of the text of a paper.
pub open spec fn is_row(
    c: NewChunk,
    id: Seq<char>,
    paper: Seq<char>,
    now: Seq<char>,
    r: ChunkData,
) -> bool {
    &&& r.id@ == id
    &&& r.paper_id@ == paper
    &&& r.content@ == c.content@
    &&& r.page_start == c.page_start
    &&& r.page_end == c.page_end
    &&& opt_text(r.section) == opt_text(c.section)
    &&& r.chunk_index == c.chunk_index
    &&& r.token_count == c.token_count
    &&& r.created_at@ == now
}

/// Whether rows are some that were there, followed by those of the pieces of a paper.
pub open spec fn are_added(
    old: Seq<ChunkData>,
    chunks: Seq<NewChunk>,
    ids: Seq<String>,
    paper: Seq<char>,
    now: Seq<char>,
    r: Seq<ChunkData>,
) -> bool {
    &&& r.len() == old.len() + chunks.len()
    &&& r.take(old.len() as int) == old
    &&& forall|i: int|
        0 <= i < chunks.len() ==> is_row(
            chunks[i],
            ids[i]@,
            paper,
            now,
            #[trigger] r[old.len() + i],
        )
}

/// Adds the pieces of a paper.
pub fn insert_chunks_tx(
    rows: &mut Vec<ChunkData>,
    paper_id: &str,
    chunks: &Vec<NewChunk>,
    ids: &Vec<String>,
    now: &str,
)
    requires
        chunks.len() <= ids.len(),
    ensures
        are_added(old(rows)@, chunks@, ids@, paper_id@, now@, final(rows)@),
{
    let ghost start = rows@;
    let mut i: usize = 0;
    assert(rows@.take(start.len() as int) =~= start);
    while i < chunks.len()
        invariant
            i <= chunks.len() <= ids.len(),
            start == old(rows)@,
            rows.len() == start.len() + i,
            rows@.take(start.len() as int) == start,
            forall|k: int|
                0 <= k < i ==> is_row(
                    chunks@[k],
                    ids@[k]@,
                    paper_id@,
                    now@,
                    #[trigger] rows@[start.len() + k],
                ),
        decreases chunks.len() - i,
    {
        let ghost before = rows@;
        let c = &chunks[i];
        rows.push(
            ChunkData {
                id: ids[i].clone(),
                paper_id: paper_id.to_owned(),
                content: c.content.clone(),
                page_start: c.page_start,
                page_end: c.page_end,
                section: copy_opt(&c.section),
                chunk_index: c.chunk_index,
                token_count: c.token_count,
                created_at: now.to_owned(),
            },
        );
        proof {
            assert(rows@.take(start.len() as int) =~= before.take(start.len() as int));
            assert forall|k: int| 0 <= k < i + 1 implies is_row(
                chunks@[k],
                ids@[k]@,
                paper_id@,
                now@,
                #[trigger] rows@[start.len() + k],
            ) by {
                if k < i {
                    assert(rows@[start.len() + k] == before[start.len() + k]);
                }
            }
        }
        i += 1;
    }
}

/// Adds the pieces of a paper, and says how many there are. What was there stays.
pub fn insert_chunks_for_paper(
    rows: &mut Vec<ChunkData>,
    paper_id: &str,
    chunks: &Vec<NewChunk>,
    ids: &Vec<String>,
    now: &str,
) -> (r: usize)
    requires
        chunks.len() <= ids.len(),
    ensures
        r == chunks.len(),
        are_added(old(rows)@, chunks@, ids@, paper_id@, now@, final(rows)@),
{
    insert_chunks_tx(rows, paper_id, chunks, ids, now);
    chunks.len()
}

/// Whether a row is a piece of a paper.
pub open spec fn piece_of(paper: Seq<char>) -> spec_fn(ChunkData) -> bool {
    |c: ChunkData| c.paper_id@ == paper
}

/// What a PDF gave: its pages counted, and its text cut into pieces.
pub struct Extracted {
    pub pages: i32,
    pub chunks: Vec<NewChunk>,
}

/// Whether an error says that something is not there.
pub open spec fn says_missing(e: SikuError, what: Seq<char>) -> bool {
    match e {
        SikuError::NotFound(s) => s@ == what,
        _ => false,
    }
}

/// Whether a paper is the one that it was, but for the number of its pages and when it was changed.
pub open spec fn is_recounted(p: Paper, pages: i32, now: Seq<char>, r: Paper) -> bool {
    r.page_count == Some(pages) && r.updated_at@ == now && r == (Paper {
        page_count: r.page_count,
        updated_at: r.updated_at,
        ..p
    })
}

/// Cuts the text of a paper anew: the old pieces go and the new ones come, or, where its PDF is
/// missing or cannot be read, everything stays. `shown_path` is the path of the PDF as it is shown,
/// and `is_there` says whether there is a file.
pub fn reprocess_paper_index(
    paper: &mut Paper,
    rows: &mut Vec<ChunkData>,
    shown_path: &str,
    is_there: bool,
    extracted: Result<Extracted, SikuError>,
    ids: &Vec<String>,
    now: &str,
) -> (r: Result<usize, SikuError>)
    requires
        extracted is Ok ==> extracted->Ok_0.chunks.len() <= ids.len(),
    ensures
        match r {
            Ok(n) => old(paper).file_path is Some && is_there && extracted is Ok && n
                == extracted->Ok_0.chunks.len() && are_added(
                rows_without(old(rows)@, piece_of(old(paper).id@)),
                extracted->Ok_0.chunks@,
                ids@,
                old(paper).id@,
                now@,
                final(rows)@,
            ) && is_recounted(*old(paper), extracted->Ok_0.pages, now@, *final(paper)),
            Err(e) => final(rows)@ == old(rows)@ && *final(paper) == *old(paper) && (if old(
                paper).file_path is None {
                says_missing(e, "该文献没有关联的 PDF 文件"@)
            } else if !is_there {
                says_missing(e, "PDF 文件不存在: "@ + shown_path@)
            } else {
                extracted is Err && extracted->Err_0 == e
            }),
        },
{
    if paper.file_path.is_none() {
        return Err(SikuError::NotFound("该文献没有关联的 PDF 文件".to_owned()));
    }
    if !is_there {
        return Err(SikuError::NotFound(concat2("PDF 文件不存在: ", shown_path)));
    }
    let e = match extracted {
        Ok(e) => e,
        Err(e) => {
            return Err(e);
        },
    };
    let id = paper.id.clone();
    let wanted = id.as_str();
    let goes = |c: &ChunkData| -> (b: bool)
        ensures
            b == (c.paper_id@ == wanted@),
        { same(c.paper_id.as_str(), wanted) };
    remove_rows(rows, goes, Ghost(piece_of(paper.id@)));
    insert_chunks_tx(rows, wanted, &e.chunks, ids, now);
    paper.page_count = Some(e.pages);
    paper.updated_at = now.to_owned();
    Ok(e.chunks.len())
}

/// Cutting the text of a paper anew leaves the pieces of other papers alone, and none of the old
/// pieces of the paper stays.
pub proof fn law_other_papers_stay(
    old: Seq<ChunkData>,
    chunks: Seq<NewChunk>,
    ids: Seq<String>,
    paper: Seq<char>,
    now: Seq<char>,
    r: Seq<ChunkData>,
    x: ChunkData,
)
    requires
        are_added(rows_without(old, piece_of(paper)), chunks, ids, paper, now, r),
        x.paper_id@ != paper,
    ensures
        r.contains(x) <==> old.contains(x),
{
    let left = rows_without(old, piece_of(paper));
    law_rows_without(old, piece_of(paper));
    assert(left.contains(x) <==> old.contains(x) && !piece_of(paper)(x));
    if left.contains(x) {
        let k = choose|k: int| 0 <= k < left.len() && left[k] == x;
        assert(r.take(left.len() as int)[k] == x);
        assert(r[k] == x);
    }
    if r.contains(x) {
        let k = choose|k: int| 0 <= k < r.len() && r[k] == x;
        if k >= left.len() {
            assert(is_row(chunks[k - left.len()], ids[k - left.len()]@, paper, now, r[left.len() + (k - left.len())]));
            assert(false);
        }
        assert(r.take(left.len() as int)[k] == x);
        assert(left[k] == x);
    }
}

} // verus!
