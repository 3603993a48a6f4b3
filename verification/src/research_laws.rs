//! A search for sources stores every source that is new, with all that was found of it.
use vstd::prelude::*;
use vstd::string::*;

use crate::json::{json_array_text, json_compact_text};
use crate::models::ResearchSource;
use crate::research_service::{
    arxiv_details, arxiv_keys, arxiv_picks, crossref_details, crossref_keys, crossref_picks, found_events,
    has_doi, has_id, is_arxiv_row, is_crossref_row, is_known, search_events, search_query, source_model,
    ArxivPaper, CrossrefWork, EventModel, SourceKey,
};
use crate::text::{join, opt_text, texts, trim};

verus! {

// ---------------------------------------------------------------------------------------------
// Keys
// ---------------------------------------------------------------------------------------------
proof fn lemma_key_push(keys: Seq<SourceKey>, k: SourceKey, id: Seq<char>, doi: Seq<char>)
    ensures
        has_id(keys.push(k), id) <==> has_id(keys, id) || k.source_id == Some(id),
        has_doi(keys.push(k), doi) <==> has_doi(keys, doi) || k.doi == Some(doi),
{
    let r = keys.push(k);
    assert(r[keys.len() as int] == k);
    if has_id(keys, id) {
        let i = choose|i: int| 0 <= i < keys.len() && (#[trigger] keys[i]).source_id == Some(id);
        assert(r[i] == keys[i]);
    }
    if has_doi(keys, doi) {
        let i = choose|i: int| 0 <= i < keys.len() && (#[trigger] keys[i]).doi == Some(doi);
        assert(r[i] == keys[i]);
    }
    if has_id(r, id) {
        let i = choose|i: int| 0 <= i < r.len() && (#[trigger] r[i]).source_id == Some(id);
        if i < keys.len() {
            assert(keys[i] == r[i]);
        }
    }
    if has_doi(r, doi) {
        let i = choose|i: int| 0 <= i < r.len() && (#[trigger] r[i]).doi == Some(doi);
        if i < keys.len() {
            assert(keys[i] == r[i]);
        }
    }
}

/// Whether a paper has an id or a DOI in common with another.
pub open spec fn is_same_paper(p: ArxivPaper, q: ArxivPaper) -> bool {
    (p.arxiv_id@.len() > 0 && p.arxiv_id@ == q.arxiv_id@) || (p.doi is Some && p.doi->0@.len() > 0
        && opt_text(p.doi) == opt_text(q.doi))
}

proof fn lemma_arxiv_keys(keys: Seq<SourceKey>, papers: Seq<ArxivPaper>, p: ArxivPaper)
    requires
        !is_known(keys, p.arxiv_id@, opt_text(p.doi)),
        forall|j: int| 0 <= j < papers.len() ==> !is_same_paper(p, #[trigger] papers[j]),
    ensures
        !is_known(arxiv_keys(keys, papers), p.arxiv_id@, opt_text(p.doi)),
    decreases papers.len(),
{
    if papers.len() > 0 {
        let shorter = papers.drop_last();
        assert forall|j: int| 0 <= j < shorter.len() implies !is_same_paper(
            p,
            #[trigger] shorter[j],
        ) by {
            assert(shorter[j] == papers[j]);
        }
        lemma_arxiv_keys(keys, shorter, p);
        let before = arxiv_keys(keys, shorter);
        let q = papers.last();
        assert(!is_same_paper(p, papers[papers.len() - 1]));
        let k = SourceKey { source_id: Some(q.arxiv_id@), doi: opt_text(q.doi) };
        lemma_key_push(before, k, p.arxiv_id@, p.arxiv_id@);
        if p.doi is Some {
            lemma_key_push(before, k, p.arxiv_id@, p.doi->0@);
        }
    }
}

proof fn lemma_arxiv_keys_stay(keys: Seq<SourceKey>, papers: Seq<ArxivPaper>, j: int)
    requires
        0 <= j <= papers.len(),
    ensures
        ({
            let early = arxiv_keys(keys, papers.take(j));
            let late = arxiv_keys(keys, papers);
            early.len() <= late.len() && late.take(early.len() as int) == early
        }),
    decreases papers.len() - j,
{
    let early = arxiv_keys(keys, papers.take(j));
    if j == papers.len() {
        assert(papers.take(j) =~= papers);
        assert(early.take(early.len() as int) =~= early);
    } else {
        lemma_arxiv_keys_stay(keys, papers, j + 1);
        let next = arxiv_keys(keys, papers.take(j + 1));
        assert(papers.take(j + 1).drop_last() =~= papers.take(j));
        assert(next.take(early.len() as int) =~= early);
        let late = arxiv_keys(keys, papers);
        assert(late.take(next.len() as int).take(early.len() as int) =~= late.take(
            early.len() as int,
        ));
    }
}

proof fn lemma_arxiv_pick(keys: Seq<SourceKey>, papers: Seq<ArxivPaper>, i: int)
    requires
        0 <= i < papers.len(),
    ensures
        arxiv_picks(keys, papers).contains(i) <==> !is_known(
            arxiv_keys(keys, papers.take(i)),
            papers[i].arxiv_id@,
            opt_text(papers[i].doi),
        ),
    decreases papers.len(),
{
    let n = papers.len() - 1;
    let before = arxiv_picks(keys, papers.drop_last());
    let r = arxiv_picks(keys, papers);
    lemma_arxiv_picks_within(keys, papers.drop_last());
    if i == n {
        assert(papers.take(i) =~= papers.drop_last());
        if r.contains(i) && before == r {
            let m = choose|m: int| 0 <= m < r.len() && r[m] == i;
            assert(before[m] < n);
        }
        if r != before {
            assert(r[before.len() as int] == n);
        }
    } else {
        lemma_arxiv_pick(keys, papers.drop_last(), i);
        assert(papers.drop_last().take(i) =~= papers.take(i));
        if before.contains(i) {
            let m = choose|m: int| 0 <= m < before.len() && before[m] == i;
            assert(r[m] == i);
        }
        if r.contains(i) {
            let m = choose|m: int| 0 <= m < r.len() && r[m] == i;
            if m < before.len() {
                assert(before[m] == i);
            }
        }
    }
}

proof fn lemma_arxiv_picks_within(keys: Seq<SourceKey>, papers: Seq<ArxivPaper>)
    ensures
        forall|m: int|
            0 <= m < arxiv_picks(keys, papers).len() ==> 0 <= #[trigger] arxiv_picks(keys, papers)[m]
                < papers.len(),
    decreases papers.len(),
{
    if papers.len() > 0 {
        lemma_arxiv_picks_within(keys, papers.drop_last());
        let before = arxiv_picks(keys, papers.drop_last());
        let r = arxiv_picks(keys, papers);
        assert forall|m: int| 0 <= m < r.len() implies 0 <= #[trigger] r[m] < papers.len() by {
            if m < before.len() {
                assert(r[m] == before[m]);
            }
        }
    }
}

/// A paper of arXiv that shares neither its id nor its DOI with a stored source, nor with a paper before
/// it, is stored; one whose id or DOI is stored already is not.
pub proof fn law_every_new_paper_is_stored(
    keys: Seq<SourceKey>,
    papers: Seq<ArxivPaper>,
    i: int,
)
    requires
        0 <= i < papers.len(),
    ensures
        !is_known(keys, papers[i].arxiv_id@, opt_text(papers[i].doi)) && (forall|j: int|
            0 <= j < i ==> !is_same_paper(papers[i], #[trigger] papers[j])) ==> arxiv_picks(
            keys,
            papers,
        ).contains(i),
        is_known(keys, papers[i].arxiv_id@, opt_text(papers[i].doi)) ==> !arxiv_picks(
            keys,
            papers,
        ).contains(i),
{
    lemma_arxiv_pick(keys, papers, i);
    let p = papers[i];
    let before = papers.take(i);
    if !is_known(keys, p.arxiv_id@, opt_text(p.doi)) && (forall|j: int|
        0 <= j < i ==> !is_same_paper(papers[i], #[trigger] papers[j])) {
        assert forall|j: int| 0 <= j < before.len() implies !is_same_paper(
            p,
            #[trigger] before[j],
        ) by {
            assert(before[j] == papers[j]);
        }
        lemma_arxiv_keys(keys, before, p);
    }
    if is_known(keys, p.arxiv_id@, opt_text(p.doi)) {
        lemma_arxiv_keys_stay(keys, before, 0);
        assert(before.take(0) =~= Seq::empty());
        let late = arxiv_keys(keys, before);
        assert(late.take(keys.len() as int) == keys);
        if p.arxiv_id@.len() > 0 && has_id(keys, p.arxiv_id@) {
            let m = choose|m: int|
                0 <= m < keys.len() && (#[trigger] keys[m]).source_id == Some(p.arxiv_id@);
            assert(late[m] == late.take(keys.len() as int)[m]);
        } else {
            let m = choose|m: int|
                0 <= m < keys.len() && (#[trigger] keys[m]).doi == Some(p.doi->0@);
            assert(late[m] == late.take(keys.len() as int)[m]);
        }
    }
}

// ---------------------------------------------------------------------------------------------
// Crossref
// ---------------------------------------------------------------------------------------------
/// Whether a work has a DOI.
pub open spec fn has_its_doi(w: CrossrefWork) -> bool {
    w.doi is Some && w.doi->0@.len() > 0
}

proof fn lemma_crossref_keys(keys: Seq<SourceKey>, works: Seq<CrossrefWork>, doi: Seq<char>)
    requires
        doi.len() > 0,
    ensures
        has_doi(crossref_keys(keys, works), doi) <==> has_doi(keys, doi) || exists|j: int|
            0 <= j < works.len() && opt_text((#[trigger] works[j]).doi) == Some(doi),
    decreases works.len(),
{
    if works.len() > 0 {
        let shorter = works.drop_last();
        lemma_crossref_keys(keys, shorter, doi);
        let before = crossref_keys(keys, shorter);
        let w = works.last();
        assert(works[works.len() - 1] == w);
        let d = match w.doi {
            Some(d) => d@,
            None => Seq::empty(),
        };
        lemma_key_push(before, SourceKey { source_id: Some(d), doi: Some(d) }, doi, doi);
        if exists|j: int| 0 <= j < works.len() && opt_text((#[trigger] works[j]).doi) == Some(doi) {
            let j = choose|j: int|
                0 <= j < works.len() && opt_text((#[trigger] works[j]).doi) == Some(doi);
            if j < shorter.len() {
                assert(shorter[j] == works[j]);
            }
        }
        if exists|j: int|
            0 <= j < shorter.len() && opt_text((#[trigger] shorter[j]).doi) == Some(doi) {
            let j = choose|j: int|
                0 <= j < shorter.len() && opt_text((#[trigger] shorter[j]).doi) == Some(doi);
            assert(works[j] == shorter[j]);
        }
    }
}

proof fn lemma_crossref_picks_within(keys: Seq<SourceKey>, works: Seq<CrossrefWork>)
    ensures
        forall|m: int|
            0 <= m < crossref_picks(keys, works).len() ==> 0 <= #[trigger] crossref_picks(
                keys,
                works,
            )[m] < works.len(),
    decreases works.len(),
{
    if works.len() > 0 {
        lemma_crossref_picks_within(keys, works.drop_last());
        let before = crossref_picks(keys, works.drop_last());
        let r = crossref_picks(keys, works);
        assert forall|m: int| 0 <= m < r.len() implies 0 <= #[trigger] r[m] < works.len() by {
            if m < before.len() {
                assert(r[m] == before[m]);
            }
        }
    }
}

/// A work of Crossref is stored just where it has a DOI that no stored source has, and no work before
/// it.
pub proof fn law_every_new_work_is_stored(keys: Seq<SourceKey>, works: Seq<CrossrefWork>, i: int)
    requires
        0 <= i < works.len(),
    ensures
        crossref_picks(keys, works).contains(i) <==> has_its_doi(works[i]) && !has_doi(
            keys,
            works[i].doi->0@,
        ) && forall|j: int|
            0 <= j < i ==> opt_text((#[trigger] works[j]).doi) != opt_text(works[i].doi),
    decreases works.len(),
{
    let shorter = works.drop_last();
    let n = works.len() - 1;
    let before = crossref_picks(keys, shorter);
    let r = crossref_picks(keys, works);
    lemma_crossref_picks_within(keys, shorter);
    assert forall|j: int| 0 <= j < n implies #[trigger] shorter[j] == works[j] by {}
    if i == n {
        if has_its_doi(works[i]) {
            lemma_crossref_keys(keys, shorter, works[i].doi->0@);
            if exists|j: int|
                0 <= j < shorter.len() && opt_text((#[trigger] shorter[j]).doi) == Some(
                    works[i].doi->0@,
                ) {
                let j = choose|j: int|
                    0 <= j < shorter.len() && opt_text((#[trigger] shorter[j]).doi) == Some(
                        works[i].doi->0@,
                    );
                assert(opt_text(works[j].doi) == opt_text(works[i].doi));
            } else {
                assert forall|j: int| 0 <= j < i implies opt_text((#[trigger] works[j]).doi)
                    != opt_text(works[i].doi) by {
                    assert(shorter[j] == works[j]);
                }
            }
        }
        if r.contains(i) && before == r {
            let m = choose|m: int| 0 <= m < r.len() && r[m] == i;
            assert(before[m] < n);
        }
        if r != before {
            assert(r[before.len() as int] == n);
        }
    } else {
        law_every_new_work_is_stored(keys, shorter, i);
        assert forall|j: int| 0 <= j < i implies #[trigger] works[j] == shorter[j] by {}
        if before.contains(i) {
            let m = choose|m: int| 0 <= m < before.len() && before[m] == i;
            assert(r[m] == i);
        }
        if r.contains(i) {
            let m = choose|m: int| 0 <= m < r.len() && r[m] == i;
            if m < before.len() {
                assert(before[m] == i);
            }
        }
    }
}

// ---------------------------------------------------------------------------------------------
// Rows
// ---------------------------------------------------------------------------------------------
/// The row of a paper of arXiv holds its id, its title, its authors, its DOI and the address of its PDF,
/// and is that of a source which was just found.
pub proof fn law_arxiv_row_keeps_what_was_found(
    r: ResearchSource,
    id: Seq<char>,
    topic: Seq<char>,
    p: ArxivPaper,
    now: Seq<char>,
)
    requires
        is_arxiv_row(r, id, topic, p, now),
    ensures
        r.id@ == id,
        r.topic_id@ == topic,
        r.source_type@ == "arxiv"@,
        opt_text(r.source_id) == Some(p.arxiv_id@),
        opt_text(r.title) == Some(p.title@),
        opt_text(r.authors) == Some(json_array_text(texts(p.authors@))),
        opt_text(r.url) == Some(p.pdf_url@),
        opt_text(r.doi) == opt_text(p.doi),
        r.status@ == "discovered"@,
        r.metadata@ == json_compact_text(arxiv_details(p)),
        r.discovered_at@ == now,
        r.processed_at is None,
{
}

/// The row of a work of Crossref holds its DOI, the address of that, its title and its authors, and is
/// that of a source which was just found.
pub proof fn law_crossref_row_keeps_what_was_found(
    r: ResearchSource,
    id: Seq<char>,
    topic: Seq<char>,
    w: CrossrefWork,
    now: Seq<char>,
)
    requires
        is_crossref_row(r, id, topic, w, now),
        w.doi is Some,
    ensures
        r.id@ == id,
        r.topic_id@ == topic,
        r.source_type@ == "crossref"@,
        opt_text(r.source_id) == opt_text(w.doi),
        opt_text(r.doi) == opt_text(w.doi),
        opt_text(r.url) == Some("https://doi.org/"@ + w.doi->0@),
        w.title is Some ==> opt_text(r.title) == opt_text(w.title),
        w.authors is Some ==> opt_text(r.authors) == Some(json_array_text(texts(w.authors->0@))),
        r.status@ == "discovered"@,
        r.metadata@ == json_compact_text(crossref_details(w)),
        r.discovered_at@ == now,
        r.processed_at is None,
{
}

/// Every source that a search stored is told of once, under its topic, and the last that is told is the
/// number of them.
pub proof fn law_every_stored_source_is_told(
    topic: Seq<char>,
    rows: Seq<ResearchSource>,
    n: int,
    k: int,
)
    requires
        0 <= n <= rows.len(),
        0 <= k < rows.len(),
    ensures
        search_events(topic, rows, n).len() == rows.len() + 3,
        search_events(topic, rows, n)[if k < n {
            k + 1
        } else {
            k + 2
        }] == (EventModel::Discovered { topic_id: topic, source: source_model(rows[k]) }),
        search_events(topic, rows, n).last() == (EventModel::Progress {
            topic_id: topic,
            phase: "done"@,
            found: rows.len() as int,
        }),
{
    let first = found_events(topic, rows.take(n));
    let second = found_events(topic, rows.skip(n));
    if k < n {
        assert(first[k] == (EventModel::Discovered {
            topic_id: topic,
            source: source_model(rows.take(n)[k]),
        }));
    } else {
        assert(second[k - n] == (EventModel::Discovered {
            topic_id: topic,
            source: source_model(rows.skip(n)[k - n]),
        }));
    }
}

/// Sources are looked for by the words that were thought up, where there are any, else by all keywords
/// of the topic, else by its name.
pub proof fn law_words_of_a_search(
    name: Seq<char>,
    keywords: Seq<Seq<char>>,
    expanded: Option<Seq<char>>,
)
    ensures
        expanded is Some && trim(expanded->0).len() > 0 ==> search_query(name, keywords, expanded)
            == expanded->0,
        (expanded is None || trim(expanded->0).len() == 0) && keywords.len() > 0 ==> search_query(
            name,
            keywords,
            expanded,
        ) == join(keywords, " "@),
        (expanded is None || trim(expanded->0).len() == 0) && keywords.len() == 0 ==> search_query(
            name,
            keywords,
            expanded,
        ) == name,
{
}

} // verus!
