//! Looking for sources on a topic: what is asked for, which of what is found is new, and how it is
//! stored.
use vstd::prelude::*;
use vstd::string::*;

use crate::json::{
    add_member, json_array, json_array_text, json_compact_text, json_items, json_members,
    json_object, json_strings, json_text, parse_strings, print_compact, print_strings, Json,
    JsonModel, Member, MemberModel,
};
use crate::models::ResearchSource;
use crate::text::{
    concat2, concat3, copy_opt, join, join_with, opt_text, same, texts, trim, trimmed,
};

verus! {

// ---------------------------------------------------------------------------------------------
// What is asked for
// ---------------------------------------------------------------------------------------------
/// The keywords of a topic; none where they cannot be read.
pub open spec fn topic_keywords(stored: Seq<char>) -> Seq<Seq<char>> {
    match json_strings(stored) {
        Some(v) => v,
        None => Seq::empty(),
    }
}

/// The keywords of a topic.
pub fn keywords_of(stored: &str) -> (r: Vec<String>)
    ensures
        texts(r@) == topic_keywords(stored@),
{
    match parse_strings(stored) {
        Some(v) => v,
        None => {
            let v: Vec<String> = Vec::new();
            assert(texts(v@) =~= Seq::empty());
            v
        },
    }
}

/// The words by which sources are looked for: those that were thought up, where there are any, else
/// the keywords, else the name of the topic.
pub open spec fn search_query(
    name: Seq<char>,
    keywords: Seq<Seq<char>>,
    expanded: Option<Seq<char>>,
) -> Seq<char> {
    if expanded is Some && trim(expanded->0).len() > 0 {
        expanded->0
    } else if keywords.len() == 0 {
        name
    } else {
        join(keywords, " "@)
    }
}

/// The words by which sources are looked for. `expanded` is what a language model thought up.
pub fn query_for(name: &str, keywords: &Vec<String>, expanded: Option<String>) -> (r: String)
    ensures
        r@ == search_query(name@, texts(keywords@), opt_text(expanded)),
{
    if let Some(e) = expanded {
        if !trimmed(e.as_str()).as_str().is_empty() {
            return e;
        }
    }
    assert(texts(keywords@).len() == keywords@.len());
    if keywords.len() == 0 {
        name.to_owned()
    } else {
        join_with(keywords, " ")
    }
}

/// How many sources a service is asked for: what the caller says, else the setting, which is at
/// least 1; never more than thirty.
pub fn discover_limit(max_results: Option<u32>, setting: i32) -> (r: u32)
    ensures
        r == ({
            let n: int = match max_results {
                Some(m) => m as int,
                None => if setting < 1 {
                    1
                } else {
                    setting as int
                },
            };
            if n > 30 {
                30
            } else {
                n
            }
        }),
{
    let n: u32 = match max_results {
        Some(m) => m,
        None => if setting < 1 {
            1
        } else {
            setting as u32
        },
    };
    if n > 30 {
        30
    } else {
        n
    }
}

/// What a language model is asked to think up for a topic.
pub fn expansion_prompt(name: &str, keywords: &Vec<String>) -> (r: String)
    ensures
        r@ == "课题："@ + name@ + "\n关键词："@ + (if keywords@.len() == 0 {
            name@
        } else {
            join(texts(keywords@), "、"@)
        }) + "\n请给出 3~5 个用于文献检索的英文关键词/短语，用逗号分隔，不要编号，不要解释。"@,
{
    let kw = if keywords.len() == 0 {
        name.to_owned()
    } else {
        join_with(keywords, "、")
    };
    let mut s = concat3("课题：", name, "\n关键词：");
    s.append(kw.as_str());
    s.append("\n请给出 3~5 个用于文献检索的英文关键词/短语，用逗号分隔，不要编号，不要解释。");
    s
}

/// Whether a language model can be asked: it needs a key, unless it runs on this machine.
pub fn can_expand(api_key: &str, is_local: bool) -> (r: bool)
    ensures
        r == (api_key@.len() > 0 || is_local),
{
    !api_key.is_empty() || is_local
}

/// How long the search in the background waits, in seconds, and whether it searches behind that.
pub struct Wait {
    pub seconds: u64,
    pub searches: bool,
}

/// How long the search in the background waits. It is switched off by an interval of 0 or less, and
/// then only looks at the setting again.
pub fn auto_discovery_wait(interval_hours: i32) -> (r: Wait)
    ensures
        interval_hours <= 0 ==> r.seconds == 300 && !r.searches,
        interval_hours > 0 ==> r.seconds == interval_hours * 3600 && r.searches,
{
    if interval_hours <= 0 {
        Wait { seconds: 300, searches: false }
    } else {
        Wait { seconds: interval_hours as u64 * 3600, searches: true }
    }
}

// ---------------------------------------------------------------------------------------------
// What is new
// ---------------------------------------------------------------------------------------------
/// What the search looks at in a source that is stored.
pub struct SourceKey {
    pub source_id: Option<Seq<char>>,
    pub doi: Option<Seq<char>>,
}

/// The keys of sources.
pub open spec fn source_keys(v: Seq<ResearchSource>) -> Seq<SourceKey> {
    Seq::new(
        v.len(),
        |i: int| SourceKey { source_id: opt_text(v[i].source_id), doi: opt_text(v[i].doi) },
    )
}

/// Whether some source has an id.
pub open spec fn has_id(keys: Seq<SourceKey>, id: Seq<char>) -> bool {
    exists|k: int| 0 <= k < keys.len() && (#[trigger] keys[k]).source_id == Some(id)
}

/// Whether some source has a DOI.
pub open spec fn has_doi(keys: Seq<SourceKey>, doi: Seq<char>) -> bool {
    exists|k: int| 0 <= k < keys.len() && (#[trigger] keys[k]).doi == Some(doi)
}

/// Whether a source is stored already, under any topic: by its id or by its DOI, as far as they are
/// not empty.
pub open spec fn is_known(keys: Seq<SourceKey>, id: Seq<char>, doi: Option<Seq<char>>) -> bool {
    (id.len() > 0 && has_id(keys, id)) || (doi is Some && doi->0.len() > 0 && has_doi(
        keys,
        doi->0,
    ))
}

fn says(o: &Option<String>, s: &str) -> (r: bool)
    ensures
        r == (opt_text(*o) == Some(s@)),
{
    match o {
        Some(t) => same(t.as_str(), s),
        None => false,
    }
}

/// Tells whether a source is stored already.
pub fn source_exists(sources: &Vec<ResearchSource>, arxiv_id: &str, doi: Option<&str>) -> (r: bool)
    ensures
        r == is_known(
            source_keys(sources@),
            arxiv_id@,
            match doi {
                Some(d) => Some(d@),
                None => None,
            },
        ),
{
    let ghost keys = source_keys(sources@);
    let mut i: usize = 0;
    while i < sources.len()
        invariant
            i <= sources.len(),
            keys == source_keys(sources@),
            arxiv_id@.len() > 0 ==> forall|k: int|
                0 <= k < i ==> (#[trigger] keys[k]).source_id != Some(arxiv_id@),
            doi is Some && doi->0@.len() > 0 ==> forall|k: int|
                0 <= k < i ==> (#[trigger] keys[k]).doi != Some(doi->0@),
        decreases sources.len() - i,
    {
        assert(keys[i as int].source_id == opt_text(sources@[i as int].source_id));
        assert(keys[i as int].doi == opt_text(sources@[i as int].doi));
        if !arxiv_id.is_empty() && says(&sources[i].source_id, arxiv_id) {
            return true;
        }
        if let Some(d) = doi {
            if !d.is_empty() && says(&sources[i].doi, d) {
                return true;
            }
        }
        i += 1;
    }
    false
}

// ---------------------------------------------------------------------------------------------
// arXiv
// ---------------------------------------------------------------------------------------------
/// A paper that arXiv found.
pub struct ArxivPaper {
    pub arxiv_id: String,
    pub title: String,
    pub authors: Vec<String>,
    pub categories: Vec<String>,
    pub pdf_url: String,
    pub published: String,
    pub doi: Option<String>,
}

/// A list of texts as JSON.
pub open spec fn text_items(v: Seq<Seq<char>>) -> Seq<JsonModel> {
    Seq::new(v.len(), |i: int| JsonModel::Str(v[i]))
}

/// What is kept beside a paper of arXiv.
pub open spec fn arxiv_details(p: ArxivPaper) -> JsonModel {
    JsonModel::Object(
        seq![
            MemberModel { key: "arxiv_id"@, value: JsonModel::Str(p.arxiv_id@) },
            MemberModel {
                key: "categories"@,
                value: JsonModel::Array(text_items(texts(p.categories@))),
            },
            MemberModel { key: "pdf_url"@, value: JsonModel::Str(p.pdf_url@) },
            MemberModel { key: "published"@, value: JsonModel::Str(p.published@) },
        ],
    )
}

/// Whether a row is that of a paper of arXiv.
pub open spec fn is_arxiv_row(
    r: ResearchSource,
    id: Seq<char>,
    topic: Seq<char>,
    p: ArxivPaper,
    now: Seq<char>,
) -> bool {
    &&& r.id@ == id && r.topic_id@ == topic && r.source_type@ == "arxiv"@
    &&& opt_text(r.source_id) == Some(p.arxiv_id@)
    &&& opt_text(r.title) == Some(p.title@)
    &&& opt_text(r.authors) == Some(json_array_text(texts(p.authors@)))
    &&& opt_text(r.url) == Some(p.pdf_url@)
    &&& opt_text(r.doi) == opt_text(p.doi)
    &&& r.status@ == "discovered"@
    &&& r.metadata@ == json_compact_text(arxiv_details(p))
    &&& r.discovered_at@ == now
    &&& r.processed_at is None
}

fn text_list(v: &Vec<String>) -> (r: Json)
    ensures
        r@ == JsonModel::Array(text_items(texts(v@))),
{
    let mut out: Vec<Json> = Vec::new();
    let mut i: usize = 0;
    while i < v.len()
        invariant
            i <= v.len(),
            out.len() == i,
            forall|k: int| 0 <= k < i ==> (#[trigger] out@[k])@ == JsonModel::Str(v@[k]@),
        decreases v.len() - i,
    {
        out.push(json_text(v[i].as_str()));
        i += 1;
    }
    assert(json_items(out@) =~= text_items(texts(v@)));
    json_array(out)
}

/// The row of a paper of arXiv.
pub fn arxiv_row(id: &str, topic_id: &str, p: &ArxivPaper, now: &str) -> (r: ResearchSource)
    ensures
        is_arxiv_row(r, id@, topic_id@, *p, now@),
{
    let mut m: Vec<Member> = Vec::new();
    assert(json_members(m@) =~= Seq::empty());
    add_member(&mut m, "arxiv_id", json_text(p.arxiv_id.as_str()));
    add_member(&mut m, "categories", text_list(&p.categories));
    add_member(&mut m, "pdf_url", json_text(p.pdf_url.as_str()));
    add_member(&mut m, "published", json_text(p.published.as_str()));
    assert(JsonModel::Object(json_members(m@)) == arxiv_details(*p)) by {
        assert(json_members(m@) =~= arxiv_details(*p)->Object_0);
    }
    ResearchSource {
        id: id.to_owned(),
        topic_id: topic_id.to_owned(),
        source_type: "arxiv".to_owned(),
        source_id: Some(p.arxiv_id.clone()),
        title: Some(p.title.clone()),
        authors: Some(print_strings(&p.authors)),
        url: Some(p.pdf_url.clone()),
        doi: copy_opt(&p.doi),
        status: "discovered".to_owned(),
        metadata: print_compact(&json_object(m)),
        discovered_at: now.to_owned(),
        processed_at: None,
    }
}

/// The keys that a paper of arXiv adds.
pub open spec fn arxiv_on(keys: Seq<SourceKey>, p: ArxivPaper) -> Seq<SourceKey> {
    if is_known(keys, p.arxiv_id@, opt_text(p.doi)) {
        keys
    } else {
        keys.push(SourceKey { source_id: Some(p.arxiv_id@), doi: opt_text(p.doi) })
    }
}

/// The keys behind the search of arXiv.
pub open spec fn arxiv_keys(keys: Seq<SourceKey>, papers: Seq<ArxivPaper>) -> Seq<SourceKey>
    decreases papers.len(),
{
    if papers.len() == 0 {
        keys
    } else {
        arxiv_on(arxiv_keys(keys, papers.drop_last()), papers.last())
    }
}

/// The places of the papers that are new.
pub open spec fn arxiv_picks(keys: Seq<SourceKey>, papers: Seq<ArxivPaper>) -> Seq<int>
    decreases papers.len(),
{
    if papers.len() == 0 {
        Seq::empty()
    } else {
        let before = arxiv_picks(keys, papers.drop_last());
        let p = papers.last();
        if is_known(arxiv_keys(keys, papers.drop_last()), p.arxiv_id@, opt_text(p.doi)) {
            before
        } else {
            before.push(papers.len() - 1)
        }
    }
}

/// Whether the rows from `from` on are those of the papers at the given places, under their ids.
pub open spec fn are_arxiv_rows(
    rows: Seq<ResearchSource>,
    from: int,
    picks: Seq<int>,
    papers: Seq<ArxivPaper>,
    ids: Seq<Seq<char>>,
    topic: Seq<char>,
    now: Seq<char>,
) -> bool {
    &&& rows.len() >= from + picks.len()
    &&& forall|m: int|
        0 <= m < picks.len() ==> 0 <= #[trigger] picks[m] < papers.len() && is_arxiv_row(
            rows[from + m],
            ids[picks[m]],
            topic,
            papers[picks[m]],
            now,
        )
}

/// Stores the papers that are new. `ids` holds an id for each paper.
pub fn discover_arxiv(
    sources: &mut Vec<ResearchSource>,
    topic_id: &str,
    papers: &Vec<ArxivPaper>,
    ids: &Vec<String>,
    now: &str,
) -> (r: usize)
    requires
        ids@.len() >= papers@.len(),
    ensures
        r == arxiv_picks(source_keys(old(sources)@), papers@).len(),
        r <= papers@.len(),
        final(sources)@.len() == old(sources)@.len() + r,
        final(sources)@.take(old(sources)@.len() as int) == old(sources)@,
        source_keys(final(sources)@) == arxiv_keys(source_keys(old(sources)@), papers@),
        are_arxiv_rows(
            final(sources)@,
            old(sources)@.len() as int,
            arxiv_picks(source_keys(old(sources)@), papers@),
            papers@,
            texts(ids@),
            topic_id@,
            now@,
        ),
{
    let ghost start = sources@;
    let ghost keys = source_keys(start);
    let ghost all_ids = texts(ids@);
    let mut added: usize = 0;
    let mut i: usize = 0;
    assert(sources@.take(start.len() as int) =~= start);
    while i < papers.len()
        invariant
            i <= papers.len(),
            added <= i,
            ids@.len() >= papers@.len(),
            start == old(sources)@,
            keys == source_keys(start),
            all_ids == texts(ids@),
            sources@.len() == start.len() + added,
            sources@.take(start.len() as int) == start,
            added == arxiv_picks(keys, papers@.take(i as int)).len(),
            source_keys(sources@) == arxiv_keys(keys, papers@.take(i as int)),
            are_arxiv_rows(
                sources@,
                start.len() as int,
                arxiv_picks(keys, papers@.take(i as int)),
                papers@,
                all_ids,
                topic_id@,
                now@,
            ),
        decreases papers.len() - i,
    {
        let ghost before = sources@;
        let ghost picks = arxiv_picks(keys, papers@.take(i as int));
        proof {
            assert(papers@.take(i + 1).drop_last() =~= papers@.take(i as int));
            assert(papers@.take(i + 1).last() == papers@[i as int]);
        }
        let doi: Option<&str> = match &papers[i].doi {
            Some(d) => Some(d.as_str()),
            None => None,
        };
        if !source_exists(sources, papers[i].arxiv_id.as_str(), doi) {
            let row = arxiv_row(ids[i].as_str(), topic_id, &papers[i], now);
            sources.push(row);
            added += 1;
            proof {
                assert(sources@.take(start.len() as int) =~= before.take(start.len() as int));
                assert(source_keys(sources@) =~= source_keys(before).push(
                    SourceKey {
                        source_id: Some(papers@[i as int].arxiv_id@),
                        doi: opt_text(papers@[i as int].doi),
                    },
                ));
                let next = picks.push(i as int);
                assert(arxiv_picks(keys, papers@.take(i + 1)) =~= next);
                assert forall|m: int| 0 <= m < next.len() implies 0 <= #[trigger] next[m]
                    < papers@.len() && is_arxiv_row(
                    sources@[start.len() + m],
                    all_ids[next[m]],
                    topic_id@,
                    papers@[next[m]],
                    now@,
                ) by {
                    if m < picks.len() {
                        assert(next[m] == picks[m]);
                        assert(sources@[start.len() + m] == before[start.len() + m]);
                    } else {
                        assert(sources@[start.len() + m] == row);
                        assert(all_ids[i as int] == ids@[i as int]@);
                    }
                }
            }
        }
        i += 1;
    }
    assert(papers@.take(papers.len() as int) =~= papers@);
    added
}

// ---------------------------------------------------------------------------------------------
// Crossref
// ---------------------------------------------------------------------------------------------
/// A work that Crossref found.
pub struct CrossrefWork {
    pub title: Option<String>,
    pub authors: Option<Vec<String>>,
    pub journal: Option<String>,
    pub citation_count: Option<i64>,
    pub year: Option<i32>,
    pub doi: Option<String>,
}

/// An optional text as JSON.
pub open spec fn opt_text_json(o: Option<Seq<char>>) -> JsonModel {
    match o {
        Some(s) => JsonModel::Str(s),
        None => JsonModel::Null,
    }
}

/// An optional number as JSON.
pub open spec fn opt_number_json(o: Option<int>) -> JsonModel {
    match o {
        Some(n) => JsonModel::Int(n),
        None => JsonModel::Null,
    }
}

/// What is kept beside a work of Crossref.
pub open spec fn crossref_details(w: CrossrefWork) -> JsonModel {
    JsonModel::Object(
        seq![
            MemberModel { key: "journal"@, value: opt_text_json(opt_text(w.journal)) },
            MemberModel {
                key: "citation_count"@,
                value: opt_number_json(
                    match w.citation_count {
                        Some(n) => Some(n as int),
                        None => None,
                    },
                ),
            },
            MemberModel {
                key: "year"@,
                value: opt_number_json(
                    match w.year {
                        Some(n) => Some(n as int),
                        None => None,
                    },
                ),
            },
        ],
    )
}

/// The DOI of a work, empty where it has none.
pub open spec fn work_doi(w: CrossrefWork) -> Seq<char> {
    match w.doi {
        Some(d) => d@,
        None => Seq::empty(),
    }
}

/// The authors of a work, none where it names none.
pub open spec fn named_authors(w: CrossrefWork) -> Seq<Seq<char>> {
    match w.authors {
        Some(v) => texts(v@),
        None => Seq::empty(),
    }
}

/// Whether a row is that of a work of Crossref.
pub open spec fn is_crossref_row(
    r: ResearchSource,
    id: Seq<char>,
    topic: Seq<char>,
    w: CrossrefWork,
    now: Seq<char>,
) -> bool {
    &&& r.id@ == id && r.topic_id@ == topic && r.source_type@ == "crossref"@
    &&& opt_text(r.source_id) == Some(work_doi(w))
    &&& opt_text(r.title) == Some(
        match w.title {
            Some(t) => t@,
            None => "未命名文献"@,
        },
    )
    &&& opt_text(r.authors) == Some(json_array_text(named_authors(w)))
    &&& opt_text(r.url) == Some("https://doi.org/"@ + work_doi(w))
    &&& opt_text(r.doi) == Some(work_doi(w))
    &&& r.status@ == "discovered"@
    &&& r.metadata@ == json_compact_text(crossref_details(w))
    &&& r.discovered_at@ == now
    &&& r.processed_at is None
}

fn opt_string_json(o: &Option<String>) -> (r: Json)
    ensures
        r@ == opt_text_json(opt_text(*o)),
{
    match o {
        Some(s) => json_text(s.as_str()),
        None => Json::Null,
    }
}

/// The row of a work of Crossref.
pub fn crossref_row(id: &str, topic_id: &str, w: &CrossrefWork, now: &str) -> (r: ResearchSource)
    ensures
        is_crossref_row(r, id@, topic_id@, *w, now@),
{
    let mut m: Vec<Member> = Vec::new();
    assert(json_members(m@) =~= Seq::empty());
    add_member(&mut m, "journal", opt_string_json(&w.journal));
    let count = match w.citation_count {
        Some(n) => Json::Int(n),
        None => Json::Null,
    };
    add_member(&mut m, "citation_count", count);
    let year = match w.year {
        Some(n) => Json::Int(n as i64),
        None => Json::Null,
    };
    add_member(&mut m, "year", year);
    assert(JsonModel::Object(json_members(m@)) == crossref_details(*w)) by {
        assert(json_members(m@) =~= crossref_details(*w)->Object_0);
    }
    let doi = match &w.doi {
        Some(d) => d.clone(),
        None => String::new(),
    };
    let title = match &w.title {
        Some(t) => t.clone(),
        None => "未命名文献".to_owned(),
    };
    let authors = match &w.authors {
        Some(v) => print_strings(v),
        None => {
            let none: Vec<String> = Vec::new();
            assert(texts(none@) =~= Seq::empty());
            print_strings(&none)
        },
    };
    ResearchSource {
        id: id.to_owned(),
        topic_id: topic_id.to_owned(),
        source_type: "crossref".to_owned(),
        source_id: Some(doi.clone()),
        title: Some(title),
        authors: Some(authors),
        url: Some(concat2("https://doi.org/", doi.as_str())),
        doi: Some(doi),
        status: "discovered".to_owned(),
        metadata: print_compact(&json_object(m)),
        discovered_at: now.to_owned(),
        processed_at: None,
    }
}

/// Whether a work is left out: it has no DOI, or is stored already.
pub open spec fn is_left_out(keys: Seq<SourceKey>, w: CrossrefWork) -> bool {
    work_doi(w).len() == 0 || is_known(keys, Seq::empty(), Some(work_doi(w)))
}

/// The keys that a work of Crossref adds.
pub open spec fn crossref_on(keys: Seq<SourceKey>, w: CrossrefWork) -> Seq<SourceKey> {
    if is_left_out(keys, w) {
        keys
    } else {
        keys.push(SourceKey { source_id: Some(work_doi(w)), doi: Some(work_doi(w)) })
    }
}

/// The keys behind the search of Crossref.
pub open spec fn crossref_keys(keys: Seq<SourceKey>, works: Seq<CrossrefWork>) -> Seq<SourceKey>
    decreases works.len(),
{
    if works.len() == 0 {
        keys
    } else {
        crossref_on(crossref_keys(keys, works.drop_last()), works.last())
    }
}

/// The places of the works that are new.
pub open spec fn crossref_picks(keys: Seq<SourceKey>, works: Seq<CrossrefWork>) -> Seq<int>
    decreases works.len(),
{
    if works.len() == 0 {
        Seq::empty()
    } else {
        let before = crossref_picks(keys, works.drop_last());
        if is_left_out(crossref_keys(keys, works.drop_last()), works.last()) {
            before
        } else {
            before.push(works.len() - 1)
        }
    }
}

/// Whether the rows from `from` on are those of the works at the given places, under their ids.
pub open spec fn are_crossref_rows(
    rows: Seq<ResearchSource>,
    from: int,
    picks: Seq<int>,
    works: Seq<CrossrefWork>,
    ids: Seq<Seq<char>>,
    topic: Seq<char>,
    now: Seq<char>,
) -> bool {
    &&& rows.len() >= from + picks.len()
    &&& forall|m: int|
        0 <= m < picks.len() ==> 0 <= #[trigger] picks[m] < works.len() && is_crossref_row(
            rows[from + m],
            ids[picks[m]],
            topic,
            works[picks[m]],
            now,
        )
}

/// Stores the works that are new. `ids` holds an id for each work.
pub fn discover_crossref(
    sources: &mut Vec<ResearchSource>,
    topic_id: &str,
    works: &Vec<CrossrefWork>,
    ids: &Vec<String>,
    now: &str,
) -> (r: usize)
    requires
        ids@.len() >= works@.len(),
    ensures
        r == crossref_picks(source_keys(old(sources)@), works@).len(),
        r <= works@.len(),
        final(sources)@.len() == old(sources)@.len() + r,
        final(sources)@.take(old(sources)@.len() as int) == old(sources)@,
        source_keys(final(sources)@) == crossref_keys(source_keys(old(sources)@), works@),
        are_crossref_rows(
            final(sources)@,
            old(sources)@.len() as int,
            crossref_picks(source_keys(old(sources)@), works@),
            works@,
            texts(ids@),
            topic_id@,
            now@,
        ),
{
    let ghost start = sources@;
    let ghost keys = source_keys(start);
    let ghost all_ids = texts(ids@);
    let mut added: usize = 0;
    let mut i: usize = 0;
    assert(sources@.take(start.len() as int) =~= start);
    proof {
        reveal_strlit("");
        assert(""@ =~= Seq::empty());
    }
    while i < works.len()
        invariant
            i <= works.len(),
            added <= i,
            ""@ == Seq::<char>::empty(),
            ids@.len() >= works@.len(),
            start == old(sources)@,
            keys == source_keys(start),
            all_ids == texts(ids@),
            sources@.len() == start.len() + added,
            sources@.take(start.len() as int) == start,
            added == crossref_picks(keys, works@.take(i as int)).len(),
            source_keys(sources@) == crossref_keys(keys, works@.take(i as int)),
            are_crossref_rows(
                sources@,
                start.len() as int,
                crossref_picks(keys, works@.take(i as int)),
                works@,
                all_ids,
                topic_id@,
                now@,
            ),
        decreases works.len() - i,
    {
        let ghost before = sources@;
        let ghost picks = crossref_picks(keys, works@.take(i as int));
        proof {
            assert(works@.take(i + 1).drop_last() =~= works@.take(i as int));
            assert(works@.take(i + 1).last() == works@[i as int]);
        }
        let left_out = match &works[i].doi {
            Some(d) => d.as_str().is_empty() || source_exists(sources, "", Some(d.as_str())),
            None => true,
        };
        if !left_out {
            let row = crossref_row(ids[i].as_str(), topic_id, &works[i], now);
            sources.push(row);
            added += 1;
            proof {
                assert(sources@.take(start.len() as int) =~= before.take(start.len() as int));
                assert(source_keys(sources@) =~= source_keys(before).push(
                    SourceKey {
                        source_id: Some(work_doi(works@[i as int])),
                        doi: Some(work_doi(works@[i as int])),
                    },
                ));
                let next = picks.push(i as int);
                assert(crossref_picks(keys, works@.take(i + 1)) =~= next);
                assert forall|m: int| 0 <= m < next.len() implies 0 <= #[trigger] next[m]
                    < works@.len() && is_crossref_row(
                    sources@[start.len() + m],
                    all_ids[next[m]],
                    topic_id@,
                    works@[next[m]],
                    now@,
                ) by {
                    if m < picks.len() {
                        assert(next[m] == picks[m]);
                        assert(sources@[start.len() + m] == before[start.len() + m]);
                    } else {
                        assert(sources@[start.len() + m] == row);
                        assert(all_ids[i as int] == ids@[i as int]@);
                    }
                }
            }
        }
        i += 1;
    }
    assert(works@.take(works.len() as int) =~= works@);
    added
}

// ---------------------------------------------------------------------------------------------
// Both services
// ---------------------------------------------------------------------------------------------
/// The papers that arXiv found, none where it failed.
pub open spec fn papers_found(reply: Result<Vec<ArxivPaper>, String>) -> Seq<ArxivPaper> {
    match reply {
        Ok(v) => v@,
        Err(_) => Seq::empty(),
    }
}

/// The works that Crossref found, none where it failed.
pub open spec fn works_found(reply: Result<Vec<CrossrefWork>, String>) -> Seq<CrossrefWork> {
    match reply {
        Ok(v) => v@,
        Err(_) => Seq::empty(),
    }
}

/// The keys behind a search of both services: arXiv goes first, and what it found counts when the works
/// of Crossref are looked at.
pub open spec fn topic_keys(
    keys: Seq<SourceKey>,
    papers: Seq<ArxivPaper>,
    works: Seq<CrossrefWork>,
) -> Seq<SourceKey> {
    crossref_keys(arxiv_keys(keys, papers), works)
}

/// What is told of a search while it goes on: where it stands and how much was found so far, and each
/// source that was stored.
pub enum DiscoverEvent {
    Progress { topic_id: String, phase: String, found: usize },
    Discovered { topic_id: String, source: ResearchSource },
}

/// What a row of a source says.
pub struct SourceModel {
    pub id: Seq<char>,
    pub topic_id: Seq<char>,
    pub source_type: Seq<char>,
    pub source_id: Option<Seq<char>>,
    pub title: Option<Seq<char>>,
    pub authors: Option<Seq<char>>,
    pub url: Option<Seq<char>>,
    pub doi: Option<Seq<char>>,
    pub status: Seq<char>,
    pub metadata: Seq<char>,
    pub discovered_at: Seq<char>,
    pub processed_at: Option<Seq<char>>,
}

/// What a row of a source says.
pub open spec fn source_model(s: ResearchSource) -> SourceModel {
    SourceModel {
        id: s.id@,
        topic_id: s.topic_id@,
        source_type: s.source_type@,
        source_id: opt_text(s.source_id),
        title: opt_text(s.title),
        authors: opt_text(s.authors),
        url: opt_text(s.url),
        doi: opt_text(s.doi),
        status: s.status@,
        metadata: s.metadata@,
        discovered_at: s.discovered_at@,
        processed_at: opt_text(s.processed_at),
    }
}

/// What a `DiscoverEvent` says.
pub enum EventModel {
    Progress { topic_id: Seq<char>, phase: Seq<char>, found: int },
    Discovered { topic_id: Seq<char>, source: SourceModel },
}

impl View for DiscoverEvent {
    type V = EventModel;

    open spec fn view(&self) -> EventModel {
        match self {
            DiscoverEvent::Progress { topic_id, phase, found } => EventModel::Progress {
                topic_id: topic_id@,
                phase: phase@,
                found: *found as int,
            },
            DiscoverEvent::Discovered { topic_id, source } => EventModel::Discovered {
                topic_id: topic_id@,
                source: source_model(*source),
            },
        }
    }
}

/// What the events say.
pub open spec fn event_models(v: Seq<DiscoverEvent>) -> Seq<EventModel> {
    Seq::new(v.len(), |i: int| v[i]@)
}

/// An event for each source, in their order.
pub open spec fn found_events(topic: Seq<char>, rows: Seq<ResearchSource>) -> Seq<EventModel> {
    Seq::new(
        rows.len(),
        |i: int| EventModel::Discovered { topic_id: topic, source: source_model(rows[i]) },
    )
}

/// The events of a search that stored `rows`, the first `n` of them from arXiv: each service is named
/// before its sources, with the number that was found until then, and the end with the number of all.
pub open spec fn search_events(topic: Seq<char>, rows: Seq<ResearchSource>, n: int) -> Seq<
    EventModel,
> {
    seq![EventModel::Progress { topic_id: topic, phase: "arxiv"@, found: 0 }] + found_events(
        topic,
        rows.take(n),
    ) + seq![EventModel::Progress { topic_id: topic, phase: "crossref"@, found: n }] + found_events(
        topic,
        rows.skip(n),
    ) + seq![EventModel::Progress { topic_id: topic, phase: "done"@, found: rows.len() as int }]
}

fn copy_source(s: &ResearchSource) -> (r: ResearchSource)
    ensures
        source_model(r) == source_model(*s),
{
    ResearchSource {
        id: s.id.clone(),
        topic_id: s.topic_id.clone(),
        source_type: s.source_type.clone(),
        source_id: copy_opt(&s.source_id),
        title: copy_opt(&s.title),
        authors: copy_opt(&s.authors),
        url: copy_opt(&s.url),
        doi: copy_opt(&s.doi),
        status: s.status.clone(),
        metadata: s.metadata.clone(),
        discovered_at: s.discovered_at.clone(),
        processed_at: copy_opt(&s.processed_at),
    }
}

fn tell_progress(events: &mut Vec<DiscoverEvent>, topic_id: &str, phase: &str, found: usize)
    ensures
        event_models(final(events)@) == event_models(old(events)@) + seq![
            EventModel::Progress { topic_id: topic_id@, phase: phase@, found: found as int },
        ],
{
    events.push(
        DiscoverEvent::Progress { topic_id: topic_id.to_owned(), phase: phase.to_owned(), found },
    );
    assert(event_models(events@) =~= event_models(old(events)@) + seq![
        EventModel::Progress { topic_id: topic_id@, phase: phase@, found: found as int },
    ]);
}

/// Tells of the sources from `from` on.
fn tell_found(
    events: &mut Vec<DiscoverEvent>,
    topic_id: &str,
    sources: &Vec<ResearchSource>,
    from: usize,
)
    requires
        from <= sources@.len(),
    ensures
        event_models(final(events)@) == event_models(old(events)@) + found_events(
            topic_id@,
            sources@.skip(from as int),
        ),
{
    let ghost start = event_models(events@);
    let ghost wanted = found_events(topic_id@, sources@.skip(from as int));
    let mut i: usize = from;
    assert(start + wanted.take(0) =~= start);
    while i < sources.len()
        invariant
            from <= i <= sources.len(),
            wanted == found_events(topic_id@, sources@.skip(from as int)),
            event_models(events@) == start + wanted.take(i - from),
        decreases sources.len() - i,
    {
        let ghost before = event_models(events@);
        events.push(
            DiscoverEvent::Discovered {
                topic_id: topic_id.to_owned(),
                source: copy_source(&sources[i]),
            },
        );
        proof {
            assert(sources@.skip(from as int)[i - from] == sources@[i as int]);
            assert(event_models(events@) =~= before.push(wanted[i - from]));
            assert(start + wanted.take(i - from + 1) =~= (start + wanted.take(i - from)).push(
                wanted[i - from],
            ));
        }
        i += 1;
    }
    assert(wanted.take(wanted.len() as int) =~= wanted);
}

/// Stores what is new of what both services found, and tells how much that is. A service that failed
/// found nothing. The lists of ids hold one for each paper and one for each work. What is shown of the
/// search is put behind `events`.
pub fn discover_for_topic(
    events: &mut Vec<DiscoverEvent>,
    sources: &mut Vec<ResearchSource>,
    topic_id: &str,
    arxiv: Result<Vec<ArxivPaper>, String>,
    crossref: Result<Vec<CrossrefWork>, String>,
    arxiv_ids: &Vec<String>,
    crossref_ids: &Vec<String>,
    now: &str,
) -> (r: usize)
    requires
        arxiv_ids@.len() >= papers_found(arxiv).len(),
        crossref_ids@.len() >= works_found(crossref).len(),
        papers_found(arxiv).len() + works_found(crossref).len() <= usize::MAX,
    ensures
        final(sources)@.len() == old(sources)@.len() + r,
        final(sources)@.take(old(sources)@.len() as int) == old(sources)@,
        r == arxiv_picks(source_keys(old(sources)@), papers_found(arxiv)).len() + crossref_picks(
            arxiv_keys(source_keys(old(sources)@), papers_found(arxiv)),
            works_found(crossref),
        ).len(),
        source_keys(final(sources)@) == topic_keys(
            source_keys(old(sources)@),
            papers_found(arxiv),
            works_found(crossref),
        ),
        are_arxiv_rows(
            final(sources)@,
            old(sources)@.len() as int,
            arxiv_picks(source_keys(old(sources)@), papers_found(arxiv)),
            papers_found(arxiv),
            texts(arxiv_ids@),
            topic_id@,
            now@,
        ),
        are_crossref_rows(
            final(sources)@,
            (old(sources)@.len() + arxiv_picks(
                source_keys(old(sources)@),
                papers_found(arxiv),
            ).len()) as int,
            crossref_picks(
                arxiv_keys(source_keys(old(sources)@), papers_found(arxiv)),
                works_found(crossref),
            ),
            works_found(crossref),
            texts(crossref_ids@),
            topic_id@,
            now@,
        ),
        event_models(final(events)@) == event_models(old(events)@) + search_events(
            topic_id@,
            final(sources)@.skip(old(sources)@.len() as int),
            arxiv_picks(source_keys(old(sources)@), papers_found(arxiv)).len() as int,
        ),
{
    let ghost told = event_models(events@);
    let ghost start = sources@;
    let known: usize = sources.len();
    tell_progress(events, topic_id, "arxiv", 0);
    let ghost n = start.len() as int;
    let ghost papers = papers_found(arxiv);
    let ghost picks = arxiv_picks(source_keys(start), papers);
    let first: usize = match &arxiv {
        Ok(v) => discover_arxiv(sources, topic_id, v, arxiv_ids, now),
        Err(_) => 0,
    };
    let ghost mid = sources@;
    assert(mid.take(n) =~= start);
    tell_found(events, topic_id, sources, known);
    tell_progress(events, topic_id, "crossref", first);
    let between: usize = sources.len();
    let second: usize = match &crossref {
        Ok(v) => discover_crossref(sources, topic_id, v, crossref_ids, now),
        Err(_) => 0,
    };
    proof {
        let last = sources@;
        assert(last.take(mid.len() as int) =~= mid);
        assert(last.take(n) =~= mid.take(n)) by {
            assert forall|k: int| 0 <= k < n implies last[k] == mid[k] by {
                assert(last.take(mid.len() as int)[k] == mid[k]);
            }
        }
        assert forall|m: int| 0 <= m < picks.len() implies 0 <= #[trigger] picks[m] < papers.len()
            && is_arxiv_row(
            last[n + m],
            texts(arxiv_ids@)[picks[m]],
            topic_id@,
            papers[picks[m]],
            now@,
        ) by {
            assert(last.take(mid.len() as int)[n + m] == mid[n + m]);
        }
    }
    tell_found(events, topic_id, sources, between);
    tell_progress(events, topic_id, "done", first + second);
    proof {
        let rows = sources@.skip(n);
        assert(rows.take(first as int) =~= mid.skip(n)) by {
            assert forall|k: int| 0 <= k < first implies rows[k] == mid[n + k] by {
                assert(sources@.take(mid.len() as int)[n + k] == mid[n + k]);
            }
        }
        assert(rows.skip(first as int) =~= sources@.skip(mid.len() as int));
        assert(event_models(events@) =~= told + search_events(topic_id@, rows, first as int));
    }
    first + second
}

// ---------------------------------------------------------------------------------------------
// No source twice
// ---------------------------------------------------------------------------------------------
/// Whether no two sources have the same DOI, as far as they have one.
pub open spec fn dois_differ(keys: Seq<SourceKey>) -> bool {
    forall|i: int, j: int|
        0 <= i < j < keys.len() && (#[trigger] keys[i]).doi is Some && keys[i].doi->0.len() > 0
            ==> (#[trigger] keys[j]).doi != keys[i].doi
}

/// A search of arXiv stores no DOI twice, and no DOI that is stored under any topic.
pub proof fn law_arxiv_stores_no_doi_twice(keys: Seq<SourceKey>, papers: Seq<ArxivPaper>)
    requires
        dois_differ(keys),
    ensures
        dois_differ(arxiv_keys(keys, papers)),
    decreases papers.len(),
{
    if papers.len() > 0 {
        law_arxiv_stores_no_doi_twice(keys, papers.drop_last());
        let before = arxiv_keys(keys, papers.drop_last());
        let p = papers.last();
        if !is_known(before, p.arxiv_id@, opt_text(p.doi)) {
            lemma_doi_added(
                before,
                SourceKey { source_id: Some(p.arxiv_id@), doi: opt_text(p.doi) },
            );
        }
    }
}

/// A search of Crossref stores no DOI twice, and no DOI that is stored under any topic.
pub proof fn law_crossref_stores_no_doi_twice(keys: Seq<SourceKey>, works: Seq<CrossrefWork>)
    requires
        dois_differ(keys),
    ensures
        dois_differ(crossref_keys(keys, works)),
    decreases works.len(),
{
    if works.len() > 0 {
        law_crossref_stores_no_doi_twice(keys, works.drop_last());
        let before = crossref_keys(keys, works.drop_last());
        let w = works.last();
        if !is_left_out(before, w) {
            lemma_doi_added(
                before,
                SourceKey { source_id: Some(work_doi(w)), doi: Some(work_doi(w)) },
            );
        }
    }
}

/// A search of both services stores no DOI twice.
pub proof fn law_topic_stores_no_doi_twice(
    keys: Seq<SourceKey>,
    papers: Seq<ArxivPaper>,
    works: Seq<CrossrefWork>,
)
    requires
        dois_differ(keys),
    ensures
        dois_differ(topic_keys(keys, papers, works)),
{
    law_arxiv_stores_no_doi_twice(keys, papers);
    law_crossref_stores_no_doi_twice(arxiv_keys(keys, papers), works);
}

proof fn lemma_doi_added(keys: Seq<SourceKey>, k: SourceKey)
    requires
        dois_differ(keys),
        k.doi is Some && k.doi->0.len() > 0 ==> !has_doi(keys, k.doi->0),
    ensures
        dois_differ(keys.push(k)),
{
    let all = keys.push(k);
    assert forall|i: int, j: int|
        0 <= i < j < all.len() && (#[trigger] all[i]).doi is Some && all[i].doi->0.len()
            > 0 implies (#[trigger] all[j]).doi != all[i].doi by {
        if j < keys.len() {
            assert(keys[i] == all[i] && keys[j] == all[j]);
        } else {
            assert(keys[i] == all[i]);
            if all[j].doi == all[i].doi {
                assert(keys[i].doi == Some(k.doi->0));
            }
        }
    }
}

/// A second search that finds the same papers stores nothing.
pub proof fn law_second_search_finds_nothing(keys: Seq<SourceKey>, papers: Seq<ArxivPaper>, n: int)
    requires
        0 <= n <= papers.len(),
        forall|i: int| 0 <= i < papers.len() ==> (#[trigger] papers[i]).arxiv_id@.len() > 0,
    ensures
        arxiv_keys(arxiv_keys(keys, papers), papers.take(n)) == arxiv_keys(keys, papers),
    decreases n,
{
    let all = arxiv_keys(keys, papers);
    if n > 0 {
        law_second_search_finds_nothing(keys, papers, n - 1);
        assert(papers.take(n).drop_last() =~= papers.take(n - 1));
        let p = papers[n - 1];
        assert(papers.take(n).last() == p);
        lemma_found_is_known(keys, papers, n - 1);
    }
}

proof fn lemma_found_is_known(keys: Seq<SourceKey>, papers: Seq<ArxivPaper>, i: int)
    requires
        0 <= i < papers.len(),
        papers[i].arxiv_id@.len() > 0,
    ensures
        is_known(arxiv_keys(keys, papers), papers[i].arxiv_id@, opt_text(papers[i].doi)),
    decreases papers.len(),
{
    let before = arxiv_keys(keys, papers.drop_last());
    let all = arxiv_keys(keys, papers);
    let p = papers[i];
    let doi = opt_text(p.doi);
    if i < papers.len() - 1 {
        lemma_found_is_known(keys, papers.drop_last(), i);
        assert(papers.drop_last()[i] == p);
        if has_id(before, p.arxiv_id@) {
            let k = choose|k: int|
                0 <= k < before.len() && (#[trigger] before[k]).source_id == Some(p.arxiv_id@);
            assert(all[k] == before[k]);
        } else {
            let k = choose|k: int| 0 <= k < before.len() && (#[trigger] before[k]).doi == Some(doi->0);
            assert(all[k] == before[k]);
        }
    } else if !is_known(before, p.arxiv_id@, doi) {
        assert(all.last().source_id == Some(p.arxiv_id@));
        assert(all[all.len() - 1].source_id == Some(p.arxiv_id@));
    }
}

} // verus!
