//! The statement behind a listing of papers.
use vstd::prelude::*;
use vstd::string::*;

use crate::models::ListPapersParams;
use crate::sql::{
    balanced, lemma_marks_concat, lemma_no_marks, lemma_one_mark, lemma_two_marks,
    lemma_with_clause_balanced, marks, with_clause, Query, QueryModel,
};
use crate::text::{
    concat2, concat3, decimal, decimal_of, join, join_with, lemma_texts_push, lower, opt_text, same,
    signed_decimal, signed_decimal_of, texts, to_lower, words, words_of,
};

verus! {

/// A text that is there and not empty.
pub open spec fn filled(o: Option<String>) -> Option<Seq<char>> {
    match o {
        Some(s) => if s@.len() > 0 {
            Some(s@)
        } else {
            None
        },
        None => None,
    }
}

/// A text that is there and not empty.
fn filled_of(o: &Option<String>) -> (r: Option<&str>)
    ensures
        match r {
            Some(s) => filled(*o) == Some(s@),
            None => filled(*o) is None,
        },
{
    match o {
        Some(s) => if s.as_str().is_empty() {
            None
        } else {
            Some(s.as_str())
        },
        None => None,
    }
}

/// A pattern that matches the texts in which `s` stands.
pub open spec fn like(s: Seq<char>) -> Seq<char> {
    "%"@ + s + "%"@
}

/// The terms of a full-text search: each word of at least three characters, as a prefix.
pub open spec fn search_terms(parts: Seq<Seq<char>>) -> Seq<Seq<char>>
    decreases parts.len(),
{
    if parts.len() == 0 {
        Seq::empty()
    } else if parts.last().len() >= 3 {
        search_terms(parts.drop_last()).push(parts.last() + "*"@)
    } else {
        search_terms(parts.drop_last())
    }
}

/// The expression of a full-text search; empty where no word is long enough.
pub open spec fn search_expression(s: Seq<char>) -> Seq<char> {
    join(search_terms(words(s)), " OR "@)
}

/// The expression of a full-text search; empty where no word is long enough.
pub fn search_expression_of(s: &str) -> (r: String)
    ensures
        r@ == search_expression(s@),
{
    broadcast use lemma_texts_push;

    let parts = words_of(s);
    let ghost all = texts(parts@);
    let mut terms: Vec<String> = Vec::new();
    assert(texts(terms@) =~= Seq::empty());
    let mut i: usize = 0;
    while i < parts.len()
        invariant
            i <= parts.len(),
            all == texts(parts@),
            texts(terms@) == search_terms(all.take(i as int)),
        decreases parts.len() - i,
    {
        assert(all.take(i + 1).drop_last() =~= all.take(i as int));
        if parts[i].as_str().unicode_len() >= 3 {
            terms.push(concat2(parts[i].as_str(), "*"));
        }
        i += 1;
    }
    assert(all.take(all.len() as int) =~= all);
    join_with(&terms, " OR ")
}

/// As many placeholders as there are values, with commas between.
pub open spec fn placeholders(n: nat) -> Seq<char> {
    join(Seq::new(n, |i: int| "?"@), ", "@)
}

/// As many placeholders as there are values, with commas between.
pub fn placeholders_for(n: usize) -> (r: String)
    ensures
        r@ == placeholders(n as nat),
{
    let mut list: Vec<String> = Vec::new();
    let mut i: usize = 0;
    while i < n
        invariant
            i <= n,
            list.len() == i,
            forall|j: int| 0 <= j < i ==> (#[trigger] list@[j])@ == "?"@,
        decreases n - i,
    {
        list.push("?".to_owned());
        i += 1;
    }
    assert(texts(list@) =~= Seq::new(n as nat, |i: int| "?"@));
    join_with(&list, ", ")
}

/// The statement with a clause behind it, where the condition holds.
pub open spec fn when(
    q: QueryModel,
    condition: bool,
    clause: Seq<char>,
    binds: Seq<Seq<char>>,
) -> QueryModel {
    if condition {
        with_clause(q, clause, binds)
    } else {
        q
    }
}

/// The statement with a clause and one value behind it, where there is a value.
pub open spec fn given(q: QueryModel, value: Option<Seq<char>>, clause: Seq<char>) -> QueryModel {
    match value {
        Some(v) => with_clause(q, clause, seq![v]),
        None => q,
    }
}

/// The columns of all papers.
pub open spec fn all_papers() -> QueryModel {
    QueryModel {
        sql:
            "SELECT id, title, authors, year, journal, doi, url, abstract, keywords, citation_key, bibtex, file_path, file_size, page_count, language, item_type, volume, issue, pages, conference_name, publisher, place, editor, series, edition, isbn, issn, num_pages, archive_location, call_number, rights, deleted_at, is_favorite, read_status, last_read_at, created_at, updated_at, imported_at FROM papers WHERE 1=1"@,
        binds: Seq::empty(),
    }
}

/// Narrowed by the trash, the favorites, the read status, the years and the journal. Either the
/// papers in the trash are listed or the others, never both.
pub open spec fn by_state(q: QueryModel, p: ListPapersParams) -> QueryModel {
    let q = with_clause(
        q,
        if p.include_deleted == Some(true) {
            " AND deleted_at IS NOT NULL"@
        } else {
            " AND deleted_at IS NULL"@
        },
        Seq::empty(),
    );
    let q = when(q, p.is_favorite == Some(true), " AND is_favorite = 1"@, Seq::empty());
    given(q, filled(p.read_status), " AND read_status = ?"@)
}

/// A number in digits, where there is one.
pub open spec fn digits(n: Option<i32>) -> Option<Seq<char>> {
    match n {
        Some(n) => Some(signed_decimal(n as int)),
        None => None,
    }
}

/// A pattern, where there is a text for it.
pub open spec fn like_opt(o: Option<Seq<char>>) -> Option<Seq<char>> {
    match o {
        Some(s) => Some(like(s)),
        None => None,
    }
}

/// Narrowed by the years, the journal and a related paper.
pub open spec fn by_content(q: QueryModel, p: ListPapersParams) -> QueryModel {
    let q = given(q, digits(p.year_from), " AND year >= ?"@);
    let q = given(q, digits(p.year_to), " AND year <= ?"@);
    let q = given(q, like_opt(filled(p.journal)), " AND journal LIKE ?"@);
    match filled(p.related_to) {
        Some(id) => with_clause(
            q,
            " AND id IN (SELECT paper_id FROM related_papers WHERE related_id = ? UNION SELECT related_id FROM related_papers WHERE paper_id = ?)"@,
            seq![id, id],
        ),
        None => q,
    }
}

/// Narrowed by a search in titles, authors and, where a word is long enough, full texts.
pub open spec fn by_search(q: QueryModel, p: ListPapersParams) -> QueryModel {
    match filled(p.search) {
        Some(s) => {
            let q = with_clause(
                q,
                " AND (title LIKE ? OR authors LIKE ?"@,
                seq![like(s), like(s)],
            );
            let q = given(
                q,
                if search_expression(s).len() > 0 {
                    Some(search_expression(s))
                } else {
                    None
                },
                " OR id IN (SELECT DISTINCT c.paper_id FROM chunks_fts fts JOIN chunks c ON fts.rowid = c.rowid WHERE chunks_fts MATCH ? LIMIT 300)"@,
            );
            with_clause(q, ")"@, Seq::empty())
        },
        None => q,
    }
}

/// The tags that a listing is narrowed by.
pub open spec fn tags_of(p: ListPapersParams) -> Seq<Seq<char>> {
    match p.tag_ids {
        Some(v) => texts(v@),
        None => Seq::empty(),
    }
}

/// Whether a paper must have all the tags, and not only one of them.
pub open spec fn all_tags(p: ListPapersParams) -> bool {
    match p.tag_logic {
        Some(s) => lower(s@) == "and"@,
        None => false,
    }
}

/// The clause that narrows by `n` tags.
pub open spec fn tag_clause(n: nat, all: bool) -> Seq<char> {
    if all {
        " AND id IN (SELECT paper_id FROM paper_tags WHERE tag_id IN ("@ + placeholders(n)
            + ") GROUP BY paper_id HAVING COUNT(DISTINCT tag_id) = "@ + decimal(n) + ")"@
    } else {
        " AND id IN (SELECT paper_id FROM paper_tags WHERE tag_id IN ("@ + placeholders(n) + "))"@
    }
}

/// Narrowed by a collection and by tags.
pub open spec fn by_group(q: QueryModel, p: ListPapersParams) -> QueryModel {
    let q = given(
        q,
        opt_text(p.collection_id),
        " AND id IN (SELECT paper_id FROM paper_collections WHERE collection_id = ?)"@,
    );
    when(q, tags_of(p).len() > 0, tag_clause(tags_of(p).len(), all_tags(p)), tags_of(p))
}

/// The column that a listing is ordered by.
pub open spec fn sort_column(p: ListPapersParams) -> Seq<char> {
    match opt_text(p.sort_by) {
        Some(s) => if s == "title"@ || s == "year"@ || s == "last_read_at"@ {
            s
        } else {
            "imported_at"@
        },
        None => "imported_at"@,
    }
}

/// The direction that a listing is ordered in.
pub open spec fn sort_direction(p: ListPapersParams) -> Seq<char> {
    if opt_text(p.sort_order) == Some("asc"@) {
        "ASC"@
    } else {
        "DESC"@
    }
}

/// Ordered and cut to a page. By the time of the last reading only papers that were read are
/// ordered.
pub open spec fn ordered(q: QueryModel, p: ListPapersParams) -> QueryModel {
    let q = when(
        q,
        sort_column(p) == "last_read_at"@,
        " AND last_read_at IS NOT NULL"@,
        Seq::empty(),
    );
    let q = with_clause(
        q,
        " ORDER BY "@ + sort_column(p) + " "@ + sort_direction(p),
        Seq::empty(),
    );
    let q = match p.limit {
        Some(n) => with_clause(q, " LIMIT "@ + signed_decimal(n as int), Seq::empty()),
        None => q,
    };
    match p.offset {
        Some(n) => with_clause(q, " OFFSET "@ + signed_decimal(n as int), Seq::empty()),
        None => q,
    }
}

/// The statement that lists the papers which `p` asks for.
pub open spec fn paper_query(p: ListPapersParams) -> QueryModel {
    ordered(by_group(by_search(by_content(by_state(all_papers(), p), p), p), p), p)
}

fn add_given(q: &mut Query, value: Option<&str>, clause: &str)
    ensures
        final(q)@ == given(
            old(q)@,
            match value {
                Some(v) => Some(v@),
                None => None,
            },
            clause@,
        ),
{
    match value {
        Some(v) => q.clause_with(clause, v),
        None => {},
    }
}

fn add_state(q: &mut Query, p: &ListPapersParams)
    ensures
        final(q)@ == by_state(old(q)@, *p),
{
    match p.include_deleted {
        Some(true) => q.clause(" AND deleted_at IS NOT NULL"),
        _ => q.clause(" AND deleted_at IS NULL"),
    }
    match p.is_favorite {
        Some(true) => q.clause(" AND is_favorite = 1"),
        _ => {},
    }
    add_given(q, filled_of(&p.read_status), " AND read_status = ?");
}

fn add_year(q: &mut Query, year: Option<i32>, clause: &str)
    ensures
        final(q)@ == given(old(q)@, digits(year), clause@),
{
    match year {
        Some(y) => q.clause_with(clause, signed_decimal_of(y as i64).as_str()),
        None => {},
    }
}

fn add_content(q: &mut Query, p: &ListPapersParams)
    ensures
        final(q)@ == by_content(old(q)@, *p),
{
    add_year(q, p.year_from, " AND year >= ?");
    add_year(q, p.year_to, " AND year <= ?");
    match filled_of(&p.journal) {
        Some(j) => q.clause_with(" AND journal LIKE ?", concat3("%", j, "%").as_str()),
        None => {},
    }
    let ghost before = q@;
    match filled_of(&p.related_to) {
        Some(id) => {
            q.clause_with(
                " AND id IN (SELECT paper_id FROM related_papers WHERE related_id = ? UNION SELECT related_id FROM related_papers WHERE paper_id = ?)",
                id,
            );
            q.value(id);
            assert(q@.binds =~= before.binds + seq![id@, id@]);
        },
        None => {},
    }
}

fn add_search(q: &mut Query, p: &ListPapersParams)
    ensures
        final(q)@ == by_search(old(q)@, *p),
{
    match filled_of(&p.search) {
        Some(s) => {
            let ghost before = q@;
            let pattern = concat3("%", s, "%");
            q.clause_with(" AND (title LIKE ? OR authors LIKE ?", pattern.as_str());
            q.value(pattern.as_str());
            assert(q@.binds =~= before.binds + seq![like(s@), like(s@)]);
            let expression = search_expression_of(s);
            if !expression.as_str().is_empty() {
                q.clause_with(
                    " OR id IN (SELECT DISTINCT c.paper_id FROM chunks_fts fts JOIN chunks c ON fts.rowid = c.rowid WHERE chunks_fts MATCH ? LIMIT 300)",
                    expression.as_str(),
                );
            }
            q.clause(")");
        },
        None => {},
    }
}

fn tag_clause_of(n: usize, all: bool) -> (r: String)
    ensures
        r@ == tag_clause(n as nat, all),
{
    let mut s = concat2(
        " AND id IN (SELECT paper_id FROM paper_tags WHERE tag_id IN (",
        placeholders_for(n).as_str(),
    );
    if all {
        s.append(") GROUP BY paper_id HAVING COUNT(DISTINCT tag_id) = ");
        s.append(decimal_of(n as u64).as_str());
        s.append(")");
    } else {
        s.append("))");
    }
    s
}

fn add_group(q: &mut Query, p: &ListPapersParams)
    ensures
        final(q)@ == by_group(old(q)@, *p),
{
    match &p.collection_id {
        Some(id) => q.clause_with(
            " AND id IN (SELECT paper_id FROM paper_collections WHERE collection_id = ?)",
            id.as_str(),
        ),
        None => {},
    }
    let all = match &p.tag_logic {
        Some(s) => same(to_lower(s.as_str()).as_str(), "and"),
        None => false,
    };
    match &p.tag_ids {
        Some(ids) => {
            if ids.len() > 0 {
                let ghost before = q@;
                let ghost tags = texts(ids@);
                q.clause(tag_clause_of(ids.len(), all).as_str());
                let ghost sql = q@.sql;
                let mut i: usize = 0;
                assert(q@.binds =~= before.binds + tags.take(0));
                while i < ids.len()
                    invariant
                        i <= ids.len(),
                        tags == texts(ids@),
                        q@.sql == sql,
                        q@.binds == before.binds + tags.take(i as int),
                    decreases ids.len() - i,
                {
                    q.value(ids[i].as_str());
                    i += 1;
                    assert(q@.binds =~= before.binds + tags.take(i as int));
                }
                assert(tags.take(tags.len() as int) =~= tags);
            }
        },
        None => {},
    }
}

fn add_order(q: &mut Query, p: &ListPapersParams)
    ensures
        final(q)@ == ordered(old(q)@, *p),
{
    let column = match &p.sort_by {
        Some(s) => if same(s.as_str(), "title") || same(s.as_str(), "year") || same(
            s.as_str(),
            "last_read_at",
        ) {
            s.as_str()
        } else {
            "imported_at"
        },
        None => "imported_at",
    };
    proof {
        reveal_strlit("imported_at");
        reveal_strlit("last_read_at");
        assert("imported_at"@[0] != "last_read_at"@[0]);
    }
    if same(column, "last_read_at") {
        q.clause(" AND last_read_at IS NOT NULL");
    }
    let ascending = match &p.sort_order {
        Some(s) => same(s.as_str(), "asc"),
        None => false,
    };
    let mut order = concat3(" ORDER BY ", column, " ");
    order.append(
        if ascending {
            "ASC"
        } else {
            "DESC"
        },
    );
    q.clause(order.as_str());
    match p.limit {
        Some(n) => q.clause(concat2(" LIMIT ", signed_decimal_of(n).as_str()).as_str()),
        None => {},
    }
    match p.offset {
        Some(n) => q.clause(concat2(" OFFSET ", signed_decimal_of(n).as_str()).as_str()),
        None => {},
    }
}

/// The statement that lists the papers which `params` asks for, with its values in the order of
/// their placeholders.
pub fn list_papers(params: &ListPapersParams) -> (r: Query)
    ensures
        r@ == paper_query(*params),
{
    let mut q = Query::new(
        "SELECT id, title, authors, year, journal, doi, url, abstract, keywords, citation_key, bibtex, file_path, file_size, page_count, language, item_type, volume, issue, pages, conference_name, publisher, place, editor, series, edition, isbn, issn, num_pages, archive_location, call_number, rights, deleted_at, is_favorite, read_status, last_read_at, created_at, updated_at, imported_at FROM papers WHERE 1=1",
    );
    add_state(&mut q, params);
    add_content(&mut q, params);
    add_search(&mut q, params);
    add_group(&mut q, params);
    add_order(&mut q, params);
    q
}

proof fn lemma_given_balanced(q: QueryModel, value: Option<Seq<char>>, clause: Seq<char>)
    requires
        balanced(q),
        marks(clause) == 1,
    ensures
        balanced(given(q, value, clause)),
{
    match value {
        Some(v) => lemma_with_clause_balanced(q, clause, seq![v]),
        None => {},
    }
}

proof fn lemma_state_balanced(q: QueryModel, p: ListPapersParams)
    requires
        balanced(q),
    ensures
        balanced(by_state(q, p)),
{
    reveal_strlit(" AND deleted_at IS NOT NULL");
    assert forall|i: int| 0 <= i < " AND deleted_at IS NOT NULL"@.len() implies " AND deleted_at IS NOT NULL"@[i] != '?' by {}
    lemma_no_marks(" AND deleted_at IS NOT NULL"@);
    reveal_strlit(" AND deleted_at IS NULL");
    assert forall|i: int| 0 <= i < " AND deleted_at IS NULL"@.len() implies " AND deleted_at IS NULL"@[i] != '?' by {}
    lemma_no_marks(" AND deleted_at IS NULL"@);
    reveal_strlit(" AND is_favorite = 1");
    assert forall|i: int| 0 <= i < " AND is_favorite = 1"@.len() implies " AND is_favorite = 1"@[i] != '?' by {}
    lemma_no_marks(" AND is_favorite = 1"@);
    reveal_strlit(" AND read_status = ?");
    lemma_one_mark(" AND read_status = ?"@, 19);
    let trash = if p.include_deleted == Some(true) {
        " AND deleted_at IS NOT NULL"@
    } else {
        " AND deleted_at IS NULL"@
    };
    lemma_with_clause_balanced(q, trash, Seq::empty());
    let q = with_clause(q, trash, Seq::empty());
    lemma_with_clause_balanced(q, " AND is_favorite = 1"@, Seq::empty());
    let q = when(q, p.is_favorite == Some(true), " AND is_favorite = 1"@, Seq::empty());
    lemma_given_balanced(q, filled(p.read_status), " AND read_status = ?"@);
}

proof fn lemma_content_balanced(q: QueryModel, p: ListPapersParams)
    requires
        balanced(q),
    ensures
        balanced(by_content(q, p)),
{
    reveal_strlit(" AND year >= ?");
    lemma_one_mark(" AND year >= ?"@, 13);
    reveal_strlit(" AND year <= ?");
    lemma_one_mark(" AND year <= ?"@, 13);
    reveal_strlit(" AND journal LIKE ?");
    lemma_one_mark(" AND journal LIKE ?"@, 18);
    reveal_strlit(" AND id IN (SELECT paper_id FROM related_papers WHERE related_id = ? UNION SELECT related_id FROM related_papers WHERE paper_id = ?)");
    lemma_two_marks(" AND id IN (SELECT paper_id FROM related_papers WHERE related_id = ? UNION SELECT related_id FROM related_papers WHERE paper_id = ?)"@, 67, 130);
    lemma_given_balanced(q, digits(p.year_from), " AND year >= ?"@);
    let q = given(q, digits(p.year_from), " AND year >= ?"@);
    lemma_given_balanced(q, digits(p.year_to), " AND year <= ?"@);
    let q = given(q, digits(p.year_to), " AND year <= ?"@);
    lemma_given_balanced(q, like_opt(filled(p.journal)), " AND journal LIKE ?"@);
    let q = given(q, like_opt(filled(p.journal)), " AND journal LIKE ?"@);
    match filled(p.related_to) {
        Some(id) => lemma_with_clause_balanced(
            q,
            " AND id IN (SELECT paper_id FROM related_papers WHERE related_id = ? UNION SELECT related_id FROM related_papers WHERE paper_id = ?)"@,
            seq![id, id],
        ),
        None => {},
    }
}

proof fn lemma_search_balanced(q: QueryModel, p: ListPapersParams)
    requires
        balanced(q),
    ensures
        balanced(by_search(q, p)),
{
    reveal_strlit(" AND (title LIKE ? OR authors LIKE ?");
    lemma_two_marks(" AND (title LIKE ? OR authors LIKE ?"@, 17, 35);
    reveal_strlit(" OR id IN (SELECT DISTINCT c.paper_id FROM chunks_fts fts JOIN chunks c ON fts.rowid = c.rowid WHERE chunks_fts MATCH ? LIMIT 300)");
    lemma_one_mark(" OR id IN (SELECT DISTINCT c.paper_id FROM chunks_fts fts JOIN chunks c ON fts.rowid = c.rowid WHERE chunks_fts MATCH ? LIMIT 300)"@, 118);
    reveal_strlit(")");
    assert forall|i: int| 0 <= i < ")"@.len() implies ")"@[i] != '?' by {}
    lemma_no_marks(")"@);
    match filled(p.search) {
        Some(s) => {
            lemma_with_clause_balanced(
                q,
                " AND (title LIKE ? OR authors LIKE ?"@,
                seq![like(s), like(s)],
            );
            let q = with_clause(
                q,
                " AND (title LIKE ? OR authors LIKE ?"@,
                seq![like(s), like(s)],
            );
            let e = if search_expression(s).len() > 0 {
                Some(search_expression(s))
            } else {
                None
            };
            let clause =
                " OR id IN (SELECT DISTINCT c.paper_id FROM chunks_fts fts JOIN chunks c ON fts.rowid = c.rowid WHERE chunks_fts MATCH ? LIMIT 300)"@;
            lemma_given_balanced(q, e, clause);
            lemma_with_clause_balanced(given(q, e, clause), ")"@, Seq::empty());
        },
        None => {},
    }
}

/// Digits hold no placeholder.
proof fn lemma_decimal_marks(n: nat)
    ensures
        marks(decimal(n)) == 0,
    decreases n,
{
    if n < 10 {
        lemma_no_marks(decimal(n));
    } else {
        lemma_decimal_marks(n / 10);
        assert(decimal(n).drop_last() =~= decimal(n / 10));
    }
}

proof fn lemma_signed_marks(n: int)
    ensures
        marks(signed_decimal(n)) == 0,
{
    if n < 0 {
        lemma_decimal_marks((-n) as nat);
        lemma_no_marks(seq!['-']);
        lemma_marks_concat(seq!['-'], decimal((-n) as nat));
    } else {
        lemma_decimal_marks(n as nat);
    }
}

/// There are as many placeholders as asked for.
proof fn lemma_placeholders(n: nat)
    ensures
        marks(placeholders(n)) == n,
    decreases n,
{
    let list = Seq::new(n, |i: int| "?"@);
    reveal_strlit("?");
    lemma_one_mark("?"@, 0);
    reveal_strlit(", ");
    assert forall|i: int| 0 <= i < ", "@.len() implies ", "@[i] != '?' by {}
    lemma_no_marks(", "@);
    if n == 0 {
    } else if n == 1 {
    } else {
        lemma_placeholders((n - 1) as nat);
        assert(list.drop_last() =~= Seq::new((n - 1) as nat, |i: int| "?"@));
        let rest = join(list.drop_last(), ", "@);
        lemma_marks_concat(rest + ", "@, "?"@);
        lemma_marks_concat(rest, ", "@);
    }
}

proof fn lemma_group_balanced(q: QueryModel, p: ListPapersParams)
    requires
        balanced(q),
    ensures
        balanced(by_group(q, p)),
{
    reveal_strlit(" AND id IN (SELECT paper_id FROM paper_collections WHERE collection_id = ?)");
    lemma_one_mark(" AND id IN (SELECT paper_id FROM paper_collections WHERE collection_id = ?)"@, 73);
    reveal_strlit(" AND id IN (SELECT paper_id FROM paper_tags WHERE tag_id IN (");
    assert forall|i: int| 0 <= i < " AND id IN (SELECT paper_id FROM paper_tags WHERE tag_id IN ("@.len() implies " AND id IN (SELECT paper_id FROM paper_tags WHERE tag_id IN ("@[i] != '?' by {}
    lemma_no_marks(" AND id IN (SELECT paper_id FROM paper_tags WHERE tag_id IN ("@);
    reveal_strlit(") GROUP BY paper_id HAVING COUNT(DISTINCT tag_id) = ");
    assert forall|i: int| 0 <= i < ") GROUP BY paper_id HAVING COUNT(DISTINCT tag_id) = "@.len() implies ") GROUP BY paper_id HAVING COUNT(DISTINCT tag_id) = "@[i] != '?' by {}
    lemma_no_marks(") GROUP BY paper_id HAVING COUNT(DISTINCT tag_id) = "@);
    reveal_strlit(")");
    assert forall|i: int| 0 <= i < ")"@.len() implies ")"@[i] != '?' by {}
    lemma_no_marks(")"@);
    reveal_strlit("))");
    assert forall|i: int| 0 <= i < "))"@.len() implies "))"@[i] != '?' by {}
    lemma_no_marks("))"@);
    let collection = " AND id IN (SELECT paper_id FROM paper_collections WHERE collection_id = ?)"@;
    lemma_given_balanced(q, opt_text(p.collection_id), collection);
    let q = given(q, opt_text(p.collection_id), collection);
    let n = tags_of(p).len();
    let head = " AND id IN (SELECT paper_id FROM paper_tags WHERE tag_id IN ("@;
    let middle = ") GROUP BY paper_id HAVING COUNT(DISTINCT tag_id) = "@;
    lemma_placeholders(n);
    lemma_decimal_marks(n);
    lemma_marks_concat(head, placeholders(n));
    lemma_marks_concat(head + placeholders(n), middle);
    lemma_marks_concat(head + placeholders(n) + middle, decimal(n));
    lemma_marks_concat(head + placeholders(n) + middle + decimal(n), ")"@);
    lemma_marks_concat(head + placeholders(n), "))"@);
    lemma_with_clause_balanced(q, tag_clause(n, all_tags(p)), tags_of(p));
}

proof fn lemma_order_balanced(q: QueryModel, p: ListPapersParams)
    requires
        balanced(q),
    ensures
        balanced(ordered(q, p)),
{
    reveal_strlit(" AND last_read_at IS NOT NULL");
    assert forall|i: int| 0 <= i < " AND last_read_at IS NOT NULL"@.len() implies " AND last_read_at IS NOT NULL"@[i] != '?' by {}
    lemma_no_marks(" AND last_read_at IS NOT NULL"@);
    reveal_strlit(" ORDER BY ");
    assert forall|i: int| 0 <= i < " ORDER BY "@.len() implies " ORDER BY "@[i] != '?' by {}
    lemma_no_marks(" ORDER BY "@);
    reveal_strlit(" ");
    assert forall|i: int| 0 <= i < " "@.len() implies " "@[i] != '?' by {}
    lemma_no_marks(" "@);
    reveal_strlit("ASC");
    assert forall|i: int| 0 <= i < "ASC"@.len() implies "ASC"@[i] != '?' by {}
    lemma_no_marks("ASC"@);
    reveal_strlit("DESC");
    assert forall|i: int| 0 <= i < "DESC"@.len() implies "DESC"@[i] != '?' by {}
    lemma_no_marks("DESC"@);
    reveal_strlit("title");
    assert forall|i: int| 0 <= i < "title"@.len() implies "title"@[i] != '?' by {}
    lemma_no_marks("title"@);
    reveal_strlit("year");
    assert forall|i: int| 0 <= i < "year"@.len() implies "year"@[i] != '?' by {}
    lemma_no_marks("year"@);
    reveal_strlit("last_read_at");
    assert forall|i: int| 0 <= i < "last_read_at"@.len() implies "last_read_at"@[i] != '?' by {}
    lemma_no_marks("last_read_at"@);
    reveal_strlit("imported_at");
    assert forall|i: int| 0 <= i < "imported_at"@.len() implies "imported_at"@[i] != '?' by {}
    lemma_no_marks("imported_at"@);
    reveal_strlit(" LIMIT ");
    assert forall|i: int| 0 <= i < " LIMIT "@.len() implies " LIMIT "@[i] != '?' by {}
    lemma_no_marks(" LIMIT "@);
    reveal_strlit(" OFFSET ");
    assert forall|i: int| 0 <= i < " OFFSET "@.len() implies " OFFSET "@[i] != '?' by {}
    lemma_no_marks(" OFFSET "@);
    lemma_with_clause_balanced(q, " AND last_read_at IS NOT NULL"@, Seq::empty());
    let q = when(
        q,
        sort_column(p) == "last_read_at"@,
        " AND last_read_at IS NOT NULL"@,
        Seq::empty(),
    );
    let order = " ORDER BY "@ + sort_column(p) + " "@ + sort_direction(p);
    lemma_marks_concat(" ORDER BY "@, sort_column(p));
    lemma_marks_concat(" ORDER BY "@ + sort_column(p), " "@);
    lemma_marks_concat(" ORDER BY "@ + sort_column(p) + " "@, sort_direction(p));
    lemma_with_clause_balanced(q, order, Seq::empty());
    let q = with_clause(q, order, Seq::empty());
    let q = match p.limit {
        Some(n) => {
            lemma_signed_marks(n as int);
            lemma_marks_concat(" LIMIT "@, signed_decimal(n as int));
            lemma_with_clause_balanced(q, " LIMIT "@ + signed_decimal(n as int), Seq::empty());
            with_clause(q, " LIMIT "@ + signed_decimal(n as int), Seq::empty())
        },
        None => q,
    };
    match p.offset {
        Some(n) => {
            lemma_signed_marks(n as int);
            lemma_marks_concat(" OFFSET "@, signed_decimal(n as int));
            lemma_with_clause_balanced(q, " OFFSET "@ + signed_decimal(n as int), Seq::empty());
        },
        None => {},
    }
}

/// Whatever is asked for, the statement has exactly one value for each placeholder.
pub proof fn law_query_balanced(p: ListPapersParams)
    ensures
        balanced(paper_query(p)),
{
    reveal_strlit("SELECT id, title, authors, year, journal, doi, url, abstract, keywords, citation_key, bibtex, file_path, file_size, page_count, language, item_type, volume, issue, pages, conference_name, publisher, place, editor, series, edition, isbn, issn, num_pages, archive_location, call_number, rights, deleted_at, is_favorite, read_status, last_read_at, created_at, updated_at, imported_at FROM papers WHERE 1=1");
    assert forall|i: int| 0 <= i < "SELECT id, title, authors, year, journal, doi, url, abstract, keywords, citation_key, bibtex, file_path, file_size, page_count, language, item_type, volume, issue, pages, conference_name, publisher, place, editor, series, edition, isbn, issn, num_pages, archive_location, call_number, rights, deleted_at, is_favorite, read_status, last_read_at, created_at, updated_at, imported_at FROM papers WHERE 1=1"@.len() implies "SELECT id, title, authors, year, journal, doi, url, abstract, keywords, citation_key, bibtex, file_path, file_size, page_count, language, item_type, volume, issue, pages, conference_name, publisher, place, editor, series, edition, isbn, issn, num_pages, archive_location, call_number, rights, deleted_at, is_favorite, read_status, last_read_at, created_at, updated_at, imported_at FROM papers WHERE 1=1"@[i] != '?' by {}
    lemma_no_marks("SELECT id, title, authors, year, journal, doi, url, abstract, keywords, citation_key, bibtex, file_path, file_size, page_count, language, item_type, volume, issue, pages, conference_name, publisher, place, editor, series, edition, isbn, issn, num_pages, archive_location, call_number, rights, deleted_at, is_favorite, read_status, last_read_at, created_at, updated_at, imported_at FROM papers WHERE 1=1"@);
    let q = all_papers();
    lemma_state_balanced(q, p);
    let q = by_state(q, p);
    lemma_content_balanced(q, p);
    let q = by_content(q, p);
    lemma_search_balanced(q, p);
    let q = by_search(q, p);
    lemma_group_balanced(q, p);
    let q = by_group(q, p);
    lemma_order_balanced(q, p);
}

} // verus!
