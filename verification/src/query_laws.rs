//! Whatever a listing of papers is narrowed by stands in its statement, with the values that it asks for.
use vstd::prelude::*;
use vstd::string::*;

use crate::models::ListPapersParams;
use crate::paper_query::{
    all_papers, all_tags, by_content, by_group, by_search, by_state, like, ordered, paper_query,
    search_expression, tag_clause,
};
use crate::sql::{with_clause, QueryModel};
use crate::text::{opt_text, signed_decimal, texts};

verus! {

/// Whether a statement begins with another, and its values with those of the other.
pub open spec fn grows(a: QueryModel, b: QueryModel) -> bool {
    &&& a.sql.len() <= b.sql.len() && b.sql.take(a.sql.len() as int) == a.sql
    &&& a.binds.len() <= b.binds.len() && b.binds.take(a.binds.len() as int) == a.binds
}

/// A statement with a clause and its values behind it.
pub open spec fn behind(q: QueryModel, clause: Seq<char>, binds: Seq<Seq<char>>) -> QueryModel {
    QueryModel { sql: q.sql + clause, binds: q.binds + binds }
}

/// Whether a clause stands in a statement, and its values among those of the statement, with as many of
/// them before as stood there before the clause was added.
pub open spec fn has_clause(q: QueryModel, clause: Seq<char>, binds: Seq<Seq<char>>) -> bool {
    exists|before: QueryModel| #[trigger] grows(behind(before, clause, binds), q)
}

proof fn lemma_grows(a: QueryModel, b: QueryModel, c: QueryModel)
    requires
        grows(a, b),
        grows(b, c),
    ensures
        grows(a, c),
{
    assert(c.sql.take(b.sql.len() as int).take(a.sql.len() as int) =~= c.sql.take(
        a.sql.len() as int,
    ));
    assert(c.binds.take(b.binds.len() as int).take(a.binds.len() as int) =~= c.binds.take(
        a.binds.len() as int,
    ));
}

proof fn lemma_clause(q: QueryModel, clause: Seq<char>, binds: Seq<Seq<char>>)
    ensures
        grows(q, with_clause(q, clause, binds)),
        with_clause(q, clause, binds) == behind(q, clause, binds),
        grows(q, q),
        has_clause(with_clause(q, clause, binds), clause, binds),
{
    let r = behind(q, clause, binds);
    assert(r.sql.take(q.sql.len() as int) =~= q.sql);
    assert(r.binds.take(q.binds.len() as int) =~= q.binds);
    assert(q.sql.take(q.sql.len() as int) =~= q.sql);
    assert(q.binds.take(q.binds.len() as int) =~= q.binds);
    assert(with_clause(q, clause, binds) == r);
    assert(r.sql.take(r.sql.len() as int) =~= r.sql);
    assert(r.binds.take(r.binds.len() as int) =~= r.binds);
    assert(grows(behind(q, clause, binds), r));
}

proof fn lemma_kept(a: QueryModel, b: QueryModel, clause: Seq<char>, binds: Seq<Seq<char>>)
    requires
        has_clause(a, clause, binds),
        grows(a, b),
    ensures
        has_clause(b, clause, binds),
{
    let before = choose|before: QueryModel| #[trigger] grows(behind(before, clause, binds), a);
    lemma_grows(behind(before, clause, binds), a, b);
}

proof fn lemma_same(q: QueryModel)
    ensures
        grows(q, q),
{
    assert(q.sql.take(q.sql.len() as int) =~= q.sql);
    assert(q.binds.take(q.binds.len() as int) =~= q.binds);
}

// ---------------------------------------------------------------------------------------------
// Stages
// ---------------------------------------------------------------------------------------------
proof fn lemma_state(q: QueryModel, p: ListPapersParams)
    ensures
        grows(q, by_state(q, p)),
        p.include_deleted == Some(true) ==> has_clause(
            by_state(q, p),
            " AND deleted_at IS NOT NULL"@,
            Seq::empty(),
        ),
        p.include_deleted != Some(true) ==> has_clause(
            by_state(q, p),
            " AND deleted_at IS NULL"@,
            Seq::empty(),
        ),
        p.is_favorite == Some(true) ==> has_clause(
            by_state(q, p),
            " AND is_favorite = 1"@,
            Seq::empty(),
        ),
        p.read_status is Some && p.read_status->0@.len() > 0 ==> has_clause(
            by_state(q, p),
            " AND read_status = ?"@,
            seq![p.read_status->0@],
        ),
{
    let c = if p.include_deleted == Some(true) {
        " AND deleted_at IS NOT NULL"@
    } else {
        " AND deleted_at IS NULL"@
    };
    let none = Seq::<Seq<char>>::empty();
    lemma_clause(q, c, none);
    let q1 = with_clause(q, c, none);
    let f = " AND is_favorite = 1"@;
    lemma_clause(q1, f, none);
    let q2 = if p.is_favorite == Some(true) {
        with_clause(q1, f, none)
    } else {
        q1
    };
    lemma_same(q1);
    lemma_kept(q1, q2, c, none);
    lemma_grows(q, q1, q2);
    lemma_same(q2);
    let r = by_state(q, p);
    if p.read_status is Some && p.read_status->0@.len() > 0 {
        lemma_clause(q2, " AND read_status = ?"@, seq![p.read_status->0@]);
    }
    assert(grows(q2, r));
    lemma_kept(q2, r, c, none);
    if p.is_favorite == Some(true) {
        lemma_kept(q2, r, f, none);
    }
    lemma_grows(q, q2, r);
}

proof fn lemma_given(q: QueryModel, value: Option<Seq<char>>, clause: Seq<char>)
    ensures
        grows(q, crate::paper_query::given(q, value, clause)),
        value is Some ==> has_clause(
            crate::paper_query::given(q, value, clause),
            clause,
            seq![value->0],
        ),
{
    lemma_same(q);
    if value is Some {
        lemma_clause(q, clause, seq![value->0]);
    }
}

proof fn lemma_content(q: QueryModel, p: ListPapersParams)
    ensures
        grows(q, by_content(q, p)),
        p.year_from is Some ==> has_clause(
            by_content(q, p),
            " AND year >= ?"@,
            seq![signed_decimal(p.year_from->0 as int)],
        ),
        p.year_to is Some ==> has_clause(
            by_content(q, p),
            " AND year <= ?"@,
            seq![signed_decimal(p.year_to->0 as int)],
        ),
        p.journal is Some && p.journal->0@.len() > 0 ==> has_clause(
            by_content(q, p),
            " AND journal LIKE ?"@,
            seq!["%"@ + p.journal->0@ + "%"@],
        ),
        p.related_to is Some && p.related_to->0@.len() > 0 ==> has_clause(
            by_content(q, p),
            " AND id IN (SELECT paper_id FROM related_papers WHERE related_id = ? UNION SELECT related_id FROM related_papers WHERE paper_id = ?)"@,
            seq![p.related_to->0@, p.related_to->0@],
        ),
{
    let a = crate::paper_query::digits(p.year_from);
    let b = crate::paper_query::digits(p.year_to);
    let c = crate::paper_query::like_opt(crate::paper_query::filled(p.journal));
    lemma_given(q, a, " AND year >= ?"@);
    let q1 = crate::paper_query::given(q, a, " AND year >= ?"@);
    lemma_given(q1, b, " AND year <= ?"@);
    let q2 = crate::paper_query::given(q1, b, " AND year <= ?"@);
    lemma_given(q2, c, " AND journal LIKE ?"@);
    let q3 = crate::paper_query::given(q2, c, " AND journal LIKE ?"@);
    lemma_grows(q, q1, q2);
    lemma_grows(q, q2, q3);
    lemma_grows(q1, q2, q3);
    let r = by_content(q, p);
    lemma_same(q3);
    if p.related_to is Some && p.related_to->0@.len() > 0 {
        lemma_clause(
            q3,
            " AND id IN (SELECT paper_id FROM related_papers WHERE related_id = ? UNION SELECT related_id FROM related_papers WHERE paper_id = ?)"@,
            seq![p.related_to->0@, p.related_to->0@],
        );
    }
    assert(grows(q3, r));
    lemma_grows(q, q3, r);
    lemma_grows(q1, q3, r);
    lemma_grows(q2, q3, r);
    if a is Some {
        lemma_kept(q1, r, " AND year >= ?"@, seq![a->0]);
    }
    if b is Some {
        lemma_kept(q2, r, " AND year <= ?"@, seq![b->0]);
    }
    if c is Some {
        lemma_kept(q3, r, " AND journal LIKE ?"@, seq![c->0]);
    }
}

proof fn lemma_search(q: QueryModel, p: ListPapersParams)
    ensures
        grows(q, by_search(q, p)),
        p.search is Some && p.search->0@.len() > 0 ==> has_clause(
            by_search(q, p),
            " AND (title LIKE ? OR authors LIKE ?"@,
            seq!["%"@ + p.search->0@ + "%"@, "%"@ + p.search->0@ + "%"@],
        ),
        p.search is Some && p.search->0@.len() > 0 && search_expression(p.search->0@).len() > 0
            ==> has_clause(
            by_search(q, p),
            " OR id IN (SELECT DISTINCT c.paper_id FROM chunks_fts fts JOIN chunks c ON fts.rowid = c.rowid WHERE chunks_fts MATCH ? LIMIT 300)"@,
            seq![search_expression(p.search->0@)],
        ),
{
    lemma_same(q);
    if p.search is Some && p.search->0@.len() > 0 {
        let s = p.search->0@;
        let c = " AND (title LIKE ? OR authors LIKE ?"@;
        let binds = seq![like(s), like(s)];
        lemma_clause(q, c, binds);
        let q1 = with_clause(q, c, binds);
        let e = if search_expression(s).len() > 0 {
            Some(search_expression(s))
        } else {
            None
        };
        let f =
            " OR id IN (SELECT DISTINCT c.paper_id FROM chunks_fts fts JOIN chunks c ON fts.rowid = c.rowid WHERE chunks_fts MATCH ? LIMIT 300)"@;
        lemma_given(q1, e, f);
        let q2 = crate::paper_query::given(q1, e, f);
        let none = Seq::<Seq<char>>::empty();
        lemma_clause(q2, ")"@, none);
        let r = with_clause(q2, ")"@, none);
        lemma_grows(q1, q2, r);
        lemma_grows(q, q1, r);
        lemma_kept(q1, r, c, binds);
        if e is Some {
            lemma_kept(q2, r, f, seq![e->0]);
        }
    }
}

proof fn lemma_group(q: QueryModel, p: ListPapersParams)
    ensures
        grows(q, by_group(q, p)),
        p.collection_id is Some ==> has_clause(
            by_group(q, p),
            " AND id IN (SELECT paper_id FROM paper_collections WHERE collection_id = ?)"@,
            seq![p.collection_id->0@],
        ),
        p.tag_ids is Some && p.tag_ids->0@.len() > 0 ==> has_clause(
            by_group(q, p),
            tag_clause(p.tag_ids->0@.len(), all_tags(p)),
            texts(p.tag_ids->0@),
        ),
{
    let c = " AND id IN (SELECT paper_id FROM paper_collections WHERE collection_id = ?)"@;
    lemma_given(q, opt_text(p.collection_id), c);
    let q1 = crate::paper_query::given(q, opt_text(p.collection_id), c);
    let r = by_group(q, p);
    lemma_same(q1);
    if p.tag_ids is Some && p.tag_ids->0@.len() > 0 {
        lemma_clause(
            q1,
            tag_clause(p.tag_ids->0@.len(), all_tags(p)),
            texts(p.tag_ids->0@),
        );
    }
    assert(grows(q1, r));
    lemma_grows(q, q1, r);
    if p.collection_id is Some {
        lemma_kept(q1, r, c, seq![p.collection_id->0@]);
    }
}

proof fn lemma_ordered(q: QueryModel, p: ListPapersParams)
    ensures
        grows(q, ordered(q, p)),
        p.limit is Some ==> has_clause(
            ordered(q, p),
            " LIMIT "@ + signed_decimal(p.limit->0 as int),
            Seq::empty(),
        ),
        p.offset is Some ==> has_clause(
            ordered(q, p),
            " OFFSET "@ + signed_decimal(p.offset->0 as int),
            Seq::empty(),
        ),
        has_clause(
            ordered(q, p),
            " ORDER BY "@ + crate::paper_query::sort_column(p) + " "@
                + crate::paper_query::sort_direction(p),
            Seq::empty(),
        ),
{
    let none = Seq::<Seq<char>>::empty();
    let read = " AND last_read_at IS NOT NULL"@;
    lemma_same(q);
    lemma_clause(q, read, none);
    let q1 = crate::paper_query::when(
        q,
        crate::paper_query::sort_column(p) == "last_read_at"@,
        read,
        none,
    );
    assert(grows(q, q1));
    let c = " ORDER BY "@ + crate::paper_query::sort_column(p) + " "@
        + crate::paper_query::sort_direction(p);
    lemma_clause(q1, c, none);
    let q2 = with_clause(q1, c, none);
    lemma_same(q2);
    let q3 = match p.limit {
        Some(n) => with_clause(q2, " LIMIT "@ + signed_decimal(n as int), none),
        None => q2,
    };
    if p.limit is Some {
        lemma_clause(q2, " LIMIT "@ + signed_decimal(p.limit->0 as int), none);
    }
    lemma_same(q3);
    let r = ordered(q, p);
    if p.offset is Some {
        lemma_clause(q3, " OFFSET "@ + signed_decimal(p.offset->0 as int), none);
    }
    assert(grows(q3, r));
    lemma_grows(q2, q3, r);
    lemma_grows(q1, q2, r);
    lemma_grows(q, q1, r);
    lemma_kept(q2, r, c, none);
    if p.limit is Some {
        lemma_kept(q3, r, " LIMIT "@ + signed_decimal(p.limit->0 as int), none);
    }
}

// ---------------------------------------------------------------------------------------------
// The statement
// ---------------------------------------------------------------------------------------------
/// Whatever is asked for narrows the listing: the statement starts as the one that lists all papers, and
/// has the clause of each condition that is given, with its values. Papers in the trash are listed only
/// where they are asked for.
pub proof fn law_every_condition_counts(p: ListPapersParams)
    ensures
        ({
            let q = paper_query(p);
            let none = Seq::<Seq<char>>::empty();
            &&& grows(all_papers(), q)
            &&& p.include_deleted == Some(true) ==> has_clause(
                q,
                " AND deleted_at IS NOT NULL"@,
                none,
            )
            &&& p.include_deleted != Some(true) ==> has_clause(q, " AND deleted_at IS NULL"@, none)
            &&& p.is_favorite == Some(true) ==> has_clause(q, " AND is_favorite = 1"@, none)
            &&& p.read_status is Some && p.read_status->0@.len() > 0 ==> has_clause(
                q,
                " AND read_status = ?"@,
                seq![p.read_status->0@],
            )
            &&& p.year_from is Some ==> has_clause(
                q,
                " AND year >= ?"@,
                seq![signed_decimal(p.year_from->0 as int)],
            )
            &&& p.year_to is Some ==> has_clause(
                q,
                " AND year <= ?"@,
                seq![signed_decimal(p.year_to->0 as int)],
            )
            &&& p.journal is Some && p.journal->0@.len() > 0 ==> has_clause(
                q,
                " AND journal LIKE ?"@,
                seq!["%"@ + p.journal->0@ + "%"@],
            )
            &&& p.related_to is Some && p.related_to->0@.len() > 0 ==> has_clause(
                q,
                " AND id IN (SELECT paper_id FROM related_papers WHERE related_id = ? UNION SELECT related_id FROM related_papers WHERE paper_id = ?)"@,
                seq![p.related_to->0@, p.related_to->0@],
            )
            &&& p.search is Some && p.search->0@.len() > 0 ==> has_clause(
                q,
                " AND (title LIKE ? OR authors LIKE ?"@,
                seq!["%"@ + p.search->0@ + "%"@, "%"@ + p.search->0@ + "%"@],
            )
            &&& p.search is Some && p.search->0@.len() > 0 && search_expression(
                p.search->0@,
            ).len() > 0 ==> has_clause(
                q,
                " OR id IN (SELECT DISTINCT c.paper_id FROM chunks_fts fts JOIN chunks c ON fts.rowid = c.rowid WHERE chunks_fts MATCH ? LIMIT 300)"@,
                seq![search_expression(p.search->0@)],
            )
            &&& p.collection_id is Some ==> has_clause(
                q,
                " AND id IN (SELECT paper_id FROM paper_collections WHERE collection_id = ?)"@,
                seq![p.collection_id->0@],
            )
            &&& p.tag_ids is Some && p.tag_ids->0@.len() > 0 ==> has_clause(
                q,
                tag_clause(p.tag_ids->0@.len(), all_tags(p)),
                texts(p.tag_ids->0@),
            )
            &&& p.limit is Some ==> has_clause(
                q,
                " LIMIT "@ + signed_decimal(p.limit->0 as int),
                none,
            )
            &&& p.offset is Some ==> has_clause(
                q,
                " OFFSET "@ + signed_decimal(p.offset->0 as int),
                none,
            )
        }),
{
    let none = Seq::<Seq<char>>::empty();
    let q0 = all_papers();
    let q1 = by_state(q0, p);
    let q2 = by_content(q1, p);
    let q3 = by_search(q2, p);
    let q4 = by_group(q3, p);
    let q = ordered(q4, p);
    lemma_state(q0, p);
    lemma_content(q1, p);
    lemma_search(q2, p);
    lemma_group(q3, p);
    lemma_ordered(q4, p);
    lemma_grows(q3, q4, q);
    lemma_grows(q2, q3, q);
    lemma_grows(q1, q2, q);
    lemma_grows(q0, q1, q);
    if p.include_deleted == Some(true) {
        lemma_kept(q1, q, " AND deleted_at IS NOT NULL"@, none);
    } else {
        lemma_kept(q1, q, " AND deleted_at IS NULL"@, none);
    }
    if p.is_favorite == Some(true) {
        lemma_kept(q1, q, " AND is_favorite = 1"@, none);
    }
    if p.read_status is Some && p.read_status->0@.len() > 0 {
        lemma_kept(q1, q, " AND read_status = ?"@, seq![p.read_status->0@]);
    }
    if p.year_from is Some {
        lemma_kept(q2, q, " AND year >= ?"@, seq![signed_decimal(p.year_from->0 as int)]);
    }
    if p.year_to is Some {
        lemma_kept(q2, q, " AND year <= ?"@, seq![signed_decimal(p.year_to->0 as int)]);
    }
    if p.journal is Some && p.journal->0@.len() > 0 {
        lemma_kept(q2, q, " AND journal LIKE ?"@, seq!["%"@ + p.journal->0@ + "%"@]);
    }
    if p.related_to is Some && p.related_to->0@.len() > 0 {
        lemma_kept(
            q2,
            q,
            " AND id IN (SELECT paper_id FROM related_papers WHERE related_id = ? UNION SELECT related_id FROM related_papers WHERE paper_id = ?)"@,
            seq![p.related_to->0@, p.related_to->0@],
        );
    }
    if p.search is Some && p.search->0@.len() > 0 {
        lemma_kept(
            q3,
            q,
            " AND (title LIKE ? OR authors LIKE ?"@,
            seq!["%"@ + p.search->0@ + "%"@, "%"@ + p.search->0@ + "%"@],
        );
        if search_expression(p.search->0@).len() > 0 {
            lemma_kept(
                q3,
                q,
                " OR id IN (SELECT DISTINCT c.paper_id FROM chunks_fts fts JOIN chunks c ON fts.rowid = c.rowid WHERE chunks_fts MATCH ? LIMIT 300)"@,
                seq![search_expression(p.search->0@)],
            );
        }
    }
    if p.collection_id is Some {
        lemma_kept(
            q4,
            q,
            " AND id IN (SELECT paper_id FROM paper_collections WHERE collection_id = ?)"@,
            seq![p.collection_id->0@],
        );
    }
    if p.tag_ids is Some && p.tag_ids->0@.len() > 0 {
        lemma_kept(
            q4,
            q,
            tag_clause(p.tag_ids->0@.len(), all_tags(p)),
            texts(p.tag_ids->0@),
        );
    }
}

} // verus!
