//! Searching in knowledge and in notes: the statements that look for words.
use vstd::prelude::*;
use vstd::string::*;

use crate::sql::{with_clause, Query, QueryModel};
use crate::text::{
    concat2, concat3, decimal, decimal_of, join, join_with, signed_decimal, signed_decimal_of,
    strip_both, stripped_both, texts, trim, trimmed, words, words_of,
};

verus! {

/// A pattern that matches a text anywhere.
pub open spec fn anywhere(s: Seq<char>) -> Seq<char> {
    "%"@ + s + "%"@
}

/// Words as beginnings of words.
pub open spec fn beginnings(list: Seq<Seq<char>>) -> Seq<Seq<char>> {
    Seq::new(list.len(), |i: int| list[i] + "*"@)
}

/// What the index is asked for: any of the words, each as the beginning of a word.
pub open spec fn any_word(query: Seq<char>) -> Seq<char> {
    join(beginnings(words(query)), " OR "@)
}

fn any_word_of(query: &str) -> (r: String)
    ensures
        r@ == any_word(query@),
{
    let list = words_of(query);
    let mut out: Vec<String> = Vec::new();
    let mut i: usize = 0;
    while i < list.len()
        invariant
            i <= list.len(),
            out.len() == i,
            forall|k: int| 0 <= k < i ==> (#[trigger] out@[k])@ == list@[k]@ + "*"@,
        decreases list.len() - i,
    {
        out.push(concat2(list[i].as_str(), "*"));
        i += 1;
    }
    assert(texts(out@) =~= beginnings(texts(list@)));
    join_with(&out, " OR ")
}

/// The statement that looks for knowledge: in one domain by title and content, in all of them by the
/// index too.
pub open spec fn knowledge_query(
    query: Seq<char>,
    domain: Option<Seq<char>>,
    limit: nat,
) -> QueryModel {
    let head = "SELECT ki.id, ki.domain_id, kd.name, ki.title, COALESCE(ki.content,''), ki.content_type FROM knowledge_items ki JOIN knowledge_domains kd ON ki.domain_id = kd.id"@;
    let tail = " ORDER BY ki.updated_at DESC LIMIT "@ + decimal(limit);
    match domain {
        Some(d) => QueryModel {
            sql: head
                + " WHERE ki.domain_id = ? AND (ki.title LIKE ? OR ki.content LIKE ?)"@ + tail,
            binds: seq![d, anywhere(query), anywhere(query)],
        },
        None => QueryModel {
            sql: head
                + " LEFT JOIN knowledge_items_fts fts ON ki.rowid = fts.rowid WHERE knowledge_items_fts MATCH ? OR ki.title LIKE ? OR ki.content LIKE ?"@
                + tail,
            binds: seq![any_word(query), anywhere(query), anywhere(query)],
        },
    }
}

/// The statement that looks for knowledge.
pub fn search_knowledge(query: &str, domain_id: Option<&str>, limit: usize) -> (r: Query)
    ensures
        r@ == knowledge_query(
            query@,
            match domain_id {
                Some(d) => Some(d@),
                None => None,
            },
            limit as nat,
        ),
{
    let mut sql = "SELECT ki.id, ki.domain_id, kd.name, ki.title, COALESCE(ki.content,''), ki.content_type FROM knowledge_items ki JOIN knowledge_domains kd ON ki.domain_id = kd.id".to_owned();
    let mut binds: Vec<String> = Vec::new();
    match domain_id {
        Some(d) => {
            sql.append(" WHERE ki.domain_id = ? AND (ki.title LIKE ? OR ki.content LIKE ?)");
            binds.push(d.to_owned());
        },
        None => {
            sql.append(
                " LEFT JOIN knowledge_items_fts fts ON ki.rowid = fts.rowid WHERE knowledge_items_fts MATCH ? OR ki.title LIKE ? OR ki.content LIKE ?",
            );
            binds.push(any_word_of(query));
        },
    }
    binds.push(concat3("%", query, "%"));
    binds.push(concat3("%", query, "%"));
    sql.append(concat2(" ORDER BY ki.updated_at DESC LIMIT ", decimal_of(limit as u64).as_str()).as_str());
    let r = Query { sql, binds };
    proof {
        let want = knowledge_query(
            query@,
            match domain_id {
                Some(d) => Some(d@),
                None => None,
            },
            limit as nat,
        );
        assert(texts(r.binds@) =~= want.binds);
        assert(r.sql@ =~= want.sql);
    }
    r
}

// ---------------------------------------------------------------------------------------------
// Notes
// ---------------------------------------------------------------------------------------------
/// The statement that lists notes: by paper, by words and by folder. Without a folder and without a
/// paper, only those that are in no folder.
pub open spec fn notes_query(
    paper: Option<Seq<char>>,
    search: Option<Seq<char>>,
    parent: Option<Seq<char>>,
) -> QueryModel {
    let q0 = QueryModel { sql: "SELECT * FROM notes WHERE 1=1"@, binds: Seq::empty() };
    let q1 = match paper {
        Some(p) => with_clause(q0, " AND paper_id = ?"@, seq![p]),
        None => q0,
    };
    let q2 = match search {
        Some(s) => with_clause(
            q1,
            " AND (title LIKE ? OR content_plain LIKE ?)"@,
            seq![anywhere(s), anywhere(s)],
        ),
        None => q1,
    };
    let q3 = match parent {
        Some(p) => with_clause(q2, " AND parent_id = ?"@, seq![p]),
        None => if paper is None {
            with_clause(q2, " AND parent_id IS NULL"@, Seq::empty())
        } else {
            q2
        },
    };
    with_clause(q3, " ORDER BY updated_at DESC LIMIT 50"@, Seq::empty())
}

/// What an optional text says.
pub open spec fn opt_str(o: Option<&str>) -> Option<Seq<char>> {
    match o {
        Some(s) => Some(s@),
        None => None,
    }
}

/// The statement that lists notes.
pub fn list_notes(paper_id: Option<&str>, search: Option<&str>, parent_id: Option<&str>) -> (r:
    Query)
    ensures
        r@ == notes_query(opt_str(paper_id), opt_str(search), opt_str(parent_id)),
{
    let mut q = Query::new("SELECT * FROM notes WHERE 1=1");
    if let Some(p) = paper_id {
        q.clause_with(" AND paper_id = ?", p);
    }
    if let Some(s) = search {
        let p = concat3("%", s, "%");
        let ghost before = q@;
        q.clause_with(" AND (title LIKE ? OR content_plain LIKE ?)", p.as_str());
        q.value(p.as_str());
        assert(q@.binds =~= before.binds + seq![p@, p@]);
    }
    match parent_id {
        Some(p) => {
            q.clause_with(" AND parent_id = ?", p);
        },
        None => {
            if paper_id.is_none() {
                q.clause(" AND parent_id IS NULL");
            }
        },
    }
    q.clause(" ORDER BY updated_at DESC LIMIT 50");
    q
}

/// Words as quoted beginnings of words.
pub open spec fn quoted_beginnings(list: Seq<Seq<char>>) -> Seq<Seq<char>> {
    Seq::new(list.len(), |i: int| "\""@ + strip_both(list[i], '"') + "\"*"@)
}

/// What the index of notes is asked for: all words, each as the beginning of a word.
pub open spec fn all_words(query: Seq<char>) -> Seq<char> {
    join(quoted_beginnings(words(query)), " "@)
}

fn all_words_of(query: &str) -> (r: String)
    ensures
        r@ == all_words(query@),
{
    let list = words_of(query);
    let mut out: Vec<String> = Vec::new();
    let mut i: usize = 0;
    while i < list.len()
        invariant
            i <= list.len(),
            out.len() == i,
            forall|k: int|
                0 <= k < i ==> (#[trigger] out@[k])@ == "\""@ + strip_both(list@[k]@, '"')
                    + "\"*"@,
        decreases list.len() - i,
    {
        out.push(concat3("\"", stripped_both(list[i].as_str(), '"').as_str(), "\"*"));
        i += 1;
    }
    assert(texts(out@) =~= quoted_beginnings(texts(list@)));
    join_with(&out, " ")
}

/// The statements that look for notes: one that asks the index, and one for when the index cannot
/// make sense of the words. A blank search asks for nothing.
pub fn search_notes(query: &str, limit: i64, vault_id: &str) -> (r: Option<(Query, Query)>)
    ensures
        match r {
            None => trim(query@).len() == 0,
            Some((by_index, by_pattern)) => trim(query@).len() > 0 && by_index@ == (QueryModel {
                sql: "SELECT n.id, n.title, n.content, n.updated_at FROM notes_fts f JOIN notes n ON n.rowid = f.rowid WHERE notes_fts MATCH ? AND n.vault_id = ? ORDER BY bm25(notes_fts) LIMIT "@
                    + signed_decimal(limit as int),
                binds: seq![all_words(query@), vault_id@],
            }) && by_pattern@ == (QueryModel {
                sql: "SELECT id, title, content, updated_at FROM notes WHERE vault_id = ? AND (title LIKE ? OR content_plain LIKE ?) ORDER BY updated_at DESC LIMIT "@
                    + signed_decimal(limit as int),
                binds: seq![vault_id@, anywhere(query@), anywhere(query@)],
            }),
        },
{
    if trimmed(query).as_str().is_empty() {
        return None;
    }
    let n = signed_decimal_of(limit);
    let a = Query {
        sql: concat2(
            "SELECT n.id, n.title, n.content, n.updated_at FROM notes_fts f JOIN notes n ON n.rowid = f.rowid WHERE notes_fts MATCH ? AND n.vault_id = ? ORDER BY bm25(notes_fts) LIMIT ",
            n.as_str(),
        ),
        binds: vec![all_words_of(query), vault_id.to_owned()],
    };
    let b = Query {
        sql: concat2(
            "SELECT id, title, content, updated_at FROM notes WHERE vault_id = ? AND (title LIKE ? OR content_plain LIKE ?) ORDER BY updated_at DESC LIMIT ",
            n.as_str(),
        ),
        binds: vec![vault_id.to_owned(), concat3("%", query, "%"), concat3("%", query, "%")],
    };
    assert(texts(a.binds@) =~= seq![all_words(query@), vault_id@]);
    assert(texts(b.binds@) =~= seq![vault_id@, anywhere(query@), anywhere(query@)]);
    Some((a, b))
}

} // verus!
