//! Statements that are put together from clauses, together with the values for their placeholders.
use vstd::prelude::*;
use vstd::string::*;

use crate::text::{lemma_texts_push, texts};

verus! {

/// A statement and the values for its placeholders, in their order.
pub struct Query {
    pub sql: String,
    pub binds: Vec<String>,
}

/// What a `Query` says.
pub struct QueryModel {
    pub sql: Seq<char>,
    pub binds: Seq<Seq<char>>,
}

impl View for Query {
    type V = QueryModel;

    open spec fn view(&self) -> QueryModel {
        QueryModel { sql: self.sql@, binds: texts(self.binds@) }
    }
}

/// A statement with a clause and its values behind it.
pub open spec fn with_clause(q: QueryModel, clause: Seq<char>, binds: Seq<Seq<char>>) -> QueryModel {
    QueryModel { sql: q.sql + clause, binds: q.binds + binds }
}

impl Query {
    /// A statement without values.
    pub fn new(sql: &str) -> (r: Query)
        ensures
            r@ == (QueryModel { sql: sql@, binds: Seq::empty() }),
    {
        let r = Query { sql: sql.to_owned(), binds: Vec::new() };
        assert(texts(r.binds@) =~= Seq::empty());
        r
    }

    /// Adds a clause without values.
    pub fn clause(&mut self, clause: &str)
        ensures
            final(self)@ == with_clause(old(self)@, clause@, Seq::empty()),
    {
        self.sql.append(clause);
        assert(texts(self.binds@) =~= texts(self.binds@) + Seq::<Seq<char>>::empty());
    }

    /// Adds a clause with one value.
    pub fn clause_with(&mut self, clause: &str, value: &str)
        ensures
            final(self)@ == with_clause(old(self)@, clause@, seq![value@]),
    {
        broadcast use lemma_texts_push;

        let ghost before = texts(self.binds@);
        self.sql.append(clause);
        self.binds.push(value.to_owned());
        assert(texts(self.binds@) =~= before + seq![value@]);
    }

    /// Adds a value to the clause that was added last.
    pub fn value(&mut self, value: &str)
        ensures
            final(self)@.sql == old(self)@.sql,
            final(self)@.binds == old(self)@.binds.push(value@),
    {
        broadcast use lemma_texts_push;

        self.binds.push(value.to_owned());
    }
}

/// How many placeholders stand in a text.
pub open spec fn marks(s: Seq<char>) -> nat
    decreases s.len(),
{
    if s.len() == 0 {
        0
    } else {
        marks(s.drop_last()) + if s.last() == '?' {
            1nat
        } else {
            0
        }
    }
}

/// Whether there is a value for each placeholder and no other.
pub open spec fn balanced(q: QueryModel) -> bool {
    marks(q.sql) == q.binds.len()
}

/// The placeholders of two texts add up.
pub proof fn lemma_marks_concat(a: Seq<char>, b: Seq<char>)
    ensures
        marks(a + b) == marks(a) + marks(b),
    decreases b.len(),
{
    if b.len() == 0 {
        assert(a + b =~= a);
    } else {
        assert((a + b).drop_last() =~= a + b.drop_last());
        assert((a + b).last() == b.last());
        lemma_marks_concat(a, b.drop_last());
    }
}

/// Without a question mark there is no placeholder.
pub proof fn lemma_no_marks(s: Seq<char>)
    requires
        forall|i: int| 0 <= i < s.len() ==> s[i] != '?',
    ensures
        marks(s) == 0,
    decreases s.len(),
{
    if s.len() > 0 {
        lemma_no_marks(s.drop_last());
    }
}

/// One question mark is one placeholder.
pub proof fn lemma_one_mark(s: Seq<char>, k: int)
    requires
        0 <= k < s.len(),
        s[k] == '?',
        forall|i: int| 0 <= i < s.len() && i != k ==> s[i] != '?',
    ensures
        marks(s) == 1,
{
    let a = s.take(k);
    let b = s.skip(k + 1);
    lemma_no_marks(a);
    lemma_no_marks(b);
    assert(s =~= a + seq!['?'] + b);
    lemma_marks_concat(a + seq!['?'], b);
    lemma_marks_concat(a, seq!['?']);
    assert(seq!['?'].drop_last() =~= Seq::empty());
    assert(marks(seq!['?']) == 1) by {
        reveal_with_fuel(marks, 2);
    }
}

/// Two question marks are two placeholders.
pub proof fn lemma_two_marks(s: Seq<char>, k: int, l: int)
    requires
        0 <= k < l < s.len(),
        s[k] == '?',
        s[l] == '?',
        forall|i: int| 0 <= i < s.len() && i != k && i != l ==> s[i] != '?',
    ensures
        marks(s) == 2,
{
    let a = s.take(k + 1);
    let b = s.skip(k + 1);
    lemma_one_mark(a, k);
    lemma_one_mark(b, l - k - 1);
    assert(s =~= a + b);
    lemma_marks_concat(a, b);
}

/// A clause with as many values as placeholders keeps a statement balanced.
pub proof fn lemma_with_clause_balanced(q: QueryModel, clause: Seq<char>, binds: Seq<Seq<char>>)
    requires
        balanced(q),
        marks(clause) == binds.len(),
    ensures
        balanced(with_clause(q, clause, binds)),
{
    lemma_marks_concat(q.sql, clause);
}

} // verus!
