//! Pieces of knowledge.
use vstd::prelude::*;
use vstd::string::*;

use crate::models::KnowledgeItem;
use crate::table::{find_row, first_place, law_rows_without, remove_rows, rows_without};
use crate::text::{concat2, opt_text, same};

verus! {

/// Whether an item has an id.
pub open spec fn with_id(id: Seq<char>) -> spec_fn(KnowledgeItem) -> bool {
    |k: KnowledgeItem| k.id@ == id
}

/// The place of an item.
pub fn get_item(items: &Vec<KnowledgeItem>, id: &str) -> (r: Result<usize, String>)
    ensures
        match r {
            Ok(k) => k < items.len() && first_place(items@, with_id(id@), 0) == Some(k as int)
                && items@[k as int].id@ == id@,
            Err(e) => first_place(items@, with_id(id@), 0) is None && e@ == "item not found: "@
                + id@,
        },
{
    let is = |k: &KnowledgeItem| -> (c: bool)
        ensures
            c == (k.id@ == id@),
        { same(k.id.as_str(), id) };
    match find_row(items, is, Ghost(with_id(id@))) {
        Some(k) => Ok(k),
        None => Err(concat2("item not found: ", id)),
    }
}

/// Takes an item away.
pub fn delete_item(items: &mut Vec<KnowledgeItem>, id: &str)
    ensures
        final(items)@ == rows_without(old(items)@, with_id(id@)),
{
    let goes = |k: &KnowledgeItem| -> (c: bool)
        ensures
            c == (k.id@ == id@),
        { same(k.id.as_str(), id) };
    remove_rows(items, goes, Ghost(with_id(id@)));
}

/// Whether an item came from a source.
pub open spec fn from_source(kind: Seq<char>, source: Seq<char>) -> spec_fn(KnowledgeItem) -> bool {
    |k: KnowledgeItem| opt_text(k.source_type) == Some(kind) && opt_text(k.source_id) == Some(source)
}

fn says(o: &Option<String>, s: &str) -> (r: bool)
    ensures
        r == (opt_text(*o) == Some(s@)),
{
    match o {
        Some(t) => same(t.as_str(), s),
        None => false,
    }
}

/// Takes away the items that came from a source that is deleted.
pub fn remove_by_source(items: &mut Vec<KnowledgeItem>, source_type: &str, source_id: &str)
    ensures
        final(items)@ == rows_without(old(items)@, from_source(source_type@, source_id@)),
{
    let goes = |k: &KnowledgeItem| -> (c: bool)
        ensures
            c == (opt_text(k.source_type) == Some(source_type@) && opt_text(k.source_id) == Some(
                source_id@,
            )),
        { says(&k.source_type, source_type) && says(&k.source_id, source_id) };
    remove_rows(items, goes, Ghost(from_source(source_type@, source_id@)));
}

/// Once the items of a source are gone there is none of it left, and every other item is still there.
pub proof fn law_no_orphans(items: Seq<KnowledgeItem>, kind: Seq<char>, source: Seq<char>)
    ensures
        forall|k: KnowledgeItem|
            #[trigger] rows_without(items, from_source(kind, source)).contains(k)
                <==> items.contains(k) && !(opt_text(k.source_type) == Some(kind) && opt_text(
                k.source_id,
            ) == Some(source)),
{
    law_rows_without(items, from_source(kind, source));
}

} // verus!
