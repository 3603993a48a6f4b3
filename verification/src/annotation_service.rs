//! Marks on the pages of papers.
use vstd::prelude::*;
use vstd::string::*;

use crate::json::{json_array_text, json_strings, print_strings};
use crate::models::Annotation;
use crate::order::{in_order, law_sorted, lemma_text_before, place_list, sorted, text_before};
use crate::table::{
    find_row, first_place, order_picked, pick_rows, picked, remove_rows, rows_without,
};
use crate::text::{copy_opt, opt_text, same, texts};

verus! {

/// What a caller says of a mark. `rect` is its outline, as it is stored.
pub struct NewAnnotation {
    pub id: Option<String>,
    pub paper_id: String,
    pub page: i64,
    pub rect: String,
    pub text: Option<String>,
    pub note: Option<String>,
    pub tags: Vec<String>,
}

/// A new mark, under its own id or a fresh one.
pub fn create(input: &NewAnnotation, fresh_id: &str, now: &str) -> (r: Annotation)
    ensures
        r.id@ == (match input.id {
            Some(i) => i@,
            None => fresh_id@,
        }),
        r.paper_id@ == input.paper_id@,
        r.page == input.page,
        r.atype@ == "snippet"@,
        r.rect@ == input.rect@,
        r.color@ == "#ffeb3b"@,
        opt_text(r.text) == opt_text(input.text),
        opt_text(r.note) == opt_text(input.note),
        r.tags@ == json_array_text(texts(input.tags@)),
        json_strings(r.tags@) == Some(texts(input.tags@)),
        r.translation is None,
        r.created_at@ == now@ && r.updated_at@ == now@,
{
    let id = match &input.id {
        Some(i) => i.clone(),
        None => fresh_id.to_owned(),
    };
    Annotation {
        id,
        paper_id: input.paper_id.clone(),
        page: input.page,
        atype: "snippet".to_owned(),
        rect: input.rect.clone(),
        color: "#ffeb3b".to_owned(),
        text: copy_opt(&input.text),
        note: copy_opt(&input.note),
        tags: print_strings(&input.tags),
        translation: None,
        created_at: now.to_owned(),
        updated_at: now.to_owned(),
    }
}

/// Whether two marks are the same, but for what was written to them and when.
pub open spec fn same_mark(a: Annotation, b: Annotation) -> bool {
    &&& a.id == b.id && a.paper_id == b.paper_id && a.page == b.page && a.atype == b.atype
    &&& a.rect == b.rect && a.color == b.color && a.text == b.text && a.created_at == b.created_at
}

/// Changes the note of a mark.
pub fn update_note(a: &mut Annotation, note: &str, now: &str)
    ensures
        opt_text(final(a).note) == Some(note@),
        final(a).updated_at@ == now@,
        same_mark(*final(a), *old(a)),
        final(a).tags == old(a).tags && final(a).translation == old(a).translation,
{
    a.note = Some(note.to_owned());
    a.updated_at = now.to_owned();
}

/// Changes the tags of a mark.
pub fn update_tags(a: &mut Annotation, tags: &Vec<String>, now: &str)
    ensures
        final(a).tags@ == json_array_text(texts(tags@)),
        json_strings(final(a).tags@) == Some(texts(tags@)),
        final(a).updated_at@ == now@,
        same_mark(*final(a), *old(a)),
        final(a).note == old(a).note && final(a).translation == old(a).translation,
{
    a.tags = print_strings(tags);
    a.updated_at = now.to_owned();
}

/// Changes the translation of a mark.
pub fn update_translation(a: &mut Annotation, translation: &str, now: &str)
    ensures
        opt_text(final(a).translation) == Some(translation@),
        final(a).updated_at@ == now@,
        same_mark(*final(a), *old(a)),
        final(a).note == old(a).note && final(a).tags == old(a).tags,
{
    a.translation = Some(translation.to_owned());
    a.updated_at = now.to_owned();
}

/// Whether a mark stands before another: by its page, then by when it was made.
pub open spec fn stands_before(a: Annotation, b: Annotation) -> bool {
    a.page < b.page || (a.page == b.page && text_before(a.created_at@, b.created_at@))
}

/// Places go as what stands at them is listed.
pub open spec fn by_listing(list: Seq<Annotation>) -> spec_fn(int, int) -> bool {
    |a: int, b: int| stands_before(list[a], list[b])
}

/// Whether a mark is on a paper.
pub open spec fn on_paper(paper: Seq<char>) -> spec_fn(Annotation) -> bool {
    |a: Annotation| a.paper_id@ == paper
}

/// The places of the marks on a paper as they are listed.
pub open spec fn listed(list: Seq<Annotation>, paper: Seq<char>) -> Seq<int> {
    sorted(picked(list, on_paper(paper)), by_listing(list))
}

/// The places of the marks on a paper as they are listed: from the first page to the last.
pub fn list_by_paper(marks: &Vec<Annotation>, paper_id: &str) -> (r: Vec<usize>)
    ensures
        place_list(r@) == listed(marks@, paper_id@),
        forall|i: int| 0 <= i < r.len() ==> #[trigger] r@[i] < marks.len(),
{
    let is = |a: &Annotation| -> (c: bool)
        ensures
            c == (a.paper_id@ == paper_id@),
        { same(a.paper_id.as_str(), paper_id) };
    let found = pick_rows(marks, is, Ghost(on_paper(paper_id@)));
    let goes = |a: usize, b: usize| -> (c: bool)
        requires
            a < marks.len() && b < marks.len(),
        ensures
            c == stands_before(marks@[a as int], marks@[b as int]),
        {
            let x = &marks[a];
            let y = &marks[b];
            x.page < y.page || (x.page == y.page && crate::order::goes_before(
                x.created_at.as_str(),
                y.created_at.as_str(),
            ))
        };
    order_picked(&found, marks.len(), goes, Ghost(by_listing(marks@)))
}

/// The marks on a paper are listed in order, and each once.
pub proof fn law_marks_in_order(list: Seq<Annotation>, paper: Seq<char>)
    ensures
        in_order(listed(list, paper), by_listing(list)),
        listed(list, paper).to_multiset() == picked(list, on_paper(paper)).to_multiset(),
{
    let before = by_listing(list);
    assert forall|a: int, b: int| #[trigger] before(a, b) implies !before(b, a) by {
        lemma_text_before(list[a].created_at@, list[b].created_at@, list[b].created_at@);
    }
    assert forall|a: int, b: int, c: int| #[trigger] before(a, c) implies #[trigger] before(a, b)
        || #[trigger] before(b, c) by {
        lemma_text_before(list[a].created_at@, list[b].created_at@, list[c].created_at@);
    }
    law_sorted(picked(list, on_paper(paper)), before);
}

/// Whether a mark has an id.
pub open spec fn with_id(id: Seq<char>) -> spec_fn(Annotation) -> bool {
    |a: Annotation| a.id@ == id
}

/// The place of a mark.
pub fn get_by_id(marks: &Vec<Annotation>, id: &str) -> (r: Result<usize, String>)
    ensures
        match r {
            Ok(k) => k < marks.len() && first_place(marks@, with_id(id@), 0) == Some(k as int)
                && marks@[k as int].id@ == id@,
            Err(e) => first_place(marks@, with_id(id@), 0) is None && e@
                == "annotation not found: no rows returned by a query that expected to return at least one row"@,
        },
{
    let is = |a: &Annotation| -> (c: bool)
        ensures
            c == (a.id@ == id@),
        { same(a.id.as_str(), id) };
    match find_row(marks, is, Ghost(with_id(id@))) {
        Some(k) => Ok(k),
        None => Err(
            "annotation not found: no rows returned by a query that expected to return at least one row".to_owned(),
        ),
    }
}

/// Takes a mark away.
pub fn delete(marks: &mut Vec<Annotation>, id: &str)
    ensures
        final(marks)@ == rows_without(old(marks)@, with_id(id@)),
{
    let goes = |a: &Annotation| -> (c: bool)
        ensures
            c == (a.id@ == id@),
        { same(a.id.as_str(), id) };
    remove_rows(marks, goes, Ghost(with_id(id@)));
}

/// Takes away all marks on a paper, and no others.
pub fn clear_paper(marks: &mut Vec<Annotation>, paper_id: &str)
    ensures
        final(marks)@ == rows_without(old(marks)@, on_paper(paper_id@)),
{
    let goes = |a: &Annotation| -> (c: bool)
        ensures
            c == (a.paper_id@ == paper_id@),
        { same(a.paper_id.as_str(), paper_id) };
    remove_rows(marks, goes, Ghost(on_paper(paper_id@)));
}

} // verus!
