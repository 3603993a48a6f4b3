//! Pages that a user keeps at hand.
use vstd::prelude::*;
use vstd::string::*;

use crate::models::{Bookmark, BookmarkInput};
use crate::order::{greatest_first, order_greatest_first, char_rows, place_list, places, sorted};
use crate::table::{remove_rows, rows_without};
use crate::text::{chars_of, same};

verus! {

/// A new bookmark; without parameters it has the empty ones.
pub fn create_bookmark(input: BookmarkInput, id: &str, now: &str) -> (r: Bookmark)
    ensures
        r.id@ == id@,
        r.title@ == input.title@,
        r.route@ == input.route@,
        r.params_json@ == (match input.params_json {
            Some(p) => p@,
            None => "{}"@,
        }),
        r.created_at@ == now@,
{
    let params_json = match input.params_json {
        Some(p) => p,
        None => "{}".to_owned(),
    };
    Bookmark {
        id: id.to_owned(),
        title: input.title,
        route: input.route,
        params_json,
        created_at: now.to_owned(),
    }
}

/// When bookmarks were made.
pub open spec fn bookmark_times(list: Seq<Bookmark>) -> Seq<Seq<char>> {
    Seq::new(list.len(), |i: int| list[i].created_at@)
}

/// The places of bookmarks, the newest first.
pub fn list_bookmarks(list: &Vec<Bookmark>) -> (r: Vec<usize>)
    ensures
        place_list(r@) == sorted(places(list@.len()), greatest_first(bookmark_times(list@))),
        r.len() == list.len(),
        forall|i: int| 0 <= i < r.len() ==> #[trigger] r@[i] < list.len(),
{
    let mut keys: Vec<Vec<char>> = Vec::new();
    let mut i: usize = 0;
    while i < list.len()
        invariant
            i <= list.len(),
            keys.len() == i,
            forall|k: int| 0 <= k < i ==> (#[trigger] keys@[k])@ == list@[k].created_at@,
        decreases list.len() - i,
    {
        keys.push(chars_of(list[i].created_at.as_str()));
        i += 1;
    }
    assert(char_rows(keys@) =~= bookmark_times(list@));
    order_greatest_first(&keys)
}

/// Whether a bookmark has an id.
pub open spec fn with_id(id: Seq<char>) -> spec_fn(Bookmark) -> bool {
    |b: Bookmark| b.id@ == id
}

/// Takes a bookmark away.
pub fn delete_bookmark(list: &mut Vec<Bookmark>, id: &str)
    ensures
        final(list)@ == rows_without(old(list)@, with_id(id@)),
{
    let goes = |b: &Bookmark| -> (r: bool)
        ensures
            r == (b.id@ == id@),
        { same(b.id.as_str(), id) };
    remove_rows(list, goes, Ghost(with_id(id@)));
}

} // verus!
