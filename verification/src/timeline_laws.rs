//! Everything that happened is in the timeline: each row of each table has its entries, and each entry is
//! on a page.
use vstd::prelude::*;
use vstd::string::*;

use crate::json::JsonModel;
use crate::order::{law_sorted, sorted};
use crate::text::{join, opt_text, trim};
use crate::time::is_earlier;
use crate::timeline_service::{
    all_entries, annotation_entries, annotation_rule, entries_of, knowledge_entries, knowledge_rule,
    name_line, lemma_newest_first, newest_first, note_entries, note_rule, of_module, page,
    paper_entries, paper_rule, shortened, source_entries, source_rule, strings_in, timeline,
    topic_entries, topic_rule, ItemModel, TimelineRows,
};

verus! {

proof fn lemma_in_both(a: Seq<ItemModel>, b: Seq<ItemModel>, x: ItemModel)
    ensures
        (a + b).contains(x) <==> a.contains(x) || b.contains(x),
{
    let s = a + b;
    if a.contains(x) {
        let i = choose|i: int| 0 <= i < a.len() && a[i] == x;
        assert(s[i] == x);
    }
    if b.contains(x) {
        let i = choose|i: int| 0 <= i < b.len() && b[i] == x;
        assert(s[a.len() + i] == x);
    }
    if s.contains(x) {
        let i = choose|i: int| 0 <= i < s.len() && s[i] == x;
        if i < a.len() {
            assert(a[i] == x);
        } else {
            assert(b[i - a.len()] == x);
        }
    }
}

/// The entries of two lists of rows are those of the first and then those of the second, and the entries
/// of each row are among them.
pub proof fn law_entries_of_every_row<T>(
    a: Seq<T>,
    b: Seq<T>,
    entries: spec_fn(T) -> Seq<ItemModel>,
    k: int,
    x: ItemModel,
)
    ensures
        entries_of(a + b, entries) == entries_of(a, entries) + entries_of(b, entries),
        0 <= k < b.len() && entries(b[k]).contains(x) ==> entries_of(b, entries).contains(x),
    decreases b.len(),
{
    if b.len() == 0 {
        assert(a + b =~= a);
        assert(entries_of(a, entries) + entries_of(b, entries) =~= entries_of(a, entries));
    } else {
        let shorter = b.drop_last();
        law_entries_of_every_row(a, shorter, entries, k, x);
        assert((a + b).drop_last() =~= a + shorter);
        assert((a + b).last() == b.last());
        assert(entries_of(a, entries) + (entries_of(shorter, entries) + entries(b.last()))
            =~= entries_of(a, entries) + entries_of(shorter, entries) + entries(b.last()));
        lemma_in_both(entries_of(shorter, entries), entries(b.last()), x);
        if 0 <= k < shorter.len() {
            assert(shorter[k] == b[k]);
        }
    }
}

proof fn lemma_all(rows: TimelineRows, x: ItemModel)
    ensures
        all_entries(rows).contains(x) <==> entries_of(rows.papers@, paper_rule()).contains(x)
            || entries_of(rows.annotations@, annotation_rule()).contains(x) || entries_of(
            rows.notes@,
            note_rule(),
        ).contains(x) || entries_of(rows.topics@, topic_rule()).contains(x) || entries_of(
            rows.sources@,
            source_rule(),
        ).contains(x) || entries_of(rows.knowledge@, knowledge_rule()).contains(x),
{
    let a = entries_of(rows.papers@, paper_rule());
    let b = entries_of(rows.annotations@, annotation_rule());
    let c = entries_of(rows.notes@, note_rule());
    let d = entries_of(rows.topics@, topic_rule());
    let e = entries_of(rows.sources@, source_rule());
    let f = entries_of(rows.knowledge@, knowledge_rule());
    lemma_in_both(a, b, x);
    lemma_in_both(a + b, c, x);
    lemma_in_both(a + b + c, d, x);
    lemma_in_both(a + b + c + d, e, x);
    lemma_in_both(a + b + c + d + e, f, x);
}

/// The entries of one module are all entries of it, in their order; without a module they are all.
pub proof fn law_entries_of_a_module(items: Seq<ItemModel>, module: Seq<char>)
    ensures
        of_module(items, Some(module)) == items.filter(|i: ItemModel| i.module == module),
        of_module(items, None) == items,
    decreases items.len(),
{
    reveal(Seq::filter);
    if items.len() > 0 {
        law_entries_of_a_module(items.drop_last(), module);
        assert(items.drop_last().push(items.last()) =~= items);
    } else {
        assert(items =~= Seq::empty());
    }
}

/// A page that is long enough shows every entry, and of one module every entry of it.
pub proof fn law_timeline_shows_every_entry(
    rows: TimelineRows,
    limit: int,
    module: Option<Seq<char>>,
    x: ItemModel,
)
    requires
        limit >= all_entries(rows).len(),
    ensures
        timeline(rows, limit, 0, module).contains(x) <==> all_entries(rows).contains(x) && (module
            is None || x.module == module->0),
{
    let all = all_entries(rows);
    let items = of_module(all, module);
    let s = sorted(items, newest_first());
    lemma_module_members(all, module, x);
    lemma_sorted_len(items);
    assert(page(s, limit, 0) =~= s);
    assert(s.contains(x) <==> items.contains(x)) by {
        assert(s.to_multiset() =~= items.to_multiset()) by {
            lemma_same_multiset(items);
        }
        s.to_multiset_ensures();
        items.to_multiset_ensures();
        assert(s.contains(x) <==> s.to_multiset().count(x) > 0);
        assert(items.contains(x) <==> items.to_multiset().count(x) > 0);
    }
}

proof fn lemma_sorted_len(items: Seq<ItemModel>)
    ensures
        sorted(items, newest_first()).len() == items.len(),
{
    lemma_same_multiset(items);
    items.to_multiset_ensures();
    sorted(items, newest_first()).to_multiset_ensures();
}

proof fn lemma_same_multiset(items: Seq<ItemModel>)
    ensures
        sorted(items, newest_first()).to_multiset() == items.to_multiset(),
{
    lemma_newest_first();
    law_sorted(items, newest_first());
}

proof fn lemma_module_members(items: Seq<ItemModel>, module: Option<Seq<char>>, x: ItemModel)
    ensures
        of_module(items, module).contains(x) <==> items.contains(x) && (module is None || x.module
            == module->0),
        of_module(items, module).len() <= items.len(),
    decreases items.len(),
{
    if items.len() > 0 {
        let before = of_module(items.drop_last(), module);
        lemma_module_members(items.drop_last(), module, x);
        let one = seq![items.last()];
        assert(items =~= items.drop_last() + one);
        lemma_in_both(items.drop_last(), one, x);
        assert(before.push(items.last()) =~= before + one);
        lemma_in_both(before, one, x);
        assert(one.contains(x) <==> x == items.last()) by {
            assert(one[0] == items.last());
        }
    }
}

// ---------------------------------------------------------------------------------------------
// Rows
// ---------------------------------------------------------------------------------------------
/// Whether entries hold one of a kind, at a time and under a title.
pub open spec fn tells(
    items: Seq<ItemModel>,
    id: Seq<char>,
    kind: Seq<char>,
    module: Seq<char>,
    title: Seq<char>,
    time: Seq<char>,
) -> bool {
    exists|i: int|
        0 <= i < items.len() && (#[trigger] items[i]).id == id && items[i].activity_type == kind
            && items[i].module == module && items[i].title == title && items[i].timestamp == time
}

proof fn lemma_tells(items: Seq<ItemModel>, x: ItemModel)
    requires
        items.contains(x),
    ensures
        tells(items, x.id, x.activity_type, x.module, x.title, x.timestamp),
{
    let i = choose|i: int| 0 <= i < items.len() && items[i] == x;
    assert(items[i].id == x.id);
}

/// Each paper has the entry of its import, each topic that of its start, each source that of its
/// discovery and each knowledge item that of its making, with its title and its time.
pub proof fn law_every_row_is_told(rows: TimelineRows, k: int)
    ensures
        0 <= k < rows.papers@.len() ==> tells(
            all_entries(rows),
            "paper-"@ + rows.papers@[k].id@,
            "paper_imported"@,
            "library"@,
            rows.papers@[k].title@,
            rows.papers@[k].created_at@,
        ),
        0 <= k < rows.topics@.len() ==> tells(
            all_entries(rows),
            "topic-"@ + rows.topics@[k].id@,
            "research_topic_created"@,
            "research"@,
            rows.topics@[k].name@,
            rows.topics@[k].created_at@,
        ),
        0 <= k < rows.sources@.len() && rows.sources@[k].title is Some && trim(
            rows.sources@[k].title->0@,
        ).len() > 0 ==> tells(
            all_entries(rows),
            "source-"@ + rows.sources@[k].id@,
            "research_source_discovered"@,
            "research"@,
            rows.sources@[k].title->0@,
            rows.sources@[k].discovered_at@,
        ),
        0 <= k < rows.knowledge@.len() ==> tells(
            all_entries(rows),
            "knowledge-"@ + rows.knowledge@[k].id@,
            "knowledge_item_created"@,
            "knowledge"@,
            rows.knowledge@[k].title@,
            rows.knowledge@[k].created_at@,
        ),
{
    let all = all_entries(rows);
    if 0 <= k < rows.papers@.len() {
        let one = paper_entries(rows.papers@[k]);
        let x = one[0];
        assert(paper_rule()(rows.papers@[k]) == one);
        assert(one.contains(x));
        law_entries_of_every_row(Seq::empty(), rows.papers@, paper_rule(), k, x);
        lemma_all(rows, x);
        lemma_tells(all, x);
    }
    if 0 <= k < rows.topics@.len() {
        let one = topic_entries(rows.topics@[k]);
        let x = one[0];
        assert(topic_rule()(rows.topics@[k]) == one);
        assert(one.contains(x));
        law_entries_of_every_row(Seq::empty(), rows.topics@, topic_rule(), k, x);
        lemma_all(rows, x);
        lemma_tells(all, x);
    }
    if 0 <= k < rows.sources@.len() {
        let one = source_entries(rows.sources@[k]);
        let x = one[0];
        assert(source_rule()(rows.sources@[k]) == one);
        assert(one.contains(x));
        law_entries_of_every_row(Seq::empty(), rows.sources@, source_rule(), k, x);
        lemma_all(rows, x);
        lemma_tells(all, x);
    }
    if 0 <= k < rows.knowledge@.len() {
        let one = knowledge_entries(rows.knowledge@[k]);
        let x = one[0];
        assert(knowledge_rule()(rows.knowledge@[k]) == one);
        assert(one.contains(x));
        law_entries_of_every_row(Seq::empty(), rows.knowledge@, knowledge_rule(), k, x);
        lemma_all(rows, x);
        lemma_tells(all, x);
    }
}

/// Each snippet has the entry of its marking and, where it was translated, that of its translation.
pub proof fn law_every_snippet_is_told(rows: TimelineRows, k: int)
    requires
        0 <= k < rows.annotations@.len(),
    ensures
        tells(
            all_entries(rows),
            "snippet-created-"@ + rows.annotations@[k].id@,
            "snippet_created"@,
            "zhisi"@,
            rows.annotations@[k].paper_title@,
            rows.annotations@[k].created_at@,
        ),
        rows.annotations@[k].translation is Some && trim(
            rows.annotations@[k].translation->0@,
        ).len() > 0 ==> tells(
            all_entries(rows),
            "snippet-translated-"@ + rows.annotations@[k].id@,
            "snippet_translated"@,
            "zhisi"@,
            rows.annotations@[k].paper_title@,
            rows.annotations@[k].updated_at@,
        ),
{
    let all = all_entries(rows);
    let some = annotation_entries(rows.annotations@[k]);
    assert(annotation_rule()(rows.annotations@[k]) == some);
    let x = some[0];
    assert(some.contains(x));
    law_entries_of_every_row(Seq::empty(), rows.annotations@, annotation_rule(), k, x);
    lemma_all(rows, x);
    lemma_tells(all, x);
    if some.len() > 1 {
        let y = some[1];
        assert(some.contains(y));
        law_entries_of_every_row(Seq::empty(), rows.annotations@, annotation_rule(), k, y);
        lemma_all(rows, y);
        lemma_tells(all, y);
    }
}

/// Each note has the entry of its making; where it was changed later, it has the entry of the last
/// change: by an agent, where the agent made it, else by the user.
pub proof fn law_every_note_is_told(rows: TimelineRows, k: int)
    requires
        0 <= k < rows.notes@.len(),
    ensures
        tells(
            all_entries(rows),
            "note-created-"@ + rows.notes@[k].id@,
            "note_created"@,
            "notes"@,
            rows.notes@[k].title@,
            rows.notes@[k].created_at@,
        ),
        opt_text(rows.notes@[k].agent_edited_at) == Some(rows.notes@[k].updated_at@) ==> tells(
            all_entries(rows),
            "note-agent-"@ + rows.notes@[k].id@,
            "note_agent_edited"@,
            "notes"@,
            rows.notes@[k].title@,
            rows.notes@[k].updated_at@,
        ),
        opt_text(rows.notes@[k].agent_edited_at) != Some(rows.notes@[k].updated_at@) && is_earlier(
            rows.notes@[k].created_at@,
            rows.notes@[k].updated_at@,
        ) ==> tells(
            all_entries(rows),
            "note-updated-"@ + rows.notes@[k].id@,
            "note_updated"@,
            "notes"@,
            rows.notes@[k].title@,
            rows.notes@[k].updated_at@,
        ),
{
    let all = all_entries(rows);
    let r = rows.notes@[k];
    let some = note_entries(r);
    assert(note_rule()(r) == some);
    let agent_last = opt_text(r.agent_edited_at) == Some(r.updated_at@);
    let at: int = if agent_last {
        1
    } else {
        0
    };
    let x = some[at];
    assert(some.contains(x));
    law_entries_of_every_row(Seq::empty(), rows.notes@, note_rule(), k, x);
    lemma_all(rows, x);
    lemma_tells(all, x);
    if some.len() > 1 {
        let y = some[1 - at];
        assert(some.contains(y));
        law_entries_of_every_row(Seq::empty(), rows.notes@, note_rule(), k, y);
        lemma_all(rows, y);
        lemma_tells(all, y);
    }
}

// ---------------------------------------------------------------------------------------------
// Lines
// ---------------------------------------------------------------------------------------------
/// The line of authors has all of them, in their order.
pub proof fn law_every_author_is_in_the_line(items: Seq<JsonModel>, names: Seq<Seq<char>>)
    requires
        names.len() == items.len(),
        forall|i: int| 0 <= i < items.len() ==> #[trigger] items[i] == JsonModel::Str(names[i]),
    ensures
        strings_in(items) == names,
        names.len() > 0 ==> name_line(JsonModel::Array(items)) == Some(join(names, ", "@)),
    decreases items.len(),
{
    if items.len() > 0 {
        let n = items.len() - 1;
        assert forall|i: int| 0 <= i < n implies #[trigger] items.drop_last()[i] == JsonModel::Str(
            names.drop_last()[i],
        ) by {
            assert(items.drop_last()[i] == items[i]);
        }
        law_every_author_is_in_the_line(items.drop_last(), names.drop_last());
        assert(items[n] == JsonModel::Str(names[n]));
        assert(names.drop_last().push(names[n]) =~= names);
    } else {
        assert(names =~= Seq::empty());
    }
}

/// A text that is short enough is shown whole, but for the white space around it, and a longer one by its
/// beginning.
pub proof fn law_short_text_is_shown_whole(s: Seq<char>, max: int)
    requires
        0 <= max,
    ensures
        trim(s).len() <= max ==> shortened(s, max) == trim(s),
        trim(s).len() > max ==> shortened(s, max).len() == max + 1 && shortened(s, max).take(max)
            == trim(s).take(max),
{
    if trim(s).len() > max {
        assert(shortened(s, max).take(max) =~= trim(s).take(max));
    }
}

} // verus!
