//! The timeline: what happened in all modules, newest first.
use vstd::prelude::*;
use vstd::string::*;

use crate::json::{json_items, json_value, parse_json, Json, JsonModel};
use crate::order::{
    at_places, char_rows, greatest_first, in_order, law_sorted, lemma_sorted_by_index,
    lemma_place, lemma_sorted_members, lemma_text_before, order_greatest_first, orders, place,
    place_list, sorted,
};
use crate::text::{
    chars_of, concat2, copy_opt, join, join_with, lemma_texts_push, opt_text, same, take_chars,
    texts, trim, trimmed,
};
use crate::time::{earlier, is_earlier, key_of, time_key};

verus! {

/// A parameter of a route.
pub struct RouteParam {
    pub key: String,
    pub value: String,
}

/// One entry of the timeline: what happened, in which module, and where it leads.
pub struct TimelineItem {
    pub id: String,
    pub activity_type: String,
    pub module: String,
    pub title: String,
    pub subtitle: Option<String>,
    pub timestamp: String,
    /// Target route, e.g. "/reader/$paperId".
    pub route: String,
    /// Path parameter of the target route.
    pub params: Option<RouteParam>,
    /// Search parameter of the target route.
    pub search: Option<RouteParam>,
}

/// What a parameter of a route says.
pub struct ParamModel {
    pub key: Seq<char>,
    pub value: Seq<char>,
}

/// What an entry says.
pub struct ItemModel {
    pub id: Seq<char>,
    pub activity_type: Seq<char>,
    pub module: Seq<char>,
    pub title: Seq<char>,
    pub subtitle: Option<Seq<char>>,
    pub timestamp: Seq<char>,
    pub route: Seq<char>,
    pub params: Option<ParamModel>,
    pub search: Option<ParamModel>,
}

/// What an optional parameter says.
pub open spec fn param_model(p: Option<RouteParam>) -> Option<ParamModel> {
    match p {
        Some(p) => Some(ParamModel { key: p.key@, value: p.value@ }),
        None => None,
    }
}

impl View for TimelineItem {
    type V = ItemModel;

    open spec fn view(&self) -> ItemModel {
        ItemModel {
            id: self.id@,
            activity_type: self.activity_type@,
            module: self.module@,
            title: self.title@,
            subtitle: opt_text(self.subtitle),
            timestamp: self.timestamp@,
            route: self.route@,
            params: param_model(self.params),
            search: param_model(self.search),
        }
    }
}

/// What a list of entries says.
pub open spec fn item_models(v: Seq<TimelineItem>) -> Seq<ItemModel> {
    Seq::new(v.len(), |i: int| v[i]@)
}

// ---------------------------------------------------------------------------------------------
// Rows
// ---------------------------------------------------------------------------------------------
/// A paper that was imported.
pub struct PaperRow {
    pub id: String,
    pub title: String,
    pub authors: String,
    pub created_at: String,
}

/// A snippet that was marked, and perhaps translated.
pub struct AnnotationRow {
    pub id: String,
    pub paper_id: String,
    pub text: Option<String>,
    pub created_at: String,
    pub updated_at: String,
    pub translation: Option<String>,
    pub paper_title: String,
}

/// A note that was written, by the user or by an agent.
pub struct NoteRow {
    pub id: String,
    pub title: String,
    pub created_at: String,
    pub updated_at: String,
    pub agent_edited_at: Option<String>,
}

/// A research topic that was set up.
pub struct TopicRow {
    pub id: String,
    pub name: String,
    pub created_at: String,
}

/// A source that was found for a topic.
pub struct SourceRow {
    pub id: String,
    pub topic_id: String,
    pub title: Option<String>,
    pub authors: Option<String>,
    pub discovered_at: String,
    pub topic_name: String,
}

/// A knowledge item that was filed.
pub struct KnowledgeRow {
    pub id: String,
    pub domain_id: String,
    pub title: String,
    pub created_at: String,
    pub domain_name: String,
}

/// The rows that a timeline is made from.
pub struct TimelineRows {
    pub papers: Vec<PaperRow>,
    pub annotations: Vec<AnnotationRow>,
    pub notes: Vec<NoteRow>,
    pub topics: Vec<TopicRow>,
    pub sources: Vec<SourceRow>,
    pub knowledge: Vec<KnowledgeRow>,
}

// ---------------------------------------------------------------------------------------------
// Texts
// ---------------------------------------------------------------------------------------------
/// A text in at most `max` characters, with an ellipsis where it was cut.
pub open spec fn shortened(s: Seq<char>, max: int) -> Seq<char> {
    if trim(s).len() <= max {
        trim(s)
    } else {
        trim(s).take(max).push('…')
    }
}

/// A text in at most `max` characters, with an ellipsis where it was cut.
pub fn truncate(s: &str, max: usize) -> (r: String)
    ensures
        r@ == shortened(s@, max as int),
{
    let t = trimmed(s);
    if t.as_str().unicode_len() <= max {
        t
    } else {
        let mut out = take_chars(t.as_str(), max);
        out.push('…');
        out
    }
}

/// The strings among a list of JSON values.
pub open spec fn strings_in(items: Seq<JsonModel>) -> Seq<Seq<char>>
    decreases items.len(),
{
    if items.len() == 0 {
        Seq::empty()
    } else {
        match items.last().text() {
            Some(s) => strings_in(items.drop_last()).push(s),
            None => strings_in(items.drop_last()),
        }
    }
}

/// The strings of an array in one line; nothing where there are none.
pub open spec fn name_line(v: JsonModel) -> Option<Seq<char>> {
    match v.items() {
        Some(items) => if strings_in(items).len() > 0 {
            Some(join(strings_in(items), ", "@))
        } else {
            None
        },
        None => None,
    }
}

/// The authors in one line, from a JSON array; nothing where the text is blank or no such array.
pub open spec fn author_line(json: Seq<char>) -> Option<Seq<char>> {
    if trim(json).len() == 0 {
        None
    } else {
        match json_value(json) {
            Ok(v) => name_line(v),
            Err(_) => None,
        }
    }
}

/// The strings of an array in one line; nothing where there are none.
pub fn join_names(v: &Json) -> (r: Option<String>)
    ensures
        opt_text(r) == name_line(v@),
{
    broadcast use lemma_texts_push;

    match v.as_array() {
        Some(items) => {
            let ghost all = json_items(items@);
            let mut names: Vec<String> = Vec::new();
            assert(texts(names@) =~= Seq::empty());
            let mut i: usize = 0;
            while i < items.len()
                invariant
                    i <= items.len(),
                    all == json_items(items@),
                    texts(names@) == strings_in(all.take(i as int)),
                decreases items.len() - i,
            {
                assert(all.take(i + 1).drop_last() =~= all.take(i as int));
                let ghost before = texts(names@);
                match items[i].as_str() {
                    Some(s) => {
                        names.push(s.to_owned());
                        assert(texts(names@) =~= before.push(s@));
                    },
                    None => {},
                }
                i += 1;
            }
            assert(all.take(all.len() as int) =~= all);
            if names.len() == 0 {
                None
            } else {
                Some(join_with(&names, ", "))
            }
        },
        None => None,
    }
}

/// The authors in one line, from a JSON array; nothing where the text is blank or no such array.
pub fn join_authors(json: &str) -> (r: Option<String>)
    ensures
        opt_text(r) == author_line(json@),
{
    if trimmed(json).as_str().is_empty() {
        return None;
    }
    match parse_json(json) {
        Ok(v) => join_names(&v),
        Err(_) => None,
    }
}

// ---------------------------------------------------------------------------------------------
// Entries
// ---------------------------------------------------------------------------------------------
/// A route with one parameter.
pub open spec fn param(key: Seq<char>, value: Seq<char>) -> Option<ParamModel> {
    Some(ParamModel { key, value })
}

/// The entry of an imported paper.
pub open spec fn paper_entries(r: PaperRow) -> Seq<ItemModel> {
    seq![
        ItemModel {
            id: "paper-"@ + r.id@,
            activity_type: "paper_imported"@,
            module: "library"@,
            title: r.title@,
            subtitle: author_line(r.authors@),
            timestamp: r.created_at@,
            route: "/reader/$paperId"@,
            params: param("paperId"@, r.id@),
            search: None,
        },
    ]
}

/// What a snippet says, in one line.
pub open spec fn excerpt(r: AnnotationRow) -> Seq<char> {
    match r.text {
        Some(t) => shortened(t@, 60),
        None => Seq::empty(),
    }
}

/// A line on a snippet; nothing where the snippet says nothing.
pub open spec fn excerpt_line(label: Seq<char>, r: AnnotationRow) -> Option<Seq<char>> {
    if excerpt(r).len() == 0 {
        None
    } else {
        Some(label + excerpt(r))
    }
}

/// The entries of a snippet: that it was marked, and where there is one, its translation.
pub open spec fn annotation_entries(r: AnnotationRow) -> Seq<ItemModel> {
    let marked = ItemModel {
        id: "snippet-created-"@ + r.id@,
        activity_type: "snippet_created"@,
        module: "zhisi"@,
        title: r.paper_title@,
        subtitle: excerpt_line("新增摘录："@, r),
        timestamp: r.created_at@,
        route: "/reader/$paperId"@,
        params: param("paperId"@, r.paper_id@),
        search: None,
    };
    let translated = ItemModel {
        id: "snippet-translated-"@ + r.id@,
        activity_type: "snippet_translated"@,
        subtitle: excerpt_line("翻译摘录："@, r),
        timestamp: r.updated_at@,
        ..marked
    };
    if r.translation is Some && trim(r.translation->0@).len() > 0 {
        seq![marked, translated]
    } else {
        seq![marked]
    }
}

/// The entries of a note: that an agent edited it last, that it was written, and that the user
/// edited it last.
pub open spec fn note_entries(r: NoteRow) -> Seq<ItemModel> {
    let written = ItemModel {
        id: "note-created-"@ + r.id@,
        activity_type: "note_created"@,
        module: "notes"@,
        title: r.title@,
        subtitle: None,
        timestamp: r.created_at@,
        route: "/notes"@,
        params: None,
        search: param("note"@, r.id@),
    };
    let by_agent = ItemModel {
        id: "note-agent-"@ + r.id@,
        activity_type: "note_agent_edited"@,
        subtitle: Some("AI 整理笔记"@),
        timestamp: r.updated_at@,
        ..written
    };
    let by_user = ItemModel {
        id: "note-updated-"@ + r.id@,
        activity_type: "note_updated"@,
        subtitle: Some("编辑笔记"@),
        timestamp: r.updated_at@,
        ..written
    };
    let agent_last = opt_text(r.agent_edited_at) == Some(r.updated_at@);
    let user_last = is_earlier(r.created_at@, r.updated_at@) && !agent_last;
    (if agent_last {
        seq![by_agent]
    } else {
        Seq::empty()
    }) + seq![written] + (if user_last {
        seq![by_user]
    } else {
        Seq::empty()
    })
}

/// The entry of a new topic.
pub open spec fn topic_entries(r: TopicRow) -> Seq<ItemModel> {
    seq![
        ItemModel {
            id: "topic-"@ + r.id@,
            activity_type: "research_topic_created"@,
            module: "research"@,
            title: r.name@,
            subtitle: Some("新建科研课题"@),
            timestamp: r.created_at@,
            route: "/research/$topicId"@,
            params: param("topicId"@, r.id@),
            search: None,
        },
    ]
}

/// Whether a text is there and not blank.
pub open spec fn says(o: Option<String>) -> bool {
    o is Some && trim(o->0@).len() > 0
}

/// The entry of a source that was found.
pub open spec fn source_entries(r: SourceRow) -> Seq<ItemModel> {
    seq![
        ItemModel {
            id: "source-"@ + r.id@,
            activity_type: "research_source_discovered"@,
            module: "research"@,
            title: if says(r.title) {
                r.title->0@
            } else {
                "未命名文献"@
            },
            subtitle: Some(
                if says(r.authors) {
                    "课题："@ + r.topic_name@ + " · "@ + shortened(r.authors->0@, 60)
                } else {
                    "课题："@ + r.topic_name@
                },
            ),
            timestamp: r.discovered_at@,
            route: "/research/$topicId"@,
            params: param("topicId"@, r.topic_id@),
            search: None,
        },
    ]
}

/// The entry of a knowledge item.
pub open spec fn knowledge_entries(r: KnowledgeRow) -> Seq<ItemModel> {
    seq![
        ItemModel {
            id: "knowledge-"@ + r.id@,
            activity_type: "knowledge_item_created"@,
            module: "knowledge"@,
            title: r.title@,
            subtitle: Some("知识库 · "@ + r.domain_name@),
            timestamp: r.created_at@,
            route: "/knowledge/$domainId"@,
            params: param("domainId"@, r.domain_id@),
            search: None,
        },
    ]
}

/// The entries of the rows, row by row.
pub open spec fn entries_of<T>(rows: Seq<T>, entries: spec_fn(T) -> Seq<ItemModel>) -> Seq<
    ItemModel,
>
    decreases rows.len(),
{
    if rows.len() == 0 {
        Seq::empty()
    } else {
        entries_of(rows.drop_last(), entries) + entries(rows.last())
    }
}

/// What a row of this kind adds to the timeline.
pub open spec fn paper_rule() -> spec_fn(PaperRow) -> Seq<ItemModel> {
    |r: PaperRow| paper_entries(r)
}

/// What a row of this kind adds to the timeline.
pub open spec fn annotation_rule() -> spec_fn(AnnotationRow) -> Seq<ItemModel> {
    |r: AnnotationRow| annotation_entries(r)
}

/// What a row of this kind adds to the timeline.
pub open spec fn note_rule() -> spec_fn(NoteRow) -> Seq<ItemModel> {
    |r: NoteRow| note_entries(r)
}

/// What a row of this kind adds to the timeline.
pub open spec fn topic_rule() -> spec_fn(TopicRow) -> Seq<ItemModel> {
    |r: TopicRow| topic_entries(r)
}

/// What a row of this kind adds to the timeline.
pub open spec fn source_rule() -> spec_fn(SourceRow) -> Seq<ItemModel> {
    |r: SourceRow| source_entries(r)
}

/// What a row of this kind adds to the timeline.
pub open spec fn knowledge_rule() -> spec_fn(KnowledgeRow) -> Seq<ItemModel> {
    |r: KnowledgeRow| knowledge_entries(r)
}

/// The entries of all modules.
pub open spec fn all_entries(rows: TimelineRows) -> Seq<ItemModel> {
    entries_of(rows.papers@, paper_rule())
        + entries_of(rows.annotations@, annotation_rule())
        + entries_of(rows.notes@, note_rule())
        + entries_of(rows.topics@, topic_rule())
        + entries_of(rows.sources@, source_rule())
        + entries_of(rows.knowledge@, knowledge_rule())
}

/// The entries of one module, or all of them.
pub open spec fn of_module(items: Seq<ItemModel>, module: Option<Seq<char>>) -> Seq<ItemModel>
    decreases items.len(),
{
    if items.len() == 0 {
        Seq::empty()
    } else if module is None || items.last().module == module->0 {
        of_module(items.drop_last(), module).push(items.last())
    } else {
        of_module(items.drop_last(), module)
    }
}

/// Later entries come first.
pub open spec fn newest_first() -> spec_fn(ItemModel, ItemModel) -> bool {
    |a: ItemModel, b: ItemModel| is_earlier(b.timestamp, a.timestamp)
}

/// `k`, moved into the range from 0 to `n`.
pub open spec fn clamped(k: int, n: int) -> int {
    if k < 0 {
        0
    } else if k > n {
        n
    } else {
        k
    }
}

/// The items from `offset` on, at most `limit` of them.
pub open spec fn page<T>(items: Seq<T>, limit: int, offset: int) -> Seq<T> {
    let lo = clamped(offset, items.len() as int);
    items.subrange(lo, lo + clamped(limit, items.len() - lo))
}

/// A page of the timeline.
pub open spec fn timeline(
    rows: TimelineRows,
    limit: int,
    offset: int,
    module: Option<Seq<char>>,
) -> Seq<ItemModel> {
    page(sorted(of_module(all_entries(rows), module), newest_first()), limit, offset)
}

proof fn lemma_of_module_concat(a: Seq<ItemModel>, b: Seq<ItemModel>, module: Option<Seq<char>>)
    ensures
        of_module(a + b, module) == of_module(a, module) + of_module(b, module),
    decreases b.len(),
{
    if b.len() == 0 {
        assert(a + b =~= a);
        assert(of_module(a, module) + Seq::<ItemModel>::empty() =~= of_module(a, module));
    } else {
        assert((a + b).drop_last() =~= a + b.drop_last());
        lemma_of_module_concat(a, b.drop_last(), module);
        let x = of_module(a, module);
        let y = of_module(b.drop_last(), module);
        assert((x + y).push(b.last()) =~= x + y.push(b.last()));
    }
}

/// Adds an entry, if it is of the module that is asked for.
fn push_item(items: &mut Vec<TimelineItem>, item: TimelineItem, module: &Option<String>)
    ensures
        item_models(final(items)@) == item_models(old(items)@) + of_module(
            seq![item@],
            opt_text(*module),
        ),
{
    let ghost before = item_models(items@);
    let ghost one = seq![item@];
    proof {
        assert(one.drop_last() =~= Seq::empty());
        assert(one.last() == item@);
        assert(of_module(one.drop_last(), opt_text(*module)) =~= Seq::empty());
    }
    match module {
        Some(m) => {
            if !same(item.module.as_str(), m.as_str()) {
                assert(before + Seq::<ItemModel>::empty() =~= before);
                return;
            }
        },
        None => {},
    }
    assert(of_module(one, opt_text(*module)) =~= one);
    items.push(item);
    assert(item_models(items@) =~= before + one);
}

/// A route parameter.
fn route_param(key: &str, value: &str) -> (r: Option<RouteParam>)
    ensures
        param_model(r) == param(key@, value@),
{
    Some(RouteParam { key: key.to_owned(), value: value.to_owned() })
}

fn add_paper(items: &mut Vec<TimelineItem>, r: &PaperRow, module: &Option<String>)
    ensures
        item_models(final(items)@) == item_models(old(items)@) + of_module(
            paper_entries(*r),
            opt_text(*module),
        ),
{
    let item = TimelineItem {
        id: concat2("paper-", r.id.as_str()),
        activity_type: "paper_imported".to_owned(),
        module: "library".to_owned(),
        title: r.title.clone(),
        subtitle: join_authors(r.authors.as_str()),
        timestamp: r.created_at.clone(),
        route: "/reader/$paperId".to_owned(),
        params: route_param("paperId", r.id.as_str()),
        search: None,
    };
    assert(paper_entries(*r) =~= seq![item@]);
    push_item(items, item, module);
}

fn line_on(label: &str, excerpt: &str) -> (r: Option<String>)
    ensures
        opt_text(r) == (if excerpt@.len() == 0 {
            None
        } else {
            Some(label@ + excerpt@)
        }),
{
    if excerpt.is_empty() {
        None
    } else {
        Some(concat2(label, excerpt))
    }
}

fn not_blank(o: &Option<String>) -> (r: bool)
    ensures
        r == says(*o),
{
    match o {
        Some(s) => !trimmed(s.as_str()).as_str().is_empty(),
        None => false,
    }
}

fn add_annotation(items: &mut Vec<TimelineItem>, r: &AnnotationRow, module: &Option<String>)
    ensures
        item_models(final(items)@) == item_models(old(items)@) + of_module(
            annotation_entries(*r),
            opt_text(*module),
        ),
{
    let ghost before = item_models(items@);
    let text = match &r.text {
        Some(t) => truncate(t.as_str(), 60),
        None => String::new(),
    };
    let marked = TimelineItem {
        id: concat2("snippet-created-", r.id.as_str()),
        activity_type: "snippet_created".to_owned(),
        module: "zhisi".to_owned(),
        title: r.paper_title.clone(),
        subtitle: line_on("新增摘录：", text.as_str()),
        timestamp: r.created_at.clone(),
        route: "/reader/$paperId".to_owned(),
        params: route_param("paperId", r.paper_id.as_str()),
        search: None,
    };
    let ghost first = marked@;
    push_item(items, marked, module);
    if not_blank(&r.translation) {
        let translated = TimelineItem {
            id: concat2("snippet-translated-", r.id.as_str()),
            activity_type: "snippet_translated".to_owned(),
            module: "zhisi".to_owned(),
            title: r.paper_title.clone(),
            subtitle: line_on("翻译摘录：", text.as_str()),
            timestamp: r.updated_at.clone(),
            route: "/reader/$paperId".to_owned(),
            params: route_param("paperId", r.paper_id.as_str()),
            search: None,
        };
        let ghost second = translated@;
        push_item(items, translated, module);
        proof {
            assert(annotation_entries(*r) =~= seq![first] + seq![second]);
            lemma_of_module_concat(seq![first], seq![second], opt_text(*module));
            let a = of_module(seq![first], opt_text(*module));
            let b = of_module(seq![second], opt_text(*module));
            assert(before + a + b =~= before + (a + b));
        }
    } else {
        assert(annotation_entries(*r) =~= seq![first]);
    }
}

fn note_item(r: &NoteRow, prefix: &str, activity: &str, subtitle: Option<String>, timestamp: &str)
    -> (item: TimelineItem)
    ensures
        item@ == (ItemModel {
            id: prefix@ + r.id@,
            activity_type: activity@,
            module: "notes"@,
            title: r.title@,
            subtitle: opt_text(subtitle),
            timestamp: timestamp@,
            route: "/notes"@,
            params: None,
            search: param("note"@, r.id@),
        }),
{
    TimelineItem {
        id: concat2(prefix, r.id.as_str()),
        activity_type: activity.to_owned(),
        module: "notes".to_owned(),
        title: r.title.clone(),
        subtitle,
        timestamp: timestamp.to_owned(),
        route: "/notes".to_owned(),
        params: None,
        search: route_param("note", r.id.as_str()),
    }
}

fn add_note(items: &mut Vec<TimelineItem>, r: &NoteRow, module: &Option<String>)
    ensures
        item_models(final(items)@) == item_models(old(items)@) + of_module(
            note_entries(*r),
            opt_text(*module),
        ),
{
    let ghost before = item_models(items@);
    let ghost m = opt_text(*module);
    let ghost nothing = Seq::<ItemModel>::empty();
    let ghost mut head = nothing;
    let ghost mut tail = nothing;
    let agent_last = match &r.agent_edited_at {
        Some(at) => same(at.as_str(), r.updated_at.as_str()),
        None => false,
    };
    if agent_last {
        let item = note_item(
            r,
            "note-agent-",
            "note_agent_edited",
            Some("AI 整理笔记".to_owned()),
            r.updated_at.as_str(),
        );
        proof {
            head = seq![item@];
        }
        push_item(items, item, module);
    }
    assert(item_models(items@) =~= before + of_module(head, m));
    let written = note_item(r, "note-created-", "note_created", None, r.created_at.as_str());
    let ghost middle = seq![written@];
    push_item(items, written, module);
    let ghost so_far = item_models(items@);
    if earlier(r.created_at.as_str(), r.updated_at.as_str()) && !agent_last {
        let item = note_item(
            r,
            "note-updated-",
            "note_updated",
            Some("编辑笔记".to_owned()),
            r.updated_at.as_str(),
        );
        proof {
            tail = seq![item@];
        }
        push_item(items, item, module);
    }
    assert(item_models(items@) =~= so_far + of_module(tail, m));
    proof {
        assert(note_entries(*r) =~= head + middle + tail);
        lemma_of_module_concat(head, middle, m);
        lemma_of_module_concat(head + middle, tail, m);
        let (a, b, c) = (of_module(head, m), of_module(middle, m), of_module(tail, m));
        assert(before + a + b + c =~= before + (a + b + c));
    }
}

fn add_topic(items: &mut Vec<TimelineItem>, r: &TopicRow, module: &Option<String>)
    ensures
        item_models(final(items)@) == item_models(old(items)@) + of_module(
            topic_entries(*r),
            opt_text(*module),
        ),
{
    let item = TimelineItem {
        id: concat2("topic-", r.id.as_str()),
        activity_type: "research_topic_created".to_owned(),
        module: "research".to_owned(),
        title: r.name.clone(),
        subtitle: Some("新建科研课题".to_owned()),
        timestamp: r.created_at.clone(),
        route: "/research/$topicId".to_owned(),
        params: route_param("topicId", r.id.as_str()),
        search: None,
    };
    assert(topic_entries(*r) =~= seq![item@]);
    push_item(items, item, module);
}

fn add_source(items: &mut Vec<TimelineItem>, r: &SourceRow, module: &Option<String>)
    ensures
        item_models(final(items)@) == item_models(old(items)@) + of_module(
            source_entries(*r),
            opt_text(*module),
        ),
{
    let title = match &r.title {
        Some(t) => if trimmed(t.as_str()).as_str().is_empty() {
            "未命名文献".to_owned()
        } else {
            t.clone()
        },
        None => "未命名文献".to_owned(),
    };
    let mut subtitle = concat2("课题：", r.topic_name.as_str());
    match &r.authors {
        Some(a) => {
            if !trimmed(a.as_str()).as_str().is_empty() {
                subtitle.append(" · ");
                subtitle.append(truncate(a.as_str(), 60).as_str());
            }
        },
        None => {},
    }
    let item = TimelineItem {
        id: concat2("source-", r.id.as_str()),
        activity_type: "research_source_discovered".to_owned(),
        module: "research".to_owned(),
        title,
        subtitle: Some(subtitle),
        timestamp: r.discovered_at.clone(),
        route: "/research/$topicId".to_owned(),
        params: route_param("topicId", r.topic_id.as_str()),
        search: None,
    };
    assert(source_entries(*r) =~= seq![item@]);
    push_item(items, item, module);
}

fn add_knowledge(items: &mut Vec<TimelineItem>, r: &KnowledgeRow, module: &Option<String>)
    ensures
        item_models(final(items)@) == item_models(old(items)@) + of_module(
            knowledge_entries(*r),
            opt_text(*module),
        ),
{
    let item = TimelineItem {
        id: concat2("knowledge-", r.id.as_str()),
        activity_type: "knowledge_item_created".to_owned(),
        module: "knowledge".to_owned(),
        title: r.title.clone(),
        subtitle: Some(concat2("知识库 · ", r.domain_name.as_str())),
        timestamp: r.created_at.clone(),
        route: "/knowledge/$domainId".to_owned(),
        params: route_param("domainId", r.domain_id.as_str()),
        search: None,
    };
    assert(knowledge_entries(*r) =~= seq![item@]);
    push_item(items, item, module);
}

fn add_all_papers(items: &mut Vec<TimelineItem>, rows: &Vec<PaperRow>, module: &Option<String>)
    ensures
        item_models(final(items)@) == item_models(old(items)@) + of_module(
            entries_of(rows@, paper_rule()),
            opt_text(*module),
        ),
{
    let ghost before = item_models(items@);
    let ghost m = opt_text(*module);
    let mut i: usize = 0;
    assert(before + Seq::<ItemModel>::empty() =~= before);
    while i < rows.len()
        invariant
            i <= rows.len(),
            m == opt_text(*module),
            item_models(items@) == before + of_module(
                entries_of(rows@.take(i as int), paper_rule()),
                m,
            ),
        decreases rows.len() - i,
    {
        add_paper(items, &rows[i], module);
        proof {
            let shorter = entries_of(rows@.take(i as int), paper_rule());
            let next = paper_entries(rows@[i as int]);
            assert(rows@.take(i + 1).drop_last() =~= rows@.take(i as int));
            lemma_of_module_concat(shorter, next, m);
            assert(before + of_module(shorter, m) + of_module(next, m) =~= before + (of_module(
                shorter,
                m,
            ) + of_module(next, m)));
        }
        i += 1;
    }
    assert(rows@.take(rows@.len() as int) =~= rows@);
}

fn add_all_annotations(items: &mut Vec<TimelineItem>, rows: &Vec<AnnotationRow>, module: &Option<String>)
    ensures
        item_models(final(items)@) == item_models(old(items)@) + of_module(
            entries_of(rows@, annotation_rule()),
            opt_text(*module),
        ),
{
    let ghost before = item_models(items@);
    let ghost m = opt_text(*module);
    let mut i: usize = 0;
    assert(before + Seq::<ItemModel>::empty() =~= before);
    while i < rows.len()
        invariant
            i <= rows.len(),
            m == opt_text(*module),
            item_models(items@) == before + of_module(
                entries_of(rows@.take(i as int), annotation_rule()),
                m,
            ),
        decreases rows.len() - i,
    {
        add_annotation(items, &rows[i], module);
        proof {
            let shorter = entries_of(rows@.take(i as int), annotation_rule());
            let next = annotation_entries(rows@[i as int]);
            assert(rows@.take(i + 1).drop_last() =~= rows@.take(i as int));
            lemma_of_module_concat(shorter, next, m);
            assert(before + of_module(shorter, m) + of_module(next, m) =~= before + (of_module(
                shorter,
                m,
            ) + of_module(next, m)));
        }
        i += 1;
    }
    assert(rows@.take(rows@.len() as int) =~= rows@);
}

fn add_all_notes(items: &mut Vec<TimelineItem>, rows: &Vec<NoteRow>, module: &Option<String>)
    ensures
        item_models(final(items)@) == item_models(old(items)@) + of_module(
            entries_of(rows@, note_rule()),
            opt_text(*module),
        ),
{
    let ghost before = item_models(items@);
    let ghost m = opt_text(*module);
    let mut i: usize = 0;
    assert(before + Seq::<ItemModel>::empty() =~= before);
    while i < rows.len()
        invariant
            i <= rows.len(),
            m == opt_text(*module),
            item_models(items@) == before + of_module(
                entries_of(rows@.take(i as int), note_rule()),
                m,
            ),
        decreases rows.len() - i,
    {
        add_note(items, &rows[i], module);
        proof {
            let shorter = entries_of(rows@.take(i as int), note_rule());
            let next = note_entries(rows@[i as int]);
            assert(rows@.take(i + 1).drop_last() =~= rows@.take(i as int));
            lemma_of_module_concat(shorter, next, m);
            assert(before + of_module(shorter, m) + of_module(next, m) =~= before + (of_module(
                shorter,
                m,
            ) + of_module(next, m)));
        }
        i += 1;
    }
    assert(rows@.take(rows@.len() as int) =~= rows@);
}

fn add_all_topics(items: &mut Vec<TimelineItem>, rows: &Vec<TopicRow>, module: &Option<String>)
    ensures
        item_models(final(items)@) == item_models(old(items)@) + of_module(
            entries_of(rows@, topic_rule()),
            opt_text(*module),
        ),
{
    let ghost before = item_models(items@);
    let ghost m = opt_text(*module);
    let mut i: usize = 0;
    assert(before + Seq::<ItemModel>::empty() =~= before);
    while i < rows.len()
        invariant
            i <= rows.len(),
            m == opt_text(*module),
            item_models(items@) == before + of_module(
                entries_of(rows@.take(i as int), topic_rule()),
                m,
            ),
        decreases rows.len() - i,
    {
        add_topic(items, &rows[i], module);
        proof {
            let shorter = entries_of(rows@.take(i as int), topic_rule());
            let next = topic_entries(rows@[i as int]);
            assert(rows@.take(i + 1).drop_last() =~= rows@.take(i as int));
            lemma_of_module_concat(shorter, next, m);
            assert(before + of_module(shorter, m) + of_module(next, m) =~= before + (of_module(
                shorter,
                m,
            ) + of_module(next, m)));
        }
        i += 1;
    }
    assert(rows@.take(rows@.len() as int) =~= rows@);
}

fn add_all_sources(items: &mut Vec<TimelineItem>, rows: &Vec<SourceRow>, module: &Option<String>)
    ensures
        item_models(final(items)@) == item_models(old(items)@) + of_module(
            entries_of(rows@, source_rule()),
            opt_text(*module),
        ),
{
    let ghost before = item_models(items@);
    let ghost m = opt_text(*module);
    let mut i: usize = 0;
    assert(before + Seq::<ItemModel>::empty() =~= before);
    while i < rows.len()
        invariant
            i <= rows.len(),
            m == opt_text(*module),
            item_models(items@) == before + of_module(
                entries_of(rows@.take(i as int), source_rule()),
                m,
            ),
        decreases rows.len() - i,
    {
        add_source(items, &rows[i], module);
        proof {
            let shorter = entries_of(rows@.take(i as int), source_rule());
            let next = source_entries(rows@[i as int]);
            assert(rows@.take(i + 1).drop_last() =~= rows@.take(i as int));
            lemma_of_module_concat(shorter, next, m);
            assert(before + of_module(shorter, m) + of_module(next, m) =~= before + (of_module(
                shorter,
                m,
            ) + of_module(next, m)));
        }
        i += 1;
    }
    assert(rows@.take(rows@.len() as int) =~= rows@);
}

fn add_all_knowledge(items: &mut Vec<TimelineItem>, rows: &Vec<KnowledgeRow>, module: &Option<String>)
    ensures
        item_models(final(items)@) == item_models(old(items)@) + of_module(
            entries_of(rows@, knowledge_rule()),
            opt_text(*module),
        ),
{
    let ghost before = item_models(items@);
    let ghost m = opt_text(*module);
    let mut i: usize = 0;
    assert(before + Seq::<ItemModel>::empty() =~= before);
    while i < rows.len()
        invariant
            i <= rows.len(),
            m == opt_text(*module),
            item_models(items@) == before + of_module(
                entries_of(rows@.take(i as int), knowledge_rule()),
                m,
            ),
        decreases rows.len() - i,
    {
        add_knowledge(items, &rows[i], module);
        proof {
            let shorter = entries_of(rows@.take(i as int), knowledge_rule());
            let next = knowledge_entries(rows@[i as int]);
            assert(rows@.take(i + 1).drop_last() =~= rows@.take(i as int));
            lemma_of_module_concat(shorter, next, m);
            assert(before + of_module(shorter, m) + of_module(next, m) =~= before + (of_module(
                shorter,
                m,
            ) + of_module(next, m)));
        }
        i += 1;
    }
    assert(rows@.take(rows@.len() as int) =~= rows@);
}

fn copy_param(p: &Option<RouteParam>) -> (r: Option<RouteParam>)
    ensures
        param_model(r) == param_model(*p),
{
    match p {
        Some(p) => Some(RouteParam { key: p.key.clone(), value: p.value.clone() }),
        None => None,
    }
}

fn copy_item(i: &TimelineItem) -> (r: TimelineItem)
    ensures
        r@ == i@,
{
    TimelineItem {
        id: i.id.clone(),
        activity_type: i.activity_type.clone(),
        module: i.module.clone(),
        title: i.title.clone(),
        subtitle: copy_opt(&i.subtitle),
        timestamp: i.timestamp.clone(),
        route: i.route.clone(),
        params: copy_param(&i.params),
        search: copy_param(&i.search),
    }
}

fn clamp(k: i64, n: usize) -> (r: usize)
    ensures
        r == clamped(k as int, n as int),
{
    if k < 0 {
        0
    } else if k as u64 > n as u64 {
        n
    } else {
        k as usize
    }
}

/// A page of the timeline: the entries of all modules or of one, newest first, from `offset` on and
/// at most `limit` of them. The modules are library, zhisi, notes, research and knowledge.
pub fn list_timeline(rows: &TimelineRows, limit: i64, offset: i64, module: &Option<String>) -> (r:
    Vec<TimelineItem>)
    ensures
        item_models(r@) == timeline(*rows, limit as int, offset as int, opt_text(*module)),
{
    let ghost m = opt_text(*module);
    let mut items: Vec<TimelineItem> = Vec::new();
    let ghost none = Seq::<ItemModel>::empty();
    assert(item_models(items@) =~= none);
    add_all_papers(&mut items, &rows.papers, module);
    add_all_annotations(&mut items, &rows.annotations, module);
    add_all_notes(&mut items, &rows.notes, module);
    add_all_topics(&mut items, &rows.topics, module);
    add_all_sources(&mut items, &rows.sources, module);
    add_all_knowledge(&mut items, &rows.knowledge, module);
    let ghost all = item_models(items@);
    proof {
        let a = entries_of(rows.papers@, paper_rule());
        let b = entries_of(rows.annotations@, annotation_rule());
        let c = entries_of(rows.notes@, note_rule());
        let d = entries_of(rows.topics@, topic_rule());
        let e = entries_of(rows.sources@, source_rule());
        let f = entries_of(rows.knowledge@, knowledge_rule());
        lemma_of_module_concat(a, b, m);
        lemma_of_module_concat(a + b, c, m);
        lemma_of_module_concat(a + b + c, d, m);
        lemma_of_module_concat(a + b + c + d, e, m);
        lemma_of_module_concat(a + b + c + d + e, f, m);
        assert(none + of_module(a, m) =~= of_module(a, m));
        assert(all == of_module(all_entries(*rows), m));
    }
    let mut keys: Vec<Vec<char>> = Vec::new();
    let mut i: usize = 0;
    while i < items.len()
        invariant
            i <= items.len(),
            keys.len() == i,
            all == item_models(items@),
            forall|j: int| 0 <= j < i ==> (#[trigger] keys@[j])@ == time_key(all[j].timestamp),
        decreases items.len() - i,
    {
        keys.push(chars_of(key_of(items[i].timestamp.as_str()).as_str()));
        i += 1;
    }
    let order = order_greatest_first(&keys);
    let ghost by_index = greatest_first(char_rows(keys@));
    proof {
        assert forall|a: int, b: int| 0 <= a < all.len() && 0 <= b < all.len() implies #[trigger] by_index(
            a,
            b,
        ) == newest_first()(all[a], all[b]) by {
            assert(char_rows(keys@)[a] == keys@[a]@);
            assert(char_rows(keys@)[b] == keys@[b]@);
        }
        lemma_sorted_by_index(all, all.len(), by_index, newest_first());
        assert(all.take(all.len() as int) =~= all);
    }
    let ghost result = sorted(all, newest_first());
    let lo = clamp(offset, order.len());
    let n = clamp(limit, order.len() - lo);
    let mut out: Vec<TimelineItem> = Vec::new();
    let mut k: usize = 0;
    assert(item_models(out@) =~= result.subrange(lo as int, lo as int));
    while k < n
        invariant
            k <= n,
            lo + n <= order.len(),
            order.len() == items.len(),
            all == item_models(items@),
            result.len() == order.len(),
            result == at_places(all, place_list(order@)),
            forall|j: int| 0 <= j < order.len() ==> #[trigger] order@[j] < items.len(),
            item_models(out@) == result.subrange(lo as int, lo + k),
        decreases n - k,
    {
        let ghost before = item_models(out@);
        let at = order[lo + k];
        out.push(copy_item(&items[at]));
        proof {
            assert(place_list(order@)[lo + k] == at);
            assert(item_models(out@) =~= before.push(all[at as int]));
            assert(result.subrange(lo as int, lo + k + 1) =~= result.subrange(
                lo as int,
                lo + k,
            ).push(result[lo + k]));
        }
        k += 1;
    }
    out
}

// ---------------------------------------------------------------------------------------------
// Laws
// ---------------------------------------------------------------------------------------------
/// That one entry is later than another orders the entries.
pub proof fn lemma_newest_first()
    ensures
        orders(newest_first()),
{
    let before = newest_first();
    assert forall|a: ItemModel, b: ItemModel| #[trigger] before(a, b) implies !before(b, a) by {
        lemma_text_before(
            time_key(b.timestamp),
            time_key(a.timestamp),
            time_key(a.timestamp),
        );
    }
    assert forall|a: ItemModel, b: ItemModel, c: ItemModel| #[trigger]
        before(a, c) implies #[trigger] before(a, b) || #[trigger] before(b, c) by {
        lemma_text_before(
            time_key(c.timestamp),
            time_key(b.timestamp),
            time_key(a.timestamp),
        );
    }
}

/// Every page of the timeline is newest first.
pub proof fn law_timeline_newest_first(
    rows: TimelineRows,
    limit: int,
    offset: int,
    module: Option<Seq<char>>,
)
    ensures
        in_order(timeline(rows, limit, offset, module), newest_first()),
{
    let before = newest_first();
    lemma_newest_first();
    let items = of_module(all_entries(rows), module);
    law_sorted(items, before);
    let s = sorted(items, before);
    let lo = clamped(offset, s.len() as int);
    let p = timeline(rows, limit, offset, module);
    assert forall|i: int, j: int| 0 <= i < j < p.len() implies !before(
        #[trigger] p[j],
        #[trigger] p[i],
    ) by {
        assert(p[i] == s[lo + i] && p[j] == s[lo + j]);
    }
}

proof fn lemma_of_module(items: Seq<ItemModel>, module: Seq<char>)
    ensures
        forall|i: int|
            0 <= i < of_module(items, Some(module)).len() ==> (#[trigger] of_module(
                items,
                Some(module),
            )[i]).module == module,
    decreases items.len(),
{
    if items.len() > 0 {
        lemma_of_module(items.drop_last(), module);
    }
}

/// A timeline of one module holds entries of that module only.
pub proof fn law_timeline_of_one_module(
    rows: TimelineRows,
    limit: int,
    offset: int,
    module: Seq<char>,
)
    ensures
        forall|i: int|
            0 <= i < timeline(rows, limit, offset, Some(module)).len() ==> (#[trigger] timeline(
                rows,
                limit,
                offset,
                Some(module),
            )[i]).module == module,
{
    let items = of_module(all_entries(rows), Some(module));
    let s = sorted(items, newest_first());
    lemma_of_module(all_entries(rows), module);
    lemma_sorted_members(items, newest_first());
    let p = timeline(rows, limit, offset, Some(module));
    let lo = clamped(offset, s.len() as int);
    assert forall|i: int| 0 <= i < p.len() implies (#[trigger] p[i]).module == module by {
        assert(p[i] == s[lo + i]);
        assert(items.contains(s[lo + i]));
        let k = choose|k: int| 0 <= k < items.len() && items[k] == s[lo + i];
        assert(items[k].module == module);
    }
}

/// A page never holds more than `limit` entries, and pages that follow one another join without a
/// gap.
pub proof fn law_pages_join(
    rows: TimelineRows,
    limit: int,
    more: int,
    offset: int,
    module: Option<Seq<char>>,
)
    requires
        limit >= 0,
        more >= 0,
        offset >= 0,
    ensures
        timeline(rows, limit, offset, module).len() <= limit,
        timeline(rows, limit + more, offset, module) == timeline(rows, limit, offset, module)
            + timeline(rows, more, offset + limit, module),
{
    let s = sorted(of_module(all_entries(rows), module), newest_first());
    assert(page(s, limit + more, offset) =~= page(s, limit, offset) + page(
        s,
        more,
        offset + limit,
    ));
}

/// Whether no two entries have one id.
pub open spec fn ids_differ(items: Seq<ItemModel>) -> bool {
    forall|i: int, j: int| 0 <= i < j < items.len() ==> #[trigger] items[i].id != #[trigger] items[j].id
}

/// Whether no two rows of a table have one id.
pub open spec fn keys_differ(rows: TimelineRows) -> bool {
    &&& forall|i: int, j: int|
        0 <= i < j < rows.papers@.len() ==> (#[trigger] rows.papers@[i]).id@ != (
        #[trigger] rows.papers@[j]).id@
    &&& forall|i: int, j: int|
        0 <= i < j < rows.annotations@.len() ==> (#[trigger] rows.annotations@[i]).id@ != (
        #[trigger] rows.annotations@[j]).id@
    &&& forall|i: int, j: int|
        0 <= i < j < rows.notes@.len() ==> (#[trigger] rows.notes@[i]).id@ != (
        #[trigger] rows.notes@[j]).id@
    &&& forall|i: int, j: int|
        0 <= i < j < rows.topics@.len() ==> (#[trigger] rows.topics@[i]).id@ != (
        #[trigger] rows.topics@[j]).id@
    &&& forall|i: int, j: int|
        0 <= i < j < rows.sources@.len() ==> (#[trigger] rows.sources@[i]).id@ != (
        #[trigger] rows.sources@[j]).id@
    &&& forall|i: int, j: int|
        0 <= i < j < rows.knowledge@.len() ==> (#[trigger] rows.knowledge@[i]).id@ != (
        #[trigger] rows.knowledge@[j]).id@
}

/// Which table an entry comes from, by the first two letters of its id.
spec fn table_mark(item: ItemModel) -> int {
    if item.id.len() < 2 {
        -1
    } else if item.id[0] == 's' {
        item.id[1] as int
    } else {
        1000 + item.id[0] as int
    }
}

spec fn marked(items: Seq<ItemModel>, mark: int) -> bool {
    forall|i: int| 0 <= i < items.len() ==> table_mark(#[trigger] items[i]) == mark
}

spec fn apart(a: Seq<ItemModel>, b: Seq<ItemModel>) -> bool {
    forall|i: int, j: int|
        0 <= i < a.len() && 0 <= j < b.len() ==> #[trigger] a[i].id != #[trigger] b[j].id
}

proof fn lemma_marks_apart(a: Seq<ItemModel>, b: Seq<ItemModel>, k: int, m: int)
    requires
        marked(a, k),
        marked(b, m),
        k != m,
    ensures
        apart(a, b),
{
    assert forall|i: int, j: int| 0 <= i < a.len() && 0 <= j < b.len() implies #[trigger] a[i].id
        != #[trigger] b[j].id by {
        assert(table_mark(a[i]) == k && table_mark(b[j]) == m);
    }
}

proof fn lemma_ids_joined(a: Seq<ItemModel>, b: Seq<ItemModel>)
    requires
        ids_differ(a),
        ids_differ(b),
        apart(a, b),
    ensures
        ids_differ(a + b),
{
    let s = a + b;
    assert forall|i: int, j: int| 0 <= i < j < s.len() implies #[trigger] s[i].id
        != #[trigger] s[j].id by {
        let n = a.len() as int;
        if j < n {
            assert(a[i].id != a[j].id);
        } else if i < n {
            assert(a[i].id != b[j - n].id);
        } else {
            assert(b[i - n].id != b[j - n].id);
        }
    }
}

proof fn lemma_apart_joined(a: Seq<ItemModel>, b: Seq<ItemModel>, c: Seq<ItemModel>)
    requires
        apart(a, c),
        apart(b, c),
    ensures
        apart(a + b, c),
{
    let s = a + b;
    assert forall|i: int, j: int| 0 <= i < s.len() && 0 <= j < c.len() implies #[trigger] s[i].id
        != #[trigger] c[j].id by {
        if i < a.len() {
            assert(a[i].id != c[j].id);
        } else {
            assert(b[i - a.len()].id != c[j].id);
        }
    }
}

/// The entries of one table differ where those of each row do and those of two rows do.
proof fn lemma_table<T>(rows: Seq<T>, entries: spec_fn(T) -> Seq<ItemModel>, mark: int)
    requires
        forall|i: int| 0 <= i < rows.len() ==> ids_differ(entries(#[trigger] rows[i])),
        forall|i: int| 0 <= i < rows.len() ==> marked(entries(#[trigger] rows[i]), mark),
        forall|i: int, j: int|
            0 <= i < j < rows.len() ==> apart(
                entries(#[trigger] rows[i]),
                entries(#[trigger] rows[j]),
            ),
    ensures
        ids_differ(entries_of(rows, entries)),
        marked(entries_of(rows, entries), mark),
    decreases rows.len(),
{
    if rows.len() > 0 {
        let front = rows.drop_last();
        let last = entries(rows.last());
        assert forall|i: int| 0 <= i < front.len() implies ids_differ(
            entries(#[trigger] front[i]),
        ) && marked(entries(front[i]), mark) by {
            assert(front[i] == rows[i]);
        }
        assert forall|i: int, j: int| 0 <= i < j < front.len() implies apart(
            entries(#[trigger] front[i]),
            entries(#[trigger] front[j]),
        ) by {
            assert(front[i] == rows[i] && front[j] == rows[j]);
        }
        lemma_table(front, entries, mark);
        assert(rows.last() == rows[rows.len() - 1]);
        lemma_rows_apart(rows, entries, rows.len() - 1);
        assert(rows.take(rows.len() - 1) =~= front);
        lemma_ids_joined(entries_of(front, entries), last);
        let s = entries_of(front, entries) + last;
        assert forall|i: int| 0 <= i < s.len() implies table_mark(#[trigger] s[i]) == mark by {
            if i < entries_of(front, entries).len() {
                assert(s[i] == entries_of(front, entries)[i]);
            } else {
                assert(s[i] == last[i - entries_of(front, entries).len()]);
            }
        }
    }
}

proof fn lemma_rows_apart<T>(rows: Seq<T>, entries: spec_fn(T) -> Seq<ItemModel>, n: int)
    requires
        0 <= n < rows.len(),
        forall|i: int, j: int|
            0 <= i < j < rows.len() ==> apart(
                entries(#[trigger] rows[i]),
                entries(#[trigger] rows[j]),
            ),
    ensures
        apart(entries_of(rows.take(n), entries), entries(rows.last())),
    decreases n,
{
    if n > 0 {
        let front = rows.take(n);
        assert(front.drop_last() =~= rows.take(n - 1));
        assert(front.last() == rows[n - 1]);
        lemma_rows_apart(rows, entries, n - 1);
        assert(rows.last() == rows[rows.len() - 1]);
        if n - 1 < rows.len() - 1 {
            assert(apart(entries(rows[n - 1]), entries(rows[rows.len() - 1])));
        }
        lemma_apart_joined(
            entries_of(rows.take(n - 1), entries),
            entries(rows[n - 1]),
            entries(rows.last()),
        );
    }
}

proof fn lemma_prefix_differs(p: Seq<char>, a: Seq<char>, b: Seq<char>)
    requires
        a != b,
    ensures
        p + a != p + b,
{
    if p + a == p + b {
        assert((p + a).skip(p.len() as int) =~= a);
        assert((p + b).skip(p.len() as int) =~= b);
    }
}

proof fn lemma_paper_ids(rows: Seq<PaperRow>)
    requires
        forall|i: int, j: int|
            0 <= i < j < rows.len() ==> (#[trigger] rows[i]).id@ != (#[trigger] rows[j]).id@,
    ensures
        ids_differ(entries_of(rows, paper_rule())),
        marked(entries_of(rows, paper_rule()), 1000 + 'p' as int),
{
    reveal_strlit("paper-");
    let rule = paper_rule();
    assert forall|i: int| 0 <= i < rows.len() implies ids_differ(rule(#[trigger] rows[i]))
        && marked(rule(rows[i]), 1000 + 'p' as int) by {
        assert(rule(rows[i]) == paper_entries(rows[i]));
        assert(rule(rows[i])[0].id[0] == "paper-"@[0] && rule(rows[i])[0].id[1] == "paper-"@[1]);
    }
    assert forall|i: int, j: int| 0 <= i < j < rows.len() implies apart(
        rule(#[trigger] rows[i]),
        rule(#[trigger] rows[j]),
    ) by {
        lemma_prefix_differs("paper-"@, rows[i].id@, rows[j].id@);
    }
    lemma_table(rows, rule, 1000 + 'p' as int);
}

proof fn lemma_topic_ids(rows: Seq<TopicRow>)
    requires
        forall|i: int, j: int|
            0 <= i < j < rows.len() ==> (#[trigger] rows[i]).id@ != (#[trigger] rows[j]).id@,
    ensures
        ids_differ(entries_of(rows, topic_rule())),
        marked(entries_of(rows, topic_rule()), 1000 + 't' as int),
{
    reveal_strlit("topic-");
    let rule = topic_rule();
    assert forall|i: int| 0 <= i < rows.len() implies ids_differ(rule(#[trigger] rows[i]))
        && marked(rule(rows[i]), 1000 + 't' as int) by {
        assert(rule(rows[i]) == topic_entries(rows[i]));
        assert(rule(rows[i])[0].id[0] == "topic-"@[0] && rule(rows[i])[0].id[1] == "topic-"@[1]);
    }
    assert forall|i: int, j: int| 0 <= i < j < rows.len() implies apart(
        rule(#[trigger] rows[i]),
        rule(#[trigger] rows[j]),
    ) by {
        lemma_prefix_differs("topic-"@, rows[i].id@, rows[j].id@);
    }
    lemma_table(rows, rule, 1000 + 't' as int);
}

proof fn lemma_source_ids(rows: Seq<SourceRow>)
    requires
        forall|i: int, j: int|
            0 <= i < j < rows.len() ==> (#[trigger] rows[i]).id@ != (#[trigger] rows[j]).id@,
    ensures
        ids_differ(entries_of(rows, source_rule())),
        marked(entries_of(rows, source_rule()), 'o' as int),
{
    reveal_strlit("source-");
    let rule = source_rule();
    assert forall|i: int| 0 <= i < rows.len() implies ids_differ(rule(#[trigger] rows[i]))
        && marked(rule(rows[i]), 'o' as int) by {
        assert(rule(rows[i]) == source_entries(rows[i]));
        assert(rule(rows[i])[0].id[0] == "source-"@[0] && rule(rows[i])[0].id[1] == "source-"@[1]);
    }
    assert forall|i: int, j: int| 0 <= i < j < rows.len() implies apart(
        rule(#[trigger] rows[i]),
        rule(#[trigger] rows[j]),
    ) by {
        lemma_prefix_differs("source-"@, rows[i].id@, rows[j].id@);
    }
    lemma_table(rows, rule, 'o' as int);
}

proof fn lemma_knowledge_ids(rows: Seq<KnowledgeRow>)
    requires
        forall|i: int, j: int|
            0 <= i < j < rows.len() ==> (#[trigger] rows[i]).id@ != (#[trigger] rows[j]).id@,
    ensures
        ids_differ(entries_of(rows, knowledge_rule())),
        marked(entries_of(rows, knowledge_rule()), 1000 + 'k' as int),
{
    reveal_strlit("knowledge-");
    let rule = knowledge_rule();
    assert forall|i: int| 0 <= i < rows.len() implies ids_differ(rule(#[trigger] rows[i]))
        && marked(rule(rows[i]), 1000 + 'k' as int) by {
        assert(rule(rows[i]) == knowledge_entries(rows[i]));
        assert(rule(rows[i])[0].id[0] == "knowledge-"@[0] && rule(rows[i])[0].id[1] == "knowledge-"@[1]);
    }
    assert forall|i: int, j: int| 0 <= i < j < rows.len() implies apart(
        rule(#[trigger] rows[i]),
        rule(#[trigger] rows[j]),
    ) by {
        lemma_prefix_differs("knowledge-"@, rows[i].id@, rows[j].id@);
    }
    lemma_table(rows, rule, 1000 + 'k' as int);
}

proof fn lemma_annotation_ids(rows: Seq<AnnotationRow>)
    requires
        forall|i: int, j: int|
            0 <= i < j < rows.len() ==> (#[trigger] rows[i]).id@ != (#[trigger] rows[j]).id@,
    ensures
        ids_differ(entries_of(rows, annotation_rule())),
        marked(entries_of(rows, annotation_rule()), 'n' as int),
{
    reveal_strlit("snippet-created-");
    reveal_strlit("snippet-translated-");
    let rule = annotation_rule();
    assert forall|i: int| 0 <= i < rows.len() implies ids_differ(rule(#[trigger] rows[i]))
        && marked(rule(rows[i]), 'n' as int) by {
        let a = rule(rows[i]);
        assert(a == annotation_entries(rows[i]));
        assert forall|k: int, m: int| 0 <= k < m < a.len() implies #[trigger] a[k].id
            != #[trigger] a[m].id by {
            assert(a[k].id[8] != a[m].id[8]);
        }
    }
    assert forall|i: int, j: int| 0 <= i < j < rows.len() implies apart(
        rule(#[trigger] rows[i]),
        rule(#[trigger] rows[j]),
    ) by {
        let a = rule(rows[i]);
        let b = rule(rows[j]);
        assert(a == annotation_entries(rows[i]) && b == annotation_entries(rows[j]));
        lemma_prefix_differs("snippet-created-"@, rows[i].id@, rows[j].id@);
        lemma_prefix_differs("snippet-translated-"@, rows[i].id@, rows[j].id@);
        assert forall|k: int, m: int| 0 <= k < a.len() && 0 <= m < b.len() implies #[trigger] a[k].id
            != #[trigger] b[m].id by {
            if a[k].id == b[m].id {
                assert(a[k].id[8] == b[m].id[8]);
            }
        }
    }
    lemma_table(rows, rule, 'n' as int);
}

proof fn lemma_note_ids(rows: Seq<NoteRow>)
    requires
        forall|i: int, j: int|
            0 <= i < j < rows.len() ==> (#[trigger] rows[i]).id@ != (#[trigger] rows[j]).id@,
    ensures
        ids_differ(entries_of(rows, note_rule())),
        marked(entries_of(rows, note_rule()), 1000 + 'n' as int),
{
    reveal_strlit("note-created-");
    reveal_strlit("note-agent-");
    reveal_strlit("note-updated-");
    let rule = note_rule();
    assert forall|i: int| 0 <= i < rows.len() implies ids_differ(rule(#[trigger] rows[i]))
        && marked(rule(rows[i]), 1000 + 'n' as int) by {
        let a = rule(rows[i]);
        assert(a == note_entries(rows[i]));
        assert forall|k: int, m: int| 0 <= k < m < a.len() implies #[trigger] a[k].id
            != #[trigger] a[m].id by {
            assert(a[k].id[5] != a[m].id[5]);
        }
    }
    assert forall|i: int, j: int| 0 <= i < j < rows.len() implies apart(
        rule(#[trigger] rows[i]),
        rule(#[trigger] rows[j]),
    ) by {
        let a = rule(rows[i]);
        let b = rule(rows[j]);
        assert(a == note_entries(rows[i]) && b == note_entries(rows[j]));
        lemma_prefix_differs("note-created-"@, rows[i].id@, rows[j].id@);
        lemma_prefix_differs("note-agent-"@, rows[i].id@, rows[j].id@);
        lemma_prefix_differs("note-updated-"@, rows[i].id@, rows[j].id@);
        assert forall|k: int, m: int| 0 <= k < a.len() && 0 <= m < b.len() implies #[trigger] a[k].id
            != #[trigger] b[m].id by {
            if a[k].id == b[m].id {
                assert(a[k].id[5] == b[m].id[5]);
            }
        }
    }
    lemma_table(rows, rule, 1000 + 'n' as int);
}

proof fn lemma_module_ids(items: Seq<ItemModel>, module: Option<Seq<char>>)
    requires
        ids_differ(items),
    ensures
        ids_differ(of_module(items, module)),
        forall|i: int|
            0 <= i < of_module(items, module).len() ==> items.contains(
                #[trigger] of_module(items, module)[i],
            ),
    decreases items.len(),
{
    if items.len() > 0 {
        let front = items.drop_last();
        let n = items.len() - 1;
        assert forall|i: int, j: int| 0 <= i < j < front.len() implies #[trigger] front[i].id
            != #[trigger] front[j].id by {
            assert(items[i].id != items[j].id);
        }
        lemma_module_ids(front, module);
        let kept = of_module(front, module);
        assert forall|i: int| 0 <= i < kept.len() implies items.contains(#[trigger] kept[i])
            && kept[i].id != items[n].id by {
            assert(front.contains(kept[i]));
            let k = choose|k: int| 0 <= k < front.len() && front[k] == kept[i];
            assert(items[k] == kept[i]);
            assert(items[k].id != items[n].id);
        }
        assert(items.contains(items[n]));
    }
}

proof fn lemma_sorted_ids(items: Seq<ItemModel>, before: spec_fn(ItemModel, ItemModel) -> bool)
    requires
        ids_differ(items),
    ensures
        ids_differ(sorted(items, before)),
    decreases items.len(),
{
    if items.len() > 0 {
        let front = items.drop_last();
        let n = items.len() - 1;
        assert forall|i: int, j: int| 0 <= i < j < front.len() implies #[trigger] front[i].id
            != #[trigger] front[j].id by {
            assert(items[i].id != items[j].id);
        }
        lemma_sorted_ids(front, before);
        lemma_sorted_members(front, before);
        let t = sorted(front, before);
        let x = items.last();
        lemma_place(t, x, before, t.len() as int);
        let k = place(t, x, before, t.len() as int);
        let r = t.insert(k, x);
        assert forall|i: int| 0 <= i < t.len() implies #[trigger] t[i].id != x.id by {
            assert(front.contains(t[i]));
            let m = choose|m: int| 0 <= m < front.len() && front[m] == t[i];
            assert(items[m] == t[i]);
            assert(items[m].id != items[n].id);
        }
        assert forall|i: int, j: int| 0 <= i < j < r.len() implies #[trigger] r[i].id
            != #[trigger] r[j].id by {
            if i == k {
                assert(r[j] == t[j - 1]);
            } else if j == k {
                assert(r[i] == t[i]);
            } else {
                let a = if i < k { i } else { i - 1 };
                let b = if j < k { j } else { j - 1 };
                assert(r[i] == t[a] && r[j] == t[b]);
                assert(t[a].id != t[b].id);
            }
        }
    }
}

proof fn lemma_all_ids(rows: TimelineRows)
    requires
        keys_differ(rows),
    ensures
        ids_differ(all_entries(rows)),
{
    let a = entries_of(rows.papers@, paper_rule());
    let b = entries_of(rows.annotations@, annotation_rule());
    let c = entries_of(rows.notes@, note_rule());
    let d = entries_of(rows.topics@, topic_rule());
    let e = entries_of(rows.sources@, source_rule());
    let f = entries_of(rows.knowledge@, knowledge_rule());
    let p = 1000 + 'p' as int;
    let n = 1000 + 'n' as int;
    let t = 1000 + 't' as int;
    let k = 1000 + 'k' as int;
    lemma_paper_ids(rows.papers@);
    lemma_annotation_ids(rows.annotations@);
    lemma_note_ids(rows.notes@);
    lemma_topic_ids(rows.topics@);
    lemma_source_ids(rows.sources@);
    lemma_knowledge_ids(rows.knowledge@);
    lemma_marks_apart(a, b, p, 'n' as int);
    lemma_ids_joined(a, b);
    lemma_marks_apart(a, c, p, n);
    lemma_marks_apart(b, c, 'n' as int, n);
    lemma_apart_joined(a, b, c);
    lemma_ids_joined(a + b, c);
    lemma_marks_apart(a, d, p, t);
    lemma_marks_apart(b, d, 'n' as int, t);
    lemma_marks_apart(c, d, n, t);
    lemma_apart_joined(a, b, d);
    lemma_apart_joined(a + b, c, d);
    lemma_ids_joined(a + b + c, d);
    lemma_marks_apart(a, e, p, 'o' as int);
    lemma_marks_apart(b, e, 'n' as int, 'o' as int);
    lemma_marks_apart(c, e, n, 'o' as int);
    lemma_marks_apart(d, e, t, 'o' as int);
    lemma_apart_joined(a, b, e);
    lemma_apart_joined(a + b, c, e);
    lemma_apart_joined(a + b + c, d, e);
    lemma_ids_joined(a + b + c + d, e);
    lemma_marks_apart(a, f, p, k);
    lemma_marks_apart(b, f, 'n' as int, k);
    lemma_marks_apart(c, f, n, k);
    lemma_marks_apart(d, f, t, k);
    lemma_marks_apart(e, f, 'o' as int, k);
    lemma_apart_joined(a, b, f);
    lemma_apart_joined(a + b, c, f);
    lemma_apart_joined(a + b + c, d, f);
    lemma_apart_joined(a + b + c + d, e, f);
    lemma_ids_joined(a + b + c + d + e, f);
}

/// No two entries of a timeline have one id, where no two rows of one table have.
pub proof fn law_timeline_ids_differ(
    rows: TimelineRows,
    limit: int,
    offset: int,
    module: Option<Seq<char>>,
)
    requires
        keys_differ(rows),
    ensures
        ids_differ(timeline(rows, limit, offset, module)),
{
    lemma_all_ids(rows);
    let items = of_module(all_entries(rows), module);
    lemma_module_ids(all_entries(rows), module);
    lemma_sorted_ids(items, newest_first());
    let s = sorted(items, newest_first());
    let p = timeline(rows, limit, offset, module);
    let lo = clamped(offset, s.len() as int);
    assert forall|i: int, j: int| 0 <= i < j < p.len() implies #[trigger] p[i].id
        != #[trigger] p[j].id by {
        assert(p[i] == s[lo + i] && p[j] == s[lo + j]);
        assert(s[lo + i].id != s[lo + j].id);
    }
}

} // verus!
