//! What services are told they keep: tags, models, merged papers, requests and searches.
use vstd::prelude::*;
use vstd::string::*;

use crate::bibtex::item_type_of;
use crate::citation_export::bibtex_type_of;
use crate::collection_service::next_number;
use crate::git_host::{failure_text, platform_name, request_members, GitPlatform};
use crate::json::{json_value, JsonModel};
use crate::llm_provider_service::{
    is_as_said, is_block, is_cleared, LlmConfigBlock, LlmProvider, LlmProviderInput,
};
use crate::models::{Collection, Paper, Tag};
use crate::navigation_guard::{
    app_url, external_url, is_loopback, local_host, octet, v4_numbers, UrlParts,
};
use crate::paper_rows::{
    is_purged, lemma_links_without, link_models, links_of, links_with, list_merged, work_for, LinkModel,
    PaperLinks,
};
use crate::paper_service::Work;
use crate::query_laws::{grows, has_clause};
use crate::search_service::{beginnings, notes_query, quoted_beginnings};
use crate::sql::{with_clause, QueryModel};
use crate::tag_service::{are_counted, are_left, is_changed};
use crate::text::{decimal, digit_for, is_digit, opt_text, split, trim};
use crate::text_laws::{law_split_joins, lemma_split_whole};

verus! {

// ---------------------------------------------------------------------------------------------
// Tags
// ---------------------------------------------------------------------------------------------
/// Tags that are left once another is deleted stay as they were, but one below it has no parent.
pub proof fn law_left_tags_stay_as_they_were(
    tags: Seq<Tag>,
    at: Seq<int>,
    id: Seq<char>,
    r: Seq<Tag>,
    k: int,
)
    requires
        are_left(tags, at, id, r),
        0 <= k < at.len(),
    ensures
        r.len() == at.len(),
        r[k].id@ == tags[at[k]].id@,
        r[k].name@ == tags[at[k]].name@,
        r[k].color@ == tags[at[k]].color@,
        opt_text(tags[at[k]].parent_id) == Some(id) ==> r[k].parent_id is None,
        opt_text(tags[at[k]].parent_id) != Some(id) ==> opt_text(r[k].parent_id) == opt_text(
            tags[at[k]].parent_id,
        ),
{
    assert(0 <= at[k] < tags.len());
}

/// Tags are listed as they are, each with the number of its papers.
pub proof fn law_listed_tags_are_counted(
    tags: Seq<Tag>,
    at: Seq<int>,
    links: Seq<LinkModel>,
    r: Seq<Tag>,
    k: int,
)
    requires
        are_counted(tags, at, links, r),
        0 <= k < at.len(),
    ensures
        r.len() == at.len(),
        r[k].id@ == tags[at[k]].id@,
        r[k].name@ == tags[at[k]].name@,
        r[k].color@ == tags[at[k]].color@,
        opt_text(r[k].parent_id) == opt_text(tags[at[k]].parent_id),
        r[k].paper_count == links.filter(|l: LinkModel| l.other_id == tags[at[k]].id@).len(),
{
    assert(0 <= at[k] < tags.len());
    crate::shelf_laws::law_every_paper_of_a_tag_counts(links, tags[at[k]].id@);
}

/// A change of a tag writes the name, trimmed, and the color that are given, and nothing else.
pub proof fn law_change_of_a_tag(
    t: Tag,
    name: Option<Seq<char>>,
    color: Option<Seq<char>>,
    r: Tag,
)
    requires
        is_changed(t, name, color, r),
    ensures
        name is Some ==> r.name@ == trim(name->0),
        name is None ==> r.name@ == t.name@,
        color is Some ==> r.color@ == color->0,
        color is None ==> r.color@ == t.color@,
        r.id == t.id,
        r.parent_id == t.parent_id,
        r.created_at == t.created_at,
{
}

// ---------------------------------------------------------------------------------------------
// Models
// ---------------------------------------------------------------------------------------------
/// A model is stored as it was said: its name, its service, the key, the address and all the rest.
pub proof fn law_model_is_as_said<T>(p: LlmProvider<T>, input: LlmProviderInput<T>)
    requires
        is_as_said(p, input),
    ensures
        p.name == input.name,
        p.provider == input.provider,
        p.model == input.model,
        p.api_key == input.api_key,
        p.base_url == input.base_url,
        p.proxy == input.proxy,
        p.max_tokens == input.max_tokens,
        p.temperature == input.temperature,
        p.extra_body == input.extra_body,
        p.is_default == (input.is_default == Some(true)),
        p.is_vision == (input.is_vision == Some(true)),
{
}

/// Before a model becomes the default no other is one, and nothing else of the others has changed.
pub proof fn law_old_default_is_cleared<T>(
    list: Seq<LlmProvider<T>>,
    r: Seq<LlmProvider<T>>,
    k: int,
)
    requires
        is_cleared(list, r),
        0 <= k < list.len(),
    ensures
        r.len() == list.len(),
        !r[k].is_default,
        r[k].id == list[k].id,
        r[k].name == list[k].name,
        r[k].provider == list[k].provider,
        r[k].model == list[k].model,
        r[k].api_key == list[k].api_key,
        r[k].base_url == list[k].base_url,
        r[k].sort_order == list[k].sort_order,
{
    assert(!r[k].is_default);
}

/// What is needed to talk to a model is what the model says.
pub proof fn law_block_says_what_the_model_says<T>(p: LlmProvider<T>, r: LlmConfigBlock<T>)
    requires
        is_block(p, r),
    ensures
        r.provider@ == p.provider@,
        r.model@ == p.model@,
        r.api_key@ == p.api_key@,
        r.base_url@ == p.base_url@,
        opt_text(r.proxy) == opt_text(p.proxy),
        r.max_tokens == p.max_tokens,
        r.temperature == p.temperature,
        p.extra_body is None ==> r.extra_body is None,
        p.extra_body is Some && json_value(p.extra_body->0@) is Ok ==> r.extra_body is Some
            && r.extra_body->0@ == json_value(p.extra_body->0@)->Ok_0,
{
}

// ---------------------------------------------------------------------------------------------
// Papers
// ---------------------------------------------------------------------------------------------
/// A merge takes just the one paper out of the list: the merged one stands in the place of the one that is
/// kept, and every other paper is there as it was.
pub proof fn law_merge_takes_one_paper_out(
    list: Seq<Paper>,
    r: Seq<Paper>,
    keep: int,
    remove: int,
    now: Seq<char>,
    m: Paper,
    k: int,
)
    requires
        list_merged(list, r, keep, remove, now, m),
        0 <= keep < list.len(),
        0 <= remove < list.len(),
        keep != remove,
        0 <= k < list.len(),
    ensures
        r.len() == list.len() - 1,
        r[if keep < remove {
            keep
        } else {
            keep - 1
        }] == m,
        k != keep && k != remove ==> r[if k < remove {
            k
        } else {
            k - 1
        }] == list[k],
{
}

/// When a paper is purged, the links of all other papers stay.
pub proof fn law_purge_keeps_other_links(t: PaperLinks, r: PaperLinks, id: Seq<char>, l: LinkModel)
    requires
        is_purged(t, r, id),
        l.paper_id != id,
        l.other_id != id,
    ensures
        link_models(r.tags@).contains(l) == link_models(t.tags@).contains(l),
        link_models(r.collections@).contains(l) == link_models(t.collections@).contains(l),
        link_models(r.related@).contains(l) == link_models(t.related@).contains(l),
        link_models(r.annotations@).contains(l) == link_models(t.annotations@).contains(l),
        link_models(r.attachments@).contains(l) == link_models(t.attachments@).contains(l),
        link_models(r.knowledge@).contains(l) == link_models(t.knowledge@).contains(l),
        link_models(r.chunks@).contains(l) == link_models(t.chunks@).contains(l),
        link_models(r.creators@).contains(l) == link_models(t.creators@).contains(l),
        link_models(r.imports@).contains(l) == link_models(t.imports@).contains(l),
        r.notes == t.notes,
{
    lemma_links_without(link_models(t.tags@), links_of(id));
    lemma_links_without(link_models(t.collections@), links_of(id));
    lemma_links_without(link_models(t.related@), links_with(id));
    lemma_links_without(link_models(t.annotations@), links_of(id));
    lemma_links_without(link_models(t.attachments@), links_of(id));
    lemma_links_without(link_models(t.knowledge@), links_of(id));
    lemma_links_without(link_models(t.chunks@), links_of(id));
    lemma_links_without(link_models(t.creators@), links_of(id));
    lemma_links_without(link_models(t.imports@), links_of(id));
}

/// The gaps of a paper with a DOI, of its own or in its PDF, are filled from the work under it; those of
/// another from the first work that was found with a similar title.
pub proof fn law_work_is_looked_up(
    p: Paper,
    in_pdf: Option<Seq<char>>,
    by_doi: Option<Work>,
    found: Seq<Work>,
    k: int,
)
    ensures
        p.doi is Some && trim(p.doi->0@).len() > 0 ==> work_for(p, in_pdf, by_doi, found) == by_doi,
        in_pdf is Some ==> work_for(p, in_pdf, by_doi, found) == by_doi,
        p.doi is None && in_pdf is None && 0 <= k < found.len() && crate::paper_laws::is_similar(
            p.title@,
            found[k],
        ) && (forall|j: int|
            0 <= j < k ==> !crate::paper_laws::is_similar(p.title@, #[trigger] found[j]))
            ==> work_for(p, in_pdf, by_doi, found) == Some(found[k]),
{
    crate::paper_laws::law_first_similar_work_is_taken(p.title@, found, 0);
}

/// The number of a new collection is higher than that of every other below its parent, and the first
/// one is 1.
pub proof fn law_new_collection_comes_last(list: Seq<Collection>, parent: Option<Seq<char>>, k: int)
    ensures
        0 <= k < list.len() && opt_text(list[k].parent_id) == parent ==> list[k].sort_order
            < next_number(list, parent),
        (forall|j: int| 0 <= j < list.len() ==> opt_text((#[trigger] list[j]).parent_id) != parent)
            ==> next_number(list, parent) == 1,
{
    crate::shelf_laws::law_highest_number_is_highest(list, parent);
}

// ---------------------------------------------------------------------------------------------
// Types
// ---------------------------------------------------------------------------------------------
/// The type of an exported paper is read back.
pub proof fn law_item_types_round_trip(t: Seq<char>)
    requires
        t == "journal"@ || t == "book"@ || t == "bookSection"@ || t == "conference"@ || t
            == "thesis"@ || t == "report"@ || t == "patent"@,
    ensures
        item_type_of(bibtex_type_of(Some(t))) == t,
{
    reveal_strlit("journal");
    reveal_strlit("article");
    reveal_strlit("book");
    reveal_strlit("bookSection");
    reveal_strlit("incollection");
    reveal_strlit("inbook");
    reveal_strlit("conference");
    reveal_strlit("inproceedings");
    reveal_strlit("thesis");
    reveal_strlit("phdthesis");
    reveal_strlit("mastersthesis");
    reveal_strlit("report");
    reveal_strlit("techreport");
    reveal_strlit("patent");
    reveal_strlit("webpage");
    reveal_strlit("online");
    reveal_strlit("electronic");
    reveal_strlit("newspaper");
    lemma_types_differ();
}

proof fn lemma_types_differ()
    ensures
        "journal"@.len() == 7 && "journal"@[0] == 'j',
        "article"@.len() == 7 && "article"@[0] == 'a',
        "book"@.len() == 4 && "book"@[0] == 'b',
        "bookSection"@.len() == 11 && "bookSection"@[0] == 'b',
        "incollection"@.len() == 12 && "incollection"@[0] == 'i',
        "inbook"@.len() == 6 && "inbook"@[0] == 'i',
        "conference"@.len() == 10 && "conference"@[0] == 'c',
        "inproceedings"@.len() == 13 && "inproceedings"@[0] == 'i',
        "thesis"@.len() == 6 && "thesis"@[0] == 't',
        "phdthesis"@.len() == 9 && "phdthesis"@[0] == 'p',
        "mastersthesis"@.len() == 13 && "mastersthesis"@[0] == 'm',
        "report"@.len() == 6 && "report"@[0] == 'r',
        "techreport"@.len() == 10 && "techreport"@[0] == 't',
        "patent"@.len() == 6 && "patent"@[0] == 'p',
        "webpage"@.len() == 7 && "webpage"@[0] == 'w',
        "online"@.len() == 6 && "online"@[0] == 'o',
        "electronic"@.len() == 10 && "electronic"@[0] == 'e',
        "newspaper"@.len() == 9 && "newspaper"@[0] == 'n',
{
    reveal_strlit("journal");
    reveal_strlit("article");
    reveal_strlit("book");
    reveal_strlit("bookSection");
    reveal_strlit("incollection");
    reveal_strlit("inbook");
    reveal_strlit("conference");
    reveal_strlit("inproceedings");
    reveal_strlit("thesis");
    reveal_strlit("phdthesis");
    reveal_strlit("mastersthesis");
    reveal_strlit("report");
    reveal_strlit("techreport");
    reveal_strlit("patent");
    reveal_strlit("webpage");
    reveal_strlit("online");
    reveal_strlit("electronic");
    reveal_strlit("newspaper");
}

// ---------------------------------------------------------------------------------------------
// Requests
// ---------------------------------------------------------------------------------------------
/// A pull request asks for what the caller said: its title, its text, and from which branch into which.
pub proof fn law_request_says_what_was_asked(
    title: Seq<char>,
    body: Seq<char>,
    head: Seq<char>,
    base: Seq<char>,
)
    ensures
        ({
            let m = request_members(title, body, head, base);
            &&& m.len() == 4
            &&& m[0].key == "title"@ && m[0].value == JsonModel::Str(title)
            &&& m[1].key == "body"@ && m[1].value == JsonModel::Str(body)
            &&& m[2].key == "head"@ && m[2].value == JsonModel::Str(head)
            &&& m[3].key == "base"@ && m[3].value == JsonModel::Str(base)
        }),
{
}

/// What is said of a failed request names the platform and the status, and ends with the platform's own
/// message where it gives one.
pub proof fn law_failure_is_told(
    platform: GitPlatform,
    status: Seq<char>,
    answer: Seq<char>,
    v: JsonModel,
    message: Seq<char>,
)
    requires
        json_value(answer) == Ok::<JsonModel, Seq<char>>(v),
        crate::reply_laws::says(v, "message"@, JsonModel::Str(message)),
    ensures
        failure_text(platform, status, answer) == platform_name(platform) + " API 错误（"@ + status
            + "）："@ + message,
{
    crate::reply_laws::law_member_is_found(v, "message"@, JsonModel::Str(message));
}

// ---------------------------------------------------------------------------------------------
// Searches
// ---------------------------------------------------------------------------------------------
/// The index is asked for each word of a search, in their order.
pub proof fn law_every_word_is_asked_for(list: Seq<Seq<char>>, k: int)
    requires
        0 <= k < list.len(),
    ensures
        beginnings(list).len() == list.len(),
        beginnings(list)[k] == list[k] + "*"@,
        quoted_beginnings(list).len() == list.len(),
        quoted_beginnings(list)[k] == "\""@ + crate::text::strip_both(list[k], '"') + "\"*"@,
{
}

proof fn lemma_clause(q: QueryModel, clause: Seq<char>, binds: Seq<Seq<char>>)
    ensures
        grows(q, with_clause(q, clause, binds)),
        has_clause(with_clause(q, clause, binds), clause, binds),
{
    let r = with_clause(q, clause, binds);
    assert(r.sql.take(q.sql.len() as int) =~= q.sql);
    assert(r.binds.take(q.binds.len() as int) =~= q.binds);
    assert(r.sql.take(r.sql.len() as int) =~= r.sql);
    assert(r.binds.take(r.binds.len() as int) =~= r.binds);
    assert(grows(crate::query_laws::behind(q, clause, binds), r));
}

proof fn lemma_kept(a: QueryModel, b: QueryModel, clause: Seq<char>, binds: Seq<Seq<char>>)
    requires
        has_clause(a, clause, binds),
        grows(a, b),
    ensures
        has_clause(b, clause, binds),
{
    let before = choose|before: QueryModel| #[trigger]
        grows(crate::query_laws::behind(before, clause, binds), a);
    let x = crate::query_laws::behind(before, clause, binds);
    assert(b.sql.take(a.sql.len() as int).take(x.sql.len() as int) =~= b.sql.take(
        x.sql.len() as int,
    ));
    assert(b.binds.take(a.binds.len() as int).take(x.binds.len() as int) =~= b.binds.take(
        x.binds.len() as int,
    ));
    assert(grows(x, b));
}

/// A listing of notes is narrowed by all that is given: the paper, the words and the folder.
pub proof fn law_every_condition_on_notes_counts(
    paper: Option<Seq<char>>,
    search: Option<Seq<char>>,
    parent: Option<Seq<char>>,
)
    ensures
        ({
            let q = notes_query(paper, search, parent);
            &&& paper is Some ==> has_clause(q, " AND paper_id = ?"@, seq![paper->0])
            &&& search is Some ==> has_clause(
                q,
                " AND (title LIKE ? OR content_plain LIKE ?)"@,
                seq!["%"@ + search->0 + "%"@, "%"@ + search->0 + "%"@],
            )
            &&& parent is Some ==> has_clause(q, " AND parent_id = ?"@, seq![parent->0])
            &&& parent is None && paper is None ==> has_clause(
                q,
                " AND parent_id IS NULL"@,
                Seq::empty(),
            )
        }),
{
    let none = Seq::<Seq<char>>::empty();
    let q0 = QueryModel { sql: "SELECT * FROM notes WHERE 1=1"@, binds: none };
    lemma_clause(q0, " AND paper_id = ?"@, seq![paper->0]);
    let q1 = match paper {
        Some(p) => with_clause(q0, " AND paper_id = ?"@, seq![p]),
        None => q0,
    };
    let pattern = "%"@ + search->0 + "%"@;
    let c = " AND (title LIKE ? OR content_plain LIKE ?)"@;
    lemma_clause(q1, c, seq![pattern, pattern]);
    let q2 = if search is Some {
        with_clause(q1, c, seq![pattern, pattern])
    } else {
        q1
    };
    lemma_clause(q2, " AND parent_id = ?"@, seq![parent->0]);
    lemma_clause(q2, " AND parent_id IS NULL"@, none);
    let q3 = if parent is Some {
        with_clause(q2, " AND parent_id = ?"@, seq![parent->0])
    } else if paper is None {
        with_clause(q2, " AND parent_id IS NULL"@, none)
    } else {
        q2
    };
    let end = " ORDER BY updated_at DESC LIMIT 50"@;
    lemma_clause(q3, end, none);
    let q = with_clause(q3, end, none);
    assert(q == notes_query(paper, search, parent));
    assert(q1.sql.take(q1.sql.len() as int) =~= q1.sql);
    assert(q1.binds.take(q1.binds.len() as int) =~= q1.binds);
    assert(q2.sql.take(q2.sql.len() as int) =~= q2.sql);
    assert(q2.binds.take(q2.binds.len() as int) =~= q2.binds);
    if paper is Some {
        lemma_kept(q1, q2, " AND paper_id = ?"@, seq![paper->0]);
        lemma_kept(q2, q3, " AND paper_id = ?"@, seq![paper->0]);
        lemma_kept(q3, q, " AND paper_id = ?"@, seq![paper->0]);
    }
    if search is Some {
        lemma_kept(q2, q3, c, seq![pattern, pattern]);
        lemma_kept(q3, q, c, seq![pattern, pattern]);
    }
    if parent is Some {
        lemma_kept(q3, q, " AND parent_id = ?"@, seq![parent->0]);
    } else if paper is None {
        lemma_kept(q3, q, " AND parent_id IS NULL"@, none);
    }
}

// ---------------------------------------------------------------------------------------------
// Addresses
// ---------------------------------------------------------------------------------------------
proof fn lemma_octet(n: nat)
    requires
        n <= 255,
    ensures
        octet(decimal(n)) == Some(n as int),
        forall|i: int| 0 <= i < decimal(n).len() ==> #[trigger] decimal(n)[i] != '.',
{
    reveal_with_fuel(decimal, 4);
    crate::text::lemma_decimal_value(n);
    let d = decimal(n);
    if n >= 100 {
        assert(d.len() == 3);
        assert(d[0] == digit_for((n / 100) as int));
        assert(1 <= n / 100 <= 2);
    } else if n >= 10 {
        assert(d.len() == 2);
        assert(d[0] == digit_for((n / 10) as int));
        assert(1 <= n / 10 <= 9);
    }
    assert forall|i: int| 0 <= i < d.len() implies #[trigger] d[i] != '.' by {
        assert(is_digit(d[i]));
    }
}

/// Four numbers with dots between.
pub open spec fn dotted(a: nat, b: nat, c: nat, d: nat) -> Seq<char> {
    decimal(a) + seq!['.'] + (decimal(b) + seq!['.'] + (decimal(c) + seq!['.'] + decimal(d)))
}

proof fn lemma_one_piece(s: Seq<char>)
    requires
        forall|i: int| 0 <= i < s.len() ==> #[trigger] s[i] != '.',
    ensures
        split(s, seq!['.']) == seq![s],
{
    let dot = seq!['.'];
    assert forall|j: int| 0 <= j implies !#[trigger] crate::text::matches_at(s, dot, j) by {
        if crate::text::matches_at(s, dot, j) {
            assert(s.subrange(j, j + 1)[0] == dot[0]);
            assert(s[j] != '.');
        }
    }
    lemma_split_whole(s, dot);
}

/// An address of four numbers is that of the machine itself just where it begins with 127.
pub proof fn law_loopback_begins_with_127(a: nat, b: nat, c: nat, d: nat)
    requires
        a <= 255 && b <= 255 && c <= 255 && d <= 255,
    ensures
        v4_numbers(dotted(a, b, c, d)) == Some(seq![a as int, b as int, c as int, d as int]),
        is_loopback(dotted(a, b, c, d)) == (a == 127),
{
    reveal_strlit(".");
    assert("."@ =~= seq!['.']);
    lemma_octet(a);
    lemma_octet(b);
    lemma_octet(c);
    lemma_octet(d);
    lemma_one_piece(decimal(a));
    lemma_one_piece(decimal(b));
    lemma_one_piece(decimal(c));
    lemma_one_piece(decimal(d));
    let dot = seq!['.'];
    let cd = decimal(c) + dot + decimal(d);
    let bcd = decimal(b) + dot + cd;
    law_split_joins(decimal(c), '.', decimal(d));
    law_split_joins(decimal(b), '.', cd);
    law_split_joins(decimal(a), '.', bcd);
    let p = split(dotted(a, b, c, d), dot);
    assert(p =~= seq![decimal(a), decimal(b), decimal(c), decimal(d)]);
}

/// A page of the machine itself belongs to the application, and one of any other host does not.
pub proof fn law_only_own_pages_belong_to_the_application(url: UrlParts)
    ensures
        (url.scheme@ == "http"@ || url.scheme@ == "https"@) ==> app_url(url) == (url.host is Some
            && local_host(url.host->0@)),
        url.scheme@ == "mailto"@ ==> !app_url(url) && external_url(url),
{
    reveal_strlit("http");
    reveal_strlit("https");
    reveal_strlit("mailto");
    reveal_strlit("tauri");
    reveal_strlit("about");
    reveal_strlit("data");
    reveal_strlit("blob");
    assert("http"@[0] == 'h' && "https"@[0] == 'h' && "mailto"@[0] == 'm');
    assert("tauri"@[0] == 't' && "about"@[0] == 'a' && "data"@[0] == 'd' && "blob"@[0] == 'b');
}

} // verus!
