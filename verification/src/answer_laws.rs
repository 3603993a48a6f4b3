//! What callers are answered is what was found: candidates, replies, rows and messages.
use vstd::prelude::*;
use vstd::string::*;

use crate::cron_scheduler::notification;
use crate::file_service::{are_rows, extension, mime_of_extension, mime_type_of, FoundEntry};
use crate::graph_service::{edge_models, node_models, GraphEdge, GraphNode};
use crate::json::{json_items, json_members, json_value, Json, JsonModel, Member};
use crate::link_import::{
    chosen_proxy, doi_not_found, json_reply, kept_message, link_error, starts_like_pdf, unpaywall_url,
    warning, ErrorModel, LinkModel, MetadataModel,
};
use crate::models::{FileEntry, Paper};
use crate::paper_service::{
    are_candidates, doi_used, DuplicateCandidate,
};
use crate::reply_laws::{law_member_is_found, lacks, says};
use crate::skill_review::NamedReview;
use crate::skills::{digest_of, is_listed_as, DirDigest, SkillInfo, SkillModel};
use crate::text::{lowercase_of, opt_text, trim};
use crate::xml::{attributes_model, event_models, Attribute, XmlEvent};

verus! {

// ---------------------------------------------------------------------------------------------
// Papers
// ---------------------------------------------------------------------------------------------
/// Every duplicate that was found is answered, in its order, with its title, year, journal and DOI and
/// the reason.
pub proof fn law_every_candidate_is_answered(
    list: Seq<DuplicateCandidate>,
    papers: Seq<Paper>,
    reason: Seq<char>,
    k: int,
)
    requires
        are_candidates(list, papers, reason),
        0 <= k < papers.len(),
    ensures
        list.len() == papers.len(),
        list[k].id@ == papers[k].id@,
        list[k].title@ == papers[k].title@,
        list[k].year == papers[k].year,
        opt_text(list[k].journal) == opt_text(papers[k].journal),
        opt_text(list[k].doi) == opt_text(papers[k].doi),
        list[k].match_reason@ == reason,
{
    assert(crate::paper_service::is_candidate(list[k], papers[k], reason));
}

/// A paper is looked up by its own DOI, unless that is blank, else by the one in its PDF.
pub proof fn law_own_doi_comes_first(own: Option<Seq<char>>, in_pdf: Option<Seq<char>>)
    ensures
        own is Some && trim(own->0).len() > 0 ==> doi_used(own, in_pdf) == own,
        own is None || trim(own->0).len() == 0 ==> doi_used(own, in_pdf) == in_pdf,
{
}

// ---------------------------------------------------------------------------------------------
// Replies
// ---------------------------------------------------------------------------------------------
/// What is read in a reply is answered, and a reply that is no JSON is a failure of the network that names
/// its source.
pub proof fn law_reply_is_answered(
    source: Seq<char>,
    body: Seq<char>,
    read: spec_fn(JsonModel) -> Option<MetadataModel>,
    v: JsonModel,
    e: Seq<char>,
)
    ensures
        json_value(body) == Ok::<JsonModel, Seq<char>>(v) ==> json_reply(source, body, read) == Ok::<
            Option<MetadataModel>,
            ErrorModel,
        >(read(v)),
        json_value(body) == Err::<JsonModel, Seq<char>>(e) ==> json_reply(source, body, read) is Err
            && json_reply(source, body, read)->Err_0 == link_error(
            "network_error"@,
            source + ": "@ + e,
        ),
{
}

/// The open PDF of a work is the one of its best place, and there is none where no place is given.
pub proof fn law_open_pdf_is_read(reply: JsonModel, place: JsonModel, url: Seq<char>)
    ensures
        says(reply, "best_oa_location"@, place) && says(place, "url_for_pdf"@, JsonModel::Str(url))
            ==> unpaywall_url(reply) == Some(url),
        lacks(reply, "best_oa_location"@) ==> unpaywall_url(reply) is None,
{
    law_member_is_found(reply, "best_oa_location"@, place);
    law_member_is_found(place, "url_for_pdf"@, JsonModel::Str(url));
}

/// The proxy of the network comes first, unless it is blank, then that of the models.
pub proof fn law_first_proxy_is_used(network: Option<Seq<char>>, llm: Option<Seq<char>>)
    ensures
        network is Some && trim(network->0).len() > 0 ==> chosen_proxy(network, llm) == Some(
            trim(network->0),
        ),
        (network is None || trim(network->0).len() == 0) && llm is Some && trim(llm->0).len() > 0
            ==> chosen_proxy(network, llm) == Some(trim(llm->0)),
        (network is None || trim(network->0).len() == 0) && (llm is None || trim(llm->0).len() == 0)
            ==> chosen_proxy(network, llm) is None,
{
}

/// Bytes are those of a PDF by their first four, whatever follows.
pub proof fn law_first_bytes_tell_a_pdf(rest: Seq<u8>, chunk: Seq<u8>)
    ensures
        starts_like_pdf(seq![37u8, 80, 68, 70] + rest),
        starts_like_pdf(chunk) ==> chunk.len() >= 4 && chunk.take(4) == seq![37u8, 80, 68, 70],
{
    if starts_like_pdf(chunk) {
        assert(chunk.take(4) =~= seq![37u8, 80, 68, 70]);
    }
}

/// The last message is kept, and behind a try without compression the first one too.
pub proof fn law_messages_are_kept(last: Seq<char>, message: Seq<char>)
    ensures
        kept_message(false, last, message) == message,
        kept_message(true, last, message).take(last.len() as int) == last,
{
    assert(kept_message(true, last, message).take(last.len() as int) =~= last);
}

/// The user is warned of a PDF that could not be downloaded, with what went wrong.
pub proof fn law_failed_download_is_told(link: LinkModel, m: MetadataModel, e: Seq<char>)
    ensures
        warning(link, m, Some(e)) == Some("PDF 下载失败，已仅导入元数据："@ + e),
        !(link is Arxiv) ==> warning(link, m, None) is None,
        m.authors.len() > 0 ==> warning(link, m, None) is None,
{
}

/// An error on a DOI names it, and the failure of the network where there was one.
pub proof fn law_missing_doi_is_named(doi: Seq<char>, e: Seq<char>)
    ensures
        doi_not_found(doi, None).message == "无法通过 DOI 获取元数据: "@ + doi,
        doi_not_found(doi, Some(e)).message == "无法通过 DOI 获取元数据: "@ + doi + " ("@ + e,
        doi_not_found(doi, None).code == "metadata_not_found"@,
        doi_not_found(doi, Some(e)).code == "metadata_not_found"@,
{
}

// ---------------------------------------------------------------------------------------------
// Files
// ---------------------------------------------------------------------------------------------
/// Every entry of a directory that is listed is shown as it is, and a directory has no media type.
pub proof fn law_every_entry_is_shown(
    v: Seq<FoundEntry>,
    at: Seq<int>,
    rows: Seq<FileEntry>,
    k: int,
)
    requires
        are_rows(v, at, rows),
        0 <= k < at.len(),
    ensures
        rows.len() == at.len(),
        rows[k].name@ == v[at[k]].name@,
        rows[k].path@ == v[at[k]].path@,
        rows[k].is_dir == v[at[k]].is_dir,
        rows[k].size == v[at[k]].size,
        opt_text(rows[k].modified_at) == opt_text(v[at[k]].modified_at),
        v[at[k]].is_dir ==> rows[k].mime_type is None,
        !v[at[k]].is_dir ==> opt_text(rows[k].mime_type) == mime_type_of(v[at[k]].name@),
{
    assert(0 <= at[k] < v.len());
}

/// The media type of a file goes by its extension, whatever the case of that.
pub proof fn law_case_of_an_extension_does_not_matter(a: Seq<char>, b: Seq<char>)
    requires
        extension(a) is Some && extension(b) is Some,
        lowercase_of(extension(a)->0) == lowercase_of(extension(b)->0),
    ensures
        mime_type_of(a) == mime_type_of(b),
        mime_type_of(a) == mime_of_extension(lowercase_of(extension(a)->0)),
{
}

// ---------------------------------------------------------------------------------------------
// Messages
// ---------------------------------------------------------------------------------------------
/// What the user is told of a job that failed ends with what went wrong; of any job it holds the beginning
/// of what it was to do.
pub proof fn law_failed_job_is_told(
    session: Option<Seq<char>>,
    prompt: Seq<char>,
    e: Seq<char>,
)
    ensures
        ({
            let (_, body) = notification(session, prompt, Some(e));
            body.skip(body.len() - e.len()) == e
        }),
        prompt.len() <= 50 && session is None ==> ({
            let (_, body) = notification(session, prompt, None);
            body == prompt
        }),
        ({
            let (good, _) = notification(session, prompt, None);
            let (bad, _) = notification(session, prompt, Some(e));
            good == "定时任务完成"@ && bad == "定时任务失败"@
        }),
{
    let (_, body) = notification(session, prompt, Some(e));
    assert(body.skip(body.len() - e.len()) =~= e);
}

/// A skill is listed as it is, and a verdict on it is stale just where its files have changed since.
pub proof fn law_skill_is_listed_as_it_is(
    s: SkillModel,
    digests: Seq<DirDigest>,
    reviews: Seq<NamedReview>,
    r: SkillInfo,
    k: int,
)
    requires
        is_listed_as(s, digests, reviews, r),
    ensures
        r.name@ == s.name,
        r.description@ == s.description,
        r.path@ == s.dir,
        (forall|j: int| 0 <= j < reviews.len() ==> (#[trigger] reviews[j]).name@ != s.name)
            ==> r.review is None,
        0 <= k < reviews.len() && reviews[k].name@ == s.name && (forall|j: int|
            0 <= j < k ==> (#[trigger] reviews[j]).name@ != s.name) ==> r.review is Some
            && r.review->0.verdict@ == reviews[k].record.verdict@ && (r.review->0.stale <==>
        reviews[k].record.content_hash@ != digest_of(digests, s.dir, 0)),
{
    lemma_first_verdict(reviews, s.name, 0);
}

proof fn lemma_first_verdict(list: Seq<NamedReview>, name: Seq<char>, i: int)
    requires
        0 <= i,
    ensures
        match crate::skill_review::review_from(list, name, i) {
            Some(k) => i <= k < list.len() && list[k].name@ == name && forall|j: int|
                i <= j < k ==> (#[trigger] list[j]).name@ != name,
            None => forall|j: int| i <= j < list.len() ==> (#[trigger] list[j]).name@ != name,
        },
    decreases list.len() - i,
{
    if i < list.len() && list[i].name@ != name {
        lemma_first_verdict(list, name, i + 1);
    }
}

// ---------------------------------------------------------------------------------------------
// What values stand for
// ---------------------------------------------------------------------------------------------
/// Lists stand for all that they hold, one for one and in their order: values, members, events,
/// attributes, nodes and edges.
pub proof fn law_lists_stand_for_what_they_hold(
    items: Seq<Json>,
    members: Seq<Member>,
    events: Seq<XmlEvent>,
    attributes: Seq<Attribute>,
    nodes: Seq<GraphNode>,
    edges: Seq<GraphEdge>,
    k: int,
)
    ensures
        json_items(items).len() == items.len(),
        0 <= k < items.len() ==> json_items(items)[k] == items[k]@,
        json_members(members).len() == members.len(),
        0 <= k < members.len() ==> json_members(members)[k].key == members[k].key@
            && json_members(members)[k].value == members[k].value@,
        event_models(events).len() == events.len(),
        0 <= k < events.len() ==> event_models(events)[k] == events[k]@,
        attributes_model(attributes).len() == attributes.len(),
        0 <= k < attributes.len() ==> attributes_model(attributes)[k].key == attributes[k].key@
            && attributes_model(attributes)[k].value == attributes[k].value@,
        node_models(nodes).len() == nodes.len(),
        0 <= k < nodes.len() ==> node_models(nodes)[k].id == nodes[k].id@ && node_models(nodes)[k].label
            == nodes[k].label@,
        edge_models(edges).len() == edges.len(),
        0 <= k < edges.len() ==> edge_models(edges)[k].source == edges[k].source@ && edge_models(
            edges,
        )[k].target == edges[k].target@,
{
}

} // verus!
