//! The rows of papers and of what refers to them: changes, the trash, and what goes along when a paper
//! is removed for good.
use vstd::prelude::*;
use vstd::string::*;

use crate::error::SikuError;
use crate::json::{json_array_text, print_strings};
use crate::models::{Paper, PaperInput, SavedSearch};
use crate::citation_export::names_in;
use crate::paper_service::{
    doi_used, enrich_paper, fills_a_gap, find_similar, first_similar, is_enriched, is_merge,
    lookup_doi, merge_papers, Work,
};
use crate::order::{
    char_rows, goes_before, greatest_first, order_greatest_first, place_list, places, sorted,
    text_before,
};
use crate::table::{order_picked, pick_rows, picked, remove_rows, rows_without};
use crate::text::{chars_of, concat3, copy_opt, holds, list_has, opt_text, same, texts};

verus! {

/// The error for a paper that is not there.
pub open spec fn is_missing(e: SikuError, id: Seq<char>) -> bool {
    match e {
        SikuError::NotFound(s) => s@ == "paper "@ + id + " not found"@,
        _ => false,
    }
}

fn missing(id: &str) -> (r: SikuError)
    ensures
        is_missing(r, id@),
{
    SikuError::NotFound(concat3("paper ", id, " not found"))
}

// ---------------------------------------------------------------------------------------------
// One row
// ---------------------------------------------------------------------------------------------
/// A text that is given, else the one that is there.
pub open spec fn given_or(new: Option<String>, old: Option<String>) -> Option<Seq<char>> {
    if new is Some {
        opt_text(new)
    } else {
        opt_text(old)
    }
}

fn pick_given(new: &Option<String>, old: &Option<String>) -> (r: Option<String>)
    ensures
        opt_text(r) == given_or(*new, *old),
{
    match new {
        Some(s) => Some(s.clone()),
        None => copy_opt(old),
    }
}

/// Whether `r` is a paper with what a caller says of it: what is not said stays as it was.
pub open spec fn is_updated(p: Paper, i: PaperInput, now: Seq<char>, r: Paper) -> bool {
    &&& r.id@ == p.id@
    &&& r.title@ == i.title@
    &&& r.authors@ == json_array_text(texts(i.authors@))
    &&& names_in(r.authors@) == texts(i.authors@)
    &&& r.year == (if i.year is Some {
        i.year
    } else {
        p.year
    })
    &&& opt_text(r.journal) == given_or(i.journal, p.journal)
    &&& opt_text(r.doi) == given_or(i.doi, p.doi)
    &&& opt_text(r.url) == given_or(i.url, p.url)
    &&& opt_text(r.abstract_text) == given_or(i.abstract_text, p.abstract_text)
    &&& r.keywords@ == json_array_text(texts(i.keywords@))
    &&& names_in(r.keywords@) == texts(i.keywords@)
    &&& opt_text(r.item_type) == given_or(i.item_type, p.item_type)
    &&& opt_text(r.volume) == given_or(i.volume, p.volume)
    &&& opt_text(r.issue) == given_or(i.issue, p.issue)
    &&& opt_text(r.pages) == given_or(i.pages, p.pages)
    &&& opt_text(r.conference_name) == given_or(i.conference_name, p.conference_name)
    &&& opt_text(r.publisher) == given_or(i.publisher, p.publisher)
    &&& opt_text(r.place) == given_or(i.place, p.place)
    &&& r.editor@ == json_array_text(texts(i.editor@))
    &&& names_in(r.editor@) == texts(i.editor@)
    &&& opt_text(r.series) == given_or(i.series, p.series)
    &&& opt_text(r.edition) == given_or(i.edition, p.edition)
    &&& opt_text(r.isbn) == given_or(i.isbn, p.isbn)
    &&& opt_text(r.issn) == given_or(i.issn, p.issn)
    &&& opt_text(r.language) == given_or(i.language, p.language)
    &&& r.num_pages == (if i.num_pages is Some {
        i.num_pages
    } else {
        p.num_pages
    })
    &&& opt_text(r.archive_location) == given_or(i.archive_location, p.archive_location)
    &&& opt_text(r.call_number) == given_or(i.call_number, p.call_number)
    &&& opt_text(r.rights) == given_or(i.rights, p.rights)
    &&& r.updated_at@ == now
    &&& opt_text(r.citation_key) == opt_text(p.citation_key)
    &&& opt_text(r.bibtex) == opt_text(p.bibtex)
    &&& opt_text(r.file_path) == opt_text(p.file_path)
    &&& r.file_size == p.file_size
    &&& r.page_count == p.page_count
    &&& opt_text(r.deleted_at) == opt_text(p.deleted_at)
    &&& r.is_favorite == p.is_favorite
    &&& r.read_status@ == p.read_status@
    &&& opt_text(r.last_read_at) == opt_text(p.last_read_at)
    &&& r.created_at@ == p.created_at@
    &&& r.imported_at@ == p.imported_at@
}

/// A paper with what a caller says of it. Only what is said is overwritten.
pub fn update_paper(p: &Paper, i: &PaperInput, now: &str) -> (r: Paper)
    ensures
        is_updated(*p, *i, now@, r),
{
    Paper {
        id: p.id.clone(),
        title: i.title.clone(),
        authors: print_strings(&i.authors),
        year: if i.year.is_some() {
            i.year
        } else {
            p.year
        },
        journal: pick_given(&i.journal, &p.journal),
        doi: pick_given(&i.doi, &p.doi),
        url: pick_given(&i.url, &p.url),
        abstract_text: pick_given(&i.abstract_text, &p.abstract_text),
        keywords: print_strings(&i.keywords),
        citation_key: copy_opt(&p.citation_key),
        bibtex: copy_opt(&p.bibtex),
        file_path: copy_opt(&p.file_path),
        file_size: p.file_size,
        page_count: p.page_count,
        language: pick_given(&i.language, &p.language),
        item_type: pick_given(&i.item_type, &p.item_type),
        volume: pick_given(&i.volume, &p.volume),
        issue: pick_given(&i.issue, &p.issue),
        pages: pick_given(&i.pages, &p.pages),
        conference_name: pick_given(&i.conference_name, &p.conference_name),
        publisher: pick_given(&i.publisher, &p.publisher),
        place: pick_given(&i.place, &p.place),
        editor: print_strings(&i.editor),
        series: pick_given(&i.series, &p.series),
        edition: pick_given(&i.edition, &p.edition),
        isbn: pick_given(&i.isbn, &p.isbn),
        issn: pick_given(&i.issn, &p.issn),
        num_pages: if i.num_pages.is_some() {
            i.num_pages
        } else {
            p.num_pages
        },
        archive_location: pick_given(&i.archive_location, &p.archive_location),
        call_number: pick_given(&i.call_number, &p.call_number),
        rights: pick_given(&i.rights, &p.rights),
        deleted_at: copy_opt(&p.deleted_at),
        is_favorite: p.is_favorite,
        read_status: p.read_status.clone(),
        last_read_at: copy_opt(&p.last_read_at),
        created_at: p.created_at.clone(),
        updated_at: now.to_owned(),
        imported_at: p.imported_at.clone(),
    }
}

/// Whether two papers are the same, but for the trash, the mark as a favourite and the reading.
pub open spec fn same_record(a: Paper, b: Paper) -> bool {
    &&& a.id == b.id && a.title == b.title && a.authors == b.authors && a.year == b.year
    &&& a.journal == b.journal && a.doi == b.doi && a.url == b.url && a.abstract_text
        == b.abstract_text
    &&& a.keywords == b.keywords && a.citation_key == b.citation_key && a.bibtex == b.bibtex
    &&& a.file_path == b.file_path && a.file_size == b.file_size && a.page_count == b.page_count
    &&& a.language == b.language && a.item_type == b.item_type && a.volume == b.volume && a.issue
        == b.issue
    &&& a.pages == b.pages && a.conference_name == b.conference_name && a.publisher == b.publisher
    &&& a.place == b.place && a.editor == b.editor && a.series == b.series && a.edition == b.edition
    &&& a.isbn == b.isbn && a.issn == b.issn && a.num_pages == b.num_pages && a.archive_location
        == b.archive_location
    &&& a.call_number == b.call_number && a.rights == b.rights && a.created_at == b.created_at
    &&& a.updated_at == b.updated_at && a.imported_at == b.imported_at
}

/// Whether two papers are the same, but for the trash.
pub open spec fn same_but_trash(a: Paper, b: Paper) -> bool {
    same_record(a, b) && a.is_favorite == b.is_favorite && a.read_status == b.read_status
        && a.last_read_at == b.last_read_at
}

// ---------------------------------------------------------------------------------------------
// Many rows
// ---------------------------------------------------------------------------------------------
/// The place of the first paper from `i` on with an id.
pub open spec fn paper_from(list: Seq<Paper>, id: Seq<char>, i: int) -> Option<int>
    decreases list.len() - i,
{
    if i < 0 || i >= list.len() {
        None
    } else if list[i].id@ == id {
        Some(i)
    } else {
        paper_from(list, id, i + 1)
    }
}

/// The place of a paper.
pub fn get_paper(list: &Vec<Paper>, id: &str) -> (r: Result<usize, SikuError>)
    ensures
        match r {
            Ok(k) => k < list.len() && paper_from(list@, id@, 0) == Some(k as int)
                && list@[k as int].id@ == id@,
            Err(e) => paper_from(list@, id@, 0) is None && is_missing(e, id@) && forall|k: int|
                0 <= k < list.len() ==> (#[trigger] list@[k]).id@ != id@,
        },
{
    let mut i: usize = 0;
    while i < list.len()
        invariant
            i <= list.len(),
            paper_from(list@, id@, 0) == paper_from(list@, id@, i as int),
            forall|k: int| 0 <= k < i ==> (#[trigger] list@[k]).id@ != id@,
        decreases list.len() - i,
    {
        if same(list[i].id.as_str(), id) {
            return Ok(i);
        }
        i += 1;
    }
    Err(missing(id))
}

/// Whether `r` is the list with nothing changed but the paper at `k`.
pub open spec fn only_at(list: Seq<Paper>, r: Seq<Paper>, k: int) -> bool {
    r.len() == list.len() && forall|j: int| 0 <= j < r.len() && j != k ==> #[trigger] r[j] == list[j]
}

/// Moves a paper into the trash, unless it is there already.
pub fn delete_paper(list: &mut Vec<Paper>, id: &str, now: &str) -> (r: Result<(), SikuError>)
    ensures
        match paper_from(old(list)@, id@, 0) {
            Some(k) => if old(list)@[k].deleted_at is None {
                r is Ok && only_at(old(list)@, final(list)@, k) && same_but_trash(
                    final(list)@[k],
                    old(list)@[k],
                ) && opt_text(final(list)@[k].deleted_at) == Some(now@)
            } else {
                r is Err && is_missing(r->Err_0, id@) && final(list)@ == old(list)@
            },
            None => r is Err && is_missing(r->Err_0, id@) && final(list)@ == old(list)@,
        },
{
    match get_paper(list, id) {
        Ok(k) => {
            if list[k].deleted_at.is_some() {
                return Err(missing(id));
            }
            list[k].deleted_at = Some(now.to_owned());
            Ok(())
        },
        Err(e) => Err(e),
    }
}

/// Takes a paper out of the trash.
pub fn restore_paper(list: &mut Vec<Paper>, id: &str) -> (r: Result<(), SikuError>)
    ensures
        match paper_from(old(list)@, id@, 0) {
            Some(k) => r is Ok && only_at(old(list)@, final(list)@, k) && same_but_trash(
                final(list)@[k],
                old(list)@[k],
            ) && final(list)@[k].deleted_at is None,
            None => r is Err && is_missing(r->Err_0, id@) && final(list)@ == old(list)@,
        },
{
    match get_paper(list, id) {
        Ok(k) => {
            list[k].deleted_at = None;
            Ok(())
        },
        Err(e) => Err(e),
    }
}

/// A paper that was moved into the trash and taken out again is as it was.
pub proof fn law_restore_undoes_delete(
    list: Seq<Paper>,
    deleted: Seq<Paper>,
    restored: Seq<Paper>,
    k: int,
)
    requires
        0 <= k < list.len(),
        list[k].deleted_at is None,
        only_at(list, deleted, k),
        same_but_trash(deleted[k], list[k]),
        only_at(deleted, restored, k),
        same_but_trash(restored[k], deleted[k]),
        restored[k].deleted_at is None,
    ensures
        restored == list,
{
    assert forall|j: int| 0 <= j < list.len() implies restored[j] == list[j] by {
        if j != k {
            assert(restored[j] == deleted[j]);
            assert(deleted[j] == list[j]);
        }
    }
    assert(restored =~= list);
}

/// Marks a paper as a favourite, or takes the mark away.
pub fn set_paper_favorite(list: &mut Vec<Paper>, id: &str, favorite: bool) -> (r: Result<
    (),
    SikuError,
>)
    ensures
        match paper_from(old(list)@, id@, 0) {
            Some(k) => r is Ok && only_at(old(list)@, final(list)@, k) && same_record(
                final(list)@[k],
                old(list)@[k],
            ) && final(list)@[k].is_favorite == (if favorite {
                1int
            } else {
                0
            }) && final(list)@[k].deleted_at == old(list)@[k].deleted_at
                && final(list)@[k].read_status == old(list)@[k].read_status
                && final(list)@[k].last_read_at == old(list)@[k].last_read_at,
            None => r is Err && is_missing(r->Err_0, id@) && final(list)@ == old(list)@,
        },
{
    match get_paper(list, id) {
        Ok(k) => {
            list[k].is_favorite = if favorite {
                1
            } else {
                0
            };
            Ok(())
        },
        Err(e) => Err(e),
    }
}

/// Sets how far a paper was read.
pub fn set_paper_read_status(list: &mut Vec<Paper>, id: &str, status: &str) -> (r: Result<
    (),
    SikuError,
>)
    ensures
        match paper_from(old(list)@, id@, 0) {
            Some(k) => r is Ok && only_at(old(list)@, final(list)@, k) && same_record(
                final(list)@[k],
                old(list)@[k],
            ) && final(list)@[k].read_status@ == status@ && final(list)@[k].deleted_at == old(
                list)@[k].deleted_at && final(list)@[k].is_favorite == old(list)@[k].is_favorite
                && final(list)@[k].last_read_at == old(list)@[k].last_read_at,
            None => r is Err && is_missing(r->Err_0, id@) && final(list)@ == old(list)@,
        },
{
    match get_paper(list, id) {
        Ok(k) => {
            list[k].read_status = status.to_owned();
            Ok(())
        },
        Err(e) => Err(e),
    }
}

// ---------------------------------------------------------------------------------------------
// Gaps that a catalogue fills
// ---------------------------------------------------------------------------------------------
/// The work that the gaps of a paper are filled from: the one under its DOI where it has one, else
/// the first that a search for its title found whose title is similar.
pub open spec fn work_for(
    p: Paper,
    in_pdf: Option<Seq<char>>,
    by_doi: Option<Work>,
    found: Seq<Work>,
) -> Option<Work> {
    if doi_used(opt_text(p.doi), in_pdf) is Some {
        by_doi
    } else {
        match first_similar(p.title@, found, 0) {
            Some(k) => Some(found[k]),
            None => None,
        }
    }
}

/// Whether `r` is a paper with its gaps filled from a work.
pub open spec fn is_filled(p: Paper, w: Work, now: Seq<char>, r: Paper) -> bool {
    exists|i: PaperInput| #[trigger] is_enriched(p, w, i) && is_updated(p, i, now, r)
}

/// Fills the gaps of a paper, and says whether there was one to fill. `in_pdf` is the DOI in its PDF,
/// `by_doi` the work under the DOI by which it is looked up, and `found` what a search for its title
/// gave.
pub fn enrich_paper_metadata(
    list: &mut Vec<Paper>,
    id: &str,
    in_pdf: Option<String>,
    by_doi: Option<Work>,
    found: &Vec<Work>,
    now: &str,
) -> (r: Result<bool, SikuError>)
    ensures
        match paper_from(old(list)@, id@, 0) {
            None => r is Err && is_missing(r->Err_0, id@) && final(list)@ == old(list)@,
            Some(k) => match work_for(old(list)@[k], opt_text(in_pdf), by_doi, found@) {
                Some(w) => if fills_a_gap(old(list)@[k], w) {
                    r == Ok::<bool, SikuError>(true) && only_at(old(list)@, final(list)@, k)
                        && is_filled(old(list)@[k], w, now@, final(list)@[k])
                } else {
                    r == Ok::<bool, SikuError>(false) && final(list)@ == old(list)@
                },
                None => r == Ok::<bool, SikuError>(false) && final(list)@ == old(list)@,
            },
        },
{
    let k = match get_paper(list, id) {
        Ok(k) => k,
        Err(e) => {
            return Err(e);
        },
    };
    let updated = {
        let p = &list[k];
        let known = lookup_doi(&p.doi, in_pdf);
        let similar = find_similar(p.title.as_str(), found);
        let work: Option<&Work> = if known.is_some() {
            by_doi.as_ref()
        } else {
            match similar {
                Some(j) => Some(&found[j]),
                None => None,
            }
        };
        match work {
            Some(w) => {
                let (input, changed) = enrich_paper(p, w);
                if changed {
                    Some(update_paper(p, &input, now))
                } else {
                    None
                }
            },
            None => None,
        }
    };
    match updated {
        Some(p) => {
            list.set(k, p);
            Ok(true)
        },
        None => Ok(false),
    }
}

/// Once its gaps are filled from a work, a paper has no gap that the work fills.
pub proof fn law_gaps_are_filled_once(p: Paper, w: Work, now: Seq<char>, r: Paper)
    requires
        is_filled(p, w, now, r),
    ensures
        !fills_a_gap(r, w),
{
    let i = choose|i: PaperInput| #[trigger] is_enriched(p, w, i) && is_updated(p, i, now, r);
    assert(opt_text(r.journal) is None == r.journal is None);
    assert(opt_text(r.doi) is None == r.doi is None);
    assert(opt_text(r.url) is None == r.url is None);
    assert(opt_text(r.abstract_text) is None == r.abstract_text is None);
    assert(opt_text(r.volume) is None == r.volume is None);
    assert(opt_text(r.issue) is None == r.issue is None);
    assert(opt_text(r.pages) is None == r.pages is None);
    assert(opt_text(r.publisher) is None == r.publisher is None);
    assert(opt_text(r.issn) is None == r.issn is None);
}

// ---------------------------------------------------------------------------------------------
// Related papers
// ---------------------------------------------------------------------------------------------
/// A link from a paper to something else: a tag, a collection or another paper.
pub struct Link {
    pub paper_id: String,
    pub other_id: String,
}

/// A link, read as its texts.
pub struct LinkModel {
    pub paper_id: Seq<char>,
    pub other_id: Seq<char>,
}

/// The texts of links.
pub open spec fn link_models(v: Seq<Link>) -> Seq<LinkModel> {
    Seq::new(v.len(), |i: int| LinkModel { paper_id: v[i].paper_id@, other_id: v[i].other_id@ })
}

/// A link of the given texts.
pub open spec fn link(a: Seq<char>, b: Seq<char>) -> LinkModel {
    LinkModel { paper_id: a, other_id: b }
}

/// Whether two papers are linked, in either direction.
pub open spec fn are_related(links: Seq<LinkModel>, a: Seq<char>, b: Seq<char>) -> bool {
    links.contains(link(a, b)) || links.contains(link(b, a))
}

/// Tells whether there is a link.
pub fn has_link(links: &Vec<Link>, a: &str, b: &str) -> (r: bool)
    ensures
        r == link_models(links@).contains(link(a@, b@)),
{
    let ghost all = link_models(links@);
    let mut i: usize = 0;
    while i < links.len()
        invariant
            i <= links.len(),
            all == link_models(links@),
            forall|k: int| 0 <= k < i ==> #[trigger] all[k] != link(a@, b@),
        decreases links.len() - i,
    {
        assert(all[i as int] == link(links@[i as int].paper_id@, links@[i as int].other_id@));
        if same(links[i].paper_id.as_str(), a) && same(links[i].other_id.as_str(), b) {
            return true;
        }
        i += 1;
    }
    false
}

/// Tells whether two papers are linked, in either direction.
pub fn related(links: &Vec<Link>, a: &str, b: &str) -> (r: bool)
    ensures
        r == are_related(link_models(links@), a@, b@),
{
    has_link(links, a, b) || has_link(links, b, a)
}

/// Links two papers, unless they are the same or the link is there.
pub fn add_related_paper(links: &mut Vec<Link>, paper_id: &str, related_id: &str)
    ensures
        link_models(final(links)@) == (if paper_id@ == related_id@ || link_models(
            old(links)@,
        ).contains(link(paper_id@, related_id@)) {
            link_models(old(links)@)
        } else {
            link_models(old(links)@).push(link(paper_id@, related_id@))
        }),
{
    if same(paper_id, related_id) {
        return;
    }
    add_link(links, paper_id, related_id);
}

/// Links with one more, unless it is there.
pub open spec fn with_link(links: Seq<LinkModel>, l: LinkModel) -> Seq<LinkModel> {
    if links.contains(l) {
        links
    } else {
        links.push(l)
    }
}

/// Adds a link, unless it is there.
pub fn add_link(links: &mut Vec<Link>, a: &str, b: &str)
    ensures
        link_models(final(links)@) == with_link(link_models(old(links)@), link(a@, b@)),
{
    if has_link(links, a, b) {
        return;
    }
    let ghost before = links@;
    links.push(Link { paper_id: a.to_owned(), other_id: b.to_owned() });
    assert(link_models(links@) =~= link_models(before).push(link(a@, b@)));
}

/// Whether no link stands twice.
pub open spec fn links_differ(links: Seq<LinkModel>) -> bool {
    forall|i: int, j: int| 0 <= i < j < links.len() ==> #[trigger] links[i] != #[trigger] links[j]
}

/// Adding a link never makes one stand twice.
pub proof fn law_no_link_twice(links: Seq<LinkModel>, l: LinkModel)
    requires
        links_differ(links),
    ensures
        links_differ(with_link(links, l)),
        with_link(links, l).contains(l),
{
    if !links.contains(l) {
        let more = links.push(l);
        assert(more[links.len() as int] == l);
        assert forall|i: int, j: int| 0 <= i < j < more.len() implies #[trigger] more[i]
            != #[trigger] more[j] by {
            if j == links.len() {
                assert(links.contains(links[i]));
            }
        }
    }
}

/// The links that are left once those for which `gone` holds are taken away.
pub open spec fn links_without(links: Seq<LinkModel>, gone: spec_fn(LinkModel) -> bool) -> Seq<
    LinkModel,
>
    decreases links.len(),
{
    if links.len() == 0 {
        links
    } else if gone(links.last()) {
        links_without(links.drop_last(), gone)
    } else {
        links_without(links.drop_last(), gone).push(links.last())
    }
}

/// Links between two papers.
pub open spec fn between(a: Seq<char>, b: Seq<char>) -> spec_fn(LinkModel) -> bool {
    |l: LinkModel| l == link(a, b) || l == link(b, a)
}

/// Links of a paper.
pub open spec fn links_of(id: Seq<char>) -> spec_fn(LinkModel) -> bool {
    |l: LinkModel| l.paper_id == id
}

/// Links of a paper, in either direction.
pub open spec fn links_with(id: Seq<char>) -> spec_fn(LinkModel) -> bool {
    |l: LinkModel| l.paper_id == id || l.other_id == id
}

/// What is left holds nothing that was to be taken away, and nothing else is missing.
pub proof fn lemma_links_without(links: Seq<LinkModel>, gone: spec_fn(LinkModel) -> bool)
    ensures
        forall|l: LinkModel| #[trigger]
            links_without(links, gone).contains(l) == (links.contains(l) && !gone(l)),
    decreases links.len(),
{
    if links.len() > 0 {
        lemma_links_without(links.drop_last(), gone);
        let before = links_without(links.drop_last(), gone);
        let after = links_without(links, gone);
        assert forall|l: LinkModel| #[trigger] after.contains(l) == (links.contains(l) && !gone(l)) by {
            if after.contains(l) {
                let k = choose|k: int| 0 <= k < after.len() && after[k] == l;
                if k < before.len() {
                    assert(before[k] == l);
                    assert(before.contains(l));
                    assert(links.drop_last().contains(l));
                    let j = choose|j: int|
                        0 <= j < links.drop_last().len() && links.drop_last()[j] == l;
                    assert(links[j] == l);
                } else {
                    assert(links[links.len() - 1] == l);
                }
            }
            if links.contains(l) && !gone(l) {
                let j = choose|j: int| 0 <= j < links.len() && links[j] == l;
                if j < links.len() - 1 {
                    assert(links.drop_last()[j] == l);
                    assert(before.contains(l));
                    let k = choose|k: int| 0 <= k < before.len() && before[k] == l;
                    assert(after[k] == l);
                } else {
                    assert(after[after.len() - 1] == l);
                }
            }
        }
    }
}

/// Takes the link between two papers away, in whichever direction it was made.
pub fn remove_related_paper(links: &mut Vec<Link>, paper_id: &str, related_id: &str)
    ensures
        link_models(final(links)@) == links_without(
            link_models(old(links)@),
            between(paper_id@, related_id@),
        ),
{
    let ghost all = link_models(links@);
    let ghost gone = between(paper_id@, related_id@);
    let mut out: Vec<Link> = Vec::new();
    let mut i: usize = 0;
    assert(link_models(out@) =~= links_without(all.take(0), gone));
    while i < links.len()
        invariant
            i <= links.len(),
            all == link_models(links@),
            links@ == old(links)@,
            gone == between(paper_id@, related_id@),
            link_models(out@) == links_without(all.take(i as int), gone),
        decreases links.len() - i,
    {
        let ghost before = link_models(out@);
        proof {
            assert(all.take(i + 1).drop_last() =~= all.take(i as int));
            assert(all.take(i + 1).last() == link(
                links@[i as int].paper_id@,
                links@[i as int].other_id@,
            ));
        }
        let a = links[i].paper_id.as_str();
        let b = links[i].other_id.as_str();
        let is_gone = (same(a, paper_id) && same(b, related_id)) || (same(a, related_id) && same(
            b,
            paper_id,
        ));
        if !is_gone {
            out.push(Link { paper_id: links[i].paper_id.clone(), other_id: links[i].other_id.clone() });
            assert(link_models(out@) =~= before.push(all[i as int]));
        }
        i += 1;
    }
    assert(all.take(all.len() as int) =~= all);
    *links = out;
}

/// A link holds in both directions, and is gone in both once it is taken away.
pub proof fn law_links_go_both_ways(links: Seq<LinkModel>, a: Seq<char>, b: Seq<char>)
    ensures
        are_related(links, a, b) == are_related(links, b, a),
        are_related(links.push(link(a, b)), b, a),
        !are_related(links_without(links, between(a, b)), a, b),
{
    let more = links.push(link(a, b));
    assert(more[links.len() as int] == link(a, b));
    lemma_links_without(links, between(a, b));
    let left = links_without(links, between(a, b));
    assert(left.contains(link(a, b)) == (links.contains(link(a, b)) && !between(a, b)(link(a, b))));
    assert(left.contains(link(b, a)) == (links.contains(link(b, a)) && !between(a, b)(link(b, a))));
}

/// One link.
pub open spec fn just(l: LinkModel) -> spec_fn(LinkModel) -> bool {
    |x: LinkModel| x == l
}

/// Takes a link away.
pub fn remove_link(links: &mut Vec<Link>, a: &str, b: &str)
    ensures
        link_models(final(links)@) == links_without(link_models(old(links)@), just(link(a@, b@))),
{
    let ghost all = link_models(links@);
    let ghost gone = just(link(a@, b@));
    let mut out: Vec<Link> = Vec::new();
    let mut i: usize = 0;
    assert(link_models(out@) =~= links_without(all.take(0), gone));
    while i < links.len()
        invariant
            i <= links.len(),
            all == link_models(links@),
            links@ == old(links)@,
            gone == just(link(a@, b@)),
            link_models(out@) == links_without(all.take(i as int), gone),
        decreases links.len() - i,
    {
        let ghost before = link_models(out@);
        proof {
            assert(all.take(i + 1).drop_last() =~= all.take(i as int));
            assert(all.take(i + 1).last() == link(
                links@[i as int].paper_id@,
                links@[i as int].other_id@,
            ));
        }
        if !(same(links[i].paper_id.as_str(), a) && same(links[i].other_id.as_str(), b)) {
            out.push(Link { paper_id: links[i].paper_id.clone(), other_id: links[i].other_id.clone() });
            assert(link_models(out@) =~= before.push(all[i as int]));
        }
        i += 1;
    }
    assert(all.take(all.len() as int) =~= all);
    *links = out;
}

/// Links to something.
pub open spec fn links_to(id: Seq<char>) -> spec_fn(LinkModel) -> bool {
    |l: LinkModel| l.other_id == id
}

/// Takes all links to something away.
pub fn remove_links_to(links: &mut Vec<Link>, id: &str)
    ensures
        link_models(final(links)@) == links_without(link_models(old(links)@), links_to(id@)),
{
    let ghost all = link_models(links@);
    let ghost gone = links_to(id@);
    let mut out: Vec<Link> = Vec::new();
    let mut i: usize = 0;
    assert(link_models(out@) =~= links_without(all.take(0), gone));
    while i < links.len()
        invariant
            i <= links.len(),
            all == link_models(links@),
            links@ == old(links)@,
            gone == links_to(id@),
            link_models(out@) == links_without(all.take(i as int), gone),
        decreases links.len() - i,
    {
        let ghost before = link_models(out@);
        proof {
            assert(all.take(i + 1).drop_last() =~= all.take(i as int));
            assert(all.take(i + 1).last() == link(
                links@[i as int].paper_id@,
                links@[i as int].other_id@,
            ));
        }
        if !same(links[i].other_id.as_str(), id) {
            out.push(Link { paper_id: links[i].paper_id.clone(), other_id: links[i].other_id.clone() });
            assert(link_models(out@) =~= before.push(all[i as int]));
        }
        i += 1;
    }
    assert(all.take(all.len() as int) =~= all);
    *links = out;
}

fn drop_links(links: &mut Vec<Link>, id: &str, both: bool)
    ensures
        link_models(final(links)@) == links_without(
            link_models(old(links)@),
            if both {
                links_with(id@)
            } else {
                links_of(id@)
            },
        ),
{
    let ghost all = link_models(links@);
    let ghost gone = if both {
        links_with(id@)
    } else {
        links_of(id@)
    };
    let mut out: Vec<Link> = Vec::new();
    let mut i: usize = 0;
    assert(link_models(out@) =~= links_without(all.take(0), gone));
    while i < links.len()
        invariant
            i <= links.len(),
            all == link_models(links@),
            links@ == old(links)@,
            gone == (if both {
                links_with(id@)
            } else {
                links_of(id@)
            }),
            link_models(out@) == links_without(all.take(i as int), gone),
        decreases links.len() - i,
    {
        let ghost before = link_models(out@);
        proof {
            assert(all.take(i + 1).drop_last() =~= all.take(i as int));
            assert(all.take(i + 1).last() == link(
                links@[i as int].paper_id@,
                links@[i as int].other_id@,
            ));
        }
        let is_gone = same(links[i].paper_id.as_str(), id) || (both && same(
            links[i].other_id.as_str(),
            id,
        ));
        if !is_gone {
            out.push(Link { paper_id: links[i].paper_id.clone(), other_id: links[i].other_id.clone() });
            assert(link_models(out@) =~= before.push(all[i as int]));
        }
        i += 1;
    }
    assert(all.take(all.len() as int) =~= all);
    *links = out;
}

// ---------------------------------------------------------------------------------------------
// For good
// ---------------------------------------------------------------------------------------------
/// What refers to papers, as links from a paper to a tag, a collection, another paper, an annotation,
/// an attachment, an item of knowledge, a note, a piece of its text, one of its creators or the record
/// of an import.
pub struct PaperLinks {
    pub tags: Vec<Link>,
    pub collections: Vec<Link>,
    pub related: Vec<Link>,
    pub annotations: Vec<Link>,
    pub attachments: Vec<Link>,
    pub knowledge: Vec<Link>,
    pub notes: Vec<Link>,
    pub chunks: Vec<Link>,
    pub creators: Vec<Link>,
    pub imports: Vec<Link>,
}

/// Takes away all that refers to a paper that is removed for good: no database does that by itself for
/// tables that are synced.
pub fn purge_links(t: &mut PaperLinks, id: &str)
    ensures
        is_purged(*old(t), *final(t), id@),
{
    drop_links(&mut t.tags, id, false);
    drop_links(&mut t.collections, id, false);
    drop_links(&mut t.related, id, true);
    drop_links(&mut t.annotations, id, false);
    drop_links(&mut t.attachments, id, false);
    drop_links(&mut t.knowledge, id, false);
    drop_links(&mut t.chunks, id, false);
    drop_links(&mut t.creators, id, false);
    drop_links(&mut t.imports, id, false);
}

/// Once a paper is removed for good, nothing refers to it, and what refers to other papers is left.
pub proof fn law_purge_leaves_no_link(links: Seq<LinkModel>, id: Seq<char>, l: LinkModel)
    ensures
        l.paper_id == id ==> !links_without(links, links_of(id)).contains(l),
        l.paper_id != id ==> links_without(links, links_of(id)).contains(l) == links.contains(l),
        l.paper_id == id || l.other_id == id ==> !links_without(links, links_with(id)).contains(l),
{
    lemma_links_without(links, links_of(id));
    lemma_links_without(links, links_with(id));
}

/// Whether a stored file is that of some paper in a list.
pub open spec fn file_of_paper(list: Seq<Paper>, path: Seq<char>) -> bool {
    exists|k: int| 0 <= k < list.len() && opt_text((#[trigger] list[k]).file_path) == Some(path)
}

fn uses_file(list: &Vec<Paper>, path: &str) -> (r: bool)
    ensures
        r == file_of_paper(list@, path@),
{
    let mut i: usize = 0;
    while i < list.len()
        invariant
            i <= list.len(),
            forall|k: int|
                0 <= k < i ==> opt_text((#[trigger] list@[k]).file_path) != Some(path@),
        decreases list.len() - i,
    {
        if let Some(p) = &list[i].file_path {
            if same(p.as_str(), path) {
                return true;
            }
        }
        i += 1;
    }
    false
}

/// Whether all that belongs to a paper is taken away, and nothing else. The record of an import stays,
/// but is that of no paper, and notes stay as they are.
pub open spec fn is_purged(t: PaperLinks, r: PaperLinks, id: Seq<char>) -> bool {
    &&& link_models(r.tags@) == links_without(link_models(t.tags@), links_of(id))
    &&& link_models(r.collections@) == links_without(link_models(t.collections@), links_of(id))
    &&& link_models(r.related@) == links_without(link_models(t.related@), links_with(id))
    &&& link_models(r.annotations@) == links_without(link_models(t.annotations@), links_of(id))
    &&& link_models(r.attachments@) == links_without(link_models(t.attachments@), links_of(id))
    &&& link_models(r.knowledge@) == links_without(link_models(t.knowledge@), links_of(id))
    &&& link_models(r.chunks@) == links_without(link_models(t.chunks@), links_of(id))
    &&& link_models(r.creators@) == links_without(link_models(t.creators@), links_of(id))
    &&& link_models(r.imports@) == links_without(link_models(t.imports@), links_of(id))
    &&& r.notes == t.notes
}

/// Removes a paper for good. Its stored file is handed back to be deleted, where no other paper and no
/// attachment uses it; `attached` holds the files of the attachments that are left.
pub fn purge_paper(
    list: &mut Vec<Paper>,
    t: &mut PaperLinks,
    attached: &Vec<String>,
    id: &str,
) -> (r: Result<Option<String>, SikuError>)
    ensures
        match paper_from(old(list)@, id@, 0) {
            Some(k) => r is Ok && final(list)@ == old(list)@.remove(k) && is_purged(
                *old(t),
                *final(t),
                id@,
            ) && opt_text(r->Ok_0) == unused_file(
                old(list)@[k],
                final(list)@,
                texts(attached@),
            ),
            None => r is Err && is_missing(r->Err_0, id@) && final(list)@ == old(list)@ && *final(t)
                == *old(t),
        },
{
    match get_paper(list, id) {
        Ok(k) => {
            let gone = list.remove(k);
            purge_links(t, id);
            match gone.file_path {
                Some(p) => if uses_file(list, p.as_str()) || list_has(attached, p.as_str()) {
                    Ok(None)
                } else {
                    Ok(Some(p))
                },
                None => Ok(None),
            }
        },
        Err(e) => Err(e),
    }
}

// ---------------------------------------------------------------------------------------------
// Merging
// ---------------------------------------------------------------------------------------------
/// A link that goes over from a paper to another.
pub open spec fn handed_over(l: LinkModel, from: Seq<char>, to: Seq<char>) -> LinkModel {
    if l.paper_id == from {
        link(to, l.other_id)
    } else {
        l
    }
}

/// Links, with those of one paper as links of another.
pub open spec fn all_handed_over(links: Seq<LinkModel>, from: Seq<char>, to: Seq<char>) -> Seq<
    LinkModel,
> {
    Seq::new(links.len(), |i: int| handed_over(links[i], from, to))
}

/// Links, with copies of the first `n` where they are links of one paper, as links of another. A link
/// that is there is not copied.
pub open spec fn copied(links: Seq<LinkModel>, from: Seq<char>, to: Seq<char>, n: int) -> Seq<
    LinkModel,
>
    decreases n,
{
    if n <= 0 || n > links.len() {
        links
    } else {
        let before = copied(links, from, to, n - 1);
        if links[n - 1].paper_id == from {
            with_link(before, link(to, links[n - 1].other_id))
        } else {
            before
        }
    }
}

fn hand_over(links: &mut Vec<Link>, from: &str, to: &str)
    ensures
        link_models(final(links)@) == all_handed_over(link_models(old(links)@), from@, to@),
{
    let ghost all = link_models(links@);
    let n: usize = links.len();
    let mut i: usize = 0;
    while i < n
        invariant
            i <= n,
            n == links@.len(),
            all == link_models(old(links)@),
            all.len() == n,
            forall|k: int|
                0 <= k < i ==> link_models(links@)[k] == #[trigger] handed_over(
                    all[k],
                    from@,
                    to@,
                ),
            forall|k: int| i <= k < n ==> #[trigger] links@[k] == old(links)@[k],
        decreases n - i,
    {
        assert(all[i as int] == link(
            old(links)@[i as int].paper_id@,
            old(links)@[i as int].other_id@,
        ));
        let ghost before = links@;
        if same(links[i].paper_id.as_str(), from) {
            links[i].paper_id = to.to_owned();
        }
        assert forall|k: int| 0 <= k < i + 1 implies link_models(links@)[k]
            == #[trigger] handed_over(all[k], from@, to@) by {
            if k < i {
                assert(links@[k] == before[k]);
                assert(link_models(before)[k] == handed_over(all[k], from@, to@));
            }
        }
        i += 1;
    }
    assert(link_models(links@) =~= all_handed_over(all, from@, to@)) by {
        assert forall|k: int| 0 <= k < n implies link_models(links@)[k] == all_handed_over(
            all,
            from@,
            to@,
        )[k] by {
            assert(link_models(links@)[k] == handed_over(all[k], from@, to@));
        }
    }
}

fn copy_links(links: &mut Vec<Link>, from: &str, to: &str)
    ensures
        link_models(final(links)@) == copied(
            link_models(old(links)@),
            from@,
            to@,
            old(links)@.len() as int,
        ),
{
    let ghost all = link_models(links@);
    let n: usize = links.len();
    let mut i: usize = 0;
    while i < n
        invariant
            i <= n,
            n == all.len(),
            n <= links@.len(),
            all == link_models(old(links)@),
            forall|k: int| 0 <= k < n ==> #[trigger] link_models(links@)[k] == all[k],
            link_models(links@) == copied(all, from@, to@, i as int),
        decreases n - i,
    {
        let ghost before = link_models(links@);
        assert(before[i as int] == all[i as int]);
        assert(before[i as int] == link(
            links@[i as int].paper_id@,
            links@[i as int].other_id@,
        ));
        if same(links[i].paper_id.as_str(), from) {
            let other = links[i].other_id.clone();
            add_link(links, to, other.as_str());
            assert(link_models(links@).len() == links@.len());
            assert forall|k: int| 0 <= k < n implies #[trigger] link_models(links@)[k]
                == all[k] by {
                assert(before[k] == all[k]);
            }
        }
        i += 1;
    }
}

/// Whether what refers to a paper refers to another too, and goes over to it where it can refer to
/// one only.
pub open spec fn is_transferred(
    t: PaperLinks,
    r: PaperLinks,
    keep: Seq<char>,
    remove: Seq<char>,
) -> bool {
    &&& link_models(r.tags@) == copied(link_models(t.tags@), remove, keep, t.tags@.len() as int)
    &&& link_models(r.collections@) == copied(
        link_models(t.collections@),
        remove,
        keep,
        t.collections@.len() as int,
    )
    &&& link_models(r.annotations@) == all_handed_over(link_models(t.annotations@), remove, keep)
    &&& link_models(r.attachments@) == all_handed_over(link_models(t.attachments@), remove, keep)
    &&& link_models(r.notes@) == all_handed_over(link_models(t.notes@), remove, keep)
    &&& link_models(r.chunks@) == all_handed_over(link_models(t.chunks@), remove, keep)
    &&& link_models(r.imports@) == all_handed_over(link_models(t.imports@), remove, keep)
    &&& r.related == t.related && r.knowledge == t.knowledge && r.creators == t.creators
}

/// Lets what refers to a paper refer to another.
pub fn transfer_links(t: &mut PaperLinks, keep_id: &str, remove_id: &str)
    ensures
        is_transferred(*old(t), *final(t), keep_id@, remove_id@),
{
    copy_links(&mut t.tags, remove_id, keep_id);
    copy_links(&mut t.collections, remove_id, keep_id);
    hand_over(&mut t.annotations, remove_id, keep_id);
    hand_over(&mut t.attachments, remove_id, keep_id);
    hand_over(&mut t.notes, remove_id, keep_id);
    hand_over(&mut t.chunks, remove_id, keep_id);
    hand_over(&mut t.imports, remove_id, keep_id);
}

/// Whether `r` is the list with a paper merged into another.
pub open spec fn list_merged(
    list: Seq<Paper>,
    r: Seq<Paper>,
    keep: int,
    remove: int,
    now: Seq<char>,
    m: Paper,
) -> bool {
    is_merge(list[keep], list[remove], now, m) && r == list.update(keep, m).remove(remove)
}

/// Whether links are those that a merge leaves: what referred to the paper that is gone refers to the
/// one that is kept, and nothing else changed.
pub open spec fn links_merged(
    t: PaperLinks,
    r: PaperLinks,
    keep_id: Seq<char>,
    remove_id: Seq<char>,
    mid: PaperLinks,
) -> bool {
    is_transferred(t, mid, keep_id, remove_id) && is_purged(mid, r, remove_id)
}

/// Whether a paper was merged into another.
pub open spec fn is_merged(
    list: Seq<Paper>,
    r: Seq<Paper>,
    t: PaperLinks,
    rt: PaperLinks,
    keep: int,
    remove: int,
    remove_id: Seq<char>,
    now: Seq<char>,
) -> bool {
    &&& exists|m: Paper| #[trigger] list_merged(list, r, keep, remove, now, m)
    &&& exists|mid: PaperLinks| #[trigger] links_merged(t, rt, list[keep].id@, remove_id, mid)
}

/// The stored file of a paper that is gone, where no other paper and no attachment uses it.
pub open spec fn unused_file(gone: Paper, left: Seq<Paper>, attached: Seq<Seq<char>>) -> Option<
    Seq<char>,
> {
    match gone.file_path {
        Some(p) => if file_of_paper(left, p@) || holds(attached, p@) {
            None
        } else {
            Some(p@)
        },
        None => None,
    }
}

/// Merges a paper into another: the gaps of the one that is kept are filled, what referred to the other
/// refers to it, and the other is removed for good. Its stored file is handed back to be deleted, where
/// nothing uses it. A paper is not merged into itself.
pub fn merge_into(
    list: &mut Vec<Paper>,
    t: &mut PaperLinks,
    attached: &Vec<String>,
    keep_id: &str,
    remove_id: &str,
    now: &str,
) -> (r: Result<Option<String>, SikuError>)
    ensures
        ({
            let keep = paper_from(old(list)@, keep_id@, 0);
            let remove = paper_from(old(list)@, remove_id@, 0);
            if keep_id@ == remove_id@ {
                r is Ok && r->Ok_0 is None && final(list)@ == old(list)@ && *final(t) == *old(t)
            } else if keep is None {
                r is Err && is_missing(r->Err_0, keep_id@) && final(list)@ == old(list)@
                    && *final(t) == *old(t)
            } else if remove is None {
                r is Err && is_missing(r->Err_0, remove_id@) && final(list)@ == old(list)@
                    && *final(t) == *old(t)
            } else {
                r is Ok && is_merged(
                    old(list)@,
                    final(list)@,
                    *old(t),
                    *final(t),
                    keep->0,
                    remove->0,
                    remove_id@,
                    now@,
                ) && opt_text(r->Ok_0) == unused_file(
                    old(list)@[remove->0],
                    final(list)@,
                    texts(attached@),
                )
            }
        }),
{
    if same(keep_id, remove_id) {
        return Ok(None);
    }
    let k = match get_paper(list, keep_id) {
        Ok(k) => k,
        Err(e) => {
            return Err(e);
        },
    };
    let j = match get_paper(list, remove_id) {
        Ok(j) => j,
        Err(e) => {
            return Err(e);
        },
    };
    let ghost start = list@;
    let m = merge_papers(&list[k], &list[j], now);
    let ghost merged = m;
    list.set(k, m);
    proof {
        lemma_paper_kept(start, list@, k as int, remove_id@, 0);
    }
    transfer_links(t, keep_id, remove_id);
    let ghost mid = *t;
    let ghost set = list@;
    assert(k != j);
    assert(set == start.update(k as int, merged));
    assert(set[j as int] == start[j as int]);
    let r = purge_paper(list, t, attached, remove_id);
    proof {
        assert(list@ == set.remove(j as int));
        assert(list_merged(start, list@, k as int, j as int, now@, merged));
        assert(links_merged(*old(t), *t, keep_id@, remove_id@, mid));
    }
    r
}

/// A change of one paper that leaves ids alone does not move the papers.
proof fn lemma_paper_kept(a: Seq<Paper>, b: Seq<Paper>, k: int, id: Seq<char>, i: int)
    requires
        0 <= k < a.len(),
        b == a.update(k, b[k]),
        b[k].id@ == a[k].id@,
        0 <= i,
    ensures
        paper_from(b, id, i) == paper_from(a, id, i),
    decreases a.len() - i,
{
    if i < a.len() && a[i].id@ != id {
        lemma_paper_kept(a, b, k, id, i + 1);
    }
}

proof fn lemma_copied(links: Seq<LinkModel>, from: Seq<char>, to: Seq<char>, n: int)
    requires
        0 <= n <= links.len(),
    ensures
        forall|k: int|
            0 <= k < n && (#[trigger] links[k]).paper_id == from ==> copied(
                links,
                from,
                to,
                n,
            ).contains(link(to, links[k].other_id)),
        forall|l: LinkModel| links.contains(l) ==> #[trigger] copied(links, from, to, n).contains(l),
    decreases n,
{
    if n > 0 {
        lemma_copied(links, from, to, n - 1);
        let before = copied(links, from, to, n - 1);
        let after = copied(links, from, to, n);
        let l = link(to, links[n - 1].other_id);
        assert forall|x: LinkModel| before.contains(x) implies after.contains(x) by {
            let k = choose|k: int| 0 <= k < before.len() && before[k] == x;
            assert(after[k] == x);
        }
        if links[n - 1].paper_id == from {
            if !before.contains(l) {
                assert(after[before.len() as int] == l);
            }
        }
    }
}

/// Nothing that referred to a paper is lost when it is merged into another: its tags and collections
/// are those of the other, and so are its annotations, attachments, notes, pieces of text and imports.
pub proof fn law_merge_loses_nothing(
    t: PaperLinks,
    mid: PaperLinks,
    r: PaperLinks,
    keep: Seq<char>,
    remove: Seq<char>,
    x: Seq<char>,
)
    requires
        keep != remove,
        is_transferred(t, mid, keep, remove),
        is_purged(mid, r, remove),
    ensures
        link_models(t.tags@).contains(link(remove, x)) ==> link_models(r.tags@).contains(
            link(keep, x),
        ),
        link_models(t.collections@).contains(link(remove, x)) ==> link_models(
            r.collections@,
        ).contains(link(keep, x)),
        link_models(t.annotations@).contains(link(remove, x)) ==> link_models(
            r.annotations@,
        ).contains(link(keep, x)),
        link_models(t.attachments@).contains(link(remove, x)) ==> link_models(
            r.attachments@,
        ).contains(link(keep, x)),
        link_models(t.notes@).contains(link(remove, x)) ==> link_models(r.notes@).contains(
            link(keep, x),
        ),
        link_models(t.chunks@).contains(link(remove, x)) ==> link_models(r.chunks@).contains(
            link(keep, x),
        ),
        link_models(t.imports@).contains(link(remove, x)) ==> link_models(r.imports@).contains(
            link(keep, x),
        ),
        link_models(t.tags@).contains(link(keep, x)) ==> link_models(r.tags@).contains(
            link(keep, x),
        ),
        link_models(t.collections@).contains(link(keep, x)) ==> link_models(
            r.collections@,
        ).contains(link(keep, x)),
{
    lemma_merge_copied(link_models(t.tags@), keep, remove, x);
    lemma_merge_copied(link_models(t.collections@), keep, remove, x);
    if link_models(t.annotations@).contains(link(remove, x)) {
        lemma_merge_handed(link_models(t.annotations@), keep, remove, x);
    }
    if link_models(t.attachments@).contains(link(remove, x)) {
        lemma_merge_handed(link_models(t.attachments@), keep, remove, x);
    }
    if link_models(t.notes@).contains(link(remove, x)) {
        let links = link_models(t.notes@);
        let k = choose|k: int| 0 <= k < links.len() && links[k] == link(remove, x);
        assert(all_handed_over(links, remove, keep)[k] == link(keep, x));
    }
    if link_models(t.chunks@).contains(link(remove, x)) {
        lemma_merge_handed(link_models(t.chunks@), keep, remove, x);
    }
    if link_models(t.imports@).contains(link(remove, x)) {
        lemma_merge_handed(link_models(t.imports@), keep, remove, x);
    }
}

proof fn lemma_merge_copied(
    links: Seq<LinkModel>,
    keep: Seq<char>,
    remove: Seq<char>,
    x: Seq<char>,
)
    requires
        keep != remove,
    ensures
        ({
            let r = links_without(
                copied(links, remove, keep, links.len() as int),
                links_of(remove),
            );
            &&& links.contains(link(remove, x)) ==> r.contains(link(keep, x))
            &&& links.contains(link(keep, x)) ==> r.contains(link(keep, x))
        }),
{
    let c = copied(links, remove, keep, links.len() as int);
    lemma_copied(links, remove, keep, links.len() as int);
    lemma_links_without(c, links_of(remove));
    let l = link(keep, x);
    assert(links_without(c, links_of(remove)).contains(l) == (c.contains(l) && !links_of(remove)(
        l,
    )));
    if links.contains(link(remove, x)) {
        let k = choose|k: int| 0 <= k < links.len() && links[k] == link(remove, x);
        assert(links[k].paper_id == remove);
    }
}

proof fn lemma_merge_handed(
    links: Seq<LinkModel>,
    keep: Seq<char>,
    remove: Seq<char>,
    x: Seq<char>,
)
    requires
        keep != remove,
        links.contains(link(remove, x)),
    ensures
        links_without(all_handed_over(links, remove, keep), links_of(remove)).contains(
            link(keep, x),
        ),
{
    let h = all_handed_over(links, remove, keep);
    let l = link(keep, x);
    lemma_links_without(h, links_of(remove));
    let k = choose|k: int| 0 <= k < links.len() && links[k] == link(remove, x);
    assert(h[k] == l);
    assert(h.contains(l));
    assert(links_without(h, links_of(remove)).contains(l) == (h.contains(l) && !links_of(remove)(
        l,
    )));
}

/// Whether a paper is linked to another, in either direction, and is not in the trash.
pub open spec fn related_to(links: Seq<LinkModel>, id: Seq<char>) -> spec_fn(Paper) -> bool {
    |p: Paper| are_related(links, id, p.id@) && p.deleted_at is None
}

/// When papers were changed.
pub open spec fn paper_times(list: Seq<Paper>) -> Seq<Seq<char>> {
    Seq::new(list.len(), |i: int| list[i].updated_at@)
}

/// The places of the papers that are linked to a paper, in either direction, the latest changed
/// first. Those in the trash are left out.
pub fn list_related_papers(list: &Vec<Paper>, links: &Vec<Link>, id: &str) -> (r: Vec<usize>)
    ensures
        place_list(r@) == sorted(
            picked(list@, related_to(link_models(links@), id@)),
            greatest_first(paper_times(list@)),
        ),
        forall|i: int| 0 <= i < r.len() ==> #[trigger] r@[i] < list.len(),
{
    let is = |p: &Paper| -> (r: bool)
        ensures
            r == (are_related(link_models(links@), id@, p.id@) && p.deleted_at is None),
        { p.deleted_at.is_none() && related(links, id, p.id.as_str()) };
    let found = pick_rows(list, is, Ghost(related_to(link_models(links@), id@)));
    let goes = |a: usize, b: usize| -> (c: bool)
        requires
            a < list.len() && b < list.len(),
        ensures
            c == text_before(list@[b as int].updated_at@, list@[a as int].updated_at@),
        { goes_before(list[b].updated_at.as_str(), list[a].updated_at.as_str()) };
    order_picked(&found, list.len(), goes, Ghost(greatest_first(paper_times(list@))))
}

/// A paper is among those linked to another exactly where the other is among those linked to it.
pub proof fn law_related_both_ways(links: Seq<LinkModel>, p: Paper, q: Paper)
    requires
        p.deleted_at is None,
        q.deleted_at is None,
    ensures
        related_to(links, p.id@)(q) == related_to(links, q.id@)(p),
{
}

// ---------------------------------------------------------------------------------------------
// Saved searches
// ---------------------------------------------------------------------------------------------
/// A search that is kept under a name.
pub fn create_saved_search(name: &str, params_json: &str, id: &str, now: &str) -> (r: SavedSearch)
    ensures
        r.id@ == id@ && r.name@ == name@ && r.params_json@ == params_json@ && r.created_at@ == now@,
{
    SavedSearch {
        id: id.to_owned(),
        name: name.to_owned(),
        params_json: params_json.to_owned(),
        created_at: now.to_owned(),
    }
}

/// When searches were kept.
pub open spec fn search_times(list: Seq<SavedSearch>) -> Seq<Seq<char>> {
    Seq::new(list.len(), |i: int| list[i].created_at@)
}

/// The places of searches, the newest first.
pub fn list_saved_searches(list: &Vec<SavedSearch>) -> (r: Vec<usize>)
    ensures
        place_list(r@) == sorted(places(list@.len()), greatest_first(search_times(list@))),
        r.len() == list.len(),
        forall|i: int| 0 <= i < r.len() ==> #[trigger] r@[i] < list.len(),
{
    let mut keys: Vec<Vec<char>> = Vec::new();
    let mut i: usize = 0;
    while i < list.len()
        invariant
            i <= list.len(),
            keys.len() == i,
            forall|k: int| 0 <= k < i ==> (#[trigger] keys@[k])@ == list@[k].created_at@,
        decreases list.len() - i,
    {
        keys.push(chars_of(list[i].created_at.as_str()));
        i += 1;
    }
    assert(char_rows(keys@) =~= search_times(list@));
    order_greatest_first(&keys)
}

/// Whether a search has an id.
pub open spec fn search_with_id(id: Seq<char>) -> spec_fn(SavedSearch) -> bool {
    |s: SavedSearch| s.id@ == id
}

/// Forgets a search.
pub fn delete_saved_search(list: &mut Vec<SavedSearch>, id: &str)
    ensures
        final(list)@ == rows_without(old(list)@, search_with_id(id@)),
{
    let goes = |s: &SavedSearch| -> (r: bool)
        ensures
            r == (s.id@ == id@),
        { same(s.id.as_str(), id) };
    remove_rows(list, goes, Ghost(search_with_id(id@)));
}

} // verus!
