//! What is decided about papers: what an import stores, how records are enriched, compared and
//! merged, and who their creators are.
use vstd::prelude::*;
use vstd::string::*;

use crate::citation_export::{names_in, parse_authors};
use crate::json::{json_array_text, print_strings};
use crate::link_import::{low_word, low_word_of};
use crate::models::{Paper, PaperInput};
use crate::text::{
    alphanumeric, byte_len, char_lowercase, chars_of, concat3, copy_opt, copy_texts, holds,
    is_alphanumeric, lemma_texts_push, list_has, longer_than, lower, lowercase_of, opt_text, same,
    slice, strip_end, stripped_end, texts, to_lower, to_lowercase, to_lowercase_char, trim, trimmed,
};

verus! {

// ---------------------------------------------------------------------------------------------
// Merging
// ---------------------------------------------------------------------------------------------
/// The first text where it is there and not empty, else the second where that is.
pub open spec fn pick(a: Option<Seq<char>>, b: Option<Seq<char>>) -> Option<Seq<char>> {
    if a is Some && a->0.len() > 0 {
        a
    } else if b is Some && b->0.len() > 0 {
        b
    } else {
        None
    }
}

/// The first list, unless it is blank or the empty JSON array.
pub open spec fn pick_list(a: Seq<char>, b: Seq<char>) -> Seq<char> {
    if trim(a).len() == 0 || a == "[]"@ {
        b
    } else {
        a
    }
}

/// The first value, else the second.
pub fn or_else<T: Copy>(a: Option<T>, b: Option<T>) -> (r: Option<T>)
    ensures
        r == (if a is Some {
            a
        } else {
            b
        }),
{
    match a {
        Some(x) => Some(x),
        None => b,
    }
}

fn pick_of(a: &Option<String>, b: &Option<String>) -> (r: Option<String>)
    ensures
        opt_text(r) == pick(opt_text(*a), opt_text(*b)),
{
    match a {
        Some(s) => {
            if !s.as_str().is_empty() {
                return Some(s.clone());
            }
        },
        None => {},
    }
    match b {
        Some(s) => {
            if !s.as_str().is_empty() {
                return Some(s.clone());
            }
        },
        None => {},
    }
    None
}

fn pick_list_of(a: &str, b: &str) -> (r: String)
    ensures
        r@ == pick_list(a@, b@),
{
    if trimmed(a).as_str().is_empty() || same(a, "[]") {
        b.to_owned()
    } else {
        a.to_owned()
    }
}

/// Whether `r` is `keep` with its gaps filled from `remove`.
pub open spec fn is_merge(keep: Paper, remove: Paper, now: Seq<char>, r: Paper) -> bool {
    &&& r.id@ == keep.id@
    &&& r.title@ == (if trim(keep.title@).len() == 0 {
        remove.title@
    } else {
        keep.title@
    })
    &&& opt_text(r.journal) == pick(opt_text(keep.journal), opt_text(remove.journal))
    &&& opt_text(r.doi) == pick(opt_text(keep.doi), opt_text(remove.doi))
    &&& opt_text(r.url) == pick(opt_text(keep.url), opt_text(remove.url))
    &&& opt_text(r.abstract_text) == pick(opt_text(keep.abstract_text), opt_text(remove.abstract_text))
    &&& opt_text(r.citation_key) == pick(opt_text(keep.citation_key), opt_text(remove.citation_key))
    &&& opt_text(r.bibtex) == pick(opt_text(keep.bibtex), opt_text(remove.bibtex))
    &&& opt_text(r.file_path) == pick(opt_text(keep.file_path), opt_text(remove.file_path))
    &&& opt_text(r.language) == pick(opt_text(keep.language), opt_text(remove.language))
    &&& opt_text(r.item_type) == pick(opt_text(keep.item_type), opt_text(remove.item_type))
    &&& opt_text(r.volume) == pick(opt_text(keep.volume), opt_text(remove.volume))
    &&& opt_text(r.issue) == pick(opt_text(keep.issue), opt_text(remove.issue))
    &&& opt_text(r.pages) == pick(opt_text(keep.pages), opt_text(remove.pages))
    &&& opt_text(r.conference_name) == pick(opt_text(keep.conference_name), opt_text(remove.conference_name))
    &&& opt_text(r.publisher) == pick(opt_text(keep.publisher), opt_text(remove.publisher))
    &&& opt_text(r.place) == pick(opt_text(keep.place), opt_text(remove.place))
    &&& opt_text(r.series) == pick(opt_text(keep.series), opt_text(remove.series))
    &&& opt_text(r.edition) == pick(opt_text(keep.edition), opt_text(remove.edition))
    &&& opt_text(r.isbn) == pick(opt_text(keep.isbn), opt_text(remove.isbn))
    &&& opt_text(r.issn) == pick(opt_text(keep.issn), opt_text(remove.issn))
    &&& opt_text(r.archive_location) == pick(opt_text(keep.archive_location), opt_text(remove.archive_location))
    &&& opt_text(r.call_number) == pick(opt_text(keep.call_number), opt_text(remove.call_number))
    &&& opt_text(r.rights) == pick(opt_text(keep.rights), opt_text(remove.rights))
    &&& r.year == (if keep.year is Some {
        keep.year
    } else {
        remove.year
    })
    &&& r.file_size == (if keep.file_size is Some {
        keep.file_size
    } else {
        remove.file_size
    })
    &&& r.page_count == (if keep.page_count is Some {
        keep.page_count
    } else {
        remove.page_count
    })
    &&& r.num_pages == (if keep.num_pages is Some {
        keep.num_pages
    } else {
        remove.num_pages
    })
    &&& r.authors@ == pick_list(keep.authors@, remove.authors@)
    &&& r.editor@ == pick_list(keep.editor@, remove.editor@)
    &&& r.keywords@ == pick_list(keep.keywords@, remove.keywords@)
    &&& opt_text(r.deleted_at) == opt_text(keep.deleted_at)
    &&& r.is_favorite == keep.is_favorite
    &&& r.read_status@ == keep.read_status@
    &&& opt_text(r.last_read_at) == opt_text(keep.last_read_at)
    &&& r.created_at@ == keep.created_at@
    &&& r.updated_at@ == now
    &&& r.imported_at@ == keep.imported_at@
}

/// `keep` with its gaps filled from `remove`.
pub fn merge_papers(keep: &Paper, remove: &Paper, now: &str) -> (r: Paper)
    ensures
        is_merge(*keep, *remove, now@, r),
{
    Paper {
        id: keep.id.clone(),
        title: if trimmed(keep.title.as_str()).as_str().is_empty() {
            remove.title.clone()
        } else {
            keep.title.clone()
        },
        authors: pick_list_of(keep.authors.as_str(), remove.authors.as_str()),
        year: or_else(keep.year, remove.year),
        journal: pick_of(&keep.journal, &remove.journal),
        doi: pick_of(&keep.doi, &remove.doi),
        url: pick_of(&keep.url, &remove.url),
        abstract_text: pick_of(&keep.abstract_text, &remove.abstract_text),
        keywords: pick_list_of(keep.keywords.as_str(), remove.keywords.as_str()),
        citation_key: pick_of(&keep.citation_key, &remove.citation_key),
        bibtex: pick_of(&keep.bibtex, &remove.bibtex),
        file_path: pick_of(&keep.file_path, &remove.file_path),
        file_size: or_else(keep.file_size, remove.file_size),
        page_count: or_else(keep.page_count, remove.page_count),
        language: pick_of(&keep.language, &remove.language),
        item_type: pick_of(&keep.item_type, &remove.item_type),
        volume: pick_of(&keep.volume, &remove.volume),
        issue: pick_of(&keep.issue, &remove.issue),
        pages: pick_of(&keep.pages, &remove.pages),
        conference_name: pick_of(&keep.conference_name, &remove.conference_name),
        publisher: pick_of(&keep.publisher, &remove.publisher),
        place: pick_of(&keep.place, &remove.place),
        editor: pick_list_of(keep.editor.as_str(), remove.editor.as_str()),
        series: pick_of(&keep.series, &remove.series),
        edition: pick_of(&keep.edition, &remove.edition),
        isbn: pick_of(&keep.isbn, &remove.isbn),
        issn: pick_of(&keep.issn, &remove.issn),
        num_pages: or_else(keep.num_pages, remove.num_pages),
        archive_location: pick_of(&keep.archive_location, &remove.archive_location),
        call_number: pick_of(&keep.call_number, &remove.call_number),
        rights: pick_of(&keep.rights, &remove.rights),
        deleted_at: copy_opt(&keep.deleted_at),
        is_favorite: keep.is_favorite,
        read_status: keep.read_status.clone(),
        last_read_at: copy_opt(&keep.last_read_at),
        created_at: keep.created_at.clone(),
        updated_at: now.to_owned(),
        imported_at: keep.imported_at.clone(),
    }
}

/// A merge changes nothing of the kept paper that is not empty.
pub proof fn law_merge_keeps_what_is_there(keep: Paper, remove: Paper, now: Seq<char>, r: Paper)
    requires
        is_merge(keep, remove, now, r),
    ensures
        r.id@ == keep.id@,
        trim(keep.title@).len() > 0 ==> r.title@ == keep.title@,
        trim(keep.authors@).len() > 0 && keep.authors@ != "[]"@ ==> r.authors@ == keep.authors@,
        trim(keep.editor@).len() > 0 && keep.editor@ != "[]"@ ==> r.editor@ == keep.editor@,
        trim(keep.keywords@).len() > 0 && keep.keywords@ != "[]"@ ==> r.keywords@ == keep.keywords@,
        keep.year is Some ==> r.year == keep.year,
        keep.file_size is Some ==> r.file_size == keep.file_size,
        keep.page_count is Some ==> r.page_count == keep.page_count,
        keep.num_pages is Some ==> r.num_pages == keep.num_pages,
        said_something(keep.journal) ==> opt_text(r.journal) == opt_text(keep.journal),
        said_something(keep.doi) ==> opt_text(r.doi) == opt_text(keep.doi),
        said_something(keep.url) ==> opt_text(r.url) == opt_text(keep.url),
        said_something(keep.abstract_text) ==> opt_text(r.abstract_text) == opt_text(keep.abstract_text),
        said_something(keep.citation_key) ==> opt_text(r.citation_key) == opt_text(keep.citation_key),
        said_something(keep.bibtex) ==> opt_text(r.bibtex) == opt_text(keep.bibtex),
        said_something(keep.file_path) ==> opt_text(r.file_path) == opt_text(keep.file_path),
        said_something(keep.language) ==> opt_text(r.language) == opt_text(keep.language),
        said_something(keep.item_type) ==> opt_text(r.item_type) == opt_text(keep.item_type),
        said_something(keep.volume) ==> opt_text(r.volume) == opt_text(keep.volume),
        said_something(keep.issue) ==> opt_text(r.issue) == opt_text(keep.issue),
        said_something(keep.pages) ==> opt_text(r.pages) == opt_text(keep.pages),
        said_something(keep.conference_name) ==> opt_text(r.conference_name) == opt_text(keep.conference_name),
        said_something(keep.publisher) ==> opt_text(r.publisher) == opt_text(keep.publisher),
        said_something(keep.place) ==> opt_text(r.place) == opt_text(keep.place),
        said_something(keep.series) ==> opt_text(r.series) == opt_text(keep.series),
        said_something(keep.edition) ==> opt_text(r.edition) == opt_text(keep.edition),
        said_something(keep.isbn) ==> opt_text(r.isbn) == opt_text(keep.isbn),
        said_something(keep.issn) ==> opt_text(r.issn) == opt_text(keep.issn),
        said_something(keep.archive_location) ==> opt_text(r.archive_location) == opt_text(keep.archive_location),
        said_something(keep.call_number) ==> opt_text(r.call_number) == opt_text(keep.call_number),
        said_something(keep.rights) ==> opt_text(r.rights) == opt_text(keep.rights),
{
}

/// Whether a text is there and not empty.
pub open spec fn said_something(o: Option<String>) -> bool {
    o is Some && o->0@.len() > 0
}

/// A merge fills every gap of the kept paper that the removed paper can fill: where the kept paper says
/// nothing, or an empty text, and the removed paper says something, the merged paper says that. What
/// neither of them says is missing.
pub proof fn law_merge_fills_every_gap(keep: Paper, remove: Paper, now: Seq<char>, r: Paper)
    requires
        is_merge(keep, remove, now, r),
    ensures
        trim(keep.title@).len() == 0 ==> r.title@ == remove.title@,
        trim(keep.authors@).len() == 0 || keep.authors@ == "[]"@ ==> r.authors@ == remove.authors@,
        trim(keep.editor@).len() == 0 || keep.editor@ == "[]"@ ==> r.editor@ == remove.editor@,
        trim(keep.keywords@).len() == 0 || keep.keywords@ == "[]"@ ==> r.keywords@
            == remove.keywords@,
        keep.year is None ==> r.year == remove.year,
        keep.file_size is None ==> r.file_size == remove.file_size,
        keep.page_count is None ==> r.page_count == remove.page_count,
        keep.num_pages is None ==> r.num_pages == remove.num_pages,
        !said_something(keep.journal) && said_something(remove.journal) ==> opt_text(r.journal)
            == opt_text(remove.journal),
        !said_something(keep.journal) && !said_something(remove.journal) ==> r.journal is None,
        !said_something(keep.doi) && said_something(remove.doi) ==> opt_text(r.doi)
            == opt_text(remove.doi),
        !said_something(keep.doi) && !said_something(remove.doi) ==> r.doi is None,
        !said_something(keep.url) && said_something(remove.url) ==> opt_text(r.url)
            == opt_text(remove.url),
        !said_something(keep.url) && !said_something(remove.url) ==> r.url is None,
        !said_something(keep.abstract_text) && said_something(remove.abstract_text) ==> opt_text(r.abstract_text)
            == opt_text(remove.abstract_text),
        !said_something(keep.abstract_text) && !said_something(remove.abstract_text) ==> r.abstract_text is None,
        !said_something(keep.citation_key) && said_something(remove.citation_key) ==> opt_text(r.citation_key)
            == opt_text(remove.citation_key),
        !said_something(keep.citation_key) && !said_something(remove.citation_key) ==> r.citation_key is None,
        !said_something(keep.bibtex) && said_something(remove.bibtex) ==> opt_text(r.bibtex)
            == opt_text(remove.bibtex),
        !said_something(keep.bibtex) && !said_something(remove.bibtex) ==> r.bibtex is None,
        !said_something(keep.file_path) && said_something(remove.file_path) ==> opt_text(r.file_path)
            == opt_text(remove.file_path),
        !said_something(keep.file_path) && !said_something(remove.file_path) ==> r.file_path is None,
        !said_something(keep.language) && said_something(remove.language) ==> opt_text(r.language)
            == opt_text(remove.language),
        !said_something(keep.language) && !said_something(remove.language) ==> r.language is None,
        !said_something(keep.item_type) && said_something(remove.item_type) ==> opt_text(r.item_type)
            == opt_text(remove.item_type),
        !said_something(keep.item_type) && !said_something(remove.item_type) ==> r.item_type is None,
        !said_something(keep.volume) && said_something(remove.volume) ==> opt_text(r.volume)
            == opt_text(remove.volume),
        !said_something(keep.volume) && !said_something(remove.volume) ==> r.volume is None,
        !said_something(keep.issue) && said_something(remove.issue) ==> opt_text(r.issue)
            == opt_text(remove.issue),
        !said_something(keep.issue) && !said_something(remove.issue) ==> r.issue is None,
        !said_something(keep.pages) && said_something(remove.pages) ==> opt_text(r.pages)
            == opt_text(remove.pages),
        !said_something(keep.pages) && !said_something(remove.pages) ==> r.pages is None,
        !said_something(keep.conference_name) && said_something(remove.conference_name) ==> opt_text(r.conference_name)
            == opt_text(remove.conference_name),
        !said_something(keep.conference_name) && !said_something(remove.conference_name) ==> r.conference_name is None,
        !said_something(keep.publisher) && said_something(remove.publisher) ==> opt_text(r.publisher)
            == opt_text(remove.publisher),
        !said_something(keep.publisher) && !said_something(remove.publisher) ==> r.publisher is None,
        !said_something(keep.place) && said_something(remove.place) ==> opt_text(r.place)
            == opt_text(remove.place),
        !said_something(keep.place) && !said_something(remove.place) ==> r.place is None,
        !said_something(keep.series) && said_something(remove.series) ==> opt_text(r.series)
            == opt_text(remove.series),
        !said_something(keep.series) && !said_something(remove.series) ==> r.series is None,
        !said_something(keep.edition) && said_something(remove.edition) ==> opt_text(r.edition)
            == opt_text(remove.edition),
        !said_something(keep.edition) && !said_something(remove.edition) ==> r.edition is None,
        !said_something(keep.isbn) && said_something(remove.isbn) ==> opt_text(r.isbn)
            == opt_text(remove.isbn),
        !said_something(keep.isbn) && !said_something(remove.isbn) ==> r.isbn is None,
        !said_something(keep.issn) && said_something(remove.issn) ==> opt_text(r.issn)
            == opt_text(remove.issn),
        !said_something(keep.issn) && !said_something(remove.issn) ==> r.issn is None,
        !said_something(keep.archive_location) && said_something(remove.archive_location) ==> opt_text(r.archive_location)
            == opt_text(remove.archive_location),
        !said_something(keep.archive_location) && !said_something(remove.archive_location) ==> r.archive_location is None,
        !said_something(keep.call_number) && said_something(remove.call_number) ==> opt_text(r.call_number)
            == opt_text(remove.call_number),
        !said_something(keep.call_number) && !said_something(remove.call_number) ==> r.call_number is None,
        !said_something(keep.rights) && said_something(remove.rights) ==> opt_text(r.rights)
            == opt_text(remove.rights),
        !said_something(keep.rights) && !said_something(remove.rights) ==> r.rights is None,
{
}

/// A merge leaves alone what only the kept paper decides: when it came, whether it was read, deleted or
/// marked, and when the merge took place is its time of change.
pub proof fn law_merge_keeps_the_state(keep: Paper, remove: Paper, now: Seq<char>, r: Paper)
    requires
        is_merge(keep, remove, now, r),
    ensures
        opt_text(r.deleted_at) == opt_text(keep.deleted_at),
        r.is_favorite == keep.is_favorite,
        r.read_status@ == keep.read_status@,
        opt_text(r.last_read_at) == opt_text(keep.last_read_at),
        r.created_at@ == keep.created_at@,
        r.imported_at@ == keep.imported_at@,
        r.updated_at@ == now,
{
}

/// Merging the same paper in again changes nothing more.
pub proof fn law_merge_is_idempotent(
    keep: Paper,
    remove: Paper,
    now: Seq<char>,
    once: Paper,
    twice: Paper,
)
    requires
        is_merge(keep, remove, now, once),
        is_merge(once, remove, now, twice),
    ensures
        twice.id@ == once.id@,
        twice.title@ == once.title@,
        twice.authors@ == once.authors@,
        twice.editor@ == once.editor@,
        twice.keywords@ == once.keywords@,
        twice.year == once.year,
        twice.file_size == once.file_size,
        twice.page_count == once.page_count,
        twice.num_pages == once.num_pages,
        twice.updated_at@ == once.updated_at@,
        opt_text(twice.journal) == opt_text(once.journal),
        opt_text(twice.doi) == opt_text(once.doi),
        opt_text(twice.url) == opt_text(once.url),
        opt_text(twice.abstract_text) == opt_text(once.abstract_text),
        opt_text(twice.citation_key) == opt_text(once.citation_key),
        opt_text(twice.bibtex) == opt_text(once.bibtex),
        opt_text(twice.file_path) == opt_text(once.file_path),
        opt_text(twice.language) == opt_text(once.language),
        opt_text(twice.item_type) == opt_text(once.item_type),
        opt_text(twice.volume) == opt_text(once.volume),
        opt_text(twice.issue) == opt_text(once.issue),
        opt_text(twice.pages) == opt_text(once.pages),
        opt_text(twice.conference_name) == opt_text(once.conference_name),
        opt_text(twice.publisher) == opt_text(once.publisher),
        opt_text(twice.place) == opt_text(once.place),
        opt_text(twice.series) == opt_text(once.series),
        opt_text(twice.edition) == opt_text(once.edition),
        opt_text(twice.isbn) == opt_text(once.isbn),
        opt_text(twice.issn) == opt_text(once.issn),
        opt_text(twice.archive_location) == opt_text(once.archive_location),
        opt_text(twice.call_number) == opt_text(once.call_number),
        opt_text(twice.rights) == opt_text(once.rights),
{
}

// ---------------------------------------------------------------------------------------------
// Enrichment
// ---------------------------------------------------------------------------------------------
/// What a bibliographic service says of a work.
pub struct Work {
    pub title: Option<String>,
    pub authors: Option<Vec<String>>,
    pub year: Option<i32>,
    pub journal: Option<String>,
    pub doi: Option<String>,
    pub url: Option<String>,
    pub abstract_text: Option<String>,
    pub volume: Option<String>,
    pub issue: Option<String>,
    pub pages: Option<String>,
    pub publisher: Option<String>,
    pub issn: Option<String>,
}

/// The first text, else the second.
pub open spec fn first_some(a: Option<Seq<char>>, b: Option<Seq<char>>) -> Option<Seq<char>> {
    if a is Some {
        a
    } else {
        b
    }
}

fn first_of_two(a: &Option<String>, b: &Option<String>) -> (r: Option<String>)
    ensures
        opt_text(r) == first_some(opt_text(*a), opt_text(*b)),
{
    match a {
        Some(s) => Some(s.clone()),
        None => copy_opt(b),
    }
}

fn fills<T>(gap: &Option<T>, value: &Option<T>) -> (r: bool)
    ensures
        r == (*gap is None && *value is Some),
{
    gap.is_none() && value.is_some()
}

/// The authors that a work names, none where it names none.
pub open spec fn work_authors(w: Work) -> Seq<Seq<char>> {
    match w.authors {
        Some(v) => texts(v@),
        None => Seq::empty(),
    }
}

/// Whether `r` is what a paper says, with its gaps filled from a work.
pub open spec fn is_enriched(p: Paper, w: Work, r: PaperInput) -> bool {
    &&& r.title@ == p.title@
    &&& texts(r.authors@) == (if names_in(p.authors@).len() > 0 {
        names_in(p.authors@)
    } else {
        work_authors(w)
    })
    &&& r.year == (if p.year is Some {
        p.year
    } else {
        w.year
    })
    &&& opt_text(r.journal) == first_some(opt_text(p.journal), opt_text(w.journal))
    &&& opt_text(r.doi) == first_some(opt_text(p.doi), opt_text(w.doi))
    &&& opt_text(r.url) == first_some(opt_text(p.url), opt_text(w.url))
    &&& opt_text(r.abstract_text) == first_some(opt_text(p.abstract_text), opt_text(w.abstract_text))
    &&& opt_text(r.volume) == first_some(opt_text(p.volume), opt_text(w.volume))
    &&& opt_text(r.issue) == first_some(opt_text(p.issue), opt_text(w.issue))
    &&& opt_text(r.pages) == first_some(opt_text(p.pages), opt_text(w.pages))
    &&& opt_text(r.publisher) == first_some(opt_text(p.publisher), opt_text(w.publisher))
    &&& opt_text(r.issn) == first_some(opt_text(p.issn), opt_text(w.issn))
    &&& opt_text(r.item_type) == opt_text(p.item_type)
    &&& opt_text(r.conference_name) == opt_text(p.conference_name)
    &&& opt_text(r.place) == opt_text(p.place)
    &&& opt_text(r.series) == opt_text(p.series)
    &&& opt_text(r.edition) == opt_text(p.edition)
    &&& opt_text(r.isbn) == opt_text(p.isbn)
    &&& opt_text(r.language) == opt_text(p.language)
    &&& opt_text(r.archive_location) == opt_text(p.archive_location)
    &&& opt_text(r.call_number) == opt_text(p.call_number)
    &&& opt_text(r.rights) == opt_text(p.rights)
    &&& texts(r.keywords@) == names_in(p.keywords@)
    &&& texts(r.editor@) == names_in(p.editor@)
    &&& r.num_pages == p.num_pages
}

/// Whether a work fills a gap of a paper.
pub open spec fn fills_a_gap(p: Paper, w: Work) -> bool {
    ||| p.year is None && w.year is Some
    ||| p.journal is None && w.journal is Some
    ||| p.doi is None && w.doi is Some
    ||| p.url is None && w.url is Some
    ||| p.abstract_text is None && w.abstract_text is Some
    ||| p.volume is None && w.volume is Some
    ||| p.issue is None && w.issue is Some
    ||| p.pages is None && w.pages is Some
    ||| p.publisher is None && w.publisher is Some
    ||| p.issn is None && w.issn is Some
    ||| names_in(p.authors@).len() == 0 && work_authors(w).len() > 0
}

/// What a paper says with its gaps filled from a work, and whether there was a gap to fill.
pub fn enrich_paper(p: &Paper, w: &Work) -> (r: (PaperInput, bool))
    ensures
        is_enriched(*p, *w, r.0),
        r.1 == fills_a_gap(*p, *w),
{
    let current = parse_authors(p.authors.as_str());
    let known = current.len() > 0;
    let offered = match &w.authors {
        Some(v) => copy_texts(v),
        None => {
            let v: Vec<String> = Vec::new();
            assert(texts(v@) =~= Seq::empty());
            v
        },
    };
    let changed = fills(&p.year, &w.year) || fills(&p.journal, &w.journal) || fills(&p.doi, &w.doi) || fills(&p.url, &w.url) || fills(&p.abstract_text, &w.abstract_text) || fills(&p.volume, &w.volume) || fills(&p.issue, &w.issue) || fills(&p.pages, &w.pages) || fills(&p.publisher, &w.publisher) || fills(&p.issn, &w.issn) || (!known && offered.len() > 0);
    let authors = if known {
        current
    } else {
        offered
    };
    let input = PaperInput {
        title: p.title.clone(),
        authors: authors,
        year: or_else(p.year, w.year),
        journal: first_of_two(&p.journal, &w.journal),
        doi: first_of_two(&p.doi, &w.doi),
        url: first_of_two(&p.url, &w.url),
        abstract_text: first_of_two(&p.abstract_text, &w.abstract_text),
        keywords: parse_authors(p.keywords.as_str()),
        item_type: copy_opt(&p.item_type),
        volume: first_of_two(&p.volume, &w.volume),
        issue: first_of_two(&p.issue, &w.issue),
        pages: first_of_two(&p.pages, &w.pages),
        conference_name: copy_opt(&p.conference_name),
        publisher: first_of_two(&p.publisher, &w.publisher),
        place: copy_opt(&p.place),
        editor: parse_authors(p.editor.as_str()),
        series: copy_opt(&p.series),
        edition: copy_opt(&p.edition),
        isbn: copy_opt(&p.isbn),
        issn: first_of_two(&p.issn, &w.issn),
        language: copy_opt(&p.language),
        num_pages: p.num_pages,
        archive_location: copy_opt(&p.archive_location),
        call_number: copy_opt(&p.call_number),
        rights: copy_opt(&p.rights),
    };
    (input, changed)
}

/// Enrichment never replaces what a paper says.
pub proof fn law_enrichment_only_fills_gaps(p: Paper, w: Work, r: PaperInput)
    requires
        is_enriched(p, w, r),
    ensures
        r.title@ == p.title@,
        p.year is Some ==> r.year == p.year,
        p.journal is Some ==> opt_text(r.journal) == opt_text(p.journal),
        p.doi is Some ==> opt_text(r.doi) == opt_text(p.doi),
        p.abstract_text is Some ==> opt_text(r.abstract_text) == opt_text(p.abstract_text),
        p.publisher is Some ==> opt_text(r.publisher) == opt_text(p.publisher),
        names_in(p.authors@).len() > 0 ==> texts(r.authors@) == names_in(p.authors@),
{
}

// ---------------------------------------------------------------------------------------------
// Comparing titles
// ---------------------------------------------------------------------------------------------
/// The first position from `i` on at which a letter or digit stands, or the end.
pub open spec fn letters_start(s: Seq<char>, i: int) -> int
    decreases s.len() - i,
{
    if 0 <= i < s.len() && !alphanumeric(s[i]) {
        letters_start(s, i + 1)
    } else {
        i
    }
}

/// The first position from `i` on at which no letter or digit stands, or the end.
pub open spec fn letters_end(s: Seq<char>, i: int) -> int
    decreases s.len() - i,
{
    if 0 <= i < s.len() && alphanumeric(s[i]) {
        letters_end(s, i + 1)
    } else {
        i
    }
}

/// The stretches of letters and digits from `i` on that take more than two bytes.
pub open spec fn tokens_from(s: Seq<char>, i: int) -> Seq<Seq<char>>
    decreases s.len() - i,
{
    let a = letters_start(s, i);
    let e = letters_end(s, a);
    if 0 <= i <= a < e <= s.len() {
        let rest = tokens_from(s, e);
        if byte_len(s.subrange(a, e)) > 2 {
            seq![s.subrange(a, e)] + rest
        } else {
            rest
        }
    } else {
        Seq::empty()
    }
}

/// The significant words of a title.
pub open spec fn title_tokens(title: Seq<char>) -> Seq<Seq<char>> {
    tokens_from(lowercase_of(title), 0)
}

/// The stretches of letters and digits that take more than two bytes.
fn tokens_of(s: &str) -> (r: Vec<String>)
    ensures
        texts(r@) == tokens_from(s@, 0),
{
    broadcast use lemma_texts_push;

    let a = chars_of(s);
    let mut out: Vec<String> = Vec::new();
    let mut i: usize = 0;
    assert(texts(out@) + tokens_from(s@, 0) =~= tokens_from(s@, 0));
    loop
        invariant
            a@ == s@,
            i <= a.len(),
            texts(out@) + tokens_from(s@, i as int) == tokens_from(s@, 0),
        decreases a.len() - i,
    {
        let mut lo: usize = i;
        while lo < a.len() && !is_alphanumeric(a[lo])
            invariant
                a@ == s@,
                i <= lo <= a.len(),
                letters_start(s@, i as int) == letters_start(s@, lo as int),
            decreases a.len() - lo,
        {
            lo += 1;
        }
        if lo == a.len() {
            assert(texts(out@) + Seq::<Seq<char>>::empty() =~= texts(out@));
            return out;
        }
        let mut hi: usize = lo;
        while hi < a.len() && is_alphanumeric(a[hi])
            invariant
                a@ == s@,
                lo <= hi <= a.len(),
                lo < a.len(),
                letters_end(s@, lo as int) == letters_end(s@, hi as int),
            decreases a.len() - hi,
        {
            hi += 1;
        }
        let ghost before = texts(out@);
        let ghost rest = tokens_from(s@, hi as int);
        let word = slice(&a, lo, hi);
        if longer_than(word.as_str(), 2) {
            out.push(word);
            assert(before + (seq![word@] + rest) =~= before.push(word@) + rest);
        }
        i = hi;
    }
}

/// How many of the words in `a` are in `b`.
pub open spec fn shared(a: Seq<Seq<char>>, b: Seq<Seq<char>>) -> nat
    decreases a.len(),
{
    if a.len() == 0 {
        0
    } else {
        shared(a.drop_last(), b) + if holds(b, a.last()) {
            1nat
        } else {
            0
        }
    }
}

/// Whether two titles share at least half of the words of the longer one.
pub open spec fn half_shared(a: Seq<Seq<char>>, b: Seq<Seq<char>>) -> bool {
    &&& a.len() > 0
    &&& b.len() > 0
    &&& 2 * shared(a, b) >= a.len()
    &&& 2 * shared(a, b) >= b.len()
}

/// Tells whether two lists of words share at least half of the longer one.
pub fn words_similar(a: &Vec<String>, b: &Vec<String>) -> (r: bool)
    ensures
        r == half_shared(texts(a@), texts(b@)),
{
    if a.len() == 0 || b.len() == 0 {
        return false;
    }
    let ghost all = texts(a@);
    let mut n: usize = 0;
    let mut i: usize = 0;
    while i < a.len()
        invariant
            i <= a.len(),
            all == texts(a@),
            n == shared(all.take(i as int), texts(b@)),
            n <= i,
        decreases a.len() - i,
    {
        assert(all.take(i + 1).drop_last() =~= all.take(i as int));
        if list_has(b, a[i].as_str()) {
            n += 1;
        }
        i += 1;
    }
    assert(all.take(all.len() as int) =~= all);
    // Twice `n` reaches the length where `n` reaches what is left of it.
    let in_a = n >= a.len() - n;
    let in_b = n >= b.len() || n >= b.len() - n;
    in_a && in_b
}

/// Tells whether two titles are loosely the same: they share at least half of their significant
/// words.
pub fn title_similar(a: &str, b: &str) -> (r: bool)
    ensures
        r == half_shared(title_tokens(a@), title_tokens(b@)),
{
    words_similar(
        &tokens_of(to_lowercase(a).as_str()),
        &tokens_of(to_lowercase(b).as_str()),
    )
}

/// A title with a significant word is similar to itself.
pub proof fn law_title_similar_to_itself(title: Seq<char>)
    requires
        title_tokens(title).len() > 0,
    ensures
        half_shared(title_tokens(title), title_tokens(title)),
{
    lemma_all_shared(title_tokens(title), title_tokens(title));
}

proof fn lemma_all_shared(a: Seq<Seq<char>>, b: Seq<Seq<char>>)
    requires
        forall|i: int| 0 <= i < a.len() ==> holds(b, #[trigger] a[i]),
    ensures
        shared(a, b) == a.len(),
    decreases a.len(),
{
    if a.len() > 0 {
        assert forall|i: int| 0 <= i < a.drop_last().len() implies holds(
            b,
            #[trigger] a.drop_last()[i],
        ) by {
            assert(a.drop_last()[i] == a[i]);
        }
        lemma_all_shared(a.drop_last(), b);
        assert(holds(b, a[a.len() - 1]));
    }
}

/// The first of the works whose title is similar.
pub open spec fn first_similar(title: Seq<char>, works: Seq<Work>, i: int) -> Option<int>
    decreases works.len() - i,
{
    if i < 0 || i >= works.len() {
        None
    } else if works[i].title is Some && half_shared(
        title_tokens(title),
        title_tokens(works[i].title->0@),
    ) {
        Some(i)
    } else {
        first_similar(title, works, i + 1)
    }
}

/// The place of the first of the works whose title is similar.
pub fn find_similar(title: &str, works: &Vec<Work>) -> (r: Option<usize>)
    ensures
        match r {
            Some(k) => first_similar(title@, works@, 0) == Some(k as int) && k < works.len(),
            None => first_similar(title@, works@, 0) is None,
        },
{
    let mut i: usize = 0;
    while i < works.len()
        invariant
            i <= works.len(),
            first_similar(title@, works@, 0) == first_similar(title@, works@, i as int),
        decreases works.len() - i,
    {
        match &works[i].title {
            Some(t) => {
                if title_similar(title, t.as_str()) {
                    return Some(i);
                }
            },
            None => {},
        }
        i += 1;
    }
    None
}

// ---------------------------------------------------------------------------------------------
// Duplicates
// ---------------------------------------------------------------------------------------------
/// A title for comparison: its letters and digits in lower case.
pub open spec fn normal_title(title: Seq<char>) -> Seq<char>
    decreases title.len(),
{
    if title.len() == 0 {
        Seq::empty()
    } else if alphanumeric(title.last()) {
        normal_title(title.drop_last()) + char_lowercase(title.last())
    } else {
        normal_title(title.drop_last())
    }
}

/// A title for comparison: its letters and digits in lower case, so that punctuation, white space
/// and case make no difference.
pub fn normalize_title_for_dedup(title: &str) -> (r: String)
    ensures
        r@ == normal_title(title@),
{
    let a = chars_of(title);
    let mut out = String::new();
    let mut i: usize = 0;
    while i < a.len()
        invariant
            i <= a.len(),
            a@ == title@,
            out@ == normal_title(title@.take(i as int)),
        decreases a.len() - i,
    {
        assert(title@.take(i + 1).drop_last() =~= title@.take(i as int));
        if is_alphanumeric(a[i]) {
            out.append(to_lowercase_char(a[i]).as_str());
        }
        i += 1;
    }
    assert(title@.take(title@.len() as int) =~= title@);
    out
}

/// A paper that is likely the same as another, and why: `doi` or `title`.
pub struct DuplicateCandidate {
    pub id: String,
    pub title: String,
    pub year: Option<i32>,
    pub journal: Option<String>,
    pub doi: Option<String>,
    pub match_reason: String,
}

/// Whether `c` is paper `p` as a candidate for the given reason.
pub open spec fn is_candidate(c: DuplicateCandidate, p: Paper, reason: Seq<char>) -> bool {
    &&& c.id@ == p.id@
    &&& c.title@ == p.title@
    &&& c.year == p.year
    &&& opt_text(c.journal) == opt_text(p.journal)
    &&& opt_text(c.doi) == opt_text(p.doi)
    &&& c.match_reason@ == reason
}

/// A text without the blanks at its two ends.
pub open spec fn trim_blanks(s: Seq<char>) -> Seq<char>
    decreases s.len(),
{
    if s.len() > 0 && s[0] == ' ' {
        trim_blanks(s.skip(1))
    } else if s.len() > 0 && s.last() == ' ' {
        trim_blanks(s.drop_last())
    } else {
        s
    }
}

fn trimmed_blanks(s: &str) -> (r: String)
    ensures
        r@ == trim_blanks(s@),
{
    let a = chars_of(s);
    let mut lo: usize = 0;
    let mut hi: usize = a.len();
    assert(a@.subrange(0, a.len() as int) =~= s@);
    while lo < hi && a[lo] == ' '
        invariant
            lo <= hi <= a.len(),
            hi == a.len(),
            trim_blanks(s@) == trim_blanks(a@.subrange(lo as int, hi as int)),
        decreases hi - lo,
    {
        assert(a@.subrange(lo as int, hi as int).skip(1) =~= a@.subrange(lo + 1, hi as int));
        lo += 1;
    }
    while lo < hi && a[hi - 1] == ' '
        invariant
            lo <= hi <= a.len(),
            lo < hi ==> a@[lo as int] != ' ',
            trim_blanks(s@) == trim_blanks(a@.subrange(lo as int, hi as int)),
        decreases hi - lo,
    {
        assert(a@.subrange(lo as int, hi as int).drop_last() =~= a@.subrange(lo as int, hi - 1));
        hi -= 1;
    }
    slice(&a, lo, hi)
}

/// Whether a paper other than the excluded one has the given DOI, whatever the case of its letters
/// and the blanks around it.
pub open spec fn same_doi(p: Paper, doi: Seq<char>, exclude: Seq<char>) -> bool {
    p.id@ != exclude && p.doi is Some && trim_blanks(lower(p.doi->0@)) == lower(doi)
}

/// Whether a paper other than the excluded one has the given title, but for punctuation, white
/// space and case.
pub open spec fn same_title(p: Paper, title: Seq<char>, exclude: Seq<char>) -> bool {
    p.id@ != exclude && normal_title(title).len() > 0 && normal_title(p.title@) == normal_title(
        title,
    )
}

/// What duplicates are looked for by.
pub enum Likeness {
    Doi,
    Title,
}

/// Whether a paper counts as a duplicate.
pub open spec fn alike(by: Likeness, p: Paper, key: Seq<char>, exclude: Seq<char>) -> bool {
    match by {
        Likeness::Doi => same_doi(p, key, exclude),
        Likeness::Title => same_title(p, key, exclude),
    }
}

/// The papers that count as duplicates, in their order.
pub open spec fn alike_papers(
    by: Likeness,
    papers: Seq<Paper>,
    key: Seq<char>,
    exclude: Seq<char>,
) -> Seq<Paper>
    decreases papers.len(),
{
    if papers.len() == 0 {
        Seq::empty()
    } else if alike(by, papers.last(), key, exclude) {
        alike_papers(by, papers.drop_last(), key, exclude).push(papers.last())
    } else {
        alike_papers(by, papers.drop_last(), key, exclude)
    }
}

/// The duplicates of a paper and the reason: by DOI where one is given and found, else by title.
pub open spec fn duplicates(
    papers: Seq<Paper>,
    title: Seq<char>,
    doi: Option<Seq<char>>,
    exclude: Seq<char>,
) -> (Seq<Paper>, Seq<char>) {
    let by_doi = match doi {
        Some(d) => if trim(d).len() > 0 {
            alike_papers(Likeness::Doi, papers, trim(d), exclude)
        } else {
            Seq::empty()
        },
        None => Seq::empty(),
    };
    if by_doi.len() > 0 {
        (by_doi, "doi"@)
    } else {
        (alike_papers(Likeness::Title, papers, title, exclude), "title"@)
    }
}

/// Whether a list holds the given papers as candidates for the given reason.
pub open spec fn are_candidates(
    list: Seq<DuplicateCandidate>,
    papers: Seq<Paper>,
    reason: Seq<char>,
) -> bool {
    list.len() == papers.len() && forall|i: int|
        0 <= i < list.len() ==> is_candidate(#[trigger] list[i], papers[i], reason)
}

fn candidates(by_doi: bool, papers: &Vec<Paper>, key: &str, exclude: &str) -> (r: Vec<
    DuplicateCandidate,
>)
    ensures
        are_candidates(
            r@,
            alike_papers(
                if by_doi {
                    Likeness::Doi
                } else {
                    Likeness::Title
                },
                papers@,
                key@,
                exclude@,
            ),
            if by_doi {
                "doi"@
            } else {
                "title"@
            },
        ),
{
    let ghost by = if by_doi {
        Likeness::Doi
    } else {
        Likeness::Title
    };
    let ghost why = if by_doi {
        "doi"@
    } else {
        "title"@
    };
    let wanted = if by_doi {
        to_lower(key)
    } else {
        normalize_title_for_dedup(key)
    };
    let mut out: Vec<DuplicateCandidate> = Vec::new();
    let mut i: usize = 0;
    while i < papers.len()
        invariant
            i <= papers.len(),
            wanted@ == (if by_doi {
                lower(key@)
            } else {
                normal_title(key@)
            }),
            by == (if by_doi {
                Likeness::Doi
            } else {
                Likeness::Title
            }),
            why == (if by_doi {
                "doi"@
            } else {
                "title"@
            }),
            are_candidates(out@, alike_papers(by, papers@.take(i as int), key@, exclude@), why),
        decreases papers.len() - i,
    {
        let p = &papers[i];
        let ghost found = alike_papers(by, papers@.take(i as int), key@, exclude@);
        proof {
            assert(papers@.take(i + 1).drop_last() =~= papers@.take(i as int));
            assert(papers@.take(i + 1).last() == papers@[i as int]);
        }
        let is_other = !same(p.id.as_str(), exclude);
        let hit = if by_doi {
            match &p.doi {
                Some(d) => is_other && same(
                    trimmed_blanks(to_lower(d.as_str()).as_str()).as_str(),
                    wanted.as_str(),
                ),
                None => false,
            }
        } else {
            is_other && !wanted.as_str().is_empty() && same(
                normalize_title_for_dedup(p.title.as_str()).as_str(),
                wanted.as_str(),
            )
        };
        assert(hit == alike(by, *p, key@, exclude@));
        if hit {
            let c = DuplicateCandidate {
                id: p.id.clone(),
                title: p.title.clone(),
                year: p.year,
                journal: copy_opt(&p.journal),
                doi: copy_opt(&p.doi),
                match_reason: if by_doi {
                    "doi".to_owned()
                } else {
                    "title".to_owned()
                },
            };
            assert(is_candidate(c, *p, why));
            let ghost before = out@;
            out.push(c);
            proof {
                let longer = found.push(*p);
                assert forall|k: int| 0 <= k < out@.len() implies is_candidate(
                    #[trigger] out@[k],
                    longer[k],
                    why,
                ) by {
                    if k < before.len() {
                        assert(out@[k] == before[k]);
                    }
                }
            }
        }
        i += 1;
    }
    assert(papers@.take(papers@.len() as int) =~= papers@);
    out
}

/// The papers that are likely duplicates of one with the given title and DOI, without
/// `exclude_id`. A match of the DOI wins; where there is none, titles are compared.
pub fn find_duplicate_papers(
    papers: &Vec<Paper>,
    title: &str,
    doi: Option<&str>,
    exclude_id: &str,
) -> (r: Vec<DuplicateCandidate>)
    ensures
        ({
            let d = match doi {
                Some(d) => Some(d@),
                None => None,
            };
            are_candidates(
                r@,
                duplicates(papers@, title@, d, exclude_id@).0,
                duplicates(papers@, title@, d, exclude_id@).1,
            )
        }),
{
    match doi {
        Some(d) => {
            let d = trimmed(d);
            if !d.as_str().is_empty() {
                let found = candidates(true, papers, d.as_str(), exclude_id);
                if found.len() > 0 {
                    return found;
                }
            }
        },
        None => {},
    }
    candidates(false, papers, title, exclude_id)
}

/// No paper is its own duplicate: the excluded one is never among those found.
pub proof fn law_excluded_is_no_duplicate(
    by: Likeness,
    papers: Seq<Paper>,
    key: Seq<char>,
    exclude: Seq<char>,
)
    ensures
        forall|i: int|
            0 <= i < alike_papers(by, papers, key, exclude).len() ==> (#[trigger] alike_papers(
                by,
                papers,
                key,
                exclude,
            )[i]).id@ != exclude,
    decreases papers.len(),
{
    if papers.len() > 0 {
        law_excluded_is_no_duplicate(by, papers.drop_last(), key, exclude);
    }
}

// ---------------------------------------------------------------------------------------------
// Creators
// ---------------------------------------------------------------------------------------------
/// A person and what they did for a paper: `author` or `editor`. The names in the paper's own
/// columns are what is synced; this is laid over them.
pub struct Creator {
    pub role: String,
    pub last_name: String,
    pub first_name: String,
    pub name: String,
}

/// What a `Creator` says.
pub struct CreatorModel {
    pub role: Seq<char>,
    pub last_name: Seq<char>,
    pub first_name: Seq<char>,
    pub name: Seq<char>,
}

/// What a list of creators says.
pub open spec fn creator_models(v: Seq<Creator>) -> Seq<CreatorModel> {
    Seq::new(
        v.len(),
        |i: int|
            CreatorModel {
                role: v[i].role@,
                last_name: v[i].last_name@,
                first_name: v[i].first_name@,
                name: v[i].name@,
            },
    )
}

/// A creator whose name is kept whole.
pub open spec fn whole_name(role: Seq<char>, name: Seq<char>) -> CreatorModel {
    CreatorModel { role, last_name: Seq::empty(), first_name: Seq::empty(), name }
}

/// The creators that lists of authors and editors stand for: the authors first, names kept whole.
pub open spec fn creators_from(authors: Seq<Seq<char>>, editors: Seq<Seq<char>>) -> Seq<
    CreatorModel,
> {
    Seq::new(
        authors.len() + editors.len(),
        |i: int|
            if i < authors.len() {
                whole_name("author"@, authors[i])
            } else {
                whole_name("editor"@, editors[i - authors.len()])
            },
    )
}

/// The creators that lists of authors and editors stand for.
pub fn creators_from_names(authors: &Vec<String>, editors: &Vec<String>) -> (r: Vec<Creator>)
    ensures
        creator_models(r@) == creators_from(texts(authors@), texts(editors@)),
{
    let ghost all = creators_from(texts(authors@), texts(editors@));
    let mut out: Vec<Creator> = Vec::new();
    let mut i: usize = 0;
    while i < authors.len()
        invariant
            i <= authors.len(),
            all == creators_from(texts(authors@), texts(editors@)),
            creator_models(out@) == all.take(i as int),
        decreases authors.len() - i,
    {
        let ghost before = creator_models(out@);
        out.push(
            Creator {
                role: "author".to_owned(),
                last_name: String::new(),
                first_name: String::new(),
                name: authors[i].clone(),
            },
        );
        assert(creator_models(out@) =~= before.push(whole_name("author"@, authors@[i as int]@)));
        assert(all[i as int] == whole_name("author"@, authors@[i as int]@));
        i += 1;
        assert(creator_models(out@) =~= all.take(i as int));
    }
    let mut j: usize = 0;
    while j < editors.len()
        invariant
            j <= editors.len(),
            all == creators_from(texts(authors@), texts(editors@)),
            creator_models(out@) == all.take(authors.len() + j),
        decreases editors.len() - j,
    {
        let ghost before = creator_models(out@);
        out.push(
            Creator {
                role: "editor".to_owned(),
                last_name: String::new(),
                first_name: String::new(),
                name: editors[j].clone(),
            },
        );
        assert(creator_models(out@) =~= before.push(whole_name("editor"@, editors@[j as int]@)));
        assert(all[authors.len() + j] == whole_name("editor"@, editors@[j as int]@));
        j += 1;
        assert(creator_models(out@) =~= all.take(authors.len() + j));
    }
    assert(all.take(all.len() as int) =~= all);
    out
}

/// The creators that a paper's own columns stand for.
pub fn creators_from_json(authors_json: &str, editor_json: &str) -> (r: Vec<Creator>)
    ensures
        creator_models(r@) == creators_from(names_in(authors_json@), names_in(editor_json@)),
{
    creators_from_names(&parse_authors(authors_json), &parse_authors(editor_json))
}

/// The creators of a paper: the stored ones, or where there are none those that the paper's own
/// columns stand for.
pub fn get_creators(stored: Vec<Creator>, authors_json: &str, editor_json: &str) -> (r: Vec<
    Creator,
>)
    ensures
        stored.len() > 0 ==> r == stored,
        stored.len() == 0 ==> creator_models(r@) == creators_from(
            names_in(authors_json@),
            names_in(editor_json@),
        ),
{
    if stored.len() > 0 {
        stored
    } else {
        creators_from_json(authors_json, editor_json)
    }
}

/// The name that is shown for a creator: the whole name, or the first and the last name.
pub open spec fn shown_name(c: CreatorModel) -> Seq<char> {
    if c.name.len() > 0 {
        c.name
    } else if c.first_name.len() == 0 {
        c.last_name
    } else if c.last_name.len() == 0 {
        c.first_name
    } else {
        c.first_name + " "@ + c.last_name
    }
}

/// The name that is shown for a creator.
pub fn display_name(c: &Creator) -> (r: String)
    ensures
        r@ == shown_name(
            CreatorModel {
                role: c.role@,
                last_name: c.last_name@,
                first_name: c.first_name@,
                name: c.name@,
            },
        ),
{
    if !c.name.as_str().is_empty() {
        c.name.clone()
    } else if c.first_name.as_str().is_empty() {
        c.last_name.clone()
    } else if c.last_name.as_str().is_empty() {
        c.first_name.clone()
    } else {
        concat3(c.first_name.as_str(), " ", c.last_name.as_str())
    }
}

/// The names shown for the creators with a role, without the empty ones.
pub open spec fn names_with_role(list: Seq<CreatorModel>, role: Seq<char>) -> Seq<Seq<char>>
    decreases list.len(),
{
    if list.len() == 0 {
        Seq::empty()
    } else {
        let rest = names_with_role(list.drop_last(), role);
        if list.last().role == role && shown_name(list.last()).len() > 0 {
            rest.push(shown_name(list.last()))
        } else {
            rest
        }
    }
}

/// The names shown for the creators with a role, without the empty ones.
pub fn names_of_role(list: &Vec<Creator>, role: &str) -> (r: Vec<String>)
    ensures
        texts(r@) == names_with_role(creator_models(list@), role@),
{
    broadcast use lemma_texts_push;

    let ghost all = creator_models(list@);
    let mut out: Vec<String> = Vec::new();
    assert(texts(out@) =~= Seq::empty());
    let mut i: usize = 0;
    while i < list.len()
        invariant
            i <= list.len(),
            all == creator_models(list@),
            texts(out@) == names_with_role(all.take(i as int), role@),
        decreases list.len() - i,
    {
        proof {
            assert(all.take(i + 1).drop_last() =~= all.take(i as int));
            assert(all.take(i + 1).last() == all[i as int]);
        }
        let ghost before = texts(out@);
        if same(list[i].role.as_str(), role) {
            let name = display_name(&list[i]);
            if !name.as_str().is_empty() {
                out.push(name);
                assert(texts(out@) =~= before.push(name@));
            }
        }
        i += 1;
    }
    assert(all.take(all.len() as int) =~= all);
    out
}

/// The columns that a paper gets from its creators: the JSON arrays of authors and of editors.
pub fn set_creators(creators: &Vec<Creator>) -> (r: (String, String))
    ensures
        r.0@ == json_array_text(names_with_role(creator_models(creators@), "author"@)),
        r.1@ == json_array_text(names_with_role(creator_models(creators@), "editor"@)),
        names_in(r.0@) == names_with_role(creator_models(creators@), "author"@),
        names_in(r.1@) == names_with_role(creator_models(creators@), "editor"@),
{
    (
        print_strings(&names_of_role(creators, "author")),
        print_strings(&names_of_role(creators, "editor")),
    )
}

/// Whether no text in a list is empty.
pub open spec fn all_filled(list: Seq<Seq<char>>) -> bool {
    forall|i: int| 0 <= i < list.len() ==> (#[trigger] list[i]).len() > 0
}

proof fn lemma_names_of_whole(authors: Seq<Seq<char>>, editors: Seq<Seq<char>>, k: int)
    requires
        all_filled(authors),
        all_filled(editors),
        0 <= k <= authors.len() + editors.len(),
    ensures
        ({
            let list = creators_from(authors, editors).take(k);
            &&& names_with_role(list, "author"@) == authors.take(
                if k < authors.len() {
                    k
                } else {
                    authors.len() as int
                },
            )
            &&& names_with_role(list, "editor"@) == editors.take(
                if k < authors.len() {
                    0
                } else {
                    k - authors.len()
                },
            )
        }),
    decreases k,
{
    reveal_strlit("author");
    reveal_strlit("editor");
    assert("author"@[0] != "editor"@[0]);
    let all = creators_from(authors, editors);
    if k > 0 {
        lemma_names_of_whole(authors, editors, k - 1);
        assert(all.take(k).drop_last() =~= all.take(k - 1));
        assert(all.take(k).last() == all[k - 1]);
        if k <= authors.len() {
            assert(authors[k - 1].len() > 0);
            assert(authors.take(k) =~= authors.take(k - 1).push(authors[k - 1]));
        } else {
            assert(editors[k - 1 - authors.len()].len() > 0);
            assert(editors.take(k - authors.len()) =~= editors.take(k - 1 - authors.len()).push(
                editors[k - 1 - authors.len()],
            ));
        }
    } else {
        assert(authors.take(0) =~= Seq::empty());
        assert(editors.take(0) =~= Seq::empty());
    }
}

/// Storing the creators that a paper's columns stand for gives the columns their names back.
pub proof fn law_creators_round_trip(authors: Seq<Seq<char>>, editors: Seq<Seq<char>>)
    requires
        all_filled(authors),
        all_filled(editors),
    ensures
        names_with_role(creators_from(authors, editors), "author"@) == authors,
        names_with_role(creators_from(authors, editors), "editor"@) == editors,
{
    let n = (authors.len() + editors.len()) as int;
    let all = creators_from(authors, editors);
    lemma_names_of_whole(authors, editors, n);
    assert(all.take(n) =~= all);
    assert(authors.take(authors.len() as int) =~= authors);
    assert(editors.take(editors.len() as int) =~= editors);
}

// ---------------------------------------------------------------------------------------------
// Imports
// ---------------------------------------------------------------------------------------------
/// What is known of a paper that is to be stored, whether it came as a file or by a link.
pub struct ImportMetadata {
    pub title: String,
    pub authors: Vec<String>,
    pub year: Option<i32>,
    pub journal: Option<String>,
    pub doi: Option<String>,
    pub url: Option<String>,
    pub abstract_text: Option<String>,
    pub keywords: Vec<String>,
    pub file_path: Option<String>,
    pub file_size: Option<i64>,
    pub page_count: Option<i32>,
    pub language: Option<String>,
    pub isbn: Option<String>,
}

/// What is known of a paper that is to be stored, read as its texts.
pub struct ImportModel {
    pub title: Seq<char>,
    pub authors: Seq<Seq<char>>,
    pub year: Option<i32>,
    pub journal: Option<Seq<char>>,
    pub doi: Option<Seq<char>>,
    pub url: Option<Seq<char>>,
    pub abstract_text: Option<Seq<char>>,
    pub keywords: Seq<Seq<char>>,
    pub file_path: Option<Seq<char>>,
    pub file_size: Option<i64>,
    pub page_count: Option<i32>,
    pub language: Option<Seq<char>>,
    pub isbn: Option<Seq<char>>,
}

impl View for ImportMetadata {
    type V = ImportModel;

    open spec fn view(&self) -> ImportModel {
        ImportModel {
            title: self.title@,
            authors: texts(self.authors@),
            year: self.year,
            journal: opt_text(self.journal),
            doi: opt_text(self.doi),
            url: opt_text(self.url),
            abstract_text: opt_text(self.abstract_text),
            keywords: texts(self.keywords@),
            file_path: opt_text(self.file_path),
            file_size: self.file_size,
            page_count: self.page_count,
            language: opt_text(self.language),
            isbn: opt_text(self.isbn),
        }
    }
}

/// What a PDF says of itself.
pub struct PdfInfo {
    pub title: Option<String>,
    pub authors: Vec<String>,
    pub subject: Option<String>,
    pub keywords: Vec<String>,
    pub page_count: i64,
}

/// A number of pages, where there is one.
pub open spec fn counted_pages(n: int) -> Option<i32> {
    if n > 0 {
        Some(low_word(n) as i32)
    } else {
        None
    }
}

/// A number of pages, where there is one.
pub fn page_count_of(n: i64) -> (r: Option<i32>)
    ensures
        r == counted_pages(n as int),
{
    if n > 0 {
        Some(low_word_of(n))
    } else {
        None
    }
}

/// The title of an imported file: what the PDF says, or the name of the file without its ending. A
/// PDF that could not be read says nothing.
pub open spec fn file_title(file_name: Seq<char>, info: Option<PdfInfo>) -> Seq<char> {
    match info {
        Some(i) => match i.title {
            Some(t) => t@,
            None => strip_end(strip_end(file_name, ".pdf"@), ".PDF"@),
        },
        None => strip_end(file_name, ".pdf"@),
    }
}

/// What is stored of an imported file.
pub open spec fn file_record(
    file_name: Seq<char>,
    info: Option<PdfInfo>,
    blob_path: Seq<char>,
    file_size: i64,
) -> ImportModel {
    ImportModel {
        title: file_title(file_name, info),
        authors: match info {
            Some(i) => texts(i.authors@),
            None => Seq::empty(),
        },
        year: None,
        journal: None,
        doi: None,
        url: None,
        abstract_text: match info {
            Some(i) => opt_text(i.subject),
            None => None,
        },
        keywords: match info {
            Some(i) => texts(i.keywords@),
            None => Seq::empty(),
        },
        file_path: Some(blob_path),
        file_size: Some(file_size),
        page_count: match info {
            Some(i) => counted_pages(i.page_count as int),
            None => None,
        },
        language: None,
        isbn: None,
    }
}

/// What is stored of an imported file.
pub fn file_metadata(
    file_name: &str,
    info: Option<PdfInfo>,
    blob_path: String,
    file_size: i64,
) -> (r: ImportMetadata)
    ensures
        r@ == file_record(file_name@, info, blob_path@, file_size),
{
    proof {
        reveal_strlit(".pdf");
        reveal_strlit(".PDF");
    }
    let plain = stripped_end(file_name, ".pdf");
    match info {
        Some(i) => ImportMetadata {
            title: match i.title {
                Some(t) => t,
                None => stripped_end(plain.as_str(), ".PDF"),
            },
            authors: i.authors,
            year: None,
            journal: None,
            doi: None,
            url: None,
            abstract_text: i.subject,
            keywords: i.keywords,
            file_path: Some(blob_path),
            file_size: Some(file_size),
            page_count: page_count_of(i.page_count),
            language: None,
            isbn: None,
        },
        None => {
            let r = ImportMetadata {
                title: plain,
                authors: Vec::new(),
                year: None,
                journal: None,
                doi: None,
                url: None,
                abstract_text: None,
                keywords: Vec::new(),
                file_path: Some(blob_path),
                file_size: Some(file_size),
                page_count: None,
                language: None,
                isbn: None,
            };
            assert(texts(r.authors@) =~= Seq::empty());
            assert(texts(r.keywords@) =~= Seq::empty());
            r
        },
    }
}

/// Whether a paper was stored at the time `now` and has what no import sets.
pub open spec fn is_fresh(now: Seq<char>, r: Paper) -> bool {
    &&& opt_text(r.item_type) == Some("journal"@)
    &&& r.editor@ == "[]"@
    &&& r.num_pages is None
    &&& r.is_favorite == 0
    &&& r.read_status@ == "unread"@
    &&& r.created_at@ == now
    &&& r.updated_at@ == now
    &&& r.imported_at@ == now
    &&& r.citation_key is None
    &&& r.bibtex is None
    &&& r.volume is None
    &&& r.issue is None
    &&& r.pages is None
    &&& r.conference_name is None
    &&& r.publisher is None
    &&& r.place is None
    &&& r.series is None
    &&& r.edition is None
    &&& r.issn is None
    &&& r.archive_location is None
    &&& r.call_number is None
    &&& r.rights is None
    &&& r.deleted_at is None
    &&& r.last_read_at is None
}

/// Whether `r` is the record that an import creates at the time `now`.
pub open spec fn is_new_paper(id: Seq<char>, m: ImportModel, now: Seq<char>, r: Paper) -> bool {
    &&& r.id@ == id
    &&& r.title@ == m.title
    &&& r.authors@ == json_array_text(m.authors)
    &&& names_in(r.authors@) == m.authors
    &&& r.year == m.year
    &&& opt_text(r.journal) == m.journal
    &&& opt_text(r.doi) == m.doi
    &&& opt_text(r.url) == m.url
    &&& opt_text(r.abstract_text) == m.abstract_text
    &&& r.keywords@ == json_array_text(m.keywords)
    &&& names_in(r.keywords@) == m.keywords
    &&& opt_text(r.file_path) == m.file_path
    &&& r.file_size == m.file_size
    &&& r.page_count == m.page_count
    &&& opt_text(r.language) == Some(
        match m.language {
            Some(l) => l,
            None => "en"@,
        },
    )
    &&& opt_text(r.isbn) == m.isbn
    &&& is_fresh(now, r)
}

/// The record that an import creates at the time `now`.
pub fn new_paper(id: &str, m: ImportMetadata, now: &str) -> (r: Paper)
    ensures
        is_new_paper(id@, m@, now@, r),
{
    Paper {
        id: id.to_owned(),
        title: m.title,
        authors: print_strings(&m.authors),
        year: m.year,
        journal: m.journal,
        doi: m.doi,
        url: m.url,
        abstract_text: m.abstract_text,
        keywords: print_strings(&m.keywords),
        file_path: m.file_path,
        file_size: m.file_size,
        page_count: m.page_count,
        language: Some(
            match m.language {
                Some(l) => l,
                None => "en".to_owned(),
            },
        ),
        item_type: Some("journal".to_owned()),
        isbn: m.isbn,
        editor: "[]".to_owned(),
        num_pages: None,
        is_favorite: 0,
        read_status: "unread".to_owned(),
        created_at: now.to_owned(),
        updated_at: now.to_owned(),
        imported_at: now.to_owned(),
        citation_key: None,
        bibtex: None,
        volume: None,
        issue: None,
        pages: None,
        conference_name: None,
        publisher: None,
        place: None,
        series: None,
        edition: None,
        issn: None,
        archive_location: None,
        call_number: None,
        rights: None,
        deleted_at: None,
        last_read_at: None,
    }
}

/// The page count that the text of a PDF corrects: only where none was known and there are pages.
pub fn corrected_page_count(known: Option<i32>, pages: i64) -> (r: Option<i32>)
    ensures
        r == (if known is None {
            counted_pages(pages as int)
        } else {
            None
        }),
{
    match known {
        Some(_) => None,
        None => page_count_of(pages),
    }
}

/// The DOI by which a paper is looked up: its own unless that is blank, else the one in its PDF.
pub open spec fn doi_used(own: Option<Seq<char>>, in_pdf: Option<Seq<char>>) -> Option<Seq<char>> {
    if own is Some && trim(own->0).len() > 0 {
        own
    } else {
        in_pdf
    }
}

/// The DOI by which a paper is looked up.
pub fn lookup_doi(own: &Option<String>, in_pdf: Option<String>) -> (r: Option<String>)
    ensures
        opt_text(r) == doi_used(opt_text(*own), opt_text(in_pdf)),
{
    match own {
        Some(d) => {
            if !trimmed(d.as_str()).as_str().is_empty() {
                return Some(d.clone());
            }
        },
        None => {},
    }
    in_pdf
}

/// The read status of a paper once it has been opened: what was unread is now in progress, and any
/// other mark stays.
pub open spec fn opened_status(status: Seq<char>) -> Seq<char> {
    if status == "unread"@ {
        "in_progress"@
    } else {
        status
    }
}

/// The read status of a paper once it has been opened.
pub fn record_paper_read(status: &str) -> (r: String)
    ensures
        r@ == opened_status(status@),
{
    if same(status, "unread") {
        "in_progress".to_owned()
    } else {
        status.to_owned()
    }
}

/// Opening a paper never takes an explicit mark back, and opening it again changes nothing more.
pub proof fn law_opening_keeps_read_marks(status: Seq<char>)
    ensures
        status != "unread"@ ==> opened_status(status) == status,
        opened_status(opened_status(status)) == opened_status(status),
        opened_status("read"@) == "read"@,
{
    reveal_strlit("unread");
    reveal_strlit("read");
    reveal_strlit("in_progress");
    assert("unread"@.len() != "read"@.len());
    assert("unread"@.len() != "in_progress"@.len());
}

/// Whether a stored PDF may go with its paper: nothing else refers to it.
pub fn blob_unreferenced(papers: i64, attachments: i64) -> (r: bool)
    ensures
        r == (papers == 0 && attachments == 0),
{
    papers == 0 && attachments == 0
}

} // verus!
