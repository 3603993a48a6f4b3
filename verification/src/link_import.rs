//! Importing papers from links: which service a link belongs to, what that service's reply says of
//! the paper, and what becomes of the import when a source fails.
use vstd::prelude::*;
use vstd::string::*;

use crate::json::{
    at_first, at_key, first_of, json_items, json_members, json_value, MemberModel, number_at,
    number_of, opt_json, parse_json, text_at, text_of, under, Json, JsonModel,
};
use crate::order::{in_order, insert_by, law_sorted, place, sorted};
use crate::paper_service::{counted_pages, page_count_of, ImportMetadata, ImportModel, PdfInfo};
use crate::text::{
    after_last, all_alnum, behind_last, chars_of, concat2, concat3, contains, digit_char, ends_with,
    find_at, find_from, has_text, has_prefix, has_suffix, is_digit, is_number, join, join_with,
    lemma_texts_push, lower, only_alnum, only_digits, opt_text, parse_i64_within, parse_signed,
    parse_u64_within, same, slice, starts_with, strip_end, stripped_end, texts, to_lower, trim,
    trimmed, until, until_any, words, words_of,
};
use crate::xml::{
    event_models, read_events, same_bytes, xml_events, EventModel, XmlEvent,
};

verus! {

/// The largest PDF that is downloaded, in bytes.
pub const MAX_PDF_BYTES: usize = 209_715_200;

// ---------------------------------------------------------------------------------------------
// Records
// ---------------------------------------------------------------------------------------------
/// What a service says of a paper.
pub struct PaperMetadata {
    pub title: String,
    pub authors: Vec<String>,
    pub year: Option<i32>,
    pub journal: Option<String>,
    pub doi: Option<String>,
    pub url: Option<String>,
    pub abstract_text: Option<String>,
    pub keywords: Vec<String>,
    pub pdf_url: Option<String>,
    pub page_count: Option<i32>,
    pub isbn: Option<String>,
}

/// What a `PaperMetadata` says.
pub struct MetadataModel {
    pub title: Seq<char>,
    pub authors: Seq<Seq<char>>,
    pub year: Option<i32>,
    pub journal: Option<Seq<char>>,
    pub doi: Option<Seq<char>>,
    pub url: Option<Seq<char>>,
    pub abstract_text: Option<Seq<char>>,
    pub keywords: Seq<Seq<char>>,
    pub pdf_url: Option<Seq<char>>,
    pub page_count: Option<i32>,
    pub isbn: Option<Seq<char>>,
}

impl View for PaperMetadata {
    type V = MetadataModel;

    open spec fn view(&self) -> MetadataModel {
        MetadataModel {
            title: self.title@,
            authors: texts(self.authors@),
            year: self.year,
            journal: opt_text(self.journal),
            doi: opt_text(self.doi),
            url: opt_text(self.url),
            abstract_text: opt_text(self.abstract_text),
            keywords: texts(self.keywords@),
            pdf_url: opt_text(self.pdf_url),
            page_count: self.page_count,
            isbn: opt_text(self.isbn),
        }
    }
}

/// Nothing said.
pub open spec fn no_metadata() -> MetadataModel {
    MetadataModel {
        title: Seq::empty(),
        authors: Seq::empty(),
        year: None,
        journal: None,
        doi: None,
        url: None,
        abstract_text: None,
        keywords: Seq::empty(),
        pdf_url: None,
        page_count: None,
        isbn: None,
    }
}

impl Default for PaperMetadata {
    /// Nothing said.
    fn default() -> (r: PaperMetadata)
        ensures
            r@ == no_metadata(),
    {
        let r = PaperMetadata {
            title: String::new(),
            authors: Vec::new(),
            year: None,
            journal: None,
            doi: None,
            url: None,
            abstract_text: None,
            keywords: Vec::new(),
            pdf_url: None,
            page_count: None,
            isbn: None,
        };
        assert(texts(r.authors@) =~= Seq::empty());
        assert(texts(r.keywords@) =~= Seq::empty());
        r
    }
}

/// An error for the user interface, which picks its message by the code.
pub struct LinkImportError {
    pub code: String,
    pub message: String,
}

/// An error with its code and its message.
pub struct ErrorModel {
    pub code: Seq<char>,
    pub message: Seq<char>,
}

impl View for LinkImportError {
    type V = ErrorModel;

    open spec fn view(&self) -> ErrorModel {
        ErrorModel { code: self.code@, message: self.message@ }
    }
}

/// An error with its code and its message.
pub open spec fn link_error(code: Seq<char>, message: Seq<char>) -> ErrorModel {
    ErrorModel { code, message }
}

impl LinkImportError {
    /// An error with the given code and message.
    pub fn new(code: &str, message: String) -> (r: LinkImportError)
        ensures
            r@ == link_error(code@, message@),
    {
        LinkImportError { code: code.to_owned(), message }
    }

    /// The error as one line: the code in brackets, then the message.
    pub fn to_text(&self) -> (r: String)
        ensures
            r@ == "["@ + self.code@ + "] "@ + self.message@,
    {
        let mut s = concat3("[", self.code.as_str(), "] ");
        s.append(self.message.as_str());
        s
    }
}

/// What a reply or a step gives: a value or an error.
pub open spec fn outcome<T: View>(r: Result<T, LinkImportError>) -> Result<T::V, ErrorModel> {
    match r {
        Ok(v) => Ok(v@),
        Err(e) => Err(e@),
    }
}

/// What a reply gives: what it says, nothing, or an error.
pub open spec fn reply_outcome(r: Result<Option<PaperMetadata>, LinkImportError>) -> Result<
    Option<MetadataModel>,
    ErrorModel,
> {
    match r {
        Ok(Some(m)) => Ok(Some(m@)),
        Ok(None) => Ok(None),
        Err(e) => Err(e@),
    }
}

// ---------------------------------------------------------------------------------------------
// Links
// ---------------------------------------------------------------------------------------------
/// The kinds of links that papers are imported from.
pub enum ParsedLink {
    Doi(String),
    Arxiv(String),
    PubMed(String),
    SemanticScholar(String),
    Isbn(String),
    DirectPdf(String),
    Unsupported,
}

/// What a link says.
pub enum LinkModel {
    Doi(Seq<char>),
    Arxiv(Seq<char>),
    PubMed(Seq<char>),
    SemanticScholar(Seq<char>),
    Isbn(Seq<char>),
    DirectPdf(Seq<char>),
    Unsupported,
}

impl View for ParsedLink {
    type V = LinkModel;

    open spec fn view(&self) -> LinkModel {
        match self {
            ParsedLink::Doi(s) => LinkModel::Doi(s@),
            ParsedLink::Arxiv(s) => LinkModel::Arxiv(s@),
            ParsedLink::PubMed(s) => LinkModel::PubMed(s@),
            ParsedLink::SemanticScholar(s) => LinkModel::SemanticScholar(s@),
            ParsedLink::Isbn(s) => LinkModel::Isbn(s@),
            ParsedLink::DirectPdf(s) => LinkModel::DirectPdf(s@),
            ParsedLink::Unsupported => LinkModel::Unsupported,
        }
    }
}

/// What stands in `url` behind the first `host`, whatever the case of its ASCII letters.
pub open spec fn behind_host(url: Seq<char>, host: Seq<char>) -> Option<Seq<char>> {
    match find_from(lower(url), host, 0) {
        Some(i) => Some(url.skip(i + host.len())),
        None => None,
    }
}

/// What stands in `url` behind the first `host`, whatever the case of its ASCII letters.
fn rest_behind(url: &str, host: &str) -> (r: Option<String>)
    ensures
        opt_text(r) == behind_host(url@, host@),
{
    let a = chars_of(url);
    let l = chars_of(to_lower(url).as_str());
    let h = chars_of(host);
    match find_at(&l, &h, 0) {
        Some(i) => {
            assert(a@.subrange(i + h.len(), a.len() as int) =~= url@.skip(i + host@.len()));
            Some(slice(&a, i + h.len(), a.len()))
        },
        None => None,
    }
}

/// A DOI: `10.`, the code of who gave it, which begins with four digits and holds digits and dots, and
/// a slash behind that.
pub open spec fn is_doi(s: Seq<char>) -> bool {
    &&& starts_with(s, "10."@)
    &&& forall|i: int| 3 <= i < 7 ==> is_digit(#[trigger] s[i])
    &&& exists|k: int|
        7 <= k < s.len() && #[trigger] s[k] == '/' && forall|i: int|
            3 <= i < k ==> is_digit(#[trigger] s[i]) || s[i] == '.'
}

/// Tells whether `s` looks like a DOI: `10.`, the code of who gave it, which begins with four digits
/// and holds digits and dots, and a slash behind that.
pub fn looks_like_doi(s: &str) -> (r: bool)
    ensures
        r == is_doi(s@),
{
    if !has_prefix(s, "10.") {
        return false;
    }
    let a = chars_of(s);
    let mut k: usize = 3;
    while k < a.len() && (digit_char(a[k]) || a[k] == '.')
        invariant
            3 <= k,
            k <= a.len() || k == 3,
            forall|i: int| 3 <= i < k ==> is_digit(#[trigger] a@[i]) || a@[i] == '.',
        decreases a.len() - k,
    {
        k += 1;
    }
    if k >= a.len() || a[k] != '/' || k < 7 {
        proof {
            if is_doi(s@) {
                let m = choose|m: int|
                    7 <= m < s@.len() && #[trigger] s@[m] == '/' && forall|i: int|
                        3 <= i < m ==> is_digit(#[trigger] s@[i]) || s@[i] == '.';
                if m < k {
                    assert(is_digit(a@[m]) || a@[m] == '.');
                } else if k < m {
                    assert(is_digit(s@[k as int]) || s@[k as int] == '.');
                }
            }
        }
        return false;
    }
    let r = digit_char(a[3]) && digit_char(a[4]) && digit_char(a[5]) && digit_char(a[6]);
    proof {
        if !r {
            assert(!is_digit(s@[3]) || !is_digit(s@[4]) || !is_digit(s@[5]) || !is_digit(s@[6]));
        } else {
            assert(s@[k as int] == '/');
        }
    }
    r
}

/// A link without query, fragment and closing slashes.
pub open spec fn bare(s: Seq<char>) -> Seq<char> {
    strip_end(until(s, "?#"@), "/"@)
}

/// A link without query, fragment and closing slashes.
fn bare_of(s: &str) -> (r: String)
    ensures
        r@ == bare(s@),
{
    proof {
        reveal_strlit("/");
    }
    stripped_end(until_any(s, "?#").as_str(), "/")
}

/// The DOI of a link: behind `doi.org/`, or the whole text.
pub open spec fn doi_of(url: Seq<char>) -> Option<Seq<char>> {
    let direct = if is_doi(bare(url)) {
        Some(bare(url))
    } else {
        None
    };
    match behind_host(url, "doi.org/"@) {
        Some(rest) => if is_doi(bare(rest)) {
            Some(bare(rest))
        } else {
            direct
        },
        None => direct,
    }
}

/// The DOI of a link: behind `doi.org/`, or the whole text.
pub fn extract_doi(url: &str) -> (r: Option<String>)
    ensures
        opt_text(r) == doi_of(url@),
{
    match rest_behind(url, "doi.org/") {
        Some(rest) => {
            let doi = bare_of(rest.as_str());
            if looks_like_doi(doi.as_str()) {
                return Some(doi);
            }
        },
        None => {},
    }
    let doi = bare_of(url);
    if looks_like_doi(doi.as_str()) {
        Some(doi)
    } else {
        None
    }
}

/// The arXiv identifier behind `host`.
pub open spec fn arxiv_behind(url: Seq<char>, host: Seq<char>) -> Option<Seq<char>> {
    match behind_host(url, host) {
        Some(rest) => {
            let id = strip_end(until(until(rest, "/"@), "?"@), ".pdf"@);
            if id.len() > 0 {
                Some(id)
            } else {
                None
            }
        },
        None => None,
    }
}

/// The arXiv identifier of a link to an abstract or to a PDF.
pub open spec fn arxiv_of(url: Seq<char>) -> Option<Seq<char>> {
    match arxiv_behind(url, "arxiv.org/abs/"@) {
        Some(id) => Some(id),
        None => arxiv_behind(url, "arxiv.org/pdf/"@),
    }
}

fn arxiv_id_behind(url: &str, host: &str) -> (r: Option<String>)
    ensures
        opt_text(r) == arxiv_behind(url@, host@),
{
    proof {
        reveal_strlit(".pdf");
    }
    match rest_behind(url, host) {
        Some(rest) => {
            let id = stripped_end(
                until_any(until_any(rest.as_str(), "/").as_str(), "?").as_str(),
                ".pdf",
            );
            if id.as_str().is_empty() {
                None
            } else {
                Some(id)
            }
        },
        None => None,
    }
}

/// The arXiv identifier of a link to an abstract or to a PDF.
pub fn extract_arxiv_id(url: &str) -> (r: Option<String>)
    ensures
        opt_text(r) == arxiv_of(url@),
{
    match arxiv_id_behind(url, "arxiv.org/abs/") {
        Some(id) => Some(id),
        None => arxiv_id_behind(url, "arxiv.org/pdf/"),
    }
}

/// The PubMed identifier of a link: a row of digits.
pub open spec fn pubmed_of(url: Seq<char>) -> Option<Seq<char>> {
    match behind_host(url, "pubmed.ncbi.nlm.nih.gov/"@) {
        Some(rest) => {
            let id = until(until(rest, "/"@), "?#"@);
            if is_number(id) {
                Some(id)
            } else {
                None
            }
        },
        None => None,
    }
}

/// The PubMed identifier of a link: a row of digits.
pub fn extract_pubmed_id(url: &str) -> (r: Option<String>)
    ensures
        opt_text(r) == pubmed_of(url@),
{
    match rest_behind(url, "pubmed.ncbi.nlm.nih.gov/") {
        Some(rest) => {
            let id = until_any(until_any(rest.as_str(), "/").as_str(), "?#");
            if only_digits(id.as_str()) {
                Some(id)
            } else {
                None
            }
        },
        None => None,
    }
}

/// The last part of a path, without query and fragment.
pub open spec fn last_part(url: Seq<char>) -> Seq<char> {
    until(after_last(url, '/'), "?#"@)
}

/// The Semantic Scholar identifier of a link: at least sixteen letters and digits.
pub open spec fn semantic_scholar_of(url: Seq<char>) -> Option<Seq<char>> {
    let id = last_part(url);
    if id.len() >= 16 && all_alnum(id) {
        Some(id)
    } else {
        None
    }
}

/// The Semantic Scholar identifier of a link: at least sixteen letters and digits.
pub fn extract_semantic_scholar_id(url: &str) -> (r: Option<String>)
    ensures
        opt_text(r) == semantic_scholar_of(url@),
{
    let id = until_any(behind_last(url, '/').as_str(), "?#");
    if id.as_str().unicode_len() >= 16 && only_alnum(id.as_str()) {
        Some(id)
    } else {
        None
    }
}

/// Whether a character counts in an ISBN.
pub open spec fn counts_in_isbn(c: char) -> bool {
    is_digit(c) || c == 'x' || c == 'X'
}

/// The digits of a text, and the letter X, in upper case.
pub open spec fn isbn_digits(s: Seq<char>) -> Seq<char>
    decreases s.len(),
{
    if s.len() == 0 {
        Seq::empty()
    } else if counts_in_isbn(s.last()) {
        isbn_digits(s.drop_last()).push(
            if s.last() == 'x' {
                'X'
            } else {
                s.last()
            },
        )
    } else {
        isbn_digits(s.drop_last())
    }
}

/// Whether the first `n` characters are digits.
pub open spec fn digits_up_to(s: Seq<char>, n: int) -> bool {
    forall|i: int| 0 <= i < n ==> is_digit(#[trigger] s[i])
}

/// The ISBN in a text: ten digits, the last of which may be X, or thirteen digits that begin with
/// 978 or 979. Other characters are ignored.
pub open spec fn isbn_of(s: Seq<char>) -> Option<Seq<char>> {
    let d = isbn_digits(s);
    if d.len() == 10 && digits_up_to(d, 9) {
        Some(d)
    } else if d.len() == 13 && digits_up_to(d, 13) && (starts_with(d, "978"@) || starts_with(
        d,
        "979"@,
    )) {
        Some(d)
    } else {
        None
    }
}

/// The ISBN in a text: ten digits, the last of which may be X, or thirteen digits that begin with
/// 978 or 979. Other characters are ignored.
pub fn extract_isbn(input: &str) -> (r: Option<String>)
    ensures
        opt_text(r) == isbn_of(input@),
{
    let a = chars_of(input);
    let mut d: Vec<char> = Vec::new();
    let mut i: usize = 0;
    while i < a.len()
        invariant
            i <= a.len(),
            a@ == input@,
            d@ == isbn_digits(input@.take(i as int)),
        decreases a.len() - i,
    {
        assert(input@.take(i + 1).drop_last() =~= input@.take(i as int));
        let c = a[i];
        if digit_char(c) || c == 'x' || c == 'X' {
            d.push(
                if c == 'x' {
                    'X'
                } else {
                    c
                },
            );
        }
        i += 1;
    }
    assert(input@.take(input@.len() as int) =~= input@);
    let mut n: usize = 0;
    while n < d.len() && digit_char(d[n])
        invariant
            n <= d.len(),
            digits_up_to(d@, n as int),
        decreases d.len() - n,
    {
        n += 1;
    }
    let s = slice(&d, 0, d.len());
    assert(d@.subrange(0, d.len() as int) =~= d@);
    if d.len() == 10 && n >= 9 {
        Some(s)
    } else if d.len() == 13 && n == 13 && (has_prefix(s.as_str(), "978") || has_prefix(
        s.as_str(),
        "979",
    )) {
        Some(s)
    } else {
        None
    }
}

/// What kind of link a text is.
pub open spec fn link_of(text: Seq<char>) -> LinkModel {
    let t = trim(text);
    if doi_of(t) is Some {
        LinkModel::Doi(doi_of(t)->0)
    } else if arxiv_of(t) is Some {
        LinkModel::Arxiv(arxiv_of(t)->0)
    } else if pubmed_of(t) is Some {
        LinkModel::PubMed(pubmed_of(t)->0)
    } else if isbn_of(t) is Some {
        LinkModel::Isbn(isbn_of(t)->0)
    } else if ends_with(until(until(lower(t), "#"@), "?"@), ".pdf"@) {
        LinkModel::DirectPdf(t)
    } else if contains(lower(t), "semanticscholar.org"@) && semantic_scholar_of(t) is Some {
        LinkModel::SemanticScholar(semantic_scholar_of(t)->0)
    } else {
        LinkModel::Unsupported
    }
}

/// Tells what kind of link the user pasted. An arXiv link to a PDF counts as arXiv, so that its
/// metadata are looked up.
pub fn parse_link(url: &str) -> (r: ParsedLink)
    ensures
        r@ == link_of(url@),
{
    let t = trimmed(url);
    match extract_doi(t.as_str()) {
        Some(doi) => return ParsedLink::Doi(doi),
        None => {},
    }
    match extract_arxiv_id(t.as_str()) {
        Some(id) => return ParsedLink::Arxiv(id),
        None => {},
    }
    match extract_pubmed_id(t.as_str()) {
        Some(id) => return ParsedLink::PubMed(id),
        None => {},
    }
    match extract_isbn(t.as_str()) {
        Some(isbn) => return ParsedLink::Isbn(isbn),
        None => {},
    }
    let l = to_lower(t.as_str());
    if has_suffix(until_any(until_any(l.as_str(), "#").as_str(), "?").as_str(), ".pdf") {
        return ParsedLink::DirectPdf(t);
    }
    if has_text(l.as_str(), "semanticscholar.org") {
        match extract_semantic_scholar_id(t.as_str()) {
            Some(id) => return ParsedLink::SemanticScholar(id),
            None => {},
        }
    }
    ParsedLink::Unsupported
}

/// White space around a link makes no difference.
pub proof fn law_link_ignores_surrounding_space(text: Seq<char>)
    ensures
        link_of(trim(text)) == link_of(text),
{
    crate::text::lemma_trim_idempotent(text);
}

// ---------------------------------------------------------------------------------------------
// Replies
// ---------------------------------------------------------------------------------------------
/// The low 32 bits of a number, as a signed number.
pub open spec fn low_word(n: int) -> int {
    let m = n % 4294967296;
    if m >= 2147483648 {
        m - 4294967296
    } else {
        m
    }
}

/// The low 32 bits of a number, as a signed number.
pub fn low_word_of(n: i64) -> (r: i32)
    ensures
        r == low_word(n as int),
{
    let m: i64 = if n >= 0 {
        n % 4294967296
    } else {
        let k: i64 = -(n + 1);
        proof {
            let w = 4294967296int;
            let q = (k as int) / w;
            let d = (k as int) % w;
            vstd::arithmetic::div_mod::lemma_fundamental_div_mod(k as int, w);
            assert(n as int == w * (-q - 1) + (w - 1 - d));
            vstd::arithmetic::div_mod::lemma_fundamental_div_mod_converse(
                n as int,
                w,
                -q - 1,
                w - 1 - d,
            );
        }
        4294967295 - k % 4294967296
    };
    if m >= 2147483648 {
        (m - 4294967296) as i32
    } else {
        m as i32
    }
}

/// A year that a reply gives as a number.
pub open spec fn year_number(v: Option<int>) -> Option<i32> {
    match v {
        Some(n) => Some(low_word(n) as i32),
        None => None,
    }
}

fn year_from(v: Option<i64>) -> (r: Option<i32>)
    ensures
        r == year_number(
            match v {
                Some(n) => Some(n as int),
                None => None,
            },
        ),
{
    match v {
        Some(n) => Some(low_word_of(n)),
        None => None,
    }
}

/// What a text says as a year.
pub open spec fn year_in(s: Seq<char>) -> Option<i32> {
    match parse_signed(s, i32::MIN as int, i32::MAX as int) {
        Some(n) => Some(n as i32),
        None => None,
    }
}

/// What a text says as a year.
pub fn parse_year(s: &str) -> (r: Option<i32>)
    ensures
        r == year_in(s@),
{
    match parse_i64_within(s, i32::MIN as i64, i32::MAX as i64) {
        Some(n) => Some(n as i32),
        None => None,
    }
}

/// The ways in which replies name people.
#[derive(Clone, Copy)]
pub enum NameRule {
    /// `given` and `family`; without a family name nobody is named.
    GivenFamily,
    /// `author.display_name`.
    AuthorDisplayName,
    /// `name`.
    Name,
}

/// The text of what may be a string, empty where it is none.
pub open spec fn text_or_empty(v: Option<JsonModel>) -> Seq<char> {
    match text_of(v) {
        Some(s) => s,
        None => Seq::empty(),
    }
}

/// The name that an item of a list of people gives.
pub open spec fn name_by(rule: NameRule, item: JsonModel) -> Option<Seq<char>> {
    match rule {
        NameRule::GivenFamily => {
            let given = text_or_empty(item.get("given"@));
            let family = text_or_empty(item.get("family"@));
            if family.len() == 0 {
                None
            } else {
                Some(trim(given + " "@ + family))
            }
        },
        NameRule::AuthorDisplayName => text_of(under(item.get("author"@), "display_name"@)),
        NameRule::Name => text_of(item.get("name"@)),
    }
}

/// The names that the items of a list of people give.
pub open spec fn names_by(rule: NameRule, items: Seq<JsonModel>) -> Seq<Seq<char>>
    decreases items.len(),
{
    if items.len() == 0 {
        Seq::empty()
    } else {
        match name_by(rule, items.last()) {
            Some(n) => names_by(rule, items.drop_last()).push(n),
            None => names_by(rule, items.drop_last()),
        }
    }
}

/// The names in what may be a list of people.
pub open spec fn people(rule: NameRule, v: Option<JsonModel>) -> Seq<Seq<char>> {
    match v {
        Some(j) => match j.items() {
            Some(items) => names_by(rule, items),
            None => Seq::empty(),
        },
        None => Seq::empty(),
    }
}

fn text_or_nothing(v: Option<&Json>) -> (r: String)
    ensures
        r@ == text_or_empty(opt_json(v)),
{
    match text_at(v) {
        Some(s) => s,
        None => String::new(),
    }
}

fn name_of(rule: NameRule, item: &Json) -> (r: Option<String>)
    ensures
        opt_text(r) == name_by(rule, item@),
{
    match rule {
        NameRule::GivenFamily => {
            let given = text_or_nothing(item.get("given"));
            let family = text_or_nothing(item.get("family"));
            if family.as_str().is_empty() {
                None
            } else {
                Some(trimmed(concat3(given.as_str(), " ", family.as_str()).as_str()))
            }
        },
        NameRule::AuthorDisplayName => text_at(at_key(item.get("author"), "display_name")),
        NameRule::Name => text_at(item.get("name")),
    }
}

fn people_of(rule: NameRule, v: Option<&Json>) -> (r: Vec<String>)
    ensures
        texts(r@) == people(rule, opt_json(v)),
{
    broadcast use lemma_texts_push;

    let mut out: Vec<String> = Vec::new();
    assert(texts(out@) =~= Seq::empty());
    match v {
        Some(j) => match j.as_array() {
            Some(items) => {
                let ghost all = json_items(items@);
                let mut i: usize = 0;
                while i < items.len()
                    invariant
                        i <= items.len(),
                        all == json_items(items@),
                        texts(out@) == names_by(rule, all.take(i as int)),
                    decreases items.len() - i,
                {
                    assert(all.take(i + 1).drop_last() =~= all.take(i as int));
                    match name_of(rule, &items[i]) {
                        Some(n) => out.push(n),
                        None => {},
                    }
                    i += 1;
                }
                assert(all.take(all.len() as int) =~= all);
            },
            None => {},
        },
        None => {},
    }
    out
}

/// A text without what stands between `<` and `>`.
pub open spec fn untagged(s: Seq<char>, in_tag: bool) -> Seq<char>
    decreases s.len(),
{
    if s.len() == 0 {
        Seq::empty()
    } else if s[0] == '<' {
        untagged(s.skip(1), true)
    } else if s[0] == '>' {
        untagged(s.skip(1), false)
    } else if in_tag {
        untagged(s.skip(1), true)
    } else {
        seq![s[0]] + untagged(s.skip(1), false)
    }
}

/// Drops the tags from an abstract.
pub fn strip_xml_tags(text: &str) -> (r: String)
    ensures
        r@ == untagged(text@, false),
{
    let a = chars_of(text);
    let mut out = String::new();
    let mut in_tag = false;
    let mut i: usize = 0;
    assert(text@.skip(0) =~= text@);
    while i < a.len()
        invariant
            i <= a.len(),
            a@ == text@,
            out@ + untagged(text@.skip(i as int), in_tag) == untagged(text@, false),
        decreases a.len() - i,
    {
        let ghost before = out@;
        let ghost rest = text@.skip(i as int);
        assert(rest.skip(1) =~= text@.skip(i + 1));
        let c = a[i];
        if c == '<' {
            in_tag = true;
        } else if c == '>' {
            in_tag = false;
        } else if !in_tag {
            out.push(c);
            assert(before + (seq![c] + untagged(rest.skip(1), false)) =~= before.push(c) + untagged(
                rest.skip(1),
                false,
            ));
        }
        i += 1;
    }
    assert(out@ + Seq::<char>::empty() =~= out@);
    out
}

/// Whether neither `<` nor `>` stands in a text.
pub open spec fn no_tag_signs(s: Seq<char>) -> bool {
    forall|i: int| 0 <= i < s.len() ==> (#[trigger] s[i]) != '<' && s[i] != '>'
}

/// What is left of a text once its tags are gone holds no tag sign.
pub proof fn law_untagged_has_no_tags(s: Seq<char>, in_tag: bool)
    ensures
        no_tag_signs(untagged(s, in_tag)),
    decreases s.len(),
{
    if s.len() > 0 {
        law_untagged_has_no_tags(s.skip(1), true);
        law_untagged_has_no_tags(s.skip(1), false);
        let kept = untagged(s.skip(1), false);
        if s[0] != '<' && s[0] != '>' && !in_tag {
            let all = seq![s[0]] + kept;
            assert forall|i: int| 0 <= i < all.len() implies (#[trigger] all[i]) != '<' && all[i]
                != '>' by {
                if i > 0 {
                    assert(all[i] == kept[i - 1]);
                }
            }
        }
    }
}

/// The abstract of a CrossRef reply: without tags, and missing where nothing is left.
pub open spec fn crossref_abstract(v: Option<Seq<char>>) -> Option<Seq<char>> {
    match v {
        Some(s) => if untagged(s, false).len() > 0 {
            Some(untagged(s, false))
        } else {
            None
        },
        None => None,
    }
}

/// The first number of the first date under a key.
pub open spec fn date_year(msg: Option<JsonModel>, key: Seq<char>) -> Option<int> {
    number_of(first_of(first_of(under(under(msg, key), "date-parts"@))))
}

/// The year of a CrossRef reply: of the print, else online, else of the record.
pub open spec fn crossref_year(msg: Option<JsonModel>) -> Option<int> {
    if date_year(msg, "published-print"@) is Some {
        date_year(msg, "published-print"@)
    } else if date_year(msg, "published-online"@) is Some {
        date_year(msg, "published-online"@)
    } else {
        date_year(msg, "created"@)
    }
}

/// What a CrossRef reply says of the paper with a DOI; nothing without a title.
pub open spec fn crossref_model(doi: Seq<char>, reply: JsonModel) -> Option<MetadataModel> {
    let msg = reply.get("message"@);
    match text_of(first_of(under(msg, "title"@))) {
        Some(title) => Some(
            MetadataModel {
                title,
                authors: people(NameRule::GivenFamily, under(msg, "author"@)),
                year: year_number(crossref_year(msg)),
                journal: text_of(first_of(under(msg, "container-title"@))),
                doi: Some(doi),
                url: text_of(under(msg, "URL"@)),
                abstract_text: crossref_abstract(text_of(under(msg, "abstract"@))),
                ..no_metadata()
            },
        ),
        None => None,
    }
}

fn date_year_of(msg: Option<&Json>, key: &str) -> (r: Option<i64>)
    ensures
        match r {
            Some(n) => date_year(opt_json(msg), key@) == Some(n as int),
            None => date_year(opt_json(msg), key@) is None,
        },
{
    number_at(at_first(at_first(at_key(at_key(msg, key), "date-parts"))))
}

/// What an optional record says.
pub open spec fn opt_metadata(m: Option<PaperMetadata>) -> Option<MetadataModel> {
    match m {
        Some(m) => Some(m@),
        None => None,
    }
}

/// What a CrossRef reply says of the paper with a DOI; nothing without a title.
pub fn crossref_metadata(doi: &str, reply: &Json) -> (r: Option<PaperMetadata>)
    ensures
        opt_metadata(r) == crossref_model(doi@, reply@),
{
    let msg = reply.get("message");
    let title = match text_at(at_first(at_key(msg, "title"))) {
        Some(t) => t,
        None => return None,
    };
    let year = match date_year_of(msg, "published-print") {
        Some(y) => Some(y),
        None => match date_year_of(msg, "published-online") {
            Some(y) => Some(y),
            None => date_year_of(msg, "created"),
        },
    };
    let abstract_text = match text_at(at_key(msg, "abstract")) {
        Some(s) => {
            let plain = strip_xml_tags(s.as_str());
            if plain.as_str().is_empty() {
                None
            } else {
                Some(plain)
            }
        },
        None => None,
    };
    let mut m = PaperMetadata::default();
    m.title = title;
    m.authors = people_of(NameRule::GivenFamily, at_key(msg, "author"));
    m.year = year_from(year);
    m.journal = text_at(at_first(at_key(msg, "container-title")));
    m.doi = Some(doi.to_owned());
    m.url = text_at(at_key(msg, "URL"));
    m.abstract_text = abstract_text;
    Some(m)
}

/// What a text that should be JSON gives: what `read` finds in it, or a network error that names
/// the source.
pub open spec fn json_reply(
    source: Seq<char>,
    body: Seq<char>,
    read: spec_fn(JsonModel) -> Option<MetadataModel>,
) -> Result<Option<MetadataModel>, ErrorModel> {
    match json_value(body) {
        Ok(v) => Ok(read(v)),
        Err(e) => Err(link_error("network_error"@, source + ": "@ + e)),
    }
}

/// Reads a reply as JSON; the error names the source.
fn json_body(source: &str, body: &str) -> (r: Result<Json, LinkImportError>)
    ensures
        match r {
            Ok(v) => json_value(body@) == Ok::<JsonModel, Seq<char>>(v@),
            Err(e) => json_value(body@) is Err && e@ == link_error(
                "network_error"@,
                source@ + ": "@ + json_value(body@)->Err_0,
            ),
        },
{
    match parse_json(body) {
        Ok(v) => Ok(v),
        Err(e) => Err(LinkImportError::new("network_error", concat3(source, ": ", e.as_str()))),
    }
}

/// Reads the body of a CrossRef reply.
pub fn crossref_reply(doi: &str, body: &str) -> (r: Result<Option<PaperMetadata>, LinkImportError>)
    ensures
        reply_outcome(r) == json_reply(
            "CrossRef JSON"@,
            body@,
            |v: JsonModel| crossref_model(doi@, v),
        ),
{
    match json_body("CrossRef JSON", body) {
        Ok(v) => Ok(crossref_metadata(doi, &v)),
        Err(e) => Err(e),
    }
}

/// A word of an abstract and where it stands.
pub struct Token {
    pub position: u64,
    pub word: String,
}

/// What a `Token` says.
pub struct TokenModel {
    pub position: int,
    pub word: Seq<char>,
}

/// What a list of tokens says.
pub open spec fn token_models(v: Seq<Token>) -> Seq<TokenModel> {
    Seq::new(v.len(), |i: int| TokenModel { position: v[i].position as int, word: v[i].word@ })
}

/// A number of a reply that is a position.
pub open spec fn position_in(v: JsonModel) -> Option<int> {
    match v {
        JsonModel::Int(i) => if i >= 0 {
            Some(i)
        } else {
            None
        },
        JsonModel::Real(t) => crate::text::parse_unsigned(t, u64::MAX as int),
        _ => None,
    }
}

/// The tokens that a word and its list of positions give.
pub open spec fn word_tokens(word: Seq<char>, items: Seq<JsonModel>) -> Seq<TokenModel>
    decreases items.len(),
{
    if items.len() == 0 {
        Seq::empty()
    } else {
        match position_in(items.last()) {
            Some(position) => word_tokens(word, items.drop_last()).push(
                TokenModel { position, word },
            ),
            None => word_tokens(word, items.drop_last()),
        }
    }
}

/// The tokens that an inverted index gives, word by word.
pub open spec fn index_tokens(members: Seq<MemberModel>) -> Seq<TokenModel>
    decreases members.len(),
{
    if members.len() == 0 {
        Seq::empty()
    } else {
        index_tokens(members.drop_last()) + match members.last().value.items() {
            Some(items) => word_tokens(members.last().key, items),
            None => Seq::empty(),
        }
    }
}

/// Tokens go by their positions.
pub open spec fn by_position() -> spec_fn(TokenModel, TokenModel) -> bool {
    |a: TokenModel, b: TokenModel| a.position < b.position
}

/// The abstract that an inverted index stands for: the words by position, with blanks between;
/// nothing where there are none.
pub open spec fn index_abstract(v: JsonModel) -> Option<Seq<char>> {
    match v {
        JsonModel::Object(members) => {
            let tokens = sorted(index_tokens(members), by_position());
            if tokens.len() == 0 {
                None
            } else {
                Some(join(Seq::new(tokens.len(), |i: int| tokens[i].word), " "@))
            }
        },
        _ => None,
    }
}

/// The words of an abstract come in the order of their positions.
pub proof fn law_tokens_in_position_order(members: Seq<MemberModel>)
    ensures
        in_order(sorted(index_tokens(members), by_position()), by_position()),
        sorted(index_tokens(members), by_position()).to_multiset() == index_tokens(
            members,
        ).to_multiset(),
{
    law_sorted(index_tokens(members), by_position());
}

/// Puts a token in its place.
fn insert_token(list: &mut Vec<Token>, x: Token)
    ensures
        token_models(final(list)@) == insert_by(
            token_models(old(list)@),
            (TokenModel { position: x.position as int, word: x.word@ }),
            by_position(),
        ),
{
    let ghost before = token_models(list@);
    let ghost m = TokenModel { position: x.position as int, word: x.word@ };
    let mut i: usize = list.len();
    while i > 0 && x.position < list[i - 1].position
        invariant
            i <= list.len(),
            before == token_models(list@),
            list@ == old(list)@,
            m == (TokenModel { position: x.position as int, word: x.word@ }),
            place(before, m, by_position(), before.len() as int) == place(
                before,
                m,
                by_position(),
                i as int,
            ),
        decreases i,
    {
        i -= 1;
    }
    list.insert(i, x);
    assert(token_models(list@) =~= before.insert(i as int, m));
}

fn position_of(v: &Json) -> (r: Option<u64>)
    ensures
        match r {
            Some(n) => position_in(v@) == Some(n as int),
            None => position_in(v@) is None,
        },
{
    match v {
        Json::Int(i) => if *i >= 0 {
            Some(*i as u64)
        } else {
            None
        },
        Json::Real(t) => parse_u64_within(t.as_str(), u64::MAX),
        _ => None,
    }
}

/// Sorting a longer row is sorting its beginning and putting in the rest.
proof fn lemma_sorted_push(s: Seq<TokenModel>, x: TokenModel)
    ensures
        sorted(s.push(x), by_position()) == insert_by(sorted(s, by_position()), x, by_position()),
{
    assert(s.push(x).drop_last() =~= s);
}

/// The abstract that OpenAlex gives as an inverted index: each word with its positions.
pub fn reconstruct_openalex_abstract(value: &Json) -> (r: Option<String>)
    ensures
        opt_text(r) == index_abstract(value@),
{
    broadcast use lemma_texts_push;

    let members = match value {
        Json::Object(m) => m,
        _ => return None,
    };
    let ghost all = json_members(members@);
    assert(value@->Object_0 =~= all);
    let mut list: Vec<Token> = Vec::new();
    assert(token_models(list@) =~= sorted(index_tokens(all.take(0)), by_position()));
    let mut i: usize = 0;
    while i < members.len()
        invariant
            i <= members.len(),
            all == json_members(members@),
            token_models(list@) == sorted(index_tokens(all.take(i as int)), by_position()),
        decreases members.len() - i,
    {
        let member = &members[i];
        let ghost earlier = index_tokens(all.take(i as int));
        proof {
            assert(all.take(i + 1).drop_last() =~= all.take(i as int));
            assert(all.take(i + 1).last() == all[i as int]);
        }
        match member.value.as_array() {
            Some(items) => {
                let ghost js = json_items(items@);
                let mut k: usize = 0;
                assert(earlier + word_tokens(member.key@, js.take(0)) =~= earlier);
                while k < items.len()
                    invariant
                        k <= items.len(),
                        js == json_items(items@),
                        token_models(list@) == sorted(
                            earlier + word_tokens(member.key@, js.take(k as int)),
                            by_position(),
                        ),
                    decreases items.len() - k,
                {
                    let ghost so_far = word_tokens(member.key@, js.take(k as int));
                    proof {
                        assert(js.take(k + 1).drop_last() =~= js.take(k as int));
                        assert(js.take(k + 1).last() == js[k as int]);
                    }
                    match position_of(&items[k]) {
                        Some(position) => {
                            let token = Token { position, word: member.key.clone() };
                            proof {
                                let m = TokenModel { position: position as int, word: member.key@ };
                                assert(earlier + so_far.push(m) =~= (earlier + so_far).push(m));
                                lemma_sorted_push(earlier + so_far, m);
                            }
                            insert_token(&mut list, token);
                        },
                        None => {},
                    }
                    k += 1;
                }
                assert(js.take(js.len() as int) =~= js);
            },
            None => {
                assert(earlier + Seq::<TokenModel>::empty() =~= earlier);
            },
        }
        i += 1;
    }
    assert(all.take(all.len() as int) =~= all);
    let ghost tokens = sorted(index_tokens(all), by_position());
    if list.len() == 0 {
        return None;
    }
    let mut words: Vec<String> = Vec::new();
    let mut n: usize = 0;
    while n < list.len()
        invariant
            n <= list.len(),
            words.len() == n,
            tokens == token_models(list@),
            forall|j: int| 0 <= j < n ==> (#[trigger] words@[j])@ == tokens[j].word,
        decreases list.len() - n,
    {
        words.push(list[n].word.clone());
        n += 1;
    }
    assert(texts(words@) =~= Seq::new(tokens.len(), |i: int| tokens[i].word));
    Some(join_with(&words, " "))
}

/// What an OpenAlex reply says of the paper with a DOI; nothing without a title.
pub open spec fn openalex_model(doi: Seq<char>, reply: JsonModel) -> Option<MetadataModel> {
    let place = reply.get("primary_location"@);
    match text_of(reply.get("display_name"@)) {
        Some(title) => Some(
            MetadataModel {
                title,
                authors: people(NameRule::AuthorDisplayName, reply.get("authorships"@)),
                year: year_number(number_of(reply.get("publication_year"@))),
                journal: text_of(under(under(place, "source"@), "display_name"@)),
                doi: Some(doi),
                url: match text_of(under(place, "landing_page_url"@)) {
                    Some(u) => Some(u),
                    None => Some("https://doi.org/"@ + doi),
                },
                abstract_text: match reply.get("abstract_inverted_index"@) {
                    Some(v) => index_abstract(v),
                    None => None,
                },
                pdf_url: text_of(under(reply.get("open_access"@), "oa_url"@)),
                ..no_metadata()
            },
        ),
        None => None,
    }
}

/// What an OpenAlex reply says of the paper with a DOI; nothing without a title.
pub fn openalex_metadata(doi: &str, reply: &Json) -> (r: Option<PaperMetadata>)
    ensures
        opt_metadata(r) == openalex_model(doi@, reply@),
{
    let title = match text_at(reply.get("display_name")) {
        Some(t) => t,
        None => return None,
    };
    let place = reply.get("primary_location");
    let mut m = PaperMetadata::default();
    m.title = title;
    m.authors = people_of(NameRule::AuthorDisplayName, reply.get("authorships"));
    m.year = year_from(number_at(reply.get("publication_year")));
    m.journal = text_at(at_key(at_key(place, "source"), "display_name"));
    m.doi = Some(doi.to_owned());
    m.url = match text_at(at_key(place, "landing_page_url")) {
        Some(u) => Some(u),
        None => Some(concat2("https://doi.org/", doi)),
    };
    m.abstract_text = match reply.get("abstract_inverted_index") {
        Some(v) => reconstruct_openalex_abstract(v),
        None => None,
    };
    m.pdf_url = text_at(at_key(reply.get("open_access"), "oa_url"));
    Some(m)
}

/// Reads the body of an OpenAlex reply.
pub fn openalex_reply(doi: &str, body: &str) -> (r: Result<Option<PaperMetadata>, LinkImportError>)
    ensures
        reply_outcome(r) == json_reply(
            "OpenAlex JSON"@,
            body@,
            |v: JsonModel| openalex_model(doi@, v),
        ),
{
    match json_body("OpenAlex JSON", body) {
        Ok(v) => Ok(openalex_metadata(doi, &v)),
        Err(e) => Err(e),
    }
}

/// What a Semantic Scholar reply says of the paper with an identifier; nothing without a title.
pub open spec fn semantic_scholar_model(id: Seq<char>, reply: JsonModel) -> Option<MetadataModel> {
    match text_of(reply.get("title"@)) {
        Some(title) => Some(
            MetadataModel {
                title,
                authors: people(NameRule::Name, reply.get("authors"@)),
                year: year_number(number_of(reply.get("year"@))),
                journal: text_of(reply.get("venue"@)),
                doi: text_of(reply.get("doi"@)),
                url: Some("https://semanticscholar.org/paper/"@ + id),
                abstract_text: text_of(reply.get("abstract"@)),
                pdf_url: text_of(under(reply.get("openAccessPdf"@), "url"@)),
                ..no_metadata()
            },
        ),
        None => None,
    }
}

/// What a Semantic Scholar reply says of the paper with an identifier; nothing without a title.
pub fn semantic_scholar_metadata(id: &str, reply: &Json) -> (r: Option<PaperMetadata>)
    ensures
        opt_metadata(r) == semantic_scholar_model(id@, reply@),
{
    let title = match text_at(reply.get("title")) {
        Some(t) => t,
        None => return None,
    };
    let mut m = PaperMetadata::default();
    m.title = title;
    m.authors = people_of(NameRule::Name, reply.get("authors"));
    m.year = year_from(number_at(reply.get("year")));
    m.journal = text_at(reply.get("venue"));
    m.doi = text_at(reply.get("doi"));
    m.url = Some(concat2("https://semanticscholar.org/paper/", id));
    m.abstract_text = text_at(reply.get("abstract"));
    m.pdf_url = text_at(at_key(reply.get("openAccessPdf"), "url"));
    Some(m)
}

/// Reads the body of a Semantic Scholar reply.
pub fn semantic_scholar_reply(id: &str, body: &str) -> (r: Result<
    Option<PaperMetadata>,
    LinkImportError,
>)
    ensures
        reply_outcome(r) == json_reply(
            "S2 JSON"@,
            body@,
            |v: JsonModel| semantic_scholar_model(id@, v),
        ),
{
    match json_body("S2 JSON", body) {
        Ok(v) => Ok(semantic_scholar_metadata(id, &v)),
        Err(e) => Err(e),
    }
}

/// The last number among the words of a text.
pub open spec fn last_year(parts: Seq<Seq<char>>) -> Option<i32>
    decreases parts.len(),
{
    if parts.len() == 0 {
        None
    } else if year_in(parts.last()) is Some {
        year_in(parts.last())
    } else {
        last_year(parts.drop_last())
    }
}

fn last_year_of(date: &str) -> (r: Option<i32>)
    ensures
        r == last_year(words(date@)),
{
    let parts = words_of(date);
    let ghost all = texts(parts@);
    let mut i: usize = parts.len();
    assert(all.take(i as int) =~= all);
    while i > 0
        invariant
            i <= parts.len(),
            all == texts(parts@),
            all == words(date@),
            last_year(all) == last_year(all.take(i as int)),
        decreases i,
    {
        proof {
            assert(all.take(i as int).last() == all[i - 1]);
            assert(all.take(i as int).drop_last() =~= all.take(i - 1));
        }
        match parse_year(parts[i - 1].as_str()) {
            Some(y) => return Some(y),
            None => {},
        }
        i -= 1;
    }
    None
}

/// What an OpenLibrary reply says of the book with an ISBN; nothing without a title.
pub open spec fn isbn_model(isbn: Seq<char>, reply: JsonModel) -> Option<MetadataModel> {
    let data = reply.get("ISBN:"@ + isbn);
    let title = text_or_empty(under(data, "title"@));
    if title.len() == 0 {
        None
    } else {
        Some(
            MetadataModel {
                title,
                authors: people(NameRule::Name, under(data, "authors"@)),
                year: match text_of(under(data, "publish_date"@)) {
                    Some(date) => last_year(words(date)),
                    None => None,
                },
                url: text_of(under(data, "url"@)),
                isbn: Some(isbn),
                ..no_metadata()
            },
        )
    }
}

/// What an OpenLibrary reply says of the book with an ISBN; nothing without a title.
pub fn isbn_metadata(isbn: &str, reply: &Json) -> (r: Option<PaperMetadata>)
    ensures
        opt_metadata(r) == isbn_model(isbn@, reply@),
{
    let key = concat2("ISBN:", isbn);
    let data = reply.get(key.as_str());
    let title = text_or_nothing(at_key(data, "title"));
    if title.as_str().is_empty() {
        return None;
    }
    let mut m = PaperMetadata::default();
    m.title = title;
    m.authors = people_of(NameRule::Name, at_key(data, "authors"));
    m.year = match text_at(at_key(data, "publish_date")) {
        Some(date) => last_year_of(date.as_str()),
        None => None,
    };
    m.url = text_at(at_key(data, "url"));
    m.isbn = Some(isbn.to_owned());
    Some(m)
}

/// Reads the body of an OpenLibrary reply.
pub fn isbn_reply(isbn: &str, body: &str) -> (r: Result<Option<PaperMetadata>, LinkImportError>)
    ensures
        reply_outcome(r) == json_reply(
            "解析 OpenLibrary 响应失败"@,
            body@,
            |v: JsonModel| isbn_model(isbn@, v),
        ),
{
    match json_body("解析 OpenLibrary 响应失败", body) {
        Ok(v) => Ok(isbn_metadata(isbn, &v)),
        Err(e) => Err(e),
    }
}

/// What a PubMed summary says of the paper with an identifier, next to its abstract: nothing
/// without a title, and an error where the paper is missing from the reply.
pub open spec fn pubmed_model(
    id: Seq<char>,
    abstract_text: Option<Seq<char>>,
    reply: JsonModel,
) -> Result<Option<MetadataModel>, ErrorModel> {
    let doc = under(reply.get("result"@), id);
    if !(doc is Some && doc->0 is Object) {
        Err(link_error("metadata_not_found"@, "PubMed response missing result"@))
    } else {
        match text_of(under(doc, "title"@)) {
            Some(title) => Ok(
                Some(
                    MetadataModel {
                        title,
                        authors: people(NameRule::Name, under(doc, "authors"@)),
                        year: match text_of(under(doc, "pubdate"@)) {
                            Some(date) => if words(date).len() > 0 {
                                year_in(words(date)[0])
                            } else {
                                None
                            },
                            None => None,
                        },
                        journal: text_of(under(doc, "fulljournalname"@)),
                        doi: text_of(under(doc, "elocationid"@)),
                        url: Some("https://pubmed.ncbi.nlm.nih.gov/"@ + id + "/"@),
                        abstract_text,
                        ..no_metadata()
                    },
                ),
            ),
            None => Ok(None),
        }
    }
}

/// What a PubMed summary says of the paper with an identifier, next to its abstract.
pub fn pubmed_metadata(id: &str, abstract_text: Option<String>, reply: &Json) -> (r: Result<
    Option<PaperMetadata>,
    LinkImportError,
>)
    ensures
        reply_outcome(r) == pubmed_model(id@, opt_text(abstract_text), reply@),
{
    let doc = at_key(reply.get("result"), id);
    let found = match doc {
        Some(Json::Object(_)) => true,
        _ => false,
    };
    if !found {
        return Err(
            LinkImportError::new("metadata_not_found", "PubMed response missing result".to_owned()),
        );
    }
    let title = match text_at(at_key(doc, "title")) {
        Some(t) => t,
        None => return Ok(None),
    };
    let mut m = PaperMetadata::default();
    m.title = title;
    m.authors = people_of(NameRule::Name, at_key(doc, "authors"));
    m.year = match text_at(at_key(doc, "pubdate")) {
        Some(date) => {
            let parts = words_of(date.as_str());
            if parts.len() > 0 {
                assert(texts(parts@)[0] == parts@[0]@);
                parse_year(parts[0].as_str())
            } else {
                None
            }
        },
        None => None,
    };
    m.journal = text_at(at_key(doc, "fulljournalname"));
    m.doi = text_at(at_key(doc, "elocationid"));
    m.url = Some(concat3("https://pubmed.ncbi.nlm.nih.gov/", id, "/"));
    m.abstract_text = abstract_text;
    Ok(Some(m))
}

/// Reads the body of a PubMed summary.
pub fn pubmed_reply(id: &str, abstract_text: Option<String>, body: &str) -> (r: Result<
    Option<PaperMetadata>,
    LinkImportError,
>)
    ensures
        reply_outcome(r) == (match json_value(body@) {
            Ok(v) => pubmed_model(id@, opt_text(abstract_text), v),
            Err(e) => Err(link_error("network_error"@, "PubMed JSON: "@ + e)),
        }),
{
    match json_body("PubMed JSON", body) {
        Ok(v) => pubmed_metadata(id, abstract_text, &v),
        Err(e) => {
            proof {
                reveal_strlit("PubMed JSON: ");
                reveal_strlit("PubMed JSON");
                reveal_strlit(": ");
                assert("PubMed JSON"@ + ": "@ =~= "PubMed JSON: "@);
            }
            Err(e)
        },
    }
}

/// The address of the open PDF that an Unpaywall reply names.
pub open spec fn unpaywall_url(reply: JsonModel) -> Option<Seq<char>> {
    text_of(under(reply.get("best_oa_location"@), "url_for_pdf"@))
}

/// Reads the body of an Unpaywall reply: the address of an open PDF.
pub fn unpaywall_reply(body: &str) -> (r: Result<Option<String>, LinkImportError>)
    ensures
        match r {
            Ok(u) => json_value(body@) is Ok && opt_text(u) == unpaywall_url(
                json_value(body@)->Ok_0,
            ),
            Err(e) => json_value(body@) is Err && e@ == link_error(
                "network_error"@,
                "Unpaywall JSON"@ + ": "@ + json_value(body@)->Err_0,
            ),
        },
{
    match json_body("Unpaywall JSON", body) {
        Ok(v) => Ok(text_at(at_key(v.get("best_oa_location"), "url_for_pdf"))),
        Err(e) => Err(e),
    }
}

/// The texts of the `AbstractText` elements, trimmed, without the empty ones, on top of those in
/// `parts`; `open` tells whether one is open, and `current` what it holds so far. An error among the
/// events is the error of the whole.
pub open spec fn abstract_parts(
    events: Seq<EventModel>,
    open: bool,
    current: Seq<char>,
    parts: Seq<Seq<char>>,
) -> Result<Seq<Seq<char>>, Seq<char>>
    decreases events.len(),
{
    if events.len() == 0 {
        Ok(parts)
    } else {
        let rest = events.drop_first();
        let element = vstd::utf8::encode_utf8("AbstractText"@);
        match events[0] {
            EventModel::Start(name, _) => if name == element {
                abstract_parts(rest, true, Seq::empty(), parts)
            } else {
                abstract_parts(rest, open, current, parts)
            },
            EventModel::Text(Some(s)) => if open {
                abstract_parts(rest, open, current + s, parts)
            } else {
                abstract_parts(rest, open, current, parts)
            },
            EventModel::End(name) => if name == element {
                let text = trim(current);
                abstract_parts(
                    rest,
                    false,
                    Seq::empty(),
                    if text.len() > 0 {
                        parts.push(text)
                    } else {
                        parts
                    },
                )
            } else {
                abstract_parts(rest, open, current, parts)
            },
            EventModel::Bad(e) => Err(e),
            _ => abstract_parts(rest, open, current, parts),
        }
    }
}

/// The abstract in the events of a PubMed record: the parts with blanks between.
pub open spec fn pubmed_abstract(events: Seq<EventModel>) -> Result<Seq<char>, ErrorModel> {
    match abstract_parts(events, false, Seq::empty(), Seq::empty()) {
        Ok(parts) => if parts.len() == 0 {
            Err(link_error("metadata_not_found"@, "no abstract found"@))
        } else {
            Ok(join(parts, " "@))
        },
        Err(e) => Err(link_error("metadata_not_found"@, "PubMed XML parse error: "@ + e)),
    }
}

/// The abstract in the events of a PubMed record: the texts of all `AbstractText` elements.
pub fn abstract_in_events(events: &Vec<XmlEvent>) -> (r: Result<String, LinkImportError>)
    ensures
        outcome(r) == pubmed_abstract(event_models(events@)),
{
    let element = "AbstractText".as_bytes();
    let ghost all = event_models(events@);
    let mut open = false;
    let mut current = String::new();
    let mut parts: Vec<String> = Vec::new();
    let mut i: usize = 0;
    assert(texts(parts@) =~= Seq::empty());
    assert(all.skip(0) =~= all);
    while i < events.len()
        invariant
            i <= events.len(),
            all == event_models(events@),
            element@ == vstd::utf8::encode_utf8("AbstractText"@),
            abstract_parts(all, false, Seq::empty(), Seq::empty()) == abstract_parts(
                all.skip(i as int),
                open,
                current@,
                texts(parts@),
            ),
        decreases events.len() - i,
    {
        proof {
            assert(all.skip(i as int).drop_first() =~= all.skip(i + 1));
            assert(all.skip(i as int)[0] == events@[i as int]@);
        }
        match &events[i] {
            XmlEvent::Start(name, _) => {
                if same_bytes(name, element) {
                    open = true;
                    current = String::new();
                }
            },
            XmlEvent::Text(text) => {
                match text {
                    Some(s) => {
                        if open {
                            current.append(s.as_str());
                        }
                    },
                    None => {},
                }
            },
            XmlEvent::End(name) => {
                if same_bytes(name, element) {
                    open = false;
                    let ghost before = texts(parts@);
                    let text = trimmed(current.as_str());
                    if !text.as_str().is_empty() {
                        parts.push(text);
                        assert(texts(parts@) =~= before.push(trim(current@)));
                    }
                    current = String::new();
                }
            },
            XmlEvent::Bad(e) => {
                return Err(
                    LinkImportError::new(
                        "metadata_not_found",
                        concat2("PubMed XML parse error: ", e.as_str()),
                    ),
                );
            },
            _ => {},
        }
        i += 1;
    }
    if parts.len() == 0 {
        return Err(
            LinkImportError::new("metadata_not_found", "no abstract found".to_owned()),
        );
    }
    Ok(join_with(&parts, " "))
}

/// The abstract in a PubMed record: the texts of all `AbstractText` elements.
pub fn parse_pubmed_abstract(xml: &str) -> (r: Result<String, LinkImportError>)
    ensures
        outcome(r) == pubmed_abstract(xml_events(vstd::utf8::encode_utf8(xml@), true)),
{
    abstract_in_events(&read_events(xml.as_bytes(), true))
}

/// What the arXiv service says of a paper.
pub struct ArxivRecord {
    pub arxiv_id: String,
    pub title: String,
    pub authors: Vec<String>,
    pub published: String,
    pub doi: Option<String>,
    pub abstract_text: String,
    pub categories: Vec<String>,
}

/// What an arXiv record says of a paper.
pub open spec fn arxiv_model(p: ArxivRecord) -> MetadataModel {
    MetadataModel {
        title: p.title@,
        authors: texts(p.authors@),
        year: year_in(until(p.published@, "-"@)),
        doi: opt_text(p.doi),
        url: Some("https://arxiv.org/abs/"@ + p.arxiv_id@),
        abstract_text: Some(p.abstract_text@),
        keywords: texts(p.categories@),
        pdf_url: Some("https://arxiv.org/pdf/"@ + p.arxiv_id@ + ".pdf"@),
        ..no_metadata()
    }
}

/// What an arXiv record says of a paper.
pub fn arxiv_metadata(p: ArxivRecord) -> (r: PaperMetadata)
    ensures
        r@ == arxiv_model(p),
{
    let mut m = PaperMetadata::default();
    m.year = parse_year(until_any(p.published.as_str(), "-").as_str());
    m.url = Some(concat2("https://arxiv.org/abs/", p.arxiv_id.as_str()));
    m.pdf_url = Some(concat3("https://arxiv.org/pdf/", p.arxiv_id.as_str(), ".pdf"));
    m.title = p.title;
    m.authors = p.authors;
    m.doi = p.doi;
    m.abstract_text = Some(p.abstract_text);
    m.keywords = p.categories;
    m
}

/// What is said of an arXiv paper while the service does not answer: enough to fetch its PDF.
pub open spec fn arxiv_fallback(id: Seq<char>) -> MetadataModel {
    MetadataModel {
        title: "arXiv: "@ + id,
        url: Some("https://arxiv.org/abs/"@ + id),
        pdf_url: Some("https://arxiv.org/pdf/"@ + id + ".pdf"@),
        ..no_metadata()
    }
}

/// What is said of an arXiv paper while the service does not answer: enough to fetch its PDF.
pub fn arxiv_fallback_metadata(id: &str) -> (r: PaperMetadata)
    ensures
        r@ == arxiv_fallback(id@),
{
    let mut m = PaperMetadata::default();
    m.title = concat2("arXiv: ", id);
    m.url = Some(concat2("https://arxiv.org/abs/", id));
    m.pdf_url = Some(concat3("https://arxiv.org/pdf/", id, ".pdf"));
    m
}

/// What the arXiv service gives for an identifier: a record, nothing, or a failure, for which the
/// sparse record stands in.
pub fn arxiv_reply(id: &str, answer: Result<Option<ArxivRecord>, String>) -> (r: Option<
    PaperMetadata,
>)
    ensures
        opt_metadata(r) == (match answer {
            Ok(Some(p)) => Some(arxiv_model(p)),
            Ok(None) => None,
            Err(_) => Some(arxiv_fallback(id@)),
        }),
{
    match answer {
        Ok(Some(p)) => Some(arxiv_metadata(p)),
        Ok(None) => None,
        Err(_) => Some(arxiv_fallback_metadata(id)),
    }
}

/// A title for a PDF that nothing else is known of: the last part of its address.
pub open spec fn url_title(url: Seq<char>) -> Seq<char> {
    let name = strip_end(last_part(url), ".pdf"@);
    if name.len() > 0 {
        name
    } else {
        "Imported PDF"@
    }
}

/// A title for a PDF that nothing else is known of: the last part of its address.
pub fn title_from_url(url: &str) -> (r: String)
    ensures
        r@ == url_title(url@),
{
    proof {
        reveal_strlit(".pdf");
    }
    let name = stripped_end(until_any(behind_last(url, '/').as_str(), "?#").as_str(), ".pdf");
    if name.as_str().is_empty() {
        "Imported PDF".to_owned()
    } else {
        name
    }
}

// ---------------------------------------------------------------------------------------------
// From a link to metadata
// ---------------------------------------------------------------------------------------------
/// What happens next when the metadata for a DOI are looked up.
pub enum DoiStep {
    /// The lookup is through.
    Done(Result<PaperMetadata, LinkImportError>),
    /// OpenAlex is asked; the failure of CrossRef is kept.
    AskOpenAlex(Option<LinkImportError>),
}

/// What is to be said of a DOI that neither service knows; a network failure is named.
pub open spec fn doi_not_found(doi: Seq<char>, last: Option<Seq<char>>) -> ErrorModel {
    match last {
        Some(e) => link_error(
            "metadata_not_found"@,
            "无法通过 DOI 获取元数据: "@ + doi + " ("@ + e,
        ),
        None => link_error("metadata_not_found"@, "无法通过 DOI 获取元数据: "@ + doi),
    }
}

/// Goes on from what CrossRef gave: what it says is taken, an error other than of the network ends
/// the lookup, and otherwise OpenAlex is asked.
pub fn after_crossref(answer: Result<Option<PaperMetadata>, LinkImportError>) -> (r: DoiStep)
    ensures
        match (answer, r) {
            (Ok(Some(m)), DoiStep::Done(Ok(x))) => x == m,
            (Ok(None), DoiStep::AskOpenAlex(None)) => true,
            (Err(e), DoiStep::Done(Err(x))) => x == e && e.code@ != "network_error"@,
            (Err(e), DoiStep::AskOpenAlex(Some(x))) => x == e && e.code@ == "network_error"@,
            _ => false,
        },
{
    match answer {
        Ok(Some(m)) => DoiStep::Done(Ok(m)),
        Ok(None) => DoiStep::AskOpenAlex(None),
        Err(e) => if same(e.code.as_str(), "network_error") {
            DoiStep::AskOpenAlex(Some(e))
        } else {
            DoiStep::Done(Err(e))
        },
    }
}

/// Ends the lookup with what OpenAlex gave. The later network failure is the one that is named.
pub fn after_openalex(
    doi: &str,
    earlier: Option<LinkImportError>,
    answer: Result<Option<PaperMetadata>, LinkImportError>,
) -> (r: Result<PaperMetadata, LinkImportError>)
    ensures
        match answer {
            Ok(Some(m)) => r == Ok::<PaperMetadata, LinkImportError>(m),
            Ok(None) => outcome(r) == Err::<MetadataModel, ErrorModel>(
                doi_not_found(
                    doi@,
                    match earlier {
                        Some(e) => Some(e.message@),
                        None => None,
                    },
                ),
            ),
            Err(e) => outcome(r) == Err::<MetadataModel, ErrorModel>(
                if e.code@ == "network_error"@ {
                    doi_not_found(doi@, Some(e.message@))
                } else {
                    e@
                },
            ),
        },
{
    let last = match answer {
        Ok(Some(m)) => return Ok(m),
        Ok(None) => earlier,
        Err(e) => {
            if !same(e.code.as_str(), "network_error") {
                return Err(e);
            }
            Some(e)
        },
    };
    let mut message = concat2("无法通过 DOI 获取元数据: ", doi);
    match last {
        Some(e) => {
            message.append(" (");
            message.append(e.message.as_str());
        },
        None => {},
    }
    Err(LinkImportError::new("metadata_not_found", message))
}

/// What is to be said of a link whose service knows nothing.
pub open spec fn not_found(link: LinkModel) -> ErrorModel {
    match link {
        LinkModel::Doi(id) => doi_not_found(id, None),
        LinkModel::Arxiv(id) => link_error("metadata_not_found"@, "无法获取 arXiv 论文: "@ + id),
        LinkModel::PubMed(id) => link_error("metadata_not_found"@, "无法获取 PubMed 论文: "@ + id),
        LinkModel::SemanticScholar(id) => link_error(
            "metadata_not_found"@,
            "无法获取 Semantic Scholar 论文: "@ + id,
        ),
        LinkModel::Isbn(id) => link_error(
            "metadata_not_found"@,
            "无法获取 ISBN "@ + id + " 的图书信息"@,
        ),
        _ => link_error("unsupported_url"@, "不支持的链接格式"@),
    }
}

/// What is to be said of a link whose service knows nothing.
pub fn not_found_error(link: &ParsedLink) -> (r: LinkImportError)
    ensures
        r@ == not_found(link@),
{
    match link {
        ParsedLink::Doi(id) => LinkImportError::new(
            "metadata_not_found",
            concat2("无法通过 DOI 获取元数据: ", id.as_str()),
        ),
        ParsedLink::Arxiv(id) => LinkImportError::new(
            "metadata_not_found",
            concat2("无法获取 arXiv 论文: ", id.as_str()),
        ),
        ParsedLink::PubMed(id) => LinkImportError::new(
            "metadata_not_found",
            concat2("无法获取 PubMed 论文: ", id.as_str()),
        ),
        ParsedLink::SemanticScholar(id) => LinkImportError::new(
            "metadata_not_found",
            concat2("无法获取 Semantic Scholar 论文: ", id.as_str()),
        ),
        ParsedLink::Isbn(id) => LinkImportError::new(
            "metadata_not_found",
            concat3("无法获取 ISBN ", id.as_str(), " 的图书信息"),
        ),
        _ => LinkImportError::new("unsupported_url", "不支持的链接格式".to_owned()),
    }
}

/// The metadata that a link gives once its service has answered: for a direct PDF only its address,
/// and an error where the service knows nothing.
pub open spec fn answered(
    link: LinkModel,
    answer: Result<Option<MetadataModel>, ErrorModel>,
) -> Result<MetadataModel, ErrorModel> {
    match link {
        LinkModel::DirectPdf(url) => Ok(
            MetadataModel { url: Some(url), pdf_url: Some(url), ..no_metadata() },
        ),
        LinkModel::Unsupported => Err(not_found(link)),
        _ => match answer {
            Ok(Some(m)) => Ok(m),
            Ok(None) => Err(not_found(link)),
            Err(e) => Err(e),
        },
    }
}

/// The metadata that a link gives once its service has answered.
pub fn metadata_from_answer(
    link: &ParsedLink,
    answer: Result<Option<PaperMetadata>, LinkImportError>,
) -> (r: Result<PaperMetadata, LinkImportError>)
    ensures
        outcome(r) == answered(link@, reply_outcome(answer)),
{
    match link {
        ParsedLink::DirectPdf(url) => {
            let mut m = PaperMetadata::default();
            m.url = Some(url.clone());
            m.pdf_url = Some(url.clone());
            Ok(m)
        },
        ParsedLink::Unsupported => Err(not_found_error(link)),
        _ => match answer {
            Ok(Some(m)) => Ok(m),
            Ok(None) => Err(not_found_error(link)),
            Err(e) => Err(e),
        },
    }
}

// ---------------------------------------------------------------------------------------------
// Requests
// ---------------------------------------------------------------------------------------------
/// A service that is asked about a work.
#[derive(Clone, Copy, PartialEq, Eq, Structural)]
pub enum Service {
    CrossRef,
    OpenAlex,
    PubMedSummary,
    PubMedAbstract,
    SemanticScholar,
    OpenLibrary,
    Unpaywall,
}

/// The address at which a service is asked about a work.
pub open spec fn request_address(service: Service, id: Seq<char>) -> Seq<char> {
    match service {
        Service::CrossRef => "https://api.crossref.org/works/"@ + id,
        Service::OpenAlex => "https://api.openalex.org/works/doi:"@ + id,
        Service::PubMedSummary => "https://eutils.ncbi.nlm.nih.gov/entrez/eutils/esummary.fcgi?db=pubmed&id="@ + id + "&retmode=json"@,
        Service::PubMedAbstract => "https://eutils.ncbi.nlm.nih.gov/entrez/eutils/efetch.fcgi?db=pubmed&id="@ + id + "&rettype=abstract"@,
        Service::SemanticScholar => "https://api.semanticscholar.org/graph/v1/paper/"@ + id + "?fields=title,authors,year,venue,doi,abstract,openAccessPdf"@,
        Service::OpenLibrary => "https://openlibrary.org/api/books?bibkeys=ISBN:"@ + id + "&format=json&jscmd=data"@,
        Service::Unpaywall => "https://api.unpaywall.org/v2/"@ + id + "?email=siku@example.com"@,
    }
}

/// The address at which a service is asked about a work.
pub fn service_url(service: Service, id: &str) -> (r: String)
    ensures
        r@ == request_address(service, id@),
{
    match service {
        Service::CrossRef => concat2("https://api.crossref.org/works/", id),
        Service::OpenAlex => concat2("https://api.openalex.org/works/doi:", id),
        Service::PubMedSummary => concat3("https://eutils.ncbi.nlm.nih.gov/entrez/eutils/esummary.fcgi?db=pubmed&id=", id, "&retmode=json"),
        Service::PubMedAbstract => concat3("https://eutils.ncbi.nlm.nih.gov/entrez/eutils/efetch.fcgi?db=pubmed&id=", id, "&rettype=abstract"),
        Service::SemanticScholar => concat3("https://api.semanticscholar.org/graph/v1/paper/", id, "?fields=title,authors,year,venue,doi,abstract,openAccessPdf"),
        Service::OpenLibrary => concat3("https://openlibrary.org/api/books?bibkeys=ISBN:", id, "&format=json&jscmd=data"),
        Service::Unpaywall => concat3("https://api.unpaywall.org/v2/", id, "?email=siku@example.com"),
    }
}

/// The first of two settings that is not blank, trimmed.
pub open spec fn chosen_proxy(network: Option<Seq<char>>, llm: Option<Seq<char>>) -> Option<
    Seq<char>,
> {
    if network is Some && trim(network->0).len() > 0 {
        Some(trim(network->0))
    } else if llm is Some && trim(llm->0).len() > 0 {
        Some(trim(llm->0))
    } else {
        None
    }
}

/// The proxy that requests go through: the one for the network, else the one for language models.
pub fn get_proxy(network: &Option<String>, llm: &Option<String>) -> (r: Option<String>)
    ensures
        opt_text(r) == chosen_proxy(opt_text(*network), opt_text(*llm)),
{
    if let Some(p) = network {
        let p = trimmed(p.as_str());
        if !p.as_str().is_empty() {
            return Some(p);
        }
    }
    if let Some(p) = llm {
        let p = trimmed(p.as_str());
        if !p.as_str().is_empty() {
            return Some(p);
        }
    }
    None
}

// ---------------------------------------------------------------------------------------------
// Downloads
// ---------------------------------------------------------------------------------------------
/// How far the attempts to download a PDF have come: how many were made, whether the last ones
/// asked for the plain body, and how the last one failed.
pub struct Download {
    pub attempts: u32,
    pub identity: bool,
    pub last: String,
}

/// What happens next in a download.
pub enum DownloadStep {
    /// Wait so many seconds, then try, with or without compression.
    Try(u64, bool),
    /// Give up with the error.
    GiveUp(LinkImportError),
}

/// What happens next in a download: the seconds to wait and whether to ask for the plain body, or
/// the error.
pub enum StepModel {
    Try(int, bool),
    GiveUp(ErrorModel),
}

impl View for DownloadStep {
    type V = StepModel;

    open spec fn view(&self) -> StepModel {
        match self {
            DownloadStep::Try(wait, identity) => StepModel::Try(*wait as int, *identity),
            DownloadStep::GiveUp(e) => StepModel::GiveUp(e@),
        }
    }
}

/// The error of a download that is given up.
pub open spec fn download_error(last: Seq<char>) -> ErrorModel {
    link_error("download_failed"@, "PDF 下载失败（已重试）: "@ + last)
}

/// The message that is kept of a failure: without compression it is added to the earlier one.
pub open spec fn kept_message(identity: bool, last: Seq<char>, message: Seq<char>) -> Seq<char> {
    if identity {
        last + "（无压缩回退失败："@ + message + "）"@
    } else {
        message
    }
}

/// What follows a failure: up to three attempts with growing pauses, then, if the body could not
/// be decoded, two attempts without compression.
pub open spec fn after_failure(attempts: int, identity: bool, last: Seq<char>) -> StepModel {
    if !identity && attempts < 3 {
        StepModel::Try(2 * attempts, false)
    } else if !identity && contains(last, "decoding"@) {
        StepModel::Try(0, true)
    } else if identity && attempts < 2 {
        StepModel::Try(4, true)
    } else {
        StepModel::GiveUp(download_error(last))
    }
}

impl Download {
    /// No attempt has been made. The first one is made at once, with compression.
    pub fn new() -> (r: Download)
        ensures
            r.attempts == 0 && !r.identity && r.last@ == "unknown error"@,
    {
        Download { attempts: 0, identity: false, last: "unknown error".to_owned() }
    }

    /// Notes a failed attempt and tells what follows.
    pub fn failed(&mut self, error: &LinkImportError) -> (r: DownloadStep)
        requires
            old(self).attempts < 3,
        ensures
            final(self).last@ == kept_message(
                old(self).identity,
                old(self).last@,
                error.message@,
            ),
            r@ == after_failure(old(self).attempts + 1, old(self).identity, final(self).last@),
            r is Try ==> final(self).attempts < 3,
            r is Try && r->Try_1 == old(self).identity ==> final(self).attempts == old(
                self,
            ).attempts + 1 && final(self).identity == old(self).identity,
            r is Try && r->Try_1 != old(self).identity ==> final(self).attempts == 0
                && final(self).identity,
    {
        self.attempts = self.attempts + 1;
        if self.identity {
            self.last.append("（无压缩回退失败：");
            self.last.append(error.message.as_str());
            self.last.append("）");
        } else {
            self.last = error.message.clone();
        }
        if !self.identity && self.attempts < 3 {
            return DownloadStep::Try(2 * self.attempts as u64, false);
        }
        if !self.identity && has_text(self.last.as_str(), "decoding") {
            self.identity = true;
            self.attempts = 0;
            return DownloadStep::Try(0, true);
        }
        if self.identity && self.attempts < 2 {
            return DownloadStep::Try(4, true);
        }
        DownloadStep::GiveUp(
            LinkImportError::new(
                "download_failed",
                concat2("PDF 下载失败（已重试）: ", self.last.as_str()),
            ),
        )
    }
}

/// How many attempts may still follow.
pub open spec fn attempts_left(attempts: int, identity: bool) -> int {
    if identity {
        2 - attempts
    } else {
        5 - attempts
    }
}

/// Every failure uses up an attempt, so that a download ends after at most five.
pub proof fn law_download_ends(attempts: int, identity: bool, last: Seq<char>)
    requires
        0 <= attempts < (if identity {
            2int
        } else {
            3
        }),
    ensures
        match after_failure(attempts + 1, identity, last) {
            StepModel::Try(_, next) => {
                let made = if next == identity {
                    attempts + 1
                } else {
                    0
                };
                0 <= attempts_left(made, next) < attempts_left(attempts, identity)
            },
            StepModel::GiveUp(_) => true,
        },
{
}

/// What has come of a body so far.
pub struct Body {
    pub total: usize,
    pub started: bool,
}

/// What is made of a chunk.
pub enum ChunkVerdict {
    /// It is written.
    Write,
    /// The body does not start as a PDF does.
    NotPdf,
    /// The body is too large; what was written goes.
    TooLarge(LinkImportError),
}

/// Whether bytes start as a PDF does.
pub open spec fn starts_like_pdf(chunk: Seq<u8>) -> bool {
    chunk.len() >= 4 && chunk[0] == 37 && chunk[1] == 80 && chunk[2] == 68 && chunk[3] == 70
}

impl Body {
    /// Nothing has come yet.
    pub fn new() -> (r: Body)
        ensures
            r.total == 0 && !r.started,
    {
        Body { total: 0, started: false }
    }

    /// Whether a body is within the limit.
    pub open spec fn wf(&self) -> bool {
        self.total <= MAX_PDF_BYTES
    }

    /// Takes a chunk in: the first one has to start with `%PDF`, and all of them together may not
    /// be larger than a PDF may be.
    pub fn take(&mut self, chunk: &[u8]) -> (r: ChunkVerdict)
        requires
            old(self).wf(),
        ensures
            !old(self).started && !starts_like_pdf(chunk@) ==> r is NotPdf && *final(self) == *old(
                self,
            ),
            (old(self).started || starts_like_pdf(chunk@)) ==> final(self).started && if old(
                self,
            ).total + chunk.len() > MAX_PDF_BYTES {
                r is TooLarge && r->TooLarge_0@ == link_error(
                    "download_failed"@,
                    "PDF 超过大小上限 200MB"@,
                )
            } else {
                r is Write && final(self).wf() && final(self).total == old(self).total
                    + chunk.len()
            },
    {
        if !self.started {
            if !(chunk.len() >= 4 && chunk[0] == 37 && chunk[1] == 80 && chunk[2] == 68 && chunk[3]
                == 70) {
                return ChunkVerdict::NotPdf;
            }
            self.started = true;
        }
        if chunk.len() > MAX_PDF_BYTES - self.total {
            return ChunkVerdict::TooLarge(
                LinkImportError::new("download_failed", "PDF 超过大小上限 200MB".to_owned()),
            );
        }
        self.total = self.total + chunk.len();
        ChunkVerdict::Write
    }

    /// Ends the body: an empty one is an error.
    pub fn finish(&self) -> (r: Result<(), LinkImportError>)
        ensures
            self.started ==> r is Ok,
            !self.started ==> r is Err && r->Err_0@ == link_error(
                "download_failed"@,
                "PDF 内容为空"@,
            ),
    {
        if self.started {
            Ok(())
        } else {
            Err(LinkImportError::new("download_failed", "PDF 内容为空".to_owned()))
        }
    }
}

/// The error for a body that is no PDF: the reply's status, type and address, and how it begins.
pub fn not_pdf_error(status: &str, content_type: &str, final_url: &str, preview: &str) -> (r:
    LinkImportError)
    ensures
        r@ == link_error(
            "download_failed"@,
            "下载内容不是 PDF（status="@ + status@ + "，content-type="@ + content_type@
                + "，最终 URL="@ + final_url@ + "，前 120 字节："@ + preview@ + "）"@,
        ),
{
    let mut m = concat3("下载内容不是 PDF（status=", status, "，content-type=");
    m.append(content_type);
    m.append("，最终 URL=");
    m.append(final_url);
    m.append("，前 120 字节：");
    m.append(preview);
    m.append("）");
    LinkImportError::new("download_failed", m)
}

// ---------------------------------------------------------------------------------------------
// Importing
// ---------------------------------------------------------------------------------------------
/// Metadata that have a title and an address: those of the link where none are said.
pub open spec fn completed(m: MetadataModel, url: Seq<char>) -> MetadataModel {
    MetadataModel {
        title: if m.title.len() == 0 {
            url_title(url)
        } else {
            m.title
        },
        url: if m.url is None {
            Some(url)
        } else {
            m.url
        },
        ..m
    }
}

/// Gives metadata a title and an address: those of the link where none are said.
pub fn complete_metadata(m: PaperMetadata, url: &str) -> (r: PaperMetadata)
    ensures
        r@ == completed(m@, url@),
{
    let mut m = m;
    if m.title.as_str().is_empty() {
        m.title = title_from_url(url);
    }
    if m.url.is_none() {
        m.url = Some(url.to_owned());
    }
    m
}

/// Where a PDF is to be had: at the address that is said, else where an open copy of the work with
/// the DOI is looked up.
pub enum PdfSource {
    Known(String),
    AskUnpaywall(String),
    Nowhere,
}

/// Where a PDF is to be had.
pub fn resolve_pdf_url(m: &PaperMetadata) -> (r: PdfSource)
    ensures
        match r {
            PdfSource::Known(u) => m@.pdf_url == Some(u@),
            PdfSource::AskUnpaywall(d) => m@.pdf_url is None && m@.doi == Some(d@),
            PdfSource::Nowhere => m@.pdf_url is None && m@.doi is None,
        },
{
    match &m.pdf_url {
        Some(u) => PdfSource::Known(u.clone()),
        None => match &m.doi {
            Some(d) => PdfSource::AskUnpaywall(d.clone()),
            None => PdfSource::Nowhere,
        },
    }
}

/// Metadata with their gaps filled by what the PDF says of itself. The title of a direct PDF is the
/// one that the PDF gives.
pub open spec fn with_pdf_info(m: MetadataModel, direct: bool, info: PdfInfo) -> MetadataModel {
    MetadataModel {
        title: if (direct || m.title.len() == 0) && info.title is Some {
            info.title->0@
        } else {
            m.title
        },
        authors: if m.authors.len() == 0 {
            texts(info.authors@)
        } else {
            m.authors
        },
        abstract_text: if m.abstract_text is None {
            opt_text(info.subject)
        } else {
            m.abstract_text
        },
        keywords: if m.keywords.len() == 0 {
            texts(info.keywords@)
        } else {
            m.keywords
        },
        page_count: if m.page_count is None {
            counted_pages(info.page_count as int)
        } else {
            m.page_count
        },
        ..m
    }
}

/// Fills the gaps of metadata with what the PDF says of itself.
pub fn enrich_from_pdf(m: PaperMetadata, link: &ParsedLink, info: PdfInfo) -> (r: PaperMetadata)
    ensures
        r@ == with_pdf_info(m@, link@ is DirectPdf, info),
{
    let mut m = m;
    let direct = match link {
        ParsedLink::DirectPdf(_) => true,
        _ => false,
    };
    if direct || m.title.as_str().is_empty() {
        match info.title {
            Some(t) => {
                m.title = t;
            },
            None => {},
        }
    }
    if m.authors.len() == 0 {
        m.authors = info.authors;
    }
    if m.abstract_text.is_none() {
        m.abstract_text = info.subject;
    }
    if m.keywords.len() == 0 {
        m.keywords = info.keywords;
    }
    if m.page_count.is_none() {
        m.page_count = page_count_of(info.page_count);
    }
    m
}

/// What the user is warned of: that the PDF could not be downloaded, or that only a sparse record
/// of an arXiv paper was to be had.
pub open spec fn warning(
    link: LinkModel,
    m: MetadataModel,
    download_error: Option<Seq<char>>,
) -> Option<Seq<char>> {
    match download_error {
        Some(e) => Some("PDF 下载失败，已仅导入元数据："@ + e),
        None => if link is Arxiv && starts_with(m.title, "arXiv: "@) && m.authors.len() == 0 {
            Some(
                "arXiv 元数据接口暂时不可用，已直接下载 PDF；可在导入后通过「富化元数据」补齐信息。"@,
            )
        } else {
            None
        },
    }
}

/// What the user is warned of once a paper is imported.
pub fn import_warning(link: &ParsedLink, m: &PaperMetadata, download_error: &Option<String>) -> (r:
    Option<String>)
    ensures
        opt_text(r) == warning(link@, m@, opt_text(*download_error)),
{
    match download_error {
        Some(e) => Some(concat2("PDF 下载失败，已仅导入元数据：", e.as_str())),
        None => {
            let arxiv = match link {
                ParsedLink::Arxiv(_) => true,
                _ => false,
            };
            if arxiv && has_prefix(m.title.as_str(), "arXiv: ") && m.authors.len() == 0 {
                Some(
                    "arXiv 元数据接口暂时不可用，已直接下载 PDF；可在导入后通过「富化元数据」补齐信息。".to_owned(),
                )
            } else {
                None
            }
        },
    }
}

/// What is stored of a paper from a link, next to its PDF where there is one.
pub open spec fn link_record(
    m: MetadataModel,
    file_path: Option<Seq<char>>,
    file_size: Option<i64>,
) -> ImportModel {
    ImportModel {
        title: m.title,
        authors: m.authors,
        year: m.year,
        journal: m.journal,
        doi: m.doi,
        url: m.url,
        abstract_text: m.abstract_text,
        keywords: m.keywords,
        file_path,
        file_size,
        page_count: m.page_count,
        language: None,
        isbn: m.isbn,
    }
}

/// What is stored of a paper from a link, next to its PDF where there is one.
pub fn import_metadata(m: PaperMetadata, file_path: Option<String>, file_size: Option<i64>) -> (r:
    ImportMetadata)
    ensures
        r@ == link_record(m@, opt_text(file_path), file_size),
{
    ImportMetadata {
        title: m.title,
        authors: m.authors,
        year: m.year,
        journal: m.journal,
        doi: m.doi,
        url: m.url,
        abstract_text: m.abstract_text,
        keywords: m.keywords,
        file_path,
        file_size,
        page_count: m.page_count,
        language: None,
        isbn: m.isbn,
    }
}

/// What an import from a link has ahead of it once the link is read and, where it was not handed
/// in, looked up: the paper's metadata, or the error.
pub open spec fn prepared(
    url: Seq<char>,
    preview: Option<MetadataModel>,
    answer: Result<Option<MetadataModel>, ErrorModel>,
) -> Result<MetadataModel, ErrorModel> {
    if link_of(url) is Unsupported {
        Err(link_error("unsupported_url"@, "不支持的链接格式"@))
    } else {
        match preview {
            Some(m) => Ok(completed(m, url)),
            None => match answered(link_of(url), answer) {
                Ok(m) => Ok(completed(m, url)),
                Err(e) => Err(e),
            },
        }
    }
}

/// Prepares an import from a link: metadata that the user has seen are taken as they are, else
/// what the service answered counts.
pub fn prepare_import(
    url: &str,
    preview: Option<PaperMetadata>,
    answer: Result<Option<PaperMetadata>, LinkImportError>,
) -> (r: Result<PaperMetadata, LinkImportError>)
    ensures
        outcome(r) == prepared(url@, opt_metadata(preview), reply_outcome(answer)),
{
    let link = parse_link(url);
    match &link {
        ParsedLink::Unsupported => {
            return Err(LinkImportError::new("unsupported_url", "不支持的链接格式".to_owned()));
        },
        _ => {},
    }
    match preview {
        Some(m) => Ok(complete_metadata(m, url)),
        None => match metadata_from_answer(&link, answer) {
            Ok(m) => Ok(complete_metadata(m, url)),
            Err(e) => Err(e),
        },
    }
}

/// What is known of the paper behind a link, and where its PDF is likely to be, or the error.
pub open spec fn resolved_link(
    url: Seq<char>,
    answer: Result<Option<MetadataModel>, ErrorModel>,
    unpaywall: Result<Option<Seq<char>>, ErrorModel>,
) -> Result<MetadataModel, ErrorModel> {
    match prepared(url, None, answer) {
        Ok(m) => if m.pdf_url is None && m.doi is Some {
            match unpaywall {
                Ok(u) => Ok(MetadataModel { pdf_url: u, ..m }),
                Err(e) => Err(e),
            }
        } else {
            Ok(m)
        },
        Err(e) => Err(e),
    }
}

/// What Unpaywall gives: an address, nothing, or an error.
pub open spec fn address_outcome(r: Result<Option<String>, LinkImportError>) -> Result<
    Option<Seq<char>>,
    ErrorModel,
> {
    match r {
        Ok(u) => Ok(opt_text(u)),
        Err(e) => Err(e@),
    }
}

/// Looks a link up without importing anything. `answer` is what the service for the link says, and
/// `unpaywall` what Unpaywall says of the DOI, where it is asked.
pub fn resolve_paper_link(
    url: &str,
    answer: Result<Option<PaperMetadata>, LinkImportError>,
    unpaywall: Result<Option<String>, LinkImportError>,
) -> (r: Result<PaperMetadata, LinkImportError>)
    ensures
        outcome(r) == resolved_link(url@, reply_outcome(answer), address_outcome(unpaywall)),
{
    match prepare_import(url, None, answer) {
        Ok(mut m) => {
            if m.pdf_url.is_none() && m.doi.is_some() {
                match unpaywall {
                    Ok(u) => {
                        m.pdf_url = u;
                        Ok(m)
                    },
                    Err(e) => Err(e),
                }
            } else {
                Ok(m)
            }
        },
        Err(e) => Err(e),
    }
}

} // verus!
