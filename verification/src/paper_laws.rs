//! What is known of a paper is kept wherever its record is made, changed or completed, and every
//! duplicate of a paper is found.
use vstd::prelude::*;
use vstd::string::*;

use crate::citation_export::names_in;
use crate::models::{Paper, PaperInput};
use crate::paper_rows::{file_of_paper, is_updated, unused_file};
use crate::paper_service::{
    alike_papers, duplicates, file_record, first_similar, is_enriched, is_new_paper, letters_end,
    letters_start, names_with_role, normal_title, shared, title_tokens, tokens_from, trim_blanks,
    CreatorModel, ImportModel, Likeness, PdfInfo, Work,
};
use crate::text::{alphanumeric, byte_len, char_lowercase, holds, lower, opt_text, texts, trim};

verus! {

// ---------------------------------------------------------------------------------------------
// Records
// ---------------------------------------------------------------------------------------------
/// A change writes all that is said, keeps all that is not said, and leaves alone what a caller cannot
/// say.
pub proof fn law_update_writes_what_is_said(p: Paper, i: PaperInput, now: Seq<char>, r: Paper)
    requires
        is_updated(p, i, now, r),
    ensures
        r.id@ == p.id@,
        r.title@ == i.title@,
        names_in(r.authors@) == texts(i.authors@),
        names_in(r.keywords@) == texts(i.keywords@),
        names_in(r.editor@) == texts(i.editor@),
        i.year is Some ==> r.year == i.year,
        i.year is None ==> r.year == p.year,
        i.num_pages is Some ==> r.num_pages == i.num_pages,
        i.num_pages is None ==> r.num_pages == p.num_pages,
        i.journal is Some ==> opt_text(r.journal) == Some(i.journal->0@),
        i.journal is None ==> opt_text(r.journal) == opt_text(p.journal),
        i.doi is Some ==> opt_text(r.doi) == Some(i.doi->0@),
        i.doi is None ==> opt_text(r.doi) == opt_text(p.doi),
        i.url is Some ==> opt_text(r.url) == Some(i.url->0@),
        i.url is None ==> opt_text(r.url) == opt_text(p.url),
        i.abstract_text is Some ==> opt_text(r.abstract_text) == Some(i.abstract_text->0@),
        i.abstract_text is None ==> opt_text(r.abstract_text) == opt_text(p.abstract_text),
        i.item_type is Some ==> opt_text(r.item_type) == Some(i.item_type->0@),
        i.item_type is None ==> opt_text(r.item_type) == opt_text(p.item_type),
        i.volume is Some ==> opt_text(r.volume) == Some(i.volume->0@),
        i.volume is None ==> opt_text(r.volume) == opt_text(p.volume),
        i.issue is Some ==> opt_text(r.issue) == Some(i.issue->0@),
        i.issue is None ==> opt_text(r.issue) == opt_text(p.issue),
        i.pages is Some ==> opt_text(r.pages) == Some(i.pages->0@),
        i.pages is None ==> opt_text(r.pages) == opt_text(p.pages),
        i.conference_name is Some ==> opt_text(r.conference_name) == Some(i.conference_name->0@),
        i.conference_name is None ==> opt_text(r.conference_name) == opt_text(p.conference_name),
        i.publisher is Some ==> opt_text(r.publisher) == Some(i.publisher->0@),
        i.publisher is None ==> opt_text(r.publisher) == opt_text(p.publisher),
        i.place is Some ==> opt_text(r.place) == Some(i.place->0@),
        i.place is None ==> opt_text(r.place) == opt_text(p.place),
        i.series is Some ==> opt_text(r.series) == Some(i.series->0@),
        i.series is None ==> opt_text(r.series) == opt_text(p.series),
        i.edition is Some ==> opt_text(r.edition) == Some(i.edition->0@),
        i.edition is None ==> opt_text(r.edition) == opt_text(p.edition),
        i.isbn is Some ==> opt_text(r.isbn) == Some(i.isbn->0@),
        i.isbn is None ==> opt_text(r.isbn) == opt_text(p.isbn),
        i.issn is Some ==> opt_text(r.issn) == Some(i.issn->0@),
        i.issn is None ==> opt_text(r.issn) == opt_text(p.issn),
        i.language is Some ==> opt_text(r.language) == Some(i.language->0@),
        i.language is None ==> opt_text(r.language) == opt_text(p.language),
        i.archive_location is Some ==> opt_text(r.archive_location) == Some(i.archive_location->0@),
        i.archive_location is None ==> opt_text(r.archive_location) == opt_text(p.archive_location),
        i.call_number is Some ==> opt_text(r.call_number) == Some(i.call_number->0@),
        i.call_number is None ==> opt_text(r.call_number) == opt_text(p.call_number),
        i.rights is Some ==> opt_text(r.rights) == Some(i.rights->0@),
        i.rights is None ==> opt_text(r.rights) == opt_text(p.rights),
        r.updated_at@ == now,
        opt_text(r.citation_key) == opt_text(p.citation_key),
        opt_text(r.bibtex) == opt_text(p.bibtex),
        opt_text(r.file_path) == opt_text(p.file_path),
        r.file_size == p.file_size,
        r.page_count == p.page_count,
        opt_text(r.deleted_at) == opt_text(p.deleted_at),
        r.is_favorite == p.is_favorite,
        r.read_status@ == p.read_status@,
        opt_text(r.last_read_at) == opt_text(p.last_read_at),
        r.created_at@ == p.created_at@,
        r.imported_at@ == p.imported_at@,
{
}

/// Enrichment fills every gap of a paper that the work can fill, and hands on all that the paper says.
pub proof fn law_enrichment_fills_every_gap(p: Paper, w: Work, r: PaperInput)
    requires
        is_enriched(p, w, r),
    ensures
        r.title@ == p.title@,
        p.year is None ==> r.year == w.year,
        p.year is Some ==> r.year == p.year,
        names_in(p.authors@).len() == 0 && w.authors is Some ==> texts(r.authors@) == texts(
            w.authors->0@,
        ),
        names_in(p.authors@).len() > 0 ==> texts(r.authors@) == names_in(p.authors@),
        texts(r.keywords@) == names_in(p.keywords@),
        texts(r.editor@) == names_in(p.editor@),
        r.num_pages == p.num_pages,
        p.journal is None ==> opt_text(r.journal) == opt_text(w.journal),
        p.journal is Some ==> opt_text(r.journal) == opt_text(p.journal),
        p.doi is None ==> opt_text(r.doi) == opt_text(w.doi),
        p.doi is Some ==> opt_text(r.doi) == opt_text(p.doi),
        p.url is None ==> opt_text(r.url) == opt_text(w.url),
        p.url is Some ==> opt_text(r.url) == opt_text(p.url),
        p.abstract_text is None ==> opt_text(r.abstract_text) == opt_text(w.abstract_text),
        p.abstract_text is Some ==> opt_text(r.abstract_text) == opt_text(p.abstract_text),
        p.volume is None ==> opt_text(r.volume) == opt_text(w.volume),
        p.volume is Some ==> opt_text(r.volume) == opt_text(p.volume),
        p.issue is None ==> opt_text(r.issue) == opt_text(w.issue),
        p.issue is Some ==> opt_text(r.issue) == opt_text(p.issue),
        p.pages is None ==> opt_text(r.pages) == opt_text(w.pages),
        p.pages is Some ==> opt_text(r.pages) == opt_text(p.pages),
        p.publisher is None ==> opt_text(r.publisher) == opt_text(w.publisher),
        p.publisher is Some ==> opt_text(r.publisher) == opt_text(p.publisher),
        p.issn is None ==> opt_text(r.issn) == opt_text(w.issn),
        p.issn is Some ==> opt_text(r.issn) == opt_text(p.issn),
        opt_text(r.item_type) == opt_text(p.item_type),
        opt_text(r.conference_name) == opt_text(p.conference_name),
        opt_text(r.place) == opt_text(p.place),
        opt_text(r.series) == opt_text(p.series),
        opt_text(r.edition) == opt_text(p.edition),
        opt_text(r.isbn) == opt_text(p.isbn),
        opt_text(r.language) == opt_text(p.language),
        opt_text(r.archive_location) == opt_text(p.archive_location),
        opt_text(r.call_number) == opt_text(p.call_number),
        opt_text(r.rights) == opt_text(p.rights),
{
}

/// The record of an import holds all that is known of what was imported; without a language it is
/// English, and it is a journal article that nobody has read.
pub proof fn law_import_keeps_every_field(id: Seq<char>, m: ImportModel, now: Seq<char>, r: Paper)
    requires
        is_new_paper(id, m, now, r),
    ensures
        r.id@ == id,
        r.title@ == m.title,
        names_in(r.authors@) == m.authors,
        names_in(r.keywords@) == m.keywords,
        r.year == m.year,
        opt_text(r.journal) == m.journal,
        opt_text(r.doi) == m.doi,
        opt_text(r.url) == m.url,
        opt_text(r.abstract_text) == m.abstract_text,
        opt_text(r.file_path) == m.file_path,
        r.file_size == m.file_size,
        r.page_count == m.page_count,
        opt_text(r.isbn) == m.isbn,
        m.language is Some ==> opt_text(r.language) == m.language,
        m.language is None ==> opt_text(r.language) == Some("en"@),
        opt_text(r.item_type) == Some("journal"@),
        r.read_status@ == "unread"@,
        r.is_favorite == 0,
        r.deleted_at is None,
        r.last_read_at is None,
        r.created_at@ == now,
        r.updated_at@ == now,
        r.imported_at@ == now,
{
}

/// The record of an imported file holds the file, its size, and all that could be read in it: the title
/// that it gives itself, its authors, its subject, its keywords and its pages.
pub proof fn law_file_record_keeps_what_was_read(
    file_name: Seq<char>,
    i: PdfInfo,
    blob_path: Seq<char>,
    file_size: i64,
)
    ensures
        ({
            let m = file_record(file_name, Some(i), blob_path, file_size);
            &&& m.file_path == Some(blob_path)
            &&& m.file_size == Some(file_size)
            &&& i.title is Some ==> m.title == i.title->0@
            &&& m.authors == texts(i.authors@)
            &&& m.keywords == texts(i.keywords@)
            &&& m.abstract_text == opt_text(i.subject)
            &&& 0 < i.page_count <= i32::MAX ==> m.page_count == Some(i.page_count as i32)
            &&& i.page_count <= 0 ==> m.page_count is None
        }),
        ({
            let m = file_record(file_name, None, blob_path, file_size);
            &&& m.file_path == Some(blob_path)
            &&& m.file_size == Some(file_size)
            &&& m.page_count is None
        }),
{
}

/// A stored file is handed back to be deleted just where its paper is gone and nothing left uses it.
pub proof fn law_used_file_is_not_deleted(
    gone: Paper,
    left: Seq<Paper>,
    attached: Seq<Seq<char>>,
    k: int,
)
    ensures
        gone.file_path is None ==> unused_file(gone, left, attached) is None,
        gone.file_path is Some && 0 <= k < left.len() && left[k].file_path is Some
            && left[k].file_path->0@ == gone.file_path->0@ ==> unused_file(
            gone,
            left,
            attached,
        ) is None,
        gone.file_path is Some && holds(attached, gone.file_path->0@) ==> unused_file(
            gone,
            left,
            attached,
        ) is None,
        gone.file_path is Some && !holds(attached, gone.file_path->0@) && (forall|j: int|
            0 <= j < left.len() ==> opt_text((#[trigger] left[j]).file_path) != opt_text(
                gone.file_path,
            )) ==> unused_file(gone, left, attached) == opt_text(gone.file_path),
{
    if gone.file_path is Some {
        let path = gone.file_path->0@;
        if file_of_paper(left, path) {
            let j = choose|j: int|
                0 <= j < left.len() && opt_text((#[trigger] left[j]).file_path) == Some(path);
        }
        if 0 <= k < left.len() && left[k].file_path is Some && left[k].file_path->0@ == path {
            assert(opt_text(left[k].file_path) == Some(path));
            assert(file_of_paper(left, path));
        }
    }
}

// ---------------------------------------------------------------------------------------------
// Duplicates
// ---------------------------------------------------------------------------------------------
/// The titles of two texts, one behind the other, are compared by the letters of both, and a sign that
/// is neither a letter nor a digit does not count.
pub proof fn law_only_letters_of_a_title_count(a: Seq<char>, c: char, b: Seq<char>)
    ensures
        normal_title(a + b) == normal_title(a) + normal_title(b),
        alphanumeric(c) ==> normal_title(seq![c]) == char_lowercase(c),
        !alphanumeric(c) ==> normal_title(a + seq![c] + b) == normal_title(a + b),
{
    lemma_normal_title(a, b);
    let none = Seq::<char>::empty();
    assert(normal_title(none) =~= none);
    assert(seq![c].drop_last() =~= none);
    assert(seq![c].last() == c);
    assert(none + char_lowercase(c) =~= char_lowercase(c));
    if !alphanumeric(c) {
        lemma_normal_title(a + seq![c], b);
        lemma_normal_title(a, seq![c]);
        assert(normal_title(a) + none =~= normal_title(a));
    }
}

proof fn lemma_normal_title(a: Seq<char>, b: Seq<char>)
    ensures
        normal_title(a + b) == normal_title(a) + normal_title(b),
    decreases b.len(),
{
    if b.len() == 0 {
        assert(a + b =~= a);
        assert(normal_title(a) + normal_title(b) =~= normal_title(a));
    } else {
        lemma_normal_title(a, b.drop_last());
        assert((a + b).drop_last() =~= a + b.drop_last());
        assert((a + b).last() == b.last());
        assert(normal_title(a) + (normal_title(b.drop_last()) + char_lowercase(b.last()))
            =~= normal_title(a) + normal_title(b.drop_last()) + char_lowercase(b.last()));
    }
}

/// Blanks around a text go, and nothing else.
pub proof fn law_blanks_around_go(before: nat, s: Seq<char>, behind: nat)
    requires
        s.len() > 0 ==> s[0] != ' ' && s.last() != ' ',
    ensures
        trim_blanks(Seq::new(before, |i: int| ' ') + s + Seq::new(behind, |i: int| ' ')) == s,
    decreases before + behind,
{
    let a = Seq::new(before, |i: int| ' ');
    let b = Seq::new(behind, |i: int| ' ');
    let all = a + s + b;
    if before > 0 {
        let shorter = Seq::new((before - 1) as nat, |i: int| ' ');
        assert(all[0] == a[0]);
        assert(all.skip(1) =~= shorter + s + b);
        law_blanks_around_go((before - 1) as nat, s, behind);
    } else if behind > 0 {
        let shorter = Seq::new((behind - 1) as nat, |i: int| ' ');
        assert(all.last() == b.last());
        if s.len() > 0 {
            assert(all[0] == s[0]);
            assert(all.drop_last() =~= a + s + shorter);
        } else {
            assert(all[0] == b[0]);
            assert(all.skip(1) =~= a + s + shorter);
        }
        law_blanks_around_go(before, s, (behind - 1) as nat);
    } else {
        assert(all =~= s);
    }
}

/// Whether a paper is found by a DOI.
pub open spec fn has_doi(p: Paper, doi: Seq<char>, exclude: Seq<char>) -> bool {
    p.id@ != exclude && p.doi is Some && trim_blanks(lower(p.doi->0@)) == lower(doi)
}

/// Whether a paper is found by a title.
pub open spec fn has_title(p: Paper, title: Seq<char>, exclude: Seq<char>) -> bool {
    p.id@ != exclude && normal_title(title).len() > 0 && normal_title(p.title@) == normal_title(
        title,
    )
}

/// Those found by a DOI, or by a title, are all papers that have it, but for the excluded one, in their
/// order.
pub proof fn law_every_duplicate_is_found(
    papers: Seq<Paper>,
    key: Seq<char>,
    exclude: Seq<char>,
)
    ensures
        alike_papers(Likeness::Doi, papers, key, exclude) == papers.filter(
            |p: Paper| has_doi(p, key, exclude),
        ),
        alike_papers(Likeness::Title, papers, key, exclude) == papers.filter(
            |p: Paper| has_title(p, key, exclude),
        ),
    decreases papers.len(),
{
    reveal(Seq::filter);
    if papers.len() > 0 {
        law_every_duplicate_is_found(papers.drop_last(), key, exclude);
    }
}

proof fn lemma_filter_has(papers: Seq<Paper>, wanted: spec_fn(Paper) -> bool, k: int)
    requires
        0 <= k < papers.len(),
        wanted(papers[k]),
    ensures
        papers.filter(wanted).contains(papers[k]),
    decreases papers.len(),
{
    reveal(Seq::filter);
    let rest = papers.drop_last().filter(wanted);
    if k == papers.len() - 1 {
        let r = rest.push(papers[k]);
        assert(r[rest.len() as int] == papers[k]);
    } else {
        assert(papers.drop_last()[k] == papers[k]);
        lemma_filter_has(papers.drop_last(), wanted, k);
        let i = choose|i: int| 0 <= i < rest.len() && rest[i] == papers[k];
        let r = rest.push(papers.last());
        assert(r[i] == papers[k]);
    }
}

/// A paper with the DOI that is looked for is among the duplicates, for that reason; where no paper has
/// it, or none is given, one with the same title is.
pub proof fn law_duplicates_by_doi_before_title(
    papers: Seq<Paper>,
    title: Seq<char>,
    doi: Option<Seq<char>>,
    exclude: Seq<char>,
    k: int,
)
    requires
        0 <= k < papers.len(),
        papers[k].id@ != exclude,
    ensures
        doi is Some && trim(doi->0).len() > 0 && has_doi(papers[k], trim(doi->0), exclude) ==> ({
            let (found, reason) = duplicates(papers, title, doi, exclude);
            found.contains(papers[k]) && reason == "doi"@
        }),
        (doi is None || trim(doi->0).len() == 0 || forall|j: int|
            0 <= j < papers.len() ==> !has_doi(#[trigger] papers[j], trim(doi->0), exclude))
            && has_title(papers[k], title, exclude) ==> ({
            let (found, reason) = duplicates(papers, title, doi, exclude);
            found.contains(papers[k]) && reason == "title"@
        }),
{
    if doi is Some {
        let key = trim(doi->0);
        law_every_duplicate_is_found(papers, key, exclude);
        let wanted = |p: Paper| has_doi(p, key, exclude);
        if has_doi(papers[k], key, exclude) {
            lemma_filter_has(papers, wanted, k);
        }
        if forall|j: int| 0 <= j < papers.len() ==> !has_doi(#[trigger] papers[j], key, exclude) {
            lemma_filter_none(papers, wanted);
        }
    }
    law_every_duplicate_is_found(papers, title, exclude);
    let wanted = |p: Paper| has_title(p, title, exclude);
    if has_title(papers[k], title, exclude) {
        lemma_filter_has(papers, wanted, k);
    }
}

proof fn lemma_filter_none(papers: Seq<Paper>, wanted: spec_fn(Paper) -> bool)
    requires
        forall|j: int| 0 <= j < papers.len() ==> !wanted(#[trigger] papers[j]),
    ensures
        papers.filter(wanted).len() == 0,
    decreases papers.len(),
{
    reveal(Seq::filter);
    if papers.len() > 0 {
        let shorter = papers.drop_last();
        assert forall|j: int| 0 <= j < shorter.len() implies !wanted(#[trigger] shorter[j]) by {
            assert(shorter[j] == papers[j]);
        }
        lemma_filter_none(shorter, wanted);
        assert(!wanted(papers[papers.len() - 1]));
    }
}

// ---------------------------------------------------------------------------------------------
// Titles by their words
// ---------------------------------------------------------------------------------------------
proof fn lemma_letters_start_moves(p: Seq<char>, s: Seq<char>, i: int)
    requires
        0 <= i <= s.len(),
    ensures
        letters_start(p + s, p.len() + i) == p.len() + letters_start(s, i),
        i <= letters_start(s, i) <= s.len(),
    decreases s.len() - i,
{
    if i < s.len() {
        assert((p + s)[p.len() + i] == s[i]);
        if !alphanumeric(s[i]) {
            lemma_letters_start_moves(p, s, i + 1);
        }
    }
}

proof fn lemma_letters_end_moves(p: Seq<char>, s: Seq<char>, i: int)
    requires
        0 <= i <= s.len(),
    ensures
        letters_end(p + s, p.len() + i) == p.len() + letters_end(s, i),
        i <= letters_end(s, i) <= s.len(),
    decreases s.len() - i,
{
    if i < s.len() {
        assert((p + s)[p.len() + i] == s[i]);
        if alphanumeric(s[i]) {
            lemma_letters_end_moves(p, s, i + 1);
        }
    }
}

proof fn lemma_tokens_move(p: Seq<char>, s: Seq<char>, i: int)
    requires
        0 <= i <= s.len(),
    ensures
        tokens_from(p + s, p.len() + i) == tokens_from(s, i),
    decreases s.len() - i,
{
    let a = letters_start(s, i);
    lemma_letters_start_moves(p, s, i);
    let e = letters_end(s, a);
    lemma_letters_end_moves(p, s, a);
    if a < e {
        assert((p + s).subrange(p.len() + a, p.len() + e) =~= s.subrange(a, e));
        lemma_tokens_move(p, s, e);
    }
}

proof fn lemma_letters_over(s: Seq<char>, i: int, j: int)
    requires
        0 <= i <= j <= s.len(),
        forall|k: int| i <= k < j ==> alphanumeric(#[trigger] s[k]),
        j < s.len() ==> !alphanumeric(s[j]),
    ensures
        letters_end(s, i) == j,
    decreases j - i,
{
    if i < j {
        assert(alphanumeric(s[i]));
        lemma_letters_over(s, i + 1, j);
    }
}

/// The words of a title are all its stretches of letters and digits, in their order, but for those of
/// one or two bytes: of a word, a sign and a rest they are the word and those of the rest.
pub proof fn law_every_word_of_a_title_counts(word: Seq<char>, sign: char, rest: Seq<char>)
    requires
        word.len() > 0,
        forall|k: int| 0 <= k < word.len() ==> alphanumeric(#[trigger] word[k]),
        !alphanumeric(sign),
    ensures
        byte_len(word) > 2 ==> tokens_from(word, 0) == seq![word],
        byte_len(word) > 2 ==> tokens_from(word + seq![sign] + rest, 0) == seq![word] + tokens_from(
            rest,
            0,
        ),
        byte_len(word) <= 2 ==> tokens_from(word + seq![sign] + rest, 0) == tokens_from(rest, 0),
        tokens_from(seq![sign] + rest, 0) == tokens_from(rest, 0),
{
    let n = word.len() as int;
    lemma_letters_over(word, 0, n);
    assert(alphanumeric(word[0]));
    assert(word.subrange(0, n) =~= word);
    assert(tokens_from(word, n) =~= Seq::empty());
    assert(seq![word] + Seq::<Seq<char>>::empty() =~= seq![word]);
    let s = word + seq![sign] + rest;
    assert forall|k: int| 0 <= k < n implies alphanumeric(#[trigger] s[k]) by {
        assert(s[k] == word[k]);
    }
    assert(s[n] == sign);
    lemma_letters_over(s, 0, n);
    assert(alphanumeric(s[0]));
    assert(s.subrange(0, n) =~= word);
    let p = word + seq![sign];
    assert(s =~= p + rest);
    lemma_tokens_move(p, rest, 0);
    lemma_token_sign(s, n);
    let t = seq![sign] + rest;
    assert(t[0] == sign);
    lemma_token_sign(t, 0);
    lemma_tokens_move(seq![sign], rest, 0);
}

proof fn lemma_token_sign(s: Seq<char>, i: int)
    requires
        0 <= i < s.len(),
        !alphanumeric(s[i]),
    ensures
        tokens_from(s, i) == tokens_from(s, i + 1),
{
    let none = Seq::<char>::empty();
    lemma_letters_start_moves(none, s, i + 1);
    assert(letters_start(s, i) == letters_start(s, i + 1));
}

/// The words that one list shares with another are counted one by one, and a list shares all of its
/// words with one that holds them.
pub proof fn law_shared_words_are_counted(
    a: Seq<Seq<char>>,
    b: Seq<Seq<char>>,
    w: Seq<char>,
    c: Seq<Seq<char>>,
)
    ensures
        shared(a + b, c) == shared(a, c) + shared(b, c),
        shared(seq![w], c) == if holds(c, w) {
            1nat
        } else {
            0
        },
        shared(a, c) <= a.len(),
    decreases a.len() + b.len(),
{
    let none = Seq::<Seq<char>>::empty();
    assert(seq![w].drop_last() =~= none);
    assert(seq![w].last() == w);
    assert(shared(none, c) == 0);
    if b.len() > 0 {
        law_shared_words_are_counted(a, b.drop_last(), w, c);
        assert((a + b).drop_last() =~= a + b.drop_last());
        assert((a + b).last() == b.last());
    } else {
        assert(a + b =~= a);
        if a.len() > 0 {
            law_shared_words_are_counted(a.drop_last(), none, w, c);
        }
    }
}

/// Two titles are similar just where both have words, and the shared ones are at least half of those of
/// each; the work that is taken is the first with a similar title.
pub proof fn law_first_similar_work_is_taken(title: Seq<char>, works: Seq<Work>, i: int)
    requires
        0 <= i,
    ensures
        match first_similar(title, works, i) {
            Some(k) => {
                &&& i <= k < works.len()
                &&& is_similar(title, works[k])
                &&& forall|j: int| i <= j < k ==> !is_similar(title, #[trigger] works[j])
            },
            None => forall|j: int| i <= j < works.len() ==> !is_similar(title, #[trigger] works[j]),
        },
    decreases works.len() - i,
{
    if i < works.len() {
        law_first_similar_work_is_taken(title, works, i + 1);
    }
}

/// Whether a work has a title that shares with another at least half of the words of each.
pub open spec fn is_similar(title: Seq<char>, w: Work) -> bool {
    w.title is Some && ({
        let a = title_tokens(title);
        let b = title_tokens(w.title->0@);
        a.len() > 0 && b.len() > 0 && 2 * shared(a, b) >= a.len() && 2 * shared(a, b) >= b.len()
    })
}

// ---------------------------------------------------------------------------------------------
// Creators
// ---------------------------------------------------------------------------------------------
/// The names with a role in two lists are those of the first and then those of the second; a creator
/// with the role and a name is among them, by the whole name or by first and last name, and another
/// is not.
pub proof fn law_every_creator_is_named(
    a: Seq<CreatorModel>,
    b: Seq<CreatorModel>,
    c: CreatorModel,
    role: Seq<char>,
)
    ensures
        names_with_role(a + b, role) == names_with_role(a, role) + names_with_role(b, role),
        c.role == role && c.name.len() > 0 ==> names_with_role(seq![c], role) == seq![c.name],
        c.role == role && c.name.len() == 0 && c.first_name.len() > 0 && c.last_name.len() > 0
            ==> names_with_role(seq![c], role) == seq![c.first_name + " "@ + c.last_name],
        c.role == role && c.name.len() == 0 && c.first_name.len() == 0 && c.last_name.len() > 0
            ==> names_with_role(seq![c], role) == seq![c.last_name],
        c.role == role && c.name.len() == 0 && c.first_name.len() > 0 && c.last_name.len() == 0
            ==> names_with_role(seq![c], role) == seq![c.first_name],
        c.role != role ==> names_with_role(seq![c], role) == Seq::<Seq<char>>::empty(),
    decreases b.len(),
{
    let none = Seq::<CreatorModel>::empty();
    assert(names_with_role(none, role) =~= Seq::empty());
    assert(seq![c].drop_last() =~= none);
    assert(seq![c].last() == c);
    if b.len() == 0 {
        assert(a + b =~= a);
        assert(names_with_role(a, role) + names_with_role(b, role) =~= names_with_role(a, role));
    } else {
        law_every_creator_is_named(a, b.drop_last(), c, role);
        assert((a + b).drop_last() =~= a + b.drop_last());
        assert((a + b).last() == b.last());
    }
}

} // verus!
