//! The forms in which one work is linked to are read alike.
use vstd::prelude::*;
use vstd::string::*;

use crate::link_import::{
    arxiv_behind, bare, behind_host, doi_of, is_doi, isbn_digits, isbn_of, link_of, pubmed_of, LinkModel,
};
use crate::text::{
    contains, ends_with, is_digit, is_number, is_space, lower, lower_char, matches_at, starts_with,
    stop_from, strip_end, until,
};
use crate::text_laws::{law_trim_takes_surrounding_space, lemma_found, lemma_trim_same};
use crate::word_laws::{law_behind_the_last_and_before_the_first, law_endings_go};

verus! {

/// Whether a text is a DOI as it stands: without white space, query, fragment and closing slash, and
/// without the address of the resolver and another DOI behind that.
pub open spec fn is_plain_doi(d: Seq<char>) -> bool {
    &&& is_doi(d)
    &&& forall|i: int|
        0 <= i < d.len() ==> #[trigger] d[i] != '?' && d[i] != '#' && !is_space(d[i])
    &&& d.last() != '/'
    &&& match behind_host(d, "doi.org/"@) {
        Some(rest) => !is_doi(bare(rest)),
        None => true,
    }
}

/// Whether a text is a query or a fragment behind a link.
pub open spec fn is_query(q: Seq<char>) -> bool {
    q.len() > 0 && (q[0] == '?' || q[0] == '#') && !is_space(q.last())
}

proof fn lemma_stop(s: Seq<char>, stops: Seq<char>, i: int, k: int)
    requires
        0 <= i <= k <= s.len(),
        forall|j: int| i <= j < k ==> !stops.contains(#[trigger] s[j]),
        k < s.len() ==> stops.contains(s[k]),
    ensures
        stop_from(s, stops, i) == k,
    decreases k - i,
{
    if i < k {
        assert(!stops.contains(s[i]));
        lemma_stop(s, stops, i + 1, k);
    }
}

proof fn lemma_stops(c: char)
    ensures
        "?#"@.contains(c) == (c == '?' || c == '#'),
{
    reveal_strlit("?#");
    assert("?#"@[0] == '?' && "?#"@[1] == '#');
    if "?#"@.contains(c) {
        let k = choose|k: int| 0 <= k < "?#"@.len() && "?#"@[k] == c;
        assert(k == 0 || k == 1);
    }
}

proof fn lemma_no_stop(d: Seq<char>, i: int)
    requires
        is_plain_doi(d),
        0 <= i < d.len(),
    ensures
        !"?#"@.contains(d[i]),
{
    lemma_stops(d[i]);
    assert(d[i] != '?' && d[i] != '#');
}

proof fn lemma_open_end(d: Seq<char>)
    requires
        is_plain_doi(d),
    ensures
        strip_end(d, "/"@) == d,
{
    reveal_strlit("/");
    if ends_with(d, "/"@) {
        assert(d.subrange(d.len() - 1, d.len() as int)[0] == d.last());
    }
}

/// A DOI is the bare text of itself, with a slash behind it and with a query behind it.
proof fn lemma_bare(d: Seq<char>, q: Seq<char>)
    requires
        is_plain_doi(d),
        is_query(q),
    ensures
        bare(d) == d,
        bare(d + "/"@) == d,
        bare(d + q) == d,
{
    reveal_strlit("/");
    let n = d.len() as int;
    assert forall|j: int| 0 <= j < n implies !"?#"@.contains(#[trigger] d[j]) by {
        lemma_no_stop(d, j);
    }
    lemma_open_end(d);
    lemma_stop(d, "?#"@, 0, n);
    assert(d.take(n) =~= d);

    let s = d + "/"@;
    lemma_stops('/');
    assert forall|j: int| 0 <= j < s.len() implies !"?#"@.contains(#[trigger] s[j]) by {
        if j < n {
            assert(s[j] == d[j]);
        } else {
            assert(s[j] == '/');
        }
    }
    lemma_stop(s, "?#"@, 0, s.len() as int);
    assert(s.take(s.len() as int) =~= s);
    assert(s.subrange(n, n + 1) =~= "/"@);
    assert(ends_with(s, "/"@));
    assert(s.take(n) =~= d);

    let t = d + q;
    lemma_stops(q[0]);
    assert(t[n] == q[0]);
    assert forall|j: int| 0 <= j < n implies !"?#"@.contains(#[trigger] t[j]) by {
        assert(t[j] == d[j]);
    }
    lemma_stop(t, "?#"@, 0, n);
    assert(t.take(n) =~= d);
}

/// Behind the address of the resolver stands the rest.
proof fn lemma_behind(prefix: Seq<char>, rest: Seq<char>)
    requires
        prefix == "https://doi.org/"@ || prefix == "https://dx.doi.org/"@,
    ensures
        behind_host(prefix + rest, "doi.org/"@) == Some(rest),
{
    reveal_strlit("https://doi.org/");
    reveal_strlit("https://dx.doi.org/");
    reveal_strlit("doi.org/");
    let host = "doi.org/"@;
    let s = prefix + rest;
    let l = lower(s);
    let k = prefix.len() - 8;
    assert forall|j: int| 0 <= j < prefix.len() implies #[trigger] l[j] == prefix[j] by {
        assert(l[j] == lower_char(s[j]));
    }
    assert(l.subrange(k, k + 8) =~= host);
    assert forall|j: int| 0 <= j < k implies !#[trigger] matches_at(l, host, j) by {
        if matches_at(l, host, j) {
            assert(l.subrange(j, j + 8)[0] == l[j]);
            assert(l.subrange(j, j + 8)[1] == l[j + 1]);
        }
    }
    lemma_found(l, host, 0, k);
    assert(s.skip(k + 8) =~= rest);
}

/// The forms in which one DOI is written are read alike, with its letters as they are: as it stands,
/// with white space around it, behind the address of the resolver, with a slash behind it, and with a
/// query or a fragment behind it.
pub proof fn law_doi_forms_agree(d: Seq<char>, w: Seq<char>, v: Seq<char>, q: Seq<char>)
    requires
        is_plain_doi(d),
        is_query(q),
        forall|j: int| 0 <= j < w.len() ==> is_space(#[trigger] w[j]),
        forall|j: int| 0 <= j < v.len() ==> is_space(#[trigger] v[j]),
    ensures
        link_of(d) == LinkModel::Doi(d),
        link_of(w + d + v) == LinkModel::Doi(d),
        link_of("https://doi.org/"@ + d) == LinkModel::Doi(d),
        link_of("https://doi.org/"@ + d + "/"@) == LinkModel::Doi(d),
        link_of("https://dx.doi.org/"@ + d) == LinkModel::Doi(d),
        link_of("https://dx.doi.org/"@ + d + q) == LinkModel::Doi(d),
{
    reveal_strlit("https://doi.org/");
    reveal_strlit("https://dx.doi.org/");
    reveal_strlit("/");
    let a = "https://doi.org/"@;
    let b = "https://dx.doi.org/"@;
    lemma_bare(d, q);
    assert(!is_space(d[0]) && !is_space(d[d.len() - 1]));
    lemma_trim_same(d);
    law_trim_takes_surrounding_space(w, d, v);
    assert(doi_of(d) == Some(d));
    lemma_behind(a, d);
    lemma_trim_same(a + d);
    assert(a + d + "/"@ =~= a + (d + "/"@));
    lemma_behind(a, d + "/"@);
    lemma_trim_same(a + d + "/"@);
    lemma_behind(b, d);
    lemma_trim_same(b + d);
    assert(b + d + q =~= b + (d + q));
    lemma_behind(b, d + q);
    lemma_trim_same(b + d + q);
}

// ---------------------------------------------------------------------------------------------
// Other identifiers
// ---------------------------------------------------------------------------------------------
/// Whether a host stands in an address first at a place, whatever the case of the letters.
pub open spec fn is_first_host(url: Seq<char>, host: Seq<char>, k: int) -> bool {
    matches_at(lower(url), host, k) && forall|j: int|
        0 <= j < k ==> !#[trigger] matches_at(lower(url), host, j)
}

/// Whether a text holds none of the signs that end an identifier.
pub open spec fn is_plain_id(id: Seq<char>) -> bool {
    id.len() > 0 && forall|i: int|
        0 <= i < id.len() ==> #[trigger] id[i] != '/' && id[i] != '?' && id[i] != '#'
}

/// What stands behind the first place of a host is read as it is written.
pub proof fn law_behind_the_host(p: Seq<char>, host: Seq<char>, rest: Seq<char>)
    requires
        is_first_host(p + host + rest, host, p.len() as int),
    ensures
        behind_host(p + host + rest, host) == Some(rest),
{
    let url = p + host + rest;
    lemma_found(lower(url), host, 0, p.len() as int);
    assert(url.skip((p.len() + host.len()) as int) =~= rest);
}

proof fn lemma_until_plain(id: Seq<char>, stop: char)
    requires
        !id.contains(stop),
    ensures
        until(id, seq![stop]) == id,
{
    law_behind_the_last_and_before_the_first(id, stop, Seq::empty());
}

/// The identifier of an arXiv paper is what stands behind the host, up to a slash or a query, whether the
/// link is to the abstract or to the PDF.
pub proof fn law_arxiv_id_is_read(p: Seq<char>, host: Seq<char>, id: Seq<char>, query: Seq<char>)
    requires
        is_plain_id(id),
        !ends_with(id, ".pdf"@),
        is_first_host(p + host + id, host, p.len() as int),
        is_first_host(p + host + (id + ".pdf"@), host, p.len() as int),
        is_first_host(p + host + (id + seq!['?'] + query), host, p.len() as int),
        !query.contains('/'),
    ensures
        arxiv_behind(p + host + id, host) == Some(id),
        arxiv_behind(p + host + (id + ".pdf"@), host) == Some(id),
        arxiv_behind(p + host + (id + seq!['?'] + query), host) == Some(id),
{
    reveal_strlit("/");
    reveal_strlit("?");
    reveal_strlit(".pdf");
    assert("/"@ =~= seq!['/']);
    assert("?"@ =~= seq!['?']);
    assert(!id.contains('/'));
    assert(!id.contains('?'));
    law_behind_the_host(p, host, id);
    lemma_until_plain(id, '/');
    lemma_until_plain(id, '?');
    law_endings_go(id, ".pdf"@);
    let file = id + ".pdf"@;
    assert(!file.contains('/') && !file.contains('?')) by {
        assert forall|i: int| 0 <= i < file.len() implies file[i] != '/' && file[i] != '?' by {
            if i < id.len() {
                assert(file[i] == id[i]);
            } else {
                assert(file[i] == ".pdf"@[i - id.len()]);
            }
        }
    }
    law_behind_the_host(p, host, file);
    lemma_until_plain(file, '/');
    lemma_until_plain(file, '?');
    let asked = id + seq!['?'] + query;
    assert(!asked.contains('/')) by {
        assert forall|i: int| 0 <= i < asked.len() implies asked[i] != '/' by {
            if i < id.len() {
                assert(asked[i] == id[i]);
            } else if i > id.len() {
                assert(asked[i] == query[i - id.len() - 1]);
            }
        }
    }
    law_behind_the_host(p, host, asked);
    lemma_until_plain(asked, '/');
    law_behind_the_last_and_before_the_first(id, '?', query);
}

/// The identifier of a PubMed record is the row of digits behind the host, with or without a closing slash.
pub proof fn law_pubmed_id_is_read(p: Seq<char>, id: Seq<char>)
    requires
        is_number(id),
        is_first_host(
            p + "pubmed.ncbi.nlm.nih.gov/"@ + id,
            "pubmed.ncbi.nlm.nih.gov/"@,
            p.len() as int,
        ),
        is_first_host(
            p + "pubmed.ncbi.nlm.nih.gov/"@ + (id + "/"@),
            "pubmed.ncbi.nlm.nih.gov/"@,
            p.len() as int,
        ),
    ensures
        pubmed_of(p + "pubmed.ncbi.nlm.nih.gov/"@ + id) == Some(id),
        pubmed_of(p + "pubmed.ncbi.nlm.nih.gov/"@ + (id + "/"@)) == Some(id),
{
    reveal_strlit("/");
    reveal_strlit("?#");
    let host = "pubmed.ncbi.nlm.nih.gov/"@;
    assert("/"@ =~= seq!['/']);
    assert forall|i: int| 0 <= i < id.len() implies #[trigger] id[i] != '/' && !"?#"@.contains(
        id[i],
    ) by {
        assert(is_digit(id[i]));
    }
    assert(!id.contains('/'));
    law_behind_the_host(p, host, id);
    lemma_until_plain(id, '/');
    lemma_nothing_stops(id, "?#"@, 0);
    law_behind_the_host(p, host, id + "/"@);
    law_behind_the_last_and_before_the_first(id, '/', Seq::empty());
    assert(id + "/"@ =~= id + seq!['/'] + Seq::<char>::empty());
}

proof fn lemma_nothing_stops(s: Seq<char>, stops: Seq<char>, i: int)
    requires
        0 <= i <= s.len(),
        forall|k: int| 0 <= k < s.len() ==> !stops.contains(#[trigger] s[k]),
    ensures
        stop_from(s, stops, i) == s.len(),
        i == 0 ==> until(s, stops) == s,
    decreases s.len() - i,
{
    if i < s.len() {
        assert(!stops.contains(s[i]));
        lemma_nothing_stops(s, stops, i + 1);
    }
    assert(s.take(s.len() as int) =~= s);
}

/// An ISBN is read digit by digit: each digit counts, an `x` counts as `X`, and signs between the digits
/// do not count.
pub proof fn law_isbn_ignores_other_signs(a: Seq<char>, b: Seq<char>, c: char)
    ensures
        isbn_digits(a + b) == isbn_digits(a) + isbn_digits(b),
        is_digit(c) || c == 'X' ==> isbn_digits(seq![c]) == seq![c],
        c == 'x' ==> isbn_digits(seq![c]) == seq!['X'],
        !is_digit(c) && c != 'x' && c != 'X' ==> isbn_of(a + seq![c] + b) == isbn_of(a + b),
{
    lemma_isbn_digits(a, b);
    lemma_isbn_digits(a + seq![c], b);
    lemma_isbn_digits(a, seq![c]);
    let none = Seq::<char>::empty();
    assert(isbn_digits(none) =~= none);
    assert(seq![c].drop_last() =~= none);
    assert(seq![c].last() == c);
    if !is_digit(c) && c != 'x' && c != 'X' {
        assert(isbn_digits(a) + none =~= isbn_digits(a));
    }
}

proof fn lemma_isbn_digits(a: Seq<char>, b: Seq<char>)
    ensures
        isbn_digits(a + b) == isbn_digits(a) + isbn_digits(b),
    decreases b.len(),
{
    if b.len() == 0 {
        assert(a + b =~= a);
        assert(isbn_digits(a) + isbn_digits(b) =~= isbn_digits(a));
    } else {
        lemma_isbn_digits(a, b.drop_last());
        assert((a + b).drop_last() =~= a + b.drop_last());
        assert((a + b).last() == b.last());
    }
}

/// Ten digits, or nine and an `X`, are an ISBN, and so are thirteen that begin with 978 or 979; a row of
/// another length is none.
pub proof fn law_isbn_has_ten_or_thirteen_digits(d: Seq<char>)
    requires
        is_number(d),
    ensures
        d.len() == 10 ==> isbn_of(d) == Some(d),
        d.len() == 9 ==> isbn_of(d.push('x')) == Some(d.push('X')),
        d.len() == 13 && (starts_with(d, "978"@) || starts_with(d, "979"@)) ==> isbn_of(d) == Some(d),
        d.len() != 10 && d.len() != 13 ==> isbn_of(d) is None,
{
    lemma_all_count(d);
    let x = d.push('x');
    assert(x.drop_last() =~= d);
    assert(x.last() == 'x');
    assert(isbn_digits(x) =~= d.push('X'));
    assert forall|i: int| 0 <= i < d.len() implies is_digit(#[trigger] d.push('X')[i]) by {
        assert(d.push('X')[i] == d[i]);
        assert(is_digit(d[i]));
    }
}

proof fn lemma_all_count(d: Seq<char>)
    requires
        forall|i: int| 0 <= i < d.len() ==> is_digit(#[trigger] d[i]),
    ensures
        isbn_digits(d) == d,
    decreases d.len(),
{
    if d.len() > 0 {
        let shorter = d.drop_last();
        assert forall|i: int| 0 <= i < shorter.len() implies is_digit(#[trigger] shorter[i]) by {
            assert(shorter[i] == d[i]);
        }
        lemma_all_count(shorter);
        assert(is_digit(d[d.len() - 1]));
        assert(shorter.push(d.last()) =~= d);
    } else {
        assert(d =~= Seq::empty());
    }
}

} // verus!
