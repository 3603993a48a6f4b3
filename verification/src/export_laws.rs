//! What is known of a paper stands in what is exported of it: in its RIS record and in its CSL item.
use vstd::prelude::*;
use vstd::string::*;

use crate::citation_export::{
    citation_key, csl_issued, csl_item_model, csl_items_model, csl_name, csl_people, csl_text,
    csl_type_of, names_in, ris_line, ris_names, ris_opt, ris_pages, ris_text, ris_type_of,
    year_text,
};
use crate::json::{JsonModel, MemberModel};
use crate::models::Paper;
use crate::text::{opt_text, signed_decimal, split_once, trim, words};

verus! {

// ---------------------------------------------------------------------------------------------
// RIS
// ---------------------------------------------------------------------------------------------
/// Whether a text is made of a beginning, a part and an end.
pub open spec fn is_made_of(s: Seq<char>, a: Seq<char>, x: Seq<char>, b: Seq<char>) -> bool {
    s == a + x + b
}

/// Whether a text stands in another.
pub open spec fn stands_in(x: Seq<char>, s: Seq<char>) -> bool {
    exists|a: Seq<char>, b: Seq<char>| #[trigger] is_made_of(s, a, x, b)
}

/// Whether a line with a tag and a value stands in a text.
pub open spec fn has_line(s: Seq<char>, tag: Seq<char>, value: Seq<char>) -> bool {
    stands_in(tag + "  - "@ + value + "\n"@, s)
}

proof fn lemma_inner(x: Seq<char>, y: Seq<char>, s: Seq<char>)
    requires
        stands_in(x, y),
        stands_in(y, s),
    ensures
        stands_in(x, s),
{
    let (a, b) = choose|a: Seq<char>, b: Seq<char>| #[trigger] is_made_of(y, a, x, b);
    let (c, d) = choose|c: Seq<char>, d: Seq<char>| #[trigger] is_made_of(s, c, y, d);
    assert(s =~= (c + a) + x + (b + d));
    assert(is_made_of(s, c + a, x, b + d));
}

/// The lines of two lists of names are those of the first and then those of the second, and a name has
/// a line.
pub proof fn law_every_name_has_a_line(a: Seq<Seq<char>>, b: Seq<Seq<char>>, name: Seq<char>)
    ensures
        ris_names(a + b) == ris_names(a) + ris_names(b),
        ris_names(seq![name]) == "AU"@ + "  - "@ + name + "\n"@,
    decreases b.len(),
{
    let none = Seq::<Seq<char>>::empty();
    assert(ris_names(none) =~= Seq::empty());
    assert(seq![name].drop_last() =~= none);
    assert(seq![name].last() == name);
    assert(ris_names(seq![name]) =~= "AU"@ + "  - "@ + name + "\n"@);
    if b.len() == 0 {
        assert(a + b =~= a);
        assert(ris_names(a) + ris_names(b) =~= ris_names(a));
    } else {
        law_every_name_has_a_line(a, b.drop_last(), name);
        assert((a + b).drop_last() =~= a + b.drop_last());
        assert((a + b).last() == b.last());
        assert(ris_names(a) + (ris_names(b.drop_last()) + ris_line("AU"@, b.last())) =~= ris_names(a)
            + ris_names(b.drop_last()) + ris_line("AU"@, b.last()));
    }
}

proof fn lemma_name_line(names: Seq<Seq<char>>, k: int)
    requires
        0 <= k < names.len(),
    ensures
        ris_names(names) == ris_names(names.take(k)) + ris_line("AU"@, names[k]) + ris_names(
            names.skip(k + 1),
        ),
{
    let one = seq![names[k]];
    assert(names =~= names.take(k) + one + names.skip(k + 1));
    law_every_name_has_a_line(names.take(k) + one, names.skip(k + 1), names[k]);
    law_every_name_has_a_line(names.take(k), one, names[k]);
}

/// Whether a row starts with another.
spec fn is_start<T>(a: Seq<T>, s: Seq<T>) -> bool {
    a.len() <= s.len() && s.take(a.len() as int) == a
}

proof fn lemma_start<T>(a: Seq<T>, x: Seq<T>, s: Seq<T>)
    requires
        is_start(a + x, s),
    ensures
        is_start(a, s),
        s == a + x + s.skip((a + x).len() as int),
{
    let n = (a + x).len() as int;
    assert(s.take(n).take(a.len() as int) =~= s.take(a.len() as int));
    assert((a + x).take(a.len() as int) =~= a);
    assert(s =~= s.take(n) + s.skip(n));
}

proof fn lemma_part(a: Seq<char>, x: Seq<char>, s: Seq<char>)
    requires
        is_start(a + x, s),
    ensures
        is_start(a, s),
        stands_in(x, s),
{
    lemma_start(a, x, s);
    assert(is_made_of(s, a, x, s.skip((a + x).len() as int)));
}

/// Every part of a record stands in it.
proof fn lemma_ris_parts(p: Paper, authors: Seq<Seq<char>>)
    ensures
        stands_in(ris_line("TY"@, ris_type_of(opt_text(p.item_type))), ris_text(p, authors)),
        stands_in(ris_names(authors), ris_text(p, authors)),
        stands_in(ris_opt("TI"@, Some(p.title@)), ris_text(p, authors)),
        stands_in(ris_opt("PY"@, year_text(p.year)), ris_text(p, authors)),
        stands_in(ris_opt("JO"@, opt_text(p.journal)), ris_text(p, authors)),
        stands_in(ris_opt("VL"@, opt_text(p.volume)), ris_text(p, authors)),
        stands_in(ris_opt("IS"@, opt_text(p.issue)), ris_text(p, authors)),
        stands_in(ris_pages(opt_text(p.pages)), ris_text(p, authors)),
        stands_in(ris_opt("DO"@, opt_text(p.doi)), ris_text(p, authors)),
        stands_in(ris_opt("UR"@, opt_text(p.url)), ris_text(p, authors)),
        stands_in(ris_opt("AB"@, opt_text(p.abstract_text)), ris_text(p, authors)),
        stands_in(ris_opt("PB"@, opt_text(p.publisher)), ris_text(p, authors)),
{
    let s = ris_text(p, authors);
    let a0 = Seq::<char>::empty();
    let a1 = ris_line("TY"@, ris_type_of(opt_text(p.item_type)));
    let a2 = a1 + ris_names(authors);
    let a3 = a2 + ris_opt("TI"@, Some(p.title@));
    let a4 = a3 + ris_opt("PY"@, year_text(p.year));
    let a5 = a4 + ris_opt("JO"@, opt_text(p.journal));
    let a6 = a5 + ris_opt("VL"@, opt_text(p.volume));
    let a7 = a6 + ris_opt("IS"@, opt_text(p.issue));
    let a8 = a7 + ris_pages(opt_text(p.pages));
    let a9 = a8 + ris_opt("DO"@, opt_text(p.doi));
    let a10 = a9 + ris_opt("UR"@, opt_text(p.url));
    let a11 = a10 + ris_opt("AB"@, opt_text(p.abstract_text));
    let a12 = a11 + ris_opt("PB"@, opt_text(p.publisher));
    let end = "ER  - \n\n"@;
    assert(s == a12 + end);
    assert(is_start(a12 + end, s)) by {
        assert(s.take(s.len() as int) =~= s);
    }
    lemma_part(a12, end, s);
    lemma_part(a11, ris_opt("PB"@, opt_text(p.publisher)), s);
    lemma_part(a10, ris_opt("AB"@, opt_text(p.abstract_text)), s);
    lemma_part(a9, ris_opt("UR"@, opt_text(p.url)), s);
    lemma_part(a8, ris_opt("DO"@, opt_text(p.doi)), s);
    lemma_part(a7, ris_pages(opt_text(p.pages)), s);
    lemma_part(a6, ris_opt("IS"@, opt_text(p.issue)), s);
    lemma_part(a5, ris_opt("VL"@, opt_text(p.volume)), s);
    lemma_part(a4, ris_opt("JO"@, opt_text(p.journal)), s);
    lemma_part(a3, ris_opt("PY"@, year_text(p.year)), s);
    lemma_part(a2, ris_opt("TI"@, Some(p.title@)), s);
    lemma_part(a1, ris_names(authors), s);
    assert(a0 + a1 =~= a1);
    lemma_part(a0, a1, s);
}

/// Every author has a line in the RIS record of a paper.
pub proof fn law_ris_names_every_author(p: Paper, authors: Seq<Seq<char>>, k: int)
    requires
        0 <= k < authors.len(),
    ensures
        has_line(ris_text(p, authors), "AU"@, authors[k]),
{
    lemma_ris_parts(p, authors);
    lemma_name_line(authors, k);
    let line = ris_line("AU"@, authors[k]);
    let names = ris_names(authors);
    assert(is_made_of(names, ris_names(authors.take(k)), line, ris_names(authors.skip(k + 1))));
    lemma_inner(line, names, ris_text(p, authors));
}

/// A record starts with the type, ends with the end mark, and has a line for the title, the year, the
/// journal, the volume, the issue, the DOI, the address, the abstract and the publisher, where there are
/// any; the pages have a line for the first and one for the last of them.
pub proof fn law_ris_has_every_field(p: Paper, authors: Seq<Seq<char>>)
    ensures
        ({
            let s = ris_text(p, authors);
            &&& has_line(s, "TY"@, ris_type_of(opt_text(p.item_type)))
            &&& p.title@.len() > 0 ==> has_line(s, "TI"@, p.title@)
            &&& p.year is Some && signed_decimal(p.year->0 as int).len() > 0 ==> has_line(
                s,
                "PY"@,
                signed_decimal(p.year->0 as int),
            )
            &&& p.journal is Some && p.journal->0@.len() > 0 ==> has_line(s, "JO"@, p.journal->0@)
            &&& p.volume is Some && p.volume->0@.len() > 0 ==> has_line(s, "VL"@, p.volume->0@)
            &&& p.issue is Some && p.issue->0@.len() > 0 ==> has_line(s, "IS"@, p.issue->0@)
            &&& p.doi is Some && p.doi->0@.len() > 0 ==> has_line(s, "DO"@, p.doi->0@)
            &&& p.url is Some && p.url->0@.len() > 0 ==> has_line(s, "UR"@, p.url->0@)
            &&& p.abstract_text is Some && p.abstract_text->0@.len() > 0 ==> has_line(s, "AB"@, p.abstract_text->0@)
            &&& p.publisher is Some && p.publisher->0@.len() > 0 ==> has_line(s, "PB"@, p.publisher->0@)
            &&& p.pages is Some && p.pages->0@.len() > 0 && split_once(p.pages->0@, "-"@) is None
                ==> has_line(s, "SP"@, p.pages->0@)
            &&& p.pages is Some && p.pages->0@.len() > 0 && split_once(p.pages->0@, "-"@) is Some ==> ({
                let (a, b) = split_once(p.pages->0@, "-"@)->0;
                has_line(s, "SP"@, trim(a)) && has_line(s, "EP"@, trim(b))
            })
        }),
{
    let s = ris_text(p, authors);
    lemma_ris_parts(p, authors);
    if p.pages is Some && p.pages->0@.len() > 0 {
        if let Some((a, b)) = split_once(p.pages->0@, "-"@) {
            let first = ris_line("SP"@, trim(a));
            let second = ris_line("EP"@, trim(b));
            let both = ris_pages(opt_text(p.pages));
            let none = Seq::<char>::empty();
            assert(both =~= none + first + second);
            assert(both =~= first + second + none);
            assert(is_made_of(both, none, first, second));
            assert(is_made_of(both, first, second, none));
            lemma_inner(first, both, s);
            lemma_inner(second, both, s);
        }
    }
}

// ---------------------------------------------------------------------------------------------
// CSL
// ---------------------------------------------------------------------------------------------
/// Whether an object has a member.
pub open spec fn has_member(v: JsonModel, key: Seq<char>, x: JsonModel) -> bool {
    v is Object && exists|i: int|
        0 <= i < v->Object_0.len() && (#[trigger] v->Object_0[i]).key == key && v->Object_0[i].value
            == x
}

/// Whether an object has the first of a row of members, where there is one.
spec fn has_first(v: JsonModel, x: Seq<MemberModel>) -> bool {
    x.len() > 0 ==> has_member(v, x[0].key, x[0].value)
}

proof fn lemma_step(v: JsonModel, a: Seq<MemberModel>, x: Seq<MemberModel>)
    requires
        v is Object,
        is_start(a + x, v->Object_0),
    ensures
        is_start(a, v->Object_0),
        has_first(v, x),
{
    lemma_start(a, x, v->Object_0);
    if x.len() > 0 {
        assert(v->Object_0[a.len() as int] == x[0]);
    }
}

proof fn lemma_csl_parts(
    p: Paper,
    key: Seq<char>,
    authors: Seq<Seq<char>>,
    editors: Seq<Seq<char>>,
)
    ensures
        ({
            let v = csl_item_model(p, key, authors, editors);
            &&& has_member(v, "id"@, JsonModel::Str(key))
            &&& has_member(v, "type"@, JsonModel::Str(csl_type_of(opt_text(p.item_type))))
            &&& has_member(v, "title"@, JsonModel::Str(p.title@))
            &&& has_first(v, csl_people("author"@, authors))
            &&& has_first(v, csl_people("editor"@, editors))
            &&& has_first(v, csl_issued(p.year))
            &&& has_first(v, csl_text("container-title"@, opt_text(p.journal)))
            &&& has_first(v, csl_text("volume"@, opt_text(p.volume)))
            &&& has_first(v, csl_text("issue"@, opt_text(p.issue)))
            &&& has_first(v, csl_text("page"@, opt_text(p.pages)))
            &&& has_first(v, csl_text("DOI"@, opt_text(p.doi)))
            &&& has_first(v, csl_text("URL"@, opt_text(p.url)))
            &&& has_first(v, csl_text("abstract"@, opt_text(p.abstract_text)))
            &&& has_first(v, csl_text("publisher"@, opt_text(p.publisher)))
            &&& has_first(v, csl_text("ISBN"@, opt_text(p.isbn)))
        }),
{
    let v = csl_item_model(p, key, authors, editors);
    let all = v->Object_0;
    let a0 = seq![
        MemberModel { key: "id"@, value: JsonModel::Str(key) },
        MemberModel {
            key: "type"@,
            value: JsonModel::Str(csl_type_of(opt_text(p.item_type))),
        },
        MemberModel { key: "title"@, value: JsonModel::Str(p.title@) },
    ];
    let a1 = a0 + csl_people("author"@, authors);
    let a2 = a1 + csl_people("editor"@, editors);
    let a3 = a2 + csl_issued(p.year);
    let a4 = a3 + csl_text("container-title"@, opt_text(p.journal));
    let a5 = a4 + csl_text("volume"@, opt_text(p.volume));
    let a6 = a5 + csl_text("issue"@, opt_text(p.issue));
    let a7 = a6 + csl_text("page"@, opt_text(p.pages));
    let a8 = a7 + csl_text("DOI"@, opt_text(p.doi));
    let a9 = a8 + csl_text("URL"@, opt_text(p.url));
    let a10 = a9 + csl_text("abstract"@, opt_text(p.abstract_text));
    let a11 = a10 + csl_text("publisher"@, opt_text(p.publisher));
    let a12 = a11 + csl_text("ISBN"@, opt_text(p.isbn));
    assert(all == a12);
    assert(is_start(a12, all)) by {
        assert(all.take(all.len() as int) =~= all);
    }
    lemma_step(v, a11, csl_text("ISBN"@, opt_text(p.isbn)));
    lemma_step(v, a10, csl_text("publisher"@, opt_text(p.publisher)));
    lemma_step(v, a9, csl_text("abstract"@, opt_text(p.abstract_text)));
    lemma_step(v, a8, csl_text("URL"@, opt_text(p.url)));
    lemma_step(v, a7, csl_text("DOI"@, opt_text(p.doi)));
    lemma_step(v, a6, csl_text("page"@, opt_text(p.pages)));
    lemma_step(v, a5, csl_text("issue"@, opt_text(p.issue)));
    lemma_step(v, a4, csl_text("volume"@, opt_text(p.volume)));
    lemma_step(v, a3, csl_text("container-title"@, opt_text(p.journal)));
    lemma_step(v, a2, csl_issued(p.year));
    lemma_step(v, a1, csl_people("editor"@, editors));
    lemma_step(v, a0, csl_people("author"@, authors));
    assert(all.take(3) == a0);
    assert(all.take(3)[0] == all[0] && all.take(3)[1] == all[1] && all.take(3)[2] == all[2]);
    assert(all[0] == a0[0] && all[1] == a0[1] && all[2] == a0[2]);
}

/// The item of a paper has the key, the type and the title, all authors and editors, the year, and what
/// else is known of it: the journal, the volume, the issue, the pages, the DOI, the address, the
/// abstract, the publisher and the ISBN.
pub proof fn law_csl_item_has_every_field(
    p: Paper,
    key: Seq<char>,
    authors: Seq<Seq<char>>,
    editors: Seq<Seq<char>>,
)
    ensures
        ({
            let v = csl_item_model(p, key, authors, editors);
            &&& has_member(v, "id"@, JsonModel::Str(key))
            &&& has_member(v, "type"@, JsonModel::Str(csl_type_of(opt_text(p.item_type))))
            &&& has_member(v, "title"@, JsonModel::Str(p.title@))
            &&& authors.len() > 0 ==> has_member(
                v,
                "author"@,
                JsonModel::Array(Seq::new(authors.len(), |i: int| csl_name(authors[i]))),
            )
            &&& editors.len() > 0 ==> has_member(
                v,
                "editor"@,
                JsonModel::Array(Seq::new(editors.len(), |i: int| csl_name(editors[i]))),
            )
            &&& p.year is Some ==> has_member(
                v,
                "issued"@,
                JsonModel::Object(
                    seq![
                        MemberModel {
                            key: "date-parts"@,
                            value: JsonModel::Array(
                                seq![JsonModel::Array(seq![JsonModel::Int(p.year->0 as int)])],
                            ),
                        },
                    ],
                ),
            )
            &&& p.journal is Some && p.journal->0@.len() > 0 ==> has_member(
                v,
                "container-title"@,
                JsonModel::Str(p.journal->0@),
            )
            &&& p.volume is Some && p.volume->0@.len() > 0 ==> has_member(
                v,
                "volume"@,
                JsonModel::Str(p.volume->0@),
            )
            &&& p.issue is Some && p.issue->0@.len() > 0 ==> has_member(
                v,
                "issue"@,
                JsonModel::Str(p.issue->0@),
            )
            &&& p.pages is Some && p.pages->0@.len() > 0 ==> has_member(
                v,
                "page"@,
                JsonModel::Str(p.pages->0@),
            )
            &&& p.doi is Some && p.doi->0@.len() > 0 ==> has_member(
                v,
                "DOI"@,
                JsonModel::Str(p.doi->0@),
            )
            &&& p.url is Some && p.url->0@.len() > 0 ==> has_member(
                v,
                "URL"@,
                JsonModel::Str(p.url->0@),
            )
            &&& p.abstract_text is Some && p.abstract_text->0@.len() > 0 ==> has_member(
                v,
                "abstract"@,
                JsonModel::Str(p.abstract_text->0@),
            )
            &&& p.publisher is Some && p.publisher->0@.len() > 0 ==> has_member(
                v,
                "publisher"@,
                JsonModel::Str(p.publisher->0@),
            )
            &&& p.isbn is Some && p.isbn->0@.len() > 0 ==> has_member(
                v,
                "ISBN"@,
                JsonModel::Str(p.isbn->0@),
            )
        }),
{
    lemma_csl_parts(p, key, authors, editors);
}

/// A name stands in an item as it is.
pub proof fn law_csl_name_is_whole(name: Seq<char>)
    ensures
        has_member(csl_name(name), "literal"@, JsonModel::Str(name)),
{
    assert(csl_name(name)->Object_0[0].key == "literal"@);
}

/// Every paper of a list has its item, in their order, under its citation key.
pub proof fn law_every_paper_has_its_item(papers: Seq<Paper>, k: int)
    requires
        0 <= k < papers.len(),
    ensures
        csl_items_model(papers) is Array,
        csl_items_model(papers)->Array_0.len() == papers.len(),
        csl_items_model(papers)->Array_0[k] == csl_item_model(
            papers[k],
            citation_key(papers[k]),
            names_in(papers[k].authors@),
            names_in(papers[k].editor@),
        ),
{
}

/// The citation key of a paper is the one that is stored; without one it is made of the last word of the
/// first author's name and the year, and where no author has a name, of the paper's id.
pub proof fn law_citation_key(p: Paper, first: Seq<char>, word: Seq<char>)
    ensures
        p.citation_key is Some && p.citation_key->0@.len() > 0 ==> citation_key(p)
            == p.citation_key->0@,
        (p.citation_key is None || p.citation_key->0@.len() == 0) && names_in(p.authors@).len() > 0
            && names_in(p.authors@)[0] == first && words(first).len() > 0 && words(first).last()
            == word ==> citation_key(p) == (if p.year is Some {
            word + signed_decimal(p.year->0 as int)
        } else {
            word + "n.d."@
        }),
        (p.citation_key is None || p.citation_key->0@.len() == 0) && names_in(p.authors@).len() == 0
            ==> citation_key(p) == "anon-"@ + p.id@,
{
}

} // verus!
