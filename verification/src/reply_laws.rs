//! What the replies of the literature services say is what the records hold: every person of a reply,
//! in its order, and every field under its key.
use vstd::prelude::*;
use vstd::string::*;

use crate::json::{member_from, JsonModel, MemberModel};
use crate::link_import::{
    abstract_parts, by_position, crossref_model, date_year, index_abstract, index_tokens, isbn_model, law_tokens_in_position_order, last_year, low_word, names_by, openalex_model,
    pubmed_abstract, pubmed_model, semantic_scholar_model, untagged, word_tokens, year_in, NameRule,
    TokenModel,
};
use crate::order::{in_order, sorted};
use crate::text::{join, trim, words};
use crate::xml::EventModel;

verus! {

// ---------------------------------------------------------------------------------------------
// Members
// ---------------------------------------------------------------------------------------------
/// Whether a value is an object in which the first member with a key has the given value.
pub open spec fn says(v: JsonModel, key: Seq<char>, x: JsonModel) -> bool {
    v is Object && exists|i: int|
        0 <= i < v->Object_0.len() && (#[trigger] v->Object_0[i]).key == key && v->Object_0[i].value
            == x && forall|j: int| 0 <= j < i ==> (#[trigger] v->Object_0[j]).key != key
}

/// Whether no member of a value has a key.
pub open spec fn lacks(v: JsonModel, key: Seq<char>) -> bool {
    v is Object ==> forall|i: int|
        0 <= i < v->Object_0.len() ==> (#[trigger] v->Object_0[i]).key != key
}

proof fn lemma_member_from(v: JsonModel, key: Seq<char>, i: int, k: int)
    requires
        v is Object,
        0 <= i <= k <= v->Object_0.len(),
        forall|j: int| i <= j < k ==> (#[trigger] v->Object_0[j]).key != key,
    ensures
        member_from(v->Object_0, key, i) == member_from(v->Object_0, key, k),
    decreases k - i,
{
    if i < k {
        assert(v->Object_0[i].key != key);
        lemma_member_from(v, key, i + 1, k);
    }
}

/// An object gives under a key what its first member with the key holds, and nothing under a key that
/// it lacks.
pub proof fn law_member_is_found(v: JsonModel, key: Seq<char>, x: JsonModel)
    ensures
        says(v, key, x) ==> v.get(key) == Some(x),
        lacks(v, key) ==> v.get(key) is None,
{
    if says(v, key, x) {
        let i = choose|i: int|
            0 <= i < v->Object_0.len() && (#[trigger] v->Object_0[i]).key == key
                && v->Object_0[i].value == x && forall|j: int|
                0 <= j < i ==> (#[trigger] v->Object_0[j]).key != key;
        lemma_member_from(v, key, 0, i);
    }
    if v is Object && lacks(v, key) {
        lemma_member_from(v, key, 0, v->Object_0.len() as int);
    }
}

// ---------------------------------------------------------------------------------------------
// People
// ---------------------------------------------------------------------------------------------
/// The people of two lists, one behind the other, are those of the first and then those of the
/// second: nobody is lost, and the order is kept.
pub proof fn law_people_of_two_lists(rule: NameRule, a: Seq<JsonModel>, b: Seq<JsonModel>)
    ensures
        names_by(rule, a + b) == names_by(rule, a) + names_by(rule, b),
    decreases b.len(),
{
    if b.len() == 0 {
        assert(a + b =~= a);
        assert(names_by(rule, b) =~= Seq::empty());
    } else {
        law_people_of_two_lists(rule, a, b.drop_last());
        assert((a + b).drop_last() =~= a + b.drop_last());
        assert((a + b).last() == b.last());
    }
}

/// Whether an item of a list of people names somebody with a family name.
pub open spec fn is_person(item: JsonModel, given: Seq<char>, family: Seq<char>) -> bool {
    &&& says(item, "family"@, JsonModel::Str(family))
    &&& family.len() > 0
    &&& says(item, "given"@, JsonModel::Str(given)) || (lacks(item, "given"@) && given.len() == 0)
}

/// Where each item has a family name there are as many people as items, each with the given name, a
/// blank and the family name.
pub proof fn law_every_person_is_named(
    items: Seq<JsonModel>,
    given: Seq<Seq<char>>,
    family: Seq<Seq<char>>,
)
    requires
        given.len() == items.len(),
        family.len() == items.len(),
        forall|i: int|
            0 <= i < items.len() ==> is_person(#[trigger] items[i], given[i], family[i]),
    ensures
        names_by(NameRule::GivenFamily, items).len() == items.len(),
        forall|i: int|
            0 <= i < items.len() ==> #[trigger] names_by(NameRule::GivenFamily, items)[i] == trim(
                given[i] + " "@ + family[i],
            ),
    decreases items.len(),
{
    if items.len() > 0 {
        let n = items.len() - 1;
        assert forall|i: int| 0 <= i < n implies is_person(
            #[trigger] items.drop_last()[i],
            given.drop_last()[i],
            family.drop_last()[i],
        ) by {
            assert(is_person(items[i], given[i], family[i]));
        }
        law_every_person_is_named(items.drop_last(), given.drop_last(), family.drop_last());
        assert(is_person(items[n], given[n], family[n]));
        law_member_is_found(items[n], "family"@, JsonModel::Str(family[n]));
        law_member_is_found(items[n], "given"@, JsonModel::Str(given[n]));
        if lacks(items[n], "given"@) {
            assert(given[n] =~= Seq::empty());
        }
        let before = names_by(NameRule::GivenFamily, items.drop_last());
        assert(names_by(NameRule::GivenFamily, items) == before.push(
            trim(given[n] + " "@ + family[n]),
        ));
        assert forall|i: int| 0 <= i < items.len() implies #[trigger] names_by(
            NameRule::GivenFamily,
            items,
        )[i] == trim(given[i] + " "@ + family[i]) by {
            if i < n {
                assert(names_by(NameRule::GivenFamily, items)[i] == before[i]);
                assert(before[i] == trim(given.drop_last()[i] + " "@ + family.drop_last()[i]));
            }
        }
    }
}

/// An item without a family name, or with an empty one, names nobody, wherever it stands.
pub proof fn law_nobody_without_family_name(a: Seq<JsonModel>, item: JsonModel, b: Seq<JsonModel>)
    requires
        lacks(item, "family"@) || says(item, "family"@, JsonModel::Str(Seq::empty())),
    ensures
        names_by(NameRule::GivenFamily, a + seq![item] + b) == names_by(NameRule::GivenFamily, a + b),
{
    let rule = NameRule::GivenFamily;
    law_member_is_found(item, "family"@, JsonModel::Str(Seq::empty()));
    law_people_of_two_lists(rule, a + seq![item], b);
    law_people_of_two_lists(rule, a, seq![item]);
    law_people_of_two_lists(rule, a, b);
    let none = Seq::<JsonModel>::empty();
    assert(names_by(rule, none) =~= Seq::empty());
    assert(seq![item].drop_last() =~= none);
    assert(seq![item].last() == item);
    assert(names_by(rule, seq![item]) =~= Seq::empty());
    assert(names_by(rule, a) + Seq::<Seq<char>>::empty() =~= names_by(rule, a));
}

/// Where each item has a name there are as many people as items, with those names.
pub proof fn law_every_name_is_taken(items: Seq<JsonModel>, names: Seq<Seq<char>>)
    requires
        names.len() == items.len(),
        forall|i: int|
            0 <= i < items.len() ==> says(#[trigger] items[i], "name"@, JsonModel::Str(names[i])),
    ensures
        names_by(NameRule::Name, items) == names,
    decreases items.len(),
{
    if items.len() > 0 {
        let n = items.len() - 1;
        assert forall|i: int| 0 <= i < n implies says(
            #[trigger] items.drop_last()[i],
            "name"@,
            JsonModel::Str(names.drop_last()[i]),
        ) by {
            assert(says(items[i], "name"@, JsonModel::Str(names[i])));
        }
        law_every_name_is_taken(items.drop_last(), names.drop_last());
        assert(says(items[n], "name"@, JsonModel::Str(names[n])));
        law_member_is_found(items[n], "name"@, JsonModel::Str(names[n]));
        assert(names.drop_last().push(names[n]) =~= names);
    } else {
        assert(names =~= Seq::empty());
    }
}

/// Whether an item of a list of authorships names somebody.
pub open spec fn is_authorship(item: JsonModel, name: Seq<char>) -> bool {
    exists|author: JsonModel| #[trigger]
        says(item, "author"@, author) && says(author, "display_name"@, JsonModel::Str(name))
}

/// Where each authorship has an author with a name there are as many people as items, with those
/// names.
pub proof fn law_every_authorship_is_taken(items: Seq<JsonModel>, names: Seq<Seq<char>>)
    requires
        names.len() == items.len(),
        forall|i: int| 0 <= i < items.len() ==> is_authorship(#[trigger] items[i], names[i]),
    ensures
        names_by(NameRule::AuthorDisplayName, items) == names,
    decreases items.len(),
{
    if items.len() > 0 {
        let n = items.len() - 1;
        assert forall|i: int| 0 <= i < n implies is_authorship(
            #[trigger] items.drop_last()[i],
            names.drop_last()[i],
        ) by {
            assert(is_authorship(items[i], names[i]));
        }
        law_every_authorship_is_taken(items.drop_last(), names.drop_last());
        assert(is_authorship(items[n], names[n]));
        let author = choose|author: JsonModel| #[trigger]
            says(items[n], "author"@, author) && says(
                author,
                "display_name"@,
                JsonModel::Str(names[n]),
            );
        law_member_is_found(items[n], "author"@, author);
        law_member_is_found(author, "display_name"@, JsonModel::Str(names[n]));
        assert(names.drop_last().push(names[n]) =~= names);
    } else {
        assert(names =~= Seq::empty());
    }
}

// ---------------------------------------------------------------------------------------------
// CrossRef
// ---------------------------------------------------------------------------------------------
/// Whether a reply holds a message with a title.
pub open spec fn is_message(reply: JsonModel, msg: JsonModel, title: Seq<char>) -> bool {
    says(reply, "message"@, msg) && exists|list: Seq<JsonModel>| #[trigger]
        says(msg, "title"@, JsonModel::Array(list)) && list.len() > 0 && list[0] == JsonModel::Str(
            title,
        )
}

proof fn lemma_message(doi: Seq<char>, reply: JsonModel, msg: JsonModel, title: Seq<char>)
    requires
        is_message(reply, msg, title),
    ensures
        reply.get("message"@) == Some(msg),
        crossref_model(doi, reply) is Some,
        crossref_model(doi, reply)->0.title == title,
{
    law_member_is_found(reply, "message"@, msg);
    let list = choose|list: Seq<JsonModel>| #[trigger]
        says(msg, "title"@, JsonModel::Array(list)) && list.len() > 0 && list[0] == JsonModel::Str(
            title,
        );
    law_member_is_found(msg, "title"@, JsonModel::Array(list));
}

/// The record of a CrossRef reply whose authors all have family names has all of them, in their
/// order, by given name and family name.
pub proof fn law_crossref_authors(
    doi: Seq<char>,
    reply: JsonModel,
    msg: JsonModel,
    title: Seq<char>,
    items: Seq<JsonModel>,
    given: Seq<Seq<char>>,
    family: Seq<Seq<char>>,
)
    requires
        is_message(reply, msg, title),
        says(msg, "author"@, JsonModel::Array(items)),
        given.len() == items.len(),
        family.len() == items.len(),
        forall|i: int|
            0 <= i < items.len() ==> is_person(#[trigger] items[i], given[i], family[i]),
    ensures
        crossref_model(doi, reply) is Some,
        crossref_model(doi, reply)->0.authors.len() == items.len(),
        forall|i: int|
            0 <= i < items.len() ==> #[trigger] crossref_model(doi, reply)->0.authors[i] == trim(
                given[i] + " "@ + family[i],
            ),
{
    lemma_message(doi, reply, msg, title);
    law_member_is_found(msg, "author"@, JsonModel::Array(items));
    law_every_person_is_named(items, given, family);
}

/// Whether a date of a message starts with a year.
pub open spec fn is_dated(msg: JsonModel, key: Seq<char>, y: i32) -> bool {
    exists|date: JsonModel, outer: Seq<JsonModel>, inner: Seq<JsonModel>|
        #![trigger says(msg, key, date), says(date, "date-parts"@, JsonModel::Array(outer)), inner.len()]
        says(msg, key, date) && says(date, "date-parts"@, JsonModel::Array(outer)) && outer.len() > 0
            && outer[0] == JsonModel::Array(inner) && inner.len() > 0 && inner[0] == JsonModel::Int(
            y as int,
        )
}

proof fn lemma_dated(msg: JsonModel, key: Seq<char>, y: i32)
    ensures
        is_dated(msg, key, y) ==> date_year(Some(msg), key) == Some(y as int),
        lacks(msg, key) ==> date_year(Some(msg), key) is None,
{
    law_member_is_found(msg, key, msg);
    if is_dated(msg, key, y) {
        let (date, outer, inner) = choose|
            date: JsonModel,
            outer: Seq<JsonModel>,
            inner: Seq<JsonModel>,
        |
            #![trigger says(msg, key, date), says(date, "date-parts"@, JsonModel::Array(outer)), inner.len()]
            says(msg, key, date) && says(date, "date-parts"@, JsonModel::Array(outer)) && outer.len()
                > 0 && outer[0] == JsonModel::Array(inner) && inner.len() > 0 && inner[0]
                == JsonModel::Int(y as int);
        law_member_is_found(msg, key, date);
        law_member_is_found(date, "date-parts"@, JsonModel::Array(outer));
    }
}

/// A year is kept as it is.
proof fn lemma_year_is_kept(y: i32)
    ensures
        low_word(y as int) == y,
{
    if y < 0 {
        vstd::arithmetic::div_mod::lemma_fundamental_div_mod_converse(
            y as int,
            4294967296,
            -1,
            4294967296 + y as int,
        );
    }
}

/// The record of a CrossRef reply has the DOI that was asked for, and the title, journal, address and
/// year that the message gives: the year of the print before that of the first appearance online, and
/// this before that of the entry.
pub proof fn law_crossref_fields(
    doi: Seq<char>,
    reply: JsonModel,
    msg: JsonModel,
    title: Seq<char>,
    s: Seq<char>,
    list: Seq<JsonModel>,
    y: i32,
)
    requires
        is_message(reply, msg, title),
    ensures
        crossref_model(doi, reply) is Some,
        ({
            let m = crossref_model(doi, reply)->0;
            &&& m.title == title
            &&& m.doi == Some(doi)
            &&& says(msg, "URL"@, JsonModel::Str(s)) ==> m.url == Some(s)
            &&& says(msg, "container-title"@, JsonModel::Array(list)) && list.len() > 0 && list[0]
                == JsonModel::Str(s) ==> m.journal == Some(s)
            &&& is_dated(msg, "published-print"@, y) ==> m.year == Some(y)
            &&& lacks(msg, "published-print"@) && is_dated(msg, "published-online"@, y) ==> m.year
                == Some(y)
            &&& lacks(msg, "published-print"@) && lacks(msg, "published-online"@) && is_dated(
                msg,
                "created"@,
                y,
            ) ==> m.year == Some(y)
        }),
{
    lemma_message(doi, reply, msg, title);
    law_member_is_found(msg, "URL"@, JsonModel::Str(s));
    law_member_is_found(msg, "container-title"@, JsonModel::Array(list));
    lemma_dated(msg, "published-print"@, y);
    lemma_dated(msg, "published-online"@, y);
    lemma_dated(msg, "created"@, y);
    lemma_year_is_kept(y);
}

/// Tags apart, the text of an abstract is kept: of two texts without tag signs with a tag between,
/// both are left.
pub proof fn law_tags_go_and_text_stays(a: Seq<char>, tag: Seq<char>, b: Seq<char>)
    requires
        forall|i: int| 0 <= i < a.len() ==> (#[trigger] a[i]) != '<' && a[i] != '>',
        forall|i: int| 0 <= i < tag.len() ==> (#[trigger] tag[i]) != '>',
        forall|i: int| 0 <= i < b.len() ==> (#[trigger] b[i]) != '<' && b[i] != '>',
    ensures
        untagged(a + seq!['<'] + tag + seq!['>'] + b, false) == a + b,
{
    let rest = tag + seq!['>'] + b;
    lemma_plain_text(a, seq!['<'] + rest);
    assert(a + seq!['<'] + tag + seq!['>'] + b =~= a + (seq!['<'] + rest));
    assert((seq!['<'] + rest).skip(1) =~= rest);
    lemma_inside_tag(tag, seq!['>'] + b);
    assert(rest =~= tag + (seq!['>'] + b));
    assert((seq!['>'] + b).skip(1) =~= b);
    lemma_plain_text(b, Seq::empty());
    assert(b + Seq::<char>::empty() =~= b);
}

proof fn lemma_plain_text(a: Seq<char>, rest: Seq<char>)
    requires
        forall|i: int| 0 <= i < a.len() ==> (#[trigger] a[i]) != '<' && a[i] != '>',
    ensures
        untagged(a + rest, false) == a + untagged(rest, false),
    decreases a.len(),
{
    if a.len() == 0 {
        assert(a + rest =~= rest);
        assert(a + untagged(rest, false) =~= untagged(rest, false));
    } else {
        let t = a.skip(1);
        assert forall|i: int| 0 <= i < t.len() implies (#[trigger] t[i]) != '<' && t[i] != '>' by {
            assert(t[i] == a[i + 1]);
        }
        lemma_plain_text(t, rest);
        assert((a + rest)[0] == a[0]);
        assert((a + rest).skip(1) =~= t + rest);
        assert(seq![a[0]] + (t + untagged(rest, false)) =~= a + untagged(rest, false));
    }
}

proof fn lemma_inside_tag(tag: Seq<char>, rest: Seq<char>)
    requires
        forall|i: int| 0 <= i < tag.len() ==> (#[trigger] tag[i]) != '>',
    ensures
        untagged(tag + rest, true) == untagged(rest, true),
    decreases tag.len(),
{
    if tag.len() == 0 {
        assert(tag + rest =~= rest);
    } else {
        let t = tag.skip(1);
        assert forall|i: int| 0 <= i < t.len() implies (#[trigger] t[i]) != '>' by {
            assert(t[i] == tag[i + 1]);
        }
        lemma_inside_tag(t, rest);
        assert((tag + rest)[0] == tag[0]);
        assert((tag + rest).skip(1) =~= t + rest);
    }
}

/// The abstract of a CrossRef reply is the text of the message's abstract without its tags; one that
/// holds tags only is missing.
pub proof fn law_crossref_abstract(
    doi: Seq<char>,
    reply: JsonModel,
    msg: JsonModel,
    title: Seq<char>,
    s: Seq<char>,
)
    requires
        is_message(reply, msg, title),
        says(msg, "abstract"@, JsonModel::Str(s)),
    ensures
        crossref_model(doi, reply) is Some,
        untagged(s, false).len() > 0 ==> crossref_model(doi, reply)->0.abstract_text == Some(
            untagged(s, false),
        ),
        untagged(s, false).len() == 0 ==> crossref_model(doi, reply)->0.abstract_text is None,
{
    lemma_message(doi, reply, msg, title);
    law_member_is_found(msg, "abstract"@, JsonModel::Str(s));
}

// ---------------------------------------------------------------------------------------------
// OpenAlex
// ---------------------------------------------------------------------------------------------
/// The record of an OpenAlex reply has every author with a name, in their order.
pub proof fn law_openalex_authors(
    doi: Seq<char>,
    reply: JsonModel,
    title: Seq<char>,
    items: Seq<JsonModel>,
    names: Seq<Seq<char>>,
)
    requires
        says(reply, "display_name"@, JsonModel::Str(title)),
        says(reply, "authorships"@, JsonModel::Array(items)),
        names.len() == items.len(),
        forall|i: int| 0 <= i < items.len() ==> is_authorship(#[trigger] items[i], names[i]),
    ensures
        openalex_model(doi, reply) is Some,
        openalex_model(doi, reply)->0.authors == names,
{
    law_member_is_found(reply, "display_name"@, JsonModel::Str(title));
    law_member_is_found(reply, "authorships"@, JsonModel::Array(items));
    law_every_authorship_is_taken(items, names);
}

/// The record of an OpenAlex reply has the DOI that was asked for, and the title, year, journal,
/// address and open PDF that the reply gives; without an address, that of the DOI.
pub proof fn law_openalex_fields(
    doi: Seq<char>,
    reply: JsonModel,
    title: Seq<char>,
    place: JsonModel,
    inner: JsonModel,
    s: Seq<char>,
    y: i32,
)
    requires
        says(reply, "display_name"@, JsonModel::Str(title)),
    ensures
        openalex_model(doi, reply) is Some,
        ({
            let m = openalex_model(doi, reply)->0;
            &&& m.title == title
            &&& m.doi == Some(doi)
            &&& says(reply, "publication_year"@, JsonModel::Int(y as int)) ==> m.year == Some(y)
            &&& says(reply, "primary_location"@, place) && says(
                place,
                "landing_page_url"@,
                JsonModel::Str(s),
            ) ==> m.url == Some(s)
            &&& lacks(reply, "primary_location"@) ==> m.url == Some("https://doi.org/"@ + doi)
            &&& says(reply, "primary_location"@, place) && says(place, "source"@, inner) && says(
                inner,
                "display_name"@,
                JsonModel::Str(s),
            ) ==> m.journal == Some(s)
            &&& says(reply, "open_access"@, inner) && says(inner, "oa_url"@, JsonModel::Str(s))
                ==> m.pdf_url == Some(s)
            &&& says(reply, "abstract_inverted_index"@, inner) ==> m.abstract_text
                == index_abstract(inner)
        }),
{
    law_member_is_found(reply, "display_name"@, JsonModel::Str(title));
    law_member_is_found(reply, "publication_year"@, JsonModel::Int(y as int));
    law_member_is_found(reply, "primary_location"@, place);
    law_member_is_found(place, "landing_page_url"@, JsonModel::Str(s));
    law_member_is_found(place, "source"@, inner);
    law_member_is_found(inner, "display_name"@, JsonModel::Str(s));
    law_member_is_found(reply, "open_access"@, inner);
    law_member_is_found(inner, "oa_url"@, JsonModel::Str(s));
    law_member_is_found(reply, "abstract_inverted_index"@, inner);
    lemma_year_is_kept(y);
}

// ---------------------------------------------------------------------------------------------
// Semantic Scholar
// ---------------------------------------------------------------------------------------------
/// The record of a Semantic Scholar reply has every author with a name, in their order.
pub proof fn law_semantic_scholar_authors(
    id: Seq<char>,
    reply: JsonModel,
    title: Seq<char>,
    items: Seq<JsonModel>,
    names: Seq<Seq<char>>,
)
    requires
        says(reply, "title"@, JsonModel::Str(title)),
        says(reply, "authors"@, JsonModel::Array(items)),
        names.len() == items.len(),
        forall|i: int|
            0 <= i < items.len() ==> says(#[trigger] items[i], "name"@, JsonModel::Str(names[i])),
    ensures
        semantic_scholar_model(id, reply) is Some,
        semantic_scholar_model(id, reply)->0.authors == names,
{
    law_member_is_found(reply, "title"@, JsonModel::Str(title));
    law_member_is_found(reply, "authors"@, JsonModel::Array(items));
    law_every_name_is_taken(items, names);
}

/// The record of a Semantic Scholar reply has the title, year, journal, DOI, abstract and open PDF that
/// the reply gives, and the address of the paper there.
pub proof fn law_semantic_scholar_fields(
    id: Seq<char>,
    reply: JsonModel,
    title: Seq<char>,
    pdf: JsonModel,
    s: Seq<char>,
    y: i32,
)
    requires
        says(reply, "title"@, JsonModel::Str(title)),
    ensures
        semantic_scholar_model(id, reply) is Some,
        ({
            let m = semantic_scholar_model(id, reply)->0;
            &&& m.title == title
            &&& m.url == Some("https://semanticscholar.org/paper/"@ + id)
            &&& says(reply, "year"@, JsonModel::Int(y as int)) ==> m.year == Some(y)
            &&& says(reply, "venue"@, JsonModel::Str(s)) ==> m.journal == Some(s)
            &&& says(reply, "doi"@, JsonModel::Str(s)) ==> m.doi == Some(s)
            &&& says(reply, "abstract"@, JsonModel::Str(s)) ==> m.abstract_text == Some(s)
            &&& says(reply, "openAccessPdf"@, pdf) && says(pdf, "url"@, JsonModel::Str(s))
                ==> m.pdf_url == Some(s)
        }),
{
    law_member_is_found(reply, "title"@, JsonModel::Str(title));
    law_member_is_found(reply, "year"@, JsonModel::Int(y as int));
    law_member_is_found(reply, "venue"@, JsonModel::Str(s));
    law_member_is_found(reply, "doi"@, JsonModel::Str(s));
    law_member_is_found(reply, "abstract"@, JsonModel::Str(s));
    law_member_is_found(reply, "openAccessPdf"@, pdf);
    law_member_is_found(pdf, "url"@, JsonModel::Str(s));
    lemma_year_is_kept(y);
}

// ---------------------------------------------------------------------------------------------
// OpenLibrary
// ---------------------------------------------------------------------------------------------
/// The record of an OpenLibrary reply has the ISBN that was asked for, the title, every author with a
/// name, the address, and the last word of the publishing date that is a year.
pub proof fn law_isbn_fields(
    isbn: Seq<char>,
    reply: JsonModel,
    data: JsonModel,
    title: Seq<char>,
    items: Seq<JsonModel>,
    names: Seq<Seq<char>>,
    s: Seq<char>,
)
    requires
        says(reply, "ISBN:"@ + isbn, data),
        says(data, "title"@, JsonModel::Str(title)),
        title.len() > 0,
        names.len() == items.len(),
        forall|i: int|
            0 <= i < items.len() ==> says(#[trigger] items[i], "name"@, JsonModel::Str(names[i])),
    ensures
        isbn_model(isbn, reply) is Some,
        ({
            let m = isbn_model(isbn, reply)->0;
            &&& m.title == title
            &&& m.isbn == Some(isbn)
            &&& says(data, "authors"@, JsonModel::Array(items)) ==> m.authors == names
            &&& says(data, "url"@, JsonModel::Str(s)) ==> m.url == Some(s)
            &&& says(data, "publish_date"@, JsonModel::Str(s)) ==> m.year == last_year(words(s))
        }),
{
    law_member_is_found(reply, "ISBN:"@ + isbn, data);
    law_member_is_found(data, "title"@, JsonModel::Str(title));
    law_member_is_found(data, "authors"@, JsonModel::Array(items));
    law_member_is_found(data, "url"@, JsonModel::Str(s));
    law_member_is_found(data, "publish_date"@, JsonModel::Str(s));
    law_every_name_is_taken(items, names);
}

/// The year of a date is that of its last word that is a number: words behind it that are none do not
/// matter, and neither do the words before it.
pub proof fn law_last_year_counts(before: Seq<Seq<char>>, year: Seq<char>, behind: Seq<Seq<char>>)
    requires
        year_in(year) is Some,
        forall|i: int| 0 <= i < behind.len() ==> year_in(#[trigger] behind[i]) is None,
    ensures
        last_year(before + seq![year] + behind) == year_in(year),
        last_year(behind) is None,
    decreases behind.len(),
{
    let all = before + seq![year] + behind;
    if behind.len() == 0 {
        assert(all.last() == year);
    } else {
        let n = behind.len() - 1;
        assert forall|i: int| 0 <= i < n implies year_in(
            #[trigger] behind.drop_last()[i],
        ) is None by {
            assert(behind.drop_last()[i] == behind[i]);
        }
        law_last_year_counts(before, year, behind.drop_last());
        assert(all.last() == behind[n]);
        assert(all.drop_last() =~= before + seq![year] + behind.drop_last());
    }
}

// ---------------------------------------------------------------------------------------------
// PubMed
// ---------------------------------------------------------------------------------------------
/// The record of a PubMed summary has the title, every author with a name, the journal, the DOI, the
/// abstract that was fetched beside it, the year that the date starts with, and the address of the
/// paper there.
pub proof fn law_pubmed_fields(
    id: Seq<char>,
    abstract_text: Option<Seq<char>>,
    reply: JsonModel,
    result: JsonModel,
    doc: JsonModel,
    title: Seq<char>,
    items: Seq<JsonModel>,
    names: Seq<Seq<char>>,
    s: Seq<char>,
)
    requires
        says(reply, "result"@, result),
        says(result, id, doc),
        says(doc, "title"@, JsonModel::Str(title)),
        names.len() == items.len(),
        forall|i: int|
            0 <= i < items.len() ==> says(#[trigger] items[i], "name"@, JsonModel::Str(names[i])),
    ensures
        pubmed_model(id, abstract_text, reply) is Ok,
        pubmed_model(id, abstract_text, reply)->Ok_0 is Some,
        ({
            let m = pubmed_model(id, abstract_text, reply)->Ok_0->0;
            &&& m.title == title
            &&& m.abstract_text == abstract_text
            &&& m.url == Some("https://pubmed.ncbi.nlm.nih.gov/"@ + id + "/"@)
            &&& says(doc, "authors"@, JsonModel::Array(items)) ==> m.authors == names
            &&& says(doc, "fulljournalname"@, JsonModel::Str(s)) ==> m.journal == Some(s)
            &&& says(doc, "elocationid"@, JsonModel::Str(s)) ==> m.doi == Some(s)
            &&& says(doc, "pubdate"@, JsonModel::Str(s)) && words(s).len() > 0 ==> m.year == year_in(
                words(s)[0],
            )
        }),
{
    law_member_is_found(reply, "result"@, result);
    law_member_is_found(result, id, doc);
    law_member_is_found(doc, "title"@, JsonModel::Str(title));
    law_member_is_found(doc, "authors"@, JsonModel::Array(items));
    law_member_is_found(doc, "fulljournalname"@, JsonModel::Str(s));
    law_member_is_found(doc, "elocationid"@, JsonModel::Str(s));
    law_member_is_found(doc, "pubdate"@, JsonModel::Str(s));
    law_every_name_is_taken(items, names);
}

// ---------------------------------------------------------------------------------------------
// Replies that cannot be used
// ---------------------------------------------------------------------------------------------
/// Without a title a reply gives no record.
pub proof fn law_no_record_without_title(id: Seq<char>, reply: JsonModel, msg: JsonModel)
    ensures
        lacks(reply, "message"@) ==> crossref_model(id, reply) is None,
        says(reply, "message"@, msg) && lacks(msg, "title"@) ==> crossref_model(id, reply) is None,
        lacks(reply, "display_name"@) ==> openalex_model(id, reply) is None,
        lacks(reply, "title"@) ==> semantic_scholar_model(id, reply) is None,
        lacks(reply, "ISBN:"@ + id) ==> isbn_model(id, reply) is None,
{
    law_member_is_found(reply, "message"@, msg);
    law_member_is_found(msg, "title"@, msg);
    law_member_is_found(reply, "display_name"@, msg);
    law_member_is_found(reply, "title"@, msg);
    law_member_is_found(reply, "ISBN:"@ + id, msg);
}

// ---------------------------------------------------------------------------------------------
// Abstracts
// ---------------------------------------------------------------------------------------------
/// The events of parts of an abstract, each in an element of its own.
pub open spec fn sections(list: Seq<Seq<char>>) -> Seq<EventModel>
    decreases list.len(),
{
    if list.len() == 0 {
        Seq::empty()
    } else {
        let element = vstd::utf8::encode_utf8("AbstractText"@);
        seq![
            EventModel::Start(element, Seq::empty()),
            EventModel::Text(Some(list[0])),
            EventModel::End(element),
        ] + sections(list.skip(1))
    }
}

proof fn lemma_sections(list: Seq<Seq<char>>, parts: Seq<Seq<char>>)
    requires
        forall|i: int| 0 <= i < list.len() ==> trim(#[trigger] list[i]).len() > 0,
    ensures
        abstract_parts(sections(list), false, Seq::empty(), parts) == Ok::<
            Seq<Seq<char>>,
            Seq<char>,
        >(parts + list.map_values(|s: Seq<char>| trim(s))),
    decreases list.len(),
{
    let f = |s: Seq<char>| trim(s);
    let none = Seq::<char>::empty();
    if list.len() == 0 {
        assert(parts + list.map_values(f) =~= parts);
    } else {
        let element = vstd::utf8::encode_utf8("AbstractText"@);
        let s = list[0];
        let tail = list.skip(1);
        let rest = sections(tail);
        let all = sections(list);
        assert(trim(list[0]).len() > 0);
        assert forall|i: int| 0 <= i < tail.len() implies trim(#[trigger] tail[i]).len() > 0 by {
            assert(tail[i] == list[i + 1]);
        }
        assert(all[0] == EventModel::Start(element, Seq::empty()));
        let one = all.drop_first();
        assert(one[0] == EventModel::Text(Some(s)));
        let two = one.drop_first();
        assert(two[0] == EventModel::End(element));
        let three = two.drop_first();
        assert(three =~= rest);
        assert(none + s =~= s);
        assert(abstract_parts(all, false, none, parts) == abstract_parts(one, true, none, parts));
        assert(abstract_parts(one, true, none, parts) == abstract_parts(two, true, s, parts));
        assert(abstract_parts(two, true, s, parts) == abstract_parts(
            three,
            false,
            none,
            parts.push(trim(s)),
        ));
        lemma_sections(tail, parts.push(trim(s)));
        assert(parts.push(trim(s)) + tail.map_values(f) =~= parts + list.map_values(f));
    }
}

/// The abstract of a PubMed record has all its parts, in their order, with blanks between.
pub proof fn law_every_part_of_an_abstract(list: Seq<Seq<char>>)
    requires
        list.len() > 0,
        forall|i: int| 0 <= i < list.len() ==> trim(#[trigger] list[i]).len() > 0,
    ensures
        pubmed_abstract(sections(list)) == Ok::<Seq<char>, crate::link_import::ErrorModel>(
            join(list.map_values(|s: Seq<char>| trim(s)), " "@),
        ),
{
    lemma_sections(list, Seq::empty());
    let r = list.map_values(|s: Seq<char>| trim(s));
    assert(Seq::<Seq<char>>::empty() + r =~= r);
}

/// The tokens of an index are those of all its words, and those of a word stand at all its positions.
pub proof fn law_every_token_is_found(
    a: Seq<MemberModel>,
    b: Seq<MemberModel>,
    word: Seq<char>,
    places: Seq<int>,
)
    requires
        forall|i: int| 0 <= i < places.len() ==> #[trigger] places[i] >= 0,
    ensures
        index_tokens(a + b) == index_tokens(a) + index_tokens(b),
        word_tokens(word, places.map_values(|i: int| JsonModel::Int(i))) == places.map_values(
            |i: int| TokenModel { position: i, word },
        ),
    decreases b.len() + places.len(),
{
    if b.len() == 0 {
        assert(a + b =~= a);
        assert(index_tokens(a) + index_tokens(b) =~= index_tokens(a));
    } else {
        let none = Seq::<int>::empty();
        law_every_token_is_found(a, b.drop_last(), word, none);
        assert((a + b).drop_last() =~= a + b.drop_last());
        assert((a + b).last() == b.last());
        assert(index_tokens(a + b) =~= index_tokens(a) + index_tokens(b));
    }
    lemma_word_tokens(word, places);
}

proof fn lemma_word_tokens(word: Seq<char>, places: Seq<int>)
    requires
        forall|i: int| 0 <= i < places.len() ==> #[trigger] places[i] >= 0,
    ensures
        word_tokens(word, places.map_values(|i: int| JsonModel::Int(i))) == places.map_values(
            |i: int| TokenModel { position: i, word },
        ),
    decreases places.len(),
{
    let f = |i: int| JsonModel::Int(i);
    let g = |i: int| TokenModel { position: i, word };
    let items = places.map_values(f);
    if places.len() > 0 {
        let shorter = places.drop_last();
        assert forall|i: int| 0 <= i < shorter.len() implies #[trigger] shorter[i] >= 0 by {
            assert(shorter[i] == places[i]);
        }
        lemma_word_tokens(word, shorter);
        assert(items.drop_last() =~= shorter.map_values(f));
        assert(items.last() == JsonModel::Int(places.last()));
        assert(places[places.len() - 1] >= 0);
        assert(shorter.map_values(g).push(g(places.last())) =~= places.map_values(g));
    } else {
        assert(places.map_values(g) =~= Seq::empty());
    }
}

/// Whether tokens stand in the order of their positions, no two at one.
pub open spec fn strictly_rising(t: Seq<TokenModel>) -> bool {
    forall|i: int, j: int|
        0 <= i < j < t.len() ==> (#[trigger] t[i]).position < (#[trigger] t[j]).position
}

proof fn lemma_same_order(s: Seq<TokenModel>, t: Seq<TokenModel>)
    requires
        in_order(s, by_position()),
        strictly_rising(t),
        s.to_multiset() == t.to_multiset(),
    ensures
        s == t,
    decreases t.len(),
{
    s.to_multiset_ensures();
    t.to_multiset_ensures();
    assert(s.len() == t.len());
    if t.len() == 0 {
        assert(s =~= t);
    } else {
        let n = t.len() - 1;
        let x = t.last();
        let y = s.last();
        assert(t.contains(x)) by {
            assert(t[n] == x);
        }
        assert(s.to_multiset().count(x) > 0);
        assert(s.contains(x));
        let i = choose|i: int| 0 <= i < s.len() && s[i] == x;
        assert(s.contains(y)) by {
            assert(s[n] == y);
        }
        assert(t.to_multiset().count(y) > 0);
        assert(t.contains(y));
        let j = choose|j: int| 0 <= j < t.len() && t[j] == y;
        if i < n {
            assert(!by_position()(s[n], s[i]));
            assert(y.position >= x.position);
            if j < n {
                assert(t[j].position < t[n].position);
            }
        }
        assert(x == y);
        let s1 = s.drop_last();
        let t1 = t.drop_last();
        assert(s =~= s1.push(x));
        assert(t =~= t1.push(x));
        s1.to_multiset_ensures();
        t1.to_multiset_ensures();
        assert(s1.push(x).to_multiset() =~= s1.to_multiset().insert(x));
        assert(t1.push(x).to_multiset() =~= t1.to_multiset().insert(x));
        assert(s1.to_multiset() =~= t1.to_multiset()) by {
            assert forall|z: TokenModel| s1.to_multiset().count(z) == t1.to_multiset().count(z) by {
                assert(s1.to_multiset().insert(x).count(z) == t1.to_multiset().insert(x).count(z));
            }
        }
        assert(in_order(s1, by_position())) by {
            assert forall|a: int, b: int| 0 <= a < b < s1.len() implies !by_position()(
                #[trigger] s1[b],
                #[trigger] s1[a],
            ) by {
                assert(s1[a] == s[a] && s1[b] == s[b]);
            }
        }
        assert(strictly_rising(t1)) by {
            assert forall|a: int, b: int| 0 <= a < b < t1.len() implies (
            #[trigger] t1[a]).position < (#[trigger] t1[b]).position by {
                assert(t1[a] == t[a] && t1[b] == t[b]);
            }
        }
        lemma_same_order(s1, t1);
    }
}

/// The abstract that an inverted index stands for has every word of the index at each of its positions,
/// in the order of the positions, with blanks between.
pub proof fn law_abstract_is_put_together(members: Seq<MemberModel>, t: Seq<TokenModel>)
    requires
        t.len() > 0,
        strictly_rising(t),
        t.to_multiset() == index_tokens(members).to_multiset(),
    ensures
        index_abstract(JsonModel::Object(members)) == Some(
            join(Seq::new(t.len(), |i: int| t[i].word), " "@),
        ),
{
    law_tokens_in_position_order(members);
    lemma_same_order(sorted(index_tokens(members), by_position()), t);
}

} // verus!
