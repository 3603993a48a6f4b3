//! Citations in the formats that reference managers exchange: BibTeX, RIS and CSL-JSON.
use vstd::prelude::*;
use vstd::string::*;

use crate::json::{
    add_member, json_array, json_items, json_members, json_object, json_pretty_text, json_strings,
    json_text, parse_strings, print_pretty, Json, JsonModel, Member, MemberModel,
};
use crate::models::Paper;
use crate::text::{
    concat2, cut, join, join_with, opt_text, same, signed_decimal, signed_decimal_of, split_once, texts,
    trim, trimmed, without, without_chars, words, words_of,
};

verus! {

/// The text of an optional string slice.
pub open spec fn slice_text(o: Option<&str>) -> Option<Seq<char>> {
    match o {
        Some(s) => Some(s@),
        None => None,
    }
}

/// An optional string as an optional string slice.
fn as_slice(o: &Option<String>) -> (r: Option<&str>)
    ensures
        slice_text(r) == opt_text(*o),
{
    match o {
        Some(s) => Some(s.as_str()),
        None => None,
    }
}

/// The names in a JSON array of strings; none where the text is no such array.
pub open spec fn names_in(text: Seq<char>) -> Seq<Seq<char>> {
    match json_strings(text) {
        Some(l) => l,
        None => Seq::empty(),
    }
}

/// The names in a JSON array of strings; none where the text is no such array.
pub fn parse_authors(authors_json: &str) -> (r: Vec<String>)
    ensures
        texts(r@) == names_in(authors_json@),
{
    match parse_strings(authors_json) {
        Some(v) => v,
        None => {
            let v: Vec<String> = Vec::new();
            assert(texts(v@) =~= Seq::empty());
            v
        },
    }
}

/// A year in digits, where there is one.
pub open spec fn year_text(year: Option<i32>) -> Option<Seq<char>> {
    match year {
        Some(y) => Some(signed_decimal(y as int)),
        None => None,
    }
}

/// The last word of the first author's name, where there is one.
pub open spec fn author_word(names: Seq<Seq<char>>) -> Option<Seq<char>> {
    if names.len() > 0 && words(names[0]).len() > 0 {
        Some(words(names[0]).last())
    } else {
        None
    }
}

/// The key that is made up for a paper: from the first author's last word and the year, or, where no
/// author has a name, from its id.
pub open spec fn derived_key(names: Seq<Seq<char>>, year: Option<i32>, id: Seq<char>) -> Seq<char> {
    match author_word(names) {
        Some(w) => w + match year_text(year) {
            Some(y) => y,
            None => "n.d."@,
        },
        None => "anon-"@ + id,
    }
}

/// The citation key of a paper: the stored one, unless it is empty or missing, else one that is made
/// up.
pub open spec fn citation_key(p: Paper) -> Seq<char> {
    match opt_text(p.citation_key) {
        Some(k) => if k.len() > 0 {
            k
        } else {
            derived_key(names_in(p.authors@), p.year, p.id@)
        },
        None => derived_key(names_in(p.authors@), p.year, p.id@),
    }
}

/// The key that is made up for a paper: from the first author's last word and the year, or, where no
/// author has a name, from its id.
pub fn key_from(authors: &Vec<String>, year: Option<i32>, id: &str) -> (r: String)
    ensures
        r@ == derived_key(texts(authors@), year, id@),
{
    if authors.len() > 0 {
        assert(texts(authors@)[0] == authors@[0]@);
        let parts = words_of(authors[0].as_str());
        if parts.len() > 0 {
            assert(texts(parts@).last() == parts@[parts@.len() - 1]@);
            let mut out = parts[parts.len() - 1].clone();
            match year {
                Some(y) => out.append(signed_decimal_of(y as i64).as_str()),
                None => out.append("n.d."),
            }
            return out;
        }
    }
    concat2("anon-", id)
}

/// The citation key of a paper: the stored key, else one made up from the first author's last word
/// and the year, else one made up from its id.
pub fn citation_key_for(p: &Paper) -> (r: String)
    ensures
        r@ == citation_key(*p),
{
    match &p.citation_key {
        Some(k) => {
            if !k.as_str().is_empty() {
                return k.clone();
            }
        },
        None => {},
    }
    let authors = parse_authors(p.authors.as_str());
    key_from(&authors, p.year, p.id.as_str())
}

/// Papers without a stored key and without the name of an author are told apart by their ids.
pub proof fn law_nameless_papers_differ(p: Paper, q: Paper)
    requires
        p.id@ != q.id@,
        p.citation_key is None || p.citation_key->0@.len() == 0,
        q.citation_key is None || q.citation_key->0@.len() == 0,
        author_word(names_in(p.authors@)) is None,
        author_word(names_in(q.authors@)) is None,
    ensures
        citation_key(p) != citation_key(q),
{
    let a = "anon-"@;
    if a + p.id@ == a + q.id@ {
        assert((a + p.id@).skip(a.len() as int) =~= p.id@);
        assert((a + q.id@).skip(a.len() as int) =~= q.id@);
    }
}

// ---------------------------------------------------------------------------------------------
// BibTeX
// ---------------------------------------------------------------------------------------------
/// The BibTeX entry type for an item type.
pub open spec fn bibtex_type_of(item_type: Option<Seq<char>>) -> Seq<char> {
    let t = match item_type {
        Some(t) => t,
        None => "journal"@,
    };
    if t == "journal"@ {
        "article"@
    } else if t == "book"@ {
        "book"@
    } else if t == "bookSection"@ {
        "incollection"@
    } else if t == "conference"@ {
        "inproceedings"@
    } else if t == "thesis"@ {
        "phdthesis"@
    } else if t == "report"@ {
        "techreport"@
    } else if t == "patent"@ {
        "patent"@
    } else {
        "misc"@
    }
}

/// The BibTeX entry type for an item type.
pub fn bibtex_type(item_type: Option<&str>) -> (r: &'static str)
    ensures
        r@ == bibtex_type_of(slice_text(item_type)),
{
    let t = match item_type {
        Some(t) => t,
        None => "journal",
    };
    if same(t, "journal") {
        "article"
    } else if same(t, "book") {
        "book"
    } else if same(t, "bookSection") {
        "incollection"
    } else if same(t, "conference") {
        "inproceedings"
    } else if same(t, "thesis") {
        "phdthesis"
    } else if same(t, "report") {
        "techreport"
    } else if same(t, "patent") {
        "patent"
    } else {
        "misc"
    }
}

/// A value as BibTeX may hold it: without braces, which would group, and with single blanks.
pub open spec fn bib_value(s: Seq<char>) -> Seq<char> {
    join(words(without(s, "{}"@)), " "@)
}

/// A value as BibTeX may hold it: without braces, which would group, and with single blanks.
pub fn esc(s: &str) -> (r: String)
    ensures
        r@ == bib_value(s@),
{
    join_with(&words_of(without_chars(s, "{}").as_str()), " ")
}

/// The line of a field; nothing where there is no value or an empty one.
pub open spec fn bib_field(key: Seq<char>, value: Option<Seq<char>>) -> Seq<char> {
    match value {
        Some(v) => if v.len() > 0 {
            "  "@ + key + " = {"@ + bib_value(v) + "},\n"@
        } else {
            Seq::empty()
        },
        None => Seq::empty(),
    }
}

/// The line of a field that holds names; nothing where there are none.
pub open spec fn bib_names(key: Seq<char>, names: Seq<Seq<char>>) -> Seq<char> {
    if names.len() > 0 {
        "  "@ + key + " = {"@ + bib_value(join(names, " and "@)) + "},\n"@
    } else {
        Seq::empty()
    }
}

/// The BibTeX entry of a paper with the given authors and editors.
pub open spec fn bibtex_text(
    p: Paper,
    key: Seq<char>,
    authors: Seq<Seq<char>>,
    editors: Seq<Seq<char>>,
) -> Seq<char> {
    "@"@ + bibtex_type_of(opt_text(p.item_type)) + "{"@ + key + ",\n"@
        + bib_field("title"@, Some(p.title@))
        + bib_names("author"@, authors)
        + bib_field("year"@, year_text(p.year))
        + bib_field("journal"@, opt_text(p.journal))
        + bib_field("volume"@, opt_text(p.volume))
        + bib_field("number"@, opt_text(p.issue))
        + bib_field("pages"@, opt_text(p.pages))
        + bib_field("doi"@, opt_text(p.doi))
        + bib_field("url"@, opt_text(p.url))
        + bib_field("abstract"@, opt_text(p.abstract_text))
        + bib_field("keywords"@, Some(p.keywords@))
        + bib_field("publisher"@, opt_text(p.publisher))
        + bib_field("address"@, opt_text(p.place))
        + bib_field("series"@, opt_text(p.series))
        + bib_field("edition"@, opt_text(p.edition))
        + bib_field("isbn"@, opt_text(p.isbn))
        + bib_field("issn"@, opt_text(p.issn))
        + bib_names("editor"@, editors)
        + "}\n"@
}

/// Appends the line of a field.
fn push_field(out: &mut String, key: &str, value: Option<&str>)
    ensures
        final(out)@ == old(out)@ + bib_field(key@, slice_text(value)),
{
    let ghost before = out@;
    match value {
        Some(v) => {
            if !v.is_empty() {
                let mut line = "  ".to_owned();
                line.append(key);
                line.append(" = {");
                line.append(esc(v).as_str());
                line.append("},\n");
                out.append(line.as_str());
            }
        },
        None => {},
    }
    assert(before + Seq::<char>::empty() =~= before);
}

/// Appends the line of a field.
fn push_opt(out: &mut String, key: &str, value: &Option<String>)
    ensures
        final(out)@ == old(out)@ + bib_field(key@, opt_text(*value)),
{
    push_field(out, key, as_slice(value));
}

/// Appends the line of a field that holds names.
fn push_names(out: &mut String, key: &str, names: &Vec<String>)
    ensures
        final(out)@ == old(out)@ + bib_names(key@, texts(names@)),
{
    let ghost before = out@;
    if names.len() > 0 {
        let mut line = "  ".to_owned();
        line.append(key);
        line.append(" = {");
        line.append(esc(join_with(names, " and ").as_str()).as_str());
        line.append("},\n");
        out.append(line.as_str());
    }
    assert(before + Seq::<char>::empty() =~= before);
}

/// The BibTeX entry of a paper under the given key, with the given authors and editors.
pub fn bibtex_entry(p: &Paper, key: &str, authors: &Vec<String>, editors: &Vec<String>) -> (r: String)
    ensures
        r@ == bibtex_text(*p, key@, texts(authors@), texts(editors@)),
{
    let mut out = "@".to_owned();
    out.append(bibtex_type(as_slice(&p.item_type)));
    out.append("{");
    out.append(key);
    out.append(",\n");
    push_field(&mut out, "title", Some(p.title.as_str()));
    push_names(&mut out, "author", authors);
    match p.year {
        Some(y) => push_field(&mut out, "year", Some(signed_decimal_of(y as i64).as_str())),
        None => push_field(&mut out, "year", None),
    }
    push_opt(&mut out, "journal", &p.journal);
    push_opt(&mut out, "volume", &p.volume);
    push_opt(&mut out, "number", &p.issue);
    push_opt(&mut out, "pages", &p.pages);
    push_opt(&mut out, "doi", &p.doi);
    push_opt(&mut out, "url", &p.url);
    push_opt(&mut out, "abstract", &p.abstract_text);
    push_field(&mut out, "keywords", Some(p.keywords.as_str()));
    push_opt(&mut out, "publisher", &p.publisher);
    push_opt(&mut out, "address", &p.place);
    push_opt(&mut out, "series", &p.series);
    push_opt(&mut out, "edition", &p.edition);
    push_opt(&mut out, "isbn", &p.isbn);
    push_opt(&mut out, "issn", &p.issn);
    push_names(&mut out, "editor", editors);
    out.append("}\n");
    out
}

/// The BibTeX entry of a paper.
pub fn bibtex_for_paper(p: &Paper) -> (r: String)
    ensures
        r@ == bibtex_text(*p, citation_key(*p), names_in(p.authors@), names_in(p.editor@)),
{
    let key = citation_key_for(p);
    bibtex_entry(
        p,
        key.as_str(),
        &parse_authors(p.authors.as_str()),
        &parse_authors(p.editor.as_str()),
    )
}

// ---------------------------------------------------------------------------------------------
// RIS
// ---------------------------------------------------------------------------------------------
/// The RIS type code for an item type.
pub open spec fn ris_type_of(item_type: Option<Seq<char>>) -> Seq<char> {
    let t = match item_type {
        Some(t) => t,
        None => "journal"@,
    };
    if t == "journal"@ {
        "JOUR"@
    } else if t == "book"@ {
        "BOOK"@
    } else if t == "bookSection"@ {
        "CHAP"@
    } else if t == "conference"@ {
        "CONF"@
    } else if t == "thesis"@ {
        "THES"@
    } else if t == "report"@ {
        "RPRT"@
    } else if t == "patent"@ {
        "PAT"@
    } else if t == "webpage"@ {
        "ELEC"@
    } else {
        "GEN"@
    }
}

/// The RIS type code for an item type.
pub fn ris_type(item_type: Option<&str>) -> (r: &'static str)
    ensures
        r@ == ris_type_of(slice_text(item_type)),
{
    let t = match item_type {
        Some(t) => t,
        None => "journal",
    };
    if same(t, "journal") {
        "JOUR"
    } else if same(t, "book") {
        "BOOK"
    } else if same(t, "bookSection") {
        "CHAP"
    } else if same(t, "conference") {
        "CONF"
    } else if same(t, "thesis") {
        "THES"
    } else if same(t, "report") {
        "RPRT"
    } else if same(t, "patent") {
        "PAT"
    } else if same(t, "webpage") {
        "ELEC"
    } else {
        "GEN"
    }
}

/// One line of a record.
pub open spec fn ris_line(tag: Seq<char>, value: Seq<char>) -> Seq<char> {
    tag + "  - "@ + value + "\n"@
}

/// The line of a value; nothing where there is no value or an empty one.
pub open spec fn ris_opt(tag: Seq<char>, value: Option<Seq<char>>) -> Seq<char> {
    match value {
        Some(v) => if v.len() > 0 {
            ris_line(tag, v)
        } else {
            Seq::empty()
        },
        None => Seq::empty(),
    }
}

/// A line for each name.
pub open spec fn ris_names(names: Seq<Seq<char>>) -> Seq<char>
    decreases names.len(),
{
    if names.len() == 0 {
        Seq::empty()
    } else {
        ris_names(names.drop_last()) + ris_line("AU"@, names.last())
    }
}

/// The lines of the pages: the two sides of the first hyphen, or the whole where there is none.
pub open spec fn ris_pages(pages: Option<Seq<char>>) -> Seq<char> {
    match pages {
        Some(v) => if v.len() > 0 {
            match split_once(v, "-"@) {
                Some((a, b)) => ris_line("SP"@, trim(a)) + ris_line("EP"@, trim(b)),
                None => ris_line("SP"@, v),
            }
        } else {
            Seq::empty()
        },
        None => Seq::empty(),
    }
}

/// The RIS record of a paper with the given authors.
pub open spec fn ris_text(p: Paper, authors: Seq<Seq<char>>) -> Seq<char> {
    ris_line("TY"@, ris_type_of(opt_text(p.item_type)))
        + ris_names(authors)
        + ris_opt("TI"@, Some(p.title@))
        + ris_opt("PY"@, year_text(p.year))
        + ris_opt("JO"@, opt_text(p.journal))
        + ris_opt("VL"@, opt_text(p.volume))
        + ris_opt("IS"@, opt_text(p.issue))
        + ris_pages(opt_text(p.pages))
        + ris_opt("DO"@, opt_text(p.doi))
        + ris_opt("UR"@, opt_text(p.url))
        + ris_opt("AB"@, opt_text(p.abstract_text))
        + ris_opt("PB"@, opt_text(p.publisher))
        + "ER  - \n\n"@
}

/// One line of a record.
fn line_of(tag: &str, value: &str) -> (r: String)
    ensures
        r@ == ris_line(tag@, value@),
{
    let mut line = tag.to_owned();
    line.append("  - ");
    line.append(value);
    line.append("\n");
    line
}

/// Appends the line of a value.
fn push_line(out: &mut String, tag: &str, value: &Option<String>)
    ensures
        final(out)@ == old(out)@ + ris_opt(tag@, opt_text(*value)),
{
    let ghost before = out@;
    match value {
        Some(v) => {
            if !v.as_str().is_empty() {
                out.append(line_of(tag, v.as_str()).as_str());
            }
        },
        None => {},
    }
    assert(before + Seq::<char>::empty() =~= before);
}

/// The lines of the names.
fn name_lines(names: &Vec<String>) -> (r: String)
    ensures
        r@ == ris_names(texts(names@)),
{
    let mut out = String::new();
    let mut i: usize = 0;
    while i < names.len()
        invariant
            i <= names.len(),
            out@ == ris_names(texts(names@).take(i as int)),
        decreases names.len() - i,
    {
        assert(texts(names@).take(i + 1).drop_last() =~= texts(names@).take(i as int));
        out.append(line_of("AU", names[i].as_str()).as_str());
        i += 1;
    }
    assert(texts(names@).take(names@.len() as int) =~= texts(names@));
    out
}

/// The lines of the pages.
fn page_lines(pages: &Option<String>) -> (r: String)
    ensures
        r@ == ris_pages(opt_text(*pages)),
{
    match pages {
        Some(v) => {
            if v.as_str().is_empty() {
                return String::new();
            }
            match cut(v.as_str(), "-") {
                Some((a, b)) => {
                    let mut out = line_of("SP", trimmed(a.as_str()).as_str());
                    out.append(line_of("EP", trimmed(b.as_str()).as_str()).as_str());
                    out
                },
                None => line_of("SP", v.as_str()),
            }
        },
        None => String::new(),
    }
}

/// The RIS record of a paper with the given authors.
pub fn ris_record(p: &Paper, authors: &Vec<String>) -> (r: String)
    ensures
        r@ == ris_text(*p, texts(authors@)),
{
    let mut out = line_of("TY", ris_type(as_slice(&p.item_type)));
    out.append(name_lines(authors).as_str());
    push_line(&mut out, "TI", &Some(p.title.clone()));
    match p.year {
        Some(y) => push_line(&mut out, "PY", &Some(signed_decimal_of(y as i64))),
        None => push_line(&mut out, "PY", &None),
    }
    assert(opt_text(Some(p.title)) == Some(p.title@));
    push_line(&mut out, "JO", &p.journal);
    push_line(&mut out, "VL", &p.volume);
    push_line(&mut out, "IS", &p.issue);
    out.append(page_lines(&p.pages).as_str());
    push_line(&mut out, "DO", &p.doi);
    push_line(&mut out, "UR", &p.url);
    push_line(&mut out, "AB", &p.abstract_text);
    push_line(&mut out, "PB", &p.publisher);
    out.append("ER  - \n\n");
    out
}

/// The RIS record of a paper.
pub fn ris_for_paper(p: &Paper) -> (r: String)
    ensures
        r@ == ris_text(*p, names_in(p.authors@)),
{
    ris_record(p, &parse_authors(p.authors.as_str()))
}

// ---------------------------------------------------------------------------------------------
// CSL-JSON
// ---------------------------------------------------------------------------------------------
/// The CSL type for an item type.
pub open spec fn csl_type_of(item_type: Option<Seq<char>>) -> Seq<char> {
    let t = match item_type {
        Some(t) => t,
        None => "journal"@,
    };
    if t == "journal"@ {
        "article-journal"@
    } else if t == "book"@ {
        "book"@
    } else if t == "bookSection"@ {
        "chapter"@
    } else if t == "conference"@ {
        "paper-conference"@
    } else if t == "thesis"@ {
        "thesis"@
    } else if t == "report"@ {
        "report"@
    } else if t == "patent"@ {
        "patent"@
    } else if t == "webpage"@ {
        "webpage"@
    } else if t == "newspaper"@ {
        "article-newspaper"@
    } else {
        "article"@
    }
}

/// The CSL type for an item type.
pub fn csl_type(item_type: Option<&str>) -> (r: &'static str)
    ensures
        r@ == csl_type_of(slice_text(item_type)),
{
    let t = match item_type {
        Some(t) => t,
        None => "journal",
    };
    if same(t, "journal") {
        "article-journal"
    } else if same(t, "book") {
        "book"
    } else if same(t, "bookSection") {
        "chapter"
    } else if same(t, "conference") {
        "paper-conference"
    } else if same(t, "thesis") {
        "thesis"
    } else if same(t, "report") {
        "report"
    } else if same(t, "patent") {
        "patent"
    } else if same(t, "webpage") {
        "webpage"
    } else if same(t, "newspaper") {
        "article-newspaper"
    } else {
        "article"
    }
}

/// A member of an object.
pub open spec fn said(key: Seq<char>, value: JsonModel) -> MemberModel {
    MemberModel { key, value }
}

/// A name as CSL holds one that is not taken apart: the parts of a Chinese, a corporate or a
/// compound name are not told from one another.
pub open spec fn csl_name(name: Seq<char>) -> JsonModel {
    JsonModel::Object(seq![said("literal"@, JsonModel::Str(name))])
}

/// The member that holds names; nothing where there are none.
pub open spec fn csl_people(key: Seq<char>, names: Seq<Seq<char>>) -> Seq<MemberModel> {
    if names.len() > 0 {
        seq![said(key, JsonModel::Array(Seq::new(names.len(), |i: int| csl_name(names[i]))))]
    } else {
        Seq::empty()
    }
}

/// The member that holds a text; nothing where there is none or an empty one.
pub open spec fn csl_text(key: Seq<char>, value: Option<Seq<char>>) -> Seq<MemberModel> {
    match value {
        Some(v) => if v.len() > 0 {
            seq![said(key, JsonModel::Str(v))]
        } else {
            Seq::empty()
        },
        None => Seq::empty(),
    }
}

/// The member that holds the year.
pub open spec fn csl_issued(year: Option<i32>) -> Seq<MemberModel> {
    match year {
        Some(y) => seq![
            said(
                "issued"@,
                JsonModel::Object(
                    seq![
                        said(
                            "date-parts"@,
                            JsonModel::Array(
                                seq![JsonModel::Array(seq![JsonModel::Int(y as int)])],
                            ),
                        ),
                    ],
                ),
            ),
        ],
        None => Seq::empty(),
    }
}

/// The CSL item of a paper under the given key, with the given authors and editors.
pub open spec fn csl_item_model(
    p: Paper,
    key: Seq<char>,
    authors: Seq<Seq<char>>,
    editors: Seq<Seq<char>>,
) -> JsonModel {
    JsonModel::Object(
        seq![
            said("id"@, JsonModel::Str(key)),
            said("type"@, JsonModel::Str(csl_type_of(opt_text(p.item_type)))),
            said("title"@, JsonModel::Str(p.title@)),
        ]
            + csl_people("author"@, authors)
            + csl_people("editor"@, editors)
            + csl_issued(p.year)
            + csl_text("container-title"@, opt_text(p.journal))
            + csl_text("volume"@, opt_text(p.volume))
            + csl_text("issue"@, opt_text(p.issue))
            + csl_text("page"@, opt_text(p.pages))
            + csl_text("DOI"@, opt_text(p.doi))
            + csl_text("URL"@, opt_text(p.url))
            + csl_text("abstract"@, opt_text(p.abstract_text))
            + csl_text("publisher"@, opt_text(p.publisher))
            + csl_text("ISBN"@, opt_text(p.isbn))
        ,
    )
}

/// A name as CSL holds one that is not taken apart.
pub fn csl_author(name: &str) -> (r: Json)
    ensures
        r@ == csl_name(name@),
{
    let mut m: Vec<Member> = Vec::new();
    add_member(&mut m, "literal", json_text(name));
    assert(json_members(m@) =~= seq![said("literal"@, JsonModel::Str(name@))]);
    json_object(m)
}

/// Adds the member that holds names.
fn add_people(m: &mut Vec<Member>, key: &str, names: &Vec<String>)
    ensures
        json_members(final(m)@) == json_members(old(m)@) + csl_people(key@, texts(names@)),
{
    let ghost before = json_members(m@);
    if names.len() > 0 {
        let mut list: Vec<Json> = Vec::new();
        let mut i: usize = 0;
        while i < names.len()
            invariant
                i <= names.len(),
                list.len() == i,
                forall|j: int| 0 <= j < i ==> (#[trigger] list@[j])@ == csl_name(names@[j]@),
            decreases names.len() - i,
        {
            list.push(csl_author(names[i].as_str()));
            i += 1;
        }
        assert(json_items(list@) =~= Seq::new(
            texts(names@).len(),
            |i: int| csl_name(texts(names@)[i]),
        ));
        add_member(m, key, json_array(list));
        assert(json_members(m@) =~= before + csl_people(key@, texts(names@)));
    } else {
        assert(before + Seq::<MemberModel>::empty() =~= before);
    }
}

/// Adds the member that holds a text.
fn add_text(m: &mut Vec<Member>, key: &str, value: &Option<String>)
    ensures
        json_members(final(m)@) == json_members(old(m)@) + csl_text(key@, opt_text(*value)),
{
    let ghost before = json_members(m@);
    match value {
        Some(v) => {
            if !v.as_str().is_empty() {
                add_member(m, key, json_text(v.as_str()));
                assert(json_members(m@) =~= before + csl_text(key@, opt_text(*value)));
                return;
            }
        },
        None => {},
    }
    assert(before + Seq::<MemberModel>::empty() =~= before);
}

/// Adds the member that holds the year.
fn add_issued(m: &mut Vec<Member>, year: Option<i32>)
    ensures
        json_members(final(m)@) == json_members(old(m)@) + csl_issued(year),
{
    let ghost before = json_members(m@);
    match year {
        Some(y) => {
            let inner: Vec<Json> = vec![Json::Int(y as i64)];
            assert(json_items(inner@) =~= seq![JsonModel::Int(y as int)]);
            let outer: Vec<Json> = vec![json_array(inner)];
            assert(json_items(outer@) =~= seq![JsonModel::Array(seq![JsonModel::Int(y as int)])]);
            let mut parts: Vec<Member> = Vec::new();
            add_member(&mut parts, "date-parts", json_array(outer));
            assert(json_members(parts@) =~= seq![
                said(
                    "date-parts"@,
                    JsonModel::Array(seq![JsonModel::Array(seq![JsonModel::Int(y as int)])]),
                ),
            ]);
            add_member(m, "issued", json_object(parts));
            assert(json_members(m@) =~= before + csl_issued(year));
        },
        None => {
            assert(before + Seq::<MemberModel>::empty() =~= before);
        },
    }
}

/// The CSL item of a paper under the given key, with the given authors and editors.
pub fn csl_item(p: &Paper, key: &str, authors: &Vec<String>, editors: &Vec<String>) -> (r: Json)
    ensures
        r@ == csl_item_model(*p, key@, texts(authors@), texts(editors@)),
{
    let mut m: Vec<Member> = Vec::new();
    add_member(&mut m, "id", json_text(key));
    add_member(&mut m, "type", json_text(csl_type(as_slice(&p.item_type))));
    add_member(&mut m, "title", json_text(p.title.as_str()));
    assert(json_members(m@) =~= seq![
        said("id"@, JsonModel::Str(key@)),
        said("type"@, JsonModel::Str(csl_type_of(opt_text(p.item_type)))),
        said("title"@, JsonModel::Str(p.title@)),
    ]);
    add_people(&mut m, "author", authors);
    add_people(&mut m, "editor", editors);
    add_issued(&mut m, p.year);
    add_text(&mut m, "container-title", &p.journal);
    add_text(&mut m, "volume", &p.volume);
    add_text(&mut m, "issue", &p.issue);
    add_text(&mut m, "page", &p.pages);
    add_text(&mut m, "DOI", &p.doi);
    add_text(&mut m, "URL", &p.url);
    add_text(&mut m, "abstract", &p.abstract_text);
    add_text(&mut m, "publisher", &p.publisher);
    add_text(&mut m, "ISBN", &p.isbn);
    json_object(m)
}

/// The CSL items of a list of papers.
pub open spec fn csl_items_model(papers: Seq<Paper>) -> JsonModel {
    JsonModel::Array(
        Seq::new(
            papers.len(),
            |i: int|
                csl_item_model(
                    papers[i],
                    citation_key(papers[i]),
                    names_in(papers[i].authors@),
                    names_in(papers[i].editor@),
                ),
        ),
    )
}

/// A list of papers as a CSL-JSON array.
pub fn csl_json_for_papers(papers: &[Paper]) -> (r: String)
    ensures
        r@ == json_pretty_text(csl_items_model(papers@)),
{
    let mut items: Vec<Json> = Vec::new();
    let mut i: usize = 0;
    while i < papers.len()
        invariant
            i <= papers.len(),
            items.len() == i,
            forall|j: int|
                0 <= j < i ==> (#[trigger] items@[j])@ == csl_item_model(
                    papers@[j],
                    citation_key(papers@[j]),
                    names_in(papers@[j].authors@),
                    names_in(papers@[j].editor@),
                ),
        decreases papers.len() - i,
    {
        let p = &papers[i];
        let key = citation_key_for(p);
        let authors = parse_authors(p.authors.as_str());
        let editors = parse_authors(p.editor.as_str());
        items.push(csl_item(p, key.as_str(), &authors, &editors));
        i += 1;
    }
    assert(json_items(items@) =~= csl_items_model(papers@)->Array_0);
    print_pretty(&json_array(items))
}

} // verus!
