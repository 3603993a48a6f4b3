//! Reading a Zotero library: its items, where their PDFs are, and the papers that they become.
use vstd::prelude::*;
use vstd::string::*;

use crate::file_store::{join_path, joined};
use crate::paper_service::{ImportMetadata, ImportModel};
use crate::models::Tag;
use crate::table::{find_row, first_place};
use crate::paths::{absolute, is_absolute};
use crate::text::{
    behind_last, after_last, chars_of, concat2, concat3, copy_opt, copy_texts, digit_char, is_digit,
    lemma_texts_push, lower, number_value, opt_text, same, slice, starts_with, strip_prefix, texts,
    to_lower, trim, trimmed, without_prefix,
};

verus! {

/// What an import from a Zotero directory would find.
pub struct ZoteroPreview {
    pub data_dir: String,
    pub items: usize,
    /// Items with a PDF that is there.
    pub with_pdf: usize,
    pub collections: usize,
    pub tags: usize,
}

/// A collection of a Zotero library.
pub struct ZoteroCollection {
    pub id: i64,
    pub name: String,
    pub parent_id: Option<i64>,
}

/// An item of a Zotero library.
pub struct ZoteroItem {
    pub id: i64,
    pub key: String,
    pub title: String,
    pub authors: Vec<String>,
    pub year: Option<i32>,
    pub journal: Option<String>,
    pub doi: Option<String>,
    pub url: Option<String>,
    pub abstract_text: Option<String>,
    pub isbn: Option<String>,
    pub pdf_path: Option<String>,
    pub file_name: Option<String>,
    pub collections: Vec<i64>,
    pub tags: Vec<String>,
}

/// Where a Zotero library is looked for below a user's home: its directory, and the database that
/// must be in it.
pub fn detect_zotero_dir(home: &str) -> (r: (String, String))
    ensures
        r.0@ == joined(home@, "Zotero"@),
        r.1@ == joined(joined(home@, "Zotero"@), "zotero.sqlite"@),
{
    let dir = join_path(home, "Zotero");
    let db = join_path(dir.as_str(), "zotero.sqlite");
    (dir, db)
}

// ---------------------------------------------------------------------------------------------
// Attachments
// ---------------------------------------------------------------------------------------------
/// Where an attachment is to be looked for: a stored one in the folder of its item, a linked one
/// below the data directory or at its absolute path. Any other path says nothing.
pub open spec fn attachment_place(data_dir: Seq<char>, key: Seq<char>, raw: Seq<char>) -> Option<
    Seq<char>,
> {
    match strip_prefix(raw, "storage:"@) {
        Some(name) => Some(joined(joined(joined(data_dir, "storage"@), key), name)),
        None => match strip_prefix(raw, "attachments:"@) {
            Some(rel) => Some(joined(data_dir, rel)),
            None => if is_absolute(raw) {
                Some(raw)
            } else {
                None
            },
        },
    }
}

/// Where an attachment is to be looked for.
pub fn resolve_attachment_path(data_dir: &str, item_key: &str, raw: &str) -> (r: Option<String>)
    ensures
        opt_text(r) == attachment_place(data_dir@, item_key@, raw@),
{
    match without_prefix(raw, "storage:") {
        Some(name) => Some(
            join_path(
                join_path(join_path(data_dir, "storage").as_str(), item_key).as_str(),
                name.as_str(),
            ),
        ),
        None => match without_prefix(raw, "attachments:") {
            Some(rel) => Some(join_path(data_dir, rel.as_str())),
            None => if absolute(raw) {
                Some(raw.to_owned())
            } else {
                None
            },
        },
    }
}

/// An attachment of an item: its path as Zotero keeps it, its type, and where it was found, if it
/// was.
pub struct Attachment {
    pub raw: String,
    pub content_type: String,
    pub found: Option<String>,
}

/// Whether an attachment is a PDF that is there.
pub open spec fn is_present_pdf(a: Attachment) -> bool {
    lower(a.content_type@) == "application/pdf"@ && a.found is Some
}

/// The place of the first attachment that is a PDF and is there.
pub open spec fn first_pdf(list: Seq<Attachment>, i: int) -> Option<int>
    decreases list.len() - i,
{
    if i < 0 || i >= list.len() {
        None
    } else if is_present_pdf(list[i]) {
        Some(i)
    } else {
        first_pdf(list, i + 1)
    }
}

/// A text without all the `storage:` at its beginning.
pub open spec fn without_storage(s: Seq<char>) -> Seq<char>
    decreases s.len(),
{
    if starts_with(s, "storage:"@) && s.len() >= 8 {
        without_storage(s.skip(8))
    } else {
        s
    }
}

/// The name of an attachment: the last part of its path, whatever the slashes, without the mark of a
/// stored file.
pub open spec fn attachment_name(raw: Seq<char>) -> Seq<char> {
    without_storage(after_last(after_last(raw, '/'), '\\'))
}

/// The name of an attachment.
pub fn attachment_file_name(raw: &str) -> (r: String)
    ensures
        r@ == attachment_name(raw@),
{
    let name = behind_last(behind_last(raw, '/').as_str(), '\\');
    let a = chars_of(name.as_str());
    let pat = chars_of("storage:");
    let mut i: usize = 0;
    proof {
        reveal_strlit("storage:");
        assert(name@.skip(0) =~= name@);
    }
    while a.len() - i >= 8 && crate::text::at(&a, &pat, i)
        invariant
            i <= a.len(),
            a@ == name@,
            pat@ == "storage:"@,
            pat@.len() == 8,
            without_storage(name@) == without_storage(name@.skip(i as int)),
        decreases a.len() - i,
    {
        proof {
            let rest = name@.skip(i as int);
            assert(rest.subrange(0, 8) =~= name@.subrange(i as int, i + 8));
            assert(rest.skip(8) =~= name@.skip(i + 8));
        }
        i += 8;
    }
    proof {
        let rest = name@.skip(i as int);
        if starts_with(rest, "storage:"@) {
            assert(rest.subrange(0, 8) =~= name@.subrange(i as int, i + 8));
        }
        assert(a@.subrange(i as int, a.len() as int) =~= rest);
    }
    slice(&a, i, a.len())
}

// ---------------------------------------------------------------------------------------------
// Dates
// ---------------------------------------------------------------------------------------------
/// The first position from `i` on at which no digit stands.
pub open spec fn digits_end(s: Seq<char>, i: int) -> int
    decreases s.len() - i,
{
    if 0 <= i < s.len() && is_digit(s[i]) {
        digits_end(s, i + 1)
    } else {
        i
    }
}

/// The first year from `i` on: a row of just four digits, between 1900 and 2100.
pub open spec fn year_from(s: Seq<char>, i: int) -> Option<int>
    decreases s.len() - i,
{
    if i < 0 || i >= s.len() {
        None
    } else {
        let e = digits_end(s, i);
        if e <= i || e > s.len() {
            year_from(s, i + 1)
        } else {
            let y = number_value(s.subrange(i, e));
            if e - i == 4 && 1900 <= y <= 2100 {
                Some(y)
            } else {
                year_from(s, e)
            }
        }
    }
}

/// The first year in a date, however it is written: a row of just four digits, between 1900 and
/// 2100.
pub fn extract_year(date: &str) -> (r: Option<i32>)
    ensures
        match r {
            Some(y) => year_from(date@, 0) == Some(y as int),
            None => year_from(date@, 0) is None,
        },
{
    let a = chars_of(date);
    let mut i: usize = 0;
    while i < a.len()
        invariant
            i <= a.len(),
            a@ == date@,
            year_from(date@, 0) == year_from(date@, i as int),
        decreases a.len() - i,
    {
        let mut e: usize = i;
        while e < a.len() && digit_char(a[e])
            invariant
                i <= e <= a.len(),
                a@ == date@,
                digits_end(date@, i as int) == digits_end(date@, e as int),
                forall|k: int| i <= k < e ==> is_digit(#[trigger] date@[k]),
            decreases a.len() - e,
        {
            e += 1;
        }
        if e == i {
            i += 1;
            continue;
        }
        if e - i == 4 {
            proof {
                let s = date@.subrange(i as int, e as int);
                reveal_with_fuel(number_value, 5);
                assert(is_digit(date@[i as int]) && is_digit(date@[i + 1]) && is_digit(
                    date@[i + 2],
                ) && is_digit(date@[i + 3]));
                assert(s.drop_last().drop_last().drop_last().drop_last().len() == 0);
                assert(s.last() == date@[i + 3]);
                assert(s.drop_last().last() == date@[i + 2]);
                assert(s.drop_last().drop_last().last() == date@[i + 1]);
                assert(s.drop_last().drop_last().drop_last().last() == date@[i as int]);
            }
            let y: u32 = (a[i] as u32 - 48) * 1000 + (a[i + 1] as u32 - 48) * 100 + (a[i + 2] as u32
                - 48) * 10 + (a[i + 3] as u32 - 48);
            if 1900 <= y && y <= 2100 {
                return Some(y as i32);
            }
        }
        i = e;
    }
    None
}

/// A year that is found lies between 1900 and 2100.
pub proof fn law_year_is_plausible(s: Seq<char>, i: int)
    ensures
        match year_from(s, i) {
            Some(y) => 1900 <= y <= 2100,
            None => true,
        },
    decreases s.len() - i,
{
    if 0 <= i < s.len() {
        let e = digits_end(s, i);
        if e <= i || e > s.len() {
            law_year_is_plausible(s, i + 1);
        } else {
            law_year_is_plausible(s, e);
        }
    }
}

// ---------------------------------------------------------------------------------------------
// Items
// ---------------------------------------------------------------------------------------------
/// A field of an item: its name and its value.
pub struct ZoteroField {
    pub name: String,
    pub value: String,
}

/// A field of an item, read as its texts.
pub struct FieldModel {
    pub name: Seq<char>,
    pub value: Seq<char>,
}

impl ZoteroField {
    /// The texts of a field.
    pub open spec fn model(self) -> FieldModel {
        FieldModel { name: self.name@, value: self.value@ }
    }
}

/// The fields of an item, read as their texts.
pub open spec fn field_models(v: Seq<ZoteroField>) -> Seq<FieldModel> {
    Seq::new(v.len(), |i: int| v[i].model())
}

/// The value of the first field of a name, trimmed, unless nothing is left of it.
pub open spec fn field_from(fields: Seq<FieldModel>, name: Seq<char>, i: int) -> Option<Seq<char>>
    decreases fields.len() - i,
{
    if i < 0 || i >= fields.len() {
        None
    } else if fields[i].name == name {
        if trim(fields[i].value).len() > 0 {
            Some(trim(fields[i].value))
        } else {
            None
        }
    } else {
        field_from(fields, name, i + 1)
    }
}

/// The value of a field, trimmed, unless nothing is left of it.
pub fn field(fields: &Vec<ZoteroField>, name: &str) -> (r: Option<String>)
    ensures
        opt_text(r) == field_from(field_models(fields@), name@, 0),
{
    let mut i: usize = 0;
    while i < fields.len()
        invariant
            i <= fields.len(),
            field_from(field_models(fields@), name@, 0) == field_from(
                field_models(fields@),
                name@,
                i as int,
            ),
        decreases fields.len() - i,
    {
        if same(fields[i].name.as_str(), name) {
            let v = trimmed(fields[i].value.as_str());
            if v.as_str().is_empty() {
                return None;
            }
            return Some(v);
        }
        i += 1;
    }
    None
}

/// A creator of an item. In mode 1 the last name is the whole name, as of an institution.
pub struct ZoteroCreator {
    pub first: String,
    pub last: String,
    pub mode: i64,
}

/// The name of a creator.
pub open spec fn creator_name(c: ZoteroCreator) -> Seq<char> {
    if c.mode == 1 {
        trim(c.last@)
    } else {
        trim(c.first@ + " "@ + c.last@)
    }
}

/// The names of creators that have one.
pub open spec fn creator_names(list: Seq<ZoteroCreator>) -> Seq<Seq<char>>
    decreases list.len(),
{
    if list.len() == 0 {
        Seq::empty()
    } else {
        let before = creator_names(list.drop_last());
        let name = creator_name(list.last());
        if name.len() > 0 {
            before.push(name)
        } else {
            before
        }
    }
}

/// The names of creators that have one, in their order.
pub fn author_names(list: &Vec<ZoteroCreator>) -> (r: Vec<String>)
    ensures
        texts(r@) == creator_names(list@),
{
    broadcast use lemma_texts_push;

    let mut out: Vec<String> = Vec::new();
    let mut i: usize = 0;
    assert(texts(out@) =~= creator_names(list@.take(0)));
    while i < list.len()
        invariant
            i <= list.len(),
            texts(out@) == creator_names(list@.take(i as int)),
        decreases list.len() - i,
    {
        broadcast use lemma_texts_push;

        proof {
            assert(list@.take(i + 1).drop_last() =~= list@.take(i as int));
        }
        let name = if list[i].mode == 1 {
            trimmed(list[i].last.as_str())
        } else {
            trimmed(concat3(list[i].first.as_str(), " ", list[i].last.as_str()).as_str())
        };
        if !name.as_str().is_empty() {
            out.push(name);
        }
        i += 1;
    }
    assert(list@.take(list.len() as int) =~= list@);
    out
}

/// A tag of an item: its name, and its kind where the library keeps one.
pub struct ZoteroTag {
    pub name: String,
    pub kind: Option<i64>,
}

/// The names of the tags that somebody gave: those of kind 0, or of no known kind. The others were
/// made automatically.
pub open spec fn given_tags(list: Seq<ZoteroTag>) -> Seq<Seq<char>>
    decreases list.len(),
{
    if list.len() == 0 {
        Seq::empty()
    } else {
        let before = given_tags(list.drop_last());
        if list.last().kind is None || list.last().kind == Some(0i64) {
            before.push(list.last().name@)
        } else {
            before
        }
    }
}

/// The names of the tags that somebody gave.
pub fn custom_tags(list: &Vec<ZoteroTag>) -> (r: Vec<String>)
    ensures
        texts(r@) == given_tags(list@),
{
    broadcast use lemma_texts_push;

    let mut out: Vec<String> = Vec::new();
    let mut i: usize = 0;
    assert(texts(out@) =~= given_tags(list@.take(0)));
    while i < list.len()
        invariant
            i <= list.len(),
            texts(out@) == given_tags(list@.take(i as int)),
        decreases list.len() - i,
    {
        broadcast use lemma_texts_push;

        proof {
            assert(list@.take(i + 1).drop_last() =~= list@.take(i as int));
        }
        let given = match list[i].kind {
            Some(k) => k == 0,
            None => true,
        };
        if given {
            out.push(list[i].name.clone());
        }
        i += 1;
    }
    assert(list@.take(list.len() as int) =~= list@);
    out
}

/// What the tables of a Zotero library say of one item.
pub struct ZoteroRows {
    pub id: i64,
    pub key: String,
    pub fields: Vec<ZoteroField>,
    pub creators: Vec<ZoteroCreator>,
    pub tags: Vec<ZoteroTag>,
    pub attachments: Vec<Attachment>,
    pub collections: Vec<i64>,
}

/// The first of three that is there.
pub open spec fn first_of(
    a: Option<Seq<char>>,
    b: Option<Seq<char>>,
    c: Option<Seq<char>>,
) -> Option<Seq<char>> {
    if a is Some {
        a
    } else if b is Some {
        b
    } else {
        c
    }
}

/// The year that a date says, if there is a date.
pub open spec fn year_of(date: Option<Seq<char>>) -> Option<int> {
    match date {
        Some(d) => year_from(d, 0),
        None => None,
    }
}

/// Whether `r` is the item that its rows describe.
pub open spec fn is_item(rows: ZoteroRows, r: ZoteroItem) -> bool {
    let f = field_models(rows.fields@);
    &&& r.id == rows.id && r.key@ == rows.key@
    &&& r.title@ == (match field_from(f, "title"@, 0) {
        Some(t) => t,
        None => Seq::empty(),
    })
    &&& texts(r.authors@) == creator_names(rows.creators@)
    &&& match r.year {
        Some(y) => year_of(field_from(f, "date"@, 0)) == Some(y as int),
        None => year_of(field_from(f, "date"@, 0)) is None,
    }
    &&& opt_text(r.journal) == first_of(
        field_from(f, "publicationTitle"@, 0),
        field_from(f, "bookTitle"@, 0),
        field_from(f, "proceedingsTitle"@, 0),
    )
    &&& opt_text(r.doi) == field_from(f, "DOI"@, 0)
    &&& opt_text(r.url) == field_from(f, "url"@, 0)
    &&& opt_text(r.abstract_text) == field_from(f, "abstractNote"@, 0)
    &&& opt_text(r.isbn) == field_from(f, "ISBN"@, 0)
    &&& match first_pdf(rows.attachments@, 0) {
        Some(k) => opt_text(r.pdf_path) == opt_text(rows.attachments@[k].found) && opt_text(
            r.file_name,
        ) == Some(attachment_name(rows.attachments@[k].raw@)),
        None => r.pdf_path is None && r.file_name is None,
    }
    &&& r.collections@ == rows.collections@
    &&& texts(r.tags@) == given_tags(rows.tags@)
}

/// The place of the first attachment that is a PDF and is there.
fn find_pdf(list: &Vec<Attachment>) -> (r: Option<usize>)
    ensures
        match r {
            Some(k) => k < list.len() && first_pdf(list@, 0) == Some(k as int) && list@[k as int].found
                is Some,
            None => first_pdf(list@, 0) is None,
        },
{
    let mut i: usize = 0;
    while i < list.len()
        invariant
            i <= list.len(),
            first_pdf(list@, 0) == first_pdf(list@, i as int),
        decreases list.len() - i,
    {
        if list[i].found.is_some() && same(
            to_lower(list[i].content_type.as_str()).as_str(),
            "application/pdf",
        ) {
            return Some(i);
        }
        i += 1;
    }
    None
}

/// The item that its rows describe.
pub fn item_of_rows(rows: ZoteroRows) -> (r: ZoteroItem)
    ensures
        is_item(rows, r),
{
    let title = match field(&rows.fields, "title") {
        Some(t) => t,
        None => String::new(),
    };
    let year = match field(&rows.fields, "date") {
        Some(d) => extract_year(d.as_str()),
        None => None,
    };
    let journal = match field(&rows.fields, "publicationTitle") {
        Some(j) => Some(j),
        None => match field(&rows.fields, "bookTitle") {
            Some(j) => Some(j),
            None => field(&rows.fields, "proceedingsTitle"),
        },
    };
    let (pdf_path, file_name) = match find_pdf(&rows.attachments) {
        Some(k) => (
            copy_opt(&rows.attachments[k].found),
            Some(attachment_file_name(rows.attachments[k].raw.as_str())),
        ),
        None => (None, None),
    };
    let authors = author_names(&rows.creators);
    let tags = custom_tags(&rows.tags);
    let doi = field(&rows.fields, "DOI");
    let url = field(&rows.fields, "url");
    let abstract_text = field(&rows.fields, "abstractNote");
    let isbn = field(&rows.fields, "ISBN");
    ZoteroItem {
        id: rows.id,
        key: rows.key,
        title,
        authors,
        year,
        journal,
        doi,
        url,
        abstract_text,
        isbn,
        pdf_path,
        file_name,
        collections: rows.collections,
        tags,
    }
}

/// Whether items are those that their rows describe, in their order.
pub open spec fn are_items(rows: Seq<ZoteroRows>, items: Seq<ZoteroItem>) -> bool {
    &&& items.len() == rows.len()
    &&& forall|i: int| 0 <= i < rows.len() ==> is_item(rows[i], #[trigger] items[i])
}

/// The items of a library, as their rows describe them.
pub fn load_library(rows: Vec<ZoteroRows>) -> (r: Vec<ZoteroItem>)
    ensures
        are_items(rows@, r@),
{
    let ghost all = rows@;
    let mut rest = rows;
    let mut back: Vec<ZoteroItem> = Vec::new();
    while rest.len() > 0
        invariant
            rest@.len() <= all.len(),
            rest@ == all.take(rest@.len() as int),
            back@.len() == all.len() - rest@.len(),
            forall|i: int|
                0 <= i < back@.len() ==> is_item(all[rest@.len() + i], #[trigger] back@[i]),
        ensures
            rest@.len() == 0,
        decreases rest@.len(),
    {
        let ghost n = rest@.len() as int;
        let ghost before = back@;
        let row = match rest.pop() {
            Some(row) => row,
            None => {
                break;
            },
        };
        assert(row == all[n - 1]);
        assert(rest@ =~= all.take(n - 1));
        back.insert(0, item_of_rows(row));
        assert forall|i: int| 0 <= i < back@.len() implies is_item(
            all[rest@.len() + i],
            #[trigger] back@[i],
        ) by {
            if i > 0 {
                assert(back@[i] == before[i - 1]);
            }
        }
    }
    back
}

// ---------------------------------------------------------------------------------------------
// The preview
// ---------------------------------------------------------------------------------------------
/// How many items have a PDF.
pub open spec fn pdf_count(items: Seq<ZoteroItem>) -> nat
    decreases items.len(),
{
    if items.len() == 0 {
        0
    } else {
        pdf_count(items.drop_last()) + (if items.last().pdf_path is Some {
            1nat
        } else {
            0
        })
    }
}

/// How many tags the items have in all.
pub open spec fn tag_count(items: Seq<ZoteroItem>) -> nat
    decreases items.len(),
{
    if items.len() == 0 {
        0
    } else {
        tag_count(items.drop_last()) + items.last().tags@.len()
    }
}

proof fn lemma_counts_grow(items: Seq<ZoteroItem>, k: int)
    requires
        0 <= k <= items.len(),
    ensures
        tag_count(items.take(k)) <= tag_count(items),
        pdf_count(items.take(k)) <= k,
    decreases items.len(),
{
    if k < items.len() {
        lemma_counts_grow(items.drop_last(), k);
        assert(items.drop_last().take(k) =~= items.take(k));
    } else {
        assert(items.take(k) =~= items);
        if k > 0 {
            lemma_counts_grow(items.drop_last(), k - 1);
            assert(items.drop_last().take(k - 1) =~= items.drop_last());
        }
    }
}

/// What an import would find.
pub fn preview(
    data_dir: &str,
    collections: &Vec<ZoteroCollection>,
    items: &Vec<ZoteroItem>,
) -> (r: ZoteroPreview)
    requires
        tag_count(items@) <= usize::MAX,
    ensures
        r.data_dir@ == data_dir@,
        r.items == items@.len(),
        r.with_pdf == pdf_count(items@),
        r.collections == collections@.len(),
        r.tags == tag_count(items@),
{
    let mut with_pdf: usize = 0;
    let mut tags: usize = 0;
    let mut i: usize = 0;
    while i < items.len()
        invariant
            i <= items.len(),
            with_pdf <= i,
            with_pdf == pdf_count(items@.take(i as int)),
            tags == tag_count(items@.take(i as int)),
            tag_count(items@) <= usize::MAX,
        decreases items.len() - i,
    {
        proof {
            lemma_counts_grow(items@, i + 1);
            assert(items@.take(i + 1).drop_last() =~= items@.take(i as int));
        }
        if items[i].pdf_path.is_some() {
            with_pdf += 1;
        }
        tags += items[i].tags.len();
        i += 1;
    }
    assert(items@.take(items.len() as int) =~= items@);
    ZoteroPreview {
        data_dir: data_dir.to_owned(),
        items: items.len(),
        with_pdf,
        collections: collections.len(),
        tags,
    }
}

// ---------------------------------------------------------------------------------------------
// Collections
// ---------------------------------------------------------------------------------------------
/// A Zotero collection and the collection that stands for it here.
pub struct Mapped {
    pub zid: i64,
    pub id: String,
}

/// The place of the last collection with an id among the first `n`.
pub open spec fn last_with(cols: Seq<ZoteroCollection>, id: i64, n: int) -> Option<int>
    decreases n,
{
    if n <= 0 || n > cols.len() {
        None
    } else if cols[n - 1].id == id {
        Some(n - 1)
    } else {
        last_with(cols, id, n - 1)
    }
}

/// The place of a collection.
pub open spec fn place_of(cols: Seq<ZoteroCollection>, id: i64) -> Option<int> {
    last_with(cols, id, cols.len() as int)
}

/// What stands for a Zotero collection, where something does: the first entry from `i` on.
pub open spec fn mapped_from(done: Seq<Mapped>, zid: i64, i: int) -> Option<Seq<char>>
    decreases done.len() - i,
{
    if i < 0 || i >= done.len() {
        None
    } else if done[i].zid == zid {
        Some(done[i].id@)
    } else {
        mapped_from(done, zid, i + 1)
    }
}

/// What is to be done next so that a Zotero collection is mapped.
pub enum MapStep {
    /// It is mapped to the collection with this id.
    Done(String),
    /// The collection of this name below this parent is to be looked up, or made, for `zid`.
    Make { zid: i64, name: String, parent: Option<String> },
    /// There is no such collection.
    Missing(String),
}

/// What is to be done next, read as texts.
pub enum MapStepModel {
    Done(Seq<char>),
    Make { zid: i64, name: Seq<char>, parent: Option<Seq<char>> },
    Missing(Seq<char>),
}

impl MapStep {
    /// The texts of a step.
    pub open spec fn model(self) -> MapStepModel {
        match self {
            MapStep::Done(id) => MapStepModel::Done(id@),
            MapStep::Make { zid, name, parent } => MapStepModel::Make {
                zid,
                name: name@,
                parent: opt_text(parent),
            },
            MapStep::Missing(why) => MapStepModel::Missing(why@),
        }
    }
}

/// The step for the collection at `k`: its parent comes first where it is known and not mapped. At
/// most `fuel` parents are climbed; only parents in a circle are more.
pub open spec fn step_at(
    cols: Seq<ZoteroCollection>,
    done: Seq<Mapped>,
    k: int,
    fuel: nat,
) -> MapStepModel
    decreases fuel,
{
    let c = cols[k];
    let here = |parent: Option<Seq<char>>|
        MapStepModel::Make { zid: c.id, name: c.name@, parent };
    match c.parent_id {
        None => here(None),
        Some(pid) => match place_of(cols, pid) {
            None => here(None),
            Some(p) => if mapped_from(done, pid, 0) is Some {
                here(mapped_from(done, pid, 0))
            } else if fuel == 0 {
                here(None)
            } else {
                step_at(cols, done, p, (fuel - 1) as nat)
            },
        },
    }
}

/// The next step for a collection.
pub open spec fn map_step(cols: Seq<ZoteroCollection>, done: Seq<Mapped>, zid: i64) -> MapStepModel {
    match mapped_from(done, zid, 0) {
        Some(id) => MapStepModel::Done(id),
        None => match place_of(cols, zid) {
            None => MapStepModel::Missing(
                "Zotero 分类 "@ + crate::text::signed_decimal(zid as int) + " 不存在"@,
            ),
            Some(k) => step_at(cols, done, k, cols.len()),
        },
    }
}

fn find_collection(cols: &Vec<ZoteroCollection>, id: i64) -> (r: Option<usize>)
    ensures
        match r {
            Some(k) => k < cols.len() && place_of(cols@, id) == Some(k as int),
            None => place_of(cols@, id) is None,
        },
{
    let mut n: usize = cols.len();
    while n > 0
        invariant
            n <= cols.len(),
            place_of(cols@, id) == last_with(cols@, id, n as int),
        decreases n,
    {
        if cols[n - 1].id == id {
            return Some(n - 1);
        }
        n -= 1;
    }
    None
}

fn mapped_to(done: &Vec<Mapped>, zid: i64) -> (r: Option<String>)
    ensures
        opt_text(r) == mapped_from(done@, zid, 0),
{
    let mut i: usize = 0;
    while i < done.len()
        invariant
            i <= done.len(),
            mapped_from(done@, zid, 0) == mapped_from(done@, zid, i as int),
        decreases done.len() - i,
    {
        if done[i].zid == zid {
            return Some(done[i].id.clone());
        }
        i += 1;
    }
    None
}

/// What is to be done next so that a Zotero collection is mapped: parents first, so that the tree is
/// mirrored from the top.
pub fn map_collection(cols: &Vec<ZoteroCollection>, done: &Vec<Mapped>, zid: i64) -> (r: MapStep)
    ensures
        r.model() == map_step(cols@, done@, zid),
{
    if let Some(id) = mapped_to(done, zid) {
        return MapStep::Done(id);
    }
    let mut k: usize = match find_collection(cols, zid) {
        Some(k) => k,
        None => {
            return MapStep::Missing(
                concat3(
                    "Zotero 分类 ",
                    crate::text::signed_decimal_of(zid).as_str(),
                    " 不存在",
                ),
            );
        },
    };
    let mut fuel: usize = cols.len();
    loop
        invariant
            k < cols.len(),
            map_step(cols@, done@, zid) == step_at(cols@, done@, k as int, fuel as nat),
        decreases fuel,
    {
        let up = match cols[k].parent_id {
            Some(pid) => match find_collection(cols, pid) {
                Some(p) => match mapped_to(done, pid) {
                    Some(id) => {
                        return MapStep::Make {
                            zid: cols[k].id,
                            name: cols[k].name.clone(),
                            parent: Some(id),
                        };
                    },
                    None => Some(p),
                },
                None => None,
            },
            None => None,
        };
        match up {
            Some(p) => {
                if fuel == 0 {
                    return MapStep::Make { zid: cols[k].id, name: cols[k].name.clone(), parent: None };
                }
                k = p;
                fuel -= 1;
            },
            None => {
                return MapStep::Make { zid: cols[k].id, name: cols[k].name.clone(), parent: None };
            },
        }
    }
}

proof fn lemma_last_with(cols: Seq<ZoteroCollection>, id: i64, n: int)
    requires
        0 <= n <= cols.len(),
    ensures
        match last_with(cols, id, n) {
            Some(k) => 0 <= k < n && cols[k].id == id,
            None => true,
        },
    decreases n,
{
    if n > 0 {
        lemma_last_with(cols, id, n - 1);
    }
}

proof fn lemma_step_is_new(
    cols: Seq<ZoteroCollection>,
    done: Seq<Mapped>,
    k: int,
    fuel: nat,
)
    requires
        0 <= k < cols.len(),
        mapped_from(done, cols[k].id, 0) is None,
    ensures
        step_at(cols, done, k, fuel) is Make,
        mapped_from(done, step_at(cols, done, k, fuel)->zid, 0) is None,
    decreases fuel,
{
    if let Some(pid) = cols[k].parent_id {
        lemma_last_with(cols, pid, cols.len() as int);
        if place_of(cols, pid) is Some && mapped_from(done, pid, 0) is None && fuel > 0 {
            lemma_step_is_new(cols, done, place_of(cols, pid)->0, (fuel - 1) as nat);
        }
    }
}

/// Every step either ends the mapping or maps a collection that was not mapped before.
pub proof fn law_each_step_maps_another(
    cols: Seq<ZoteroCollection>,
    done: Seq<Mapped>,
    zid: i64,
)
    ensures
        match map_step(cols, done, zid) {
            MapStepModel::Done(id) => mapped_from(done, zid, 0) == Some(id),
            MapStepModel::Missing(_) => place_of(cols, zid) is None,
            MapStepModel::Make { zid: z, .. } => mapped_from(done, z, 0) is None,
        },
{
    lemma_last_with(cols, zid, cols.len() as int);
    if mapped_from(done, zid, 0) is None && place_of(cols, zid) is Some {
        lemma_step_is_new(cols, done, place_of(cols, zid)->0, cols.len());
    }
}

// ---------------------------------------------------------------------------------------------
// Import
// ---------------------------------------------------------------------------------------------
/// The name under which an item is shown while it is imported.
pub fn display_name(item: &ZoteroItem) -> (r: String)
    ensures
        r@ == if item.title@.len() == 0 {
            item.key@
        } else {
            item.title@
        },
{
    if item.title.as_str().is_empty() {
        item.key.clone()
    } else {
        item.title.clone()
    }
}

/// The title of the paper that an item becomes: its own, else the name of its file, else its key.
pub open spec fn item_title(item: ZoteroItem) -> Seq<char> {
    if item.title@.len() > 0 {
        item.title@
    } else {
        match item.file_name {
            Some(n) => n@,
            None => "Zotero 条目 "@ + item.key@,
        }
    }
}

/// What is stored of an item.
pub open spec fn item_record(
    item: ZoteroItem,
    file_path: Option<Seq<char>>,
    file_size: Option<i64>,
) -> ImportModel {
    ImportModel {
        title: item_title(item),
        authors: texts(item.authors@),
        year: item.year,
        journal: opt_text(item.journal),
        doi: opt_text(item.doi),
        url: opt_text(item.url),
        abstract_text: opt_text(item.abstract_text),
        keywords: Seq::empty(),
        file_path,
        file_size,
        page_count: None,
        language: None,
        isbn: opt_text(item.isbn),
    }
}

/// The name under which the file of an item is known.
pub open spec fn item_file_name(item: ZoteroItem) -> Seq<char> {
    match item.file_name {
        Some(n) => n@,
        None => "attachment.pdf"@,
    }
}

/// What is stored of an item, and under which name its file is known.
pub fn item_metadata(item: &ZoteroItem, blob: Option<String>, size: Option<i64>) -> (r: (
    ImportMetadata,
    String,
))
    ensures
        r.0@ == item_record(*item, opt_text(blob), size),
        r.1@ == item_file_name(*item),
{
    let title = if item.title.as_str().is_empty() {
        match &item.file_name {
            Some(n) => n.clone(),
            None => concat2("Zotero 条目 ", item.key.as_str()),
        }
    } else {
        item.title.clone()
    };
    let name = match &item.file_name {
        Some(n) => n.clone(),
        None => "attachment.pdf".to_owned(),
    };
    let keywords: Vec<String> = Vec::new();
    assert(texts(keywords@) =~= Seq::empty());
    (
        ImportMetadata {
            title,
            authors: copy_texts(&item.authors),
            year: item.year,
            journal: copy_opt(&item.journal),
            doi: copy_opt(&item.doi),
            url: copy_opt(&item.url),
            abstract_text: copy_opt(&item.abstract_text),
            keywords,
            file_path: blob,
            file_size: size,
            page_count: None,
            language: None,
            isbn: copy_opt(&item.isbn),
        },
        name,
    )
}

/// The texts of a list, trimmed, without those of which nothing is left.
pub open spec fn trimmed_filled(list: Seq<Seq<char>>) -> Seq<Seq<char>>
    decreases list.len(),
{
    if list.len() == 0 {
        Seq::empty()
    } else {
        let before = trimmed_filled(list.drop_last());
        let t = trim(list.last());
        if t.len() > 0 {
            before.push(t)
        } else {
            before
        }
    }
}

/// The tags that the paper of an item gets.
pub fn tags_of_item(item: &ZoteroItem) -> (r: Vec<String>)
    ensures
        texts(r@) == trimmed_filled(texts(item.tags@)),
{
    broadcast use lemma_texts_push;

    let mut out: Vec<String> = Vec::new();
    let mut i: usize = 0;
    let ghost all = texts(item.tags@);
    assert(texts(out@) =~= trimmed_filled(all.take(0)));
    while i < item.tags.len()
        invariant
            i <= item.tags.len(),
            all == texts(item.tags@),
            texts(out@) == trimmed_filled(all.take(i as int)),
        decreases item.tags.len() - i,
    {
        broadcast use lemma_texts_push;

        proof {
            assert(all.take(i + 1).drop_last() =~= all.take(i as int));
        }
        let t = trimmed(item.tags[i].as_str());
        if !t.as_str().is_empty() {
            out.push(t);
        }
        i += 1;
    }
    assert(all.take(item.tags.len() as int) =~= all);
    out
}

// ---------------------------------------------------------------------------------------------
// Tags
// ---------------------------------------------------------------------------------------------
/// Whether a tag has a name.
pub open spec fn tag_named(name: Seq<char>) -> spec_fn(Tag) -> bool {
    |t: Tag| t.name@ == name
}

/// The id of the tag of a name, where there is one: else it is to be made.
pub fn map_tag(tags: &Vec<Tag>, name: &str) -> (r: Option<String>)
    ensures
        opt_text(r) == (match first_place(tags@, tag_named(name@), 0) {
            Some(k) => Some(tags@[k].id@),
            None => None,
        }),
{
    let is = |t: &Tag| -> (c: bool)
        ensures
            c == (t.name@ == name@),
        { same(t.name.as_str(), name) };
    match find_row(tags, is, Ghost(tag_named(name@))) {
        Some(k) => Some(tags[k].id.clone()),
        None => None,
    }
}

} // verus!
