//! What stands in a Zotero library is taken over: every item with its fields, creators, tags and PDF.
use vstd::prelude::*;
use vstd::string::*;

use crate::file_store::joined;
use crate::text::{is_digit, number_value, opt_text, texts, trim};
use crate::zotero_import::{
    attachment_name, attachment_place, creator_names, digits_end, field_from, field_models, first_pdf, given_tags,
    is_item, is_present_pdf, item_record, last_with, map_step, mapped_from, pdf_count, place_of,
    tag_count, trimmed_filled, year_from, Attachment, FieldModel, MapStepModel, Mapped,
    ZoteroCollection, ZoteroCreator, ZoteroItem, ZoteroRows, ZoteroTag,
};

verus! {

// ---------------------------------------------------------------------------------------------
// Fields
// ---------------------------------------------------------------------------------------------
/// Whether the first field with a name has a value.
pub open spec fn is_field_value(fields: Seq<FieldModel>, name: Seq<char>, value: Seq<char>) -> bool {
    exists|k: int|
        0 <= k < fields.len() && (#[trigger] fields[k]).name == name && fields[k].value == value
            && forall|j: int| 0 <= j < k ==> (#[trigger] fields[j]).name != name
}

/// Whether no field has a name.
pub open spec fn is_no_field(fields: Seq<FieldModel>, name: Seq<char>) -> bool {
    forall|k: int| 0 <= k < fields.len() ==> (#[trigger] fields[k]).name != name
}

proof fn lemma_field_from(fields: Seq<FieldModel>, name: Seq<char>, i: int, k: int)
    requires
        0 <= i <= k <= fields.len(),
        forall|j: int| i <= j < k ==> (#[trigger] fields[j]).name != name,
    ensures
        field_from(fields, name, i) == field_from(fields, name, k),
    decreases k - i,
{
    if i < k {
        assert(fields[i].name != name);
        lemma_field_from(fields, name, i + 1, k);
    }
}

/// A field says its value, trimmed; an empty one and one that is not there say nothing.
pub proof fn law_field_says_its_value(fields: Seq<FieldModel>, name: Seq<char>, value: Seq<char>)
    ensures
        is_field_value(fields, name, value) && trim(value).len() > 0 ==> field_from(fields, name, 0)
            == Some(trim(value)),
        is_field_value(fields, name, value) && trim(value).len() == 0 ==> field_from(
            fields,
            name,
            0,
        ) is None,
        is_no_field(fields, name) ==> field_from(fields, name, 0) is None,
{
    if is_field_value(fields, name, value) {
        let k = choose|k: int|
            0 <= k < fields.len() && (#[trigger] fields[k]).name == name && fields[k].value == value
                && forall|j: int| 0 <= j < k ==> (#[trigger] fields[j]).name != name;
        lemma_field_from(fields, name, 0, k);
    }
    if is_no_field(fields, name) {
        lemma_field_from(fields, name, 0, fields.len() as int);
    }
}

/// An item has what its fields say: the title, the DOI, the address, the abstract, the ISBN, and for a
/// journal the title of the publication, else that of the book, else that of the proceedings.
pub proof fn law_item_has_its_fields(rows: ZoteroRows, r: ZoteroItem, value: Seq<char>)
    requires
        is_item(rows, r),
        trim(value).len() > 0,
    ensures
        ({
            let f = field_models(rows.fields@);
            &&& r.id == rows.id
            &&& r.key@ == rows.key@
            &&& r.collections@ == rows.collections@
            &&& is_field_value(f, "title"@, value) ==> r.title@ == trim(value)
            &&& is_no_field(f, "title"@) ==> r.title@.len() == 0
            &&& is_field_value(f, "DOI"@, value) ==> opt_text(r.doi) == Some(trim(value))
            &&& is_no_field(f, "DOI"@) ==> r.doi is None
            &&& is_field_value(f, "url"@, value) ==> opt_text(r.url) == Some(trim(value))
            &&& is_no_field(f, "url"@) ==> r.url is None
            &&& is_field_value(f, "abstractNote"@, value) ==> opt_text(r.abstract_text) == Some(
                trim(value),
            )
            &&& is_field_value(f, "ISBN"@, value) ==> opt_text(r.isbn) == Some(trim(value))
            &&& is_field_value(f, "publicationTitle"@, value) ==> opt_text(r.journal) == Some(
                trim(value),
            )
            &&& is_no_field(f, "publicationTitle"@) && is_field_value(f, "bookTitle"@, value)
                ==> opt_text(r.journal) == Some(trim(value))
            &&& is_no_field(f, "publicationTitle"@) && is_no_field(f, "bookTitle"@)
                && is_field_value(f, "proceedingsTitle"@, value) ==> opt_text(r.journal) == Some(
                trim(value),
            )
            &&& is_field_value(f, "date"@, value) ==> match r.year {
                Some(y) => year_from(trim(value), 0) == Some(y as int),
                None => year_from(trim(value), 0) is None,
            }
            &&& is_no_field(f, "date"@) ==> r.year is None
        }),
{
    let f = field_models(rows.fields@);
    law_field_says_its_value(f, "title"@, value);
    law_field_says_its_value(f, "DOI"@, value);
    law_field_says_its_value(f, "url"@, value);
    law_field_says_its_value(f, "abstractNote"@, value);
    law_field_says_its_value(f, "ISBN"@, value);
    law_field_says_its_value(f, "publicationTitle"@, value);
    law_field_says_its_value(f, "bookTitle"@, value);
    law_field_says_its_value(f, "proceedingsTitle"@, value);
    law_field_says_its_value(f, "date"@, value);
}

// ---------------------------------------------------------------------------------------------
// Years
// ---------------------------------------------------------------------------------------------
proof fn lemma_digits_over(s: Seq<char>, i: int, j: int)
    requires
        0 <= i <= j <= s.len(),
        forall|k: int| i <= k < j ==> is_digit(#[trigger] s[k]),
        j < s.len() ==> !is_digit(s[j]),
    ensures
        digits_end(s, i) == j,
    decreases j - i,
{
    if i < j {
        assert(is_digit(s[i]));
        lemma_digits_over(s, i + 1, j);
    }
}

proof fn lemma_no_digits(a: Seq<char>, rest: Seq<char>, i: int)
    requires
        0 <= i <= a.len(),
        forall|k: int| 0 <= k < a.len() ==> !is_digit(#[trigger] a[k]),
    ensures
        year_from(a + rest, i) == year_from(a + rest, a.len() as int),
    decreases a.len() - i,
{
    if i < a.len() {
        assert((a + rest)[i] == a[i]);
        assert(!is_digit(a[i]));
        lemma_no_digits(a, rest, i + 1);
    }
}

/// The year of a date is the first row of just four digits in it that is a year from 1900 to 2100,
/// wherever it stands.
pub proof fn law_year_is_found(before: Seq<char>, digits: Seq<char>, behind: Seq<char>)
    requires
        forall|k: int| 0 <= k < before.len() ==> !is_digit(#[trigger] before[k]),
        digits.len() == 4,
        forall|k: int| 0 <= k < digits.len() ==> is_digit(#[trigger] digits[k]),
        1900 <= number_value(digits) <= 2100,
        behind.len() == 0 || !is_digit(behind[0]),
    ensures
        year_from(before + digits + behind, 0) == Some(number_value(digits)),
{
    let s = before + digits + behind;
    let n = before.len() as int;
    assert(s =~= before + (digits + behind));
    lemma_no_digits(before, digits + behind, 0);
    assert forall|k: int| n <= k < n + 4 implies is_digit(#[trigger] s[k]) by {
        assert(s[k] == digits[k - n]);
    }
    if behind.len() > 0 {
        assert(s[n + 4] == behind[0]);
    }
    lemma_digits_over(s, n, n + 4);
    assert(s.subrange(n, n + 4) =~= digits);
}

// ---------------------------------------------------------------------------------------------
// People, tags and files
// ---------------------------------------------------------------------------------------------
/// The creators of two lists are those of the first and then those of the second; one with a name is
/// among them, by both names, or by the one name of an institution.
pub proof fn law_every_creator_is_taken_over(
    a: Seq<ZoteroCreator>,
    b: Seq<ZoteroCreator>,
    c: ZoteroCreator,
)
    ensures
        creator_names(a + b) == creator_names(a) + creator_names(b),
        c.mode != 1 && trim(c.first@ + " "@ + c.last@).len() > 0 ==> creator_names(seq![c]) == seq![
            trim(c.first@ + " "@ + c.last@),
        ],
        c.mode == 1 && trim(c.last@).len() > 0 ==> creator_names(seq![c]) == seq![trim(c.last@)],
    decreases b.len(),
{
    let none = Seq::<ZoteroCreator>::empty();
    assert(creator_names(none) =~= Seq::empty());
    assert(seq![c].drop_last() =~= none);
    assert(seq![c].last() == c);
    if b.len() == 0 {
        assert(a + b =~= a);
        assert(creator_names(a) + creator_names(b) =~= creator_names(a));
    } else {
        law_every_creator_is_taken_over(a, b.drop_last(), c);
        assert((a + b).drop_last() =~= a + b.drop_last());
        assert((a + b).last() == b.last());
    }
}

/// The tags of an item are all those that somebody gave, in their order, and none that was made
/// automatically.
pub proof fn law_every_given_tag_is_taken_over(list: Seq<ZoteroTag>)
    ensures
        given_tags(list) == list.filter(
            |t: ZoteroTag| t.kind is None || t.kind == Some(0i64),
        ).map_values(|t: ZoteroTag| t.name@),
    decreases list.len(),
{
    reveal(Seq::filter);
    let f = |t: ZoteroTag| t.name@;
    let is_given = |t: ZoteroTag| t.kind is None || t.kind == Some(0i64);
    if list.len() > 0 {
        law_every_given_tag_is_taken_over(list.drop_last());
        let before = list.drop_last().filter(is_given);
        assert(before.push(list.last()).map_values(f) =~= before.map_values(f).push(
            list.last().name@,
        ));
    } else {
        assert(list.filter(is_given).map_values(f) =~= Seq::empty());
    }
}

/// The texts of two lists, trimmed, are those of the first and then those of the second; of a text
/// something is left unless it is blank.
pub proof fn law_every_filled_text_is_kept(
    a: Seq<Seq<char>>,
    b: Seq<Seq<char>>,
    s: Seq<char>,
)
    ensures
        trimmed_filled(a + b) == trimmed_filled(a) + trimmed_filled(b),
        trim(s).len() > 0 ==> trimmed_filled(seq![s]) == seq![trim(s)],
        trim(s).len() == 0 ==> trimmed_filled(seq![s]).len() == 0,
    decreases b.len(),
{
    let none = Seq::<Seq<char>>::empty();
    assert(trimmed_filled(none) =~= Seq::empty());
    assert(seq![s].drop_last() =~= none);
    assert(seq![s].last() == s);
    if b.len() == 0 {
        assert(a + b =~= a);
        assert(trimmed_filled(a) + trimmed_filled(b) =~= trimmed_filled(a));
    } else {
        law_every_filled_text_is_kept(a, b.drop_last(), s);
        assert((a + b).drop_last() =~= a + b.drop_last());
        assert((a + b).last() == b.last());
    }
}

/// The PDF of an item is the first of its attachments that is one and is there, and an item has none
/// just where there is no such attachment.
pub proof fn law_first_pdf_is_taken(list: Seq<Attachment>, i: int)
    requires
        0 <= i,
    ensures
        match first_pdf(list, i) {
            Some(k) => i <= k < list.len() && is_present_pdf(list[k]) && forall|j: int|
                i <= j < k ==> !is_present_pdf(#[trigger] list[j]),
            None => forall|j: int| i <= j < list.len() ==> !is_present_pdf(#[trigger] list[j]),
        },
    decreases list.len() - i,
{
    if i < list.len() && !is_present_pdf(list[i]) {
        law_first_pdf_is_taken(list, i + 1);
    }
}

/// An item has its PDF, by the place where it was found and under its name.
pub proof fn law_item_has_its_pdf(rows: ZoteroRows, r: ZoteroItem, k: int)
    requires
        is_item(rows, r),
        0 <= k < rows.attachments@.len(),
        is_present_pdf(rows.attachments@[k]),
        forall|j: int| 0 <= j < k ==> !is_present_pdf(#[trigger] rows.attachments@[j]),
    ensures
        opt_text(r.pdf_path) == opt_text(rows.attachments@[k].found),
        opt_text(r.file_name) == Some(attachment_name(rows.attachments@[k].raw@)),
{
    law_first_pdf_is_taken(rows.attachments@, 0);
    if let Some(f) = first_pdf(rows.attachments@, 0) {
        if f < k {
            assert(!is_present_pdf(rows.attachments@[f]));
        } else if k < f {
            assert(!is_present_pdf(rows.attachments@[k]));
        }
    }
}

/// What is stored of an item is all that is known of it, with the file that was stored for it.
pub proof fn law_record_keeps_the_item(
    item: ZoteroItem,
    file_path: Option<Seq<char>>,
    file_size: Option<i64>,
)
    ensures
        ({
            let m = item_record(item, file_path, file_size);
            &&& item.title@.len() > 0 ==> m.title == item.title@
            &&& item.title@.len() == 0 && item.file_name is Some ==> m.title == item.file_name->0@
            &&& m.authors == texts(item.authors@)
            &&& m.year == item.year
            &&& m.journal == opt_text(item.journal)
            &&& m.doi == opt_text(item.doi)
            &&& m.url == opt_text(item.url)
            &&& m.abstract_text == opt_text(item.abstract_text)
            &&& m.isbn == opt_text(item.isbn)
            &&& m.file_path == file_path
            &&& m.file_size == file_size
        }),
{
}

// ---------------------------------------------------------------------------------------------
// Counts
// ---------------------------------------------------------------------------------------------
/// The PDFs and the tags of a library are counted item by item.
pub proof fn law_every_item_counts(a: Seq<ZoteroItem>, b: Seq<ZoteroItem>, item: ZoteroItem)
    ensures
        pdf_count(a + b) == pdf_count(a) + pdf_count(b),
        tag_count(a + b) == tag_count(a) + tag_count(b),
        pdf_count(seq![item]) == if item.pdf_path is Some {
            1nat
        } else {
            0
        },
        tag_count(seq![item]) == item.tags@.len(),
    decreases b.len(),
{
    let none = Seq::<ZoteroItem>::empty();
    assert(pdf_count(none) == 0 && tag_count(none) == 0);
    assert(seq![item].drop_last() =~= none);
    assert(seq![item].last() == item);
    if b.len() == 0 {
        assert(a + b =~= a);
    } else {
        law_every_item_counts(a, b.drop_last(), item);
        assert((a + b).drop_last() =~= a + b.drop_last());
        assert((a + b).last() == b.last());
    }
}

// ---------------------------------------------------------------------------------------------
// Collections
// ---------------------------------------------------------------------------------------------
proof fn lemma_last_with(cols: Seq<ZoteroCollection>, id: i64, n: int)
    requires
        0 <= n <= cols.len(),
    ensures
        match last_with(cols, id, n) {
            Some(k) => 0 <= k < n && cols[k].id == id,
            None => forall|k: int| 0 <= k < n ==> (#[trigger] cols[k]).id != id,
        },
    decreases n,
{
    if n > 0 {
        lemma_last_with(cols, id, n - 1);
    }
}

proof fn lemma_mapped(done: Seq<Mapped>, zid: i64, i: int)
    requires
        0 <= i,
    ensures
        mapped_from(done, zid, i) is None ==> forall|k: int|
            i <= k < done.len() ==> (#[trigger] done[k]).zid != zid,
        mapped_from(done, zid, i) is Some ==> exists|k: int|
            i <= k < done.len() && (#[trigger] done[k]).zid == zid && done[k].id@ == mapped_from(
                done,
                zid,
                i,
            )->0,
    decreases done.len() - i,
{
    if i < done.len() && done[i].zid != zid {
        lemma_mapped(done, zid, i + 1);
    }
}

/// A collection that is mapped is done; one that is there, whose parent is mapped, is made below what
/// stands for the parent, under its name; one without a parent is made at the top.
pub proof fn law_collections_keep_their_place(
    cols: Seq<ZoteroCollection>,
    done: Seq<Mapped>,
    k: int,
    m: int,
)
    requires
        0 <= k < cols.len(),
        forall|i: int, j: int|
            0 <= i < j < cols.len() ==> (#[trigger] cols[i]).id != (#[trigger] cols[j]).id,
    ensures
        0 <= m < done.len() && done[m].zid == cols[k].id ==> map_step(cols, done, cols[k].id) is Done,
        (forall|i: int| 0 <= i < done.len() ==> (#[trigger] done[i]).zid != cols[k].id)
            && cols[k].parent_id is None ==> map_step(cols, done, cols[k].id) == (
        MapStepModel::Make { zid: cols[k].id, name: cols[k].name@, parent: None }),
        (forall|i: int| 0 <= i < done.len() ==> (#[trigger] done[i]).zid != cols[k].id)
            && cols[k].parent_id is Some && 0 <= m < done.len() && done[m].zid
            == cols[k].parent_id->0 && (forall|i: int|
            0 <= i < m ==> (#[trigger] done[i]).zid != done[m].zid) && (exists|i: int|
            0 <= i < cols.len() && (#[trigger] cols[i]).id == done[m].zid) ==> map_step(
            cols,
            done,
            cols[k].id,
        ) == (MapStepModel::Make {
            zid: cols[k].id,
            name: cols[k].name@,
            parent: Some(done[m].id@),
        }),
{
    let id = cols[k].id;
    lemma_last_with(cols, id, cols.len() as int);
    lemma_mapped(done, id, 0);
    assert(place_of(cols, id) == Some(k)) by {
        if let Some(f) = place_of(cols, id) {
            if f < k {
                assert(cols[f].id != cols[k].id);
            } else if k < f {
                assert(cols[k].id != cols[f].id);
            }
        }
    }
    if cols[k].parent_id is Some {
        let pid = cols[k].parent_id->0;
        lemma_last_with(cols, pid, cols.len() as int);
        if 0 <= m < done.len() && done[m].zid == pid && (forall|i: int|
            0 <= i < m ==> (#[trigger] done[i]).zid != done[m].zid) {
            lemma_first_mapped(done, pid, 0, m);
        }
    }
}

proof fn lemma_first_mapped(done: Seq<Mapped>, zid: i64, i: int, m: int)
    requires
        0 <= i <= m < done.len(),
        done[m].zid == zid,
        forall|j: int| i <= j < m ==> (#[trigger] done[j]).zid != zid,
    ensures
        mapped_from(done, zid, i) == Some(done[m].id@),
    decreases m - i,
{
    if i < m {
        assert(done[i].zid != zid);
        lemma_first_mapped(done, zid, i + 1, m);
    }
}

/// A stored attachment is looked for in the folder of its item, and a linked one below the data directory.
pub proof fn law_attachments_are_looked_for(dir: Seq<char>, key: Seq<char>, name: Seq<char>)
    ensures
        attachment_place(dir, key, "storage:"@ + name) == Some(
            joined(joined(joined(dir, "storage"@), key), name),
        ),
        attachment_place(dir, key, "attachments:"@ + name) == Some(joined(dir, name)),
{
    reveal_strlit("storage:");
    reveal_strlit("attachments:");
    let a = "storage:"@ + name;
    assert(a.subrange(0, 8) =~= "storage:"@);
    assert(a.skip(8) =~= name);
    let b = "attachments:"@ + name;
    assert(b.subrange(0, 12) =~= "attachments:"@);
    assert(b.skip(12) =~= name);
    assert(!crate::text::starts_with(b, "storage:"@)) by {
        if crate::text::starts_with(b, "storage:"@) {
            assert(b.subrange(0, 8)[0] == "storage:"@[0]);
            assert(b[0] == 'a');
        }
    }
}

} // verus!
