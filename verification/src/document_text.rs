//! Documents as texts: which way a file is read, in which encoding, and how much of it goes into a
//! message.
use vstd::prelude::*;
use vstd::string::*;
use vstd::utf8::{decode_utf8, encode_utf8, valid_utf8};

use crate::file_service::{file_part, file_part_of};
use crate::file_store::{join_path, joined};
use crate::office_text::{extract_text, handed_out, is_office_name, office_name, whole_text};
use crate::text::{
    chars_of, concat3, decimal, decimal_of, ends_with, from_utf8, has_suffix, join, join_with,
    last_segment, lower, same, segment_start, slice, string_of, texts, to_lower,
};

verus! {

/// How many bytes a text or an office document may have.
pub const MAX_TEXT_OFFICE_BYTES: u64 = 5_242_880;

/// How many bytes a PDF may have.
pub const MAX_PDF_BYTES: u64 = 20_971_520;

/// How many characters of a document go into one message.
pub const INJECT_BUDGET_CHARS: usize = 30_000;

// ---------------------------------------------------------------------------------------------
// Encodings
// ---------------------------------------------------------------------------------------------
/// An encoding of texts.
pub enum Charset {
    Gbk,
    Utf16Le,
    Utf16Be,
}

/// The text that `encoding_rs` makes of bytes in an encoding.
pub uninterp spec fn decoded_text(charset: Charset, bytes: Seq<u8>) -> Seq<char>;

/// `encoding_rs::Encoding::decode`: the text of bytes in an encoding, with a sign in the place of
/// what is malformed. The text is named.
#[verifier::external_body]
fn decode(charset: Charset, bytes: &[u8]) -> (r: String)
    ensures
        r@ == decoded_text(charset, bytes@),
{
    let encoding = match charset {
        Charset::Gbk => encoding_rs::GBK,
        Charset::Utf16Le => encoding_rs::UTF_16LE,
        Charset::Utf16Be => encoding_rs::UTF_16BE,
    };
    encoding.decode(bytes).0.into_owned()
}

/// Whether bytes are not those of a text: a zero stands among the first.
pub open spec fn is_binary(bytes: Seq<u8>) -> bool {
    exists|k: int| 0 <= k < bytes.len() && k < 8192 && #[trigger] bytes[k] == 0u8
}

/// How bytes are read as a text: by the mark at their start, else as UTF-8, else as GBK, for which
/// all bytes are good.
pub enum Reading {
    Marked(Charset),
    Binary,
    Utf8,
    Legacy,
}

/// How bytes are read as a text.
pub open spec fn reading_of(bytes: Seq<u8>) -> Reading {
    if bytes.len() >= 2 && bytes[0] == 0xFFu8 && bytes[1] == 0xFEu8 {
        Reading::Marked(Charset::Utf16Le)
    } else if bytes.len() >= 2 && bytes[0] == 0xFEu8 && bytes[1] == 0xFFu8 {
        Reading::Marked(Charset::Utf16Be)
    } else if is_binary(bytes) {
        Reading::Binary
    } else if valid_utf8(bytes) {
        Reading::Utf8
    } else {
        Reading::Legacy
    }
}

/// A text without a byte order mark at its start.
pub open spec fn unmarked(s: Seq<char>) -> Seq<char> {
    if s.len() > 0 && s[0] == '\u{feff}' {
        s.skip(1)
    } else {
        s
    }
}

/// The text of bytes, or what is said where they are none.
pub open spec fn text_of_bytes(bytes: Seq<u8>) -> Result<Seq<char>, Seq<char>> {
    match reading_of(bytes) {
        Reading::Marked(c) => Ok(decoded_text(c, bytes.skip(2))),
        Reading::Binary => Err("二进制文件，无法提取文本"@),
        Reading::Utf8 => Ok(unmarked(decode_utf8(bytes))),
        Reading::Legacy => Ok(decoded_text(Charset::Gbk, bytes)),
    }
}

fn binary(bytes: &[u8]) -> (r: bool)
    ensures
        r == is_binary(bytes@),
{
    let mut i: usize = 0;
    while i < bytes.len() && i < 8192
        invariant
            i <= bytes.len(),
            forall|k: int| 0 <= k < i ==> #[trigger] bytes@[k] != 0u8,
        decreases bytes.len() - i,
    {
        if bytes[i] == 0 {
            return true;
        }
        i += 1;
    }
    false
}

/// A text without a byte order mark at its start.
pub fn without_mark(s: &str) -> (r: String)
    ensures
        r@ == unmarked(s@),
{
    let a = chars_of(s);
    if a.len() > 0 && a[0] == '\u{feff}' {
        assert(a@.subrange(1, a.len() as int) =~= s@.skip(1));
        slice(&a, 1, a.len())
    } else {
        s.to_owned()
    }
}

/// The text of a file's bytes, whatever its name. A zero among the first bytes says that it is none,
/// unless a mark stands before it: texts in UTF-16 are full of zeros.
pub fn decode_text_file(bytes: &[u8]) -> (r: Result<String, String>)
    ensures
        match text_of_bytes(bytes@) {
            Ok(t) => r is Ok && r->Ok_0@ == t,
            Err(e) => r is Err && r->Err_0@ == e,
        },
{
    if bytes.len() >= 2 && bytes[0] == 0xFF && bytes[1] == 0xFE {
        let rest = vstd::slice::slice_subrange(bytes, 2, bytes.len());
        assert(rest@ =~= bytes@.skip(2));
        return Ok(decode(Charset::Utf16Le, rest));
    }
    if bytes.len() >= 2 && bytes[0] == 0xFE && bytes[1] == 0xFF {
        let rest = vstd::slice::slice_subrange(bytes, 2, bytes.len());
        assert(rest@ =~= bytes@.skip(2));
        return Ok(decode(Charset::Utf16Be, rest));
    }
    if binary(bytes) {
        return Err("二进制文件，无法提取文本".to_owned());
    }
    match from_utf8(bytes) {
        Some(s) => Ok(without_mark(s.as_str())),
        None => Ok(decode(Charset::Gbk, bytes)),
    }
}

/// A text that is stored as UTF-8 is read as it is, unless it has a zero near its start, but for a
/// byte order mark.
pub proof fn law_utf8_reads_verbatim(text: Seq<char>)
    requires
        !is_binary(encode_utf8(text)),
    ensures
        text_of_bytes(encode_utf8(text)) == Ok::<Seq<char>, Seq<char>>(unmarked(text)),
{
    vstd::utf8::encode_utf8_valid_utf8(text);
    vstd::utf8::encode_utf8_decode_utf8(text);
    let b = encode_utf8(text);
    if b.len() > 0 {
        assert(vstd::utf8::valid_first_scalar(b));
    }
}

// ---------------------------------------------------------------------------------------------
// Kinds of files
// ---------------------------------------------------------------------------------------------
/// Whether a file's name is that of a PDF.
pub open spec fn pdf_name(name: Seq<char>) -> bool {
    ends_with(lower(name), ".pdf"@)
}

/// Tells whether a file is read as a PDF, page by page. Any other is read as bytes.
pub fn is_pdf_name(name: &str) -> (r: bool)
    ensures
        r == pdf_name(name@),
{
    has_suffix(to_lower(name).as_str(), ".pdf")
}

/// How many bytes a file of a name may have.
pub open spec fn size_limit(name: Seq<char>) -> u64 {
    if pdf_name(name) {
        MAX_PDF_BYTES
    } else {
        MAX_TEXT_OFFICE_BYTES
    }
}

/// Whether a file is too large to be read, and what is said then.
pub fn check_size(name: &str, size: u64) -> (r: Result<(), String>)
    ensures
        match r {
            Ok(_) => size <= size_limit(name@),
            Err(e) => size > size_limit(name@) && e@ == "文件过大（"@ + decimal(
                (size / 1_048_576) as nat,
            ) + "MB，上限 "@ + decimal((size_limit(name@) / 1_048_576) as nat) + "MB）"@,
        },
{
    let limit: u64 = if is_pdf_name(name) {
        MAX_PDF_BYTES
    } else {
        MAX_TEXT_OFFICE_BYTES
    };
    if size > limit {
        let mut s = concat3("文件过大（", decimal_of(size / 1_048_576).as_str(), "MB，上限 ");
        s.append(decimal_of(limit / 1_048_576).as_str());
        s.append("MB）");
        return Err(s);
    }
    Ok(())
}

/// A page of a PDF and its text.
pub struct PageText {
    pub page: u64,
    pub text: String,
}

/// The pages, each below its number.
pub open spec fn page_blocks(pages: Seq<PageText>) -> Seq<Seq<char>> {
    Seq::new(
        pages.len(),
        |i: int| "【第 "@ + decimal(pages[i].page as nat) + " 页】\n"@ + pages[i].text@,
    )
}

/// The text of a PDF: its pages, each below its number.
pub fn pdf_text(pages: &Vec<PageText>) -> (r: Result<String, String>)
    ensures
        match r {
            Ok(t) => pages@.len() > 0 && t@ == join(page_blocks(pages@), "\n\n"@),
            Err(e) => pages@.len() == 0 && e@ == "PDF 无文本层（可能为扫描版）"@,
        },
{
    if pages.len() == 0 {
        return Err("PDF 无文本层（可能为扫描版）".to_owned());
    }
    let mut blocks: Vec<String> = Vec::new();
    let mut i: usize = 0;
    while i < pages.len()
        invariant
            i <= pages.len(),
            blocks.len() == i,
            forall|k: int| 0 <= k < i ==> (#[trigger] blocks@[k])@ == page_blocks(pages@)[k],
        decreases pages.len() - i,
    {
        let mut s = concat3("【第 ", decimal_of(pages[i].page).as_str(), " 页】\n");
        s.append(pages[i].text.as_str());
        blocks.push(s);
        i += 1;
    }
    assert(texts(blocks@) =~= page_blocks(pages@));
    Ok(join_with(&blocks, "\n\n"))
}

/// What was read of a file: the pages of a PDF, or bytes.
pub enum Content {
    Pages(Vec<PageText>),
    Bytes(Vec<u8>),
}

/// The text of a document.
pub open spec fn document_text(name: Seq<char>, content: Content) -> Result<Seq<char>, Seq<char>> {
    match content {
        Content::Pages(pages) => if pages@.len() == 0 {
            Err("PDF 无文本层（可能为扫描版）"@)
        } else {
            Ok(join(page_blocks(pages@), "\n\n"@))
        },
        Content::Bytes(bytes) => if office_name(name) {
            match whole_text(bytes@, name) {
                Ok(t) => Ok(handed_out(t)),
                Err(e) => Err(e),
            }
        } else {
            text_of_bytes(bytes@)
        },
    }
}

/// The text of a document: of a PDF its pages, of an office document what is written in it, and of
/// any other file its bytes in the encoding that they seem to have.
pub fn read_document_text(name: &str, content: &Content) -> (r: Result<String, String>)
    ensures
        match document_text(name@, *content) {
            Ok(t) => r is Ok && r->Ok_0@ == t,
            Err(e) => r is Err && r->Err_0@ == e,
        },
{
    match content {
        Content::Pages(pages) => pdf_text(pages),
        Content::Bytes(bytes) => if is_office_name(name) {
            match extract_text(bytes.as_slice(), name) {
                Ok((t, _)) => Ok(t),
                Err(e) => Err(e),
            }
        } else {
            decode_text_file(bytes.as_slice())
        },
    }
}

// ---------------------------------------------------------------------------------------------
// Messages
// ---------------------------------------------------------------------------------------------
/// Whether a text is too long for a message, so that it is stored whole.
pub fn is_over_budget(text: &str) -> (r: bool)
    ensures
        r == (text@.len() > INJECT_BUDGET_CHARS),
{
    chars_of(text).len() > INJECT_BUDGET_CHARS
}

/// What goes into a message of a text: all of it, or its beginning and where the whole text is.
pub open spec fn injected(text: Seq<char>, cache_path: Seq<char>) -> Seq<char> {
    if text.len() <= INJECT_BUDGET_CHARS {
        text
    } else {
        text.take(INJECT_BUDGET_CHARS as int) + "\n\n[...全文共 "@ + decimal(text.len())
            + " 字符，超出单条消息注入上限（30000）；完整文本已缓存至 "@ + cache_path
            + "，可用 file_read 以 line_offset/n_lines 分页续读。若为长篇文献，更建议导入图书馆后用 paper_read 按分块阅读]"@
    }
}

/// What goes into a message of a text.
pub fn inject(text: &str, cache_path: &str) -> (r: String)
    ensures
        r@ == injected(text@, cache_path@),
{
    let a = chars_of(text);
    if a.len() <= INJECT_BUDGET_CHARS {
        return text.to_owned();
    }
    let mut s = slice(&a, 0, INJECT_BUDGET_CHARS);
    assert(a@.subrange(0, INJECT_BUDGET_CHARS as int) =~= text@.take(INJECT_BUDGET_CHARS as int));
    s.append("\n\n[...全文共 ");
    s.append(decimal_of(a.len() as u64).as_str());
    s.append(" 字符，超出单条消息注入上限（30000）；完整文本已缓存至 ");
    s.append(cache_path);
    s.append(
        "，可用 file_read 以 line_offset/n_lines 分页续读。若为长篇文献，更建议导入图书馆后用 paper_read 按分块阅读]",
    );
    s
}

/// The stem of a file's name: what stands before its last dot, unless that is its first character.
pub open spec fn stem(name: Seq<char>) -> Seq<char> {
    let base = file_part(name);
    let k = segment_start(base, '.', base.len() as int);
    if base.len() == 0 || base == "."@ || base == ".."@ {
        "document"@
    } else if k <= 1 {
        base
    } else {
        base.take(k - 1)
    }
}

/// The digits of a number in base 16, in lower case.
pub open spec fn hexadecimal(n: nat) -> Seq<char>
    decreases n,
{
    if n < 16 {
        seq![crate::digest::hex_digit(n as int)]
    } else {
        hexadecimal(n / 16).push(crate::digest::hex_digit((n % 16) as int))
    }
}

/// Where the whole text of a document is stored. `hash` tells documents of one name apart.
pub open spec fn cache_place(dir: Seq<char>, name: Seq<char>, hash: u64) -> Seq<char> {
    joined(joined(dir, ".siku-cache"@), stem(name) + "-"@ + hexadecimal(hash as nat) + ".txt"@)
}

fn stem_of(name: &str) -> (r: String)
    ensures
        r@ == stem(name@),
{
    let base = file_part_of(name);
    if base.as_str().is_empty() || same(base.as_str(), ".") || same(base.as_str(), "..") {
        return "document".to_owned();
    }
    let b = chars_of(base.as_str());
    let k: usize = last_segment(&b, '.');
    if k <= 1 {
        base
    } else {
        assert(b@.subrange(0, k - 1) =~= base@.take(k - 1));
        slice(&b, 0, k - 1)
    }
}

fn hex_char(n: u8) -> (r: char)
    requires
        n < 16,
    ensures
        r == crate::digest::hex_digit(n as int),
{
    if n < 10 {
        (48 + n) as char
    } else {
        (87 + n) as char
    }
}

/// The digits of a number in base 16.
pub fn hexadecimal_of(n: u64) -> (r: String)
    ensures
        r@ == hexadecimal(n as nat),
{
    let mut back: Vec<char> = Vec::new();
    let mut k: u64 = n;
    assert(back@.reverse() =~= Seq::empty());
    assert(hexadecimal(k as nat) + Seq::<char>::empty() =~= hexadecimal(k as nat));
    while k >= 16
        invariant
            hexadecimal(n as nat) == hexadecimal(k as nat) + back@.reverse(),
        decreases k,
    {
        let ghost tail = back@.reverse();
        let c = hex_char((k % 16) as u8);
        proof {
            assert(hexadecimal(k as nat) == hexadecimal((k / 16) as nat).push(c));
            assert(back@.push(c).reverse() =~= seq![c] + tail);
            assert(hexadecimal((k / 16) as nat).push(c) + tail =~= hexadecimal((k / 16) as nat) + (
            seq![c] + tail));
        }
        back.push(c);
        k = k / 16;
    }
    let ghost tail = back@.reverse();
    let c = hex_char(k as u8);
    let mut out: Vec<char> = Vec::new();
    out.push(c);
    assert(out@ =~= hexadecimal(k as nat));
    let mut i: usize = back.len();
    while i > 0
        invariant
            i <= back.len(),
            tail == back@.reverse(),
            out@ == seq![c] + tail.take(back.len() - i),
        decreases i,
    {
        i -= 1;
        out.push(back[i]);
        assert(tail[back.len() - i - 1] == back@[i as int]);
        assert(out@ =~= seq![c] + tail.take(back.len() - i));
    }
    assert(tail.take(back.len() as int) =~= tail);
    string_of(&out)
}

/// Where the whole text of a document is stored.
pub fn cache_path(cache_dir: &str, source_name: &str, hash: u64) -> (r: String)
    ensures
        r@ == cache_place(cache_dir@, source_name@, hash),
{
    let mut name = concat3(stem_of(source_name).as_str(), "-", hexadecimal_of(hash).as_str());
    name.append(".txt");
    join_path(join_path(cache_dir, ".siku-cache").as_str(), name.as_str())
}

} // verus!
