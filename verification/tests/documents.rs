use std::io::{Cursor, Write};

use siku::document_text::{
    cache_path, check_size, decode_text_file, hexadecimal_of, inject, is_over_budget, pdf_text,
    read_document_text, Content, PageText, INJECT_BUDGET_CHARS, MAX_PDF_BYTES,
    MAX_TEXT_OFFICE_BYTES,
};
use siku::file_item_service::{import_file, move_file, read_file_text, rename_file};
use siku::office_text::{
    extract_runs, extract_sheet, extract_text, is_office_name, list_slides, Growing, MAX_EXTRACTED,
};
use siku::xml::XmlEvent;

fn build_zip(entries: &[(&str, &str)]) -> Vec<u8> {
    let mut cursor = Cursor::new(Vec::new());
    {
        let mut zip = zip::ZipWriter::new(&mut cursor);
        let opts = zip::write::SimpleFileOptions::default();
        for (name, content) in entries {
            zip.start_file(*name, opts).unwrap();
            zip.write_all(content.as_bytes()).unwrap();
        }
        zip.finish().unwrap();
    }
    cursor.into_inner()
}

fn read(bytes: &[u8], name: &str) -> Result<String, String> {
    read_document_text(name, &Content::Bytes(bytes.to_vec()))
}

#[test]
fn docx_extracts_paragraph_text() {
    let doc = r#"<?xml version="1.0"?>
<w:document xmlns:w="http://schemas.openxmlformats.org/wordprocessingml/2006/main">
<w:body><w:p><w:r><w:t>你好</w:t></w:r><w:r><w:t>世界</w:t></w:r></w:p><w:p><w:r><w:t>第二段</w:t></w:r></w:p></w:body>
</w:document>"#;
    let zip = build_zip(&[("word/document.xml", doc)]);
    let (text, truncated) = extract_text(&zip, "a.docx").unwrap();
    assert_eq!(text, "你好世界\n第二段\n");
    assert!(!truncated);
}

#[test]
fn xlsx_resolves_shared_strings() {
    let shared = r#"<?xml version="1.0"?>
<sst xmlns="http://schemas.openxmlformats.org/spreadsheetml/2006/main">
<si><t>名称</t></si><si><r><t>思</t></r><r><t>库</t></r></si></sst>"#;
    let sheet = r#"<?xml version="1.0"?>
<worksheet xmlns="http://schemas.openxmlformats.org/spreadsheetml/2006/main">
<sheetData><row><c r="A1" t="s"><v>0</v></c><c r="B1" t="s"><v>1</v></c><c r="C1"><v>42</v></c></row></sheetData>
</worksheet>"#;
    let zip = build_zip(&[
        ("xl/sharedStrings.xml", shared),
        ("xl/worksheets/sheet1.xml", sheet),
    ]);
    let (text, _) = extract_text(&zip, "a.xlsx").unwrap();
    assert_eq!(text, "名称\t思库\t42\n");
}

#[test]
fn pptx_extracts_slides_in_numeric_order() {
    let slide = |t: &str| {
        format!(
            r#"<?xml version="1.0"?>
<p:sld xmlns:p="http://schemas.openxmlformats.org/presentationml/2006/main" xmlns:a="http://schemas.openxmlformats.org/drawingml/2006/main">
<p:cSld><p:spTree><p:sp><p:txBody><a:p><a:r><a:t>{t}</a:t></a:r></a:p></p:txBody></p:sp></p:spTree></p:cSld></p:sld>"#
        )
    };
    let zip = build_zip(&[
        ("ppt/slides/slide10.xml", &slide("第十页")),
        ("ppt/slides/slide2.xml", &slide("第二页")),
    ]);
    let (text, _) = extract_text(&zip, "a.pptx").unwrap();
    let pos2 = text.find("第二页").unwrap();
    let pos10 = text.find("第十页").unwrap();
    assert!(pos2 < pos10);
    assert!(text.contains("—— 第 2 页 ——"));
}

#[test]
fn rejects_non_zip() {
    assert!(extract_text(b"not a zip", "a.docx").is_err());
}

#[test]
fn is_office_name_matches_ooxml_only() {
    assert!(is_office_name("报告.DOCX"));
    assert!(is_office_name("data.xlsx"));
    assert!(is_office_name("slides.pptx"));
    assert!(!is_office_name("old.doc"));
    assert!(!is_office_name("plain.txt"));
}

#[test]
fn office_errors_say_what_is_missing() {
    let zip = build_zip(&[("other.xml", "<a/>")]);
    assert_eq!(
        extract_text(&zip, "a.docx").unwrap_err(),
        "missing word/document.xml"
    );
    assert_eq!(
        extract_text(&zip, "a.odt").unwrap_err(),
        "unsupported office format"
    );
    assert!(extract_text(b"x", "a.docx")
        .unwrap_err()
        .starts_with("invalid office file: "));
    assert_eq!(extract_text(&zip, "a.pptx").unwrap(), (String::new(), false));
}

#[test]
fn long_documents_are_cut_at_a_character() {
    let body = "字".repeat(MAX_EXTRACTED as usize / 3 + 10);
    let doc = format!("<d><p><t>{body}</t></p></d>");
    let zip = build_zip(&[("word/document.xml", &doc)]);
    let (text, truncated) = extract_text(&zip, "a.docx").unwrap();
    assert!(truncated);
    assert!(text.len() as u64 <= MAX_EXTRACTED);
    assert_eq!(text.chars().count(), MAX_EXTRACTED as usize / 3);
}

#[test]
fn runs_and_sheets_are_read_from_events() {
    let events = vec![
        XmlEvent::Start(b"w:t".to_vec(), vec![]),
        XmlEvent::Text(Some("a".to_string())),
        XmlEvent::End(b"w:t".to_vec()),
        XmlEvent::Empty(b"w:tab".to_vec()),
        XmlEvent::Empty(b"w:br".to_vec()),
        XmlEvent::End(b"w:p".to_vec()),
        XmlEvent::Bad("broken".to_string()),
        XmlEvent::End(b"w:p".to_vec()),
    ];
    let mut doc = Growing::new();
    extract_runs(&events, true, &mut doc);
    assert_eq!(doc.text.iter().collect::<String>(), "a\t\n\n");
    let mut slide = Growing::new();
    extract_runs(&events, false, &mut slide);
    assert_eq!(slide.text.iter().collect::<String>(), "a\n");
    let cells = vec![
        XmlEvent::Start(b"c".to_vec(), vec![]),
        XmlEvent::Start(b"v".to_vec(), vec![]),
        XmlEvent::Text(Some(" 7 ".to_string())),
        XmlEvent::End(b"v".to_vec()),
        XmlEvent::End(b"c".to_vec()),
        XmlEvent::End(b"row".to_vec()),
    ];
    let mut sheet = Growing::new();
    extract_sheet(&cells, &vec![], &mut sheet);
    assert_eq!(sheet.text.iter().collect::<String>(), "7\n");
}

#[test]
fn slides_are_listed_by_number() {
    let names = vec![
        "ppt/slides/slide10.xml".to_string(),
        "ppt/slides/slide2.xml".to_string(),
        "ppt/slides/_rels/slide2.xml.rels".to_string(),
    ];
    let slides = list_slides(&names);
    assert_eq!(slides.len(), 2);
    assert_eq!(slides[0].num, 2);
    assert_eq!(slides[1].num, 10);
}

#[test]
fn utf8_text_reads_verbatim() {
    let out = read("你好，世界".as_bytes(), "note.weirdext").unwrap();
    assert_eq!(out, "你好，世界");
}

#[test]
fn gbk_text_decodes() {
    let (bytes, _, _) = encoding_rs::GBK.encode("中文内容");
    let out = read(&bytes, "legacy.txt").unwrap();
    assert_eq!(out, "中文内容");
}

#[test]
fn utf16le_bom_decodes() {
    let mut bytes = vec![0xFF, 0xFE];
    bytes.extend("hello 中文".encode_utf16().flat_map(|u| u.to_le_bytes()));
    let out = read(&bytes, "log.txt").unwrap();
    assert_eq!(out, "hello 中文");
}

#[test]
fn utf16be_bom_decodes() {
    let mut bytes = vec![0xFE, 0xFF];
    bytes.extend("hello 中文".encode_utf16().flat_map(|u| u.to_be_bytes()));
    assert_eq!(decode_text_file(&bytes).unwrap(), "hello 中文");
}

#[test]
fn byte_order_mark_is_dropped() {
    assert_eq!(decode_text_file("\u{feff}abc".as_bytes()).unwrap(), "abc");
}

#[test]
fn binary_is_rejected() {
    let err = read(&[0x50, 0x4B, 0x00, 0x00, 0xFF], "blob.dat").unwrap_err();
    assert!(err.contains("二进制"), "{err}");
}

#[test]
fn over_budget_text_is_cached_with_continuation_pointer() {
    let big = "长".repeat(INJECT_BUDGET_CHARS + 1000);
    assert!(is_over_budget(&big));
    let path = cache_path("/wd", "big.md", 0xabc);
    assert_eq!(path, "/wd/.siku-cache/big-abc.txt");
    let out = inject(&big, &path);
    assert!(out.contains("file_read"));
    assert!(out.contains("分页续读"));
    let marker_at = out.find("[...全文共").unwrap();
    let cached_path = out[marker_at..]
        .split("缓存至 ")
        .nth(1)
        .and_then(|s| s.split('，').next())
        .unwrap();
    assert_eq!(cached_path, path);
    assert!(out.contains("全文共 31000 字符"));
    assert_eq!(inject("short", "/x"), "short");
}

#[test]
fn oversized_file_is_rejected_by_size() {
    let err = check_size("huge.txt", MAX_TEXT_OFFICE_BYTES + 1).unwrap_err();
    assert!(err.contains("文件过大"), "{err}");
    assert_eq!(err, "文件过大（5MB，上限 5MB）");
    assert!(check_size("paper.PDF", MAX_TEXT_OFFICE_BYTES + 1).is_ok());
    assert!(check_size("paper.pdf", MAX_PDF_BYTES + 1).is_err());
}

#[test]
fn pages_carry_their_numbers() {
    let pages = vec![
        PageText { page: 1, text: "a".to_string() },
        PageText { page: 2, text: "b".to_string() },
    ];
    assert_eq!(pdf_text(&pages).unwrap(), "【第 1 页】\na\n\n【第 2 页】\nb");
    assert!(pdf_text(&vec![]).is_err());
    assert_eq!(
        read_document_text("a.pdf", &Content::Pages(pages)).unwrap(),
        "【第 1 页】\na\n\n【第 2 页】\nb"
    );
}

#[test]
fn hexadecimal_digits() {
    assert_eq!(hexadecimal_of(0), "0");
    assert_eq!(hexadecimal_of(255), "ff");
    assert_eq!(hexadecimal_of(u64::MAX), "ffffffffffffffff");
}

#[test]
fn read_file_text_sniffs_binary() {
    let preview = read_file_text("a.conf", b"key=value\n").ok().unwrap();
    assert_eq!(preview.content.trim(), "key=value");
    assert!(!preview.truncated);
    assert_eq!(read_file_text("b.txt", &[0u8, 1, 2, 3]).err().unwrap(), "binary file");
}

#[test]
fn broken_text_is_shown_with_replacements() {
    let p = read_file_text("a.txt", &[b'a', 0xff, b'b']).ok().unwrap();
    assert_eq!(p.content, "a\u{fffd}b");
    let big = vec![b'a'; 2 * 1024 * 1024 + 1];
    let p = read_file_text("a.txt", &big).ok().unwrap();
    assert!(p.truncated);
    assert_eq!(p.content.len(), 2 * 1024 * 1024);
}

#[test]
fn files_are_imported_renamed_and_moved() {
    let mut f = import_file(
        "/home/me/Report.PDF",
        true,
        12,
        "blobs/x.pdf",
        "v1",
        &None,
        "f1",
        "t0",
    )
    .ok()
    .unwrap();
    assert_eq!(f.name, "Report.PDF");
    assert_eq!(f.mime_type.as_deref(), Some("application/pdf"));
    assert!(rename_file(&mut f, "   ", "t1").is_err());
    assert!(rename_file(&mut f, " notes.txt ", "t1").is_ok());
    assert_eq!(f.name, "notes.txt");
    assert_eq!(f.mime_type.as_deref(), Some("text/plain"));
    assert_eq!(f.blob_path, "blobs/x.pdf");
    move_file(&mut f, Some("folder".to_string()), None, "t2");
    assert_eq!(f.parent_id.as_deref(), Some("folder"));
    assert_eq!(f.sort_order, 0);
    assert_eq!(
        import_file("/x", false, 0, "b", "v", &None, "i", "t").err().unwrap(),
        "not a file: /x"
    );
    assert_eq!(
        import_file("..", true, 0, "b", "v", &None, "i", "t").err().unwrap(),
        "invalid file name: .."
    );
}

#[test]
fn documents_that_fill_the_limit_are_cut_where_more_follows() {
    let body = "a".repeat(MAX_EXTRACTED as usize);
    let doc = format!("<d><p><t>{body}</t></p></d>");
    let zip = build_zip(&[("word/document.xml", &doc)]);
    let (text, truncated) = extract_text(&zip, "a.docx").unwrap();
    assert_eq!(text.len() as u64, MAX_EXTRACTED);
    assert!(truncated);
    // With room for the line break nothing is left out.
    let doc = format!("<d><p><t>{}</t></p></d>", &body[1..]);
    let zip = build_zip(&[("word/document.xml", &doc)]);
    let (text, truncated) = extract_text(&zip, "a.docx").unwrap();
    assert_eq!(text.len() as u64, MAX_EXTRACTED);
    assert!(!truncated);
}
