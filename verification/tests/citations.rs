use siku::bibtex::{map_item_type, parse_bibtex, split_authors};
use siku::citation_export::{
    bibtex_entry, bibtex_for_paper, citation_key_for, csl_json_for_papers, key_from, ris_for_paper,
};
use siku::models::Paper;

fn sample_paper() -> Paper {
    Paper {
        id: "p1".to_string(),
        title: "Attention Is All You Need".to_string(),
        authors: "[\"Albert Einstein\", \"王小明\"]".to_string(),
        year: Some(2026),
        journal: Some("Nature".to_string()),
        doi: Some("10.1000/xyz".to_string()),
        url: None,
        abstract_text: None,
        keywords: "[]".to_string(),
        citation_key: None,
        bibtex: None,
        file_path: None,
        file_size: None,
        page_count: None,
        language: None,
        item_type: Some("journal".to_string()),
        volume: Some("1".to_string()),
        issue: Some("2".to_string()),
        pages: Some("12-34".to_string()),
        conference_name: None,
        publisher: None,
        place: None,
        editor: "[]".to_string(),
        series: None,
        edition: None,
        isbn: None,
        issn: None,
        num_pages: None,
        archive_location: None,
        call_number: None,
        rights: None,
        deleted_at: None,
        is_favorite: 0,
        read_status: "unread".to_string(),
        last_read_at: None,
        created_at: "2026-01-01T00:00:00Z".to_string(),
        updated_at: "2026-01-01T00:00:00Z".to_string(),
        imported_at: "2026-01-01T00:00:00Z".to_string(),
    }
}

#[test]
fn parses_basic_entry() {
    let bib = r#"
@article{smith2024deep,
  title = {Deep {N}etworks for {NLP}},
  author = {Smith, John and Doe, Jane},
  year = {2024},
  journal = {Journal of AI},
  volume = {12},
  number = {3},
  pages = {100--120},
  doi = {10.1000/xyz}
}
"#;
    let entries = parse_bibtex(bib);
    assert_eq!(entries.len(), 1);
    let e = &entries[0];
    assert_eq!(e.entry_type, "article");
    assert_eq!(e.cite_key, "smith2024deep");
    assert_eq!(e.field(&["title"]).unwrap(), "Deep {N}etworks for {NLP}");
    assert_eq!(split_authors(e.field(&["author"]).unwrap()).len(), 2);
    assert_eq!(e.field(&["pages"]).unwrap(), "100--120");
    assert_eq!(map_item_type(&e.entry_type), "journal");
}

#[test]
fn handles_nested_braces_quotes_and_multiple_entries() {
    let bib = r#"
@book{key1,
  title = "A {Book} Title",
  publisher = {Some {Press} Inc.},
  address = {New York}
}
@inproceedings{key2,
  title = {Conf Paper},
  booktitle = {Proc. Conf}
}
"#;
    let entries = parse_bibtex(bib);
    assert_eq!(entries.len(), 2);
    assert_eq!(entries[0].field(&["title"]).unwrap(), "A {Book} Title");
    assert_eq!(entries[0].field(&["publisher"]).unwrap(), "Some {Press} Inc.");
    assert_eq!(entries[1].field(&["booktitle"]).unwrap(), "Proc. Conf");
    assert_eq!(map_item_type(&entries[1].entry_type), "conference");
}

#[test]
fn ignores_comments() {
    let bib = "% a comment\n@misc{k, title = {T}}\n% another";
    let entries = parse_bibtex(bib);
    assert_eq!(entries.len(), 1);
    assert_eq!(entries[0].field(&["title"]).unwrap(), "T");
}

#[test]
fn parses_arxiv_entry() {
    let bib = r#"
@misc{wang2025networkarenabenchmarkingai,
      title={A Network Arena for Benchmarking AI Agents on Network Troubleshooting},
      author={Zhihao Wang and Alessandro Cornacchia and Alessio Sacco and Franco Galante and Marco Canini and Dingde Jiang},
      year={2025},
      eprint={2512.16381},
      archivePrefix={arXiv},
      primaryClass={cs.NI},
      url={https://arxiv.org/abs/2512.16381},
}
"#;
    let entries = parse_bibtex(bib);
    assert_eq!(entries.len(), 1);
    let e = &entries[0];
    assert_eq!(e.entry_type, "misc");
    assert_eq!(e.cite_key, "wang2025networkarenabenchmarkingai");
    assert_eq!(
        e.field(&["title"]).unwrap(),
        "A Network Arena for Benchmarking AI Agents on Network Troubleshooting"
    );
    assert_eq!(split_authors(e.field(&["author"]).unwrap()).len(), 6);
    assert_eq!(e.field(&["year"]).unwrap(), "2025");
    assert_eq!(e.field(&["url"]).unwrap(), "https://arxiv.org/abs/2512.16381");
    assert_eq!(e.field(&["archiveprefix"]).unwrap(), "arXiv");
    assert_eq!(e.field(&["eprint"]).unwrap(), "2512.16381");
}

#[test]
fn first_of_several_fields_is_taken() {
    let e = &parse_bibtex("@misc{k, date = {2020}}")[0];
    assert_eq!(e.field(&["year", "date"]).unwrap(), "2020");
    assert!(e.field(&["title"]).is_none());
}

#[test]
fn entry_types_map_to_item_types() {
    assert_eq!(map_item_type("book"), "book");
    assert_eq!(map_item_type("article"), "journal");
    assert_eq!(map_item_type("unknown"), "other");
    assert_eq!(
        split_authors("Ada Lovelace and Charles Babbage"),
        vec!["Ada Lovelace", "Charles Babbage"]
    );
}

#[test]
fn bibtex_round_trip_shape() {
    let p = sample_paper();
    let bib = bibtex_for_paper(&p);
    assert!(bib.starts_with("@article{Einstein2026,"), "got: {bib}");
    assert!(bib.contains("author = {Albert Einstein and 王小明}"));
    assert!(bib.contains("doi = {10.1000/xyz}"));
}

#[test]
fn ris_shape() {
    let ris = ris_for_paper(&sample_paper());
    assert!(ris.contains("TY  - JOUR"));
    assert!(ris.contains("AU  - Albert Einstein"));
    assert!(ris.contains("SP  - 12\nEP  - 34"));
    assert!(ris.contains("DO  - 10.1000/xyz"));
}

#[test]
fn csl_json_shape() {
    let json = csl_json_for_papers(&[sample_paper()]);
    assert!(json.contains("\"type\": \"article-journal\""));
    assert!(json.contains("\"literal\": \"Albert Einstein\""));
    assert!(json.contains("\"DOI\": \"10.1000/xyz\""));
}

#[test]
fn own_citation_key_is_kept() {
    let mut p = sample_paper();
    p.citation_key = Some("mine".to_string());
    assert_eq!(citation_key_for(&p), "mine");
    let authors = vec!["A B".to_string()];
    assert!(bibtex_entry(&p, "mine", &authors, &vec![]).starts_with("@article{mine,"));
}

#[test]
fn broken_author_lists_are_empty() {
    let mut p = sample_paper();
    p.authors = "not json".to_string();
    assert!(!ris_for_paper(&p).contains("AU  -"));
}

#[test]
fn papers_without_authors_get_keys_of_their_own() {
    let mut p = sample_paper();
    p.authors = "[]".to_string();
    assert_eq!(citation_key_for(&p), "anon-p1");
    p.id = "p2".to_string();
    assert_eq!(citation_key_for(&p), "anon-p2");
    assert_eq!(key_from(&vec!["  ".to_string()], Some(2020), "p3"), "anon-p3");
    assert_eq!(key_from(&vec!["Ada Lovelace".to_string()], None, "p3"), "Lovelacen.d.");
}

#[test]
fn bibtex_values_are_read_as_text() {
    let entries = parse_bibtex("@article{k,\n  author = {王小明},\n}\n");
    assert_eq!(entries.len(), 1);
    assert_eq!(entries[0].field(&["author"]), Some("王小明"));
}

#[test]
fn exported_entries_are_read_back() {
    let bib = bibtex_for_paper(&sample_paper());
    let entries = parse_bibtex(&bib);
    assert_eq!(entries.len(), 1);
    let e = &entries[0];
    assert_eq!((e.entry_type.as_str(), e.cite_key.as_str()), ("article", "Einstein2026"));
    assert_eq!(e.field(&["title"]), Some("Attention Is All You Need"));
    assert_eq!(e.field(&["year"]), Some("2026"));
    assert_eq!(e.field(&["journal"]), Some("Nature"));
    assert_eq!(e.field(&["doi"]), Some("10.1000/xyz"));
    assert_eq!(
        split_authors(e.field(&["author"]).unwrap()),
        vec!["Albert Einstein", "王小明"]
    );
}
