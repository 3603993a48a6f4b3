use siku::annotation_service::{clear_paper, create, list_by_paper, update_tags, NewAnnotation};
use siku::batch_import::{
    enters_directory, request_cancel, scan_folder_pdfs, BatchFlags, BatchGuard,
    BatchImportSummary, ItemOutcome,
};
use siku::collection_service::{
    add_papers_to_collection, collection_chain, create_collection, deletion_order,
    list_collections, remove_papers_from_collection,
};
use siku::error::SikuError;
use siku::models::{Collection, ListPapersParams, Paper, PaperInput, Tag};
use siku::paper_query::list_papers;
use siku::paper_rows::{
    add_related_paper, create_saved_search, delete_paper, list_saved_searches, merge_into,
    purge_paper, related, remove_related_paper, restore_paper, set_paper_favorite, set_paper_read_status, update_paper, Link, PaperLinks,
};
use siku::paper_service::{
    creators_from_json, display_name, enrich_paper, file_metadata, find_duplicate_papers,
    find_similar, merge_papers, new_paper, normalize_title_for_dedup, record_paper_read,
    set_creators, title_similar, Creator, ImportMetadata, Work,
};
use siku::research_service::{
    arxiv_row, auto_discovery_wait, discover_arxiv, discover_for_topic, discover_limit,
    expansion_prompt, keywords_of, query_for, ArxivPaper, CrossrefWork, DiscoverEvent,
};
use siku::search_service::{list_notes, search_knowledge, search_notes};
use siku::tag_service::{
    add_tags_to_paper, create_tag, delete_tag, remove_tags_from_paper, update_tag,
};
use siku::timeline_service::{list_timeline, NoteRow, PaperRow, TimelineRows, TopicRow};
use siku::zotero_import::{
    attachment_file_name, display_name as shown_title, extract_year, item_metadata, load_library,
    map_collection, preview, resolve_attachment_path, tags_of_item, Attachment, MapStep, Mapped,
    ZoteroCollection, ZoteroCreator, ZoteroField, ZoteroRows, ZoteroTag,
};

const NOW: &str = "2026-01-01T00:00:00.000Z";

fn metadata(title: &str) -> ImportMetadata {
    ImportMetadata {
        title: title.to_string(),
        authors: vec!["Ada Lovelace".to_string()],
        year: Some(1843),
        journal: None,
        doi: None,
        url: None,
        abstract_text: None,
        keywords: vec![],
        file_path: Some("blobs/x.pdf".to_string()),
        file_size: Some(3),
        page_count: None,
        language: None,
        isbn: None,
    }
}

fn paper(id: &str, title: &str) -> Paper {
    new_paper(id, metadata(title), NOW)
}

fn work(title: &str) -> Work {
    Work {
        title: Some(title.to_string()),
        authors: None,
        year: Some(2000),
        journal: Some("J".to_string()),
        doi: Some("10.1/x".to_string()),
        url: None,
        abstract_text: None,
        volume: None,
        issue: None,
        pages: None,
        publisher: None,
        issn: None,
    }
}

#[test]
fn imported_papers_start_unread() {
    let p = paper("p1", "T");
    assert_eq!(p.authors, "[\"Ada Lovelace\"]");
    assert_eq!(p.language.as_deref(), Some("en"));
    assert_eq!(p.item_type.as_deref(), Some("journal"));
    assert_eq!(p.read_status, "unread");
    assert_eq!(record_paper_read("unread"), "in_progress");
    assert_eq!(record_paper_read("read"), "read");
    let m = file_metadata("Some File.pdf", None, "blobs/a.pdf".to_string(), 7);
    assert_eq!(m.title, "Some File");
    assert_eq!(m.file_size, Some(7));
}

#[test]
fn merging_fills_gaps() {
    let keep = paper("p1", "T");
    let mut remove = paper("p2", "T");
    remove.doi = Some("10.1/x".to_string());
    let m = merge_papers(&keep, &remove, "later");
    assert_eq!(m.id, "p1");
    assert_eq!(m.doi.as_deref(), Some("10.1/x"));
    assert_eq!(m.updated_at, "later");
}

#[test]
fn enrichment_only_fills_gaps() {
    let p = paper("p1", "T");
    let (input, changed) = enrich_paper(&p, &work("T"));
    assert!(changed);
    assert_eq!(input.year, Some(1843));
    assert_eq!(input.journal.as_deref(), Some("J"));
}

#[test]
fn titles_are_compared_by_words() {
    assert!(title_similar("Deep learning for text", "Deep Learning for Text!"));
    assert!(!title_similar("Deep learning", "Organic chemistry basics"));
    assert_eq!(find_similar("Deep learning", &vec![work("Cats"), work("Deep learning")]), Some(1));
    assert_eq!(normalize_title_for_dedup("A-b C!"), normalize_title_for_dedup("ab c"));
}

#[test]
fn duplicates_are_found_by_doi_and_title() {
    let mut a = paper("a", "Same Title");
    a.doi = Some("10.1/x".to_string());
    let b = paper("b", "same title");
    let list = vec![a, b];
    // A match by DOI wins.
    let found = find_duplicate_papers(&list, "Same title", Some(" 10.1/X "), "none");
    assert_eq!(found.len(), 1);
    assert_eq!(found[0].id, "a");
    assert_eq!(found[0].match_reason, "doi");
    let found = find_duplicate_papers(&list, "Same title", None, "a");
    assert_eq!(found.len(), 1);
    assert_eq!(found[0].id, "b");
    assert_eq!(found[0].match_reason, "title");
}

#[test]
fn creators_round_trip() {
    let list = creators_from_json("[\"Ada Lovelace\"]", "[\"Ed Itor\"]");
    assert_eq!(list.len(), 2);
    assert_eq!(
        set_creators(&list),
        ("[\"Ada Lovelace\"]".to_string(), "[\"Ed Itor\"]".to_string())
    );
    let c = Creator {
        role: "author".to_string(),
        last_name: "Lovelace".to_string(),
        first_name: "Ada".to_string(),
        name: String::new(),
    };
    assert_eq!(display_name(&c), "Ada Lovelace");
}

#[test]
fn trash_can_be_undone() {
    let mut list = vec![paper("p1", "T")];
    assert!(delete_paper(&mut list, "p1", "t1").is_ok());
    assert_eq!(list[0].deleted_at.as_deref(), Some("t1"));
    assert!(delete_paper(&mut list, "p1", "t2").is_err());
    assert!(restore_paper(&mut list, "p1").is_ok());
    assert!(list[0].deleted_at.is_none());
    assert!(matches!(
        restore_paper(&mut list, "nope"),
        Err(SikuError::NotFound(m)) if m == "paper nope not found"
    ));
    assert!(set_paper_favorite(&mut list, "p1", true).is_ok());
    assert_eq!(list[0].is_favorite, 1);
    assert!(set_paper_read_status(&mut list, "p1", "read").is_ok());
    assert_eq!(list[0].read_status, "read");
}

#[test]
fn updates_keep_what_is_not_said() {
    let mut p = paper("p1", "T");
    p.doi = Some("10.1/x".to_string());
    let input = PaperInput {
        title: "New".to_string(),
        authors: vec!["B".to_string()],
        year: None,
        journal: Some("J".to_string()),
        doi: None,
        url: None,
        abstract_text: None,
        keywords: vec![],
        item_type: None,
        volume: None,
        issue: None,
        pages: None,
        conference_name: None,
        publisher: None,
        place: None,
        editor: vec![],
        series: None,
        edition: None,
        isbn: None,
        issn: None,
        language: None,
        num_pages: None,
        archive_location: None,
        call_number: None,
        rights: None,
    };
    let r = update_paper(&p, &input, "later");
    assert_eq!(r.title, "New");
    assert_eq!(r.year, Some(1843));
    assert_eq!(r.doi.as_deref(), Some("10.1/x"));
    assert_eq!(r.journal.as_deref(), Some("J"));
    assert_eq!(r.updated_at, "later");
}

fn link(a: &str, b: &str) -> Link {
    Link { paper_id: a.to_string(), other_id: b.to_string() }
}

#[test]
fn purging_leaves_no_reference() {
    let mut list = vec![paper("p1", "T"), paper("p2", "T")];
    let mut t = PaperLinks {
        tags: vec![link("p1", "t"), link("p2", "t")],
        collections: vec![link("p1", "c")],
        related: vec![link("p1", "p2"), link("p2", "p1"), link("p2", "p3")],
        annotations: vec![],
        attachments: vec![],
        knowledge: vec![],
        notes: vec![link("p1", "n")],
        chunks: vec![link("p1", "c1"), link("p2", "c2")],
        creators: vec![link("p1", "r1")],
        imports: vec![link("p1", "i1")],
    };
    // The file is still used by the other paper.
    assert!(matches!(purge_paper(&mut list, &mut t, &vec![], "p1"), Ok(None)));
    assert_eq!(list.len(), 1);
    assert_eq!(t.chunks.len(), 1);
    assert_eq!(t.chunks[0].other_id, "c2");
    assert!(t.creators.is_empty() && t.imports.is_empty());
    assert_eq!(t.notes.len(), 1);
    assert_eq!(t.tags.len(), 1);
    assert!(t.collections.is_empty());
    assert_eq!(t.related.len(), 1);
    // Now nothing uses it any more.
    assert!(matches!(
        purge_paper(&mut list, &mut t, &vec![], "p2"),
        Ok(Some(f)) if f == "blobs/x.pdf"
    ));
    assert!(purge_paper(&mut list, &mut t, &vec![], "p2").is_err());
}

#[test]
fn merging_moves_what_refers_to_a_paper() {
    let mut keep = paper("keep", "K");
    keep.doi = None;
    let mut gone = paper("gone", "G");
    gone.doi = Some("10.1/x".to_string());
    let mut list = vec![keep, gone];
    let mut t = PaperLinks {
        tags: vec![link("keep", "a"), link("gone", "a"), link("gone", "b")],
        collections: vec![link("gone", "c")],
        related: vec![link("gone", "p3")],
        annotations: vec![link("gone", "n1")],
        attachments: vec![],
        knowledge: vec![],
        notes: vec![link("gone", "n2")],
        chunks: vec![link("gone", "c1")],
        creators: vec![link("gone", "r1")],
        imports: vec![link("gone", "i1")],
    };
    // Both papers share a file, which stays.
    let r = merge_into(&mut list, &mut t, &vec![], "keep", "gone", "later");
    assert!(matches!(r, Ok(None)));
    assert_eq!((t.notes[0].paper_id.as_str(), t.notes[0].other_id.as_str()), ("keep", "n2"));
    assert_eq!((t.chunks[0].paper_id.as_str(), t.chunks[0].other_id.as_str()), ("keep", "c1"));
    assert_eq!((t.imports[0].paper_id.as_str(), t.imports[0].other_id.as_str()), ("keep", "i1"));
    assert!(t.creators.is_empty());
    assert_eq!(list.len(), 1);
    assert_eq!(list[0].title, "K");
    assert_eq!(list[0].doi.as_deref(), Some("10.1/x"));
    assert_eq!(t.tags.len(), 2);
    assert!(t.tags.iter().all(|l| l.paper_id == "keep"));
    assert_eq!(t.collections[0].paper_id, "keep");
    assert_eq!(t.annotations[0].paper_id, "keep");
    assert!(t.related.is_empty());
    assert!(merge_into(&mut list, &mut t, &vec![], "keep", "gone", "later").is_err());
    assert!(matches!(
        merge_into(&mut list, &mut t, &vec![], "keep", "keep", "later"),
        Ok(None)
    ));
}

#[test]
fn saved_searches_are_listed_newest_first() {
    let list = vec![
        create_saved_search("a", "{}", "1", "t1"),
        create_saved_search("b", "{}", "2", "t2"),
    ];
    assert_eq!(list_saved_searches(&list), vec![1, 0]);
}

#[test]
fn related_papers_go_both_ways() {
    let mut links = vec![];
    add_related_paper(&mut links, "a", "a");
    assert!(links.is_empty());
    add_related_paper(&mut links, "a", "b");
    add_related_paper(&mut links, "a", "b");
    assert_eq!(links.len(), 1);
    assert!(related(&links, "b", "a"));
    remove_related_paper(&mut links, "b", "a");
    assert!(!related(&links, "a", "b"));
}

#[test]
fn queries_have_a_value_for_each_placeholder() {
    let params = ListPapersParams {
        search: Some("deep".to_string()),
        collection_id: Some("c".to_string()),
        tag_ids: Some(vec!["t1".to_string(), "t2".to_string()]),
        tag_logic: Some("and".to_string()),
        sort_by: Some("title".to_string()),
        sort_order: Some("asc".to_string()),
        limit: Some(10),
        offset: Some(5),
        include_deleted: None,
        year_from: Some(2000),
        year_to: Some(2020),
        journal: Some("Nature".to_string()),
        is_favorite: Some(true),
        read_status: Some("read".to_string()),
        related_to: Some("p".to_string()),
    };
    let q = list_papers(&params);
    assert_eq!(q.sql.matches('?').count(), q.binds.len());
    assert!(q.sql.contains(" LIMIT 10"));
    let notes = list_notes(Some("p"), Some("w"), None);
    assert_eq!(
        notes.sql,
        "SELECT * FROM notes WHERE 1=1 AND paper_id = ? AND (title LIKE ? OR content_plain LIKE ?) ORDER BY updated_at DESC LIMIT 50"
    );
    assert_eq!(notes.binds, vec!["p", "%w%", "%w%"]);
    let top = list_notes(None, None, None);
    assert!(top.sql.contains("parent_id IS NULL"));
    assert!(search_notes("  ", 5, "v").is_none());
    let (index, pattern) = search_notes("a \"b\"", 5, "v").unwrap();
    assert_eq!(index.binds, vec!["\"a\"* \"b\"*", "v"]);
    assert_eq!(pattern.binds[1], "%a \"b\"%");
    let k = search_knowledge("x y", None, 3);
    assert_eq!(k.binds, vec!["x* OR y*", "%x y%", "%x y%"]);
    assert!(k.sql.ends_with(" LIMIT 3"));
}

#[test]
fn timeline_is_newest_first() {
    let rows = TimelineRows {
        papers: vec![PaperRow {
            id: "p".to_string(),
            title: "P".to_string(),
            authors: "[]".to_string(),
            created_at: "2026-01-01".to_string(),
        }],
        annotations: vec![],
        notes: vec![],
        topics: vec![TopicRow {
            id: "t".to_string(),
            name: "T".to_string(),
            created_at: "2026-01-02".to_string(),
        }],
        sources: vec![],
        knowledge: vec![],
    };
    let all = list_timeline(&rows, 10, 0, &None);
    assert_eq!(all.len(), 2);
    assert!(all[0].timestamp >= all[1].timestamp);
    assert_eq!(list_timeline(&rows, 1, 1, &None).len(), 1);
}

#[test]
fn timeline_orders_times_of_mixed_precision() {
    let topic = |id: &str, at: &str| TopicRow {
        id: id.to_string(),
        name: id.to_string(),
        created_at: at.to_string(),
    };
    let rows = TimelineRows {
        papers: vec![],
        annotations: vec![],
        notes: vec![NoteRow {
            id: "n".to_string(),
            title: "N".to_string(),
            created_at: "2026-06-16T10:29:00Z".to_string(),
            updated_at: "2026-06-16T10:29:00.250Z".to_string(),
            agent_edited_at: None,
        }],
        topics: vec![
            topic("second", "2026-06-16T10:30:00Z"),
            topic("later", "2026-06-16T10:30:00.500Z"),
            topic("next", "2026-06-16T10:30:01Z"),
        ],
        sources: vec![],
        knowledge: vec![],
    };
    let ids: Vec<String> = list_timeline(&rows, 10, 0, &None).into_iter().map(|i| i.id).collect();
    assert_eq!(
        ids,
        vec!["topic-next", "topic-later", "topic-second", "note-updated-n", "note-created-n"]
    );
}

#[test]
fn timeline_ids_differ() {
    let rows = TimelineRows {
        papers: vec![PaperRow {
            id: "x".to_string(),
            title: "P".to_string(),
            authors: "[]".to_string(),
            created_at: "2026-01-01".to_string(),
        }],
        annotations: vec![],
        notes: vec![NoteRow {
            id: "x".to_string(),
            title: "N".to_string(),
            created_at: "2026-01-01".to_string(),
            updated_at: "2026-01-03".to_string(),
            agent_edited_at: None,
        }],
        topics: vec![TopicRow {
            id: "x".to_string(),
            name: "T".to_string(),
            created_at: "2026-01-02".to_string(),
        }],
        sources: vec![],
        knowledge: vec![],
    };
    let ids: Vec<String> = list_timeline(&rows, 10, 0, &None).into_iter().map(|i| i.id).collect();
    assert_eq!(ids, vec!["note-updated-x", "topic-x", "paper-x", "note-created-x"]);
}

#[test]
fn scan_folder_collects_pdfs_recursively_and_skips_hidden_dirs() {
    let found = vec![
        "/r/note.txt".to_string(),
        "/r/sub/c.pdf".to_string(),
        "/r/a.pdf".to_string(),
        "/r/B.PDF".to_string(),
    ];
    assert!(enters_directory(0, ".tmp") && enters_directory(1, "sub"));
    assert!(!enters_directory(1, ".git"));
    let all = scan_folder_pdfs(&found);
    assert_eq!(all.len(), 3);
    assert!(all.iter().any(|p| p.ends_with("a.pdf")));
    assert!(all.iter().any(|p| p.ends_with("B.PDF")));
    assert!(all.iter().any(|p| p.ends_with("c.pdf")));
}

#[test]
fn one_batch_at_a_time() {
    let mut flags = BatchFlags { running: false, cancel: true };
    let guard = BatchGuard::try_acquire(&mut flags).ok().unwrap();
    assert!(!guard.cancelled(&flags));
    assert!(BatchGuard::try_acquire(&mut flags).is_err());
    request_cancel(&mut flags);
    assert!(guard.cancelled(&flags));
    guard.release(&mut flags);
    assert!(BatchGuard::try_acquire(&mut flags).is_ok());
    let mut s = BatchImportSummary::new(3);
    s.record("a", &ItemOutcome::Imported("1".to_string()));
    s.record("b", &ItemOutcome::Skipped);
    s.record("c", &ItemOutcome::Failed("why".to_string()));
    assert_eq!((s.imported, s.skipped, s.failed), (1, 1, 1));
    assert_eq!(s.errors, vec!["c：why"]);
}

fn collection(id: &str, parent: Option<&str>, n: i32) -> Collection {
    Collection {
        id: id.to_string(),
        name: id.to_string(),
        parent_id: parent.map(|p| p.to_string()),
        sort_order: n,
        created_at: NOW.to_string(),
    }
}

#[test]
fn collections_form_a_tree() {
    let list = vec![
        collection("b", None, 2),
        collection("a", None, 1),
        collection("c", Some("a"), 1),
    ];
    let c = create_collection(&list, "new", &None, "d", NOW);
    assert_eq!(c.sort_order, 3);
    assert_eq!(create_collection(&list, "x", &Some("b".to_string()), "e", NOW).sort_order, 1);
    let order: Vec<&str> =
        list_collections(&list).iter().map(|i| list[*i].id.as_str()).collect();
    assert_eq!(order, vec!["a", "b", "c"]);
    assert_eq!(deletion_order(&list, "a").len(), 2);
    assert_eq!(collection_chain(&list, 2).len(), 2);
    let mut links = vec![];
    let ids = vec!["p1".to_string(), "p2".to_string(), "p1".to_string()];
    add_papers_to_collection(&mut links, "a", &ids);
    assert_eq!(links.len(), 2);
    remove_papers_from_collection(&mut links, "a", &vec!["p1".to_string()]);
    assert_eq!(links.len(), 1);
    assert_eq!(links[0].paper_id, "p2");
}

fn tag(id: &str, name: &str, parent: Option<&str>) -> Tag {
    Tag {
        id: id.to_string(),
        name: name.to_string(),
        color: "#fff".to_string(),
        parent_id: parent.map(|p| p.to_string()),
        created_at: NOW.to_string(),
        paper_count: 0,
    }
}

#[test]
fn tags_are_unique_and_can_go() {
    let mut tags = vec![tag("t1", "ml", None), tag("t2", "nlp", Some("t1"))];
    assert_eq!(
        create_tag(&mut tags, " ml ", &None, "t3", NOW).err().unwrap(),
        "已存在同名标签「ml」"
    );
    assert_eq!(create_tag(&mut tags, "  ", &None, "t3", NOW).err().unwrap(), "标签名不能为空");
    assert_eq!(create_tag(&mut tags, " cv ", &None, "t3", NOW).ok(), Some(2));
    assert_eq!(tags[2].name, "cv");
    assert_eq!(tags[2].color, "#3b82f6");
    assert!(update_tag(&mut tags, "t1", &Some("nlp".to_string()), &None).is_err());
    let red = Some("red".to_string());
    assert_eq!(update_tag(&mut tags, "t3", &Some(" x ".to_string()), &red).ok(), Some(2));
    assert_eq!(tags[2].name, "x");
    assert_eq!(tags[2].color, "red");
    assert_eq!(
        update_tag(&mut tags, "t9", &None, &None).err().unwrap(),
        "tag not found: t9"
    );
    tags.truncate(2);
    let mut links = vec![];
    let given = vec!["t1".to_string(), "t2".to_string()];
    add_tags_to_paper(&mut tags, &mut links, "p", &given, NOW);
    assert_eq!(tags.len(), 2);
    let unknown = vec!["t7".to_string()];
    add_tags_to_paper(&mut tags, &mut links, "q", &unknown, NOW);
    add_tags_to_paper(&mut tags, &mut links, "q", &unknown, "later");
    assert_eq!((tags.len(), links.len()), (3, 3));
    assert_eq!((tags[2].id.as_str(), tags[2].created_at.as_str()), ("t7", NOW));
    remove_tags_from_paper(&mut links, "q", &unknown);
    tags.truncate(2);
    let left = delete_tag(tags, &mut links, "t1");
    assert_eq!(left.len(), 1);
    assert!(left[0].parent_id.is_none());
    assert_eq!(links.len(), 1);
    remove_tags_from_paper(&mut links, "p", &vec!["t2".to_string()]);
    assert!(links.is_empty());
}

#[test]
fn annotations_are_listed_by_page() {
    let new = |page: i64| NewAnnotation {
        id: None,
        paper_id: "p".to_string(),
        page,
        rect: "{}".to_string(),
        text: None,
        note: None,
        tags: vec!["x".to_string()],
    };
    let mut marks = vec![create(&new(2), "a2", NOW), create(&new(1), "a1", NOW)];
    assert_eq!(marks[0].color, "#ffeb3b");
    assert_eq!(list_by_paper(&marks, "p"), vec![1, 0]);
    update_tags(&mut marks[0], &vec!["y".to_string()], "later");
    assert_eq!(marks[0].tags, "[\"y\"]");
    clear_paper(&mut marks, "other");
    assert_eq!(marks.len(), 2);
    clear_paper(&mut marks, "p");
    assert!(marks.is_empty());
}

fn arxiv(id: &str, doi: Option<&str>) -> ArxivPaper {
    ArxivPaper {
        arxiv_id: id.to_string(),
        title: "T".to_string(),
        authors: vec!["A".to_string()],
        categories: vec!["cs".to_string()],
        pdf_url: "u".to_string(),
        published: "2026".to_string(),
        doi: doi.map(|d| d.to_string()),
    }
}

fn crossref(doi: Option<&str>) -> CrossrefWork {
    CrossrefWork {
        title: None,
        authors: None,
        journal: None,
        citation_count: Some(3),
        year: None,
        doi: doi.map(|d| d.to_string()),
    }
}

#[test]
fn discovery_skips_known_sources() {
    let ids = vec!["i1".to_string(), "i2".to_string(), "i3".to_string()];
    let mut sources = vec![];
    let mut events = vec![];
    let added = discover_for_topic(
        &mut events,
        &mut sources,
        "t",
        Ok(vec![arxiv("1", Some("10.1/a")), arxiv("1", None)]),
        Ok(vec![crossref(Some("10.1/a")), crossref(None), crossref(Some("10.1/b"))]),
        &ids,
        &ids,
        NOW,
    );
    assert_eq!(added, 2);
    assert_eq!(events.len(), 5);
    let told = |i: usize, wanted: (&str, usize)| {
        matches!(&events[i], DiscoverEvent::Progress { topic_id, phase, found }
            if topic_id == "t" && (phase.as_str(), *found) == wanted)
    };
    assert!(told(0, ("arxiv", 0)) && told(2, ("crossref", 1)) && told(4, ("done", 2)));
    let shown = |i: usize, id: &str| {
        matches!(&events[i], DiscoverEvent::Discovered { topic_id, source }
            if topic_id == "t" && source.id == id && source.status == "discovered")
    };
    assert!(shown(1, "i1") && shown(3, "i3"));
    assert_eq!(sources[0].source_type, "arxiv");
    assert_eq!(sources[1].source_type, "crossref");
    assert_eq!(sources[1].title.as_deref(), Some("未命名文献"));
    assert_eq!(sources[1].url.as_deref(), Some("https://doi.org/10.1/b"));
    assert_eq!(
        sources[1].metadata,
        "{\"citation_count\":3,\"journal\":null,\"year\":null}"
    );
    // A second search of the same papers finds nothing.
    let papers = vec![arxiv("1", Some("10.1/a"))];
    assert_eq!(discover_arxiv(&mut sources, "t2", &papers, &ids, NOW), 0);
    let row = arxiv_row("x", "t", &arxiv("9", None), NOW);
    assert_eq!(row.authors.as_deref(), Some("[\"A\"]"));
    // A service that fails finds nothing.
    let mut events = vec![];
    let failed = discover_for_topic(
        &mut events,
        &mut sources,
        "t",
        Err("down".to_string()),
        Err("down".to_string()),
        &vec![],
        &vec![],
        NOW,
    );
    assert_eq!(failed, 0);
    assert_eq!(events.len(), 3);
}

#[test]
fn searches_are_limited() {
    assert_eq!(discover_limit(Some(100), 5), 30);
    assert_eq!(discover_limit(None, 0), 1);
    assert_eq!(discover_limit(None, 12), 12);
    let kw = keywords_of("[\"a\", \"b\"]");
    assert_eq!(query_for("name", &kw, None), "a b");
    assert_eq!(query_for("name", &vec![], Some("  ".to_string())), "name");
    assert_eq!(query_for("name", &kw, Some("x, y".to_string())), "x, y");
    assert!(expansion_prompt("课", &kw).contains("关键词：a、b\n"));
    assert!(keywords_of("broken").is_empty());
    assert!(!auto_discovery_wait(0).searches);
    assert_eq!(auto_discovery_wait(2).seconds, 7200);
}

#[test]
fn extract_year_parses_common_date_shapes() {
    assert_eq!(extract_year("2021-03-15"), Some(2021));
    assert_eq!(extract_year("Mar 2021"), Some(2021));
    assert_eq!(extract_year("2021"), Some(2021));
    assert_eq!(extract_year("no date"), None);
    assert_eq!(extract_year("31"), None);
    // First plausible year wins.
    assert_eq!(extract_year("received 2019, published 2020"), Some(2019));
}

#[test]
fn resolve_attachment_prefers_storage_then_absolute() {
    assert_eq!(
        resolve_attachment_path("/data", "ABCD1234", "storage:paper.pdf").as_deref(),
        Some("/data/storage/ABCD1234/paper.pdf")
    );
    assert_eq!(
        resolve_attachment_path("/data", "XXXX9999", "/abs/linked.pdf").as_deref(),
        Some("/abs/linked.pdf")
    );
    assert_eq!(
        resolve_attachment_path("/data", "XXXX9999", "attachments:rel/x.pdf").as_deref(),
        Some("/data/rel/x.pdf")
    );
    assert_eq!(resolve_attachment_path("/data", "X", "relative.pdf"), None);
    for linked in ["C:\\papers\\a.pdf", "d:/papers/a.pdf", "\\\\server\\share\\a.pdf"] {
        assert_eq!(resolve_attachment_path("C:\\data", "X", linked).as_deref(), Some(linked));
    }
    assert_eq!(resolve_attachment_path("C:\\data", "X", "C:relative.pdf"), None);
    assert_eq!(
        resolve_attachment_path("C:\\data", "ABCD1234", "storage:paper.pdf").as_deref(),
        Some("C:\\data\\storage\\ABCD1234\\paper.pdf")
    );
    assert_eq!(attachment_file_name("storage:Foo.pdf"), "Foo.pdf");
    assert_eq!(attachment_file_name("C:\\docs\\Bar.pdf"), "Bar.pdf");
}

#[test]
fn zotero_rows_become_items() {
    let field = |name: &str, value: &str| ZoteroField {
        name: name.to_string(),
        value: value.to_string(),
    };
    let rows = ZoteroRows {
        id: 1,
        key: "K".to_string(),
        fields: vec![
            field("title", " T "),
            field("date", "May 2020"),
            field("bookTitle", "B"),
            field("DOI", "  "),
        ],
        creators: vec![
            ZoteroCreator { first: "Ada".to_string(), last: "Lovelace".to_string(), mode: 0 },
            ZoteroCreator { first: "x".to_string(), last: " ACM ".to_string(), mode: 1 },
        ],
        tags: vec![
            ZoteroTag { name: " own ".to_string(), kind: Some(0) },
            ZoteroTag { name: "auto".to_string(), kind: Some(1) },
        ],
        attachments: vec![
            Attachment {
                raw: "storage:a.html".to_string(),
                content_type: "text/html".to_string(),
                found: Some("/a.html".to_string()),
            },
            Attachment {
                raw: "storage:a.pdf".to_string(),
                content_type: "Application/PDF".to_string(),
                found: Some("/a.pdf".to_string()),
            },
        ],
        collections: vec![7],
    };
    let items = load_library(vec![rows]);
    let item = &items[0];
    assert_eq!(item.title, "T");
    assert_eq!(item.authors, vec!["Ada Lovelace", "ACM"]);
    assert_eq!(item.year, Some(2020));
    assert_eq!(item.journal.as_deref(), Some("B"));
    assert!(item.doi.is_none());
    assert_eq!(item.pdf_path.as_deref(), Some("/a.pdf"));
    assert_eq!(item.file_name.as_deref(), Some("a.pdf"));
    assert_eq!(item.tags, vec![" own "]);
    assert_eq!(tags_of_item(item), vec!["own"]);
    assert_eq!(shown_title(item), "T");
    let (m, name) = item_metadata(item, None, None);
    assert_eq!(m.title, "T");
    assert_eq!(name, "a.pdf");
    let p = preview("/z", &vec![], &items);
    assert_eq!((p.items, p.with_pdf, p.collections, p.tags), (1, 1, 0, 1));
}

#[test]
fn zotero_collections_are_mapped_from_the_top() {
    let col = |id: i64, name: &str, parent: Option<i64>| ZoteroCollection {
        id,
        name: name.to_string(),
        parent_id: parent,
    };
    let cols = vec![col(1, "top", None), col(2, "below", Some(1))];
    assert!(matches!(
        map_collection(&cols, &vec![], 2),
        MapStep::Make { zid: 1, parent: None, .. }
    ));
    let done = vec![Mapped { zid: 1, id: "c1".to_string() }];
    assert!(matches!(
        map_collection(&cols, &done, 2),
        MapStep::Make { zid: 2, parent: Some(p), .. } if p == "c1"
    ));
    assert!(matches!(map_collection(&cols, &done, 1), MapStep::Done(id) if id == "c1"));
    assert!(matches!(
        map_collection(&cols, &done, 9),
        MapStep::Missing(m) if m == "Zotero 分类 9 不存在"
    ));
}
