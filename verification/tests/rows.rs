use siku::agent_memory_service::{
    delete_for_session, get, AgentMemory, MemoryVersion, StoredVersion,
};
use siku::annotation_service::{
    create, delete, get_by_id, list_by_paper, update_translation, NewAnnotation,
};
use siku::batch_import::{
    find_paper_by_blob_hash, find_paper_by_doi, check_pdf, run_pdf_batch, BatchStep,
    ItemOutcome,
};
use siku::bookmark_service::{create_bookmark, delete_bookmark};
use siku::chunk_rows::{
    insert_chunks_for_paper, reprocess_paper_index, Extracted, NewChunk,
};
use siku::collection_service::get_collection;
use siku::collection_store::{delete_collection, update_collection, CollectionEdit};
use siku::creator_rows::{
    backfill_creators, rebuild_creators_for_papers, rebuild_creators_where_missing,
};
use siku::digest::sha256_hex;
use siku::error::SikuError;
use siku::file_item_service::{
    delete_file, get_file, import_file, list_files, resolve_file_path,
};
use siku::file_service::{get_file_info, FileMeta};
use siku::file_store::{list_blob_hashes, thumbnail_path};
use siku::git_host::{get_token, set_token, GitPlatform};
use siku::knowledge::{delete_item, get_item, remove_by_source};
use siku::library_folder::refile;
use siku::link_import::{resolve_paper_link, LinkImportError, PaperMetadata};
use siku::models::{BookmarkInput, Collection, FileItem, KnowledgeItem, Note, Paper, Tag, Vault};
use siku::note_rows::{
    first_collection, get_backlinks, get_note, list_all_notes,
};
use siku::note_service::{
    create_note, floor_char_boundary, system_library_folder_id, StoredLink,
};
use siku::note_store::{collection_parent_for_paper, create_note_under_paper, NoteStore};
use siku::paper_rows::{
    add_related_paper, create_saved_search, delete_saved_search, enrich_paper_metadata,
    list_related_papers, Link,
};
use siku::paper_service::{
    blob_unreferenced, corrected_page_count, creators_from_json, get_creators, new_paper,
    ImportMetadata, Work,
};
use siku::import_store::{
    import_paper, import_paper_from_link, ImportIds, ImportStore, LinkPdf, SourceFile,
};
use siku::item_import::{import_one, import_pdf_one};
use siku::research_service::can_expand;
use siku::project_service::{get_path, list as list_projects};
use siku::skill_review::{NamedReview, ReviewRecord};
use siku::skills::{list_all, DirDigest, SkillDir};
use siku::tag_service::{
    add_tags_to_paper, get_paper_tags, get_tag, list_papers_by_tag, list_tags,
};
use siku::vault_service::list_vaults;
use siku::zotero_import::{map_tag, ZoteroItem};

const NOW: &str = "2026-01-01T00:00:00Z";

fn paper(id: &str, title: &str) -> Paper {
    let m = ImportMetadata {
        title: title.to_string(),
        authors: vec!["Ada".to_string()],
        year: None,
        journal: None,
        doi: None,
        url: None,
        abstract_text: None,
        keywords: vec![],
        file_path: None,
        file_size: None,
        page_count: None,
        language: None,
        isbn: None,
    };
    new_paper(id, m, NOW)
}

fn note(id: &str, vault: &str, at: &str) -> Note {
    create_note(id, vault, id, "", &None, &None, false, at)
}

fn tag(id: &str, name: &str) -> Tag {
    Tag {
        id: id.to_string(),
        name: name.to_string(),
        color: "#fff".to_string(),
        parent_id: None,
        created_at: NOW.to_string(),
        paper_count: 0,
    }
}

fn collection(id: &str, name: &str, parent: Option<&str>, at: &str) -> Collection {
    Collection {
        id: id.to_string(),
        name: name.to_string(),
        parent_id: parent.map(|p| p.to_string()),
        sort_order: 0,
        created_at: at.to_string(),
    }
}

fn fresh(n: usize) -> Vec<String> {
    (0..n).map(|i| format!("f{i}")).collect()
}

#[test]
fn notes_are_found_and_listed_newest_first() {
    let notes = vec![note("a", "v", "1"), note("b", "w", "2"), note("c", "v", "3")];
    assert_eq!(get_note(&notes, "b").unwrap(), 1);
    assert_eq!(get_note(&notes, "x").unwrap_err(), "note not found: x");
    assert_eq!(list_all_notes(&notes, "v"), vec![2, 0]);
    assert!(list_all_notes(&notes, "x").is_empty());
}

#[test]
fn backlinks_stay_in_their_vault() {
    let notes = vec![note("a", "v", "1"), note("b", "w", "2"), note("c", "v", "3")];
    let link = |s: &str, t: &str| StoredLink {
        source_id: s.to_string(),
        target_id: t.to_string(),
        context: format!("{s}->{t}"),
    };
    let links = vec![link("a", "c"), link("b", "c"), link("gone", "c"), link("c", "a")];
    let found = get_backlinks(&notes, &links, "c", "v");
    assert_eq!(found.len(), 1);
    assert_eq!(found[0].note, 0);
    assert_eq!(found[0].context, "a->c");
}

fn note_store(notes: Vec<Note>) -> NoteStore {
    NoteStore { notes, links: vec![], versions: vec![], files: vec![] }
}

#[test]
fn notes_on_papers_go_into_folders_of_collections() {
    let collections = vec![
        collection("inner", "Inner", Some("outer"), "2"),
        collection("outer", "Outer", None, "1"),
        collection("late", "Late", None, "9"),
    ];
    let links = vec![
        Link { paper_id: "p".to_string(), other_id: "late".to_string() },
        Link { paper_id: "p".to_string(), other_id: "inner".to_string() },
    ];
    assert_eq!(first_collection(&collections, &links, "p"), Some(0));
    let root = system_library_folder_id("v");
    let mut s = note_store(vec![]);
    let n = create_note_under_paper(
        &mut s, &collections, &links, "p", "T", "text", "v", &fresh(32), "n1", NOW,
    );
    assert_eq!(s.notes.len(), 3);
    assert_eq!(s.notes[0].id, root);
    assert_eq!(s.notes[1].title, "Outer");
    assert_eq!(s.notes[1].parent_id.as_deref(), Some(root.as_str()));
    assert_eq!(s.notes[2].title, "Inner");
    assert_eq!(s.notes[2].parent_id.as_deref(), Some("f0"));
    assert_eq!(s.notes[2].source_collection_id.as_deref(), Some("inner"));
    assert_eq!(n.parent_id.as_deref(), Some("f1"));
    let again = create_note_under_paper(
        &mut s, &collections, &links, "p", "T", "", "v", &fresh(32), "n2", NOW,
    );
    assert_eq!(s.notes.len(), 3);
    assert_eq!(again.parent_id.as_deref(), Some("f1"));
    let loose = create_note_under_paper(
        &mut s, &collections, &links, "q", "T", "", "v", &fresh(32), "n3", NOW,
    );
    assert_eq!(loose.parent_id, Some(root));
    let folder =
        collection_parent_for_paper(&mut s, &collections, &links, "p", "v", &fresh(32), NOW);
    assert_eq!((folder.as_str(), s.notes.len()), ("f1", 3));
}

#[test]
fn notes_on_papers_leave_old_library_folders() {
    let mut old = note("old-library", "v", "1");
    old.is_system = 1;
    old.is_folder = 1;
    let mut child = note("child", "v", "1");
    child.parent_id = Some("old-library".to_string());
    let mut s = note_store(vec![old, child]);
    let n = create_note_under_paper(&mut s, &vec![], &vec![], "p", "T", "", "v", &fresh(32), "n", NOW);
    let root = system_library_folder_id("v");
    assert_eq!(n.parent_id.as_deref(), Some(root.as_str()));
    let ids: Vec<&str> = s.notes.iter().map(|n| n.id.as_str()).collect();
    assert_eq!(ids, vec!["child", root.as_str()]);
    assert_eq!(s.notes[0].parent_id.as_deref(), Some(root.as_str()));
}

#[test]
fn tags_are_counted_and_listed_by_name() {
    let mut tags = vec![tag("1", "b"), tag("2", "a")];
    let mut links = vec![];
    add_tags_to_paper(&mut tags, &mut links, "p", &vec!["1".to_string()], NOW);
    add_tags_to_paper(&mut tags, &mut links, "q", &vec!["1".to_string(), "2".to_string()], NOW);
    assert_eq!(tags.len(), 2);
    let all = list_tags(&tags, &links);
    assert_eq!(all[0].name, "a");
    assert_eq!(all[0].paper_count, 1);
    assert_eq!(all[1].paper_count, 2);
    let of_p = get_paper_tags(&tags, &links, "p");
    assert_eq!(of_p.len(), 1);
    assert_eq!(of_p[0].id, "1");
    assert_eq!(get_tag(&tags, &links, "2").unwrap().paper_count, 1);
    assert_eq!(get_tag(&tags, &links, "3").unwrap_err(), "tag not found: 3");
    assert_eq!(map_tag(&tags, "a"), Some("2".to_string()));
    assert_eq!(map_tag(&tags, "z"), None);
}

#[test]
fn collections_and_vaults_are_found() {
    let list = vec![collection("a", "A", None, "1")];
    assert_eq!(get_collection(&list, "a").unwrap(), 0);
    assert_eq!(get_collection(&list, "b").unwrap_err(), "collection not found: b");
    let vault = |id: &str, at: &str| Vault {
        id: id.to_string(),
        name: id.to_string(),
        created_at: at.to_string(),
        updated_at: at.to_string(),
    };
    let vaults = vec![vault("z", "2"), vault("b", "1"), vault("a", "2")];
    assert_eq!(list_vaults(&vaults), vec![1, 2, 0]);
}

#[test]
fn rows_can_be_taken_away() {
    let mark = |id: &str| NewAnnotation {
        id: Some(id.to_string()),
        paper_id: "p".to_string(),
        page: 1,
        rect: "{}".to_string(),
        text: None,
        note: None,
        tags: vec![],
    };
    let mut marks = vec![create(&mark("a"), "x", NOW), create(&mark("b"), "x", NOW)];
    assert_eq!(get_by_id(&marks, "b").unwrap(), 1);
    assert!(get_by_id(&marks, "c").unwrap_err().starts_with("annotation not found: "));
    assert!(list_by_paper(&marks, "q").is_empty());
    update_translation(&mut marks[1], "译文", "later");
    assert_eq!(marks[1].translation.as_deref(), Some("译文"));
    assert_eq!(marks[1].updated_at, "later");
    delete(&mut marks, "a");
    assert_eq!(marks.len(), 1);
    assert_eq!(marks[0].id, "b");

    let input = BookmarkInput {
        title: "T".to_string(),
        route: "/".to_string(),
        params_json: None,
    };
    let mut bookmarks = vec![create_bookmark(input, "b1", NOW)];
    delete_bookmark(&mut bookmarks, "other");
    assert_eq!(bookmarks.len(), 1);
    delete_bookmark(&mut bookmarks, "b1");
    assert!(bookmarks.is_empty());

    let mut searches = vec![create_saved_search("n", "{}", "s1", NOW)];
    delete_saved_search(&mut searches, "s1");
    assert!(searches.is_empty());
}

#[test]
fn files_are_listed_by_vault() {
    let file = |id: &str, name: &str, vault: &str| -> FileItem {
        import_file(name, true, 1, "blobs/x.txt", vault, &None, id, NOW).unwrap()
    };
    let mut files = vec![file("1", "b.txt", "v"), file("2", "A.txt", "v"), file("3", "c", "w")];
    assert_eq!(list_files(&files, "v"), vec![1, 0]);
    assert_eq!(get_file(&files, "3").unwrap(), 2);
    assert_eq!(get_file(&files, "4").unwrap_err(), "file not found: 4");
    assert_eq!(resolve_file_path(&files, "/d", "1", true).unwrap(), "/d/blobs/x.txt");
    assert_eq!(
        resolve_file_path(&files, "/d", "1", false).unwrap_err(),
        "file blob missing on disk: /d/blobs/x.txt"
    );
    files[0].parent_id = Some("old".to_string());
    refile(&mut files, &vec!["old".to_string()], "new");
    assert_eq!(files[0].parent_id.as_deref(), Some("new"));
    assert!(files[1].parent_id.is_none());
    delete_file(&mut files, "2");
    assert_eq!(files.len(), 2);
}

#[test]
fn file_info_has_a_type_for_files_only() {
    let meta = |is_dir: bool| {
        Ok(Some(FileMeta { is_dir, size: 3, modified_at: Some(NOW.to_string()) }))
    };
    let f = get_file_info("/a/b.PDF", meta(false)).unwrap();
    assert_eq!(f.name, "b.PDF");
    assert_eq!(f.mime_type.as_deref(), Some("application/pdf"));
    assert!(get_file_info("/a/b.pdf", meta(true)).unwrap().mime_type.is_none());
    assert_eq!(get_file_info("/a", Ok(None)).unwrap_err(), "not found");
    assert_eq!(get_file_info("/a", Err("x".to_string())).unwrap_err(), "metadata: x");
}

#[test]
fn blob_hashes_are_listed_once() {
    let names = vec!["aa.pdf".to_string(), "aa.txt".to_string(), "b".to_string()];
    assert_eq!(list_blob_hashes(&names), vec!["aa".to_string()]);
}

#[test]
fn tokens_are_kept_trimmed() {
    let mut device = vec![];
    assert_eq!(get_token(&device, GitPlatform::GitHub), None);
    set_token(&mut device, GitPlatform::GitHub, "  secret ", NOW);
    assert_eq!(get_token(&device, GitPlatform::GitHub), Some("secret".to_string()));
    assert_eq!(get_token(&device, GitPlatform::Gitee), None);
    set_token(&mut device, GitPlatform::GitHub, " ", NOW);
    assert_eq!(get_token(&device, GitPlatform::GitHub), None);
}

#[test]
fn knowledge_goes_with_its_source() {
    let item = |id: &str, source: Option<&str>| KnowledgeItem {
        id: id.to_string(),
        domain_id: "d".to_string(),
        title: "T".to_string(),
        content_type: "text".to_string(),
        content: None,
        source_type: source.map(|_| "paper".to_string()),
        source_id: source.map(|s| s.to_string()),
        metadata: "{}".to_string(),
        tags: "[]".to_string(),
        created_at: NOW.to_string(),
        updated_at: NOW.to_string(),
    };
    let mut items = vec![item("1", Some("p")), item("2", Some("q")), item("3", None)];
    assert_eq!(get_item(&items, "2").unwrap(), 1);
    assert_eq!(get_item(&items, "9").unwrap_err(), "item not found: 9");
    remove_by_source(&mut items, "note", "p");
    assert_eq!(items.len(), 3);
    remove_by_source(&mut items, "paper", "p");
    assert_eq!(items.len(), 2);
    delete_item(&mut items, "3");
    assert_eq!(items.len(), 1);
}

#[test]
fn deleted_sessions_are_forgotten() {
    let memory = |id: &str| AgentMemory {
        id: id.to_string(),
        content: "c".to_string(),
        active: true,
        updated_at: NOW.to_string(),
    };
    let version = |session: &str| StoredVersion {
        session_id: session.to_string(),
        version: MemoryVersion {
            id: "v".to_string(),
            content: "c".to_string(),
            edited_by: "user".to_string(),
            created_at: NOW.to_string(),
        },
    };
    let mut memories = vec![memory("s1"), memory("s2")];
    let mut versions = vec![version("s1"), version("s2"), version("s1")];
    assert_eq!(get(&memories, "s2"), Some(1));
    delete_for_session(&mut memories, &mut versions, "s1");
    assert_eq!(get(&memories, "s1"), None);
    assert_eq!(memories.len(), 1);
    assert_eq!(versions.len(), 1);
    assert_eq!(versions[0].session_id, "s2");
}

#[test]
fn related_papers_are_found_from_both_sides() {
    let mut list = vec![paper("a", "A"), paper("b", "B"), paper("c", "C")];
    list[2].updated_at = "2027".to_string();
    let mut links = vec![];
    add_related_paper(&mut links, "a", "b");
    add_related_paper(&mut links, "c", "a");
    assert_eq!(list_related_papers(&list, &links, "a"), vec![2, 1]);
    assert_eq!(list_related_papers(&list, &links, "b"), vec![0]);
    list[1].deleted_at = Some(NOW.to_string());
    assert_eq!(list_related_papers(&list, &links, "a"), vec![2]);
}

#[test]
fn known_papers_are_found_by_content_and_doi() {
    let mut list = vec![paper("a", "A")];
    let hash = sha256_hex(b"pdf");
    list[0].file_path = Some(format!("blobs/{hash}.pdf"));
    list[0].doi = Some(" 10.1/ABC ".to_string());
    assert_eq!(find_paper_by_blob_hash(&list, &hash, "pdf"), Some("a".to_string()));
    assert_eq!(find_paper_by_doi(&list, "10.1/abc"), Some("a".to_string()));
    assert_eq!(find_paper_by_doi(&list, "10.1/abd"), None);
    assert!(std::matches!(
        check_pdf("/x/y.pdf", &Ok(b"pdf".to_vec()), &list),
        Some(ItemOutcome::Skipped)
    ));
    assert!(check_pdf("/x/y.pdf", &Ok(b"new".to_vec()), &list).is_none());
    match check_pdf("/x/y.pdf", &Err("no".to_string()), &list) {
        Some(ItemOutcome::Failed(e)) => assert_eq!(e, "读取失败：no"),
        _ => panic!("a file that cannot be read fails"),
    }
    list[0].deleted_at = Some(NOW.to_string());
    assert_eq!(find_paper_by_blob_hash(&list, &hash, "pdf"), None);
}

#[test]
fn a_batch_counts_every_file() {
    let paths = vec!["/a/x.pdf".to_string(), "/a/y.pdf".to_string()];
    let mut batch = run_pdf_batch("b", &paths);
    match batch.next(false) {
        BatchStep::Work(p) => {
            assert_eq!(p.current, 1);
            assert_eq!(p.file, "x.pdf");
        }
        BatchStep::End(_) => panic!("there are files left"),
    }
    let p = batch.through(&ItemOutcome::Failed("no".to_string()));
    assert_eq!(p.last_status.as_deref(), Some("failed"));
    assert_eq!(batch.summary.errors, vec!["x.pdf：no".to_string()]);
    assert!(std::matches!(batch.next(false), BatchStep::Work(_)));
    batch.through(&ItemOutcome::Skipped);
    match batch.next(true) {
        BatchStep::End(p) => {
            assert!(p.done);
            assert!(!p.cancelled);
            assert_eq!(p.imported + p.skipped + p.failed, 2);
        }
        BatchStep::Work(_) => panic!("all files are through"),
    }
}

#[test]
fn a_batch_can_be_stopped() {
    let mut batch = run_pdf_batch("b", &vec!["/a/x.pdf".to_string()]);
    match batch.next(true) {
        BatchStep::End(p) => assert!(p.cancelled),
        BatchStep::Work(_) => panic!("the batch was asked to stop"),
    }
    assert_eq!(batch.summary.imported, 0);
}

#[test]
fn creators_follow_the_columns() {
    let mut a = paper("a", "A");
    a.authors = "[\"X\",\"Y\"]".to_string();
    a.editor = "[\"Z\"]".to_string();
    let papers = vec![a, paper("b", "B")];
    let mut rows = backfill_creators(&papers);
    assert_eq!(rows.len(), 4);
    assert_eq!(rows[2].creator.role, "editor");
    assert_eq!(rows[2].sort_order, 2);
    rebuild_creators_where_missing(&mut rows, &papers);
    assert_eq!(rows.len(), 4);
    rebuild_creators_for_papers(
        &mut rows,
        &papers,
        &vec!["a".to_string(), "gone".to_string()],
        &vec!["b".to_string()],
    );
    assert_eq!(rows.len(), 3);
    assert!(rows.iter().all(|r| r.paper_id == "a"));
    rebuild_creators_where_missing(&mut rows, &papers);
    assert_eq!(rows.len(), 4);
    assert_eq!(rows[3].creator.name, "Ada");
}

fn work(title: &str) -> Work {
    Work {
        title: Some(title.to_string()),
        authors: None,
        year: Some(2000),
        journal: Some("J".to_string()),
        doi: None,
        url: None,
        abstract_text: None,
        volume: None,
        issue: None,
        pages: None,
        publisher: None,
        issn: None,
    }
}

#[test]
fn gaps_are_filled_once() {
    let mut list = vec![paper("a", "Deep Learning")];
    let found = vec![work("Something Else Entirely"), work("Deep learning")];
    let r = enrich_paper_metadata(&mut list, "a", None, None, &found, "later");
    assert!(std::matches!(r, Ok(true)));
    assert_eq!(list[0].year, Some(2000));
    assert_eq!(list[0].updated_at, "later");
    let r = enrich_paper_metadata(&mut list, "a", None, None, &found, "again");
    assert!(std::matches!(r, Ok(false)));
    assert_eq!(list[0].updated_at, "later");
    let by_doi = Some("10.1/x".to_string());
    let r = enrich_paper_metadata(&mut list, "a", by_doi, None, &found, "again");
    assert!(std::matches!(r, Ok(false)));
    let r = enrich_paper_metadata(&mut list, "b", None, None, &found, "again");
    assert!(std::matches!(r, Err(SikuError::NotFound(_))));
}

fn chunk(content: &str) -> NewChunk {
    NewChunk {
        content: content.to_string(),
        page_start: Some(1),
        page_end: None,
        section: None,
        chunk_index: 0,
        token_count: None,
    }
}

#[test]
fn the_index_is_replaced_or_left_alone() {
    let mut p = paper("a", "A");
    let mut rows = vec![];
    assert_eq!(insert_chunks_for_paper(&mut rows, "a", &vec![chunk("old")], &fresh(1), NOW), 1);
    assert_eq!(insert_chunks_for_paper(&mut rows, "b", &vec![chunk("other")], &fresh(1), NOW), 1);
    let new = || Ok(Extracted { pages: 7, chunks: vec![chunk("x"), chunk("y")] });
    let r = reprocess_paper_index(&mut p, &mut rows, "\"/d/a.pdf\"", true, new(), &fresh(2), NOW);
    assert!(std::matches!(r, Err(SikuError::NotFound(_))));
    p.file_path = Some("blobs/a.pdf".to_string());
    match reprocess_paper_index(&mut p, &mut rows, "\"/d/a.pdf\"", false, new(), &fresh(2), NOW) {
        Err(SikuError::NotFound(s)) => assert_eq!(s, "PDF 文件不存在: \"/d/a.pdf\""),
        _ => panic!("the file is not there"),
    }
    let broken = Err(SikuError::PdfParse("bad".to_string()));
    let r = reprocess_paper_index(&mut p, &mut rows, "", true, broken, &fresh(2), NOW);
    assert!(std::matches!(r, Err(SikuError::PdfParse(_))));
    assert_eq!(rows.len(), 2);
    let r = reprocess_paper_index(&mut p, &mut rows, "", true, new(), &fresh(2), "later");
    assert!(std::matches!(r, Ok(2)));
    assert_eq!(p.page_count, Some(7));
    assert_eq!(rows.len(), 3);
    assert_eq!(rows[0].content, "other");
    assert_eq!(rows[2].content, "y");
}

#[test]
fn links_are_looked_up_without_importing() {
    let meta = |doi: Option<&str>, pdf: Option<&str>| PaperMetadata {
        title: String::new(),
        authors: vec![],
        year: None,
        journal: None,
        doi: doi.map(|d| d.to_string()),
        url: None,
        abstract_text: None,
        keywords: vec![],
        pdf_url: pdf.map(|p| p.to_string()),
        page_count: None,
        isbn: None,
    };
    let url = "https://doi.org/10.1234/abc";
    let m = resolve_paper_link(url, Ok(Some(meta(Some("10.1234/abc"), None))), Ok(Some(
        "https://x/a.pdf".to_string(),
    )));
    let m = match m {
        Ok(m) => m,
        Err(_) => panic!("the link is known"),
    };
    assert_eq!(m.pdf_url.as_deref(), Some("https://x/a.pdf"));
    assert_eq!(m.url.as_deref(), Some(url));
    let failed = || Err(LinkImportError::new("network_error", "x".to_string()));
    assert!(resolve_paper_link(url, Ok(Some(meta(Some("10.1234/abc"), None))), failed()).is_err());
    assert!(resolve_paper_link(url, Ok(Some(meta(Some("d"), Some("p")))), failed()).is_ok());
    assert!(resolve_paper_link("nonsense", Ok(None), Ok(None)).is_err());
}

#[test]
fn skills_are_listed_with_their_verdicts() {
    let dirs = vec![
        SkillDir {
            path: "/s/b".to_string(),
            text: Some("---\nname: b\ndescription: B\n---\ntext".to_string()),
        },
        SkillDir {
            path: "/s/a".to_string(),
            text: Some("---\nname: a\ndescription: A\n---\ntext".to_string()),
        },
    ];
    let digests = vec![DirDigest { dir: "/s/b".to_string(), hash: "new".to_string() }];
    let reviews = vec![NamedReview {
        name: "b".to_string(),
        record: ReviewRecord {
            verdict: "pass".to_string(),
            static_verdict: "pass".to_string(),
            llm_verdict: None,
            summary: String::new(),
            findings: vec![],
            dependencies: vec![],
            content_hash: "old".to_string(),
            reviewed_at: NOW.to_string(),
        },
    }];
    let all = list_all(&dirs, &digests, &reviews);
    assert_eq!(all[0].name, "a");
    assert!(all[0].review.is_none());
    assert!(all[1].review.as_ref().unwrap().stale);
}

#[test]
fn projects_have_paths() {
    let projects = vec![siku::models::Project {
        id: "1".to_string(),
        name: "n".to_string(),
        path: "/p".to_string(),
        archived: false,
        created_at: NOW.to_string(),
        updated_at: NOW.to_string(),
    }];
    assert_eq!(get_path(&projects, "1"), Some("/p".to_string()));
    assert_eq!(get_path(&projects, "2"), None);
    let mut left = projects;
    let sessions = vec![Some("1".to_string()), Some("2".to_string()), None];
    let kept = siku::project_service::delete(&mut left, &sessions, "1");
    assert!(list_projects(&left).is_empty());
    assert_eq!(kept, vec![None, Some("2".to_string()), None]);
}

#[test]
fn small_rules() {
    assert_eq!(thumbnail_path("/d", "p"), "/d/papers/p/thumbnail.png");
    assert_eq!(floor_char_boundary("aé", 2), 1);
    assert_eq!(floor_char_boundary("aé", 3), 3);
    assert_eq!(floor_char_boundary("aé", 9), 3);
    assert!(can_expand("", true));
    assert!(!can_expand("", false));
    assert!(blob_unreferenced(0, 0));
    assert!(!blob_unreferenced(0, 1));
    assert_eq!(corrected_page_count(None, 3), Some(3));
    assert_eq!(corrected_page_count(Some(2), 3), None);
    assert_eq!(corrected_page_count(None, 0), None);
    let stored = creators_from_json("[\"X\"]", "[]");
    assert_eq!(get_creators(stored, "[\"Y\"]", "[]")[0].name, "X");
    assert_eq!(get_creators(vec![], "[\"Y\"]", "[]")[0].name, "Y");
    let sql = list_papers_by_tag(Some("title"), Some("asc"));
    assert!(sql.ends_with("ORDER BY p.title ASC"));
    assert!(list_papers_by_tag(Some("x; DROP"), None).ends_with("ORDER BY p.imported_at DESC"));
}

#[test]
fn folders_follow_their_collections() {
    let mut collections =
        vec![collection("a", "A", None, "1"), collection("b", "B", Some("a"), "2")];
    let mut notes = vec![note("fa", "v", "1"), note("fb", "v", "1"), note("n", "v", "1")];
    for (i, c) in [(0, "a"), (1, "b")] {
        notes[i].is_folder = 1;
        notes[i].source_collection_id = Some(c.to_string());
    }
    let mut s = note_store(notes);
    let edit = |name: Option<&str>, parent: Option<Option<&str>>| CollectionEdit {
        name: name.map(|n| n.to_string()),
        parent_id: parent.map(|p| p.map(|p| p.to_string())),
    };
    let e = edit(Some("New"), Some(Some("a")));
    assert_eq!(update_collection(&mut collections, &mut s, "b", &e, "2").ok(), Some(1));
    assert_eq!(collections[1].name, "New");
    assert_eq!(s.notes[1].title, "New");
    assert_eq!(s.notes[1].parent_id.as_deref(), Some("fa"));
    let e = edit(None, Some(None));
    assert!(update_collection(&mut collections, &mut s, "b", &e, "3").is_ok());
    assert_eq!(collections[1].parent_id, None);
    // The library folder is made where it was missing.
    let root = system_library_folder_id("v");
    assert_eq!(s.notes[1].parent_id.as_deref(), Some(root.as_str()));
    assert_eq!(s.notes.len(), 4);
    assert_eq!((s.notes[3].id.as_str(), s.notes[3].is_system), (root.as_str(), 1));
    let e = edit(None, Some(Some("b")));
    assert_eq!(
        update_collection(&mut collections, &mut s, "b", &e, "4").err().unwrap(),
        "collection cannot be its own parent"
    );
    assert_eq!(
        update_collection(&mut collections, &mut s, "x", &e, "4").err().unwrap(),
        "collection not found: x"
    );
    let mut notes = s.notes;
    notes.truncate(3);
    collections[1].parent_id = Some("a".to_string());
    let mut links = vec![
        Link { paper_id: "p".to_string(), other_id: "b".to_string() },
        Link { paper_id: "p".to_string(), other_id: "z".to_string() },
    ];
    delete_collection(&mut collections, &mut links, &mut notes, "a", "5");
    assert!(collections.is_empty());
    assert_eq!(links.len(), 1);
    assert_eq!(links[0].other_id, "z");
    assert_eq!(notes.len(), 3);
    assert!(notes[0].source_collection_id.is_none());
    assert_eq!(notes[0].updated_at, "5");
    assert_eq!(notes[2].updated_at, "1");
}

fn no_rows() -> ImportStore {
    ImportStore {
        papers: vec![],
        attachments: vec![],
        knowledge: vec![],
        chunks: vec![],
        imports: vec![],
    }
}

fn import_ids() -> ImportIds {
    ImportIds {
        import: "i1".to_string(),
        paper: "p1".to_string(),
        attachment: "a1".to_string(),
        knowledge: "k1".to_string(),
        chunks: vec!["c1".to_string(), "c2".to_string()],
    }
}

fn text_of(pages: i32) -> Extracted {
    Extracted {
        pages,
        chunks: vec![NewChunk {
            content: "words".to_string(),
            page_start: Some(1),
            page_end: Some(2),
            section: None,
            chunk_index: 0,
            token_count: Some(1),
        }],
    }
}

fn source(is_there: bool) -> SourceFile {
    SourceFile {
        path: "/in/A Paper.pdf".to_string(),
        name: "A Paper.pdf".to_string(),
        is_there,
        size: 12,
    }
}

#[test]
fn a_file_is_imported_with_all_its_rows() {
    let mut s = no_rows();
    let blob = Ok("blobs/x.pdf".to_string());
    let r = import_paper(&mut s, &import_ids(), &source(true), blob, None, Some(text_of(9)), NOW);
    let paper = r.unwrap_or_else(|_| panic!("imported"));
    assert_eq!((paper.id.as_str(), paper.title.as_str()), ("p1", "A Paper"));
    assert_eq!(paper.page_count, None);
    assert_eq!(s.papers[0].page_count, Some(9));
    assert_eq!(s.papers[0].file_path.as_deref(), Some("blobs/x.pdf"));
    assert_eq!(s.attachments.len(), 1);
    assert_eq!(s.attachments[0].paper_id, "p1");
    assert_eq!(s.attachments[0].file_name, "A Paper.pdf");
    assert_eq!(s.attachments[0].file_path, "blobs/x.pdf");
    assert_eq!(s.attachments[0].file_type, "pdf");
    assert_eq!(s.knowledge[0].title, "A Paper");
    assert_eq!(s.knowledge[0].source_id.as_deref(), Some("p1"));
    assert_eq!(s.chunks.len(), 1);
    assert_eq!((s.chunks[0].id.as_str(), s.chunks[0].paper_id.as_str()), ("c1", "p1"));
    assert_eq!(s.imports.len(), 1);
    assert_eq!(s.imports[0].status, "completed");
    assert_eq!(s.imports[0].paper_id.as_deref(), Some("p1"));
    assert_eq!(s.imports[0].file_path.as_deref(), Some("/in/A Paper.pdf"));
    assert_eq!(s.imports[0].completed_at.as_deref(), Some(NOW));
}

#[test]
fn a_file_without_pages_has_no_pieces() {
    let mut s = no_rows();
    let blob = Ok("blobs/x.pdf".to_string());
    let r = import_paper(&mut s, &import_ids(), &source(true), blob, None, Some(text_of(0)), NOW);
    assert!(r.is_ok());
    assert_eq!(s.papers[0].page_count, None);
    assert!(s.chunks.is_empty());
}

#[test]
fn a_file_that_cannot_be_imported_adds_no_paper() {
    let mut s = no_rows();
    let gone = import_paper(
        &mut s,
        &import_ids(),
        &source(false),
        Ok("blobs/x.pdf".to_string()),
        None,
        None,
        NOW,
    );
    assert!(matches!(
        gone,
        Err(SikuError::NotFound(e)) if e == "source file not found: /in/A Paper.pdf"
    ));
    assert!(s.imports.is_empty() && s.papers.is_empty());
    let full = Err(SikuError::Io("disk full".to_string()));
    let r = import_paper(&mut s, &import_ids(), &source(true), full, None, None, NOW);
    assert!(matches!(r, Err(SikuError::Io(e)) if e == "disk full"));
    assert_eq!(s.imports[0].status, "processing");
    assert_eq!(s.imports[0].completed_at, None);
    assert!(s.papers.is_empty() && s.attachments.is_empty() && s.knowledge.is_empty());
}

fn link_metadata(title: &str) -> PaperMetadata {
    PaperMetadata {
        title: title.to_string(),
        authors: vec!["Ada Lovelace".to_string()],
        year: Some(1843),
        journal: None,
        doi: Some("10.1145/276675.276685".to_string()),
        url: None,
        abstract_text: None,
        keywords: vec![],
        pdf_url: None,
        page_count: None,
        isbn: None,
    }
}

#[test]
fn a_link_is_imported_with_or_without_its_pdf() {
    let url = "10.1145/276675.276685";
    let mut s = no_rows();
    let pdf = Ok(LinkPdf::Stored {
        path: "blobs/y.pdf".to_string(),
        size: 5,
        name: "original.pdf".to_string(),
        info: None,
        text: Some(text_of(3)),
    });
    let answer = Ok(Some(link_metadata("T")));
    let made = import_paper_from_link(&mut s, &import_ids(), url, None, answer, pdf, NOW);
    let made = made.unwrap_or_else(|_| panic!("imported"));
    assert_eq!(made.paper.title, "T");
    assert_eq!(made.paper.url.as_deref(), Some(url));
    assert_eq!(made.warning, None);
    assert_eq!(s.attachments[0].file_path, "blobs/y.pdf");
    assert_eq!(s.imports[0].source_url.as_deref(), Some(url));
    assert_eq!(s.imports[0].status, "completed");

    let mut s = no_rows();
    let pdf = Ok(LinkPdf::NotDownloaded("HTTP 404".to_string()));
    let seen = Some(link_metadata("Seen"));
    let made = import_paper_from_link(&mut s, &import_ids(), url, seen, Ok(None), pdf, NOW);
    let made = made.unwrap_or_else(|_| panic!("imported"));
    assert_eq!(made.paper.title, "Seen");
    assert_eq!(made.warning.as_deref(), Some("PDF 下载失败，已仅导入元数据：HTTP 404"));
    assert!(s.attachments.is_empty() && s.chunks.is_empty());
    assert_eq!(s.papers.len(), 1);
}

#[test]
fn a_link_that_cannot_be_imported_leaves_a_record() {
    let mut s = no_rows();
    let odd = import_paper_from_link(
        &mut s,
        &import_ids(),
        "https://example.com",
        None,
        Ok(None),
        Ok(LinkPdf::Nowhere),
        NOW,
    );
    assert!(odd.err().unwrap().code == "unsupported_url");
    assert!(s.imports.is_empty());
    let unknown = import_paper_from_link(
        &mut s,
        &import_ids(),
        "10.1145/276675.276685",
        None,
        Ok(None),
        Ok(LinkPdf::Nowhere),
        NOW,
    );
    let e = unknown.err().unwrap();
    assert_eq!(e.code, "metadata_not_found");
    assert_eq!(s.imports[0].status, "failed");
    assert_eq!(s.imports[0].error, Some(e.to_text()));
    let broken = import_paper_from_link(
        &mut s,
        &import_ids(),
        "10.1145/276675.276685",
        Some(link_metadata("T")),
        Ok(None),
        Err(LinkImportError::new("blob_failed", "copy pdf to blob: x".to_string())),
        NOW,
    );
    assert_eq!(broken.err().unwrap().code, "blob_failed");
    assert_eq!(s.imports[1].error.as_deref(), Some("[blob_failed] copy pdf to blob: x"));
    assert!(s.papers.is_empty());
}

#[test]
fn a_pdf_is_not_imported_twice() {
    let mut s = no_rows();
    let read = Ok(b"%PDF-1".to_vec());
    let blob = || Ok(format!("blobs/{}.pdf", sha256_hex(b"%PDF-1")));
    let first =
        import_pdf_one(&mut s, &import_ids(), &source(true), &read, blob(), None, None, NOW);
    assert!(std::matches!(first, ItemOutcome::Imported(id) if id == "p1"));
    assert_eq!(s.papers[0].file_size, Some(12));
    let again =
        import_pdf_one(&mut s, &import_ids(), &source(true), &read, blob(), None, None, NOW);
    assert!(std::matches!(again, ItemOutcome::Skipped));
    assert_eq!((s.papers.len(), s.imports.len()), (1, 1));
    let full = Err(SikuError::Io("disk full".to_string()));
    let other = Ok(b"%PDF-2".to_vec());
    let r = import_pdf_one(&mut s, &import_ids(), &source(true), &other, full, None, None, NOW);
    assert!(std::matches!(r, ItemOutcome::Failed(e) if e == "IO error: disk full"));
    let gone =
        import_pdf_one(&mut s, &import_ids(), &source(false), &other, blob(), None, None, NOW);
    assert!(std::matches!(
        gone,
        ItemOutcome::Failed(e) if e == "not found: source file not found: /in/A Paper.pdf"
    ));
    assert_eq!(s.papers.len(), 1);
}

fn zotero_item(doi: Option<&str>, pdf: Option<&str>) -> ZoteroItem {
    ZoteroItem {
        id: 1,
        key: "K".to_string(),
        title: String::new(),
        authors: vec![],
        year: None,
        journal: None,
        doi: doi.map(|d| d.to_string()),
        url: None,
        abstract_text: None,
        isbn: None,
        pdf_path: pdf.map(|p| p.to_string()),
        file_name: None,
        collections: vec![],
        tags: vec![],
    }
}

#[test]
fn a_zotero_item_is_not_imported_twice() {
    let mut s = no_rows();
    let unread = Err("gone".to_string());
    let none = || Err("not written".to_string());
    let by_doi = zotero_item(Some("10.1/ABC"), None);
    let first = import_one(&mut s, &import_ids(), &by_doi, &unread, none(), None, NOW);
    assert!(std::matches!(first, ItemOutcome::Imported(id) if id == "p1"));
    assert_eq!(s.papers[0].title, "Zotero 条目 K");
    assert!(s.attachments.is_empty() && s.imports.is_empty());
    let lower = zotero_item(Some("10.1/abc"), None);
    let again = import_one(&mut s, &import_ids(), &lower, &unread, none(), None, NOW);
    assert!(std::matches!(again, ItemOutcome::Skipped));

    let with_pdf = zotero_item(None, Some("/z/a.pdf"));
    let r = import_one(&mut s, &import_ids(), &with_pdf, &unread, none(), None, NOW);
    assert!(std::matches!(r, ItemOutcome::Failed(e) if e == "读取 PDF 失败：gone"));
    let read = Ok(b"%PDF-z".to_vec());
    let r = import_one(&mut s, &import_ids(), &with_pdf, &read, none(), None, NOW);
    assert!(std::matches!(r, ItemOutcome::Failed(e) if e == "not written"));
    let blob = || Ok(format!("blobs/{}.pdf", sha256_hex(b"%PDF-z")));
    let r = import_one(&mut s, &import_ids(), &with_pdf, &read, blob(), None, NOW);
    assert!(std::matches!(r, ItemOutcome::Imported(_)));
    assert_eq!(s.attachments[0].file_name, "attachment.pdf");
    assert_eq!(s.papers[1].file_size, Some(6));
    let r = import_one(&mut s, &import_ids(), &with_pdf, &read, blob(), None, NOW);
    assert!(std::matches!(r, ItemOutcome::Skipped));
    assert_eq!(s.papers.len(), 2);
}
