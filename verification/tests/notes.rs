use siku::agent_memory_service::{check_version_owner, MemoryStore, Stamp};
use siku::graph_service::{build_graph, build_local_graph, LinkRow, TitledRow};
use siku::library_folder::ensure_library_folder;
use siku::models::{FileItem, Note, Setting};
use siku::note_service::{
    create_note, ensure_collection_folder, ensure_system_library_folder, excerpt_content, make_snippet, parse_tags, parse_wiki_links,
    system_library_folder_id, update_note, update_note_links, LibraryFolder, NoteEdit, StoredLink,
    TitledNote,
};
use siku::note_store::{
    add_excerpt_to_paper, add_note, delete_note, edit_note, merge_note_into_paper_note, move_note,
    NewExcerpt, NoteStore,
};
use siku::settings_service::get_setting;
use siku::vault_import::{
    file_step, folder_step, note_step, FileStep, FolderRow, FolderStep, ImportCounts, NoteStep,
    Placed, StoredFile, StoredNote,
};
use siku::vault_import_laws::place_folders;
use siku::vault_import_run::{import_vault, AssetFile, NoteFile, VaultSource};
use siku::vault_service::{
    create_vault, default_vault_id, ensure_defaults, export_vault, get_current_vault_id,
    markdown_text, parse_frontmatter, rename_vault, sanitize_filename, set_current_vault_id,
    split_csv, unique_path,
};
use siku::vault_store::delete_vault;

const NOW: &str = "2026-01-01T00:00:00.000Z";

fn note(id: &str, title: &str, content: &str, parent: Option<&str>, folder: bool) -> Note {
    create_note(
        id,
        "v1",
        title,
        content,
        &None,
        &parent.map(|p| p.to_string()),
        folder,
        NOW,
    )
}

#[test]
fn parse_wiki_links_cjk() {
    let content = "开头[[中文链接]]中间[[英文 link]]结尾[[子目录/深层 链接]]。";
    let links = parse_wiki_links(content);
    assert_eq!(links, vec!["中文链接", "英文 link", "子目录/深层 链接"]);
}

#[test]
fn parse_wiki_links_no_panic_on_plain_cjk() {
    let content = "这是一段完全没有任何链接标记的中文内容，用于验证字节边界安全。";
    let links = parse_wiki_links(content);
    assert!(links.is_empty());
}

#[test]
fn make_snippet_cjk() {
    let content = "这是一段很长的中文内容，其中包含一个需要搜索的关键词，后面还有更多文字用来拉长内容以便截断产生省略号前后缀。";
    let s = make_snippet(content, "关键词", 40);
    assert!(s.contains("关键词"));
}

#[test]
fn tags_are_read_from_text() {
    let t = parse_tags("hello #one and #two");
    assert!(t.contains("one") && t.contains("two"));
    assert_eq!(parse_tags("nothing"), "[]");
}

#[test]
fn repeated_links_count_once() {
    assert_eq!(parse_wiki_links("[[a]] [[a]] [[ b ]] [[]]"), vec!["a", "b"]);
}

fn legacy_folder(id: &str) -> Note {
    let mut n = note(id, "我的图书馆", "", None, true);
    n.vault_id = default_vault_id().to_string();
    n.is_system = 1;
    n
}

fn literature_note(id: &str, title: &str, parent: &str) -> Note {
    let mut n = note(id, title, "", Some(parent), false);
    n.vault_id = default_vault_id().to_string();
    n.is_literature_note = 1;
    n
}

fn vault_file(id: &str, parent: Option<&str>) -> FileItem {
    FileItem {
        id: id.to_string(),
        vault_id: default_vault_id().to_string(),
        parent_id: parent.map(|p| p.to_string()),
        name: "paper.pdf".to_string(),
        blob_path: "blobs/x.pdf".to_string(),
        size: 0,
        mime_type: None,
        sort_order: 0,
        created_at: NOW.to_string(),
        updated_at: NOW.to_string(),
    }
}

fn library_folders(s: &NoteStore) -> Vec<&str> {
    s.notes
        .iter()
        .filter(|n| n.vault_id == default_vault_id() && n.is_system == 1 && n.is_folder == 1)
        .map(|n| n.id.as_str())
        .collect()
}

fn parent_of<'a>(s: &'a NoteStore, id: &str) -> Option<&'a str> {
    s.notes.iter().find(|n| n.id == id).unwrap().parent_id.as_deref()
}

#[test]
fn system_library_folder_converges_on_deterministic_id() {
    let vault = default_vault_id();
    let expected = system_library_folder_id(vault);
    let mut s = notes_store(vec![
        legacy_folder("legacy-syslib"),
        literature_note("lit-note", "Some Paper Notes", "legacy-syslib"),
    ]);
    s.files = vec![vault_file("vault-file", Some("legacy-syslib"))];
    assert_eq!(ensure_library_folder(&mut s, vault, "later"), expected);
    // Exactly one library folder, with the fixed id.
    assert_eq!(library_folders(&s), vec![expected.as_str()]);
    // What was in the old folder is in the new one.
    assert_eq!(parent_of(&s, "lit-note"), Some(expected.as_str()));
    assert_eq!(s.files[0].id, "vault-file");
    assert_eq!(s.files[0].parent_id.as_deref(), Some(expected.as_str()));
    assert_eq!(s.files[0].updated_at, NOW);
    // A second look finds nothing to do.
    let before = s.notes.len();
    assert_eq!(ensure_library_folder(&mut s, vault, "later still"), expected);
    assert_eq!(library_folders(&s).len(), 1);
    assert_eq!(s.notes.len(), before);
    assert_eq!(s.notes.iter().find(|n| n.id == "lit-note").unwrap().updated_at, "later");
    // Another device without a folder makes the same one.
    let mut other = notes_store(vec![]);
    assert_eq!(ensure_library_folder(&mut other, vault, NOW), expected);
    assert_eq!(library_folders(&other), vec![expected.as_str()]);
    assert_eq!(other.notes[0].title, "我的图书馆");
    assert!(other.notes[0].parent_id.is_none());
}

#[test]
fn system_library_folder_converges_all_legacy_rows() {
    let vault = default_vault_id();
    let expected = system_library_folder_id(vault);
    let mut s = notes_store(vec![]);
    for (folder, child) in [("legacy-a", "note-a"), ("legacy-b", "note-b")] {
        s.notes.push(legacy_folder(folder));
        s.notes.push(literature_note(child, "Paper Notes", folder));
    }
    s.notes.push(note("elsewhere", "E", "", None, false));
    s.files = vec![vault_file("loose", None)];
    assert_eq!(ensure_library_folder(&mut s, vault, "later"), expected);
    assert_eq!(library_folders(&s), vec![expected.as_str()]);
    for child in ["note-a", "note-b"] {
        assert_eq!(parent_of(&s, child), Some(expected.as_str()));
    }
    assert_eq!(s.notes.len(), 4);
    assert_eq!(parent_of(&s, "elsewhere"), None);
    assert!(s.files[0].parent_id.is_none());
}

#[test]
fn library_folders_are_found_made_or_brought_together() {
    let vault = default_vault_id();
    let id = system_library_folder_id(vault);
    assert!(matches!(ensure_system_library_folder(vault, &vec![]), LibraryFolder::Create));
    assert!(matches!(
        ensure_system_library_folder(vault, &vec![id.clone()]),
        LibraryFolder::Present
    ));
    assert!(matches!(
        ensure_system_library_folder(vault, &vec!["x".to_string(), id]),
        LibraryFolder::Converge(v) if v == vec!["x"]
    ));
}

#[test]
fn library_folder_ids_differ_between_vaults() {
    let a = system_library_folder_id("vault-a");
    assert_ne!(a, system_library_folder_id("vault-b"));
    assert_eq!(a.len(), 36);
}

fn notes_store(notes: Vec<Note>) -> NoteStore {
    NoteStore { notes, links: vec![], versions: vec![], files: vec![] }
}

#[test]
fn delete_note_removes_whole_subtree() {
    let mut s = notes_store(vec![
        note("folder", "folder", "", None, true),
        note("child", "child", "", Some("folder"), true),
        note("grandchild", "grandchild", "", Some("child"), false),
        note("sibling", "sibling", "", None, false),
    ]);
    let link = |a: &str, b: &str| StoredLink {
        source_id: a.to_string(),
        target_id: b.to_string(),
        context: String::new(),
    };
    s.links = vec![link("sibling", "child"), link("sibling", "sibling")];
    assert!(delete_note(&mut s, "folder").is_ok());
    assert_eq!(s.notes.len(), 1);
    assert_eq!(s.notes[0].id, "sibling");
    assert_eq!(s.links.len(), 1);
    assert_eq!(s.links[0].target_id, "sibling");
}

#[test]
fn system_folder_can_neither_go_nor_move() {
    let mut folder = note("lib", "我的图书馆", "", None, true);
    folder.is_system = 1;
    let mut s = notes_store(vec![folder, note("n", "N", "", None, false)]);
    assert_eq!(delete_note(&mut s, "lib").err().unwrap(), "不能删除系统目录「我的图书馆」");
    let x = Some("n".to_string());
    assert_eq!(
        move_note(&mut s.notes, "lib", &x, None, "later").err().unwrap(),
        "不能移动系统目录「我的图书馆」"
    );
    assert!(move_note(&mut s.notes, "lib", &None, None, "later").is_ok());
    assert_eq!(
        move_note(&mut s.notes, "x", &None, None, "later").err().unwrap(),
        "note not found: x"
    );
    let lib = Some("lib".to_string());
    assert_eq!(move_note(&mut s.notes, "n", &lib, Some(4), "later").ok(), Some(1));
    assert_eq!(s.notes[1].parent_id, lib);
    assert_eq!(s.notes[1].sort_order, 4);
    assert_eq!(s.notes[1].updated_at, "later");
}

#[test]
fn written_notes_are_linked() {
    let mut s = notes_store(vec![note("b", "B", "", None, false)]);
    let k = add_note(&mut s, note("a", "A", "to [[B]] and [[nowhere]]", None, false));
    assert_eq!(k, 1);
    assert_eq!(s.links.len(), 1);
    assert_eq!(s.links[0].target_id, "b");
    let mut edit = NoteEdit {
        title: None,
        content: Some("to [[A]]".to_string()),
        paper_id: None,
        aliases: None,
        is_favorite: None,
        touch: None,
    };
    assert_eq!(edit_note(&mut s, "a", &edit, "later").ok(), Some(1));
    assert_eq!(s.links.len(), 1);
    assert_eq!(s.links[0].target_id, "a");
    edit.content = None;
    edit.is_favorite = Some(1);
    assert!(edit_note(&mut s, "a", &edit, "later").is_ok());
    assert_eq!(s.links.len(), 1);
    assert_eq!(edit_note(&mut s, "x", &edit, "later").err().unwrap(), "note not found: x");
}

#[test]
fn edits_change_what_they_say() {
    let n = note("n1", "T", "old #a", None, false);
    let edit = NoteEdit {
        title: None,
        content: Some("new #b".to_string()),
        paper_id: None,
        aliases: None,
        is_favorite: None,
        touch: None,
    };
    let r = update_note(&n, &edit, "later").ok().unwrap();
    assert_eq!(r.title, "T");
    assert_eq!(r.content, "new #b");
    assert_eq!(r.updated_at, "later");
}

#[test]
fn links_follow_titles() {
    let notes = vec![
        TitledNote { id: "n2".to_string(), title: "B".to_string() },
        TitledNote { id: "n3".to_string(), title: "C".to_string() },
    ];
    let targets = vec!["B".to_string(), "missing".to_string(), "B".to_string()];
    let links = update_note_links(&vec![], &notes, "n1", &targets);
    assert_eq!(links.len(), 1);
    assert_eq!(links[0].target_id, "n2");
    assert_eq!(links[0].context, "B");
    // Writing again replaces the links of the note.
    let links = update_note_links(&links, &notes, "n1", &vec!["C".to_string()]);
    assert_eq!(links.len(), 1);
    assert_eq!(links[0].target_id, "n3");
}

fn excerpt(text: &str, id: &str) -> NewExcerpt {
    NewExcerpt {
        paper_id: "p1".to_string(),
        paper_title: Some("Paper".to_string()),
        text: text.to_string(),
        vault_id: "v".to_string(),
        note_id: id.to_string(),
    }
}

fn folder_ids() -> Vec<String> {
    (0..32).map(|i| format!("f{i}")).collect()
}

#[test]
fn excerpts_gather_in_one_note() {
    assert_eq!(excerpt_content("a", "b"), "a\n\n---\n\nb");
    let mut s = notes_store(vec![]);
    let ids = folder_ids();
    let none = vec![];
    let x = excerpt("a #t", "e1");
    let root = system_library_folder_id("v");
    assert_eq!(add_excerpt_to_paper(&mut s, &vec![], &none, &x, &ids, NOW), 1);
    assert_eq!(s.notes[0].id, root);
    assert_eq!(s.notes[1].title, "Paper");
    assert_eq!(s.notes[1].is_excerpt, 1);
    assert_eq!(s.notes[1].parent_id, Some(root));
    let y = excerpt("b", "e2");
    assert_eq!(add_excerpt_to_paper(&mut s, &vec![], &none, &y, &ids, "later"), 1);
    assert_eq!(s.notes.len(), 2);
    assert_eq!(s.notes[1].content, "a #t\n\n---\n\nb");
    assert_eq!(s.notes[1].updated_at, "later");
}

#[test]
fn merging_needs_a_fitting_note() {
    let mut s = notes_store(vec![note("n1", "T", "text", None, false)]);
    let ids = folder_ids();
    let none = vec![];
    let mut merge = |s: &mut NoteStore, id: &str| {
        merge_note_into_paper_note(s, &vec![], &none, id, excerpt("", "e1"), &ids, NOW)
    };
    assert_eq!(merge(&mut s, "x").err().unwrap(), "note not found: x");
    assert_eq!(merge(&mut s, "n1").err().unwrap(), "笔记与文献不匹配");
    s.notes[0].paper_id = Some("p1".to_string());
    s.notes[0].content = "  ".to_string();
    assert_eq!(merge(&mut s, "n1").err().unwrap(), "笔记内容为空，无需合并");
    s.notes[0].is_excerpt = 1;
    assert_eq!(merge(&mut s, "n1").err().unwrap(), "该笔记已是摘录笔记");
    s.notes[0].is_excerpt = 0;
    s.notes[0].content = "text".to_string();
    assert_eq!(merge(&mut s, "n1").ok().as_deref(), Some("e1"));
    assert_eq!(s.notes.len(), 2);
    assert_eq!(s.notes[0].id, system_library_folder_id("v"));
    assert_eq!(s.notes[1].id, "e1");
    assert_eq!(s.notes[1].content, "text");
}

#[test]
fn collection_folders_are_reused() {
    let made = ensure_collection_folder(&vec![], "v1", &None, "Papers", "c1", "f1", NOW)
        .err()
        .unwrap();
    assert_eq!(made.title, "Papers");
    assert_eq!(made.source_collection_id.as_deref(), Some("c1"));
    let again = ensure_collection_folder(&vec![made], "v1", &None, "Papers", "c1", "f2", NOW);
    assert_eq!(again.ok(), Some(0));
}

#[test]
fn import_vault_is_idempotent() {
    let source = |pdf: &[u8]| VaultSource {
        dirs: vec!["sub".to_string()],
        notes: vec![
            NoteFile {
                rel: "a.md".to_string(),
                content: "---\ntags:\n  - t1\n---\n\nhello [[a]]".to_string(),
            },
            NoteFile { rel: "sub/b.md".to_string(), content: "world".to_string() },
        ],
        files: vec![AssetFile { rel: "sub/doc.pdf".to_string(), bytes: pdf.to_vec() }],
        unreadable: vec!["sub/locked.bin".to_string()],
    };
    let ids = |s: &str| vec![s.to_string()];
    let mut files: Vec<StoredFile> = vec![];

    // First import: everything is new.
    let first = source(b"%PDF-fake");
    let r1 = import_vault(&vec![], &vec![], &mut files, &first, &ids("d1"), &ids("f1"), NOW);
    assert_eq!(r1.counts.imported, 2);
    assert_eq!(r1.counts.files_imported, 1);
    assert_eq!(r1.counts.unchanged, 0);
    assert_eq!(r1.counts.skipped, 1);
    let told: Vec<(usize, usize, &str)> =
        r1.progress.iter().map(|p| (p.current, p.total, p.name.as_str())).collect();
    assert_eq!(
        told,
        vec![(1, 5, "sub"), (2, 5, "a"), (3, 5, "b"), (4, 5, "doc.pdf"), (5, 5, "locked.bin")]
    );
    assert_eq!(files[0].id, "f1");
    assert_eq!(files[0].size, 9);
    assert_eq!(files[0].mime_type.as_deref(), Some("application/pdf"));

    let folders: Vec<FolderRow> = r1
        .folders
        .into_iter()
        .map(|f| FolderRow { parent_id: f.parent_id, title: f.title, id: f.id })
        .collect();
    let notes: Vec<StoredNote> = r1
        .notes
        .into_iter()
        .map(|n| StoredNote { parent_id: n.parent_id, title: n.title, content: n.content })
        .collect();
    assert!(matches!(
        folder_step(&folders, &vec![], "sub"),
        FolderStep::Reuse(id) if id == "d1"
    ));

    // Second import of the unchanged directory: nothing new, nothing duplicated.
    let r2 = import_vault(&folders, &notes, &mut files, &first, &ids("d2"), &ids("f2"), NOW);
    assert_eq!(r2.counts.imported, 0);
    assert_eq!(r2.counts.files_imported, 0);
    assert_eq!(r2.counts.unchanged, 3); // 2 notes + 1 file
    assert_eq!(folders.len() + r2.folders.len() + notes.len() + r2.notes.len(), 3);
    assert_eq!(files.len(), 1);

    // Changed file content updates the blob in place (stable file id).
    let changed = source(b"%PDF-v2");
    let r3 = import_vault(&folders, &notes, &mut files, &changed, &ids("d3"), &ids("f3"), NOW);
    assert_eq!(r3.counts.files_imported, 1);
    assert_eq!(r3.counts.unchanged, 2); // 2 notes unchanged
    assert_eq!(files.len(), 1);
    assert_eq!(files[0].id, "f1");
    assert_eq!(files[0].size, 7);
}

#[test]
fn imported_notes_keep_their_dates() {
    let text = "---\nupdated: 2020-01-01T00:00:00Z\naliases:\n  - x\n---\nbody";
    match note_step(&vec![], &vec![], "n.md", text, NOW) {
        NoteStep::Create(n) => {
            assert_eq!(n.title, "n");
            assert_eq!(n.content, "body");
            assert_eq!(n.aliases.as_deref(), Some("[\"x\"]"));
            assert_eq!(n.updated_at, "2020-01-01T00:00:00Z");
            assert_eq!(n.created_at, NOW);
        }
        NoteStep::Unchanged => panic!("the note is new"),
    }
}

#[test]
fn single_steps_are_counted() {
    let (placed, new) = place_folders(&vec![], &vec!["sub".to_string()], &vec!["d".to_string()]);
    assert_eq!(new.len(), 1);
    let mut counts = ImportCounts::new();
    counts.count_note(&note_step(&vec![], &placed, "a.md", "x", NOW));
    assert!(matches!(
        file_step(&vec![], &placed, "sub/doc.pdf", b"x"),
        FileStep::Create(Some(p), n, _) if p == "d" && n == "doc.pdf"
    ));
    counts.count_file(Some(true));
    counts.count_file(None);
    assert_eq!((counts.imported, counts.files_imported, counts.skipped), (1, 1, 1));
}

#[test]
fn notes_below_unknown_folders_are_placed_at_the_top() {
    let placed = vec![Placed { rel: "x".to_string(), id: "1".to_string() }];
    match note_step(&vec![], &placed, "x/n.md", "t", NOW) {
        NoteStep::Create(n) => assert_eq!(n.parent_id.as_deref(), Some("1")),
        NoteStep::Unchanged => panic!("the note is new"),
    }
}

#[test]
fn frontmatter_round_trip() {
    let aliases = vec!["al".to_string()];
    let tags = vec!["t1".to_string(), "t2".to_string()];
    let text = markdown_text("2026-01-01", "2026-01-02", &aliases, &tags, "body");
    let (front, body) = parse_frontmatter(&text);
    let front = front.unwrap();
    assert_eq!(front.aliases, aliases);
    assert_eq!(front.tags, tags);
    assert_eq!(front.created_at.as_deref(), Some("2026-01-01"));
    assert_eq!(body.trim_start_matches('\n'), "body");
    let (none, whole) = parse_frontmatter("plain");
    assert!(none.is_none());
    assert_eq!(whole, "plain");
}

#[test]
fn exported_files_do_not_collide() {
    let notes = vec![note("1", "Same", "a", None, false), note("2", "Same", "b", None, false)];
    let files = export_vault(&notes, &vec![]);
    assert_eq!(files.len(), 2);
    assert_ne!(files[0].path, files[1].path);
    assert_eq!(sanitize_filename("a/b"), sanitize_filename("a:b"));
    assert_eq!(split_csv("[a, \"b\"]").len(), 2);
    let taken = vec![unique_path(&vec![], "d", "x")];
    assert_ne!(unique_path(&taken, "d", "x"), taken[0]);
}

#[test]
fn vaults_have_a_default() {
    let mut vaults = vec![];
    let mut settings: Vec<Setting> = vec![];
    assert_eq!(get_current_vault_id(&settings), default_vault_id());
    ensure_defaults(&mut vaults, &mut settings, NOW);
    assert_eq!(vaults.len(), 1);
    assert_eq!(vaults[0].id, default_vault_id());
    ensure_defaults(&mut vaults, &mut settings, "later");
    assert_eq!(vaults.len(), 1);
    assert_eq!(
        get_setting(&settings, "notes.current_vault_id").as_deref(),
        Some(default_vault_id())
    );
    assert_eq!(
        set_current_vault_id(&vaults, &mut settings, "nope", NOW).err().unwrap(),
        "vault not found: nope"
    );
    assert!(create_vault(&mut vaults, "cognitive-archive", "x", NOW).is_err());
    assert!(create_vault(&mut vaults, "  ", "x", NOW).is_err());
    let mut s = notes_store(vec![note("n1", "T", "", None, false)]);
    s.notes[0].vault_id = "w".to_string();
    let id = default_vault_id();
    assert_eq!(
        delete_vault(&mut vaults, &mut s, &mut settings, id, NOW).err().unwrap(),
        "不能删除最后一个库"
    );
    assert_eq!(create_vault(&mut vaults, " work ", "w", NOW).ok(), Some(1));
    assert_eq!(vaults[1].name, "work");
    assert_eq!(rename_vault(&mut vaults, "w", " play ", "later").ok(), Some(1));
    assert_eq!(vaults[1].name, "play");
    assert_eq!(rename_vault(&mut vaults, "w", "  ", NOW).err().unwrap(), "库名称不能为空");
    assert_eq!(rename_vault(&mut vaults, "z", "y", NOW).err().unwrap(), "vault not found: z");
    assert!(set_current_vault_id(&vaults, &mut settings, "w", NOW).is_ok());
    assert!(delete_vault(&mut vaults, &mut s, &mut settings, "w", NOW).is_ok());
    assert_eq!(vaults.len(), 1);
    assert!(s.notes.is_empty());
    assert_eq!(get_setting(&settings, "notes.current_vault_id").as_deref(), Some(id));
}

fn stamp(now: &str, threshold: &str, id: &str) -> Stamp {
    Stamp {
        now: now.to_string(),
        threshold: threshold.to_string(),
        version_id: id.to_string(),
    }
}

fn store(id: &str) -> MemoryStore {
    MemoryStore { session_id: id.to_string(), memory: None, versions: vec![] }
}

#[test]
fn crud_and_active_content() {
    let mut s = store("s1");
    assert!(s.memory.is_none());
    assert!(s.active_content().is_none());

    s.set_content("用户偏好简洁回答", &stamp("t1", "t0", "v1"));
    let m = s.memory.as_ref().unwrap();
    assert_eq!(m.content, "用户偏好简洁回答");
    assert!(m.active, "new memories default to active");
    assert_eq!(s.active_content().as_deref(), Some("用户偏好简洁回答"));

    // Writing keeps the flag.
    s.set_active(false, "t2");
    s.set_content("更新后的记忆", &stamp("t3", "t2", "v2"));
    let m = s.memory.as_ref().unwrap();
    assert_eq!(m.content, "更新后的记忆");
    assert!(!m.active, "content update must preserve the active flag");
    assert!(s.active_content().is_none());

    // Setting the flag of a session without a memory makes an empty one.
    let mut other = store("s2");
    other.set_active(true, "t1");
    assert_eq!(other.memory.as_ref().unwrap().content, "");
    assert!(other.active_content().is_none());

    // Paragraphs gather.
    s.append("新增经验", &stamp("t4", "t3", "v3"));
    assert_eq!(s.memory.as_ref().unwrap().content, "更新后的记忆\n\n新增经验");
}

#[test]
fn updates_snapshot_previous_content_throttled() {
    let mut s = store("s1");
    // The first write has nothing to keep.
    s.set_content("v1", &stamp("2026-01-01T00:00:00.000Z", "2025-12-31T23:50:00.000Z", "a"));
    assert!(s.versions.is_empty());

    // The second keeps what was there.
    s.set_content("v2", &stamp("2026-01-01T00:00:01.000Z", "2025-12-31T23:50:01.000Z", "b"));
    assert_eq!(s.versions.len(), 1);
    assert_eq!(s.versions[0].content, "v1");
    assert_eq!(s.versions[0].edited_by, "user");

    // More writes right behind it keep nothing.
    s.set_content("v3", &stamp("2026-01-01T00:00:02.000Z", "2025-12-31T23:50:02.000Z", "c"));
    s.set_content("v4", &stamp("2026-01-01T00:00:03.000Z", "2025-12-31T23:50:03.000Z", "d"));
    assert_eq!(s.versions.len(), 1);

    // Nor does a write that changes nothing.
    s.set_content("v4", &stamp("2026-01-01T01:00:00.000Z", "2026-01-01T00:50:00.000Z", "e"));
    assert_eq!(s.versions.len(), 1);
}

#[test]
fn restore_force_snapshots_current_and_applies_version() {
    let mut s = store("s1");
    s.set_content("v1", &stamp("t1", "t0", "a"));
    s.set_content("v2", &stamp("t2", "t1", "b"));
    let id = s.versions[0].id.clone();
    assert_eq!(s.versions[0].content, "v1");
    assert!(s.restore(&id, &stamp("t3", "t0", "c"), "d").is_ok());
    assert_eq!(s.memory.as_ref().unwrap().content, "v1");
    // What was there is kept, though the last version is new.
    assert_eq!(s.versions.len(), 2);
    assert!(s.versions.iter().any(|v| v.content == "v2" && v.edited_by == "restore"));

    // Versions of another memory are refused.
    let mut other = store("s2");
    other.set_content("other", &stamp("t4", "t3", "e"));
    assert!(other.restore(&id, &stamp("t5", "t4", "f"), "g").is_err());
    assert!(check_version_owner("s1", "s2").is_err());
    assert!(check_version_owner("s1", "s1").is_ok());
}

#[test]
fn graphs_hold_linked_notes() {
    let row = |id: &str, title: &str| TitledRow {
        id: id.to_string(),
        title: title.to_string(),
        refers_to: None,
    };
    let notes = vec![row("a", "A"), row("b", "B"), row("c", "C")];
    let links = vec![
        LinkRow { source: "a".to_string(), target: "b".to_string() },
        LinkRow { source: "b".to_string(), target: "c".to_string() },
    ];
    let g = build_graph(&vec![], &notes, &links, &vec![], 10);
    assert_eq!(g.nodes.len(), 3);
    assert_eq!(g.edges.len(), 2);
    let near = build_local_graph(&notes, &links, "a", 1);
    assert_eq!(near.nodes.len(), 2);
    let far = build_local_graph(&notes, &links, "a", 2);
    assert_eq!(far.nodes.len(), 3);
}

#[test]
fn folders_are_made_from_the_top() {
    let source = VaultSource {
        dirs: ["a/b/c", "z", "a/b", "a"].iter().map(|d| d.to_string()).collect(),
        notes: vec![NoteFile { rel: "a/b/c/n.md".to_string(), content: "text".to_string() }],
        files: vec![],
        unreadable: vec![],
    };
    let ids: Vec<String> = (0..4).map(|i| format!("d{i}")).collect();
    let r = import_vault(&vec![], &vec![], &mut vec![], &source, &ids, &vec![], NOW);
    let made: Vec<(&str, Option<&str>)> =
        r.folders.iter().map(|f| (f.title.as_str(), f.parent_id.as_deref())).collect();
    assert_eq!(
        made,
        vec![("z", None), ("a", None), ("b", Some("d1")), ("c", Some("d2"))]
    );
    assert_eq!(r.notes[0].parent_id.as_deref(), Some("d3"));
    let told: Vec<&str> = r.progress.iter().map(|p| p.name.as_str()).collect();
    assert_eq!(told, vec!["z", "a", "b", "c", "n"]);
}
