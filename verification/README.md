# Siku

Siku keeps a library of papers, notes and research topics: it imports papers from PDFs, links,
BibTeX files and Zotero, stores notes in vaults with wiki links, reads office documents, runs skills
and scheduled prompts, and keeps its database in step between devices.

## Layout

- `src/` is the library. Its functions have contracts that Verus proves, but for the small functions
  that call into other crates, whose contracts are taken on trust.
- `tests/` runs the library on concrete values.
- `app/` is the program around it: files, the database, the network and the console.

## The library

| Part | Modules |
|---|---|
| Texts and values | `text`, `json`, `xml`, `pattern`, `digest`, `archive`, `order`, `pairs`, `paths`, `table`, `time` |
| Papers | `paper_service`, `paper_rows`, `creator_rows`, `chunk_rows`, `import_store`, `item_import`, `paper_query`, `bibtex`, `citation_export`, `batch_import`, `link_import`, `zotero_import` |
| Notes | `note_service`, `note_rows`, `note_store`, `library_folder`, `vault_service`, `vault_store`, `vault_dirs`, `vault_import`, `vault_import_run`, `tree`, `graph_service`, `timeline_service` |
| Laws | `text_laws`, `bibtex_laws`, `link_laws`, `frontmatter_laws`, `vault_import_laws`, `vault_reimport_laws`, `git_host_laws` |
| Filing | `collection_service`, `collection_store`, `tag_service`, `bookmark_service`, `annotation_service`, `project_service`, `search_service` |
| Files | `file_store`, `file_service`, `file_item_service`, `office_text`, `document_text` |
| Skills | `skills`, `skill_review` |
| Research | `research_service`, `cron_scheduler`, `agent_memory_service`, `knowledge`, `tasks` |
| The application | `db`, `sync_schema`, `sql`, `settings_service`, `llm_provider_service`, `startup`, `logger`, `navigation_guard`, `git_host`, `redact`, `error`, `models` |

Proof functions whose names begin with `law_` state what holds of the library as a whole, such as
that a second import of the same vault changes nothing, that an exported BibTeX entry is read back as
it was, or that merging two papers keeps the notes, files, tags and other rows that belonged to them.

Calls into other crates stand behind small functions marked `external_body`. The comment above each
names the function that it calls and says what is taken on trust.
