//! The library behind a research workbench.

pub mod text;
pub mod text_laws;
pub mod word_laws;
pub mod bibtex;
pub mod models;
pub mod redact;
pub mod json;
pub mod answer_laws;
pub mod citation_export;
pub mod export_laws;
pub mod bibtex_laws;
pub mod bibtex_reading_laws;
pub mod pairs;
pub mod cron_scheduler;
pub mod schedule_laws;
pub mod xml;
pub mod library_folder;
pub mod keep_laws;
pub mod list_laws;
pub mod listing_laws;
pub mod link_import;
pub mod link_laws;
pub mod record_laws;
pub mod reply_laws;
pub mod order;
pub mod opening_laws;
pub mod model_laws;
pub mod path_laws;
pub mod search_laws;
pub mod paths;
pub mod table;
pub mod sql;
pub mod paper_laws;
pub mod paper_query;
pub mod query_laws;
pub mod paper_service;
pub mod timeline_laws;
pub mod timeline_service;
pub mod vault_export_laws;
pub mod vault_service;
pub mod frontmatter_laws;
pub mod digest;
pub mod file_store;
pub mod file_service;
pub mod vault_import;
pub mod vault_content_laws;
pub mod vault_dirs;
pub mod vault_import_laws;
pub mod note_service;
pub mod note_laws;
pub mod note_rows;
pub mod note_store;
pub mod vault_store;
pub mod collection_store;
pub mod tree;
pub mod git_host;
pub mod git_host_laws;
pub mod batch_import;
pub mod graph_laws;
pub mod graph_service;
pub mod collection_laws;
pub mod collection_service;
pub mod shelf_laws;
pub mod store_laws;
pub mod tag_service;
pub mod knowledge;
pub mod agent_memory_service;
pub mod zotero_import;
pub mod zotero_laws;
pub mod archive;
pub mod office_laws;
pub mod office_text;
pub mod pattern;
pub mod review_laws;
pub mod skill_review;
pub mod skill_laws;
pub mod skills;
pub mod research_laws;
pub mod research_service;
pub mod document_text;
pub mod service_laws;
pub mod settings_service;
pub mod llm_provider_service;
pub mod db;
pub mod sync_schema;
pub mod error;
pub mod time;
pub mod tasks;
pub mod navigation_guard;
pub mod logger;
pub mod startup;
pub mod search_service;
pub mod project_service;
pub mod file_item_service;
pub mod annotation_service;
pub mod bookmark_service;
pub mod paper_rows;
pub mod creator_rows;
pub mod chunk_rows;
pub mod import_laws;
pub mod import_store;
pub mod item_import;
pub mod vault_import_run;
pub mod vault_reimport_laws;
