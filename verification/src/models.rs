//! The records that the services exchange with the database and with the user interface.
use vstd::prelude::*;

verus! {

/// A paper of the library. `authors`, `keywords` and `editor` hold JSON arrays of strings.
#[derive(Clone, Debug)]
pub struct Paper {
    pub id: String,
    pub title: String,
    pub authors: String,
    pub year: Option<i32>,
    pub journal: Option<String>,
    pub doi: Option<String>,
    pub url: Option<String>,
    pub abstract_text: Option<String>,
    pub keywords: String,
    pub citation_key: Option<String>,
    pub bibtex: Option<String>,
    pub file_path: Option<String>,
    pub file_size: Option<i64>,
    pub page_count: Option<i32>,
    pub language: Option<String>,
    pub item_type: Option<String>,
    pub volume: Option<String>,
    pub issue: Option<String>,
    pub pages: Option<String>,
    pub conference_name: Option<String>,
    pub publisher: Option<String>,
    pub place: Option<String>,
    pub editor: String,
    pub series: Option<String>,
    pub edition: Option<String>,
    pub isbn: Option<String>,
    pub issn: Option<String>,
    pub num_pages: Option<i32>,
    pub archive_location: Option<String>,
    pub call_number: Option<String>,
    pub rights: Option<String>,
    pub deleted_at: Option<String>,
    pub is_favorite: i64,
    pub read_status: String,
    pub last_read_at: Option<String>,
    pub created_at: String,
    pub updated_at: String,
    pub imported_at: String,
}

/// What a caller says of a paper that is to be stored.
#[derive(Clone, Debug)]
pub struct PaperInput {
    pub title: String,
    pub authors: Vec<String>,
    pub year: Option<i32>,
    pub journal: Option<String>,
    pub doi: Option<String>,
    pub url: Option<String>,
    pub abstract_text: Option<String>,
    pub keywords: Vec<String>,
    pub item_type: Option<String>,
    pub volume: Option<String>,
    pub issue: Option<String>,
    pub pages: Option<String>,
    pub conference_name: Option<String>,
    pub publisher: Option<String>,
    pub place: Option<String>,
    pub editor: Vec<String>,
    pub series: Option<String>,
    pub edition: Option<String>,
    pub isbn: Option<String>,
    pub issn: Option<String>,
    pub language: Option<String>,
    pub num_pages: Option<i32>,
    pub archive_location: Option<String>,
    pub call_number: Option<String>,
    pub rights: Option<String>,
}

/// A label for papers.
#[derive(Clone, Debug)]
pub struct Tag {
    pub id: String,
    pub name: String,
    pub color: String,
    pub parent_id: Option<String>,
    pub created_at: String,
    /// Number of papers associated with this tag.
    pub paper_count: i64,
}

/// A folder of papers.
#[derive(Clone, Debug)]
pub struct Collection {
    pub id: String,
    pub name: String,
    pub parent_id: Option<String>,
    pub sort_order: i32,
    pub created_at: String,
}

/// A note, or a folder of notes. `tags` and `aliases` hold JSON arrays of strings.
#[derive(Clone, Debug)]
pub struct Note {
    pub id: String,
    pub vault_id: String,
    pub paper_id: Option<String>,
    pub title: String,
    pub content: String,
    pub content_plain: String,
    pub tags: String,
    pub aliases: String,
    pub is_favorite: i32,
    pub is_folder: i32,
    pub is_system: i32,
    pub source_collection_id: Option<String>,
    pub is_excerpt: i32,
    pub agent_edited_at: Option<String>,
    pub agent_edit_count: i32,
    pub parent_id: Option<String>,
    pub sort_order: i32,
    pub is_literature_note: i32,
    pub created_at: String,
    pub updated_at: String,
}

/// Obsidian-style note vault: a named namespace for notes.
#[derive(Clone, Debug)]
pub struct Vault {
    pub id: String,
    pub name: String,
    pub created_at: String,
    pub updated_at: String,
}

/// A vault-managed file (PDF/Word/Excel/image/...) shown in the note tree
/// alongside notes and folders. Content lives in the blob store; `name` is
/// the display name and can change without touching the blob.
#[derive(Clone, Debug)]
pub struct FileItem {
    pub id: String,
    pub vault_id: String,
    pub parent_id: Option<String>,
    pub name: String,
    pub blob_path: String,
    pub size: i64,
    pub mime_type: Option<String>,
    pub sort_order: i32,
    pub created_at: String,
    pub updated_at: String,
}

/// Text preview of a managed file (`files_read_text`). `truncated` is true
/// when the file exceeded the preview size cap.
#[derive(Clone, Debug)]
pub struct TextPreview {
    pub content: String,
    pub truncated: bool,
}

/// A snapshot of a note captured before an AI edit (version history).
#[derive(Clone, Debug)]
pub struct NoteVersion {
    pub id: String,
    pub note_id: String,
    pub title: String,
    pub content: String,
    pub edited_by: String,
    pub created_at: String,
}

/// A conversation with an agent.
#[derive(Clone, Debug)]
pub struct ChatSession {
    pub id: String,
    pub title: String,
    pub mode: String,
    pub paper_ids: String,
    pub agent_mode: String,
    pub project_id: Option<String>,
    pub working_dir: Option<String>,
    pub vision_provider_id: Option<String>,
    pub web_proxy: Option<String>,
    pub tools_enabled: String,
    pub system_prompt: Option<String>,
    pub llm_models: Option<String>,
    pub llm_provider_ids: Option<String>,
    pub approval_config: Option<String>,
    pub max_loops: Option<i32>,
    pub max_tokens: Option<i32>,
    pub max_memory_rounds: Option<i32>,
    pub memory_file_path: Option<String>,
    pub memory_dir: Option<String>,
    pub skills_dir: Option<String>,
    pub is_pinned: Option<i32>,
    pub sort_order: Option<i32>,
    pub icon: Option<String>,
    pub color: Option<String>,
    pub domain: Option<String>,
    pub context: Option<String>,
    pub created_at: String,
    pub updated_at: String,
}

/// One message of a conversation.
#[derive(Clone, Debug)]
pub struct ChatMessage {
    pub id: String,
    pub session_id: String,
    pub role: String,
    pub content: String,
    pub reasoning_content: Option<String>,
    pub tool_calls: Option<String>,
    pub tool_call_id: Option<String>,
    pub tool_name: Option<String>,
    pub citations: Option<String>,
    pub model: Option<String>,
    pub tokens_used: Option<i32>,
    pub tokens_in: Option<i32>,
    pub tokens_in_hit: Option<i32>,
    pub tokens_out: Option<i32>,
    pub attachments: Option<String>,
    pub created_at: String,
}

/// A Codex-style project: a local folder the agent works in.
#[derive(Clone, Debug)]
pub struct Project {
    pub id: String,
    pub name: String,
    pub path: String,
    /// Hidden from the sidebar, but kept.
    pub archived: bool,
    pub created_at: String,
    pub updated_at: String,
}

/// Input for creating/updating a project.
#[derive(Clone, Debug)]
pub struct ProjectInput {
    pub name: Option<String>,
    pub path: Option<String>,
    /// Whether the directory becomes a repository.
    pub git_init: Option<bool>,
}

/// A scheduled agent prompt (cron job).
#[derive(Clone, Debug)]
pub struct CronJob {
    pub id: String,
    pub session_id: String,
    pub cron: String,
    pub prompt: String,
    pub recurring: bool,
    pub created_at: String,
    pub updated_at: String,
}

/// Input for creating a cron job.
#[derive(Clone, Debug)]
pub struct CronJobInput {
    pub session_id: String,
    pub cron: String,
    pub prompt: String,
    pub recurring: Option<bool>,
}

/// One ReAct iteration for an agent session.
#[derive(Clone, Debug)]
pub struct AgentStep {
    pub id: String,
    pub session_id: String,
    pub message_id: Option<String>,
    pub step_index: i32,
    pub reasoning_content: Option<String>,
    pub tool_calls: Option<String>,
    pub created_at: String,
}

/// What a listing of papers is narrowed and ordered by.
#[derive(Clone, Debug)]
pub struct ListPapersParams {
    pub search: Option<String>,
    pub collection_id: Option<String>,
    pub tag_ids: Option<Vec<String>>,
    pub tag_logic: Option<String>,
    pub sort_by: Option<String>,
    pub sort_order: Option<String>,
    pub limit: Option<i64>,
    pub offset: Option<i64>,
    /// When true, list only trashed papers (deleted_at IS NOT NULL);
    /// default lists only active papers.
    pub include_deleted: Option<bool>,
    /// Year range filter (inclusive).
    pub year_from: Option<i32>,
    pub year_to: Option<i32>,
    /// Journal filter (case-insensitive substring).
    pub journal: Option<String>,
    /// When true, list only favorited papers.
    pub is_favorite: Option<bool>,
    /// Read-status filter: "unread" | "read" | "in_progress".
    pub read_status: Option<String>,
    /// List papers related to this paper id.
    pub related_to: Option<String>,
}

/// A saved (named) advanced search, stored device-locally.
#[derive(Clone, Debug)]
pub struct SavedSearch {
    pub id: String,
    pub name: String,
    pub params_json: String,
    pub created_at: String,
}

/// A stored setting.
#[derive(Clone, Debug)]
pub struct Setting {
    pub key: String,
    pub value: String,
    pub updated_at: String,
}

/// A stretch of the text of a paper, as it is indexed.
#[derive(Clone, Debug)]
pub struct ChunkData {
    pub id: String,
    pub paper_id: String,
    pub content: String,
    pub page_start: Option<i32>,
    pub page_end: Option<i32>,
    pub section: Option<String>,
    pub chunk_index: i32,
    pub token_count: Option<i32>,
    pub created_at: String,
}

/// One call of a tool by an agent.
#[derive(Clone, Debug)]
pub struct ToolExecution {
    pub id: String,
    pub session_id: String,
    pub message_id: Option<String>,
    pub tool_name: String,
    pub tool_input: String,
    pub tool_output: Option<String>,
    pub status: String,
    pub duration_ms: Option<i32>,
    pub created_at: String,
}

/// What a caller says of an agent session. `L` configures a model and `A` the approval of tool calls.
#[derive(Clone)]
pub struct AgentSessionInput<L, A> {
    pub title: String,
    pub agent_mode: String,
    pub tools_enabled: Vec<String>,
    pub system_prompt: Option<String>,
    /// The project this session belongs to (Codex-style project folder).
    pub project_id: Option<String>,
    /// Sandbox root for file tools; None = full disk access.
    pub working_dir: Option<String>,
    /// Optional vision (multimodal) provider for the agent.
    pub vision_provider_id: Option<String>,
    /// Per-agent web proxy for web_search/web_fetch; None = use global.
    pub web_proxy: Option<String>,
    /// Legacy embedded LLM config blocks.
    pub llm_models: Vec<L>,
    /// IDs from the `llm_providers` pool; preferred over `llm_models`.
    pub llm_provider_ids: Vec<String>,
    pub approval_config: Option<A>,
    pub max_loops: Option<i32>,
    pub max_tokens: Option<i32>,
    pub max_memory_rounds: Option<i32>,
    pub memory_dir: Option<String>,
    pub skills_dir: Option<String>,
}

/// The settings that go along when devices are synced. `L` configures a model and `A` the approval
/// of tool calls.
#[derive(Clone, Debug)]
pub struct AppSettings<L, A> {
    /// Legacy inline LLM config. Kept for backward compatibility; prefer `default_llm_provider_id`.
    pub default_llm: Option<L>,
    /// ID of the default LLM provider in the `llm_providers` pool.
    pub default_llm_provider_id: Option<String>,
    pub default_approval: A,
    pub default_max_loops: i32,
    pub default_max_tokens: i32,
    pub default_max_memory_rounds: i32,

    // ── UI features ──
    pub show_pet: bool,
    pub sidebar_order: Option<Vec<String>>,
    pub homepage: Option<String>,

    // ── Advanced truncation / limits ──
    pub log_max_size_mb: i32,
    pub log_max_files: i32,
    pub log_llm_response_preview_max_chars: i32,
    pub log_region_detection_preview_max_chars: i32,
    pub graph_node_label_max_chars: i32,
    pub region_detection_line_max_chars: i32,
    pub rag_chunk_max_chars: i32,
    pub tool_web_fetch_max_chars: i32,
    pub tool_file_read_max_chars: i32,
    pub tool_paper_read_max_chars: i32,
    /// Per-CALL total output budget for paper_read. The per-chunk cap alone is
    /// not enough — limit=50 × max_chars can dump a whole paper into the
    /// agent's context in one call.
    pub tool_paper_read_total_max_chars: i32,
    pub tool_note_read_max_chars: i32,
    pub tool_knowledge_read_max_chars: i32,

    // ── Embedding backend ──
    /// "hash" (local fallback) | "api" (OpenAI-compatible embeddings endpoint).
    pub embedding_backend: String,
    pub embedding_base_url: String,
    pub embedding_model: String,

    // ── RAG context ──
    pub rag_max_context_tokens: i32,

    // ── Research auto-discovery ──
    /// Hours between automatic scans of active topics (0 = disabled).
    pub research_auto_discover_interval_hours: i32,
    /// Max sources discovered per topic per scan.
    pub research_discover_max_results: i32,
}

/// Device-local settings. These are **not** synced across devices and may
/// contain sensitive values such as API keys.
#[derive(Clone)]
pub struct DeviceAppSettings {
    pub data_dir: Option<String>,
    pub memory_dir: Option<String>,
    pub skills_dir: Option<String>,
    pub embedding_api_key: String,
    /// Whether to sync optional data (chat_sessions, chat_messages, global settings).
    pub sync_optional_data: bool,
    /// Stable device identifier used for pairing and sync presence.
    pub device_id: String,
}

/// A field that knowledge items are filed under.
#[derive(Clone, Debug)]
pub struct KnowledgeDomain {
    pub id: String,
    pub name: String,
    pub domain_type: String,
    pub icon: Option<String>,
    pub color: String,
    pub sort_order: i32,
    pub created_at: String,
    pub updated_at: String,
}

/// A piece of knowledge.
#[derive(Clone, Debug)]
pub struct KnowledgeItem {
    pub id: String,
    pub domain_id: String,
    pub title: String,
    pub content_type: String,
    pub content: Option<String>,
    pub source_type: Option<String>,
    pub source_id: Option<String>,
    pub metadata: String,
    pub tags: String,
    pub created_at: String,
    pub updated_at: String,
}

/// A topic that is watched for new sources. `keywords` holds a JSON array of strings.
#[derive(Clone, Debug)]
pub struct ResearchTopic {
    pub id: String,
    pub name: String,
    pub description: Option<String>,
    pub keywords: String,
    pub status: String,
    pub created_at: String,
    pub updated_at: String,
}

/// What a caller says of a topic.
#[derive(Clone, Debug)]
pub struct ResearchTopicInput {
    pub name: String,
    pub description: Option<String>,
    pub keywords: Vec<String>,
}

/// A source that was found for a topic.
#[derive(Clone, Debug)]
pub struct ResearchSource {
    pub id: String,
    pub topic_id: String,
    pub source_type: String,
    pub source_id: Option<String>,
    pub title: Option<String>,
    pub authors: Option<String>,
    pub url: Option<String>,
    pub doi: Option<String>,
    pub status: String,
    pub metadata: String,
    pub discovered_at: String,
    pub processed_at: Option<String>,
}

/// A file or a directory in a listing.
#[derive(Clone, Debug)]
pub struct FileEntry {
    pub name: String,
    pub path: String,
    pub is_dir: bool,
    pub size: u64,
    pub modified_at: Option<String>,
    pub mime_type: Option<String>,
}

/// A directory that the user keeps at hand.
#[derive(Clone, Debug)]
pub struct FileBookmark {
    pub id: String,
    pub name: String,
    pub path: String,
    pub created_at: String,
}

/// A place in the application that the user keeps at hand.
#[derive(Clone, Debug)]
pub struct Bookmark {
    pub id: String,
    pub title: String,
    pub route: String,
    pub params_json: String,
    pub created_at: String,
}

/// What a caller says of a bookmark.
#[derive(Clone, Debug)]
pub struct BookmarkInput {
    pub title: String,
    pub route: String,
    pub params_json: Option<String>,
}

/// W3C Web Annotation style text quote selector: enough context to
/// re-locate the selected text in the page's text content.
#[derive(Clone, Debug)]
pub struct TextQuote {
    pub prefix: String,
    pub exact: String,
    pub suffix: String,
}

/// A mark on a page of a paper. `rect` holds its outline and `tags` a JSON array of strings.
#[derive(Clone, Debug)]
pub struct Annotation {
    pub id: String,
    pub paper_id: String,
    pub page: i64,
    pub atype: String,
    pub rect: String,
    pub color: String,
    pub text: Option<String>,
    pub note: Option<String>,
    pub tags: String,
    pub translation: Option<String>,
    pub created_at: String,
    pub updated_at: String,
}

// ---------------------------------------------------------------------------------------------
// Defaults
// ---------------------------------------------------------------------------------------------
/// What `true` stands for where a switch is left out.
pub fn default_true() -> (r: bool)
    ensures
        r,
{
    true
}

/// What a text stands for where it is left out.
pub fn default_empty_string() -> (r: String)
    ensures
        r@.len() == 0,
{
    String::new()
}

/// The pet is shown unless the user turns it off.
pub fn default_show_pet() -> (r: bool)
    ensures
        r,
{
    true
}

/// The default of the setting `embedding_backend`.
pub fn default_embedding_backend() -> (r: String)
    ensures
        r@ == "hash"@,
{
    "hash".to_owned()
}

/// The default of the setting `embedding_base_url`: nothing.
pub fn default_embedding_base_url() -> (r: String)
    ensures
        r@.len() == 0,
{
    String::new()
}

/// The default of the setting `embedding_api_key`: nothing.
pub fn default_embedding_api_key() -> (r: String)
    ensures
        r@.len() == 0,
{
    String::new()
}

/// The default of the setting `embedding_model`.
pub fn default_embedding_model() -> (r: String)
    ensures
        r@ == "text-embedding-3-small"@,
{
    "text-embedding-3-small".to_owned()
}

/// The default of the setting `rag_max_context_tokens`.
pub fn default_rag_max_context_tokens() -> (r: i32)
    ensures
        r == 4000,
{
    4000
}

/// The default of the setting `research_auto_discover_interval_hours`.
pub fn default_research_auto_discover_interval_hours() -> (r: i32)
    ensures
        r == 6,
{
    6
}

/// The default of the setting `research_discover_max_results`.
pub fn default_research_discover_max_results() -> (r: i32)
    ensures
        r == 10,
{
    10
}

/// The default of the setting `log_max_size_mb`.
pub fn default_log_max_size_mb() -> (r: i32)
    ensures
        r == 10,
{
    10
}

/// The default of the setting `log_max_files`.
pub fn default_log_max_files() -> (r: i32)
    ensures
        r == 5,
{
    5
}

/// The default of the setting `log_llm_response_preview_max_chars`.
pub fn default_log_llm_response_preview_max_chars() -> (r: i32)
    ensures
        r == 500,
{
    500
}

/// The default of the setting `log_region_detection_preview_max_chars`.
pub fn default_log_region_detection_preview_max_chars() -> (r: i32)
    ensures
        r == 300,
{
    300
}

/// The default of the setting `graph_node_label_max_chars`.
pub fn default_graph_node_label_max_chars() -> (r: i32)
    ensures
        r == 50,
{
    50
}

/// The default of the setting `region_detection_line_max_chars`.
pub fn default_region_detection_line_max_chars() -> (r: i32)
    ensures
        r == 200,
{
    200
}

/// The default of the setting `rag_chunk_max_chars`.
pub fn default_rag_chunk_max_chars() -> (r: i32)
    ensures
        r == 800,
{
    800
}

/// The default of the setting `tool_web_fetch_max_chars`.
pub fn default_tool_web_fetch_max_chars() -> (r: i32)
    ensures
        r == 10000,
{
    10000
}

/// The default of the setting `tool_file_read_max_chars`.
pub fn default_tool_file_read_max_chars() -> (r: i32)
    ensures
        r == 8000,
{
    8000
}

/// The default of the setting `tool_paper_read_max_chars`.
pub fn default_tool_paper_read_max_chars() -> (r: i32)
    ensures
        r == 500,
{
    500
}

/// The default of the setting `tool_paper_read_total_max_chars`.
pub fn default_tool_paper_read_total_max_chars() -> (r: i32)
    ensures
        r == 24000,
{
    24000
}

/// The default of the setting `tool_note_read_max_chars`.
pub fn default_tool_note_read_max_chars() -> (r: i32)
    ensures
        r == 200,
{
    200
}

/// The default of the setting `tool_knowledge_read_max_chars`.
pub fn default_tool_knowledge_read_max_chars() -> (r: i32)
    ensures
        r == 200,
{
    200
}

impl<L: Default, A: Default> Default for AppSettings<L, A> {
    /// The settings of a fresh installation.
    fn default() -> (r: Self)
        ensures
            r.default_llm is Some,
            r.default_llm_provider_id is None,
            r.default_max_loops == 10,
            r.default_max_tokens == 28000,
            r.default_max_memory_rounds == 10,
            r.show_pet,
            r.sidebar_order is None,
            r.homepage is None,
            r.log_max_size_mb == 10,
            r.log_max_files == 5,
            r.log_llm_response_preview_max_chars == 500,
            r.log_region_detection_preview_max_chars == 300,
            r.graph_node_label_max_chars == 50,
            r.region_detection_line_max_chars == 200,
            r.rag_chunk_max_chars == 800,
            r.tool_web_fetch_max_chars == 10000,
            r.tool_file_read_max_chars == 8000,
            r.tool_paper_read_max_chars == 500,
            r.tool_paper_read_total_max_chars == 24000,
            r.tool_note_read_max_chars == 200,
            r.tool_knowledge_read_max_chars == 200,
            r.embedding_backend@ == "hash"@,
            r.embedding_base_url@.len() == 0,
            r.embedding_model@ == "text-embedding-3-small"@,
            r.rag_max_context_tokens == 4000,
            r.research_auto_discover_interval_hours == 6,
            r.research_discover_max_results == 10,
    {
        AppSettings {
            default_llm: Some(L::default()),
            default_llm_provider_id: None,
            default_approval: A::default(),
            default_max_loops: 10,
            default_max_tokens: 28000,
            default_max_memory_rounds: 10,
            show_pet: default_show_pet(),
            sidebar_order: None,
            homepage: None,
            log_max_size_mb: default_log_max_size_mb(),
            log_max_files: default_log_max_files(),
            log_llm_response_preview_max_chars: default_log_llm_response_preview_max_chars(),
            log_region_detection_preview_max_chars: default_log_region_detection_preview_max_chars(),
            graph_node_label_max_chars: default_graph_node_label_max_chars(),
            region_detection_line_max_chars: default_region_detection_line_max_chars(),
            rag_chunk_max_chars: default_rag_chunk_max_chars(),
            tool_web_fetch_max_chars: default_tool_web_fetch_max_chars(),
            tool_file_read_max_chars: default_tool_file_read_max_chars(),
            tool_paper_read_max_chars: default_tool_paper_read_max_chars(),
            tool_paper_read_total_max_chars: default_tool_paper_read_total_max_chars(),
            tool_note_read_max_chars: default_tool_note_read_max_chars(),
            tool_knowledge_read_max_chars: default_tool_knowledge_read_max_chars(),
            embedding_backend: default_embedding_backend(),
            embedding_base_url: default_embedding_base_url(),
            embedding_model: default_embedding_model(),
            rag_max_context_tokens: default_rag_max_context_tokens(),
            research_auto_discover_interval_hours: default_research_auto_discover_interval_hours(),
            research_discover_max_results: default_research_discover_max_results(),
        }
    }
}

impl Default for DeviceAppSettings {
    /// The device settings of a fresh installation.
    fn default() -> (r: Self)
        ensures
            r.data_dir is None,
            r.memory_dir is None,
            r.skills_dir is None,
            r.embedding_api_key@.len() == 0,
            r.sync_optional_data,
            r.device_id@.len() == 0,
    {
        DeviceAppSettings {
            data_dir: None,
            memory_dir: None,
            skills_dir: None,
            embedding_api_key: default_embedding_api_key(),
            sync_optional_data: default_true(),
            device_id: default_empty_string(),
        }
    }
}

} // verus!
