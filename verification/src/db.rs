//! The database: how it is brought up to date when it is opened, which of its tables are synced, and
//! how it is closed.
use vstd::prelude::*;
use vstd::string::*;

use crate::file_store::{join_path, joined};
use crate::models::Vault;
use crate::text::{
    concat2, concat3, contains, find_from, has_text, lemma_find_from, lemma_texts_push, opt_text,
    parse_i64_within, parse_signed, replace, replaced, same, texts,
};

verus! {

// ---------------------------------------------------------------------------------------------
// Which tables are synced
// ---------------------------------------------------------------------------------------------
/// The tables that are always synced.
pub open spec fn core_sync_tables() -> Seq<Seq<char>> {
    seq![
        "notes"@,
        "papers"@,
        "attachments"@,
        "annotations"@,
        "vaults"@,
        "note_versions"@,
        "note_links"@,
        "files"@,
        "tags"@,
        "paper_tags"@,
        "collections"@,
        "paper_collections"@,
        "related_papers"@,
        "bookmarks"@,
        "file_bookmarks"@,
        "saved_searches"@,
        "saved_items"@,
        "imports"@,
        "agent_memories"@,
    ]
}

/// The tables that are synced where the user wants it.
pub open spec fn optional_sync_tables() -> Seq<Seq<char>> {
    seq![
        "chat_sessions"@,
        "chat_messages"@,
        "settings"@,
    ]
}

/// The tables that are always synced.
pub fn core_tables() -> (r: Vec<String>)
    ensures
        texts(r@) == core_sync_tables(),
{
    let v = vec![
        "notes".to_owned(),
        "papers".to_owned(),
        "attachments".to_owned(),
        "annotations".to_owned(),
        "vaults".to_owned(),
        "note_versions".to_owned(),
        "note_links".to_owned(),
        "files".to_owned(),
        "tags".to_owned(),
        "paper_tags".to_owned(),
        "collections".to_owned(),
        "paper_collections".to_owned(),
        "related_papers".to_owned(),
        "bookmarks".to_owned(),
        "file_bookmarks".to_owned(),
        "saved_searches".to_owned(),
        "saved_items".to_owned(),
        "imports".to_owned(),
        "agent_memories".to_owned(),
    ];
    assert(texts(v@) =~= core_sync_tables());
    v
}

/// The tables that are synced where the user wants it.
pub fn optional_tables() -> (r: Vec<String>)
    ensures
        texts(r@) == optional_sync_tables(),
{
    let v = vec![
        "chat_sessions".to_owned(),
        "chat_messages".to_owned(),
        "settings".to_owned(),
    ];
    assert(texts(v@) =~= optional_sync_tables());
    v
}

/// The id of the default vault, which is the same on every device.
pub const DEFAULT_VAULT_ID: &'static str = "00000000-0000-0000-0000-000000000001";

// ---------------------------------------------------------------------------------------------
// Steps
// ---------------------------------------------------------------------------------------------
/// What is done beside single statements while the database is brought up to date.
#[derive(Clone, Copy, PartialEq, Eq, Structural)]
pub enum Hook {
    BackfillCreators,
    ContextBudget,
    DefaultVault,
    ChunksFts,
    FtsRebuild,
    ImportsTable,
    SyncSchema,
    CoreTables,
    SystemFolder,
    DeviceIdentity,
    OptionalTables,
}

/// A step by which the database is brought up to date: a column that is added unless it is there, a
/// statement, a renewal of the triggers of a synced table, or more than that.
pub enum InitStep {
    Column { table: String, column: String, def: String },
    Run(String),
    Refresh(String),
    Hook(Hook),
}

/// A step, read as its texts.
pub enum StepModel {
    Column { table: Seq<char>, column: Seq<char>, def: Seq<char> },
    Run(Seq<char>),
    Refresh(Seq<char>),
    Hook(Hook),
}

impl InitStep {
    /// The texts of a step.
    pub open spec fn model(self) -> StepModel {
        match self {
            InitStep::Column { table, column, def } => StepModel::Column {
                table: table@,
                column: column@,
                def: def@,
            },
            InitStep::Run(sql) => StepModel::Run(sql@),
            InitStep::Refresh(table) => StepModel::Refresh(table@),
            InitStep::Hook(h) => StepModel::Hook(h),
        }
    }
}

/// The texts of steps.
pub open spec fn step_models(v: Seq<InitStep>) -> Seq<StepModel> {
    Seq::new(v.len(), |i: int| v[i].model())
}

/// A column that is added unless it is there.
pub open spec fn column(table: Seq<char>, column: Seq<char>, def: Seq<char>) -> StepModel {
    StepModel::Column { table, column, def }
}

fn new_column(table: &str, column: &str, def: &str) -> (r: InitStep)
    ensures
        r.model() == self::column(table@, column@, def@),
{
    InitStep::Column { table: table.to_owned(), column: column.to_owned(), def: def.to_owned() }
}

/// Columns of papers and of what belongs to them, and the creators.
pub open spec fn library_steps() -> Seq<StepModel> {
    seq![
        column("sync_outbox"@, "message_id"@, "TEXT"@),
        column("annotations"@, "tags"@, "TEXT DEFAULT '[]'"@),
        column("annotations"@, "translation"@, "TEXT"@),
        column("papers"@, "deleted_at"@, "TEXT"@),
        column("papers"@, "is_favorite"@, "INTEGER NOT NULL DEFAULT 0"@),
        column("papers"@, "read_status"@, "TEXT NOT NULL DEFAULT 'unread'"@),
        column("papers"@, "last_read_at"@, "TEXT"@),
        StepModel::Hook(Hook::BackfillCreators),
    ]
}

fn list_library_steps() -> (r: Vec<InitStep>)
    ensures
        step_models(r@) == library_steps(),
{
    let v = vec![
        new_column("sync_outbox", "message_id", "TEXT"),
        new_column("annotations", "tags", "TEXT DEFAULT '[]'"),
        new_column("annotations", "translation", "TEXT"),
        new_column("papers", "deleted_at", "TEXT"),
        new_column("papers", "is_favorite", "INTEGER NOT NULL DEFAULT 0"),
        new_column("papers", "read_status", "TEXT NOT NULL DEFAULT 'unread'"),
        new_column("papers", "last_read_at", "TEXT"),
        InitStep::Hook(Hook::BackfillCreators),
    ];
    assert(step_models(v@) =~= library_steps());
    v
}

/// Columns of conversations and their messages.
pub open spec fn chat_steps() -> Seq<StepModel> {
    seq![
        column("chat_messages"@, "reasoning_content"@, "TEXT"@),
        column("chat_messages"@, "tokens_in"@, "INTEGER"@),
        column("chat_messages"@, "tokens_in_hit"@, "INTEGER"@),
        column("chat_messages"@, "tokens_out"@, "INTEGER"@),
        column("chat_messages"@, "attachments"@, "TEXT"@),
        column("chat_sessions"@, "llm_models"@, "TEXT"@),
        column("chat_sessions"@, "approval_config"@, "TEXT"@),
        column("chat_sessions"@, "max_loops"@, "INTEGER DEFAULT 10"@),
        column("chat_sessions"@, "max_tokens"@, "INTEGER DEFAULT 28000"@),
        StepModel::Hook(Hook::ContextBudget),
        column("chat_sessions"@, "max_memory_rounds"@, "INTEGER DEFAULT 10"@),
        column("chat_sessions"@, "memory_file_path"@, "TEXT"@),
        column("chat_sessions"@, "is_pinned"@, "INTEGER DEFAULT 0"@),
        column("chat_sessions"@, "sort_order"@, "INTEGER DEFAULT 0"@),
        column("chat_sessions"@, "icon"@, "TEXT"@),
        column("chat_sessions"@, "color"@, "TEXT"@),
        StepModel::Refresh("chat_sessions"@),
        StepModel::Run("UPDATE chat_sessions SET approval_config = NULL WHERE domain IS NOT NULL AND approval_config = '{\"mode\":\"manual\"}'"@),
    ]
}

fn list_chat_steps() -> (r: Vec<InitStep>)
    ensures
        step_models(r@) == chat_steps(),
{
    let v = vec![
        new_column("chat_messages", "reasoning_content", "TEXT"),
        new_column("chat_messages", "tokens_in", "INTEGER"),
        new_column("chat_messages", "tokens_in_hit", "INTEGER"),
        new_column("chat_messages", "tokens_out", "INTEGER"),
        new_column("chat_messages", "attachments", "TEXT"),
        new_column("chat_sessions", "llm_models", "TEXT"),
        new_column("chat_sessions", "approval_config", "TEXT"),
        new_column("chat_sessions", "max_loops", "INTEGER DEFAULT 10"),
        new_column("chat_sessions", "max_tokens", "INTEGER DEFAULT 28000"),
        InitStep::Hook(Hook::ContextBudget),
        new_column("chat_sessions", "max_memory_rounds", "INTEGER DEFAULT 10"),
        new_column("chat_sessions", "memory_file_path", "TEXT"),
        new_column("chat_sessions", "is_pinned", "INTEGER DEFAULT 0"),
        new_column("chat_sessions", "sort_order", "INTEGER DEFAULT 0"),
        new_column("chat_sessions", "icon", "TEXT"),
        new_column("chat_sessions", "color", "TEXT"),
        InitStep::Refresh("chat_sessions".to_owned()),
        InitStep::Run("UPDATE chat_sessions SET approval_config = NULL WHERE domain IS NOT NULL AND approval_config = '{\"mode\":\"manual\"}'".to_owned()),
    ];
    assert(step_models(v@) =~= chat_steps());
    v
}

/// Language models, the steps of agents, projects and jobs.
pub open spec fn agent_steps() -> Seq<StepModel> {
    seq![
        StepModel::Run("CREATE TABLE IF NOT EXISTS llm_providers (id TEXT PRIMARY KEY, name TEXT NOT NULL, provider TEXT NOT NULL, model TEXT NOT NULL, api_key TEXT NOT NULL DEFAULT '', base_url TEXT NOT NULL, proxy TEXT, max_tokens INTEGER DEFAULT 4096, temperature REAL DEFAULT 0.7, extra_body TEXT, is_default INTEGER DEFAULT 0, sort_order INTEGER DEFAULT 0, created_at TEXT NOT NULL, updated_at TEXT NOT NULL)"@),
        StepModel::Run("CREATE INDEX IF NOT EXISTS idx_llm_providers_default ON llm_providers(is_default)"@),
        column("chat_sessions"@, "llm_provider_ids"@, "TEXT"@),
        column("chat_sessions"@, "memory_dir"@, "TEXT"@),
        column("chat_sessions"@, "skills_dir"@, "TEXT"@),
        StepModel::Run("CREATE TABLE IF NOT EXISTS agent_steps (id TEXT PRIMARY KEY, session_id TEXT NOT NULL REFERENCES chat_sessions(id) ON DELETE CASCADE, message_id TEXT REFERENCES chat_messages(id) ON DELETE CASCADE, step_index INTEGER NOT NULL, reasoning_content TEXT, tool_calls TEXT, created_at TEXT NOT NULL)"@),
        StepModel::Run("CREATE INDEX IF NOT EXISTS idx_agent_steps_session ON agent_steps(session_id)"@),
        StepModel::Run("CREATE INDEX IF NOT EXISTS idx_agent_steps_message ON agent_steps(message_id)"@),
        column("agent_steps"@, "message_id"@, "TEXT REFERENCES chat_messages(id) ON DELETE CASCADE"@),
        column("chat_sessions"@, "project_id"@, "TEXT"@),
        column("chat_sessions"@, "working_dir"@, "TEXT"@),
        column("chat_sessions"@, "vision_provider_id"@, "TEXT"@),
        column("chat_sessions"@, "web_proxy"@, "TEXT"@),
        column("llm_providers"@, "is_vision"@, "INTEGER DEFAULT 0"@),
        column("cron_jobs"@, "enabled"@, "INTEGER DEFAULT 1"@),
        column("cron_jobs"@, "last_fired"@, "TEXT"@),
    ]
}

fn list_agent_steps() -> (r: Vec<InitStep>)
    ensures
        step_models(r@) == agent_steps(),
{
    let v = vec![
        InitStep::Run("CREATE TABLE IF NOT EXISTS llm_providers (id TEXT PRIMARY KEY, name TEXT NOT NULL, provider TEXT NOT NULL, model TEXT NOT NULL, api_key TEXT NOT NULL DEFAULT '', base_url TEXT NOT NULL, proxy TEXT, max_tokens INTEGER DEFAULT 4096, temperature REAL DEFAULT 0.7, extra_body TEXT, is_default INTEGER DEFAULT 0, sort_order INTEGER DEFAULT 0, created_at TEXT NOT NULL, updated_at TEXT NOT NULL)".to_owned()),
        InitStep::Run("CREATE INDEX IF NOT EXISTS idx_llm_providers_default ON llm_providers(is_default)".to_owned()),
        new_column("chat_sessions", "llm_provider_ids", "TEXT"),
        new_column("chat_sessions", "memory_dir", "TEXT"),
        new_column("chat_sessions", "skills_dir", "TEXT"),
        InitStep::Run("CREATE TABLE IF NOT EXISTS agent_steps (id TEXT PRIMARY KEY, session_id TEXT NOT NULL REFERENCES chat_sessions(id) ON DELETE CASCADE, message_id TEXT REFERENCES chat_messages(id) ON DELETE CASCADE, step_index INTEGER NOT NULL, reasoning_content TEXT, tool_calls TEXT, created_at TEXT NOT NULL)".to_owned()),
        InitStep::Run("CREATE INDEX IF NOT EXISTS idx_agent_steps_session ON agent_steps(session_id)".to_owned()),
        InitStep::Run("CREATE INDEX IF NOT EXISTS idx_agent_steps_message ON agent_steps(message_id)".to_owned()),
        new_column("agent_steps", "message_id", "TEXT REFERENCES chat_messages(id) ON DELETE CASCADE"),
        new_column("chat_sessions", "project_id", "TEXT"),
        new_column("chat_sessions", "working_dir", "TEXT"),
        new_column("chat_sessions", "vision_provider_id", "TEXT"),
        new_column("chat_sessions", "web_proxy", "TEXT"),
        new_column("llm_providers", "is_vision", "INTEGER DEFAULT 0"),
        new_column("cron_jobs", "enabled", "INTEGER DEFAULT 1"),
        new_column("cron_jobs", "last_fired", "TEXT"),
    ];
    assert(step_models(v@) =~= agent_steps());
    v
}

/// Notes, their vaults and their versions.
pub open spec fn note_steps() -> Seq<StepModel> {
    seq![
        column("notes"@, "tags"@, "TEXT DEFAULT '[]'"@),
        column("notes"@, "aliases"@, "TEXT DEFAULT '[]'"@),
        column("notes"@, "is_favorite"@, "INTEGER DEFAULT 0"@),
        column("notes"@, "is_folder"@, "INTEGER DEFAULT 0"@),
        StepModel::Run("CREATE TABLE IF NOT EXISTS vaults (id INTEGER PRIMARY KEY AUTOINCREMENT, name TEXT NOT NULL UNIQUE, created_at TEXT NOT NULL, updated_at TEXT NOT NULL)"@),
        column("notes"@, "vault_id"@, "INTEGER NOT NULL DEFAULT 1"@),
        StepModel::Run("CREATE INDEX IF NOT EXISTS idx_notes_vault ON notes(vault_id)"@),
        StepModel::Hook(Hook::DefaultVault),
        column("notes"@, "is_folder"@, "INTEGER DEFAULT 0"@),
        StepModel::Refresh("notes"@),
        StepModel::Run("UPDATE notes SET is_folder = 1 WHERE id IN (SELECT DISTINCT parent_id FROM notes WHERE parent_id IS NOT NULL)"@),
        StepModel::Run("CREATE TABLE IF NOT EXISTS note_versions (id INTEGER PRIMARY KEY AUTOINCREMENT, note_id TEXT NOT NULL REFERENCES notes(id) ON DELETE CASCADE, title TEXT NOT NULL, content TEXT NOT NULL DEFAULT '', edited_by TEXT NOT NULL DEFAULT 'agent', created_at TEXT NOT NULL)"@),
        StepModel::Run("CREATE INDEX IF NOT EXISTS idx_note_versions_note ON note_versions(note_id)"@),
        column("notes"@, "agent_edited_at"@, "TEXT"@),
        column("notes"@, "agent_edit_count"@, "INTEGER DEFAULT 0"@),
        column("notes"@, "is_system"@, "INTEGER DEFAULT 0"@),
        column("notes"@, "source_collection_id"@, "TEXT"@),
        column("notes"@, "is_excerpt"@, "INTEGER DEFAULT 0"@),
        column("chat_sessions"@, "domain"@, "TEXT"@),
        column("chat_sessions"@, "context"@, "TEXT"@),
    ]
}

fn list_note_steps() -> (r: Vec<InitStep>)
    ensures
        step_models(r@) == note_steps(),
{
    let v = vec![
        new_column("notes", "tags", "TEXT DEFAULT '[]'"),
        new_column("notes", "aliases", "TEXT DEFAULT '[]'"),
        new_column("notes", "is_favorite", "INTEGER DEFAULT 0"),
        new_column("notes", "is_folder", "INTEGER DEFAULT 0"),
        InitStep::Run("CREATE TABLE IF NOT EXISTS vaults (id INTEGER PRIMARY KEY AUTOINCREMENT, name TEXT NOT NULL UNIQUE, created_at TEXT NOT NULL, updated_at TEXT NOT NULL)".to_owned()),
        new_column("notes", "vault_id", "INTEGER NOT NULL DEFAULT 1"),
        InitStep::Run("CREATE INDEX IF NOT EXISTS idx_notes_vault ON notes(vault_id)".to_owned()),
        InitStep::Hook(Hook::DefaultVault),
        new_column("notes", "is_folder", "INTEGER DEFAULT 0"),
        InitStep::Refresh("notes".to_owned()),
        InitStep::Run("UPDATE notes SET is_folder = 1 WHERE id IN (SELECT DISTINCT parent_id FROM notes WHERE parent_id IS NOT NULL)".to_owned()),
        InitStep::Run("CREATE TABLE IF NOT EXISTS note_versions (id INTEGER PRIMARY KEY AUTOINCREMENT, note_id TEXT NOT NULL REFERENCES notes(id) ON DELETE CASCADE, title TEXT NOT NULL, content TEXT NOT NULL DEFAULT '', edited_by TEXT NOT NULL DEFAULT 'agent', created_at TEXT NOT NULL)".to_owned()),
        InitStep::Run("CREATE INDEX IF NOT EXISTS idx_note_versions_note ON note_versions(note_id)".to_owned()),
        new_column("notes", "agent_edited_at", "TEXT"),
        new_column("notes", "agent_edit_count", "INTEGER DEFAULT 0"),
        new_column("notes", "is_system", "INTEGER DEFAULT 0"),
        new_column("notes", "source_collection_id", "TEXT"),
        new_column("notes", "is_excerpt", "INTEGER DEFAULT 0"),
        new_column("chat_sessions", "domain", "TEXT"),
        new_column("chat_sessions", "context", "TEXT"),
    ];
    assert(step_models(v@) =~= note_steps());
    v
}

/// What is known of papers, the search indexes, imports and the settings of a device.
pub open spec fn metadata_steps() -> Seq<StepModel> {
    seq![
        column("papers"@, "item_type"@, "TEXT DEFAULT 'journal'"@),
        column("papers"@, "volume"@, "TEXT"@),
        column("papers"@, "issue"@, "TEXT"@),
        column("papers"@, "pages"@, "TEXT"@),
        column("papers"@, "conference_name"@, "TEXT"@),
        column("papers"@, "publisher"@, "TEXT"@),
        column("papers"@, "place"@, "TEXT"@),
        column("papers"@, "editor"@, "TEXT NOT NULL DEFAULT '[]'"@),
        column("papers"@, "series"@, "TEXT"@),
        column("papers"@, "edition"@, "TEXT"@),
        column("papers"@, "isbn"@, "TEXT"@),
        column("papers"@, "issn"@, "TEXT"@),
        column("papers"@, "num_pages"@, "INTEGER"@),
        column("papers"@, "archive_location"@, "TEXT"@),
        column("papers"@, "call_number"@, "TEXT"@),
        column("papers"@, "rights"@, "TEXT"@),
        StepModel::Hook(Hook::ChunksFts),
        StepModel::Hook(Hook::FtsRebuild),
        StepModel::Hook(Hook::ImportsTable),
        StepModel::Run("CREATE TABLE IF NOT EXISTS device_settings (key TEXT PRIMARY KEY NOT NULL, value TEXT NOT NULL, updated_at TEXT NOT NULL DEFAULT '')"@),
    ]
}

fn list_metadata_steps() -> (r: Vec<InitStep>)
    ensures
        step_models(r@) == metadata_steps(),
{
    let v = vec![
        new_column("papers", "item_type", "TEXT DEFAULT 'journal'"),
        new_column("papers", "volume", "TEXT"),
        new_column("papers", "issue", "TEXT"),
        new_column("papers", "pages", "TEXT"),
        new_column("papers", "conference_name", "TEXT"),
        new_column("papers", "publisher", "TEXT"),
        new_column("papers", "place", "TEXT"),
        new_column("papers", "editor", "TEXT NOT NULL DEFAULT '[]'"),
        new_column("papers", "series", "TEXT"),
        new_column("papers", "edition", "TEXT"),
        new_column("papers", "isbn", "TEXT"),
        new_column("papers", "issn", "TEXT"),
        new_column("papers", "num_pages", "INTEGER"),
        new_column("papers", "archive_location", "TEXT"),
        new_column("papers", "call_number", "TEXT"),
        new_column("papers", "rights", "TEXT"),
        InitStep::Hook(Hook::ChunksFts),
        InitStep::Hook(Hook::FtsRebuild),
        InitStep::Hook(Hook::ImportsTable),
        InitStep::Run("CREATE TABLE IF NOT EXISTS device_settings (key TEXT PRIMARY KEY NOT NULL, value TEXT NOT NULL, updated_at TEXT NOT NULL DEFAULT '')".to_owned()),
    ];
    assert(step_models(v@) =~= metadata_steps());
    v
}

/// What is synced: only once all tables have their columns.
pub open spec fn sync_steps() -> Seq<StepModel> {
    seq![
        StepModel::Hook(Hook::SyncSchema),
        StepModel::Hook(Hook::CoreTables),
        StepModel::Hook(Hook::SystemFolder),
        StepModel::Hook(Hook::DeviceIdentity),
        StepModel::Hook(Hook::OptionalTables),
    ]
}

fn list_sync_steps() -> (r: Vec<InitStep>)
    ensures
        step_models(r@) == sync_steps(),
{
    let v = vec![
        InitStep::Hook(Hook::SyncSchema),
        InitStep::Hook(Hook::CoreTables),
        InitStep::Hook(Hook::SystemFolder),
        InitStep::Hook(Hook::DeviceIdentity),
        InitStep::Hook(Hook::OptionalTables),
    ];
    assert(step_models(v@) =~= sync_steps());
    v
}

/// The steps that make tables and columns what they should be.
pub open spec fn schema_steps() -> Seq<StepModel> {
    library_steps() + chat_steps() + agent_steps() + note_steps() + metadata_steps()
}

/// All steps by which the database is brought up to date.
pub open spec fn init_steps() -> Seq<StepModel> {
    schema_steps() + sync_steps()
}

fn add_steps(v: &mut Vec<InitStep>, more: Vec<InitStep>)
    ensures
        step_models(final(v)@) == step_models(old(v)@) + step_models(more@),
{
    let ghost before = v@;
    let ghost added = more@;
    let mut more = more;
    v.append(&mut more);
    assert(step_models(v@) =~= step_models(before) + step_models(added));
}

/// The steps by which the database is brought up to date, in their order.
pub fn init() -> (r: Vec<InitStep>)
    ensures
        step_models(r@) == init_steps(),
{
    let mut v = list_library_steps();
    add_steps(&mut v, list_chat_steps());
    add_steps(&mut v, list_agent_steps());
    add_steps(&mut v, list_note_steps());
    add_steps(&mut v, list_metadata_steps());
    add_steps(&mut v, list_sync_steps());
    v
}

/// Tables are synced only once the steps are through that change their columns: the triggers of a
/// synced table must know all of them.
pub proof fn law_sync_comes_last(i: int)
    requires
        0 <= i < init_steps().len(),
    ensures
        init_steps()[i] == StepModel::Hook(Hook::CoreTables) || init_steps()[i] == StepModel::Hook(
            Hook::OptionalTables,
        ) ==> forall|j: int|
            i < j < init_steps().len() ==> !((#[trigger] init_steps()[j]) is Column) && !(
            init_steps()[j] is Run),
{
    let n = schema_steps().len() as int;
    assert forall|j: int| n <= j < init_steps().len() implies !((#[trigger] init_steps()[j]) is Column)
        && !(init_steps()[j] is Run) by {
        assert(init_steps()[j] == sync_steps()[j - n]);
        assert(sync_steps()[j - n] is Hook);
    }
    if i < n {
        lemma_schema_steps(i);
        assert(init_steps()[i] == schema_steps()[i]);
    }
}

/// No table is given to the sync while tables and columns change.
proof fn lemma_schema_steps(i: int)
    requires
        0 <= i < schema_steps().len(),
    ensures
        schema_steps()[i] != StepModel::Hook(Hook::CoreTables),
        schema_steps()[i] != StepModel::Hook(Hook::OptionalTables),
{
    let a = library_steps();
    let b = chat_steps();
    let c = agent_steps();
    let d = note_steps();
    let s = schema_steps();
    if i < a.len() {
        assert(s[i] == a[i]);
    } else if i < a.len() + b.len() {
        assert(s[i] == b[i - a.len()]);
    } else if i < a.len() + b.len() + c.len() {
        assert(s[i] == c[i - a.len() - b.len()]);
    } else if i < a.len() + b.len() + c.len() + d.len() {
        assert(s[i] == d[i - a.len() - b.len() - c.len()]);
    } else {
        assert(s[i] == metadata_steps()[i - a.len() - b.len() - c.len() - d.len()]);
    }
}

// ---------------------------------------------------------------------------------------------
// Columns
// ---------------------------------------------------------------------------------------------
/// A column of a table.
pub struct ColumnName {
    pub table: String,
    pub column: String,
}

/// A column of a table, read as its texts.
pub struct ColumnModel {
    pub table: Seq<char>,
    pub column: Seq<char>,
}

/// The columns in a list.
pub open spec fn column_models(v: Seq<ColumnName>) -> Seq<ColumnModel> {
    Seq::new(v.len(), |i: int| ColumnModel { table: v[i].table@, column: v[i].column@ })
}

/// Tells whether a column is among those of a table.
pub fn column_exists(columns: &Vec<String>, column: &str) -> (r: bool)
    ensures
        r == texts(columns@).contains(column@),
{
    let ghost all = texts(columns@);
    let mut i: usize = 0;
    while i < columns.len()
        invariant
            i <= columns.len(),
            all == texts(columns@),
            forall|k: int| 0 <= k < i ==> #[trigger] all[k] != column@,
        decreases columns.len() - i,
    {
        assert(all[i as int] == columns@[i as int]@);
        if same(columns[i].as_str(), column) {
            return true;
        }
        i += 1;
    }
    false
}

/// The statement that adds a column.
pub open spec fn add_column(table: Seq<char>, column: Seq<char>, def: Seq<char>) -> Seq<char> {
    "ALTER TABLE "@ + table + " ADD COLUMN "@ + column + " "@ + def
}

/// The statement that adds a column to a table that has the given ones, unless it is among them.
pub fn add_column_if_missing(
    columns: &Vec<String>,
    table: &str,
    column: &str,
    def: &str,
) -> (r: Option<String>)
    ensures
        opt_text(r) == (if texts(columns@).contains(column@) {
            None
        } else {
            Some(add_column(table@, column@, def@))
        }),
{
    if column_exists(columns, column) {
        return None;
    }
    let mut s = concat3("ALTER TABLE ", table, " ADD COLUMN ");
    s.append(column);
    s.append(" ");
    s.append(def);
    Some(s)
}

/// What is said where a column could not be added.
pub fn migration_error(table: &str, column: &str, why: &str) -> (r: String)
    ensures
        r@ == "migration failed for "@ + table@ + "."@ + column@ + ": "@ + why@,
{
    let mut s = concat3("migration failed for ", table, ".");
    s.append(column);
    s.append(": ");
    s.append(why);
    s
}

/// The columns that a database has behind steps: none is ever lost.
pub open spec fn columns_after(has: Set<ColumnModel>, steps: Seq<StepModel>) -> Set<ColumnModel>
    decreases steps.len(),
{
    if steps.len() == 0 {
        has
    } else {
        let before = columns_after(has, steps.drop_last());
        match steps.last() {
            StepModel::Column { table, column, .. } => before.insert(ColumnModel { table, column }),
            _ => before,
        }
    }
}

/// The statements that add columns, in their order: a step adds its column unless the database has it
/// or an earlier step added it.
pub open spec fn columns_added(has: Set<ColumnModel>, steps: Seq<StepModel>) -> Seq<Seq<char>>
    decreases steps.len(),
{
    if steps.len() == 0 {
        Seq::empty()
    } else {
        let before = columns_added(has, steps.drop_last());
        match steps.last() {
            StepModel::Column { table, column, def } => if columns_after(
                has,
                steps.drop_last(),
            ).contains(ColumnModel { table, column }) {
                before
            } else {
                before.push(add_column(table, column, def))
            },
            _ => before,
        }
    }
}

/// The columns of a list, as a set.
pub open spec fn column_set(v: Seq<ColumnName>) -> Set<ColumnModel> {
    column_models(v).to_set()
}

fn has_column(v: &Vec<ColumnName>, table: &str, column: &str) -> (r: bool)
    ensures
        r == column_set(v@).contains(ColumnModel { table: table@, column: column@ }),
{
    let ghost all = column_models(v@);
    let ghost c = ColumnModel { table: table@, column: column@ };
    let mut i: usize = 0;
    while i < v.len()
        invariant
            i <= v.len(),
            all == column_models(v@),
            c == (ColumnModel { table: table@, column: column@ }),
            forall|k: int| 0 <= k < i ==> #[trigger] all[k] != c,
        decreases v.len() - i,
    {
        assert(all[i as int] == (ColumnModel {
            table: v@[i as int].table@,
            column: v@[i as int].column@,
        }));
        if same(v[i].table.as_str(), table) && same(v[i].column.as_str(), column) {
            assert(all.contains(c));
            return true;
        }
        i += 1;
    }
    false
}

/// The statements by which steps add columns to a database that has the given ones. A database that
/// is up to date needs none.
pub fn pending_columns(existing: Vec<ColumnName>, steps: &Vec<InitStep>) -> (r: Vec<String>)
    ensures
        texts(r@) == columns_added(column_set(existing@), step_models(steps@)),
{
    let ghost has = column_set(existing@);
    let ghost all = step_models(steps@);
    let mut known = existing;
    let mut out: Vec<String> = Vec::new();
    let mut i: usize = 0;
    assert(texts(out@) =~= columns_added(has, all.take(0)));
    while i < steps.len()
        invariant
            i <= steps.len(),
            all == step_models(steps@),
            column_set(known@) == columns_after(has, all.take(i as int)),
            texts(out@) == columns_added(has, all.take(i as int)),
        decreases steps.len() - i,
    {
        proof {
            assert(all.take(i + 1).drop_last() =~= all.take(i as int));
            assert(all.take(i + 1).last() == steps@[i as int].model());
        }
        if let InitStep::Column { table, column, def } = &steps[i] {
            let ghost c = ColumnModel { table: table@, column: column@ };
            if has_column(&known, table.as_str(), column.as_str()) {
                assert(column_set(known@).insert(c) =~= column_set(known@));
            } else {
                let mut s = concat3("ALTER TABLE ", table.as_str(), " ADD COLUMN ");
                s.append(column.as_str());
                s.append(" ");
                s.append(def.as_str());
                let ghost before = texts(out@);
                let ghost sql = s@;
                out.push(s);
                assert(texts(out@) =~= before.push(sql));
                let ghost was = known@;
                known.push(ColumnName { table: table.clone(), column: column.clone() });
                proof {
                    let a = column_models(was);
                    let b = column_models(known@);
                    assert(b =~= a.push(c));
                    assert forall|x: ColumnModel| b.contains(x) == (a.contains(x) || x == c) by {
                        if a.contains(x) {
                            let k = choose|k: int| 0 <= k < a.len() && a[k] == x;
                            assert(b[k] == x);
                        }
                        if x == c {
                            assert(b[a.len() as int] == x);
                        }
                        if b.contains(x) {
                            let k = choose|k: int| 0 <= k < b.len() && b[k] == x;
                            if k < a.len() {
                                assert(a[k] == x);
                            }
                        }
                    }
                    assert(b.to_set() =~= a.to_set().insert(c));
                }
            }
        }
        i += 1;
    }
    assert(all.take(all.len() as int) =~= all);
    out
}

proof fn lemma_columns_grow(has: Set<ColumnModel>, steps: Seq<StepModel>, k: int, c: ColumnModel)
    requires
        0 <= k <= steps.len(),
        columns_after(has, steps.take(k)).contains(c),
    ensures
        columns_after(has, steps).contains(c),
    decreases steps.len() - k,
{
    if k == steps.len() {
        assert(steps.take(k) =~= steps);
    } else {
        assert(steps.take(k + 1).drop_last() =~= steps.take(k));
        lemma_columns_grow(has, steps, k + 1, c);
    }
}

/// Behind the steps a database has every column that they name, and every column that it had.
pub proof fn law_columns_are_there(has: Set<ColumnModel>, steps: Seq<StepModel>, i: int)
    requires
        0 <= i < steps.len(),
    ensures
        match steps[i] {
            StepModel::Column { table, column, .. } => columns_after(has, steps).contains(
                ColumnModel { table, column },
            ),
            _ => true,
        },
        forall|c: ColumnModel| has.contains(c) ==> #[trigger] columns_after(has, steps).contains(c),
{
    if let StepModel::Column { table, column, .. } = steps[i] {
        assert(steps.take(i + 1).last() == steps[i]);
        assert(steps.take(i + 1).drop_last() =~= steps.take(i));
        lemma_columns_grow(has, steps, i + 1, ColumnModel { table, column });
    }
    assert forall|c: ColumnModel| has.contains(c) implies #[trigger] columns_after(
        has,
        steps,
    ).contains(c) by {
        assert(steps.take(0) =~= Seq::empty());
        lemma_columns_grow(has, steps, 0, c);
    }
}

/// A database that is up to date gets no column: opening it again changes no table.
pub proof fn law_second_run_adds_nothing(
    has: Set<ColumnModel>,
    steps: Seq<StepModel>,
    n: int,
)
    requires
        0 <= n <= steps.len(),
    ensures
        columns_added(columns_after(has, steps), steps.take(n)) == Seq::<Seq<char>>::empty(),
        columns_after(columns_after(has, steps), steps.take(n)) == columns_after(has, steps),
    decreases n,
{
    let full = columns_after(has, steps);
    if n > 0 {
        law_second_run_adds_nothing(has, steps, n - 1);
        assert(steps.take(n).drop_last() =~= steps.take(n - 1));
        assert(steps.take(n).last() == steps[n - 1]);
        law_columns_are_there(has, steps, n - 1);
        if let StepModel::Column { table, column, .. } = steps[n - 1] {
            assert(full.insert(ColumnModel { table, column }) =~= full);
        }
    } else {
        assert(steps.take(0) =~= Seq::empty());
    }
}

// ---------------------------------------------------------------------------------------------
// Larger steps
// ---------------------------------------------------------------------------------------------
/// Whether creators are read from the columns of papers: only while none is stored.
pub fn needs_creators(count: i64) -> (r: bool)
    ensures
        r == (count == 0),
{
    count == 0
}

/// The steps by which the budget of conversations gets a column of its own, unless it has one: what
/// was called the most tokens was the budget before.
pub fn budget_steps(had_context_budget: bool) -> (r: Vec<InitStep>)
    ensures
        step_models(r@) == (if had_context_budget {
            Seq::empty()
        } else {
            seq![
                column("chat_sessions"@, "context_budget"@, "INTEGER DEFAULT 28000"@),
                StepModel::Refresh("chat_sessions"@),
                StepModel::Run(
                    "UPDATE chat_sessions SET context_budget = max_tokens, max_tokens = NULL WHERE max_tokens IS NOT NULL"@,
                ),
            ]
        }),
{
    let mut v: Vec<InitStep> = Vec::new();
    if had_context_budget {
        assert(step_models(v@) =~= Seq::empty());
        return v;
    }
    v.push(new_column("chat_sessions", "context_budget", "INTEGER DEFAULT 28000"));
    v.push(InitStep::Refresh("chat_sessions".to_owned()));
    v.push(
        InitStep::Run(
            "UPDATE chat_sessions SET context_budget = max_tokens, max_tokens = NULL WHERE max_tokens IS NOT NULL".to_owned(),
        ),
    );
    assert(step_models(v@) =~= seq![
        column("chat_sessions"@, "context_budget"@, "INTEGER DEFAULT 28000"@),
        StepModel::Refresh("chat_sessions"@),
        StepModel::Run(
            "UPDATE chat_sessions SET context_budget = max_tokens, max_tokens = NULL WHERE max_tokens IS NOT NULL"@,
        ),
    ]);
    v
}

/// The statements that make the index of chunks anew, by groups of three characters.
pub open spec fn trigram_statements() -> Seq<Seq<char>> {
    seq![
        "DROP TABLE chunks_fts"@,
        "CREATE VIRTUAL TABLE chunks_fts USING fts5(content, tokenize='trigram', content='chunks', content_rowid='rowid')"@,
        "INSERT INTO chunks_fts(chunks_fts) VALUES('rebuild')"@,
        "CREATE TRIGGER IF NOT EXISTS chunks_fts_ai AFTER INSERT ON chunks BEGIN INSERT INTO chunks_fts(rowid, content) VALUES (new.rowid, new.content); END"@,
        "CREATE TRIGGER IF NOT EXISTS chunks_fts_ad AFTER DELETE ON chunks BEGIN INSERT INTO chunks_fts(chunks_fts, rowid, content) VALUES('delete', old.rowid, old.content); END"@,
        "CREATE TRIGGER IF NOT EXISTS chunks_fts_au AFTER UPDATE ON chunks BEGIN INSERT INTO chunks_fts(chunks_fts, rowid, content) VALUES('delete', old.rowid, old.content); INSERT INTO chunks_fts(rowid, content) VALUES (new.rowid, new.content); END"@,
    ]
}

fn list_trigram() -> (r: Vec<String>)
    ensures
        texts(r@) == trigram_statements(),
{
    let v = vec![
        "DROP TABLE chunks_fts".to_owned(),
        "CREATE VIRTUAL TABLE chunks_fts USING fts5(content, tokenize='trigram', content='chunks', content_rowid='rowid')".to_owned(),
        "INSERT INTO chunks_fts(chunks_fts) VALUES('rebuild')".to_owned(),
        "CREATE TRIGGER IF NOT EXISTS chunks_fts_ai AFTER INSERT ON chunks BEGIN INSERT INTO chunks_fts(rowid, content) VALUES (new.rowid, new.content); END".to_owned(),
        "CREATE TRIGGER IF NOT EXISTS chunks_fts_ad AFTER DELETE ON chunks BEGIN INSERT INTO chunks_fts(chunks_fts, rowid, content) VALUES('delete', old.rowid, old.content); END".to_owned(),
        "CREATE TRIGGER IF NOT EXISTS chunks_fts_au AFTER UPDATE ON chunks BEGIN INSERT INTO chunks_fts(chunks_fts, rowid, content) VALUES('delete', old.rowid, old.content); INSERT INTO chunks_fts(rowid, content) VALUES (new.rowid, new.content); END".to_owned(),
    ];
    assert(texts(v@) =~= trigram_statements());
    v
}

/// The statements that bring the index of chunks up to date. `sql` is its definition, if it is there:
/// an index that goes by words finds nothing in texts without blanks.
pub fn chunks_fts_statements(sql: &Option<String>) -> (r: Vec<String>)
    ensures
        texts(r@) == (if sql is Some && !contains(sql->0@, "trigram"@) {
            trigram_statements()
        } else {
            Seq::empty()
        }),
{
    if let Some(s) = sql {
        if !has_text(s.as_str(), "trigram") {
            return list_trigram();
        }
    }
    let v: Vec<String> = Vec::new();
    assert(texts(v@) =~= Seq::empty());
    v
}

/// The statements that fill the search indexes.
pub open spec fn rebuild_statements() -> Seq<Seq<char>> {
    seq![
        "INSERT INTO papers_fts(papers_fts) VALUES('rebuild')"@,
        "INSERT INTO notes_fts(notes_fts) VALUES('rebuild')"@,
        "INSERT INTO chunks_fts(chunks_fts) VALUES('rebuild')"@,
        "INSERT INTO knowledge_items_fts(knowledge_items_fts) VALUES('rebuild')"@,
    ]
}

fn list_rebuild() -> (r: Vec<String>)
    ensures
        texts(r@) == rebuild_statements(),
{
    let v = vec![
        "INSERT INTO papers_fts(papers_fts) VALUES('rebuild')".to_owned(),
        "INSERT INTO notes_fts(notes_fts) VALUES('rebuild')".to_owned(),
        "INSERT INTO chunks_fts(chunks_fts) VALUES('rebuild')".to_owned(),
        "INSERT INTO knowledge_items_fts(knowledge_items_fts) VALUES('rebuild')".to_owned(),
    ];
    assert(texts(v@) =~= rebuild_statements());
    v
}

/// The statements that fill the search indexes, unless that was done.
pub fn fts_rebuild_statements(rebuilt: bool) -> (r: Vec<String>)
    ensures
        texts(r@) == (if rebuilt {
            Seq::empty()
        } else {
            rebuild_statements()
        }),
{
    if rebuilt {
        let v: Vec<String> = Vec::new();
        assert(texts(v@) =~= Seq::empty());
        return v;
    }
    list_rebuild()
}

/// The statements that make the table of imports anew, so that a link can be imported too.
pub open spec fn imports_statements() -> Seq<Seq<char>> {
    seq![
        "ALTER TABLE imports RENAME TO imports_old"@,
        "CREATE TABLE imports (id TEXT PRIMARY KEY, file_path TEXT, source_url TEXT, paper_id TEXT, status TEXT NOT NULL, error TEXT, created_at TEXT NOT NULL, completed_at TEXT)"@,
        "INSERT INTO imports (id, file_path, source_url, paper_id, status, error, created_at, completed_at) SELECT id, file_path, NULL, paper_id, status, error, created_at, completed_at FROM imports_old"@,
        "DROP TABLE imports_old"@,
    ]
}

fn list_imports() -> (r: Vec<String>)
    ensures
        texts(r@) == imports_statements(),
{
    let v = vec![
        "ALTER TABLE imports RENAME TO imports_old".to_owned(),
        "CREATE TABLE imports (id TEXT PRIMARY KEY, file_path TEXT, source_url TEXT, paper_id TEXT, status TEXT NOT NULL, error TEXT, created_at TEXT NOT NULL, completed_at TEXT)".to_owned(),
        "INSERT INTO imports (id, file_path, source_url, paper_id, status, error, created_at, completed_at) SELECT id, file_path, NULL, paper_id, status, error, created_at, completed_at FROM imports_old".to_owned(),
        "DROP TABLE imports_old".to_owned(),
    ];
    assert(texts(v@) =~= imports_statements());
    v
}

/// The statements that bring the table of imports up to date.
pub fn imports_table_statements(columns: &Vec<String>) -> (r: Vec<String>)
    ensures
        texts(r@) == (if texts(columns@).contains("source_url"@) {
            Seq::empty()
        } else {
            imports_statements()
        }),
{
    if column_exists(columns, "source_url") {
        let v: Vec<String> = Vec::new();
        assert(texts(v@) =~= Seq::empty());
        return v;
    }
    list_imports()
}

// ---------------------------------------------------------------------------------------------
// Tables that can be synced
// ---------------------------------------------------------------------------------------------
/// A vault with a number for its id.
pub struct OldVault {
    pub id: i64,
    pub name: String,
    pub created_at: String,
    pub updated_at: String,
}

/// The number of a vault and the id that it gets.
pub struct VaultId {
    pub old: i64,
    pub new: String,
}

/// The statements that make the table of vaults anew, with texts for ids.
pub open spec fn vault_table() -> Seq<Seq<char>> {
    seq![
        "ALTER TABLE vaults RENAME TO vaults_old"@,
        "CREATE TABLE vaults (id TEXT PRIMARY KEY NOT NULL, name TEXT NOT NULL DEFAULT '', created_at TEXT NOT NULL DEFAULT '', updated_at TEXT NOT NULL DEFAULT '')"@,
    ]
}

fn list_vault_table() -> (r: Vec<String>)
    ensures
        texts(r@) == vault_table(),
{
    let v = vec![
        "ALTER TABLE vaults RENAME TO vaults_old".to_owned(),
        "CREATE TABLE vaults (id TEXT PRIMARY KEY NOT NULL, name TEXT NOT NULL DEFAULT '', created_at TEXT NOT NULL DEFAULT '', updated_at TEXT NOT NULL DEFAULT '')".to_owned(),
    ];
    assert(texts(v@) =~= vault_table());
    v
}

/// The statements that make the table of vaults anew, where its definition says that its ids are
/// numbers that each device counts for itself.
pub open spec fn vault_steps(sql: Seq<char>) -> Seq<Seq<char>> {
    if contains(sql, "AUTOINCREMENT"@) {
        vault_table()
    } else {
        Seq::empty()
    }
}

/// The statements that make the table of vaults anew, where its ids are numbers that each device
/// counts for itself. `sql` is the definition of the table.
pub fn vault_statements(sql: &str) -> (r: Vec<String>)
    ensures
        texts(r@) == vault_steps(sql@),
{
    if has_text(sql, "AUTOINCREMENT") {
        return list_vault_table();
    }
    let v: Vec<String> = Vec::new();
    assert(texts(v@) =~= Seq::empty());
    v
}

/// The id that a vault gets: the first is the default one, with the same id on every device, and any
/// other gets a fresh one.
pub open spec fn vault_id(old: i64, fresh: Seq<char>) -> Seq<char> {
    if old == 1 {
        DEFAULT_VAULT_ID@
    } else {
        fresh
    }
}

/// Whether vaults are the old ones under their new ids.
pub open spec fn are_renamed(
    old: Seq<OldVault>,
    fresh: Seq<Seq<char>>,
    vaults: Seq<Vault>,
    ids: Seq<VaultId>,
) -> bool {
    &&& vaults.len() == old.len() && ids.len() == old.len()
    &&& forall|i: int|
        0 <= i < old.len() ==> (#[trigger] vaults[i]).id@ == vault_id(old[i].id, fresh[i])
            && vaults[i].name@ == old[i].name@ && vaults[i].created_at@ == old[i].created_at@
            && vaults[i].updated_at@ == old[i].updated_at@ && ids[i].old == old[i].id && ids[i].new@
            == vaults[i].id@
}

/// The vaults under their new ids, and which id each got. `fresh` holds an id for each.
pub fn rename_vaults(old: &Vec<OldVault>, fresh: &Vec<String>) -> (r: (Vec<Vault>, Vec<VaultId>))
    requires
        fresh@.len() >= old@.len(),
    ensures
        are_renamed(old@, texts(fresh@), r.0@, r.1@),
{
    let mut vaults: Vec<Vault> = Vec::new();
    let mut ids: Vec<VaultId> = Vec::new();
    let mut i: usize = 0;
    while i < old.len()
        invariant
            i <= old.len(),
            fresh@.len() >= old@.len(),
            vaults.len() == i,
            ids.len() == i,
            forall|k: int|
                0 <= k < i ==> (#[trigger] vaults@[k]).id@ == vault_id(old@[k].id, texts(fresh@)[k])
                    && vaults@[k].name@ == old@[k].name@ && vaults@[k].created_at@
                    == old@[k].created_at@ && vaults@[k].updated_at@ == old@[k].updated_at@
                    && ids@[k].old == old@[k].id && ids@[k].new@ == vaults@[k].id@,
        decreases old.len() - i,
    {
        let id = if old[i].id == 1 {
            DEFAULT_VAULT_ID.to_owned()
        } else {
            fresh[i].clone()
        };
        ids.push(VaultId { old: old[i].id, new: id.clone() });
        vaults.push(
            Vault {
                id,
                name: old[i].name.clone(),
                created_at: old[i].created_at.clone(),
                updated_at: old[i].updated_at.clone(),
            },
        );
        i += 1;
    }
    (vaults, ids)
}

/// The new id of the first vault from `i` on with a number.
pub open spec fn id_from(ids: Seq<VaultId>, old: int, i: int) -> Option<Seq<char>>
    decreases ids.len() - i,
{
    if i < 0 || i >= ids.len() {
        None
    } else if ids[i].old == old {
        Some(ids[i].new@)
    } else {
        id_from(ids, old, i + 1)
    }
}

/// The new id of a vault, by which its notes and the setting for the current one are changed.
pub fn new_vault_id(ids: &Vec<VaultId>, old: i64) -> (r: Option<String>)
    ensures
        opt_text(r) == id_from(ids@, old as int, 0),
{
    let mut i: usize = 0;
    while i < ids.len()
        invariant
            i <= ids.len(),
            id_from(ids@, old as int, 0) == id_from(ids@, old as int, i as int),
        decreases ids.len() - i,
    {
        if ids[i].old == old {
            return Some(ids[i].new.clone());
        }
        i += 1;
    }
    None
}

/// The new value of the setting for the current vault, where its value is the number of a vault.
pub fn current_vault_after(current: &str, ids: &Vec<VaultId>) -> (r: Option<String>)
    ensures
        opt_text(r) == (match parse_signed(current@, i64::MIN as int, i64::MAX as int) {
            Some(old) => id_from(ids@, old, 0),
            None => None,
        }),
{
    match parse_i64_within(current, i64::MIN, i64::MAX) {
        Some(old) => new_vault_id(ids, old),
        None => None,
    }
}

/// Notes and the current vault follow their vault: the new id of its number is that of the vault with
/// its name.
pub proof fn law_vaults_keep_their_notes(
    old: Seq<OldVault>,
    fresh: Seq<Seq<char>>,
    vaults: Seq<Vault>,
    ids: Seq<VaultId>,
    k: int,
)
    requires
        are_renamed(old, fresh, vaults, ids),
        0 <= k < old.len(),
        forall|i: int, j: int|
            0 <= i < j < old.len() ==> (#[trigger] old[i]).id != (#[trigger] old[j]).id,
    ensures
        id_from(ids, old[k].id as int, 0) == Some(vaults[k].id@),
        vaults[k].name@ == old[k].name@,
        old[k].id == 1 ==> vaults[k].id@ == DEFAULT_VAULT_ID@,
{
    assert(vaults[k].id@ == vault_id(old[k].id, fresh[k]));
    lemma_id_found(old, fresh, vaults, ids, k, 0);
}

proof fn lemma_id_found(
    old: Seq<OldVault>,
    fresh: Seq<Seq<char>>,
    vaults: Seq<Vault>,
    ids: Seq<VaultId>,
    k: int,
    i: int,
)
    requires
        are_renamed(old, fresh, vaults, ids),
        0 <= i <= k < old.len(),
        forall|i: int, j: int|
            0 <= i < j < old.len() ==> (#[trigger] old[i]).id != (#[trigger] old[j]).id,
    ensures
        id_from(ids, old[k].id as int, i) == Some(vaults[k].id@),
    decreases k - i,
{
    assert(vaults[i].id@ == vault_id(old[i].id, fresh[i]));
    if i < k {
        assert(old[i].id != old[k].id);
        lemma_id_found(old, fresh, vaults, ids, k, i + 1);
    }
}

/// The statements that make the table of note versions anew, with texts for ids.
pub open spec fn versions_table() -> Seq<Seq<char>> {
    seq![
        "ALTER TABLE note_versions RENAME TO note_versions_old"@,
        "CREATE TABLE note_versions (id TEXT PRIMARY KEY NOT NULL, note_id TEXT NOT NULL DEFAULT '', title TEXT NOT NULL DEFAULT '', content TEXT NOT NULL DEFAULT '', edited_by TEXT NOT NULL DEFAULT 'agent', created_at TEXT NOT NULL DEFAULT '')"@,
        "CREATE INDEX IF NOT EXISTS idx_note_versions_note ON note_versions(note_id)"@,
    ]
}

fn list_versions_table() -> (r: Vec<String>)
    ensures
        texts(r@) == versions_table(),
{
    let v = vec![
        "ALTER TABLE note_versions RENAME TO note_versions_old".to_owned(),
        "CREATE TABLE note_versions (id TEXT PRIMARY KEY NOT NULL, note_id TEXT NOT NULL DEFAULT '', title TEXT NOT NULL DEFAULT '', content TEXT NOT NULL DEFAULT '', edited_by TEXT NOT NULL DEFAULT 'agent', created_at TEXT NOT NULL DEFAULT '')".to_owned(),
        "CREATE INDEX IF NOT EXISTS idx_note_versions_note ON note_versions(note_id)".to_owned(),
    ];
    assert(texts(v@) =~= versions_table());
    v
}

/// The statements that make the table of note versions anew, where its definition says that its ids are
/// numbers.
pub open spec fn versions_steps(sql: Seq<char>) -> Seq<Seq<char>> {
    if contains(sql, "AUTOINCREMENT"@) {
        versions_table()
    } else {
        Seq::empty()
    }
}

/// The statements that make the table of note versions anew, where its ids are numbers.
pub fn versions_statements(sql: &str) -> (r: Vec<String>)
    ensures
        texts(r@) == versions_steps(sql@),
{
    if has_text(sql, "AUTOINCREMENT") {
        return list_versions_table();
    }
    let v: Vec<String> = Vec::new();
    assert(texts(v@) =~= Seq::empty());
    v
}

/// The statements that bring back the attachments of a change that was broken off.
pub open spec fn attachments_recovery() -> Seq<Seq<char>> {
    seq![
        "INSERT OR IGNORE INTO attachments (id, paper_id, file_name, file_path, file_type, description, created_at) SELECT id, paper_id, file_name, file_path, file_type, description, created_at FROM attachments_old"@,
        "DROP TABLE attachments_old"@,
    ]
}

fn list_recovery() -> (r: Vec<String>)
    ensures
        texts(r@) == attachments_recovery(),
{
    let v = vec![
        "INSERT OR IGNORE INTO attachments (id, paper_id, file_name, file_path, file_type, description, created_at) SELECT id, paper_id, file_name, file_path, file_type, description, created_at FROM attachments_old".to_owned(),
        "DROP TABLE attachments_old".to_owned(),
    ];
    assert(texts(v@) =~= attachments_recovery());
    v
}

/// The statements that make the table of attachments anew, without a reference that is enforced.
pub open spec fn attachments_table() -> Seq<Seq<char>> {
    seq![
        "ALTER TABLE attachments RENAME TO attachments_old"@,
        "CREATE TABLE attachments (id TEXT PRIMARY KEY NOT NULL, paper_id TEXT NOT NULL DEFAULT '', file_name TEXT NOT NULL DEFAULT '', file_path TEXT NOT NULL DEFAULT '', file_type TEXT NOT NULL DEFAULT '', description TEXT, created_at TEXT NOT NULL DEFAULT '')"@,
        "INSERT INTO attachments (id, paper_id, file_name, file_path, file_type, description, created_at) SELECT id, paper_id, file_name, file_path, file_type, description, created_at FROM attachments_old"@,
        "DROP TABLE attachments_old"@,
        "CREATE INDEX IF NOT EXISTS idx_attachments_paper ON attachments(paper_id)"@,
    ]
}

fn list_attachments() -> (r: Vec<String>)
    ensures
        texts(r@) == attachments_table(),
{
    let v = vec![
        "ALTER TABLE attachments RENAME TO attachments_old".to_owned(),
        "CREATE TABLE attachments (id TEXT PRIMARY KEY NOT NULL, paper_id TEXT NOT NULL DEFAULT '', file_name TEXT NOT NULL DEFAULT '', file_path TEXT NOT NULL DEFAULT '', file_type TEXT NOT NULL DEFAULT '', description TEXT, created_at TEXT NOT NULL DEFAULT '')".to_owned(),
        "INSERT INTO attachments (id, paper_id, file_name, file_path, file_type, description, created_at) SELECT id, paper_id, file_name, file_path, file_type, description, created_at FROM attachments_old".to_owned(),
        "DROP TABLE attachments_old".to_owned(),
        "CREATE INDEX IF NOT EXISTS idx_attachments_paper ON attachments(paper_id)".to_owned(),
    ];
    assert(texts(v@) =~= attachments_table());
    v
}

/// The statements that make the table of attachments anew, where its definition says that it refers to
/// another table.
pub open spec fn attachments_steps(sql: Seq<char>) -> Seq<Seq<char>> {
    if contains(sql, "REFERENCES"@) {
        attachments_table()
    } else {
        Seq::empty()
    }
}

proof fn lemma_not_in(s: Seq<char>, pat: Seq<char>)
    requires
        pat.len() >= 3,
        forall|i: int|
            0 <= i < s.len() - 2 ==> !(#[trigger] s[i] == pat[0] && s[i + 1] == pat[1] && s[i + 2]
                == pat[2]),
    ensures
        !contains(s, pat),
{
    lemma_find_from(s, pat, 0);
    if let Some(k) = find_from(s, pat, 0) {
        let w = s.subrange(k, k + pat.len());
        assert(w[0] == s[k] && w[1] == s[k + 1] && w[2] == s[k + 2]);
    }
}

/// A table that was made anew is not made anew again: its new definition asks for nothing.
pub proof fn law_tables_are_made_anew_once(sql: Seq<char>)
    ensures
        vault_steps(sql).len() > 0 ==> vault_steps(vault_steps(sql)[1]).len() == 0,
        versions_steps(sql).len() > 0 ==> versions_steps(versions_steps(sql)[1]).len() == 0,
        attachments_steps(sql).len() > 0 ==> attachments_steps(attachments_steps(sql)[1]).len()
            == 0,
{
    reveal_strlit("AUTOINCREMENT");
    reveal_strlit("REFERENCES");
    assert(!contains(vault_table()[1], "AUTOINCREMENT"@)) by {
        reveal_strlit(
            "CREATE TABLE vaults (id TEXT PRIMARY KEY NOT NULL, name TEXT NOT NULL DEFAULT '', created_at TEXT NOT NULL DEFAULT '', updated_at TEXT NOT NULL DEFAULT '')",
        );
        lemma_not_in(vault_table()[1], "AUTOINCREMENT"@);
    }
    assert(!contains(versions_table()[1], "AUTOINCREMENT"@)) by {
        reveal_strlit(
            "CREATE TABLE note_versions (id TEXT PRIMARY KEY NOT NULL, note_id TEXT NOT NULL DEFAULT '', title TEXT NOT NULL DEFAULT '', content TEXT NOT NULL DEFAULT '', edited_by TEXT NOT NULL DEFAULT 'agent', created_at TEXT NOT NULL DEFAULT '')",
        );
        lemma_not_in(versions_table()[1], "AUTOINCREMENT"@);
    }
    assert(!contains(attachments_table()[1], "REFERENCES"@)) by {
        reveal_strlit(
            "CREATE TABLE attachments (id TEXT PRIMARY KEY NOT NULL, paper_id TEXT NOT NULL DEFAULT '', file_name TEXT NOT NULL DEFAULT '', file_path TEXT NOT NULL DEFAULT '', file_type TEXT NOT NULL DEFAULT '', description TEXT, created_at TEXT NOT NULL DEFAULT '')",
        );
        lemma_not_in(attachments_table()[1], "REFERENCES"@);
    }
}

/// The statements that bring the table of attachments up to date, first those for a change that was
/// broken off. `old_sql` and `sql` are the definitions of the set aside table and of the table itself,
/// empty where there is none. Each of the two lists is one transaction.
pub fn attachments_statements(old_sql: &str, sql: &str) -> (r: (Vec<String>, Vec<String>))
    ensures
        texts(r.0@) == (if old_sql@.len() > 0 {
            attachments_recovery()
        } else {
            Seq::empty()
        }),
        texts(r.1@) == attachments_steps(sql@),
{
    let none: Vec<String> = Vec::new();
    assert(texts(none@) =~= Seq::empty());
    let also_none: Vec<String> = Vec::new();
    assert(texts(also_none@) =~= Seq::empty());
    let recovery = if old_sql.is_empty() {
        none
    } else {
        list_recovery()
    };
    let rebuild = if has_text(sql, "REFERENCES") {
        list_attachments()
    } else {
        also_none
    };
    (recovery, rebuild)
}

/// A table that may have to be made anew, so that its key is never missing.
pub struct KeyedTable {
    pub table: String,
    pub create: String,
    pub index: Option<String>,
}

/// A table that may have to be made anew, read as its texts.
pub struct KeyedModel {
    pub table: Seq<char>,
    pub create: Seq<char>,
    pub index: Option<Seq<char>>,
}

impl KeyedTable {
    /// The texts of a table.
    pub open spec fn model(self) -> KeyedModel {
        KeyedModel { table: self.table@, create: self.create@, index: opt_text(self.index) }
    }
}

/// The tables that may have to be made anew.
pub open spec fn keyed_tables() -> Seq<KeyedModel> {
    seq![
        KeyedModel {
            table: "tags"@,
            create: "CREATE TABLE tags (id TEXT PRIMARY KEY NOT NULL, name TEXT NOT NULL DEFAULT '', color TEXT DEFAULT '#3b82f6', parent_id TEXT, created_at TEXT NOT NULL DEFAULT '')"@,
            index: None,
        },
        KeyedModel {
            table: "collections"@,
            create: "CREATE TABLE collections (id TEXT PRIMARY KEY NOT NULL, name TEXT NOT NULL DEFAULT '', parent_id TEXT, sort_order INTEGER DEFAULT 0, created_at TEXT NOT NULL DEFAULT '')"@,
            index: None,
        },
        KeyedModel {
            table: "saved_searches"@,
            create: "CREATE TABLE saved_searches (id TEXT PRIMARY KEY NOT NULL, name TEXT NOT NULL DEFAULT '', params_json TEXT NOT NULL DEFAULT '{}', created_at TEXT NOT NULL DEFAULT '')"@,
            index: None,
        },
        KeyedModel {
            table: "saved_items"@,
            create: "CREATE TABLE saved_items (id TEXT PRIMARY KEY NOT NULL, title TEXT, url TEXT, doi TEXT, pdf_url TEXT, metadata TEXT, status TEXT NOT NULL DEFAULT 'pending', error TEXT, created_at TEXT NOT NULL DEFAULT '', processed_at TEXT)"@,
            index: Some("CREATE INDEX IF NOT EXISTS idx_saved_items_status ON saved_items(status)"@),
        },
        KeyedModel {
            table: "imports"@,
            create: "CREATE TABLE imports (id TEXT PRIMARY KEY NOT NULL, file_path TEXT, source_url TEXT, paper_id TEXT, status TEXT NOT NULL DEFAULT '', error TEXT, created_at TEXT NOT NULL DEFAULT '', completed_at TEXT)"@,
            index: None,
        },
        KeyedModel {
            table: "file_bookmarks"@,
            create: "CREATE TABLE file_bookmarks (id TEXT PRIMARY KEY NOT NULL, name TEXT NOT NULL DEFAULT '', path TEXT NOT NULL DEFAULT '', created_at TEXT NOT NULL DEFAULT '')"@,
            index: None,
        },
        KeyedModel {
            table: "bookmarks"@,
            create: "CREATE TABLE bookmarks (id TEXT PRIMARY KEY NOT NULL, title TEXT NOT NULL DEFAULT '', route TEXT NOT NULL DEFAULT '', params_json TEXT NOT NULL DEFAULT '{}', created_at TEXT NOT NULL DEFAULT '')"@,
            index: Some("CREATE INDEX IF NOT EXISTS idx_bookmarks_route ON bookmarks(route)"@),
        },
    ]
}

/// The texts of tables.
pub open spec fn keyed_models(v: Seq<KeyedTable>) -> Seq<KeyedModel> {
    Seq::new(v.len(), |i: int| v[i].model())
}

/// The tables that may have to be made anew.
pub fn list_keyed_tables() -> (r: Vec<KeyedTable>)
    ensures
        keyed_models(r@) == keyed_tables(),
{
    let v = vec![
        KeyedTable {
            table: "tags".to_owned(),
            create: "CREATE TABLE tags (id TEXT PRIMARY KEY NOT NULL, name TEXT NOT NULL DEFAULT '', color TEXT DEFAULT '#3b82f6', parent_id TEXT, created_at TEXT NOT NULL DEFAULT '')".to_owned(),
            index: None,
        },
        KeyedTable {
            table: "collections".to_owned(),
            create: "CREATE TABLE collections (id TEXT PRIMARY KEY NOT NULL, name TEXT NOT NULL DEFAULT '', parent_id TEXT, sort_order INTEGER DEFAULT 0, created_at TEXT NOT NULL DEFAULT '')".to_owned(),
            index: None,
        },
        KeyedTable {
            table: "saved_searches".to_owned(),
            create: "CREATE TABLE saved_searches (id TEXT PRIMARY KEY NOT NULL, name TEXT NOT NULL DEFAULT '', params_json TEXT NOT NULL DEFAULT '{}', created_at TEXT NOT NULL DEFAULT '')".to_owned(),
            index: None,
        },
        KeyedTable {
            table: "saved_items".to_owned(),
            create: "CREATE TABLE saved_items (id TEXT PRIMARY KEY NOT NULL, title TEXT, url TEXT, doi TEXT, pdf_url TEXT, metadata TEXT, status TEXT NOT NULL DEFAULT 'pending', error TEXT, created_at TEXT NOT NULL DEFAULT '', processed_at TEXT)".to_owned(),
            index: Some("CREATE INDEX IF NOT EXISTS idx_saved_items_status ON saved_items(status)".to_owned()),
        },
        KeyedTable {
            table: "imports".to_owned(),
            create: "CREATE TABLE imports (id TEXT PRIMARY KEY NOT NULL, file_path TEXT, source_url TEXT, paper_id TEXT, status TEXT NOT NULL DEFAULT '', error TEXT, created_at TEXT NOT NULL DEFAULT '', completed_at TEXT)".to_owned(),
            index: None,
        },
        KeyedTable {
            table: "file_bookmarks".to_owned(),
            create: "CREATE TABLE file_bookmarks (id TEXT PRIMARY KEY NOT NULL, name TEXT NOT NULL DEFAULT '', path TEXT NOT NULL DEFAULT '', created_at TEXT NOT NULL DEFAULT '')".to_owned(),
            index: None,
        },
        KeyedTable {
            table: "bookmarks".to_owned(),
            create: "CREATE TABLE bookmarks (id TEXT PRIMARY KEY NOT NULL, title TEXT NOT NULL DEFAULT '', route TEXT NOT NULL DEFAULT '', params_json TEXT NOT NULL DEFAULT '{}', created_at TEXT NOT NULL DEFAULT '')".to_owned(),
            index: Some("CREATE INDEX IF NOT EXISTS idx_bookmarks_route ON bookmarks(route)".to_owned()),
        },
    ];
    assert(keyed_models(v@) =~= keyed_tables());
    v
}

/// Whether a table has to be made anew: its key may be missing, or, for tags, no two may have the same
/// name. `notnull` is what the database says of the key, if there is one.
pub open spec fn needs_key(table: Seq<char>, notnull: Option<i64>, sql: Seq<char>) -> bool {
    notnull == Some(0i64) || (table == "tags"@ && contains(sql, "UNIQUE"@))
}

/// A table whose key was made is not made anew again: its key is no longer missing, and its new
/// definition lets two tags have the same name.
pub proof fn law_keys_are_made_once(i: int)
    requires
        0 <= i < keyed_tables().len(),
    ensures
        !needs_key(keyed_tables()[i].table, Some(1i64), keyed_tables()[i].create),
{
    reveal_strlit("UNIQUE");
    reveal_strlit("tags");
    reveal_strlit("collections");
    reveal_strlit("saved_searches");
    reveal_strlit("saved_items");
    reveal_strlit("imports");
    reveal_strlit("file_bookmarks");
    reveal_strlit("bookmarks");
    if i == 0 {
        reveal_strlit(
            "CREATE TABLE tags (id TEXT PRIMARY KEY NOT NULL, name TEXT NOT NULL DEFAULT '', color TEXT DEFAULT '#3b82f6', parent_id TEXT, created_at TEXT NOT NULL DEFAULT '')",
        );
        lemma_not_in(keyed_tables()[0].create, "UNIQUE"@);
    } else {
        assert(i == 1 || i == 2 || i == 3 || i == 4 || i == 5 || i == 6);
        assert(keyed_tables()[i].table.len() != "tags"@.len());
    }
}

/// The statements that make a table anew.
pub open spec fn keyed_statements(t: KeyedModel) -> Seq<Seq<char>> {
    seq![
        "ALTER TABLE \""@ + t.table + "\" RENAME TO \""@ + t.table + "_old\""@,
        t.create,
        "INSERT INTO \""@ + t.table + "\" SELECT * FROM \""@ + t.table + "_old\""@,
        "DROP TABLE \""@ + t.table + "_old\""@,
    ] + (match t.index {
        Some(i) => seq![i],
        None => Seq::empty(),
    })
}

/// The statements that make a table anew, where it has to be.
pub fn key_statements(t: &KeyedTable, notnull: Option<i64>, sql: &str) -> (r: Vec<String>)
    ensures
        texts(r@) == (if needs_key(t.table@, notnull, sql@) {
            keyed_statements(t.model())
        } else {
            Seq::empty()
        }),
{
    let mut v: Vec<String> = Vec::new();
    let missing = match notnull {
        Some(n) => n == 0,
        None => false,
    };
    if !(missing || (same(t.table.as_str(), "tags") && has_text(sql, "UNIQUE"))) {
        assert(texts(v@) =~= Seq::empty());
        return v;
    }
    let name = t.table.as_str();
    let mut rename = concat3("ALTER TABLE \"", name, "\" RENAME TO \"");
    rename.append(name);
    rename.append("_old\"");
    let mut copy = concat3("INSERT INTO \"", name, "\" SELECT * FROM \"");
    copy.append(name);
    copy.append("_old\"");
    v.push(rename);
    v.push(t.create.clone());
    v.push(copy);
    v.push(concat3("DROP TABLE \"", name, "_old\""));
    if let Some(i) = &t.index {
        v.push(i.clone());
    }
    assert(texts(v@) =~= keyed_statements(t.model()));
    v
}

// ---------------------------------------------------------------------------------------------
// Triggers of synced tables
// ---------------------------------------------------------------------------------------------
/// Whether the trigger of a synced table knows all columns of it.
pub open spec fn is_fresh(trigger: Option<Seq<char>>, columns: Seq<Seq<char>>) -> bool {
    trigger is Some && forall|k: int|
        0 <= k < columns.len() ==> contains(
            trigger->0,
            "NEW.\""@ + #[trigger] columns[k] + "\""@,
        )
}

/// Tells whether the trigger of a synced table knows all columns of it. A column that was added later
/// is missing, and every change of the table would fail.
pub fn crr_triggers_fresh(trigger: &Option<String>, columns: &Vec<String>) -> (r: bool)
    ensures
        r == is_fresh(opt_text(*trigger), texts(columns@)),
{
    let ghost all = texts(columns@);
    let sql = match trigger {
        Some(s) => s,
        None => {
            return false;
        },
    };
    let mut i: usize = 0;
    while i < columns.len()
        invariant
            i <= columns.len(),
            all == texts(columns@),
            opt_text(*trigger) == Some(sql@),
            forall|k: int|
                0 <= k < i ==> contains(sql@, "NEW.\""@ + #[trigger] all[k] + "\""@),
        decreases columns.len() - i,
    {
        assert(all[i as int] == columns@[i as int]@);
        if !has_text(sql.as_str(), concat3("NEW.\"", columns[i].as_str(), "\"").as_str()) {
            return false;
        }
        i += 1;
    }
    true
}

/// The statements that take a table out of the sync.
pub open spec fn drop_statements(table: Seq<char>) -> Seq<Seq<char>> {
    seq![
        "DROP TRIGGER IF EXISTS \""@ + table + "__crsql_itrig\""@,
        "DROP TRIGGER IF EXISTS \""@ + table + "__crsql_utrig\""@,
        "DROP TRIGGER IF EXISTS \""@ + table + "__crsql_dtrig\""@,
        "DROP TABLE IF EXISTS \""@ + table + "__crsql_clock\""@,
        "DROP TABLE IF EXISTS \""@ + table + "__crsql_pks\""@,
    ]
}

/// The statements that take a table out of the sync.
pub fn drop_crr_objects(table: &str) -> (r: Vec<String>)
    ensures
        texts(r@) == drop_statements(table@),
{
    let v = vec![
        concat3("DROP TRIGGER IF EXISTS \"", table, "__crsql_itrig\""),
        concat3("DROP TRIGGER IF EXISTS \"", table, "__crsql_utrig\""),
        concat3("DROP TRIGGER IF EXISTS \"", table, "__crsql_dtrig\""),
        concat3("DROP TABLE IF EXISTS \"", table, "__crsql_clock\""),
        concat3("DROP TABLE IF EXISTS \"", table, "__crsql_pks\""),
    ];
    assert(texts(v@) =~= drop_statements(table@));
    v
}

/// The statement that makes a table a synced one.
pub open spec fn register_statement(table: Seq<char>) -> Seq<char> {
    "SELECT crsql_as_crr('"@ + table + "')"@
}

/// The statements that renew the triggers of a table that is synced and whose triggers are stale.
/// A table that is not synced is left alone.
pub fn refresh_stale_crr_triggers(table: &str, synced: bool, fresh: bool) -> (r: Vec<String>)
    ensures
        texts(r@) == (if !synced || fresh {
            Seq::empty()
        } else {
            drop_statements(table@).push(register_statement(table@))
        }),
{
    broadcast use lemma_texts_push;

    if !synced || fresh {
        let v: Vec<String> = Vec::new();
        assert(texts(v@) =~= Seq::empty());
        return v;
    }
    let mut v = drop_crr_objects(table);
    let ghost before = texts(v@);
    v.push(concat3("SELECT crsql_as_crr('", table, "')"));
    assert(texts(v@) =~= before.push(register_statement(table@)));
    v
}

/// The statements that make a table a synced one with triggers that know all its columns.
pub open spec fn registration(table: Seq<char>, synced: bool, fresh: bool) -> Seq<Seq<char>> {
    if synced && fresh {
        Seq::empty()
    } else if synced {
        drop_statements(table).push(register_statement(table))
    } else {
        seq![register_statement(table)]
    }
}

/// The statements that make a table a synced one: none where it is and its triggers are right.
pub fn register_crr_table(table: &str, synced: bool, fresh: bool) -> (r: Vec<String>)
    ensures
        texts(r@) == registration(table@, synced, fresh),
{
    let mut v: Vec<String> = Vec::new();
    assert(texts(v@) =~= Seq::empty());
    if synced && fresh {
        return v;
    }
    if synced {
        return refresh_stale_crr_triggers(table, true, false);
    }
    v.push(concat3("SELECT crsql_as_crr('", table, "')"));
    assert(texts(v@) =~= seq![register_statement(table@)]);
    v
}

// ---------------------------------------------------------------------------------------------
// The extension
// ---------------------------------------------------------------------------------------------
/// Where the extension for the sync lies.
#[derive(Clone, Copy, PartialEq, Eq, Structural)]
pub enum ExtensionPlace {
    Development,
    BesideExecutable,
    Resources,
}

/// Where the extension is loaded from: the first place at which it is.
pub fn crsqlite_extension_path(development: bool, beside: bool, resources: bool) -> (r: Option<
    ExtensionPlace,
>)
    ensures
        match r {
            Some(ExtensionPlace::Development) => development,
            Some(ExtensionPlace::BesideExecutable) => !development && beside,
            Some(ExtensionPlace::Resources) => !development && !beside && resources,
            None => !development && !beside && !resources,
        },
{
    if development {
        Some(ExtensionPlace::Development)
    } else if beside {
        Some(ExtensionPlace::BesideExecutable)
    } else if resources {
        Some(ExtensionPlace::Resources)
    } else {
        None
    }
}

/// The statement that loads the extension from a path, in which quotes are doubled.
pub fn load_statement(path: &str) -> (r: String)
    ensures
        r@ == "SELECT load_extension('"@ + replace(path@, "'"@, "''"@)
            + "', 'sqlite3_crsqlite_init')"@,
{
    proof {
        reveal_strlit("'");
    }
    concat3(
        "SELECT load_extension('",
        replaced(path, "'", "''").as_str(),
        "', 'sqlite3_crsqlite_init')",
    )
}

// ---------------------------------------------------------------------------------------------
// Seeds
// ---------------------------------------------------------------------------------------------
/// What came of a seed when the database was opened. One that was applied says which id the device had
/// before, if there was a database.
pub enum SeedImportOutcome {
    Absent,
    Applied(Option<String>),
}

/// Which files are there when a seed is to be applied.
pub struct SeedFiles {
    pub db: bool,
    pub wal: bool,
    pub shm: bool,
    pub blobs: bool,
    pub seed_db: bool,
    pub seed_size: u64,
    pub seed_blobs: bool,
}

/// A file or a directory that is moved.
pub struct Move {
    pub from: String,
    pub to: String,
}

/// A move, read as its texts.
pub struct MoveModel {
    pub from: Seq<char>,
    pub to: Seq<char>,
}

/// The texts of moves.
pub open spec fn move_models(v: Seq<Move>) -> Seq<MoveModel> {
    Seq::new(v.len(), |i: int| MoveModel { from: v[i].from@, to: v[i].to@ })
}

/// A file that goes from one directory into another.
pub open spec fn moved(from: Seq<char>, to: Seq<char>, name: Seq<char>) -> MoveModel {
    MoveModel { from: joined(from, name), to: joined(to, name) }
}

/// One move, where it is made.
pub open spec fn move_if(go: bool, m: MoveModel) -> Seq<MoveModel> {
    if go {
        seq![m]
    } else {
        Seq::empty()
    }
}

/// The moves that set the current files aside: what belongs to the database goes with it.
pub open spec fn backup_moves(data: Seq<char>, backup: Seq<char>, f: SeedFiles) -> Seq<MoveModel> {
    move_if(f.db, moved(data, backup, "siku.db"@)) + move_if(
        f.db && f.wal,
        moved(data, backup, "siku.db-wal"@),
    ) + move_if(f.db && f.shm, moved(data, backup, "siku.db-shm"@)) + move_if(
        f.blobs,
        moved(data, backup, "blobs"@),
    )
}

/// The moves that put a seed into place.
pub open spec fn seed_moves(data: Seq<char>, seed: Seq<char>, f: SeedFiles) -> Seq<MoveModel> {
    seq![moved(seed, data, "siku.db"@)] + move_if(f.seed_blobs, moved(seed, data, "blobs"@))
}

/// The directory into which the current files are set aside.
pub open spec fn backup_place(data: Seq<char>, now: Seq<char>) -> Seq<char> {
    joined(
        data,
        "pre-seed-backup-"@ + replace(replace(now, ":"@, "-"@), "."@, "-"@),
    )
}

/// The directory into which the current files are set aside.
pub fn backup_dir(app_data_dir: &str, now: &str) -> (r: String)
    ensures
        r@ == backup_place(app_data_dir@, now@),
{
    proof {
        reveal_strlit(":");
        reveal_strlit(".");
    }
    let stamp = replaced(replaced(now, ":", "-").as_str(), ".", "-");
    join_path(app_data_dir, concat2("pre-seed-backup-", stamp.as_str()).as_str())
}

fn push_move(v: &mut Vec<Move>, go: bool, from: &str, to: &str, name: &str)
    ensures
        move_models(final(v)@) == move_models(old(v)@) + move_if(go, moved(from@, to@, name@)),
{
    let ghost before = v@;
    if go {
        v.push(Move { from: join_path(from, name), to: join_path(to, name) });
    }
    assert(move_models(v@) =~= move_models(before) + move_if(go, moved(from@, to@, name@)));
}

/// The moves by which a seed takes the place of the current files, in their order, or why it cannot.
pub fn apply_pending_seed_import(data: &str, seed: &str, backup: &str, f: &SeedFiles) -> (r: Result<
    Vec<Move>,
    String,
>)
    ensures
        match r {
            Ok(v) => f.seed_db && f.seed_size > 0 && move_models(v@) == backup_moves(
                data@,
                backup@,
                *f,
            ) + seed_moves(data@, seed@, *f),
            Err(e) => if !f.seed_db {
                e@ == "pending seed import does not contain siku.db: "@ + joined(seed@, "siku.db"@)
            } else {
                f.seed_size == 0 && e@ == "pending seed import siku.db is empty (0 bytes)"@
            },
        },
{
    if !f.seed_db {
        return Err(
            concat2(
                "pending seed import does not contain siku.db: ",
                join_path(seed, "siku.db").as_str(),
            ),
        );
    }
    if f.seed_size == 0 {
        return Err("pending seed import siku.db is empty (0 bytes)".to_owned());
    }
    let mut v: Vec<Move> = Vec::new();
    assert(move_models(v@) =~= Seq::empty());
    push_move(&mut v, f.db, data, backup, "siku.db");
    push_move(&mut v, f.db && f.wal, data, backup, "siku.db-wal");
    push_move(&mut v, f.db && f.shm, data, backup, "siku.db-shm");
    push_move(&mut v, f.blobs, data, backup, "blobs");
    push_move(&mut v, true, seed, data, "siku.db");
    push_move(&mut v, f.seed_blobs, seed, data, "blobs");
    assert(move_models(v@) =~= backup_moves(data@, backup@, *f) + seed_moves(data@, seed@, *f));
    Ok(v)
}

/// No file of the user is written over: where a file stands in the place of one of the seed, it is
/// moved away before.
pub proof fn law_seed_overwrites_nothing(
    data: Seq<char>,
    seed: Seq<char>,
    backup: Seq<char>,
    f: SeedFiles,
)
    ensures
        f.db ==> backup_moves(data, backup, f).contains(moved(data, backup, "siku.db"@)),
        f.blobs ==> backup_moves(data, backup, f).contains(moved(data, backup, "blobs"@)),
        f.db && f.wal ==> backup_moves(data, backup, f).contains(
            moved(data, backup, "siku.db-wal"@),
        ),
        f.db && f.shm ==> backup_moves(data, backup, f).contains(
            moved(data, backup, "siku.db-shm"@),
        ),
{
    let a = move_if(f.db, moved(data, backup, "siku.db"@));
    let b = move_if(f.db && f.wal, moved(data, backup, "siku.db-wal"@));
    let c = move_if(f.db && f.shm, moved(data, backup, "siku.db-shm"@));
    let d = move_if(f.blobs, moved(data, backup, "blobs"@));
    let all = backup_moves(data, backup, f);
    if f.db {
        assert(all[0] == moved(data, backup, "siku.db"@));
        if f.wal {
            assert(all[1] == moved(data, backup, "siku.db-wal"@));
        }
        if f.shm {
            assert(all[(a.len() + b.len()) as int] == moved(data, backup, "siku.db-shm"@));
        }
    }
    if f.blobs {
        assert(all[(a.len() + b.len() + c.len()) as int] == moved(data, backup, "blobs"@));
    }
}

/// The id of the device once the database is open. On the same machine a seed leaves it as it was. On
/// a new machine the id of the seed is that of another device, so the device gets a fresh one. Without
/// a seed it gets one only where it has none.
pub fn device_id_after(outcome: &SeedImportOutcome, stored: &str, fresh: &str) -> (r: String)
    ensures
        r@ == (match *outcome {
            SeedImportOutcome::Applied(Some(old_id)) => old_id@,
            SeedImportOutcome::Applied(None) => fresh@,
            SeedImportOutcome::Absent => if stored@.len() == 0 {
                fresh@
            } else {
                stored@
            },
        }),
{
    match outcome {
        SeedImportOutcome::Applied(Some(old_id)) => old_id.clone(),
        SeedImportOutcome::Applied(None) => fresh.to_owned(),
        SeedImportOutcome::Absent => if stored.is_empty() {
            fresh.to_owned()
        } else {
            stored.to_owned()
        },
    }
}

// ---------------------------------------------------------------------------------------------
// Closing
// ---------------------------------------------------------------------------------------------
/// The collection of all connections before the database is closed: how many are in hand, how often
/// in a row there was nothing to collect, and how often in a row a connection did not come back.
pub struct Finalizer {
    pub held: usize,
    pub confirm_waits: u32,
    pub waits: u32,
}

/// What is done next to collect the connections.
#[derive(Clone, Copy, PartialEq, Eq, Structural)]
pub enum FinalizeAction {
    /// A connection is asked for.
    Acquire,
    /// Nothing for half a second.
    Sleep,
    /// The connections in hand are finalized, and the database is closed.
    Close,
}

/// What came of asking for a connection.
#[derive(Clone, Copy, PartialEq, Eq, Structural)]
pub enum AcquireEvent {
    Acquired,
    Failed,
    TimedOut,
}

impl Finalizer {
    /// A collection that begins.
    pub fn new() -> (r: Finalizer)
        ensures
            r.held == 0 && r.confirm_waits == 0 && r.waits == 0,
    {
        Finalizer { held: 0, confirm_waits: 0, waits: 0 }
    }

    /// What is done next, where the pool has so many connections. A connection is asked for only where
    /// the pool has one that is not in hand: asking for one more would make the pool grow. All is
    /// collected once the pool was found complete twice in a row.
    pub fn next(&mut self, pool_size: usize, expired: bool) -> (r: FinalizeAction)
        requires
            old(self).confirm_waits < 2,
        ensures
            final(self).held == old(self).held,
            final(self).waits == old(self).waits,
            expired ==> r == FinalizeAction::Close && final(self).confirm_waits == old(self).confirm_waits,
            !expired && pool_size > old(self).held ==> r == FinalizeAction::Acquire && final(self).confirm_waits == old(self).confirm_waits,
            !expired && pool_size <= old(self).held ==> final(self).confirm_waits == old(self).confirm_waits + 1 && r == (if old(self).confirm_waits == 1 {
                FinalizeAction::Close
            } else {
                FinalizeAction::Sleep
            }),
            r != FinalizeAction::Close ==> final(self).confirm_waits < 2,
    {
        if expired {
            return FinalizeAction::Close;
        }
        if pool_size > self.held {
            return FinalizeAction::Acquire;
        }
        self.confirm_waits = self.confirm_waits + 1;
        if self.confirm_waits >= 2 {
            FinalizeAction::Close
        } else {
            FinalizeAction::Sleep
        }
    }

    /// Takes what came of asking for a connection, and tells whether the collection goes on.
    pub fn acquired(&mut self, event: AcquireEvent) -> (r: bool)
        requires
            old(self).held < usize::MAX,
            old(self).waits < u32::MAX,
        ensures
            match event {
                AcquireEvent::Acquired => r && final(self).held == old(self).held + 1 && final(self).confirm_waits == 0 && final(self).waits == 0,
                AcquireEvent::Failed => !r && *final(self) == *old(self),
                AcquireEvent::TimedOut => r && final(self).held == old(self).held && final(self).confirm_waits == old(self).confirm_waits && final(self).waits == old(self).waits
                    + 1,
            },
    {
        match event {
            AcquireEvent::Acquired => {
                self.held = self.held + 1;
                self.confirm_waits = 0;
                self.waits = 0;
                true
            },
            AcquireEvent::Failed => false,
            AcquireEvent::TimedOut => {
                self.waits = self.waits + 1;
                true
            },
        }
    }
}

} // verus!
