use siku::db::{
    list_keyed_tables, register_crr_table, vault_statements, versions_statements, OldVault,
    DEFAULT_VAULT_ID,
};
use siku::sync_schema::{
    migrate_sync_schema_v2, Bind, KeyState, MigrationStep, OldVersion, SchemaState,
};
use siku::vault_service::current_vault_key;
use sqlx::{Connection, SqliteConnection};

const TS: &str = "2026-01-01T00:00:00Z";

struct Db {
    runtime: tokio::runtime::Runtime,
    conn: SqliteConnection,
}

impl Db {
    fn new() -> Db {
        let runtime = tokio::runtime::Runtime::new().unwrap();
        let conn = runtime.block_on(SqliteConnection::connect("sqlite::memory:")).unwrap();
        Db { runtime, conn }
    }

    fn run(&mut self, sql: &str) {
        self.runtime.block_on(sqlx::query(sql).execute(&mut self.conn)).unwrap();
    }

    fn texts(&mut self, sql: &str) -> Vec<String> {
        self.runtime.block_on(sqlx::query_scalar(sql).fetch_all(&mut self.conn)).unwrap()
    }

    fn text(&mut self, sql: &str) -> String {
        self.texts(sql).remove(0)
    }

    fn count(&mut self, sql: &str) -> i64 {
        self.runtime.block_on(sqlx::query_scalar(sql).fetch_one(&mut self.conn)).unwrap()
    }

    fn definition(&mut self, table: &str) -> String {
        self.texts(&format!("SELECT sql FROM sqlite_master WHERE type='table' AND name='{table}'"))
            .pop()
            .unwrap_or_default()
    }

    fn state(&mut self) -> SchemaState {
        let vaults = self.definition("vaults");
        let mut old_vaults = vec![];
        let mut current_vault = None;
        if !vault_statements(&vaults).is_empty() {
            let query = sqlx::query_as("SELECT id, name, created_at, updated_at FROM vaults");
            let rows: Vec<(i64, String, String, String)> =
                self.runtime.block_on(query.fetch_all(&mut self.conn)).unwrap();
            for (id, name, created_at, updated_at) in rows {
                old_vaults.push(OldVault { id, name, created_at, updated_at });
            }
            let key = current_vault_key();
            current_vault =
                self.texts(&format!("SELECT value FROM settings WHERE key = '{key}'")).pop();
        }
        let versions = self.definition("note_versions");
        let mut old_versions = vec![];
        if !versions_statements(&versions).is_empty() {
            let query = sqlx::query_as(
                "SELECT note_id, title, content, edited_by, created_at FROM note_versions",
            );
            let rows: Vec<(String, String, String, String, String)> =
                self.runtime.block_on(query.fetch_all(&mut self.conn)).unwrap();
            for (note_id, title, content, edited_by, created_at) in rows {
                old_versions.push(OldVersion { note_id, title, content, edited_by, created_at });
            }
        }
        let mut keyed = vec![];
        for t in list_keyed_tables() {
            let sql = format!(
                "SELECT \"notnull\" FROM pragma_table_info('{}') WHERE pk = 1 LIMIT 1",
                t.table
            );
            let query = sqlx::query_scalar(&sql).fetch_optional(&mut self.conn);
            let notnull: Option<i64> = self.runtime.block_on(query).unwrap();
            keyed.push(KeyState { notnull, sql: self.definition(&t.table) });
        }
        SchemaState {
            vaults,
            old_vaults,
            current_vault,
            versions,
            old_versions,
            attachments_old: self.definition("attachments_old"),
            attachments: self.definition("attachments"),
            keyed,
        }
    }

    fn migrate(&mut self) -> usize {
        let state = self.state();
        let fresh = |n: usize| -> Vec<String> {
            (0..n).map(|_| uuid::Uuid::new_v4().to_string()).collect()
        };
        let vaults = fresh(state.old_vaults.len());
        let versions = fresh(state.old_versions.len());
        let m = migrate_sync_schema_v2(&state, &vaults, &versions, TS);
        let steps = m.steps.len();
        for sql in &m.before {
            self.run(sql);
        }
        for step in m.steps {
            match step {
                MigrationStep::Run { sql, binds } => {
                    let mut query = sqlx::query(&sql);
                    for bind in binds {
                        query = match bind {
                            Bind::Text(t) => query.bind(t),
                            Bind::Number(n) => query.bind(n),
                        };
                    }
                    self.runtime.block_on(query.execute(&mut self.conn)).unwrap();
                }
                MigrationStep::Together(all) => {
                    for sql in &all {
                        self.run(sql);
                    }
                }
            }
        }
        for sql in &m.after {
            self.run(sql);
        }
        steps
    }
}

#[test]
fn migrate_sync_schema_v2_converts_legacy_tables() {
    let mut db = Db::new();
    db.run("CREATE TABLE vaults (id INTEGER PRIMARY KEY AUTOINCREMENT, name TEXT NOT NULL UNIQUE, created_at TEXT NOT NULL, updated_at TEXT NOT NULL)");
    db.run("CREATE TABLE notes (id TEXT PRIMARY KEY, vault_id INTEGER NOT NULL DEFAULT 1)");
    db.run("CREATE TABLE settings (key TEXT PRIMARY KEY NOT NULL, value TEXT NOT NULL DEFAULT '', updated_at TEXT NOT NULL DEFAULT '')");
    db.run("CREATE TABLE tags (id TEXT PRIMARY KEY, name TEXT NOT NULL UNIQUE, color TEXT DEFAULT '#3b82f6', parent_id TEXT, created_at TEXT NOT NULL)");
    db.run("CREATE TABLE note_versions (id INTEGER PRIMARY KEY AUTOINCREMENT, note_id TEXT NOT NULL, title TEXT NOT NULL, content TEXT NOT NULL DEFAULT '', edited_by TEXT NOT NULL DEFAULT 'agent', created_at TEXT NOT NULL)");
    // Vault 1 is the default one, and vault 2 another.
    for name in ["cognitive-archive", "work"] {
        db.run(&format!(
            "INSERT INTO vaults (name, created_at, updated_at) VALUES ('{name}', '{TS}', '{TS}')"
        ));
    }
    db.run("INSERT INTO notes (id, vault_id) VALUES ('n1', 1), ('n2', 2)");
    let key = current_vault_key();
    db.run(&format!("INSERT INTO settings (key, value, updated_at) VALUES ('{key}', '2', '{TS}')"));
    db.run(&format!(
        "INSERT INTO note_versions (note_id, title, created_at) VALUES ('n1', 'Note 1', '{TS}')"
    ));
    db.run(&format!("INSERT INTO tags (id, name, created_at) VALUES ('t1', 'ml', '{TS}')"));

    assert!(db.migrate() > 0);

    // The default vault has the fixed id, and the other a fresh one that is no number.
    let default_id = db.text("SELECT id FROM vaults WHERE name = 'cognitive-archive'");
    assert_eq!(default_id, DEFAULT_VAULT_ID);
    let work_id = db.text("SELECT id FROM vaults WHERE name = 'work'");
    assert!(work_id.len() > 8 && work_id.parse::<i64>().is_err());
    // The notes and the current vault follow.
    assert_eq!(db.text("SELECT vault_id FROM notes WHERE id = 'n1'"), DEFAULT_VAULT_ID);
    assert_eq!(db.text("SELECT vault_id FROM notes WHERE id = 'n2'"), work_id);
    assert_eq!(db.text(&format!("SELECT value FROM settings WHERE key = '{key}'")), work_id);
    // The versions are there with ids that are no numbers.
    let version = db.text("SELECT id FROM note_versions WHERE note_id = 'n1'");
    assert!(version.parse::<i64>().is_err());
    // Two tags may have one name.
    db.run(&format!("INSERT INTO tags (id, name, created_at) VALUES ('t2', 'ml', '{TS}')"));
    // A second run does nothing.
    assert_eq!(db.migrate(), 0);
    assert_eq!(db.count("SELECT count(*) FROM vaults"), 2);
}

const PAPERS: &str =
    "CREATE TABLE papers (id TEXT PRIMARY KEY NOT NULL, title TEXT NOT NULL DEFAULT '')";

fn legacy_attachments(name: &str) -> String {
    format!(
        "CREATE TABLE {name} (
            id TEXT PRIMARY KEY,
            paper_id TEXT NOT NULL REFERENCES papers(id) ON DELETE CASCADE,
            file_name TEXT NOT NULL,
            file_path TEXT NOT NULL,
            file_type TEXT NOT NULL,
            description TEXT,
            created_at TEXT NOT NULL
        )"
    )
}

#[test]
fn sync_schema_v2_rebuilds_attachments_without_fk() {
    let mut db = Db::new();
    db.run(PAPERS);
    db.run(&legacy_attachments("attachments"));
    db.run("INSERT INTO papers (id, title) VALUES ('p1', 'Paper One')");
    db.run("INSERT INTO attachments (id, paper_id, file_name, file_path, file_type, created_at) VALUES ('att-legacy', 'p1', 'main.pdf', 'blobs/x.pdf', 'pdf', '2026-01-01T00:00:00Z')");

    db.migrate();

    let ddl = db.definition("attachments");
    assert!(!ddl.contains("REFERENCES"), "{ddl}");
    assert!(ddl.contains("NOT NULL"), "{ddl}");
    assert_eq!(db.text("SELECT file_name FROM attachments WHERE id = 'att-legacy'"), "main.pdf");
    // The table can be synced now.
    assert_eq!(
        register_crr_table("attachments", false, false),
        vec!["SELECT crsql_as_crr('attachments')"]
    );
}

#[test]
fn sync_schema_v2_recovers_stranded_attachments_old() {
    let mut db = Db::new();
    db.run(PAPERS);
    db.run("INSERT INTO papers (id, title) VALUES ('p1', 'Paper One')");
    // The new table holds what was copied before the break.
    db.run(
        "CREATE TABLE attachments (
            id TEXT PRIMARY KEY NOT NULL,
            paper_id TEXT NOT NULL DEFAULT '',
            file_name TEXT NOT NULL DEFAULT '',
            file_path TEXT NOT NULL DEFAULT '',
            file_type TEXT NOT NULL DEFAULT '',
            description TEXT,
            created_at TEXT NOT NULL DEFAULT ''
        )",
    );
    db.run("INSERT INTO attachments (id, paper_id, file_name, file_path, file_type, created_at) VALUES ('att-copied', 'p1', 'main.pdf', 'blobs/x.pdf', 'pdf', '2026-01-01T00:00:00Z')");
    // The old table holds everything.
    db.run(&legacy_attachments("attachments_old"));
    db.run("INSERT INTO attachments_old (id, paper_id, file_name, file_path, file_type, created_at) VALUES ('att-copied', 'p1', 'main.pdf', 'blobs/x.pdf', 'pdf', '2026-01-01T00:00:00Z'), ('att-stranded', 'p1', 'supp.pdf', 'blobs/y.pdf', 'pdf', '2026-01-01T00:00:00Z')");

    db.migrate();

    assert_eq!(
        db.texts("SELECT file_name FROM attachments ORDER BY id"),
        vec!["main.pdf", "supp.pdf"]
    );
    assert_eq!(
        db.count("SELECT count(*) FROM sqlite_master WHERE type='table' AND name='attachments_old'"),
        0
    );
    // A second run leaves the rows as they are.
    db.migrate();
    assert_eq!(db.count("SELECT count(*) FROM attachments"), 2);
}
