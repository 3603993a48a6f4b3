//! Bringing a database whose tables cannot be synced into a shape that can: which statements are run,
//! with which values, and in which order.
use vstd::prelude::*;
use vstd::string::*;

use crate::db::{
    are_renamed, attachments_recovery, attachments_statements, attachments_steps,
    current_vault_after, id_from, key_statements, keyed_models, keyed_statements, keyed_tables,
    law_keys_are_made_once, law_tables_are_made_anew_once, list_keyed_tables, needs_key,
    rename_vaults, vault_id, vault_statements, vault_steps, versions_statements, versions_steps,
    OldVault, VaultId,
};
use crate::models::Vault;
use crate::text::{opt_text, parse_signed, texts};
use crate::vault_service::current_vault_key;

verus! {

// ---------------------------------------------------------------------------------------------
// Statements and their values
// ---------------------------------------------------------------------------------------------
/// A value for a placeholder.
pub enum Bind {
    Text(String),
    Number(i64),
}

/// A value for a placeholder, read as its text.
pub enum BindModel {
    Text(Seq<char>),
    Number(int),
}

impl Bind {
    /// The value.
    pub open spec fn model(self) -> BindModel {
        match self {
            Bind::Text(t) => BindModel::Text(t@),
            Bind::Number(n) => BindModel::Number(n as int),
        }
    }
}

/// The values for placeholders.
pub open spec fn bind_models(v: Seq<Bind>) -> Seq<BindModel> {
    Seq::new(v.len(), |i: int| v[i].model())
}

/// What is run: a statement with its values, or statements that take effect all or not at all.
pub enum MigrationStep {
    Run { sql: String, binds: Vec<Bind> },
    Together(Vec<String>),
}

/// What is run, read as its texts.
pub enum StepModel {
    Run { sql: Seq<char>, binds: Seq<BindModel> },
    Together(Seq<Seq<char>>),
}

impl MigrationStep {
    /// The texts of a step.
    pub open spec fn model(self) -> StepModel {
        match self {
            MigrationStep::Run { sql, binds } => StepModel::Run {
                sql: sql@,
                binds: bind_models(binds@),
            },
            MigrationStep::Together(all) => StepModel::Together(texts(all@)),
        }
    }
}

/// The texts of steps.
pub open spec fn step_models(v: Seq<MigrationStep>) -> Seq<StepModel> {
    Seq::new(v.len(), |i: int| v[i].model())
}

/// A statement without values.
pub open spec fn plain(sql: Seq<char>) -> StepModel {
    StepModel::Run { sql, binds: Seq::empty() }
}

/// Statements without values, one after the other.
pub open spec fn all_plain(statements: Seq<Seq<char>>) -> Seq<StepModel> {
    Seq::new(statements.len(), |i: int| plain(statements[i]))
}

/// Statements that take effect together, where there are any.
pub open spec fn together(statements: Seq<Seq<char>>) -> Seq<StepModel> {
    if statements.len() == 0 {
        Seq::empty()
    } else {
        seq![StepModel::Together(statements)]
    }
}

proof fn lemma_steps_push(v: Seq<MigrationStep>, s: MigrationStep)
    ensures
        step_models(v.push(s)) == step_models(v).push(s.model()),
{
    assert(step_models(v.push(s)) =~= step_models(v).push(s.model()));
}

fn run_one(sql: &str) -> (r: MigrationStep)
    ensures
        r.model() == plain(sql@),
{
    let binds: Vec<Bind> = Vec::new();
    assert(bind_models(binds@) =~= Seq::empty());
    MigrationStep::Run { sql: sql.to_owned(), binds }
}

/// Adds statements without values.
fn add_plain(steps: &mut Vec<MigrationStep>, statements: &Vec<String>)
    ensures
        step_models(final(steps)@) == step_models(old(steps)@) + all_plain(texts(statements@)),
{
    let ghost before = step_models(steps@);
    let mut i: usize = 0;
    assert(before =~= before + all_plain(texts(statements@)).take(0));
    while i < statements.len()
        invariant
            i <= statements.len(),
            step_models(steps@) == before + all_plain(texts(statements@)).take(i as int),
        decreases statements.len() - i,
    {
        let step = run_one(statements[i].as_str());
        proof {
            lemma_steps_push(steps@, step);
            let all = all_plain(texts(statements@));
            assert(all[i as int] == plain(statements@[i as int]@));
            assert(before + all.take(i + 1) =~= (before + all.take(i as int)).push(all[i as int]));
        }
        steps.push(step);
        i += 1;
    }
    assert(all_plain(texts(statements@)).take(i as int) =~= all_plain(texts(statements@)));
}

/// Adds statements that take effect together.
fn add_together(steps: &mut Vec<MigrationStep>, statements: Vec<String>)
    ensures
        step_models(final(steps)@) == step_models(old(steps)@) + together(texts(statements@)),
{
    if statements.len() == 0 {
        assert(texts(statements@).len() == 0);
        assert(step_models(steps@) =~= step_models(steps@) + together(texts(statements@)));
        return;
    }
    let ghost all = texts(statements@);
    let step = MigrationStep::Together(statements);
    proof {
        lemma_steps_push(steps@, step);
        assert(step_models(steps@).push(step.model()) =~= step_models(steps@) + together(all));
    }
    steps.push(step);
}

// ---------------------------------------------------------------------------------------------
// The state of the tables
// ---------------------------------------------------------------------------------------------
/// A version of a note with a number for its id, which it does not keep.
pub struct OldVersion {
    pub note_id: String,
    pub title: String,
    pub content: String,
    pub edited_by: String,
    pub created_at: String,
}

/// What the database says of a table: whether its key may be missing, if there is a key, and its
/// definition.
pub struct KeyState {
    pub notnull: Option<i64>,
    pub sql: String,
}

/// What the database says before its tables are changed. A definition is empty where there is no such
/// table. The rows of vaults and versions are those that a table with numbers for ids holds.
pub struct SchemaState {
    pub vaults: String,
    pub old_vaults: Vec<OldVault>,
    pub current_vault: Option<String>,
    pub versions: String,
    pub old_versions: Vec<OldVersion>,
    pub attachments_old: String,
    pub attachments: String,
    /// One for each table that may have to be made anew.
    pub keyed: Vec<KeyState>,
}

// ---------------------------------------------------------------------------------------------
// Vaults
// ---------------------------------------------------------------------------------------------
/// Storing a vault under its new id.
pub open spec fn store_vault(v: OldVault, fresh: Seq<char>) -> StepModel {
    StepModel::Run {
        sql: "INSERT INTO vaults (id, name, created_at, updated_at) VALUES (?, ?, ?, ?)"@,
        binds: seq![
            BindModel::Text(vault_id(v.id, fresh)),
            BindModel::Text(v.name@),
            BindModel::Text(v.created_at@),
            BindModel::Text(v.updated_at@),
        ],
    }
}

/// Moving the notes of a vault to its new id.
pub open spec fn move_notes(v: OldVault, fresh: Seq<char>) -> StepModel {
    StepModel::Run {
        sql: "UPDATE notes SET vault_id = ? WHERE vault_id = ?"@,
        binds: seq![
            BindModel::Text(vault_id(v.id, fresh)),
            BindModel::Number(v.id as int),
        ],
    }
}

/// The new id of the first vault from `i` on with a number.
pub open spec fn renamed_from(
    old: Seq<OldVault>,
    fresh: Seq<Seq<char>>,
    number: int,
    i: int,
) -> Option<Seq<char>>
    decreases old.len() - i,
{
    if i < 0 || i >= old.len() {
        None
    } else if old[i].id == number {
        Some(vault_id(old[i].id, fresh[i]))
    } else {
        renamed_from(old, fresh, number, i + 1)
    }
}

/// The new id of the current vault, where the setting for it holds the number of a vault.
pub open spec fn renamed_current(
    current: Option<Seq<char>>,
    old: Seq<OldVault>,
    fresh: Seq<Seq<char>>,
) -> Option<Seq<char>> {
    match current {
        Some(c) => match parse_signed(c, i64::MIN as int, i64::MAX as int) {
            Some(number) => renamed_from(old, fresh, number, 0),
            None => None,
        },
        None => None,
    }
}

/// Setting the current vault to its new id.
pub open spec fn set_current(id: Seq<char>, now: Seq<char>) -> StepModel {
    StepModel::Run {
        sql: "UPDATE settings SET value = ?, updated_at = ? WHERE key = ?"@,
        binds: seq![
            BindModel::Text(id),
            BindModel::Text(now),
            BindModel::Text("notes.current_vault_id"@),
        ],
    }
}

/// The steps that give the vaults texts for ids: the table is made anew, each vault is stored under its
/// new id, its notes and the setting for the current one follow, and the old table goes.
pub open spec fn vault_migration(
    s: SchemaState,
    fresh: Seq<Seq<char>>,
    now: Seq<char>,
) -> Seq<StepModel> {
    if vault_steps(s.vaults@).len() == 0 {
        Seq::empty()
    } else {
        all_plain(vault_steps(s.vaults@)) + Seq::new(
            s.old_vaults@.len(),
            |i: int| store_vault(s.old_vaults@[i], fresh[i]),
        ) + Seq::new(s.old_vaults@.len(), |i: int| move_notes(s.old_vaults@[i], fresh[i])) + (
        match renamed_current(opt_text(s.current_vault), s.old_vaults@, fresh) {
            Some(id) => seq![set_current(id, now)],
            None => Seq::empty(),
        }) + seq![plain("DROP TABLE vaults_old"@)]
    }
}

proof fn lemma_renamed_from(
    old: Seq<OldVault>,
    fresh: Seq<Seq<char>>,
    vaults: Seq<Vault>,
    ids: Seq<VaultId>,
    number: int,
    i: int,
)
    requires
        are_renamed(old, fresh, vaults, ids),
        0 <= i <= old.len(),
    ensures
        id_from(ids, number, i) == renamed_from(old, fresh, number, i),
    decreases old.len() - i,
{
    if i < old.len() {
        assert(vaults[i].id@ == vault_id(old[i].id, fresh[i]));
        lemma_renamed_from(old, fresh, vaults, ids, number, i + 1);
    }
}

fn add_vaults(
    steps: &mut Vec<MigrationStep>,
    Ghost(old_vaults): Ghost<Seq<OldVault>>,
    Ghost(fresh): Ghost<Seq<Seq<char>>>,
    vaults: &Vec<Vault>,
    ids: &Vec<VaultId>,
)
    requires
        are_renamed(old_vaults, fresh, vaults@, ids@),
    ensures
        step_models(final(steps)@) == step_models(old(steps)@) + Seq::new(
            old_vaults.len(),
            |i: int| store_vault(old_vaults[i], fresh[i]),
        ) + Seq::new(old_vaults.len(), |i: int| move_notes(old_vaults[i], fresh[i])),
{
    let ghost before = step_models(steps@);
    let ghost stored = Seq::new(old_vaults.len(), |i: int| store_vault(old_vaults[i], fresh[i]));
    let ghost moved = Seq::new(old_vaults.len(), |i: int| move_notes(old_vaults[i], fresh[i]));
    let mut i: usize = 0;
    assert(before =~= before + stored.take(0));
    while i < vaults.len()
        invariant
            i <= vaults.len(),
            are_renamed(old_vaults, fresh, vaults@, ids@),
            stored == Seq::new(old_vaults.len(), |i: int| store_vault(old_vaults[i], fresh[i])),
            step_models(steps@) == before + stored.take(i as int),
        decreases vaults.len() - i,
    {
        let binds = vec![
            Bind::Text(vaults[i].id.clone()),
            Bind::Text(vaults[i].name.clone()),
            Bind::Text(vaults[i].created_at.clone()),
            Bind::Text(vaults[i].updated_at.clone()),
        ];
        let ghost given = bind_models(binds@);
        let step = MigrationStep::Run {
            sql: "INSERT INTO vaults (id, name, created_at, updated_at) VALUES (?, ?, ?, ?)".to_owned(),
            binds,
        };
        proof {
            lemma_steps_push(steps@, step);
            assert(vaults@[i as int].id@ == vault_id(old_vaults[i as int].id, fresh[i as int]));
            assert(given =~= store_vault(old_vaults[i as int], fresh[i as int])->binds);
            assert(before + stored.take(i + 1) =~= (before + stored.take(i as int)).push(
                stored[i as int],
            ));
        }
        steps.push(step);
        i += 1;
    }
    let ghost middle = step_models(steps@);
    assert(stored.take(i as int) =~= stored);
    let mut j: usize = 0;
    assert(middle =~= middle + moved.take(0));
    while j < ids.len()
        invariant
            j <= ids.len(),
            are_renamed(old_vaults, fresh, vaults@, ids@),
            moved == Seq::new(old_vaults.len(), |i: int| move_notes(old_vaults[i], fresh[i])),
            step_models(steps@) == middle + moved.take(j as int),
        decreases ids.len() - j,
    {
        let binds = vec![Bind::Text(ids[j].new.clone()), Bind::Number(ids[j].old)];
        let ghost given = bind_models(binds@);
        let step = MigrationStep::Run {
            sql: "UPDATE notes SET vault_id = ? WHERE vault_id = ?".to_owned(),
            binds,
        };
        proof {
            lemma_steps_push(steps@, step);
            assert(vaults@[j as int].id@ == vault_id(old_vaults[j as int].id, fresh[j as int]));
            assert(given =~= move_notes(old_vaults[j as int], fresh[j as int])->binds);
            assert(middle + moved.take(j + 1) =~= (middle + moved.take(j as int)).push(
                moved[j as int],
            ));
        }
        steps.push(step);
        j += 1;
    }
    assert(moved.take(j as int) =~= moved);
}

/// Adds the steps that give the vaults texts for ids.
fn add_vault_migration(
    steps: &mut Vec<MigrationStep>,
    s: &SchemaState,
    fresh: &Vec<String>,
    now: &str,
)
    requires
        fresh@.len() >= s.old_vaults@.len(),
    ensures
        step_models(final(steps)@) == step_models(old(steps)@) + vault_migration(
            *s,
            texts(fresh@),
            now@,
        ),
{
    let ghost before = step_models(steps@);
    let statements = vault_statements(s.vaults.as_str());
    if statements.len() == 0 {
        assert(texts(statements@).len() == 0);
        assert(before =~= before + vault_migration(*s, texts(fresh@), now@));
        return;
    }
    assert(texts(statements@).len() > 0);
    let (vaults, ids) = rename_vaults(&s.old_vaults, fresh);
    add_plain(steps, &statements);
    add_vaults(steps, Ghost(s.old_vaults@), Ghost(texts(fresh@)), &vaults, &ids);
    let current = match &s.current_vault {
        Some(c) => current_vault_after(c.as_str(), &ids),
        None => None,
    };
    proof {
        if let Some(c) = opt_text(s.current_vault) {
            if let Some(number) = parse_signed(c, i64::MIN as int, i64::MAX as int) {
                lemma_renamed_from(s.old_vaults@, texts(fresh@), vaults@, ids@, number, 0);
            }
        }
    }
    let ghost chosen = opt_text(current);
    assert(chosen == renamed_current(opt_text(s.current_vault), s.old_vaults@, texts(fresh@)));
    let ghost third = step_models(steps@);
    let ghost set: Seq<StepModel> = match chosen {
        Some(id) => seq![set_current(id, now@)],
        None => Seq::empty(),
    };
    if let Some(id) = current {
        let binds = vec![
            Bind::Text(id),
            Bind::Text(now.to_owned()),
            Bind::Text(current_vault_key().to_owned()),
        ];
        let ghost given = bind_models(binds@);
        let step = MigrationStep::Run {
            sql: "UPDATE settings SET value = ?, updated_at = ? WHERE key = ?".to_owned(),
            binds,
        };
        proof {
            lemma_steps_push(steps@, step);
            assert(given =~= set_current(chosen->0, now@)->binds);
        }
        steps.push(step);
    }
    assert(step_models(steps@) =~= third + set);
    let last = run_one("DROP TABLE vaults_old");
    proof {
        lemma_steps_push(steps@, last);
    }
    steps.push(last);
    assert(step_models(steps@) =~= before + vault_migration(*s, texts(fresh@), now@));
}

// ---------------------------------------------------------------------------------------------
// Versions of notes
// ---------------------------------------------------------------------------------------------
/// Storing a version of a note under a fresh id.
pub open spec fn store_version(v: OldVersion, fresh: Seq<char>) -> StepModel {
    StepModel::Run {
        sql: "INSERT INTO note_versions (id, note_id, title, content, edited_by, created_at) VALUES (?, ?, ?, ?, ?, ?)"@,
        binds: seq![
            BindModel::Text(fresh),
            BindModel::Text(v.note_id@),
            BindModel::Text(v.title@),
            BindModel::Text(v.content@),
            BindModel::Text(v.edited_by@),
            BindModel::Text(v.created_at@),
        ],
    }
}

/// The steps that give the versions of notes texts for ids: the table is made anew, each version is
/// stored under a fresh id, and the old table goes.
pub open spec fn versions_migration(s: SchemaState, fresh: Seq<Seq<char>>) -> Seq<StepModel> {
    if versions_steps(s.versions@).len() == 0 {
        Seq::empty()
    } else {
        all_plain(versions_steps(s.versions@)) + Seq::new(
            s.old_versions@.len(),
            |i: int| store_version(s.old_versions@[i], fresh[i]),
        ) + seq![plain("DROP TABLE note_versions_old"@)]
    }
}

/// Adds the steps that give the versions of notes texts for ids.
fn add_versions_migration(steps: &mut Vec<MigrationStep>, s: &SchemaState, fresh: &Vec<String>)
    requires
        fresh@.len() >= s.old_versions@.len(),
    ensures
        step_models(final(steps)@) == step_models(old(steps)@) + versions_migration(
            *s,
            texts(fresh@),
        ),
{
    let ghost before = step_models(steps@);
    let statements = versions_statements(s.versions.as_str());
    if statements.len() == 0 {
        assert(texts(statements@).len() == 0);
        assert(before =~= before + versions_migration(*s, texts(fresh@)));
        return;
    }
    assert(texts(statements@).len() > 0);
    add_plain(steps, &statements);
    let ghost middle = step_models(steps@);
    let ghost stored = Seq::new(
        s.old_versions@.len(),
        |i: int| store_version(s.old_versions@[i], texts(fresh@)[i]),
    );
    let mut i: usize = 0;
    assert(middle =~= middle + stored.take(0));
    while i < s.old_versions.len()
        invariant
            i <= s.old_versions.len(),
            fresh@.len() >= s.old_versions@.len(),
            stored == Seq::new(
                s.old_versions@.len(),
                |i: int| store_version(s.old_versions@[i], texts(fresh@)[i]),
            ),
            step_models(steps@) == middle + stored.take(i as int),
        decreases s.old_versions.len() - i,
    {
        let binds = vec![
            Bind::Text(fresh[i].clone()),
            Bind::Text(s.old_versions[i].note_id.clone()),
            Bind::Text(s.old_versions[i].title.clone()),
            Bind::Text(s.old_versions[i].content.clone()),
            Bind::Text(s.old_versions[i].edited_by.clone()),
            Bind::Text(s.old_versions[i].created_at.clone()),
        ];
        let ghost given = bind_models(binds@);
        let step = MigrationStep::Run {
            sql: "INSERT INTO note_versions (id, note_id, title, content, edited_by, created_at) VALUES (?, ?, ?, ?, ?, ?)".to_owned(),
            binds,
        };
        proof {
            lemma_steps_push(steps@, step);
            assert(given =~= store_version(
                s.old_versions@[i as int],
                texts(fresh@)[i as int],
            )->binds);
            assert(middle + stored.take(i + 1) =~= (middle + stored.take(i as int)).push(
                stored[i as int],
            ));
        }
        steps.push(step);
        i += 1;
    }
    assert(stored.take(i as int) =~= stored);
    let last = run_one("DROP TABLE note_versions_old");
    proof {
        lemma_steps_push(steps@, last);
    }
    steps.push(last);
    assert(step_models(steps@) =~= before + versions_migration(*s, texts(fresh@)));
}

// ---------------------------------------------------------------------------------------------
// Attachments and keys
// ---------------------------------------------------------------------------------------------
/// The statements that bring back the attachments of a change that was broken off, where there is a
/// table that it left behind.
pub open spec fn recovery_steps(left: Seq<char>) -> Seq<Seq<char>> {
    if left.len() > 0 {
        attachments_recovery()
    } else {
        Seq::empty()
    }
}

/// The statements that make the keys of a table anew, where they have to be.
pub open spec fn key_steps(i: int, state: KeyState) -> Seq<Seq<char>> {
    if needs_key(keyed_tables()[i].table, state.notnull, state.sql@) {
        keyed_statements(keyed_tables()[i])
    } else {
        Seq::empty()
    }
}

/// The steps that make the keys of the first `n` tables anew.
pub open spec fn keys_migration(keyed: Seq<KeyState>, n: int) -> Seq<StepModel>
    decreases n,
{
    if n <= 0 {
        Seq::empty()
    } else {
        keys_migration(keyed, n - 1) + all_plain(key_steps(n - 1, keyed[n - 1]))
    }
}

fn add_keys_migration(steps: &mut Vec<MigrationStep>, keyed: &Vec<KeyState>)
    requires
        keyed@.len() == keyed_tables().len(),
    ensures
        step_models(final(steps)@) == step_models(old(steps)@) + keys_migration(
            keyed@,
            keyed@.len() as int,
        ),
{
    let ghost before = step_models(steps@);
    let tables = list_keyed_tables();
    assert(keyed_models(tables@).len() == tables@.len());
    let mut i: usize = 0;
    assert(before =~= before + keys_migration(keyed@, 0));
    while i < keyed.len()
        invariant
            i <= keyed.len(),
            keyed@.len() == tables@.len(),
            keyed_models(tables@) == keyed_tables(),
            step_models(steps@) == before + keys_migration(keyed@, i as int),
        decreases keyed.len() - i,
    {
        let statements = key_statements(&tables[i], keyed[i].notnull, keyed[i].sql.as_str());
        proof {
            assert(keyed_models(tables@)[i as int] == tables@[i as int].model());
            assert(texts(statements@) == key_steps(i as int, keyed@[i as int]));
        }
        add_plain(steps, &statements);
        assert(step_models(steps@) =~= before + keys_migration(keyed@, i + 1));
        i += 1;
    }
}

// ---------------------------------------------------------------------------------------------
// The whole change
// ---------------------------------------------------------------------------------------------
/// What is run to bring the tables into a shape that can be synced. All of it runs on one connection.
/// What stands in `after` is run whether or not the steps came through.
pub struct Migration {
    pub before: Vec<String>,
    pub steps: Vec<MigrationStep>,
    pub after: Vec<String>,
}

/// What is run before the steps: references are not enforced, and renaming a table leaves the
/// references to it as they are.
pub open spec fn before_migration() -> Seq<Seq<char>> {
    seq!["PRAGMA foreign_keys = OFF"@, "PRAGMA legacy_alter_table = ON"@]
}

/// What is run after the steps.
pub open spec fn after_migration() -> Seq<Seq<char>> {
    seq!["PRAGMA legacy_alter_table = OFF"@, "PRAGMA foreign_keys = ON"@]
}

/// The steps: vaults, versions of notes, attachments that a broken change left behind, attachments, and
/// the tables whose keys may be missing.
pub open spec fn migration_steps(
    s: SchemaState,
    vault_ids: Seq<Seq<char>>,
    version_ids: Seq<Seq<char>>,
    now: Seq<char>,
) -> Seq<StepModel> {
    vault_migration(s, vault_ids, now) + versions_migration(s, version_ids) + together(
        recovery_steps(s.attachments_old@),
    ) + together(attachments_steps(s.attachments@)) + keys_migration(
        s.keyed@,
        s.keyed@.len() as int,
    )
}

/// What is run to bring the tables into a shape that can be synced. `vault_ids` and `version_ids` hold
/// a fresh id for each row.
pub fn migrate_sync_schema_v2(
    s: &SchemaState,
    vault_ids: &Vec<String>,
    version_ids: &Vec<String>,
    now: &str,
) -> (r: Migration)
    requires
        vault_ids@.len() >= s.old_vaults@.len(),
        version_ids@.len() >= s.old_versions@.len(),
        s.keyed@.len() == keyed_tables().len(),
    ensures
        texts(r.before@) == before_migration(),
        step_models(r.steps@) == migration_steps(*s, texts(vault_ids@), texts(version_ids@), now@),
        texts(r.after@) == after_migration(),
{
    let before = vec![
        "PRAGMA foreign_keys = OFF".to_owned(),
        "PRAGMA legacy_alter_table = ON".to_owned(),
    ];
    let after = vec![
        "PRAGMA legacy_alter_table = OFF".to_owned(),
        "PRAGMA foreign_keys = ON".to_owned(),
    ];
    assert(texts(before@) =~= before_migration());
    assert(texts(after@) =~= after_migration());
    let mut steps: Vec<MigrationStep> = Vec::new();
    assert(step_models(steps@) =~= Seq::empty());
    add_vault_migration(&mut steps, s, vault_ids, now);
    add_versions_migration(&mut steps, s, version_ids);
    let (recovery, rebuild) = attachments_statements(s.attachments_old.as_str(), s.attachments.as_str());
    assert(texts(recovery@) == recovery_steps(s.attachments_old@));
    add_together(&mut steps, recovery);
    add_together(&mut steps, rebuild);
    add_keys_migration(&mut steps, &s.keyed);
    assert(step_models(steps@) =~= migration_steps(
        *s,
        texts(vault_ids@),
        texts(version_ids@),
        now@,
    ));
    Migration { before, steps, after }
}

/// Whether `t` is what the database says after the steps for `s` were run: each table that was made
/// anew has its new definition and a key that cannot be missing, any other is as it was, and no table
/// is left behind.
pub open spec fn is_migrated(s: SchemaState, t: SchemaState) -> bool {
    &&& t.vaults@ == (if vault_steps(s.vaults@).len() > 0 {
        vault_steps(s.vaults@)[1]
    } else {
        s.vaults@
    })
    &&& t.versions@ == (if versions_steps(s.versions@).len() > 0 {
        versions_steps(s.versions@)[1]
    } else {
        s.versions@
    })
    &&& t.attachments_old@.len() == 0
    &&& t.attachments@ == (if attachments_steps(s.attachments@).len() > 0 {
        attachments_steps(s.attachments@)[1]
    } else {
        s.attachments@
    })
    &&& t.keyed@.len() == s.keyed@.len()
    &&& forall|i: int|
        0 <= i < s.keyed@.len() ==> if needs_key(
            keyed_tables()[i].table,
            (#[trigger] s.keyed@[i]).notnull,
            s.keyed@[i].sql@,
        ) {
            t.keyed@[i].notnull == Some(1i64) && t.keyed@[i].sql@ == keyed_tables()[i].create
        } else {
            t.keyed@[i].notnull == s.keyed@[i].notnull && t.keyed@[i].sql@ == s.keyed@[i].sql@
        }
}

/// The change is made once: where it was made there are no steps.
pub proof fn law_migration_is_made_once(
    s: SchemaState,
    t: SchemaState,
    vault_ids: Seq<Seq<char>>,
    version_ids: Seq<Seq<char>>,
    now: Seq<char>,
)
    requires
        s.keyed@.len() == keyed_tables().len(),
        is_migrated(s, t),
    ensures
        migration_steps(t, vault_ids, version_ids, now).len() == 0,
{
    law_tables_are_made_anew_once(s.vaults@);
    law_tables_are_made_anew_once(s.versions@);
    law_tables_are_made_anew_once(s.attachments@);
    assert(vault_steps(t.vaults@).len() == 0);
    assert(versions_steps(t.versions@).len() == 0);
    assert(attachments_steps(t.attachments@).len() == 0);
    assert forall|i: int| 0 <= i < t.keyed@.len() implies (#[trigger] key_steps(
        i,
        t.keyed@[i],
    )).len() == 0 by {
        let old = s.keyed@[i];
        law_keys_are_made_once(i);
    }
    lemma_no_keys(t.keyed@, t.keyed@.len() as int);
}

proof fn lemma_no_keys(keyed: Seq<KeyState>, n: int)
    requires
        0 <= n <= keyed.len(),
        forall|i: int| 0 <= i < keyed.len() ==> (#[trigger] key_steps(i, keyed[i])).len() == 0,
    ensures
        keys_migration(keyed, n).len() == 0,
    decreases n,
{
    if n > 0 {
        lemma_no_keys(keyed, n - 1);
        assert(key_steps(n - 1, keyed[n - 1]).len() == 0);
    }
}

/// No vault is lost: each is stored again, with all that it says, and its notes follow it, before the
/// old table goes.
pub proof fn law_no_vault_is_lost(
    s: SchemaState,
    fresh: Seq<Seq<char>>,
    now: Seq<char>,
    i: int,
)
    requires
        vault_steps(s.vaults@).len() > 0,
        0 <= i < s.old_vaults@.len(),
    ensures
        ({
            let m = vault_migration(s, fresh, now);
            let n = s.old_vaults@.len();
            &&& m[2 + i] == store_vault(s.old_vaults@[i], fresh[i])
            &&& m[2 + n + i] == move_notes(s.old_vaults@[i], fresh[i])
            &&& 2 + n + i < m.len() - 1
            &&& m.last() == plain("DROP TABLE vaults_old"@)
        }),
{
}

/// No version of a note is lost: each is stored again, with all that it says, before the old table
/// goes.
pub proof fn law_no_version_is_lost(s: SchemaState, fresh: Seq<Seq<char>>, i: int)
    requires
        versions_steps(s.versions@).len() > 0,
        0 <= i < s.old_versions@.len(),
    ensures
        ({
            let m = versions_migration(s, fresh);
            &&& m[3 + i] == store_version(s.old_versions@[i], fresh[i])
            &&& 3 + i < m.len() - 1
            &&& m.last() == plain("DROP TABLE note_versions_old"@)
        }),
{
}

} // verus!
