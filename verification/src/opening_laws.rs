//! What opening the database does to its tables and files: every missing column is added and nothing
//! else, a table is synced with all its columns, and a seed takes the place of what was there.
use vstd::prelude::*;
use vstd::string::*;

use crate::db::{
    add_column, backup_moves, columns_added, columns_after, drop_statements, is_fresh,
    keyed_statements, move_if, moved, needs_key, register_statement, registration, seed_moves,
    ColumnModel, KeyedModel, MoveModel, SeedFiles, StepModel,
};
use crate::file_store::joined;
use crate::text::contains;

verus! {

/// Whether a step is about a column.
pub open spec fn names_column(s: StepModel, c: ColumnModel) -> bool {
    match s {
        StepModel::Column { table, column, .. } => table == c.table && column == c.column,
        _ => false,
    }
}

/// Behind steps there are the columns that were there before and those that the steps name.
pub proof fn law_columns_behind_the_steps(
    had: Set<ColumnModel>,
    steps: Seq<StepModel>,
    c: ColumnModel,
)
    ensures
        columns_after(had, steps).contains(c) <==> had.contains(c) || exists|i: int|
            0 <= i < steps.len() && names_column(#[trigger] steps[i], c),
    decreases steps.len(),
{
    if steps.len() > 0 {
        let front = steps.drop_last();
        law_columns_behind_the_steps(had, front, c);
        if exists|i: int| 0 <= i < steps.len() && names_column(#[trigger] steps[i], c) {
            let i = choose|i: int| 0 <= i < steps.len() && names_column(#[trigger] steps[i], c);
            if i < front.len() {
                assert(names_column(front[i], c));
            }
        }
        if exists|i: int| 0 <= i < front.len() && names_column(#[trigger] front[i], c) {
            let i = choose|i: int| 0 <= i < front.len() && names_column(#[trigger] front[i], c);
            assert(names_column(steps[i], c));
        }
        if columns_after(had, steps).contains(c) && !columns_after(had, front).contains(c) {
            assert(names_column(steps[steps.len() - 1], c));
        }
    }
}

/// A column that the database lacks is added by the first step that names it, with the type that the
/// step gives it.
pub proof fn law_missing_column_is_added(had: Set<ColumnModel>, steps: Seq<StepModel>, i: int)
    requires
        0 <= i < steps.len(),
    ensures
        match steps[i] {
            StepModel::Column { table, column, def } => !had.contains(
                ColumnModel { table, column },
            ) && (forall|j: int|
                0 <= j < i ==> !names_column(
                    #[trigger] steps[j],
                    (ColumnModel { table, column }),
                )) ==> columns_added(had, steps).contains(
                "ALTER TABLE "@ + table + " ADD COLUMN "@ + column + " "@ + def,
            ),
            _ => true,
        },
    decreases steps.len(),
{
    let front = steps.drop_last();
    let before = columns_added(had, front);
    let all = columns_added(had, steps);
    assert(all == before || (all.len() == before.len() + 1 && all.drop_last() =~= before));
    if let StepModel::Column { table, column, def } = steps[i] {
        let c = ColumnModel { table, column };
        if !had.contains(c) && (forall|j: int|
            0 <= j < i ==> !names_column(#[trigger] steps[j], c)) {
            if i < front.len() {
                assert(front[i] == steps[i]);
                assert forall|j: int| 0 <= j < i implies !names_column(#[trigger] front[j], c) by {
                    assert(!names_column(steps[j], c));
                }
                law_missing_column_is_added(had, front, i);
                let x = add_column(table, column, def);
                let k = choose|k: int| 0 <= k < before.len() && before[k] == x;
                assert(all[k] == x);
            } else {
                law_columns_behind_the_steps(had, front, c);
                assert forall|j: int| 0 <= j < front.len() implies !names_column(
                    #[trigger] front[j],
                    c,
                ) by {
                    assert(!names_column(steps[j], c));
                }
                assert(all.last() == add_column(table, column, def));
            }
        }
    }
}

/// Each statement that is run adds a column that the database lacks, as one of the steps says.
pub proof fn law_only_missing_columns_are_added(
    had: Set<ColumnModel>,
    steps: Seq<StepModel>,
    k: int,
)
    requires
        0 <= k < columns_added(had, steps).len(),
    ensures
        exists|i: int|
            0 <= i < steps.len() && (match #[trigger] steps[i] {
                StepModel::Column { table, column, def } => !had.contains(
                    ColumnModel { table, column },
                ) && columns_added(had, steps)[k] == "ALTER TABLE "@ + table + " ADD COLUMN "@
                    + column + " "@ + def,
                _ => false,
            }),
    decreases steps.len(),
{
    let front = steps.drop_last();
    let before = columns_added(had, front);
    if k < before.len() {
        law_only_missing_columns_are_added(had, front, k);
        let i = choose|i: int|
            0 <= i < front.len() && (match #[trigger] front[i] {
                StepModel::Column { table, column, def } => !had.contains(
                    ColumnModel { table, column },
                ) && before[k] == "ALTER TABLE "@ + table + " ADD COLUMN "@ + column + " "@ + def,
                _ => false,
            });
        assert(steps[i] == front[i]);
    } else {
        let i = steps.len() - 1;
        if let StepModel::Column { table, column, .. } = steps[i] {
            law_columns_behind_the_steps(had, front, ColumnModel { table, column });
        }
    }
}

/// A table is left alone only where it is synced and its trigger knows every column. In every other
/// case the last thing done is to register it, and what an earlier registration made is dropped before.
pub proof fn law_table_is_registered(
    table: Seq<char>,
    synced: bool,
    trigger: Option<Seq<char>>,
    columns: Seq<Seq<char>>,
)
    ensures
        ({
            let r = registration(table, synced, is_fresh(trigger, columns));
            let knows_all = trigger is Some && forall|c: Seq<char>|
                columns.contains(c) ==> contains(trigger->0, #[trigger] ("NEW.\""@ + c + "\""@));
            &&& r.len() == 0 <==> synced && knows_all
            &&& r.len() > 0 ==> r.last() == "SELECT crsql_as_crr('"@ + table + "')"@
            &&& r.len() > 0 && synced ==> r.contains(
                "DROP TABLE IF EXISTS \""@ + table + "__crsql_clock\""@,
            ) && r.contains("DROP TABLE IF EXISTS \""@ + table + "__crsql_pks\""@) && r.contains(
                "DROP TRIGGER IF EXISTS \""@ + table + "__crsql_itrig\""@,
            ) && r.contains("DROP TRIGGER IF EXISTS \""@ + table + "__crsql_utrig\""@)
                && r.contains("DROP TRIGGER IF EXISTS \""@ + table + "__crsql_dtrig\""@)
            &&& !synced ==> r.len() == 1
        }),
{
    let r = registration(table, synced, is_fresh(trigger, columns));
    let d = drop_statements(table);
    if trigger is Some {
        if is_fresh(trigger, columns) {
            assert forall|c: Seq<char>| columns.contains(c) implies contains(
                trigger->0,
                #[trigger] ("NEW.\""@ + c + "\""@),
            ) by {
                let k = columns.index_of(c);
                assert(columns[k] == c);
            }
        } else {
            let k = choose|k: int|
                0 <= k < columns.len() && !contains(
                    trigger->0,
                    "NEW.\""@ + #[trigger] columns[k] + "\""@,
                );
            assert(columns.contains(columns[k]));
        }
    }
    if synced && r.len() > 0 {
        assert(r == d.push(register_statement(table)));
        assert(r[0] == d[0] && r[1] == d[1] && r[2] == d[2] && r[3] == d[3] && r[4] == d[4]);
    }
}

/// A table whose key may be missing is made anew without loss: the old one is set aside first, all its
/// rows are copied into the new one, and only behind that is it dropped.
pub proof fn law_rows_outlive_the_old_table(t: KeyedModel)
    ensures
        ({
            let r = keyed_statements(t);
            &&& r[0] == "ALTER TABLE \""@ + t.table + "\" RENAME TO \""@ + t.table + "_old\""@
            &&& r[1] == t.create
            &&& r[2] == "INSERT INTO \""@ + t.table + "\" SELECT * FROM \""@ + t.table
                + "_old\""@
            &&& r[3] == "DROP TABLE \""@ + t.table + "_old\""@
            &&& t.index is Some ==> r.len() == 5 && r[4] == t.index->0
            &&& t.index is None ==> r.len() == 4
        }),
{
}

/// A table stays as it is where its key can not be missing, and one that has no key at all too. The
/// tags are made anew as well where no two may have the same name.
pub proof fn law_which_tables_are_made_anew(
    table: Seq<char>,
    notnull: Option<i64>,
    sql: Seq<char>,
)
    ensures
        notnull == Some(0i64) ==> needs_key(table, notnull, sql),
        notnull != Some(0i64) && table != "tags"@ ==> !needs_key(table, notnull, sql),
        table == "tags"@ && contains(sql, "UNIQUE"@) ==> needs_key(table, notnull, sql),
        notnull != Some(0i64) && !contains(sql, "UNIQUE"@) ==> !needs_key(table, notnull, sql),
{
}

/// The database of a seed always takes its place, its files do where it has some, and nothing else of
/// it is moved.
pub proof fn law_seed_takes_its_place(data: Seq<char>, seed: Seq<char>, f: SeedFiles, m: MoveModel)
    ensures
        seed_moves(data, seed, f).contains(m) <==> (m.from == joined(seed, "siku.db"@) && m.to
            == joined(data, "siku.db"@)) || (f.seed_blobs && m.from == joined(seed, "blobs"@)
            && m.to == joined(data, "blobs"@)),
{
    let r = seed_moves(data, seed, f);
    if m.from == joined(seed, "siku.db"@) && m.to == joined(data, "siku.db"@) {
        assert(r[0] == m);
    }
    if f.seed_blobs && m.from == joined(seed, "blobs"@) && m.to == joined(data, "blobs"@) {
        assert(r[1] == m);
    }
}

/// What is set aside keeps its name: nothing leaves the directory of the data for another place than
/// the backup.
pub proof fn law_backup_keeps_the_names(
    data: Seq<char>,
    backup: Seq<char>,
    f: SeedFiles,
    k: int,
)
    requires
        0 <= k < backup_moves(data, backup, f).len(),
    ensures
        exists|name: Seq<char>| #[trigger]
            joined(data, name) == backup_moves(data, backup, f)[k].from && joined(backup, name)
                == backup_moves(data, backup, f)[k].to,
{
    let m = backup_moves(data, backup, f)[k];
    let a = move_if(f.db, moved(data, backup, "siku.db"@));
    let b = move_if(f.db && f.wal, moved(data, backup, "siku.db-wal"@));
    let c = move_if(f.db && f.shm, moved(data, backup, "siku.db-shm"@));
    let d = move_if(f.blobs, moved(data, backup, "blobs"@));
    if k < a.len() {
        assert(m == a[k]);
    } else if k < a.len() + b.len() {
        assert(m == b[k - a.len()]);
    } else if k < a.len() + b.len() + c.len() {
        assert(m == c[k - a.len() - b.len()]);
    } else {
        assert(m == d[k - a.len() - b.len() - c.len()]);
    }
}

} // verus!
