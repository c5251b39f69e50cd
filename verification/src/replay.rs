//! What steps do to a schema, and the proof that the steps of a difference
//! lead from the one schema to the other.
//!
//! The steps are replayed on the content of a schema: its tables by name, and
//! for each table its indexes by name, its columns by name, each with the
//! foreign key that constrains it, its primary key, and the order of its
//! columns. A `CREATE TABLE` fixes all of these. An `ALTER TABLE` changes
//! columns and leaves the primary key: a column that it adds, or drops and
//! adds again, gets the foreign key that the statement gives it, and a
//! column that it alters in place keeps the one it has. Of the order of
//! the columns of an altered table less is known: where columns were only
//! added or altered in place, the table still begins with the columns it
//! had, and the order of those that were added is not followed; where a
//! column was dropped or replaced, nothing is known of the order.

pub mod columns;
pub mod content;
pub mod indexes;
pub mod mysql;
pub mod plain;
pub mod sqlite;
pub mod tables;

use crate::guarantees::has_id_type_change;
use crate::replay::columns::{keeps_references, lemma_column_changes_lead_to_target};
use crate::replay::content::{
    apply_steps, columns_of, content_of, indexes_by_name, table_content, TableContent,
};
use crate::replay::mysql::lemma_mysql_steps_lead_to_target;
use crate::replay::plain::{
    kept, lemma_empty_schema_content, lemma_nothing_waits, lemma_plain_steps_lead_to_target,
    lemma_postgres_steps_lead_to_target, made, plain_content, relational_content, waits,
};
use crate::replay::sqlite::{
    is_rebuilt, lemma_sqlite_steps_lead_to_target, no_temporary_names, sqlite_content,
};
use crate::replay::tables::lemma_table_position;
use crate::schema::SqlSchemaView;
use crate::sql_database_migration_inferrer::{
    corrected_steps_spec, delay_foreign_key_creation_spec, infer_spec, migration_table_name,
    pruned_table, table_names,
};
use crate::sql_renderer::SqlFamily;
use crate::sql_schema_differ::diff_spec;
use vstd::prelude::*;

verus! {

/// What the dialect asks of two schemas so that the corrected steps from
/// the one to the other can be replayed: both are well formed, and on
/// SQLite no table of the target bears the temporary name of a table that
/// is rebuilt.
pub open spec fn can_be_replayed(from: SqlSchemaView, to: SqlSchemaView, family: SqlFamily) -> bool {
    &&& from.wf()
    &&& to.wf()
    &&& family == SqlFamily::Sqlite ==> no_temporary_names(from, to)
}

/// What the corrected steps make of the schema `from`.
///
/// Every table of `to` is there with the columns and the indexes that `to`
/// gives it. A table that the steps make anew, by a `CREATE TABLE` or a
/// rebuild, has the primary key and the foreign keys of `to` and its
/// columns in the order of `to`; where columns had to wait, it begins with
/// those that did not, in the order of `to`, and the others follow. A table
/// that stays keeps its primary key; its columns keep their foreign keys
/// where they stay in place and get those of `to` where they are added or
/// added again; it begins with the columns it had where columns are only
/// added or altered in place, and these are all where none changes. Where the
/// planner starts from scratch, the table that records the migrations is kept
/// beside the tables of `to`.
pub open spec fn reached_content(from: SqlSchemaView, to: SqlSchemaView, family: SqlFamily) -> Map<
    Seq<char>,
    TableContent,
> {
    match family {
        SqlFamily::Sqlite => sqlite_content(from, to),
        _ => relational_content(from, to),
    }
}

/// Whatever the dialect, the corrected steps lead from the content of the
/// current schema to `reached_content`.
pub proof fn lemma_corrected_steps_lead_to_target(
    from: SqlSchemaView,
    to: SqlSchemaView,
    schema: Seq<char>,
    family: SqlFamily,
)
    requires
        can_be_replayed(from, to, family),
    ensures
        corrected_steps_spec(from, to, schema, family) is Ok,
        apply_steps(content_of(from), corrected_steps_spec(from, to, schema, family)->Ok_0)
            == reached_content(from, to, family),
{
    match family {
        SqlFamily::Sqlite => lemma_sqlite_steps_lead_to_target(from, to, schema),
        SqlFamily::Postgres => lemma_postgres_steps_lead_to_target(from, to, schema),
        SqlFamily::Mysql => lemma_mysql_steps_lead_to_target(from, to, schema),
    }
}

/// Whether the planner starts from scratch on the way from `from` to `to`.
pub open spec fn starts_from_scratch(from: SqlSchemaView, to: SqlSchemaView, family: SqlFamily) -> bool {
    family != SqlFamily::Sqlite && has_id_type_change(
        from,
        delay_foreign_key_creation_spec(diff_spec(from, to)),
        delay_foreign_key_creation_spec(diff_spec(from, to)).len() as int,
    )
}

/// The names of the tables that the corrected steps of PostgreSQL and
/// MySQL create: all tables of the target where the planner starts from
/// scratch, else those that the current schema lacks.
pub open spec fn created_alongside(from: SqlSchemaView, to: SqlSchemaView, family: SqlFamily) -> Seq<
    Seq<char>,
> {
    if starts_from_scratch(from, to, family) {
        table_names(diff_spec(SqlSchemaView::empty(), to).create_tables)
    } else {
        table_names(diff_spec(from, to).create_tables)
    }
}

/// Whether the corrected steps make the table called `table` anew and in
/// one piece: by a rebuild, or by a `CREATE TABLE` with all columns.
pub open spec fn is_made_whole(
    from: SqlSchemaView,
    to: SqlSchemaView,
    family: SqlFamily,
    table: Seq<char>,
) -> bool {
    to.table(table) is Some && match family {
        SqlFamily::Sqlite => is_rebuilt(from, to, table) || !from.has_table(table),
        _ => (starts_from_scratch(from, to, family) || !from.has_table(table)) && !waits(
            created_alongside(from, to, family),
            to.table(table)->Some_0,
        ),
    }
}

/// Whether the table stays and is changed in place: both schemas have it,
/// the planner does not start from scratch, and the table is not rebuilt.
pub open spec fn is_kept_in_place(
    from: SqlSchemaView,
    to: SqlSchemaView,
    family: SqlFamily,
    table: Seq<char>,
) -> bool {
    &&& from.table(table) is Some
    &&& to.table(table) is Some
    &&& !starts_from_scratch(from, to, family)
    &&& family == SqlFamily::Sqlite ==> !is_rebuilt(from, to, table)
}

/// The corrected steps reach the tables of the target, with the indexes
/// and the columns of the target. The columns have the foreign keys of the
/// target too, unless the table is changed in place and the target gives
/// another foreign key to a column that stays. Beside the tables of the
/// target stands at most the kept table that records the migrations.
pub proof fn lemma_reached_tables(
    from: SqlSchemaView,
    to: SqlSchemaView,
    family: SqlFamily,
    table: Seq<char>,
)
    requires
        from.wf(),
        to.wf(),
    ensures
        match to.table(table) {
            Some(target) => {
                &&& reached_content(from, to, family).dom().contains(table)
                &&& reached_content(from, to, family)[table].indexes == indexes_by_name(
                    target.indices,
                )
                &&& forall|name: Seq<char>|
                    reached_content(from, to, family)[table].columns.dom().contains(name)
                        == target.has_column(name)
                &&& forall|name: Seq<char>|
                    target.has_column(name) ==> (#[trigger] reached_content(
                        from,
                        to,
                        family,
                    )[table].columns[name]).column == target.column(name)->Some_0
                &&& is_kept_in_place(from, to, family, table) && keeps_references(
                    from.table(table)->Some_0,
                    target,
                ) || !is_kept_in_place(from, to, family, table) ==> reached_content(
                    from,
                    to,
                    family,
                )[table].columns == columns_of(target)
            },
            None => reached_content(from, to, family).dom().contains(table) ==> {
                &&& starts_from_scratch(from, to, family)
                &&& table == migration_table_name()
                &&& reached_content(from, to, family).get(table) == content_of(from).get(table)
            },
        },
{
    lemma_empty_schema_content();
    match to.table(table) {
        Some(target) => {
            if from.table(table) is Some {
                lemma_table_position(from, table);
                lemma_table_position(to, table);
                lemma_column_changes_lead_to_target(from.table(table)->Some_0, target);
            }
        },
        None => {},
    }
}

/// A table that the corrected steps make anew and in one piece is as the
/// target has it: the same columns in the same order, the same primary key,
/// the same foreign keys, the same indexes.
pub proof fn lemma_table_made_whole_is_as_the_target(
    from: SqlSchemaView,
    to: SqlSchemaView,
    family: SqlFamily,
    table: Seq<char>,
)
    requires
        from.wf(),
        to.wf(),
        is_made_whole(from, to, family, table),
    ensures
        reached_content(from, to, family).get(table) == content_of(to).get(table),
        reached_content(from, to, family).get(table) == Some(
            table_content(to.table(table)->Some_0),
        ),
{
    lemma_empty_schema_content();
    let target = to.table(table)->Some_0;
    if family != SqlFamily::Sqlite {
        let created = created_alongside(from, to, family);
        lemma_nothing_waits(created, target, target.columns.len() as int);
        assert(target.columns.take(target.columns.len() as int) =~= target.columns);
        assert(pruned_table(created, target) == target);
    }
}

/// On PostgreSQL and MySQL, a table of the target that the corrected steps
/// make anew has the columns, the keys and the indexes of the target. It
/// begins with the columns that did not have to wait, in the order of the
/// target; the columns that had to wait follow them.
pub proof fn lemma_new_table_begins_with_the_columns_that_do_not_wait(
    from: SqlSchemaView,
    to: SqlSchemaView,
    family: SqlFamily,
    table: Seq<char>,
)
    requires
        from.wf(),
        to.wf(),
        family != SqlFamily::Sqlite,
        to.table(table) is Some,
        starts_from_scratch(from, to, family) || !from.has_table(table),
    ensures
        reached_content(from, to, family).get(table) == Some(
            made(
                to.table(table)->Some_0,
                pruned_table(created_alongside(from, to, family), to.table(table)->Some_0),
            ),
        ),
{
    lemma_empty_schema_content();
    lemma_table_position(from, table);
}

/// A table that stays and is changed in place keeps its primary key; its
/// columns keep their foreign keys where they stay in place; it begins with
/// the columns it had where columns are only added or altered in place, and
/// these are all its columns where none changes.
pub proof fn lemma_table_that_stays_keeps_its_key(
    from: SqlSchemaView,
    to: SqlSchemaView,
    family: SqlFamily,
    table: Seq<char>,
)
    requires
        from.wf(),
        to.wf(),
        is_kept_in_place(from, to, family, table),
    ensures
        reached_content(from, to, family).get(table) == Some(
            kept(from.table(table)->Some_0, to.table(table)->Some_0),
        ),
{
}

/// The steps of the difference and the corrected steps both lead from the
/// content of the schema before to the tables of the schema after, and the
/// steps of the way back lead from there to the tables of the schema before.
pub proof fn lemma_migration_leads_there_and_back(
    current: SqlSchemaView,
    expected: SqlSchemaView,
    schema: Seq<char>,
    family: SqlFamily,
)
    requires
        can_be_replayed(current, expected, family),
        can_be_replayed(expected, current, family),
    ensures
        infer_spec(current, expected, schema, family) is Ok,
        ({
            let migration = infer_spec(current, expected, schema, family)->Ok_0;
            &&& apply_steps(content_of(migration.before), migration.original_steps)
                == plain_content(migration.before, migration.after)
            &&& apply_steps(content_of(migration.before), migration.corrected_steps)
                == reached_content(migration.before, migration.after, family)
            &&& apply_steps(content_of(migration.after), migration.rollback) == reached_content(
                migration.after,
                migration.before,
                family,
            )
        }),
{
    lemma_plain_steps_lead_to_target(current, expected);
    lemma_corrected_steps_lead_to_target(current, expected, schema, family);
    lemma_corrected_steps_lead_to_target(expected, current, schema, family);
}

} // verus!
