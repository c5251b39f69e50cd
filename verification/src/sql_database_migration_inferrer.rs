//! Turning the difference between two schemas into steps that a dialect can run.
//!
//! The plain steps of a difference are corrected for what the dialect cannot
//! do: SQLite rebuilds a table where it cannot alter it, MySQL and PostgreSQL
//! create foreign key columns after all tables and start from scratch when
//! the type of a primary key column changes, and MySQL adds a required text
//! column in three moves.

use crate::guarantees::{
    lemma_corrected_steps_exist, lemma_corrected_steps_rename_no_index_on_sqlite,
};
use crate::schema::{
    names_contain, Column, ColumnArity, ColumnTypeFamily, ColumnView, SqlError, SqlErrorView,
    SqlSchema, SqlSchemaView, Table, TableView,
};
use crate::search::{append_all, push_back};
use crate::sql_database_step_applier::all_renderable;
use crate::sql_migration::{
    AddColumn, AlterColumn, AlterTable, AlterTableView, ColumnChange, CreateIndex, CreateIndexView,
    CreateTable, DropTable, DropTables, SqlMigration, SqlMigrationStep, SqlMigrationView, StepView,
    TableChange, TableChangeView,
};
use crate::sql_renderer::SqlFamily;
use crate::sql_schema_differ::{
    diff_spec, lemma_sort_keeps_length, sort_by_name, sorted_tables, SqlSchemaDiff, SqlSchemaDiffer,
    SqlSchemaDiffView,
};
use crate::text::{glue, join, join_spec, text_eq};
use vstd::prelude::*;
use vstd::string::*;

verus! {

/// Wraps each item as a step, keeping the order.
pub fn wrap_as_step<T, F>(steps: Vec<T>, wrap_fn: F) -> (wrapped: Vec<SqlMigrationStep>) where
    F: Fn(T) -> SqlMigrationStep,

    requires
        forall|i: int| 0 <= i < steps@.len() ==> call_requires(wrap_fn, (#[trigger] steps@[i],)),
    ensures
        wrapped@.len() == steps@.len(),
        forall|i: int|
            0 <= i < steps@.len() ==> call_ensures(wrap_fn, (steps@[i],), #[trigger] wrapped@[i]),
{
    let ghost items = steps@;
    let mut wrapped: Vec<SqlMigrationStep> = Vec::new();
    for step in iter: steps
        invariant
            iter.seq() == items,
            wrapped@.len() == iter.index(),
            forall|i: int| 0 <= i < items.len() ==> call_requires(wrap_fn, (#[trigger] items[i],)),
            forall|i: int|
                0 <= i < iter.index() ==> call_ensures(
                    wrap_fn,
                    (items[i],),
                    #[trigger] wrapped@[i],
                ),
    {
        wrapped.push(wrap_fn(step));
    }
    wrapped
}

// ---------------------------------------------------------------------------
// Foreign keys to tables that are created in the same migration
// ---------------------------------------------------------------------------

/// The names of the tables, in order.
pub open spec fn table_names(tables: Seq<TableView>) -> Seq<Seq<char>> {
    Seq::new(tables.len(), |i: int| tables[i].name)
}

/// A table whose name begins with an underscore is taken for a relation table.
pub open spec fn is_relation_table(name: Seq<char>) -> bool {
    name.len() > 0 && name[0] == '_'
}

/// Whether the column of a table about to be created has to wait until all
/// tables exist: a foreign key constrains it and points to another of the
/// tables in `created`, the column is not part of the primary key, and the
/// table is no relation table. A reference of a table to itself does not
/// make a column wait.
pub open spec fn is_delayed(created: Seq<Seq<char>>, table: TableView, column: ColumnView) -> bool {
    match table.foreign_key_for_column(column.name) {
        Some(foreign_key) => foreign_key.referenced_table != table.name && created.contains(
            foreign_key.referenced_table,
        ) && !table.is_part_of_primary_key(column.name) && !is_relation_table(table.name),
        None => false,
    }
}

/// Those of the first `n` columns of `table` that do not have to wait.
pub open spec fn kept_columns(created: Seq<Seq<char>>, table: TableView, n: int) -> Seq<ColumnView>
    decreases n,
{
    if n <= 0 {
        Seq::empty()
    } else {
        let rest = kept_columns(created, table, n - 1);
        if is_delayed(created, table, table.columns[n - 1]) {
            rest
        } else {
            rest.push(table.columns[n - 1])
        }
    }
}

/// An `AddColumn` for each of the first `n` columns of `table` that has to wait.
pub open spec fn delayed_columns(created: Seq<Seq<char>>, table: TableView, n: int) -> Seq<
    TableChangeView,
>
    decreases n,
{
    if n <= 0 {
        Seq::empty()
    } else {
        let rest = delayed_columns(created, table, n - 1);
        if is_delayed(created, table, table.columns[n - 1]) {
            rest.push(TableChangeView::AddColumn { column: table.columns[n - 1] })
        } else {
            rest
        }
    }
}

/// `table` without the columns that have to wait.
pub open spec fn pruned_table(created: Seq<Seq<char>>, table: TableView) -> TableView {
    TableView {
        name: table.name,
        columns: kept_columns(created, table, table.columns.len() as int),
        indices: table.indices,
        primary_key: table.primary_key,
        foreign_keys: table.foreign_keys,
    }
}

/// Each of the tables without the columns that have to wait.
pub open spec fn pruned_tables(created: Seq<Seq<char>>, tables: Seq<TableView>) -> Seq<TableView> {
    Seq::new(tables.len(), |i: int| pruned_table(created, tables[i]))
}

/// For each of the first `n` tables that has columns which have to wait, the
/// `AlterTable` that adds them.
pub open spec fn delayed_alter_tables(created: Seq<Seq<char>>, tables: Seq<TableView>, n: int) -> Seq<
    AlterTableView,
>
    decreases n,
{
    if n <= 0 {
        Seq::empty()
    } else {
        let rest = delayed_alter_tables(created, tables, n - 1);
        let table = tables[n - 1];
        let changes = delayed_columns(created, table, table.columns.len() as int);
        if changes.len() > 0 {
            rest.push(AlterTableView { table: pruned_table(created, table), changes })
        } else {
            rest
        }
    }
}

/// The difference with the creation of foreign key columns moved behind the
/// creation of all tables.
pub open spec fn delayed_diff(diff: SqlSchemaDiffView) -> SqlSchemaDiffView {
    let created = table_names(diff.create_tables);
    SqlSchemaDiffView {
        drop_tables: diff.drop_tables,
        create_tables: pruned_tables(created, diff.create_tables),
        alter_tables: diff.alter_tables + delayed_alter_tables(
            created,
            diff.create_tables,
            diff.create_tables.len() as int,
        ),
        create_indexes: diff.create_indexes,
        drop_indexes: diff.drop_indexes,
        alter_indexes: diff.alter_indexes,
    }
}

/// The steps of the difference, with foreign key columns created late.
pub open spec fn delay_foreign_key_creation_spec(diff: SqlSchemaDiffView) -> Seq<StepView> {
    delayed_diff(diff).into_steps()
}

fn is_relation_table_exec(name: &str) -> (relation: bool)
    ensures
        relation == is_relation_table(name@),
{
    !name.is_empty() && name.get_char(0) == '_'
}

fn created_names(create_tables: &Vec<CreateTable>) -> (names: Vec<String>)
    ensures
        names.deep_view() == table_names(create_tables.deep_view()),
{
    let mut names: Vec<String> = Vec::new();
    let mut i: usize = 0;
    while i < create_tables.len()
        invariant
            i <= create_tables.len(),
            names@.len() == i,
            forall|k: int| 0 <= k < i ==> names@[k]@ == create_tables@[k]@.name,
        decreases create_tables.len() - i,
    {
        names.push(create_tables[i].table.name.clone());
        i += 1;
    }
    proof {
        assert(names.deep_view() =~= table_names(create_tables.deep_view()));
    }
    names
}

fn is_delayed_exec(created: &Vec<String>, table: &Table, column: &Column) -> (delayed: bool)
    ensures
        delayed == is_delayed(created.deep_view(), table@, column@),
{
    match table.foreign_key_for_column(column.name.as_str()) {
        Some(foreign_key) => {
            let references_another_table = !text_eq(
                foreign_key.referenced_table.as_str(),
                table.name.as_str(),
            );
            let references_non_existent_table = names_contain(
                created,
                foreign_key.referenced_table.as_str(),
            );
            let is_part_of_primary_key = table.is_part_of_primary_key(column.name.as_str());
            let is_relation_table = is_relation_table_exec(table.name.as_str());
            references_another_table && references_non_existent_table && !is_part_of_primary_key
                && !is_relation_table
        },
        None => false,
    }
}

/// Splits the steps of a difference so that no table is created with a
/// foreign key column that points to another table which the same migration
/// creates: such columns are added by `AlterTable` steps of their own.
pub fn delay_foreign_key_creation(diff: SqlSchemaDiff) -> (steps: Vec<SqlMigrationStep>)
    ensures
        steps.deep_view() == delay_foreign_key_creation_spec(diff@),
{
    let ghost view = diff@;
    let names_of_tables_that_get_created = created_names(&diff.create_tables);
    let ghost created = names_of_tables_that_get_created.deep_view();
    let mut create_tables: Vec<CreateTable> = Vec::new();
    let mut alter_tables = diff.alter_tables;
    let ghost altered = alter_tables.deep_view();
    proof {
        assert(altered + Seq::<AlterTableView>::empty() =~= altered);
    }
    let mut i: usize = 0;
    while i < diff.create_tables.len()
        invariant
            i <= diff.create_tables.len(),
            diff.create_tables.deep_view() == view.create_tables,
            created == table_names(view.create_tables),
            created == names_of_tables_that_get_created.deep_view(),
            create_tables@.len() == i,
            forall|k: int|
                0 <= k < i ==> create_tables@[k]@ == pruned_table(created, view.create_tables[k]),
            alter_tables.deep_view() == altered + delayed_alter_tables(
                created,
                view.create_tables,
                i as int,
            ),
        decreases diff.create_tables.len() - i,
    {
        let table = &diff.create_tables[i].table;
        assert(table@ == view.create_tables[i as int]);
        let mut columns: Vec<Column> = Vec::new();
        let mut changes: Vec<TableChange> = Vec::new();
        proof {
            assert(columns.deep_view() =~= Seq::empty());
            assert(changes.deep_view() =~= Seq::empty());
        }
        let mut j: usize = 0;
        while j < table.columns.len()
            invariant
                j <= table.columns.len(),
                created == names_of_tables_that_get_created.deep_view(),
                columns.deep_view() == kept_columns(created, table@, j as int),
                changes.deep_view() == delayed_columns(created, table@, j as int),
            decreases table.columns.len() - j,
        {
            let column = &table.columns[j];
            if is_delayed_exec(&names_of_tables_that_get_created, table, column) {
                push_back(&mut changes, TableChange::AddColumn(AddColumn { column: column.clone() }));
            } else {
                push_back(&mut columns, column.clone());
            }
            j += 1;
        }
        let pruned = Table {
            name: table.name.clone(),
            columns,
            indices: table.indices.clone(),
            primary_key: table.primary_key.clone(),
            foreign_keys: table.foreign_keys.clone(),
        };
        assert(pruned@ == pruned_table(created, table@));
        if changes.len() > 0 {
            let ghost inner = delayed_alter_tables(created, view.create_tables, i as int);
            let alter_table = AlterTable { table: pruned.clone(), changes };
            proof {
                assert((altered + inner).push(alter_table@) =~= altered + inner.push(
                    alter_table@,
                ));
            }
            push_back(&mut alter_tables, alter_table);
        }
        create_tables.push(CreateTable { table: pruned });
        i += 1;
    }
    proof {
        assert(create_tables.deep_view() =~= pruned_tables(created, view.create_tables));
    }
    let delayed = SqlSchemaDiff {
        drop_tables: diff.drop_tables,
        create_tables,
        alter_tables,
        create_indexes: diff.create_indexes,
        drop_indexes: diff.drop_indexes,
        alter_indexes: diff.alter_indexes,
    };
    delayed.into_steps()
}

// ---------------------------------------------------------------------------
// A primary key column that changes its type
// ---------------------------------------------------------------------------

/// Whether `change` alters a column of the primary key of `current` and
/// gives it a type of another family. A column that `current` does not have
/// cannot be judged: that is the error.
pub open spec fn changes_id_type(current: TableView, change: TableChangeView) -> Result<
    bool,
    SqlErrorView,
> {
    match change {
        TableChangeView::AlterColumn { name, column, change } => match current.column(name) {
            Some(previous) => Ok(
                current.is_part_of_primary_key(name) && previous.family != column.family,
            ),
            None => Err(SqlErrorView::ColumnNotFound { table: current.name, column: name }),
        },
        _ => Ok(false),
    }
}

/// The first `n` changes, looked at in order until one changes the type of a
/// primary key column (`Ok(true)`) or cannot be judged (`Err`).
pub open spec fn scan_changes(current: TableView, changes: Seq<TableChangeView>, n: int) -> Result<
    bool,
    SqlErrorView,
>
    decreases n,
{
    if n <= 0 {
        Ok(false)
    } else {
        match scan_changes(current, changes, n - 1) {
            Ok(false) => changes_id_type(current, changes[n - 1]),
            decided => decided,
        }
    }
}

/// What one step says about the type of a primary key column. Only an
/// `AlterTable` of a table that `from` has says anything.
pub open spec fn scan_step(from: SqlSchemaView, step: StepView) -> Result<bool, SqlErrorView> {
    match step {
        StepView::AlterTable(alter) => match from.table(alter.table.name) {
            Some(current) => scan_changes(current, alter.changes, alter.changes.len() as int),
            None => Ok(false),
        },
        _ => Ok(false),
    }
}

/// The first `n` steps, looked at in order until one decides.
pub open spec fn scan_steps(from: SqlSchemaView, steps: Seq<StepView>, n: int) -> Result<
    bool,
    SqlErrorView,
>
    decreases n,
{
    if n <= 0 {
        Ok(false)
    } else {
        match scan_steps(from, steps, n - 1) {
            Ok(false) => scan_step(from, steps[n - 1]),
            decided => decided,
        }
    }
}

/// The name of the table in which the migrations themselves are recorded.
pub open spec fn migration_table_name() -> Seq<char> {
    "_Migration"@
}

/// The names of the first `n` tables, without the table that records the migrations.
pub open spec fn droppable_names(tables: Seq<TableView>, n: int) -> Seq<Seq<char>>
    decreases n,
{
    if n <= 0 {
        Seq::empty()
    } else {
        let rest = droppable_names(tables, n - 1);
        if tables[n - 1].name == migration_table_name() {
            rest
        } else {
            rest.push(tables[n - 1].name)
        }
    }
}

/// Starting from scratch: all tables of `from` but the one that records the
/// migrations are dropped in one step, and `to` is created as from an empty
/// schema, foreign key columns late.
pub open spec fn radical_steps(from: SqlSchemaView, to: SqlSchemaView) -> Seq<StepView> {
    seq![
        StepView::DropTables(
            droppable_names(sort_by_name(from.tables), from.tables.len() as int),
        ),
    ] + delay_foreign_key_creation_spec(diff_spec(SqlSchemaView::empty(), to))
}

/// The steps as they are where no primary key column changes its type
/// family, the steps from scratch where one does, and the error where a
/// step alters a column that the current table does not have.
pub open spec fn fix_id_column_type_change_spec(
    from: SqlSchemaView,
    to: SqlSchemaView,
    steps: Seq<StepView>,
) -> Result<Seq<StepView>, SqlErrorView> {
    match scan_steps(from, steps, steps.len() as int) {
        Ok(found) => if found {
            Ok(radical_steps(from, to))
        } else {
            Ok(steps)
        },
        Err(e) => Err(e),
    }
}

/// The view of a result that holds steps.
pub open spec fn steps_result_view(result: Result<Vec<SqlMigrationStep>, SqlError>) -> Result<
    Seq<StepView>,
    SqlErrorView,
> {
    match result {
        Ok(steps) => Ok(steps.deep_view()),
        Err(e) => Err(e@),
    }
}

fn scan_changes_exec(current: &Table, changes: &Vec<TableChange>) -> (found: Result<bool, SqlError>)
    ensures
        match found {
            Ok(b) => scan_changes(current@, changes.deep_view(), changes.len() as int) == Ok::<
                bool,
                SqlErrorView,
            >(b),
            Err(e) => scan_changes(current@, changes.deep_view(), changes.len() as int) == Err::<
                bool,
                SqlErrorView,
            >(e@),
        },
{
    let mut i: usize = 0;
    while i < changes.len()
        invariant
            i <= changes.len(),
            scan_changes(current@, changes.deep_view(), i as int) == Ok::<bool, SqlErrorView>(
                false,
            ),
        decreases changes.len() - i,
    {
        proof {
            assert(changes.deep_view()[i as int] == changes[i as int]@);
        }
        match &changes[i] {
            TableChange::AlterColumn(alter_column) => {
                match current.column(alter_column.name.as_str()) {
                    Some(current_column) => {
                        let has_type_changed = current_column.tpe.family
                            != alter_column.column.tpe.family;
                        let is_part_of_pk = current.is_part_of_primary_key(
                            alter_column.name.as_str(),
                        );
                        if is_part_of_pk && has_type_changed {
                            proof {
                                lemma_scan_changes_decided(
                                    current@,
                                    changes.deep_view(),
                                    i as int + 1,
                                    changes.len() as int,
                                );
                            }
                            return Ok(true);
                        }
                    },
                    None => {
                        proof {
                            lemma_scan_changes_decided(
                                current@,
                                changes.deep_view(),
                                i as int + 1,
                                changes.len() as int,
                            );
                        }
                        return Err(
                            SqlError::ColumnNotFound {
                                table: current.name.clone(),
                                column: alter_column.name.clone(),
                            },
                        );
                    },
                }
            },
            _ => {},
        }
        i += 1;
    }
    Ok(false)
}

/// Once the scan of the changes is decided, further changes do not alter it.
proof fn lemma_scan_changes_decided(
    current: TableView,
    changes: Seq<TableChangeView>,
    n: int,
    m: int,
)
    requires
        0 <= n <= m,
        scan_changes(current, changes, n) != Ok::<bool, SqlErrorView>(false),
    ensures
        scan_changes(current, changes, m) == scan_changes(current, changes, n),
    decreases m - n,
{
    if n < m {
        lemma_scan_changes_decided(current, changes, n, m - 1);
    }
}

/// Once the scan of the steps is decided, further steps do not alter it.
proof fn lemma_scan_steps_decided(from: SqlSchemaView, steps: Seq<StepView>, n: int, m: int)
    requires
        0 <= n <= m,
        scan_steps(from, steps, n) != Ok::<bool, SqlErrorView>(false),
    ensures
        scan_steps(from, steps, m) == scan_steps(from, steps, n),
    decreases m - n,
{
    if n < m {
        lemma_scan_steps_decided(from, steps, n, m - 1);
    }
}

fn scan_steps_exec(from: &SqlSchema, steps: &Vec<SqlMigrationStep>) -> (found: Result<
    bool,
    SqlError,
>)
    ensures
        match found {
            Ok(b) => scan_steps(from@, steps.deep_view(), steps.len() as int) == Ok::<
                bool,
                SqlErrorView,
            >(b),
            Err(e) => scan_steps(from@, steps.deep_view(), steps.len() as int) == Err::<
                bool,
                SqlErrorView,
            >(e@),
        },
{
    let mut i: usize = 0;
    while i < steps.len()
        invariant
            i <= steps.len(),
            scan_steps(from@, steps.deep_view(), i as int) == Ok::<bool, SqlErrorView>(false),
        decreases steps.len() - i,
    {
        proof {
            assert(steps.deep_view()[i as int] == steps[i as int]@);
        }
        match &steps[i] {
            SqlMigrationStep::AlterTable(alter_table) => {
                match from.table(alter_table.table.name.as_str()) {
                    Ok(current_table) => {
                        match scan_changes_exec(current_table, &alter_table.changes) {
                            Ok(found) => {
                                if found {
                                    proof {
                                        lemma_scan_steps_decided(
                                            from@,
                                            steps.deep_view(),
                                            i as int + 1,
                                            steps.len() as int,
                                        );
                                    }
                                    return Ok(true);
                                }
                            },
                            Err(e) => {
                                proof {
                                    lemma_scan_steps_decided(
                                        from@,
                                        steps.deep_view(),
                                        i as int + 1,
                                        steps.len() as int,
                                    );
                                }
                                return Err(e);
                            },
                        }
                    },
                    Err(_) => {},
                }
            },
            _ => {},
        }
        i += 1;
    }
    Ok(false)
}

fn tables_to_drop(from: &SqlSchema) -> (names: Vec<String>)
    ensures
        names.deep_view() == droppable_names(
            sort_by_name(from@.tables),
            from@.tables.len() as int,
        ),
{
    let sorted = sorted_tables(&from.tables);
    proof {
        lemma_sort_keeps_length(from@.tables);
    }
    let mut names: Vec<String> = Vec::new();
    proof {
        assert(names.deep_view() =~= Seq::empty());
    }
    let mut k: usize = 0;
    while k < sorted.len()
        invariant
            k <= sorted.len(),
            sorted.deep_view() == sort_by_name(from@.tables),
            names.deep_view() == droppable_names(sorted.deep_view(), k as int),
        decreases sorted.len() - k,
    {
        let table = sorted[k];
        proof {
            assert(sorted.deep_view()[k as int] == table@);
        }
        if !text_eq(table.name.as_str(), "_Migration") {
            push_back(&mut names, table.name.clone());
        }
        k += 1;
    }
    names
}

/// Where a step changes the type family of a primary key column, gives up
/// the steps and starts from scratch; hands the steps back otherwise.
pub fn fix_id_column_type_change(
    from: &SqlSchema,
    to: &SqlSchema,
    _schema_name: &str,
    steps: Vec<SqlMigrationStep>,
) -> (fixed: Result<Vec<SqlMigrationStep>, SqlError>)
    ensures
        steps_result_view(fixed) == fix_id_column_type_change_spec(from@, to@, steps.deep_view()),
{
    match scan_steps_exec(from, &steps) {
        Ok(has_id_type_change) => {
            if has_id_type_change {
                let mut radical_steps: Vec<SqlMigrationStep> = Vec::new();
                let names = tables_to_drop(from);
                radical_steps.push(SqlMigrationStep::DropTables(DropTables { names }));
                let diff_from_empty = SqlSchemaDiffer::diff(&SqlSchema::empty(), to);
                let mut steps_from_empty = delay_foreign_key_creation(diff_from_empty);
                proof {
                    assert(radical_steps.deep_view() =~= seq![
                        StepView::DropTables(
                            droppable_names(sort_by_name(from@.tables), from@.tables.len() as int),
                        ),
                    ]);
                }
                append_all(&mut radical_steps, &mut steps_from_empty);
                Ok(radical_steps)
            } else {
                Ok(steps)
            }
        },
        Err(e) => Err(e),
    }
}

// ---------------------------------------------------------------------------
// SQLite: rebuilding a table
// ---------------------------------------------------------------------------

/// Whether SQLite cannot make the change in place.
pub open spec fn change_needs_fix(change: TableChangeView) -> bool {
    match change {
        TableChangeView::AddColumn { column } => column.arity == ColumnArity::Required,
        TableChangeView::DropColumn { .. } => true,
        TableChangeView::AlterColumn { .. } => true,
    }
}

/// Whether SQLite cannot make one of the changes in place.
pub open spec fn needs_fix_spec(alter: AlterTableView) -> bool {
    exists|k: int| 0 <= k < alter.changes.len() && change_needs_fix(#[trigger] alter.changes[k])
}

/// The name under which the rebuilt table is created.
pub open spec fn temporary_name(table: Seq<char>) -> Seq<char> {
    "new_"@ + table
}

/// The quoted names of those of the first `n` columns of `next` that `current` has too.
pub open spec fn common_columns(current: TableView, next: TableView, n: int) -> Seq<Seq<char>>
    decreases n,
{
    if n <= 0 {
        Seq::empty()
    } else {
        let rest = common_columns(current, next, n - 1);
        let name = next.columns[n - 1].name;
        if current.has_column(name) {
            rest.push("\""@ + name + "\""@)
        } else {
            rest
        }
    }
}

/// The statement that copies the rows into the rebuilt table.
pub open spec fn copy_statement(current: TableView, next: TableView) -> Seq<char> {
    let columns = join_spec(common_columns(current, next, next.columns.len() as int), ","@);
    "INSERT INTO \""@ + temporary_name(next.name) + "\" ("@ + columns + ") SELECT "@ + columns
        + " FROM \""@ + next.name + "\""@
}

/// A `CreateIndex` for each of the first `n` indexes of `table`.
pub open spec fn index_steps(table: TableView, n: int) -> Seq<StepView>
    decreases n,
{
    if n <= 0 {
        Seq::empty()
    } else {
        index_steps(table, n - 1).push(
            StepView::CreateIndex(CreateIndexView { table, index: table.indices[n - 1] }),
        )
    }
}

/// The steps that come before the indexes in the rebuild of a table.
pub open spec fn rebuild_head(current: TableView, next: TableView) -> Seq<StepView> {
    seq![
        StepView::RawSql { raw: "PRAGMA foreign_keys=OFF;"@ },
        StepView::CreateTable(
            TableView {
                name: temporary_name(next.name),
                columns: next.columns,
                indices: next.indices,
                primary_key: next.primary_key,
                foreign_keys: next.foreign_keys,
            },
        ),
        StepView::RawSql { raw: copy_statement(current, next) },
        StepView::DropTable(current.name),
        StepView::RenameTable { name: temporary_name(next.name), new_name: next.name },
    ]
}

/// The steps that come behind the indexes in the rebuild of a table.
pub open spec fn rebuild_tail(schema: Seq<char>) -> Seq<StepView> {
    seq![
        StepView::RawSql { raw: "PRAGMA \""@ + schema + "\".foreign_key_check;"@ },
        StepView::RawSql { raw: "PRAGMA foreign_keys=ON;"@ },
    ]
}

/// The rebuild of a table: `next` is created under a temporary name, the
/// rows of `current` are copied over, `current` is dropped, the new table
/// gets its name, and the indexes of `next` are created.
pub open spec fn fix_spec(current: TableView, next: TableView, schema: Seq<char>) -> Seq<StepView> {
    rebuild_head(current, next) + index_steps(next, next.indices.len() as int) + rebuild_tail(
        schema,
    )
}

/// The rebuild of the table called `table`, which both schemas must have.
pub open spec fn sqlite_fix_table_spec(
    current: SqlSchemaView,
    next: SqlSchemaView,
    table: Seq<char>,
    schema: Seq<char>,
) -> Result<Seq<StepView>, SqlErrorView> {
    match current.table(table) {
        Some(current_table) => match next.table(table) {
            Some(next_table) => Ok(fix_spec(current_table, next_table, schema)),
            None => Err(SqlErrorView::TableNotFound { table }),
        },
        None => Err(SqlErrorView::TableNotFound { table }),
    }
}

/// How far a walk over the steps has come: the steps put out, and the
/// tables rebuilt so far.
pub struct SqliteWalk {
    pub steps: Seq<StepView>,
    pub fixed_tables: Seq<Seq<char>>,
}

/// Which table a step makes SQLite rebuild, if any.
pub open spec fn table_to_rebuild(step: StepView) -> Option<Seq<char>> {
    match step {
        StepView::AlterTable(alter) => if needs_fix_spec(alter) {
            Some(alter.table.name)
        } else {
            None
        },
        StepView::AlterIndex(alter) => Some(alter.table),
        _ => None,
    }
}

/// Whether a step is left out because a rebuild has created its index already.
pub open spec fn is_suppressed(step: StepView, fixed_tables: Seq<Seq<char>>) -> bool {
    match step {
        StepView::CreateIndex(create) => fixed_tables.contains(create.table.name),
        _ => false,
    }
}

/// The walk over the first `n` steps.
pub open spec fn sqlite_walk(
    steps: Seq<StepView>,
    current: SqlSchemaView,
    next: SqlSchemaView,
    schema: Seq<char>,
    n: int,
) -> Result<SqliteWalk, SqlErrorView>
    decreases n,
{
    if n <= 0 {
        Ok(SqliteWalk { steps: Seq::empty(), fixed_tables: Seq::empty() })
    } else {
        match sqlite_walk(steps, current, next, schema, n - 1) {
            Ok(walk) => match table_to_rebuild(steps[n - 1]) {
                Some(table) => match sqlite_fix_table_spec(current, next, table, schema) {
                    Ok(rebuild) => Ok(
                        SqliteWalk {
                            steps: walk.steps + rebuild,
                            fixed_tables: walk.fixed_tables.push(table),
                        },
                    ),
                    Err(e) => Err(e),
                },
                None => if is_suppressed(steps[n - 1], walk.fixed_tables) {
                    Ok(walk)
                } else {
                    Ok(
                        SqliteWalk {
                            steps: walk.steps.push(steps[n - 1]),
                            fixed_tables: walk.fixed_tables,
                        },
                    )
                },
            },
            Err(e) => Err(e),
        }
    }
}

/// The steps of the difference as SQLite can run them, or the error of the
/// first rebuild whose table one of the schemas lacks.
pub open spec fn fix_stupid_sqlite_spec(
    diff: SqlSchemaDiffView,
    current: SqlSchemaView,
    next: SqlSchemaView,
    schema: Seq<char>,
) -> Result<Seq<StepView>, SqlErrorView> {
    match sqlite_walk(diff.into_steps(), current, next, schema, diff.into_steps().len() as int) {
        Ok(walk) => Ok(walk.steps),
        Err(e) => Err(e),
    }
}

/// Whether SQLite cannot make one of the changes in place.
pub fn needs_fix(alter_table: &AlterTable) -> (needed: bool)
    ensures
        needed == needs_fix_spec(alter_table@),
{
    let mut i: usize = 0;
    while i < alter_table.changes.len()
        invariant
            i <= alter_table.changes.len(),
            forall|k: int| 0 <= k < i ==> !change_needs_fix(#[trigger] alter_table@.changes[k]),
        decreases alter_table.changes.len() - i,
    {
        let change_that_does_not_work_on_sqlite = match &alter_table.changes[i] {
            TableChange::AddColumn(add_column) => add_column.column.arity == ColumnArity::Required,
            TableChange::DropColumn(_) => true,
            TableChange::AlterColumn(_) => true,
        };
        proof {
            assert(alter_table@.changes[i as int] == alter_table.changes[i as int]@);
        }
        if change_that_does_not_work_on_sqlite {
            return true;
        }
        i += 1;
    }
    false
}

/// The rebuild of a table.
pub fn fix(current: &Table, next: &Table, schema_name: &str) -> (steps: Vec<SqlMigrationStep>)
    ensures
        steps.deep_view() == fix_spec(current@, next@, schema_name@),
{
    let name_of_temporary_table = glue("new_", next.name.as_str());
    let temporary_table = Table {
        name: name_of_temporary_table.clone(),
        columns: next.columns.clone(),
        indices: next.indices.clone(),
        primary_key: next.primary_key.clone(),
        foreign_keys: next.foreign_keys.clone(),
    };
    let mut result: Vec<SqlMigrationStep> = Vec::new();
    result.push(SqlMigrationStep::RawSql { raw: "PRAGMA foreign_keys=OFF;".to_owned() });
    result.push(SqlMigrationStep::CreateTable(CreateTable { table: temporary_table }));

    let mut intersection_columns: Vec<String> = Vec::new();
    proof {
        assert(intersection_columns.deep_view() =~= Seq::empty());
    }
    let mut i: usize = 0;
    while i < next.columns.len()
        invariant
            i <= next.columns.len(),
            intersection_columns.deep_view() == common_columns(current@, next@, i as int),
        decreases next.columns.len() - i,
    {
        let name = &next.columns[i].name;
        if current.has_column(name.as_str()) {
            let mut quoted = glue("\"", name.as_str());
            quoted.append("\"");
            push_back(&mut intersection_columns, quoted);
        }
        i += 1;
    }
    let columns_string = join(&intersection_columns, ",");
    let mut sql = glue("INSERT INTO \"", name_of_temporary_table.as_str());
    sql.append("\" (");
    sql.append(columns_string.as_str());
    sql.append(") SELECT ");
    sql.append(columns_string.as_str());
    sql.append(" FROM \"");
    sql.append(next.name.as_str());
    sql.append("\"");
    result.push(SqlMigrationStep::RawSql { raw: sql });
    result.push(SqlMigrationStep::DropTable(DropTable { name: current.name.clone() }));
    result.push(
        SqlMigrationStep::RenameTable {
            name: name_of_temporary_table,
            new_name: next.name.clone(),
        },
    );
    proof {
        assert(result.deep_view() =~= rebuild_head(current@, next@));
        assert(rebuild_head(current@, next@) + Seq::<StepView>::empty() =~= rebuild_head(
            current@,
            next@,
        ));
    }
    let mut j: usize = 0;
    while j < next.indices.len()
        invariant
            j <= next.indices.len(),
            result.deep_view() == rebuild_head(current@, next@) + index_steps(next@, j as int),
        decreases next.indices.len() - j,
    {
        let ghost head = rebuild_head(current@, next@);
        let ghost inner = index_steps(next@, j as int);
        let step = SqlMigrationStep::CreateIndex(
            CreateIndex { table: next.clone(), index: next.indices[j].clone() },
        );
        proof {
            assert((head + inner).push(step@) =~= head + inner.push(step@));
        }
        push_back(&mut result, step);
        j += 1;
    }
    let ghost before = result.deep_view();
    let mut check = glue("PRAGMA \"", schema_name);
    check.append("\".foreign_key_check;");
    push_back(&mut result, SqlMigrationStep::RawSql { raw: check });
    push_back(&mut result, SqlMigrationStep::RawSql { raw: "PRAGMA foreign_keys=ON;".to_owned() });
    proof {
        assert(result.deep_view() =~= before + rebuild_tail(schema_name@));
    }
    result
}

/// The rebuild of the table called `table_name`, which both schemas must have.
pub fn sqlite_fix_table(
    current_database_schema: &SqlSchema,
    next_database_schema: &SqlSchema,
    table_name: &str,
    schema_name: &str,
) -> (steps: Result<Vec<SqlMigrationStep>, SqlError>)
    ensures
        steps_result_view(steps) == sqlite_fix_table_spec(
            current_database_schema@,
            next_database_schema@,
            table_name@,
            schema_name@,
        ),
{
    let current_table = match current_database_schema.table(table_name) {
        Ok(table) => table,
        Err(e) => {
            return Err(e);
        },
    };
    let next_table = match next_database_schema.table(table_name) {
        Ok(table) => table,
        Err(e) => {
            return Err(e);
        },
    };
    Ok(fix(current_table, next_table, schema_name))
}

/// Rewrites the steps of a difference for SQLite: a table that would be
/// altered in a way SQLite cannot do, or whose index would be renamed, is
/// rebuilt, and the creation of indexes of a rebuilt table is left out.
pub fn fix_stupid_sqlite(
    diff: SqlSchemaDiff,
    current_database_schema: &SqlSchema,
    next_database_schema: &SqlSchema,
    schema_name: &str,
) -> (fixed: Result<Vec<SqlMigrationStep>, SqlError>)
    ensures
        steps_result_view(fixed) == fix_stupid_sqlite_spec(
            diff@,
            current_database_schema@,
            next_database_schema@,
            schema_name@,
        ),
{
    let ghost diff_view = diff@;
    let steps = diff.into_steps();
    let ghost items = steps@;
    let ghost views = steps.deep_view();
    let mut result: Vec<SqlMigrationStep> = Vec::new();
    let mut fixed_tables: Vec<String> = Vec::new();
    proof {
        assert(result.deep_view() =~= Seq::empty());
        assert(fixed_tables.deep_view() =~= Seq::empty());
    }
    for step in iter: steps
        invariant
            iter.seq() == items,
            views == diff@.into_steps(),
            views.len() == items.len(),
            forall|k: int| 0 <= k < items.len() ==> views[k] == (#[trigger] items[k])@,
            sqlite_walk(
                views,
                current_database_schema@,
                next_database_schema@,
                schema_name@,
                iter.index(),
            ) == Ok::<SqliteWalk, SqlErrorView>(
                SqliteWalk { steps: result.deep_view(), fixed_tables: fixed_tables.deep_view() },
            ),
    {
        let ghost n = iter.index();
        assert(step@ == views[n]);
        let table_to_fix: Option<String> = match &step {
            SqlMigrationStep::AlterTable(alter_table) => {
                if needs_fix(alter_table) {
                    Some(alter_table.table.name.clone())
                } else {
                    None
                }
            },
            SqlMigrationStep::AlterIndex(alter_index) => Some(alter_index.table.clone()),
            _ => None,
        };
        assert(table_to_fix.deep_view() == table_to_rebuild(step@));
        match table_to_fix {
            Some(table) => {
                match sqlite_fix_table(
                    current_database_schema,
                    next_database_schema,
                    table.as_str(),
                    schema_name,
                ) {
                    Ok(mut rebuild) => {
                        append_all(&mut result, &mut rebuild);
                        push_back(&mut fixed_tables, table);
                    },
                    Err(e) => {
                        proof {
                            assert(0 <= n < views.len());
                            assert(table_to_rebuild(views[n]) == Some(table@));
                            assert(sqlite_fix_table_spec(
                                current_database_schema@,
                                next_database_schema@,
                                table@,
                                schema_name@,
                            ) == Err::<Seq<StepView>, SqlErrorView>(e@));
                            assert(sqlite_walk(
                                views,
                                current_database_schema@,
                                next_database_schema@,
                                schema_name@,
                                n + 1,
                            ) == Err::<SqliteWalk, SqlErrorView>(e@));
                            lemma_sqlite_walk_failed(
                                views,
                                current_database_schema@,
                                next_database_schema@,
                                schema_name@,
                                n + 1,
                                views.len() as int,
                            );
                        }
                        return Err(e);
                    },
                }
            },
            None => {
                let suppressed = match &step {
                    SqlMigrationStep::CreateIndex(create_index) => names_contain(
                        &fixed_tables,
                        create_index.table.name.as_str(),
                    ),
                    _ => false,
                };
                if !suppressed {
                    push_back(&mut result, step);
                }
            },
        }
    }
    Ok(result)
}

/// Once a rebuild has failed, the walk stays failed.
proof fn lemma_sqlite_walk_failed(
    steps: Seq<StepView>,
    current: SqlSchemaView,
    next: SqlSchemaView,
    schema: Seq<char>,
    n: int,
    m: int,
)
    requires
        0 <= n <= m,
        sqlite_walk(steps, current, next, schema, n) is Err,
    ensures
        sqlite_walk(steps, current, next, schema, m) == sqlite_walk(
            steps,
            current,
            next,
            schema,
            n,
        ),
    decreases m - n,
{
    if n < m {
        lemma_sqlite_walk_failed(steps, current, next, schema, n, m - 1);
    }
}

// ---------------------------------------------------------------------------
// MySQL: adding a required text column
// ---------------------------------------------------------------------------

/// A column of the string family that must hold a value.
pub open spec fn is_required_new_text_column_spec(column: ColumnView) -> bool {
    column.family == ColumnTypeFamily::String && column.arity == ColumnArity::Required
}

/// Whether a change adds a required text column.
pub open spec fn adds_required_text_column(change: TableChangeView) -> bool {
    match change {
        TableChangeView::AddColumn { column } => is_required_new_text_column_spec(column),
        _ => false,
    }
}

/// The required text columns that the first `n` changes add.
pub open spec fn required_text_columns(changes: Seq<TableChangeView>, n: int) -> Seq<ColumnView>
    decreases n,
{
    if n <= 0 {
        Seq::empty()
    } else {
        let rest = required_text_columns(changes, n - 1);
        match changes[n - 1] {
            TableChangeView::AddColumn { column } => if is_required_new_text_column_spec(column) {
                rest.push(column)
            } else {
                rest
            },
            _ => rest,
        }
    }
}

/// Those of the first `n` changes that add no required text column.
pub open spec fn other_changes(changes: Seq<TableChangeView>, n: int) -> Seq<TableChangeView>
    decreases n,
{
    if n <= 0 {
        Seq::empty()
    } else {
        let rest = other_changes(changes, n - 1);
        if adds_required_text_column(changes[n - 1]) {
            rest
        } else {
            rest.push(changes[n - 1])
        }
    }
}

/// The column, allowed to be null.
pub open spec fn as_nullable(column: ColumnView) -> ColumnView {
    ColumnView {
        name: column.name,
        raw_type: column.raw_type,
        family: column.family,
        arity: ColumnArity::Nullable,
        default: column.default,
    }
}

/// The statement that gives every row the default of a new column.
pub open spec fn update_statement(
    schema: Seq<char>,
    table: Seq<char>,
    column: Seq<char>,
    default: Seq<char>,
) -> Seq<char> {
    "UPDATE `"@ + schema + "`.`"@ + table + "` SET `"@ + column + "` = '"@ + default + "'"@
}

/// The step that adds the column as nullable.
pub open spec fn add_nullable_step(table: TableView, column: ColumnView) -> StepView {
    StepView::AlterTable(
        AlterTableView {
            table,
            changes: seq![TableChangeView::AddColumn { column: as_nullable(column) }],
        },
    )
}

/// The step that makes the column required again.
pub open spec fn make_required_step(table: TableView, column: ColumnView) -> StepView {
    StepView::AlterTable(
        AlterTableView {
            table,
            changes: seq![
                TableChangeView::AlterColumn {
                    name: column.name,
                    column,
                    change: ColumnChange::ChangeArity {
                        from: ColumnArity::Nullable,
                        to: ColumnArity::Required,
                    },
                },
            ],
        },
    )
}

/// Adding a required text column on MySQL: the column is added as nullable,
/// every row gets the default where there is one, and the column is made
/// required.
pub open spec fn required_text_column_steps(
    table: TableView,
    column: ColumnView,
    schema: Seq<char>,
) -> Seq<StepView> {
    match column.default {
        Some(default) => seq![
            add_nullable_step(table, column),
            StepView::RawSql { raw: update_statement(schema, table.name, column.name, default) },
            make_required_step(table, column),
        ],
        None => seq![add_nullable_step(table, column), make_required_step(table, column)],
    }
}

/// The steps that add the first `n` of the columns, one column after the other.
pub open spec fn required_text_steps(
    table: TableView,
    columns: Seq<ColumnView>,
    schema: Seq<char>,
    n: int,
) -> Seq<StepView>
    decreases n,
{
    if n <= 0 {
        Seq::empty()
    } else {
        required_text_steps(table, columns, schema, n - 1) + required_text_column_steps(
            table,
            columns[n - 1],
            schema,
        )
    }
}

/// What becomes of an `AlterTable` on MySQL: the required text columns it
/// adds are added in three moves each, and the changes that are left, if any,
/// follow in one `AlterTable`.
pub open spec fn fix_mysql_alter_table_spec(alter: AlterTableView, schema: Seq<char>) -> Seq<
    StepView,
> {
    let columns = required_text_columns(alter.changes, alter.changes.len() as int);
    let others = other_changes(alter.changes, alter.changes.len() as int);
    let expansion = required_text_steps(alter.table, columns, schema, columns.len() as int);
    if others.len() > 0 {
        expansion.push(StepView::AlterTable(AlterTableView { table: alter.table, changes: others }))
    } else {
        expansion
    }
}

/// What becomes of one step on MySQL.
pub open spec fn fix_mysql_step_spec(step: StepView, schema: Seq<char>) -> Seq<StepView> {
    match step {
        StepView::AlterTable(alter) => fix_mysql_alter_table_spec(alter, schema),
        other => seq![other],
    }
}

/// What becomes of the first `n` steps on MySQL.
pub open spec fn fix_steps_mysql_spec(steps: Seq<StepView>, schema: Seq<char>, n: int) -> Seq<
    StepView,
>
    decreases n,
{
    if n <= 0 {
        Seq::empty()
    } else {
        fix_steps_mysql_spec(steps, schema, n - 1) + fix_mysql_step_spec(steps[n - 1], schema)
    }
}

/// Whether the column is of the string family and must hold a value.
pub fn is_required_new_text_column(column: &Column) -> (required_text: bool)
    ensures
        required_text == is_required_new_text_column_spec(column@),
{
    column.tpe.family == ColumnTypeFamily::String && column.arity == ColumnArity::Required
}

/// Appends the steps that add one required text column on MySQL.
pub fn fix_mysql_add_required_text_column(
    table: &Table,
    column: Column,
    fixed_steps: &mut Vec<SqlMigrationStep>,
    schema_name: &str,
) -> (done: Result<(), SqlError>)
    ensures
        done is Ok,
        final(fixed_steps).deep_view() == old(fixed_steps).deep_view()
            + required_text_column_steps(table@, column@, schema_name@),
{
    let ghost before = fixed_steps.deep_view();
    let non_required_column = Column {
        name: column.name.clone(),
        tpe: column.tpe.clone(),
        arity: ColumnArity::Nullable,
        default: column.default.clone(),
    };
    assert(non_required_column@ == as_nullable(column@));
    let mut add_changes: Vec<TableChange> = Vec::new();
    add_changes.push(TableChange::AddColumn(AddColumn { column: non_required_column }));
    proof {
        assert(add_changes.deep_view() =~= seq![
            TableChangeView::AddColumn { column: as_nullable(column@) },
        ]);
    }
    push_back(
        fixed_steps,
        SqlMigrationStep::AlterTable(AlterTable { table: table.clone(), changes: add_changes }),
    );

    match &column.default {
        Some(default_value) => {
            let mut update_statement = glue("UPDATE `", schema_name);
            update_statement.append("`.`");
            update_statement.append(table.name.as_str());
            update_statement.append("` SET `");
            update_statement.append(column.name.as_str());
            update_statement.append("` = '");
            update_statement.append(default_value.as_str());
            update_statement.append("'");
            push_back(fixed_steps, SqlMigrationStep::RawSql { raw: update_statement });
        },
        None => {},
    }

    let mut alter_changes: Vec<TableChange> = Vec::new();
    let ghost column_view = column@;
    alter_changes.push(
        TableChange::AlterColumn(
            AlterColumn {
                name: column.name.clone(),
                column,
                change: ColumnChange::ChangeArity {
                    from: ColumnArity::Nullable,
                    to: ColumnArity::Required,
                },
            },
        ),
    );
    proof {
        assert(alter_changes.deep_view() =~= seq![
            TableChangeView::AlterColumn {
                name: column_view.name,
                column: column_view,
                change: ColumnChange::ChangeArity {
                    from: ColumnArity::Nullable,
                    to: ColumnArity::Required,
                },
            },
        ]);
    }
    push_back(
        fixed_steps,
        SqlMigrationStep::AlterTable(AlterTable { table: table.clone(), changes: alter_changes }),
    );
    proof {
        assert(fixed_steps.deep_view() =~= before + required_text_column_steps(
            table@,
            column_view,
            schema_name@,
        ));
    }
    Ok(())
}

/// Appends what becomes of an `AlterTable` on MySQL, where the versions
/// to be served accept no `DEFAULT` on a text column.
pub fn fix_mysql_new_required_text_fields(
    original_step: AlterTable,
    fixed_steps: &mut Vec<SqlMigrationStep>,
    schema_name: &str,
) -> (done: Result<(), SqlError>)
    ensures
        done is Ok,
        final(fixed_steps).deep_view() == old(fixed_steps).deep_view()
            + fix_mysql_alter_table_spec(original_step@, schema_name@),
{
    let ghost before = fixed_steps.deep_view();
    let ghost alter = original_step@;
    let mut other: Vec<TableChange> = Vec::new();
    let mut added_required_text_columns: Vec<Column> = Vec::new();
    proof {
        assert(other.deep_view() =~= Seq::empty());
        assert(added_required_text_columns.deep_view() =~= Seq::empty());
    }
    let table = original_step.table;
    let changes = original_step.changes;
    let ghost items = changes@;
    for change in iter: changes
        invariant
            iter.seq() == items,
            alter.changes.len() == items.len(),
            forall|k: int| 0 <= k < items.len() ==> alter.changes[k] == (#[trigger] items[k])@,
            other.deep_view() == other_changes(alter.changes, iter.index()),
            added_required_text_columns.deep_view() == required_text_columns(
                alter.changes,
                iter.index(),
            ),
    {
        assert(change@ == alter.changes[iter.index()]);
        match change {
            TableChange::AddColumn(add) => {
                if is_required_new_text_column(&add.column) {
                    push_back(&mut added_required_text_columns, add.column);
                } else {
                    push_back(&mut other, TableChange::AddColumn(add));
                }
            },
            change => {
                push_back(&mut other, change);
            },
        }
    }
    let ghost columns = added_required_text_columns.deep_view();
    let ghost column_items = added_required_text_columns@;
    proof {
        assert(before + Seq::<StepView>::empty() =~= before);
    }
    for column in iter: added_required_text_columns
        invariant
            iter.seq() == column_items,
            columns.len() == column_items.len(),
            forall|k: int| 0 <= k < column_items.len() ==> columns[k] == (#[trigger] column_items[k])@,
            fixed_steps.deep_view() == before + required_text_steps(
                table@,
                columns,
                schema_name@,
                iter.index(),
            ),
    {
        let ghost done_so_far = required_text_steps(table@, columns, schema_name@, iter.index());
        let ghost more = required_text_column_steps(table@, column@, schema_name@);
        assert(column@ == columns[iter.index()]);
        let _ = fix_mysql_add_required_text_column(&table, column, fixed_steps, schema_name);
        proof {
            assert((before + done_so_far) + more =~= before + (done_so_far + more));
        }
    }
    if other.len() > 0 {
        push_back(
            fixed_steps,
            SqlMigrationStep::AlterTable(AlterTable { table, changes: other }),
        );
        proof {
            let expansion = required_text_steps(table@, columns, schema_name@, columns.len() as int);
            let last = StepView::AlterTable(
                AlterTableView {
                    table: alter.table,
                    changes: other_changes(alter.changes, alter.changes.len() as int),
                },
            );
            assert((before + expansion).push(last) =~= before + expansion.push(last));
        }
    }
    Ok(())
}

/// Rewrites the steps for MySQL.
pub fn fix_steps_mysql(steps: Vec<SqlMigrationStep>, schema_name: &str) -> (fixed: Result<
    Vec<SqlMigrationStep>,
    SqlError,
>)
    ensures
        steps_result_view(fixed) == Ok::<Seq<StepView>, SqlErrorView>(
            fix_steps_mysql_spec(steps.deep_view(), schema_name@, steps.len() as int),
        ),
{
    let ghost items = steps@;
    let ghost views = steps.deep_view();
    let mut fixed_steps: Vec<SqlMigrationStep> = Vec::with_capacity(steps.len());
    proof {
        assert(fixed_steps.deep_view() =~= Seq::empty());
    }
    for step in iter: steps
        invariant
            iter.seq() == items,
            views.len() == items.len(),
            forall|k: int| 0 <= k < items.len() ==> views[k] == (#[trigger] items[k])@,
            fixed_steps.deep_view() == fix_steps_mysql_spec(views, schema_name@, iter.index()),
    {
        let ghost before = fixed_steps.deep_view();
        assert(step@ == views[iter.index()]);
        match step {
            SqlMigrationStep::AlterTable(alter_table) => {
                let _ = fix_mysql_new_required_text_fields(
                    alter_table,
                    &mut fixed_steps,
                    schema_name,
                );
            },
            other_step => {
                proof {
                    assert(before.push(other_step@) =~= before + seq![other_step@]);
                }
                push_back(&mut fixed_steps, other_step);
            },
        }
    }
    Ok(fixed_steps)
}

// ---------------------------------------------------------------------------
// From two schemas to a migration
// ---------------------------------------------------------------------------

/// The steps that lead from `from` to `to`, as the dialect can run them.
pub open spec fn corrected_steps_spec(
    from: SqlSchemaView,
    to: SqlSchemaView,
    schema: Seq<char>,
    family: SqlFamily,
) -> Result<Seq<StepView>, SqlErrorView> {
    let diff = diff_spec(from, to);
    match family {
        SqlFamily::Sqlite => fix_stupid_sqlite_spec(diff, from, to, schema),
        SqlFamily::Mysql => match fix_id_column_type_change_spec(
            from,
            to,
            delay_foreign_key_creation_spec(diff),
        ) {
            Ok(steps) => Ok(fix_steps_mysql_spec(steps, schema, steps.len() as int)),
            Err(e) => Err(e),
        },
        SqlFamily::Postgres => fix_id_column_type_change_spec(
            from,
            to,
            delay_foreign_key_creation_spec(diff),
        ),
    }
}

/// The migration from `current` to `expected`: the plain steps of the
/// difference, the corrected steps, and the corrected steps of the way back.
pub open spec fn infer_spec(
    current: SqlSchemaView,
    expected: SqlSchemaView,
    schema: Seq<char>,
    family: SqlFamily,
) -> Result<SqlMigrationView, SqlErrorView> {
    match corrected_steps_spec(current, expected, schema, family) {
        Ok(corrected_steps) => match corrected_steps_spec(expected, current, schema, family) {
            Ok(rollback) => Ok(
                SqlMigrationView {
                    before: current,
                    after: expected,
                    original_steps: diff_spec(current, expected).into_steps(),
                    corrected_steps,
                    rollback,
                },
            ),
            Err(e) => Err(e),
        },
        Err(e) => Err(e),
    }
}

/// The plain steps from `from` to `to`, and the steps corrected for the dialect.
pub fn infer_database_migration_steps_and_fix(
    from: &SqlSchema,
    to: &SqlSchema,
    schema_name: &str,
    sql_family: SqlFamily,
) -> (inferred: Result<(Vec<SqlMigrationStep>, Vec<SqlMigrationStep>), SqlError>)
    ensures
        inferred is Ok,
        match inferred {
            Ok((original_steps, corrected_steps)) => {
                &&& original_steps.deep_view() == diff_spec(from@, to@).into_steps()
                &&& corrected_steps_spec(from@, to@, schema_name@, sql_family) == Ok::<
                    Seq<StepView>,
                    SqlErrorView,
                >(corrected_steps.deep_view())
            },
            Err(e) => corrected_steps_spec(from@, to@, schema_name@, sql_family) == Err::<
                Seq<StepView>,
                SqlErrorView,
            >(e@),
        },
{
    proof {
        lemma_corrected_steps_exist(from@, to@, schema_name@, sql_family);
    }
    let original_steps = SqlSchemaDiffer::diff(from, to).into_steps();
    let diff = SqlSchemaDiffer::diff(from, to);
    let corrected_steps = match sql_family {
        SqlFamily::Sqlite => fix_stupid_sqlite(diff, from, to, schema_name),
        SqlFamily::Mysql => {
            let steps = delay_foreign_key_creation(diff);
            match fix_id_column_type_change(from, to, schema_name, steps) {
                Ok(steps) => fix_steps_mysql(steps, schema_name),
                Err(e) => Err(e),
            }
        },
        SqlFamily::Postgres => {
            let steps = delay_foreign_key_creation(diff);
            fix_id_column_type_change(from, to, schema_name, steps)
        },
    };
    match corrected_steps {
        Ok(corrected_steps) => Ok((original_steps, corrected_steps)),
        Err(e) => Err(e),
    }
}

/// Plans the migration from the current schema to the expected one, and the
/// way back.
pub fn infer(
    current_database_schema: &SqlSchema,
    expected_database_schema: &SqlSchema,
    schema_name: &str,
    sql_family: SqlFamily,
) -> (migration: Result<SqlMigration, SqlError>)
    ensures
        migration is Ok,
        match migration {
            Ok(m) => all_renderable(m@.corrected_steps, sql_family) && all_renderable(
                m@.rollback,
                sql_family,
            ),
            Err(_) => true,
        },
        match migration {
            Ok(m) => infer_spec(
                current_database_schema@,
                expected_database_schema@,
                schema_name@,
                sql_family,
            ) == Ok::<SqlMigrationView, SqlErrorView>(m@),
            Err(e) => infer_spec(
                current_database_schema@,
                expected_database_schema@,
                schema_name@,
                sql_family,
            ) == Err::<SqlMigrationView, SqlErrorView>(e@),
        },
{
    proof {
        lemma_corrected_steps_rename_no_index_on_sqlite(
            current_database_schema@,
            expected_database_schema@,
            schema_name@,
        );
        lemma_corrected_steps_rename_no_index_on_sqlite(
            expected_database_schema@,
            current_database_schema@,
            schema_name@,
        );
    }
    let (original_steps, corrected_steps) = match infer_database_migration_steps_and_fix(
        current_database_schema,
        expected_database_schema,
        schema_name,
        sql_family,
    ) {
        Ok(steps) => steps,
        Err(e) => {
            return Err(e);
        },
    };
    let rollback = match infer_database_migration_steps_and_fix(
        expected_database_schema,
        current_database_schema,
        schema_name,
        sql_family,
    ) {
        Ok(steps) => steps.1,
        Err(e) => {
            return Err(e);
        },
    };
    Ok(
        SqlMigration {
            before: current_database_schema.clone(),
            after: expected_database_schema.clone(),
            original_steps,
            corrected_steps,
            rollback,
        },
    )
}

} // verus!
