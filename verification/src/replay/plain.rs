//! The steps of a difference lead to the target: as they are, with foreign
//! key columns created late, and from scratch.

use crate::guarantees::{has_id_type_change, lemma_postgres_steps};
use crate::replay::columns::{
    lemma_column_changes_lead_to_target, lemma_delayed_columns_complete_the_table, reached_columns,
};
use crate::replay::content::{
    apply_index_drops, apply_steps, column_names, columns_of, content_of, created_content,
    indexes_by_name, only_appends, order_after, table_content, whole_order, with_indexes,
    ColumnOrder, TableContent,
};
use crate::replay::indexes::lemma_index_changes_lead_to_target;
use crate::replay::tables::{
    alter_index_steps, alter_table_steps, create_index_steps, create_table_steps, created_part,
    drop_index_steps, drop_table_steps, dropped_part, lemma_alter_index_steps_at,
    lemma_alter_tables_phase, lemma_apply_one_step, lemma_apply_steps_add, lemma_apply_steps_at,
    lemma_create_index_steps_at, lemma_create_indexes_phase, lemma_create_tables_phase,
    lemma_drop_index_steps_at, lemma_drop_indexes_phase, lemma_drop_tables_phase,
    lemma_into_steps_phases, lemma_phases_at, lemma_rename_indexes_phase, lemma_same_content,
    lemma_sorted_schema, lemma_steps_at_add, lemma_steps_at_missing, lemma_steps_at_push,
    lemma_table_created_indexes_table, lemma_table_dropped_indexes_table, lemma_table_position,
    lemma_table_renamed_indexes_table, renamed_part, sorted_schema, step_at, steps_at,
};
use crate::schema::{ColumnView, IndexView, SqlSchemaView, TableView};
use crate::search::lemma_first_where_none;
use crate::sql_database_migration_inferrer::{
    corrected_steps_spec, delay_foreign_key_creation_spec, delayed_alter_tables, delayed_columns,
    delayed_diff, droppable_names, kept_columns, migration_table_name, pruned_table, pruned_tables,
    radical_steps, table_names,
};
use crate::sql_migration::{AlterTable, AlterTableView, CreateTable, DropTables, StepView};
use crate::sql_renderer::SqlFamily;
use crate::sql_schema_differ::{
    column_changes, created_tables, diff_spec, indexes_of, sort_by_name, table_dropped_indexes,
};
use vstd::prelude::*;

verus! {

/// What is left of a table of `from` when the indexes are dropped and the
/// tables are dropped that the difference to `to` says.
pub open spec fn after_drops(from: SqlSchemaView, to: SqlSchemaView, table: Seq<char>) -> Option<
    TableContent,
> {
    match from.table(table) {
        Some(current) => if to.has_table(table) {
            Some(
                with_indexes(
                    table_content(current),
                    apply_index_drops(
                        indexes_by_name(current.indices),
                        table_dropped_indexes(
                            table,
                            current.indices,
                            indexes_of(to, table),
                            current.indices.len() as int,
                        ),
                    ),
                ),
            )
        } else {
            None
        },
        None => None,
    }
}

/// What the table is after the indexes and the tables are dropped.
pub proof fn lemma_after_drops(from: SqlSchemaView, to: SqlSchemaView, table: Seq<char>)
    requires
        from.wf(),
        to.wf(),
    ensures
        steps_at(
            steps_at(
                content_of(from).get(table),
                drop_index_steps(diff_spec(from, to).drop_indexes),
                table,
            ),
            drop_table_steps(diff_spec(from, to).drop_tables),
            table,
        ) == after_drops(from, to, table),
{
    let source = sorted_schema(from);
    lemma_sorted_schema(from);
    lemma_table_position(source, table);
    let start = content_of(from).get(table);
    lemma_drop_indexes_phase(start, source, to, table, source.tables.len() as int);
    let dropped = steps_at(start, drop_index_steps(diff_spec(from, to).drop_indexes), table);
    lemma_drop_tables_phase(dropped, source, to, table, source.tables.len() as int);
    assert(source.table(table) == from.table(table));
    match source.table_index(table) {
        Some(i) => {
            let current = source.tables[i];
            lemma_table_dropped_indexes_table(
                table,
                current.indices,
                indexes_of(to, table),
                current.indices.len() as int,
            );
            lemma_drop_index_steps_at(table_content(current), dropped_part(source, to, i), table);
        },
        None => {},
    }
}

/// A table that the steps make anew, as the target has it. It is created as
/// `created_as`, which holds the columns of the target that do not have to
/// wait, in the order of the target; the columns that had to wait are added
/// behind them. Where none had to wait, the columns are all there in the
/// order of the target.
pub open spec fn made(target: TableView, created_as: TableView) -> TableContent {
    TableContent {
        columns: columns_of(target),
        indexes: indexes_by_name(target.indices),
        primary_key: target.primary_key,
        column_order: ColumnOrder {
            leading: column_names(created_as),
            whole: created_as.columns.len() == target.columns.len(),
        },
    }
}

/// A table that stays and is changed in place: it gets the columns and the
/// indexes of the target and keeps its primary key. A column that stays
/// where it stands keeps its foreign key; a column that is added, or dropped
/// and added again, gets the foreign key of the target. The order of the
/// columns is the one the table had where no column changes. Where columns
/// are only added or altered in place, the table still begins with the
/// columns it had; where one is dropped or replaced, nothing is known of the
/// order.
pub open spec fn kept(current: TableView, target: TableView) -> TableContent {
    TableContent {
        columns: reached_columns(current, target),
        indexes: indexes_by_name(target.indices),
        primary_key: current.primary_key,
        column_order: if column_changes(current, target).len() > 0 {
            order_after(whole_order(current), column_changes(current, target))
        } else {
            whole_order(current)
        },
    }
}

/// What becomes of a table of the target: made anew where there is no
/// current table, changed in place where there is one.
pub open spec fn reached_from(
    current: Option<TableView>,
    target: TableView,
    created_as: TableView,
) -> TableContent {
    match current {
        Some(table) => kept(table, target),
        None => made(target, created_as),
    }
}

/// What the steps of the difference make of the table called `table`.
pub open spec fn plain_table(from: SqlSchemaView, to: SqlSchemaView, table: Seq<char>) -> Option<
    TableContent,
> {
    match to.table(table) {
        Some(target) => Some(reached_from(from.table(table), target, target)),
        None => None,
    }
}

/// What the steps of the difference make of the schema `from`: the tables
/// of `to`, each made anew or changed in place.
pub open spec fn plain_content(from: SqlSchemaView, to: SqlSchemaView) -> Map<Seq<char>, TableContent> {
    Map::new(
        |table: Seq<char>| plain_table(from, to, table) is Some,
        |table: Seq<char>| plain_table(from, to, table)->Some_0,
    )
}

/// Whether one of the columns of the table has to wait.
pub open spec fn waits(created: Seq<Seq<char>>, target: TableView) -> bool {
    delayed_columns(created, target, target.columns.len() as int).len() > 0
}

/// What the steps of the difference, foreign key columns late, make of the
/// table called `table`.
pub open spec fn delayed_table(from: SqlSchemaView, to: SqlSchemaView, table: Seq<char>) -> Option<
    TableContent,
> {
    match to.table(table) {
        Some(target) => Some(
            reached_from(
                from.table(table),
                target,
                pruned_table(table_names(diff_spec(from, to).create_tables), target),
            ),
        ),
        None => None,
    }
}

/// What the steps of the difference, foreign key columns late, make of the
/// schema `from`.
pub open spec fn delayed_content(from: SqlSchemaView, to: SqlSchemaView) -> Map<
    Seq<char>,
    TableContent,
> {
    Map::new(
        |table: Seq<char>| delayed_table(from, to, table) is Some,
        |table: Seq<char>| delayed_table(from, to, table)->Some_0,
    )
}

/// What the creation of indexes and the renaming of indexes make of a
/// table that has its columns already: the table gets the indexes of the
/// target and stays as it is otherwise.
pub proof fn lemma_after_indexes(
    state: Option<TableContent>,
    from: SqlSchemaView,
    to: SqlSchemaView,
    table: Seq<char>,
)
    requires
        from.wf(),
        to.wf(),
        match to.table(table) {
            Some(target) => state is Some && state->Some_0.indexes == match from.table(table) {
                Some(current) => apply_index_drops(
                    indexes_by_name(current.indices),
                    table_dropped_indexes(
                        table,
                        current.indices,
                        target.indices,
                        current.indices.len() as int,
                    ),
                ),
                None => Map::<Seq<char>, IndexView>::empty(),
            },
            None => state is None || !from.has_table(table),
        },
    ensures
        steps_at(
            steps_at(state, create_index_steps(diff_spec(from, to).create_indexes), table),
            alter_index_steps(diff_spec(from, to).alter_indexes),
            table,
        ) == match to.table(table) {
            Some(target) => Some(with_indexes(state->Some_0, indexes_by_name(target.indices))),
            None => state,
        },
{
    let source = sorted_schema(from);
    let target_schema = sorted_schema(to);
    lemma_sorted_schema(from);
    lemma_sorted_schema(to);
    lemma_table_position(source, table);
    lemma_table_position(target_schema, table);
    assert(source.table(table) == from.table(table));
    assert(target_schema.table(table) == to.table(table));
    lemma_create_indexes_phase(state, from, target_schema, table, target_schema.tables.len() as int);
    let created = steps_at(state, create_index_steps(diff_spec(from, to).create_indexes), table);
    lemma_rename_indexes_phase(created, source, to, table, source.tables.len() as int);
    match target_schema.table_index(table) {
        Some(j) => {
            let target = target_schema.tables[j];
            let previous = indexes_of(from, table);
            lemma_table_created_indexes_table(target, previous, target.indices.len() as int);
            lemma_create_index_steps_at(state->Some_0, created_part(from, target_schema, j), table);
            match source.table_index(table) {
                Some(i) => {
                    let current = source.tables[i];
                    lemma_table_renamed_indexes_table(
                        table,
                        current.indices,
                        target.indices,
                        current.indices.len() as int,
                    );
                    lemma_alter_index_steps_at(
                        created->Some_0,
                        renamed_part(source, to, i),
                        table,
                    );
                    lemma_index_changes_lead_to_target(current.indices, target);
                },
                None => {
                    let nothing = Seq::<IndexView>::empty();
                    assert(previous == nothing);
                    lemma_index_changes_lead_to_target(nothing, target);
                    assert(indexes_by_name(nothing) =~= Map::<Seq<char>, IndexView>::empty()) by {
                        assert forall|name: Seq<char>| !indexes_by_name(nothing).dom().contains(
                            name,
                        ) by {
                            lemma_first_where_none(nothing, |x: IndexView| x.name == name);
                        }
                    }
                },
            }
        },
        None => {
            match source.table_index(table) {
                Some(i) => {
                    lemma_steps_at_missing(alter_index_steps(renamed_part(source, to, i)), table);
                },
                None => {},
            }
        },
    }
}

/// The steps of the difference make of each table what `plain_table` says:
/// the columns and the indexes that the other schema has under its name.
pub proof fn lemma_plain_steps_at(from: SqlSchemaView, to: SqlSchemaView, table: Seq<char>)
    requires
        from.wf(),
        to.wf(),
    ensures
        steps_at(content_of(from).get(table), diff_spec(from, to).into_steps(), table)
            == plain_table(from, to, table),
{
    let diff = diff_spec(from, to);
    let target_schema = sorted_schema(to);
    lemma_sorted_schema(from);
    lemma_sorted_schema(to);
    lemma_phases_at(content_of(from).get(table), diff, table);
    lemma_after_drops(from, to, table);
    let dropped = after_drops(from, to, table);
    lemma_table_position(target_schema, table);
    lemma_table_position(from, table);
    lemma_table_position(to, table);
    assert(target_schema.table(table) == to.table(table));
    lemma_create_tables_phase(dropped, from, target_schema, table, target_schema.tables.len() as int);
    let created = steps_at(dropped, create_table_steps(diff.create_tables), table);
    lemma_alter_tables_phase(created, from, target_schema, table, target_schema.tables.len() as int);
    let changed = steps_at(created, alter_table_steps(diff.alter_tables), table);
    match to.table(table) {
        Some(target) => {
            match from.table(table) {
                Some(current) => {
                    lemma_column_changes_lead_to_target(current, target);
                    assert(indexes_of(to, table) == target.indices);
                },
                None => {},
            }
        },
        None => {},
    }
    lemma_after_indexes(changed, from, to, table);
}

/// The steps of the difference between two well-formed schemas lead from
/// the content of the one to the tables of the other, each made anew or
/// changed in place.
pub proof fn lemma_plain_steps_lead_to_target(from: SqlSchemaView, to: SqlSchemaView)
    requires
        from.wf(),
        to.wf(),
    ensures
        apply_steps(content_of(from), diff_spec(from, to).into_steps()) == plain_content(from, to),
{
    let steps = diff_spec(from, to).into_steps();
    let result = apply_steps(content_of(from), steps);
    lemma_into_steps_phases(diff_spec(from, to));
    assert forall|table: Seq<char>| result.get(table) == plain_content(from, to).get(table) by {
        lemma_apply_steps_at(content_of(from), steps, table);
        lemma_plain_steps_at(from, to, table);
    }
    lemma_same_content(result, plain_content(from, to));
}

/// What the creation of the pruned tables among the first `n` tables of the
/// target makes of a table.
pub proof fn lemma_create_pruned_tables_phase(
    state: Option<TableContent>,
    created: Seq<Seq<char>>,
    from: SqlSchemaView,
    target: SqlSchemaView,
    table: Seq<char>,
    n: int,
)
    requires
        target.wf(),
        0 <= n <= target.tables.len(),
    ensures
        steps_at(
            state,
            create_table_steps(pruned_tables(created, created_tables(from, target.tables, n))),
            table,
        ) == match target.table_index(table) {
            Some(i) => if i < n && !from.has_table(table) {
                Some(created_content(pruned_table(created, target.tables[i])))
            } else {
                state
            },
            None => state,
        },
    decreases n,
{
    lemma_table_position(target, table);
    if n > 0 {
        lemma_create_pruned_tables_phase(state, created, from, target, table, n - 1);
        let rest = created_tables(from, target.tables, n - 1);
        let new_table = target.tables[n - 1];
        if !from.has_table(new_table.name) {
            let step = StepView::CreateTable(pruned_table(created, new_table));
            assert(create_table_steps(pruned_tables(created, rest.push(new_table)))
                =~= create_table_steps(pruned_tables(created, rest)).push(step));
            lemma_steps_at_push(
                state,
                create_table_steps(pruned_tables(created, rest)),
                step,
                table,
            );
        }
    } else {
        assert(create_table_steps(
            pruned_tables(created, created_tables(from, target.tables, n)),
        ) =~= Seq::empty());
    }
}

/// One more table at the end leaves the `AlterTable` steps for the tables
/// before it as they are.
pub proof fn lemma_delayed_alter_tables_prefix(
    created: Seq<Seq<char>>,
    tables: Seq<TableView>,
    more: TableView,
    n: int,
)
    requires
        0 <= n <= tables.len(),
    ensures
        delayed_alter_tables(created, tables.push(more), n) == delayed_alter_tables(
            created,
            tables,
            n,
        ),
    decreases n,
{
    if n > 0 {
        lemma_delayed_alter_tables_prefix(created, tables, more, n - 1);
        assert(tables.push(more)[n - 1] == tables[n - 1]);
    }
}

/// The `AlterTable` steps that add the columns which had to wait, for the
/// tables created among the first `n` tables of `target`.
pub open spec fn late_alter_tables(
    created: Seq<Seq<char>>,
    from: SqlSchemaView,
    target: SqlSchemaView,
    n: int,
) -> Seq<AlterTableView> {
    delayed_alter_tables(
        created,
        created_tables(from, target.tables, n),
        created_tables(from, target.tables, n).len() as int,
    )
}

/// What the addition of the columns that had to wait makes of a table.
pub proof fn lemma_late_alter_tables_phase(
    state: Option<TableContent>,
    created: Seq<Seq<char>>,
    from: SqlSchemaView,
    target: SqlSchemaView,
    table: Seq<char>,
    n: int,
)
    requires
        target.wf(),
        0 <= n <= target.tables.len(),
    ensures
        steps_at(state, alter_table_steps(late_alter_tables(created, from, target, n)), table)
            == match target.table_index(table) {
            Some(i) => if i < n && !from.has_table(table) && delayed_columns(
                created,
                target.tables[i],
                target.tables[i].columns.len() as int,
            ).len() > 0 {
                step_at(
                    state,
                    StepView::AlterTable(
                        AlterTableView {
                            table: pruned_table(created, target.tables[i]),
                            changes: delayed_columns(
                                created,
                                target.tables[i],
                                target.tables[i].columns.len() as int,
                            ),
                        },
                    ),
                    table,
                )
            } else {
                state
            },
            None => state,
        },
    decreases n,
{
    lemma_table_position(target, table);
    if n > 0 {
        lemma_late_alter_tables_phase(state, created, from, target, table, n - 1);
        let rest = created_tables(from, target.tables, n - 1);
        let new_table = target.tables[n - 1];
        if !from.has_table(new_table.name) {
            lemma_delayed_alter_tables_prefix(created, rest, new_table, rest.len() as int);
            let changes = delayed_columns(created, new_table, new_table.columns.len() as int);
            if changes.len() > 0 {
                let alter = AlterTableView { table: pruned_table(created, new_table), changes };
                let before = late_alter_tables(created, from, target, n - 1);
                assert(late_alter_tables(created, from, target, n) == before.push(alter));
                assert(alter_table_steps(before.push(alter)) =~= alter_table_steps(before).push(
                    StepView::AlterTable(alter),
                ));
                lemma_steps_at_push(
                    state,
                    alter_table_steps(before),
                    StepView::AlterTable(alter),
                    table,
                );
            }
        }
    } else {
        assert(alter_table_steps(late_alter_tables(created, from, target, n)) =~= Seq::empty());
    }
}

/// The columns that have to wait are added behind those that do not, and
/// each column of the table is among the ones or the others.
pub proof fn lemma_waiting_columns_are_appended(created: Seq<Seq<char>>, table: TableView, n: int)
    requires
        0 <= n <= table.columns.len(),
    ensures
        only_appends(delayed_columns(created, table, n)),
        kept_columns(created, table, n).len() + delayed_columns(created, table, n).len() == n,
    decreases n,
{
    if n > 0 {
        lemma_waiting_columns_are_appended(created, table, n - 1);
    }
}

/// Where no column has to wait, all columns are kept.
pub proof fn lemma_nothing_waits(created: Seq<Seq<char>>, table: TableView, n: int)
    requires
        0 <= n <= table.columns.len(),
        delayed_columns(created, table, n).len() == 0,
    ensures
        kept_columns(created, table, n) == table.columns.take(n),
    decreases n,
{
    if n > 0 {
        lemma_nothing_waits(created, table, n - 1);
        assert(table.columns.take(n) =~= table.columns.take(n - 1).push(table.columns[n - 1]));
    } else {
        assert(table.columns.take(0) =~= Seq::<ColumnView>::empty());
    }
}

/// What the creation of tables, the alteration of tables and the steps on
/// indexes make of a table, once the drops are done: a table of the target
/// is made anew or changed in place, any other table is left as the drops
/// left it.
pub proof fn lemma_behind_the_drops(
    dropped: Option<TableContent>,
    from: SqlSchemaView,
    to: SqlSchemaView,
    table: Seq<char>,
)
    requires
        from.wf(),
        to.wf(),
        from.has_table(table) ==> dropped == after_drops(from, to, table),
    ensures
        ({
            let delayed = delayed_diff(diff_spec(from, to));
            steps_at(
                steps_at(
                    steps_at(
                        steps_at(dropped, create_table_steps(delayed.create_tables), table),
                        alter_table_steps(delayed.alter_tables),
                        table,
                    ),
                    create_index_steps(delayed.create_indexes),
                    table,
                ),
                alter_index_steps(delayed.alter_indexes),
                table,
            )
        }) == match delayed_table(from, to, table) {
            Some(reached) => Some(reached),
            None => dropped,
        },
{
    let diff = diff_spec(from, to);
    let delayed = delayed_diff(diff);
    let created_names = table_names(diff.create_tables);
    let target_schema = sorted_schema(to);
    lemma_sorted_schema(from);
    lemma_sorted_schema(to);
    lemma_table_position(target_schema, table);
    lemma_table_position(from, table);
    lemma_table_position(to, table);
    assert(target_schema.table(table) == to.table(table));
    let n = target_schema.tables.len() as int;
    lemma_create_pruned_tables_phase(dropped, created_names, from, target_schema, table, n);
    let created = steps_at(dropped, create_table_steps(delayed.create_tables), table);
    lemma_alter_tables_phase(created, from, target_schema, table, n);
    let changed = steps_at(created, alter_table_steps(diff.alter_tables), table);
    lemma_late_alter_tables_phase(changed, created_names, from, target_schema, table, n);
    let late = late_alter_tables(created_names, from, target_schema, n);
    assert(alter_table_steps(diff.alter_tables + late) =~= alter_table_steps(diff.alter_tables)
        + alter_table_steps(late));
    lemma_steps_at_add(
        created,
        alter_table_steps(diff.alter_tables),
        alter_table_steps(late),
        table,
    );
    let completed = steps_at(created, alter_table_steps(delayed.alter_tables), table);
    match to.table(table) {
        Some(target) => {
            match from.table(table) {
                Some(current) => {
                    lemma_column_changes_lead_to_target(current, target);
                    assert(indexes_of(to, table) == target.indices);
                },
                None => {
                    lemma_delayed_columns_complete_the_table(created_names, target);
                    lemma_waiting_columns_are_appended(
                        created_names,
                        target,
                        target.columns.len() as int,
                    );
                    if !waits(created_names, target) {
                        lemma_nothing_waits(created_names, target, target.columns.len() as int);
                        assert(target.columns.take(target.columns.len() as int)
                            =~= target.columns);
                        assert(pruned_table(created_names, target) == target);
                    }
                },
            }
        },
        None => {},
    }
    lemma_after_indexes(completed, from, to, table);
}

/// The steps of the difference, foreign key columns late, make of each
/// table what `delayed_table` says.
pub proof fn lemma_delayed_steps_at(from: SqlSchemaView, to: SqlSchemaView, table: Seq<char>)
    requires
        from.wf(),
        to.wf(),
    ensures
        steps_at(
            content_of(from).get(table),
            delay_foreign_key_creation_spec(diff_spec(from, to)),
            table,
        ) == delayed_table(from, to, table),
{
    lemma_phases_at(content_of(from).get(table), delayed_diff(diff_spec(from, to)), table);
    lemma_after_drops(from, to, table);
    lemma_table_position(from, table);
    let dropped = steps_at(
        steps_at(
            content_of(from).get(table),
            drop_index_steps(diff_spec(from, to).drop_indexes),
            table,
        ),
        drop_table_steps(diff_spec(from, to).drop_tables),
        table,
    );
    lemma_behind_the_drops(dropped, from, to, table);
}

/// The steps of the difference between two well-formed schemas, with
/// foreign key columns created late, lead from the content of the one to
/// the tables of the other, each made anew or changed in place.
pub proof fn lemma_delayed_steps_lead_to_target(from: SqlSchemaView, to: SqlSchemaView)
    requires
        from.wf(),
        to.wf(),
    ensures
        apply_steps(content_of(from), delay_foreign_key_creation_spec(diff_spec(from, to)))
            == delayed_content(from, to),
{
    let steps = delay_foreign_key_creation_spec(diff_spec(from, to));
    let result = apply_steps(content_of(from), steps);
    lemma_into_steps_phases(delayed_diff(diff_spec(from, to)));
    assert forall|table: Seq<char>| result.get(table) == delayed_content(from, to).get(table) by {
        lemma_apply_steps_at(content_of(from), steps, table);
        lemma_delayed_steps_at(from, to, table);
    }
    lemma_same_content(result, delayed_content(from, to));
}

/// Every table but the one that records the migrations is among the names to
/// drop, and that one is not.
pub proof fn lemma_droppable_names(tables: Seq<TableView>, n: int)
    requires
        0 <= n <= tables.len(),
    ensures
        forall|i: int|
            0 <= i < n && tables[i].name != migration_table_name() ==> droppable_names(
                tables,
                n,
            ).contains(#[trigger] tables[i].name),
        !droppable_names(tables, n).contains(migration_table_name()),
    decreases n,
{
    if n > 0 {
        lemma_droppable_names(tables, n - 1);
        let rest = droppable_names(tables, n - 1);
        let all = droppable_names(tables, n);
        assert forall|i: int|
            0 <= i < n && tables[i].name != migration_table_name() implies all.contains(
            #[trigger] tables[i].name,
        ) by {
            if i < n - 1 {
                let at = choose|at: int| 0 <= at < rest.len() && rest[at] == tables[i].name;
                assert(all[at] == tables[i].name);
            } else {
                assert(all[rest.len() as int] == tables[i].name);
            }
        }
        if all.contains(migration_table_name()) {
            let at = choose|at: int| 0 <= at < all.len() && all[at] == migration_table_name();
            if at < rest.len() {
                assert(rest[at] == migration_table_name());
            }
        }
    }
}

/// The schema without tables is well formed and has no content.
pub proof fn lemma_empty_schema_content()
    ensures
        content_of(SqlSchemaView::empty()) == Map::<Seq<char>, TableContent>::empty(),
        SqlSchemaView::empty().wf(),
        forall|table: Seq<char>| !SqlSchemaView::empty().has_table(table),
{
    assert forall|table: Seq<char>| !SqlSchemaView::empty().has_table(table) by {
        lemma_first_where_none(SqlSchemaView::empty().tables, |t: TableView| t.name == table);
    }
    assert(content_of(SqlSchemaView::empty()) =~= Map::<Seq<char>, TableContent>::empty());
}

/// What starting from scratch makes of the table called `table`: a table
/// of the target is made anew, and the table that records the migrations is
/// kept as it is where the target has none of that name.
pub open spec fn scratch_table(from: SqlSchemaView, to: SqlSchemaView, table: Seq<char>) -> Option<
    TableContent,
> {
    match delayed_table(SqlSchemaView::empty(), to, table) {
        Some(reached) => Some(reached),
        None => if table == migration_table_name() {
            content_of(from).get(table)
        } else {
            None
        },
    }
}

/// What starting from scratch makes of the schema `from`: the tables of
/// `to`, made anew, and the kept table that records the migrations.
pub open spec fn scratch_content(from: SqlSchemaView, to: SqlSchemaView) -> Map<
    Seq<char>,
    TableContent,
> {
    Map::new(
        |table: Seq<char>| scratch_table(from, to, table) is Some,
        |table: Seq<char>| scratch_table(from, to, table)->Some_0,
    )
}

/// The steps from scratch lead from the content of a schema to the tables
/// of the target, made anew, beside the kept table that records the
/// migrations.
pub proof fn lemma_radical_steps_lead_to_target(from: SqlSchemaView, to: SqlSchemaView)
    requires
        from.wf(),
        to.wf(),
    ensures
        apply_steps(content_of(from), radical_steps(from, to)) == scratch_content(from, to),
{
    let nothing = SqlSchemaView::empty();
    let sorted = sort_by_name(from.tables);
    let names = droppable_names(sorted, from.tables.len() as int);
    let first = seq![StepView::DropTables(names)];
    let rest = delay_foreign_key_creation_spec(diff_spec(nothing, to));
    lemma_apply_steps_add(content_of(from), first, rest);
    lemma_apply_one_step(content_of(from), StepView::DropTables(names));
    let cleared = apply_steps(content_of(from), first);
    assert(cleared == content_of(from).remove_keys(names.to_set()));
    lemma_sorted_schema(from);
    lemma_empty_schema_content();
    lemma_sorted_schema(nothing);
    lemma_droppable_names(sorted, from.tables.len() as int);
    lemma_into_steps_phases(delayed_diff(diff_spec(nothing, to)));
    let result = apply_steps(cleared, rest);
    assert forall|table: Seq<char>| result.get(table) == scratch_content(from, to).get(table) by {
        lemma_apply_steps_at(cleared, rest, table);
        let state = cleared.get(table);
        assert(state == if table == migration_table_name() {
            content_of(from).get(table)
        } else {
            None
        }) by {
            if from.has_table(table) && table != migration_table_name() {
                lemma_table_position(sorted_schema(from), table);
                assert(sorted_schema(from).table(table) == from.table(table));
                let i = sorted_schema(from).table_index(table)->Some_0;
                assert(names.contains(sorted[i].name));
                assert(names.to_set().contains(table));
            }
            assert(names.to_set().contains(migration_table_name()) == names.contains(
                migration_table_name(),
            ));
        }
        lemma_phases_at(state, delayed_diff(diff_spec(nothing, to)), table);
        let source = sorted_schema(nothing);
        lemma_table_position(source, table);
        lemma_drop_indexes_phase(state, source, to, table, source.tables.len() as int);
        lemma_drop_tables_phase(state, source, to, table, source.tables.len() as int);
        lemma_behind_the_drops(state, nothing, to, table);
    }
    lemma_same_content(result, scratch_content(from, to));
}

/// What the steps corrected for PostgreSQL or MySQL make of the schema
/// `from`: they start from scratch where a step of the difference changes
/// the type family of a column of the current primary key, and are the
/// steps of the difference, foreign key columns late, otherwise.
pub open spec fn relational_content(from: SqlSchemaView, to: SqlSchemaView) -> Map<
    Seq<char>,
    TableContent,
> {
    if has_id_type_change(
        from,
        delay_foreign_key_creation_spec(diff_spec(from, to)),
        delay_foreign_key_creation_spec(diff_spec(from, to)).len() as int,
    ) {
        scratch_content(from, to)
    } else {
        delayed_content(from, to)
    }
}

/// On PostgreSQL the corrected steps lead from the content of the current
/// schema to the tables of the target, each made anew or changed in place;
/// where the planner starts from scratch, the table that records the
/// migrations is kept beside them.
pub proof fn lemma_postgres_steps_lead_to_target(
    from: SqlSchemaView,
    to: SqlSchemaView,
    schema: Seq<char>,
)
    requires
        from.wf(),
        to.wf(),
    ensures
        corrected_steps_spec(from, to, schema, SqlFamily::Postgres) is Ok,
        apply_steps(
            content_of(from),
            corrected_steps_spec(from, to, schema, SqlFamily::Postgres)->Ok_0,
        ) == relational_content(from, to),
{
    lemma_postgres_steps(from, to, schema);
    let steps = delay_foreign_key_creation_spec(diff_spec(from, to));
    if has_id_type_change(from, steps, steps.len() as int) {
        lemma_radical_steps_lead_to_target(from, to);
    } else {
        lemma_delayed_steps_lead_to_target(from, to);
    }
}

} // verus!
