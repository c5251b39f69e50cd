//! MySQL: adding a required text column in three moves comes to adding it.

use crate::guarantees::{
    has_id_type_change, lemma_altered_tables_shape, lemma_into_steps_all, lemma_postgres_steps,
};
use crate::replay::columns::{
    change_at, changes_at, independent_changes, keeps_name, lemma_apply_changes_at,
    lemma_changes_at_independent, lemma_changes_at_push, lemma_column_changes_independent,
    lemma_delayed_columns_independent, lemma_same_columns, lemma_targeting, targeting,
};
use crate::replay::content::{
    added_entry, alters_in_place, appended_to, appends, apply_change, apply_changes, apply_step,
    apply_steps, content_of, only_appends, ColumnEntry, TableContent,
};
use crate::replay::plain::{
    lemma_empty_schema_content, lemma_postgres_steps_lead_to_target, relational_content,
};
use crate::replay::tables::{
    lemma_apply_one_step, lemma_apply_step_at, lemma_apply_steps_add, lemma_apply_steps_at,
    lemma_same_content, lemma_sorted_schema, lemma_steps_at_add, lemma_steps_at_missing,
    lemma_steps_at_push, lemma_steps_at_untouched, lemma_table_position, renames_no_table,
    sorted_schema, step_at, steps_at, touches,
};
use crate::schema::{ColumnArity, ColumnView, SqlSchemaView, TableView};
use crate::sql_database_migration_inferrer::{
    add_nullable_step, adds_required_text_column, as_nullable, corrected_steps_spec,
    delay_foreign_key_creation_spec, delayed_alter_tables, delayed_diff, fix_mysql_alter_table_spec,
    fix_mysql_step_spec, fix_steps_mysql_spec, make_required_step, other_changes,
    required_text_column_steps, required_text_columns, required_text_steps, table_names,
    update_statement,
};
use crate::sql_migration::{
    AddColumn, AlterColumn, AlterTable, AlterTableView, ColumnChange, CreateTable, StepView,
    TableChangeView,
};
use crate::sql_renderer::SqlFamily;
use crate::sql_schema_differ::{created_tables, diff_spec};
use vstd::prelude::*;

verus! {

/// What adding the required text columns among the first `n` changes makes
/// of the column called `name`.
pub open spec fn expanded_at(
    before: Option<ColumnEntry>,
    table: TableView,
    changes: Seq<TableChangeView>,
    name: Seq<char>,
    n: int,
) -> Option<ColumnEntry> {
    match targeting(changes, name) {
        Some(j) => if j < n && adds_required_text_column(changes[j]) {
            Some(added_entry(table, changes[j]->AddColumn_column))
        } else {
            before
        },
        None => before,
    }
}

/// The columns with the required text columns that the first `n` changes add.
pub open spec fn expanded_columns(
    columns: Map<Seq<char>, ColumnEntry>,
    table: TableView,
    changes: Seq<TableChangeView>,
    n: int,
) -> Map<Seq<char>, ColumnEntry> {
    Map::new(
        |name: Seq<char>| expanded_at(columns.get(name), table, changes, name, n) is Some,
        |name: Seq<char>| expanded_at(columns.get(name), table, changes, name, n)->Some_0,
    )
}

/// The table once the required text columns that the first `n` changes add
/// are added: where there is any, the table still begins with the columns it
/// had.
pub open spec fn expanded(
    content: TableContent,
    table: TableView,
    changes: Seq<TableChangeView>,
    n: int,
) -> TableContent {
    TableContent {
        columns: expanded_columns(content.columns, table, changes, n),
        indexes: content.indexes,
        primary_key: content.primary_key,
        column_order: if required_text_columns(changes, n).len() > 0 {
            appended_to(content.column_order)
        } else {
            content.column_order
        },
    }
}

/// Each of the first `n` changes adds a required text column or is one of
/// the changes that are left.
pub proof fn lemma_changes_are_split(changes: Seq<TableChangeView>, n: int)
    requires
        0 <= n <= changes.len(),
    ensures
        required_text_columns(changes, n).len() + other_changes(changes, n).len() == n,
    decreases n,
{
    if n > 0 {
        lemma_changes_are_split(changes, n - 1);
    }
}

/// A step of the kind that stands in the place of an `AlterTable` of `table`.
pub open spec fn is_expansion_of(table: TableView, step: StepView) -> bool {
    match step {
        StepView::AlterTable(alter) => alter.table == table,
        StepView::RawSql { raw } => true,
        _ => false,
    }
}

/// A single change is applied as it is.
pub proof fn lemma_apply_one_change(
    columns: Map<Seq<char>, ColumnEntry>,
    table: TableView,
    change: TableChangeView,
)
    ensures
        apply_changes(columns, table, seq![change]) == apply_change(columns, table, change),
{
    let changes = seq![change];
    assert(changes.drop_last() =~= Seq::<TableChangeView>::empty());
    assert(apply_changes(columns, table, changes.drop_last()) == columns);
    assert(changes.last() == change);
}

/// The three moves for one column come to adding the column.
pub proof fn lemma_required_text_column_steps_at(
    content: TableContent,
    table: TableView,
    column: ColumnView,
    schema: Seq<char>,
)
    ensures
        steps_at(Some(content), required_text_column_steps(table, column, schema), table.name)
            == Some(
            TableContent {
                columns: content.columns.insert(column.name, added_entry(table, column)),
                indexes: content.indexes,
                primary_key: content.primary_key,
                column_order: appended_to(content.column_order),
            },
        ),
        forall|i: int|
            0 <= i < required_text_column_steps(table, column, schema).len() ==> is_expansion_of(
                table,
                #[trigger] required_text_column_steps(table, column, schema)[i],
            ),
{
    let add = add_nullable_step(table, column);
    let require = make_required_step(table, column);
    let nothing = Seq::<StepView>::empty();
    let start = Some(content);
    lemma_apply_one_change(
        content.columns,
        table,
        TableChangeView::AddColumn { column: as_nullable(column) },
    );
    let added = content.columns.insert(column.name, added_entry(table, as_nullable(column)));
    lemma_apply_one_change(added, table, add_required_change(column));
    assert(alters_in_place(
        ColumnChange::ChangeArity { from: ColumnArity::Nullable, to: ColumnArity::Required },
    ));
    assert(added.insert(
        column.name,
        ColumnEntry { column, reference: added[column.name].reference },
    ) =~= content.columns.insert(column.name, added_entry(table, column)));
    match column.default {
        Some(default) => {
            let update = StepView::RawSql {
                raw: update_statement(schema, table.name, column.name, default),
            };
            assert(required_text_column_steps(table, column, schema) =~= nothing.push(add).push(
                update,
            ).push(require));
            lemma_steps_at_push(start, nothing, add, table.name);
            lemma_steps_at_push(start, nothing.push(add), update, table.name);
            lemma_steps_at_push(start, nothing.push(add).push(update), require, table.name);
        },
        None => {
            assert(required_text_column_steps(table, column, schema) =~= nothing.push(add).push(
                require,
            ));
            lemma_steps_at_push(start, nothing, add, table.name);
            lemma_steps_at_push(start, nothing.push(add), require, table.name);
        },
    }
}

/// The change that makes a column required again.
pub open spec fn add_required_change(column: ColumnView) -> TableChangeView {
    TableChangeView::AlterColumn {
        name: column.name,
        column,
        change: ColumnChange::ChangeArity {
            from: ColumnArity::Nullable,
            to: ColumnArity::Required,
        },
    }
}

/// One more column at the end leaves the steps for the columns before it as
/// they are.
pub proof fn lemma_required_text_steps_prefix(
    table: TableView,
    columns: Seq<ColumnView>,
    more: ColumnView,
    schema: Seq<char>,
    n: int,
)
    requires
        0 <= n <= columns.len(),
    ensures
        required_text_steps(table, columns.push(more), schema, n) == required_text_steps(
            table,
            columns,
            schema,
            n,
        ),
    decreases n,
{
    if n > 0 {
        lemma_required_text_steps_prefix(table, columns, more, schema, n - 1);
        assert(columns.push(more)[n - 1] == columns[n - 1]);
    }
}

/// The steps for the required text columns among the first `n` changes are
/// statements and `AlterTable` steps of the table.
pub proof fn lemma_expansion_shape(
    table: TableView,
    changes: Seq<TableChangeView>,
    schema: Seq<char>,
    n: int,
)
    requires
        0 <= n <= changes.len(),
    ensures
        forall|i: int|
            0 <= i < required_text_steps(
                table,
                required_text_columns(changes, n),
                schema,
                required_text_columns(changes, n).len() as int,
            ).len() ==> is_expansion_of(
                table,
                #[trigger] required_text_steps(
                    table,
                    required_text_columns(changes, n),
                    schema,
                    required_text_columns(changes, n).len() as int,
                )[i],
            ),
    decreases n,
{
    let columns = required_text_columns(changes, n);
    let steps = required_text_steps(table, columns, schema, columns.len() as int);
    if n > 0 {
        lemma_expansion_shape(table, changes, schema, n - 1);
        let before_columns = required_text_columns(changes, n - 1);
        let before_steps = required_text_steps(
            table,
            before_columns,
            schema,
            before_columns.len() as int,
        );
        if adds_required_text_column(changes[n - 1]) {
            let column = changes[n - 1]->AddColumn_column;
            lemma_required_text_steps_prefix(
                table,
                before_columns,
                column,
                schema,
                before_columns.len() as int,
            );
            let more = required_text_column_steps(table, column, schema);
            assert(steps == before_steps + more);
            assert forall|i: int| 0 <= i < steps.len() implies is_expansion_of(
                table,
                #[trigger] steps[i],
            ) by {
                if i < before_steps.len() {
                    assert(steps[i] == before_steps[i]);
                } else {
                    assert(steps[i] == more[i - before_steps.len()]);
                }
            }
        }
    }
}

/// On the table, the steps for the required text columns among the first
/// `n` changes come to adding those columns.
pub proof fn lemma_expansion_at(
    content: TableContent,
    table: TableView,
    changes: Seq<TableChangeView>,
    schema: Seq<char>,
    n: int,
)
    requires
        independent_changes(changes),
        0 <= n <= changes.len(),
    ensures
        steps_at(
            Some(content),
            required_text_steps(
                table,
                required_text_columns(changes, n),
                schema,
                required_text_columns(changes, n).len() as int,
            ),
            table.name,
        ) == Some(expanded(content, table, changes, n)),
    decreases n,
{
    let columns = required_text_columns(changes, n);
    let steps = required_text_steps(table, columns, schema, columns.len() as int);
    if n == 0 {
        assert(expanded_columns(content.columns, table, changes, n) =~= content.columns);
    } else {
        lemma_expansion_at(content, table, changes, schema, n - 1);
        let before_columns = required_text_columns(changes, n - 1);
        let before_steps = required_text_steps(
            table,
            before_columns,
            schema,
            before_columns.len() as int,
        );
        let before = expanded_columns(content.columns, table, changes, n - 1);
        let after = expanded_columns(content.columns, table, changes, n);
        assert forall|name: Seq<char>| #![auto]
            after.get(name) == if adds_required_text_column(changes[n - 1]) {
                before.insert(
                    changes[n - 1]->AddColumn_column.name,
                    added_entry(table, changes[n - 1]->AddColumn_column),
                ).get(name)
            } else {
                before.get(name)
            } by {
            lemma_targeting(changes, name);
        }
        if adds_required_text_column(changes[n - 1]) {
            let column = changes[n - 1]->AddColumn_column;
            lemma_required_text_steps_prefix(
                table,
                before_columns,
                column,
                schema,
                before_columns.len() as int,
            );
            let more = required_text_column_steps(table, column, schema);
            assert(steps == before_steps + more);
            lemma_steps_at_add(Some(content), before_steps, more, table.name);
            lemma_required_text_column_steps_at(
                expanded(content, table, changes, n - 1),
                table,
                column,
                schema,
            );
            lemma_same_columns(after, before.insert(column.name, added_entry(table, column)));
        } else {
            lemma_same_columns(after, before);
        }
    }
}

/// Of the changes that are left among the first `n`, only the one about a
/// column decides what becomes of the column.
pub proof fn lemma_other_changes_at(
    state: Option<ColumnEntry>,
    table: TableView,
    changes: Seq<TableChangeView>,
    name: Seq<char>,
    n: int,
)
    requires
        independent_changes(changes),
        0 <= n <= changes.len(),
    ensures
        changes_at(state, table, other_changes(changes, n), name) == match targeting(
            changes,
            name,
        ) {
            Some(j) => if j < n && !adds_required_text_column(changes[j]) {
                change_at(state, table, changes[j], name)
            } else {
                state
            },
            None => state,
        },
    decreases n,
{
    lemma_targeting(changes, name);
    if n > 0 {
        lemma_other_changes_at(state, table, changes, name, n - 1);
        assert(keeps_name(changes[n - 1]));
        if !adds_required_text_column(changes[n - 1]) {
            lemma_changes_at_push(
                state,
                table,
                other_changes(changes, n - 1),
                changes[n - 1],
                name,
            );
        }
    }
}

/// With one more change, the changes leave the columns where they stand
/// exactly where the changes before and the one more do.
pub proof fn lemma_only_appends_push(changes: Seq<TableChangeView>, change: TableChangeView)
    ensures
        only_appends(changes.push(change)) == (only_appends(changes) && appends(change)),
{
    let more = changes.push(change);
    if only_appends(more) {
        assert forall|i: int| 0 <= i < changes.len() implies appends(#[trigger] changes[i]) by {
            assert(more[i] == changes[i]);
        }
        assert(more[changes.len() as int] == change);
    }
    if only_appends(changes) && appends(change) {
        assert forall|i: int| 0 <= i < more.len() implies appends(#[trigger] more[i]) by {
            if i < changes.len() {
                assert(more[i] == changes[i]);
            }
        }
    }
}

/// The changes that are left once the required text columns are taken out
/// leave the columns where they stand exactly where all the changes do.
pub proof fn lemma_other_changes_append(changes: Seq<TableChangeView>, n: int)
    requires
        0 <= n <= changes.len(),
    ensures
        only_appends(other_changes(changes, n)) == only_appends(changes.take(n)),
    decreases n,
{
    if n > 0 {
        lemma_other_changes_append(changes, n - 1);
        assert(changes.take(n) =~= changes.take(n - 1).push(changes[n - 1]));
        lemma_only_appends_push(changes.take(n - 1), changes[n - 1]);
        if !adds_required_text_column(changes[n - 1]) {
            lemma_only_appends_push(other_changes(changes, n - 1), changes[n - 1]);
        }
    }
}

/// On a table, what stands in the place of an `AlterTable` with
/// independent changes does what the `AlterTable` does.
pub proof fn lemma_mysql_alter_at(
    state: Option<TableContent>,
    alter: AlterTableView,
    schema: Seq<char>,
    table: Seq<char>,
)
    requires
        independent_changes(alter.changes),
    ensures
        steps_at(state, fix_mysql_alter_table_spec(alter, schema), table) == step_at(
            state,
            StepView::AlterTable(alter),
            table,
        ),
        renames_no_table(fix_mysql_alter_table_spec(alter, schema)),
{
    let n = alter.changes.len() as int;
    let columns = required_text_columns(alter.changes, n);
    let others = other_changes(alter.changes, n);
    let expansion = required_text_steps(alter.table, columns, schema, columns.len() as int);
    let last = StepView::AlterTable(AlterTableView { table: alter.table, changes: others });
    let all = fix_mysql_alter_table_spec(alter, schema);
    lemma_expansion_shape(alter.table, alter.changes, schema, n);
    assert forall|i: int| 0 <= i < all.len() implies is_expansion_of(
        alter.table,
        #[trigger] all[i],
    ) by {
        if i < expansion.len() {
            assert(all[i] == expansion[i]);
        }
    }
    if table != alter.table.name {
        assert forall|i: int| 0 <= i < all.len() implies !touches(#[trigger] all[i], table) by {
            assert(is_expansion_of(alter.table, all[i]));
        }
        lemma_steps_at_untouched(state, all, table);
    } else {
        match state {
            Some(content) => {
                lemma_expansion_at(content, alter.table, alter.changes, schema, n);
                lemma_changes_are_split(alter.changes, n);
                lemma_other_changes_append(alter.changes, n);
                assert(alter.changes.take(n) =~= alter.changes);
                let expanded = expanded_columns(content.columns, alter.table, alter.changes, n);
                if others.len() > 0 {
                    lemma_steps_at_push(state, expansion, last, table);
                } else {
                    assert(apply_changes(expanded, alter.table, others) == expanded);
                }
                if n == 0 {
                    assert(expanded =~= content.columns);
                }
                let left = apply_changes(expanded, alter.table, others);
                let right = apply_changes(content.columns, alter.table, alter.changes);
                assert forall|name: Seq<char>| left.get(name) == right.get(name) by {
                    lemma_apply_changes_at(expanded, alter.table, others, name);
                    lemma_apply_changes_at(content.columns, alter.table, alter.changes, name);
                    lemma_other_changes_at(
                        expanded.get(name),
                        alter.table,
                        alter.changes,
                        name,
                        n,
                    );
                    lemma_changes_at_independent(
                        content.columns.get(name),
                        alter.table,
                        alter.changes,
                        name,
                    );
                    lemma_targeting(alter.changes, name);
                }
                lemma_same_columns(left, right);
            },
            None => {
                assert forall|i: int| 0 <= i < all.len() implies !(#[trigger] all[i] is CreateTable
                    && touches(all[i], table)) by {
                    assert(is_expansion_of(alter.table, all[i]));
                }
                lemma_steps_at_missing(all, table);
            },
        }
    }
    assert forall|i: int| 0 <= i < all.len() implies !(#[trigger] all[i] is RenameTable) by {
        assert(is_expansion_of(alter.table, all[i]));
    }
}

/// Every `AlterTable` among the steps has independent changes.
pub open spec fn alters_independently(steps: Seq<StepView>) -> bool {
    forall|i: int|
        0 <= i < steps.len() && (#[trigger] steps[i]) is AlterTable ==> independent_changes(
            steps[i]->AlterTable_0.changes,
        )
}

/// What MySQL gets for a step does what the step does, where the changes
/// of an `AlterTable` are independent.
pub proof fn lemma_mysql_step_same_effect(
    content: Map<Seq<char>, TableContent>,
    step: StepView,
    schema: Seq<char>,
)
    requires
        step is AlterTable ==> independent_changes(step->AlterTable_0.changes),
    ensures
        apply_steps(content, fix_mysql_step_spec(step, schema)) == apply_step(content, step),
{
    match step {
        StepView::AlterTable(alter) => {
            let expansion = fix_mysql_alter_table_spec(alter, schema);
            let left = apply_steps(content, expansion);
            let right = apply_step(content, step);
            assert forall|table: Seq<char>| left.get(table) == right.get(table) by {
                lemma_mysql_alter_at(content.get(table), alter, schema, table);
                lemma_apply_steps_at(content, expansion, table);
                lemma_apply_step_at(content, step, table);
            }
            lemma_same_content(left, right);
        },
        _ => {
            lemma_apply_one_step(content, step);
        },
    }
}

/// The steps corrected for MySQL do what the steps they are made from do,
/// where the changes of each `AlterTable` are independent.
pub proof fn lemma_fix_steps_mysql_same_effect(
    content: Map<Seq<char>, TableContent>,
    steps: Seq<StepView>,
    schema: Seq<char>,
    n: int,
)
    requires
        alters_independently(steps),
        0 <= n <= steps.len(),
    ensures
        apply_steps(content, fix_steps_mysql_spec(steps, schema, n)) == apply_steps(
            content,
            steps.take(n),
        ),
    decreases n,
{
    if n > 0 {
        lemma_fix_steps_mysql_same_effect(content, steps, schema, n - 1);
        let before = fix_steps_mysql_spec(steps, schema, n - 1);
        let more = fix_mysql_step_spec(steps[n - 1], schema);
        lemma_apply_steps_add(content, before, more);
        lemma_mysql_step_same_effect(apply_steps(content, before), steps[n - 1], schema);
        assert(steps.take(n).drop_last() =~= steps.take(n - 1));
    } else {
        assert(steps.take(0) =~= Seq::<StepView>::empty());
    }
}

/// The tables that a difference to a well-formed schema creates are well
/// formed.
pub proof fn lemma_created_tables_wf(from: SqlSchemaView, target: SqlSchemaView, n: int)
    requires
        target.wf(),
        0 <= n <= target.tables.len(),
    ensures
        forall|i: int|
            0 <= i < created_tables(from, target.tables, n).len() ==> (#[trigger] created_tables(
                from,
                target.tables,
                n,
            )[i]).wf(),
    decreases n,
{
    if n > 0 {
        lemma_created_tables_wf(from, target, n - 1);
        let rest = created_tables(from, target.tables, n - 1);
        let all = created_tables(from, target.tables, n);
        assert forall|i: int| 0 <= i < all.len() implies (#[trigger] all[i]).wf() by {
            if i < rest.len() {
                assert(all[i] == rest[i]);
            } else {
                assert(target.tables[n - 1].wf());
            }
        }
    }
}

/// The `AlterTable` steps that add the columns which had to wait do so by
/// independent changes.
pub proof fn lemma_delayed_alter_tables_independent(
    created: Seq<Seq<char>>,
    tables: Seq<TableView>,
    n: int,
)
    requires
        forall|i: int| 0 <= i < tables.len() ==> (#[trigger] tables[i]).wf(),
        0 <= n <= tables.len(),
    ensures
        forall|k: int|
            0 <= k < delayed_alter_tables(created, tables, n).len() ==> independent_changes(
                (#[trigger] delayed_alter_tables(created, tables, n)[k]).changes,
            ),
    decreases n,
{
    if n > 0 {
        lemma_delayed_alter_tables_independent(created, tables, n - 1);
        let rest = delayed_alter_tables(created, tables, n - 1);
        let all = delayed_alter_tables(created, tables, n);
        assert(tables[n - 1].wf());
        lemma_delayed_columns_independent(
            created,
            tables[n - 1],
            tables[n - 1].columns.len() as int,
        );
        assert forall|k: int| 0 <= k < all.len() implies independent_changes(
            (#[trigger] all[k]).changes,
        ) by {
            if k < rest.len() {
                assert(all[k] == rest[k]);
            }
        }
    }
}

/// The steps of a difference between well-formed schemas, foreign key
/// columns late, alter each table by independent changes.
pub proof fn lemma_delayed_steps_alter_independently(from: SqlSchemaView, to: SqlSchemaView)
    requires
        from.wf(),
        to.wf(),
    ensures
        alters_independently(delay_foreign_key_creation_spec(diff_spec(from, to))),
{
    let diff = diff_spec(from, to);
    let delayed = delayed_diff(diff);
    let target = sorted_schema(to);
    lemma_sorted_schema(to);
    let pred = |s: StepView| s is AlterTable ==> independent_changes(s->AlterTable_0.changes);
    lemma_created_tables_wf(from, target, target.tables.len() as int);
    lemma_delayed_alter_tables_independent(
        table_names(diff.create_tables),
        diff.create_tables,
        diff.create_tables.len() as int,
    );
    assert forall|i: int| 0 <= i < delayed.alter_tables.len() implies pred(
        StepView::AlterTable(#[trigger] delayed.alter_tables[i]),
    ) by {
        let alter = delayed.alter_tables[i];
        if i < diff.alter_tables.len() {
            assert(alter == diff.alter_tables[i]);
            lemma_altered_tables_shape(from, target.tables, target.tables.len() as int, i);
            lemma_table_position(from, alter.table.name);
            let at = choose|at: int| 0 <= at < target.tables.len() && target.tables[at] == alter.table;
            assert(target.tables[at].wf());
            lemma_column_changes_independent(from.table(alter.table.name)->Some_0, alter.table);
        } else {
            assert(alter == delayed_alter_tables(
                table_names(diff.create_tables),
                diff.create_tables,
                diff.create_tables.len() as int,
            )[i - diff.alter_tables.len()]);
        }
    }
    lemma_into_steps_all(delayed, pred);
    let steps = delayed.into_steps();
    assert forall|i: int| 0 <= i < steps.len() && (#[trigger] steps[i]) is AlterTable implies independent_changes(
        steps[i]->AlterTable_0.changes,
    ) by {
        assert(pred(steps[i]));
    }
}

/// On MySQL the corrected steps lead from the content of the current
/// schema to the tables of the target, each made anew or changed in place,
/// as on PostgreSQL.
pub proof fn lemma_mysql_steps_lead_to_target(
    from: SqlSchemaView,
    to: SqlSchemaView,
    schema: Seq<char>,
)
    requires
        from.wf(),
        to.wf(),
    ensures
        corrected_steps_spec(from, to, schema, SqlFamily::Mysql) is Ok,
        apply_steps(
            content_of(from),
            corrected_steps_spec(from, to, schema, SqlFamily::Mysql)->Ok_0,
        ) == relational_content(from, to),
{
    lemma_postgres_steps_lead_to_target(from, to, schema);
    lemma_postgres_steps(from, to, schema);
    let delayed = delay_foreign_key_creation_spec(diff_spec(from, to));
    let fixed = corrected_steps_spec(from, to, schema, SqlFamily::Postgres)->Ok_0;
    if has_id_type_change(from, delayed, delayed.len() as int) {
        lemma_empty_schema_content();
        lemma_delayed_steps_alter_independently(SqlSchemaView::empty(), to);
        let rest = delay_foreign_key_creation_spec(diff_spec(SqlSchemaView::empty(), to));
        assert forall|i: int| 0 <= i < fixed.len() && (#[trigger] fixed[i]) is AlterTable implies independent_changes(
            fixed[i]->AlterTable_0.changes,
        ) by {
            if i > 0 {
                assert(fixed[i] == rest[i - 1]);
            }
        }
    } else {
        lemma_delayed_steps_alter_independently(from, to);
    }
    lemma_fix_steps_mysql_same_effect(content_of(from), fixed, schema, fixed.len() as int);
    assert(fixed.take(fixed.len() as int) =~= fixed);
}

} // verus!
