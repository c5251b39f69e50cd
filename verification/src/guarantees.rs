//! What holds of every difference and of every corrected list of steps.

use crate::replay::plain::{lemma_nothing_waits, waits};
use crate::replay::sqlite::{lemma_created_tables_names, lemma_dropped_tables_names};
use crate::replay::tables::{
    lemma_table_created_indexes_table, lemma_table_dropped_indexes_table,
    lemma_table_renamed_indexes_table,
};
use crate::schema::{ColumnView, IndexView, SqlErrorView, SqlSchemaView, TableView};
use crate::search::{is_first_where, lemma_first_where, lemma_first_where_found};
use crate::sql_database_migration_inferrer::{
    add_nullable_step, changes_id_type, corrected_steps_spec, delay_foreign_key_creation_spec,
    delayed_alter_tables, delayed_columns, delayed_diff, fix_id_column_type_change_spec,
    fix_mysql_alter_table_spec, fix_mysql_step_spec, fix_spec, fix_steps_mysql_spec,
    fix_stupid_sqlite_spec, index_steps, infer_spec, is_delayed, is_relation_table, kept_columns,
    make_required_step, pruned_table, radical_steps, rebuild_head, rebuild_tail,
    required_text_column_steps, required_text_columns, required_text_steps, scan_changes, scan_step,
    scan_steps, sqlite_fix_table_spec, sqlite_walk, table_names, table_to_rebuild,
};
use crate::sql_database_step_applier::{is_renderable, render_raw_sql_spec};
use crate::sql_migration::{
    AlterIndexView, AlterTableView, CreateIndexView, DropIndexView, StepView, TableChangeView,
};
use crate::sql_renderer::{quote_mark, quote_spec, quote_with_schema_spec, SqlFamily};
use crate::sql_schema_differ::{
    added_columns, altered_columns, altered_tables, column_changes, counterpart, created_indexes,
    created_tables, diff_spec, dropped_columns, dropped_indexes, dropped_tables,
    first_unmatched_like, index_named, indexes_of, insert_by_name, is_unmatched, renamed_indexes,
    sort_by_name, table_created_indexes, table_dropped_indexes, table_renamed_indexes,
    SqlSchemaDiffView,
};
use crate::text::{lemma_bytes_le_total, lemma_bytes_le_transitive, name_le};
use vstd::prelude::*;
use vstd::seq_lib::to_multiset_build;
use vstd::utf8::encode_utf8;

verus! {

// ---------------------------------------------------------------------------
// The order of tables
// ---------------------------------------------------------------------------

/// The names of the tables never go down from one table to the next.
pub open spec fn is_sorted_by_name(tables: Seq<TableView>) -> bool {
    forall|i: int, j: int|
        0 <= i < j < tables.len() ==> name_le((#[trigger] tables[i]).name, (#[trigger] tables[j]).name)
}

proof fn lemma_insert_by_name_permutes(sorted: Seq<TableView>, table: TableView)
    ensures
        insert_by_name(sorted, table).to_multiset() == sorted.to_multiset().insert(table),
        insert_by_name(sorted, table).len() == sorted.len() + 1,
    decreases sorted.len(),
{
    if sorted.len() == 0 {
        assert(seq![table] =~= sorted.push(table));
        to_multiset_build(sorted, table);
    } else if name_le(sorted.last().name, table.name) {
        to_multiset_build(sorted, table);
    } else {
        let rest = sorted.drop_last();
        lemma_insert_by_name_permutes(rest, table);
        to_multiset_build(insert_by_name(rest, table), sorted.last());
        to_multiset_build(rest, sorted.last());
        assert(rest.push(sorted.last()) =~= sorted);
        assert(rest.to_multiset().insert(table).insert(sorted.last()) =~= rest.to_multiset().insert(
            sorted.last(),
        ).insert(table));
    }
}

/// Sorting by name rearranges the tables: each table occurs as often as before.
pub proof fn lemma_sort_by_name_permutes(tables: Seq<TableView>)
    ensures
        sort_by_name(tables).to_multiset() == tables.to_multiset(),
        sort_by_name(tables).len() == tables.len(),
    decreases tables.len(),
{
    if tables.len() > 0 {
        let rest = tables.drop_last();
        lemma_sort_by_name_permutes(rest);
        lemma_insert_by_name_permutes(sort_by_name(rest), tables.last());
        to_multiset_build(rest, tables.last());
        assert(rest.push(tables.last()) =~= tables);
    } else {
        assert(sort_by_name(tables) =~= tables);
    }
}

/// A table is among the sorted tables exactly if it is among the tables.
pub proof fn lemma_sort_by_name_keeps_tables(tables: Seq<TableView>)
    ensures
        forall|t: TableView| sort_by_name(tables).contains(t) <==> tables.contains(t),
{
    lemma_sort_by_name_permutes(tables);
    tables.to_multiset_ensures();
    sort_by_name(tables).to_multiset_ensures();
    assert forall|t: TableView| sort_by_name(tables).contains(t) <==> tables.contains(t) by {
        assert(sort_by_name(tables).contains(t) <==> sort_by_name(tables).to_multiset().count(t)
            > 0);
        assert(tables.contains(t) <==> tables.to_multiset().count(t) > 0);
    }
}

proof fn lemma_insert_by_name_sorted(sorted: Seq<TableView>, table: TableView)
    requires
        is_sorted_by_name(sorted),
    ensures
        is_sorted_by_name(insert_by_name(sorted, table)),
    decreases sorted.len(),
{
    let result = insert_by_name(sorted, table);
    if sorted.len() == 0 {
    } else if name_le(sorted.last().name, table.name) {
        assert forall|i: int, j: int| 0 <= i < j < result.len() implies name_le(
            (#[trigger] result[i]).name,
            (#[trigger] result[j]).name,
        ) by {
            if j == sorted.len() {
                if i < sorted.len() - 1 {
                    assert(name_le(sorted[i].name, sorted[sorted.len() - 1].name));
                    lemma_bytes_le_transitive(
                        encode_utf8(sorted[i].name),
                        encode_utf8(sorted.last().name),
                        encode_utf8(table.name),
                    );
                }
            } else {
                assert(name_le(sorted[i].name, sorted[j].name));
            }
        }
    } else {
        let rest = sorted.drop_last();
        let inner = insert_by_name(rest, table);
        assert(is_sorted_by_name(rest)) by {
            assert forall|i: int, j: int| 0 <= i < j < rest.len() implies name_le(
                (#[trigger] rest[i]).name,
                (#[trigger] rest[j]).name,
            ) by {
                assert(name_le(sorted[i].name, sorted[j].name));
            }
        }
        lemma_insert_by_name_sorted(rest, table);
        lemma_insert_by_name_permutes(rest, table);
        inner.to_multiset_ensures();
        rest.to_multiset_ensures();
        lemma_bytes_le_total(encode_utf8(sorted.last().name), encode_utf8(table.name));
        assert forall|i: int, j: int| 0 <= i < j < result.len() implies name_le(
            (#[trigger] result[i]).name,
            (#[trigger] result[j]).name,
        ) by {
            if j == inner.len() {
                let x = inner[i];
                assert(inner.contains(x));
                assert(inner.to_multiset().count(x) > 0);
                if x != table {
                    assert(rest.to_multiset().count(x) > 0);
                    assert(rest.contains(x));
                    let k = choose|k: int| 0 <= k < rest.len() && rest[k] == x;
                    assert(name_le(sorted[k].name, sorted[sorted.len() - 1].name));
                }
            } else {
                assert(name_le(inner[i].name, inner[j].name));
            }
        }
    }
}

/// The sorted tables are in the order of their names.
pub proof fn lemma_sort_by_name_sorted(tables: Seq<TableView>)
    ensures
        is_sorted_by_name(sort_by_name(tables)),
    decreases tables.len(),
{
    if tables.len() > 0 {
        lemma_sort_by_name_sorted(tables.drop_last());
        lemma_insert_by_name_sorted(sort_by_name(tables.drop_last()), tables.last());
    }
}

// ---------------------------------------------------------------------------
// A schema does not differ from itself
// ---------------------------------------------------------------------------

proof fn lemma_table_found_by_own_name(schema: SqlSchemaView, i: int)
    requires
        schema.wf(),
        0 <= i < schema.tables.len(),
    ensures
        schema.table_index(schema.tables[i].name) == Some(i),
        schema.table(schema.tables[i].name) == Some(schema.tables[i]),
        schema.has_table(schema.tables[i].name),
{
    let name = schema.tables[i].name;
    let p = |t: TableView| t.name == name;
    assert(is_first_where(schema.tables, p, i)) by {
        assert forall|j: int| 0 <= j < i implies !p(#[trigger] schema.tables[j]) by {
            assert(schema.tables[j].name != schema.tables[i].name);
        }
    }
    lemma_first_where_found(schema.tables, p, i);
}

proof fn lemma_column_found_by_own_name(table: TableView, k: int)
    requires
        table.wf(),
        0 <= k < table.columns.len(),
    ensures
        table.column_index(table.columns[k].name) == Some(k),
        table.column(table.columns[k].name) == Some(table.columns[k]),
        table.has_column(table.columns[k].name),
{
    let name = table.columns[k].name;
    let p = |c: ColumnView| c.name == name;
    assert(is_first_where(table.columns, p, k)) by {
        assert forall|j: int| 0 <= j < k implies !p(#[trigger] table.columns[j]) by {
            assert(table.columns[j].name != table.columns[k].name);
        }
    }
    lemma_first_where_found(table.columns, p, k);
}

proof fn lemma_index_found_by_own_name(table: TableView, k: int)
    requires
        table.wf(),
        0 <= k < table.indices.len(),
    ensures
        index_named(table.indices, table.indices[k].name) == Some(k),
{
    let name = table.indices[k].name;
    let p = |x: IndexView| x.name == name;
    assert(is_first_where(table.indices, p, k)) by {
        assert forall|j: int| 0 <= j < k implies !p(#[trigger] table.indices[j]) by {
            assert(table.indices[j].name != table.indices[k].name);
        }
    }
    lemma_first_where_found(table.indices, p, k);
}

proof fn lemma_same_columns_no_changes(table: TableView, n: int)
    requires
        table.wf(),
        0 <= n <= table.columns.len(),
    ensures
        dropped_columns(table, table, n).len() == 0,
        added_columns(table, table, n).len() == 0,
        altered_columns(table, table, n).len() == 0,
    decreases n,
{
    if n > 0 {
        lemma_same_columns_no_changes(table, n - 1);
        lemma_column_found_by_own_name(table, n - 1);
    }
}

/// A well-formed table needs no change of columns to become itself.
pub proof fn lemma_same_table_no_column_changes(table: TableView)
    requires
        table.wf(),
    ensures
        column_changes(table, table).len() == 0,
{
    lemma_same_columns_no_changes(table, table.columns.len() as int);
}

proof fn lemma_same_indexes_all_matched(table: TableView, i: int)
    requires
        table.wf(),
        0 <= i < table.indices.len(),
    ensures
        !is_unmatched(table.indices, table.indices, i),
        counterpart(table.indices, table.indices, i) is None,
{
    let indices = table.indices;
    lemma_index_found_by_own_name(table, i);
    let like = indices[i];
    let p = |x: IndexView| index_named(indices, x.name) is None && x.same_definition(like);
    assert forall|j: int| 0 <= j < indices.len() implies !p(#[trigger] indices[j]) by {
        lemma_index_found_by_own_name(table, j);
    }
    crate::search::lemma_first_where_none(indices, p);
    assert(first_unmatched_like(indices, indices, like) is None);
}

proof fn lemma_same_indexes_no_changes(table: TableView, n: int)
    requires
        table.wf(),
        0 <= n <= table.indices.len(),
    ensures
        table_dropped_indexes(table.name, table.indices, table.indices, n).len() == 0,
        table_renamed_indexes(table.name, table.indices, table.indices, n).len() == 0,
        table_created_indexes(table, table.indices, n).len() == 0,
    decreases n,
{
    if n > 0 {
        lemma_same_indexes_no_changes(table, n - 1);
        lemma_same_indexes_all_matched(table, n - 1);
    }
}

proof fn lemma_same_schema_no_changes(schema: SqlSchemaView, sorted: Seq<TableView>, n: int)
    requires
        schema.wf(),
        0 <= n <= sorted.len(),
        forall|k: int| 0 <= k < sorted.len() ==> schema.tables.contains(#[trigger] sorted[k]),
    ensures
        created_tables(schema, sorted, n).len() == 0,
        dropped_tables(sorted, schema, n).len() == 0,
        altered_tables(schema, sorted, n).len() == 0,
        created_indexes(schema, sorted, n).len() == 0,
        dropped_indexes(sorted, schema, n).len() == 0,
        renamed_indexes(sorted, schema, n).len() == 0,
    decreases n,
{
    if n > 0 {
        lemma_same_schema_no_changes(schema, sorted, n - 1);
        let table = sorted[n - 1];
        assert(schema.tables.contains(table));
        let i = choose|i: int| 0 <= i < schema.tables.len() && schema.tables[i] == table;
        lemma_table_found_by_own_name(schema, i);
        assert(table.wf());
        lemma_same_table_no_column_changes(table);
        assert(indexes_of(schema, table.name) == table.indices);
        lemma_same_indexes_no_changes(table, table.indices.len() as int);
    }
}

/// The difference between a well-formed schema and itself is empty.
pub proof fn lemma_diff_of_same_schema_is_empty(schema: SqlSchemaView)
    requires
        schema.wf(),
    ensures
        diff_spec(schema, schema).is_empty(),
        diff_spec(schema, schema).into_steps().len() == 0,
{
    let sorted = sort_by_name(schema.tables);
    lemma_sort_by_name_keeps_tables(schema.tables);
    assert forall|k: int| 0 <= k < sorted.len() implies schema.tables.contains(
        #[trigger] sorted[k],
    ) by {
        assert(sorted.contains(sorted[k]));
    }
    lemma_same_schema_no_changes(schema, sorted, sorted.len() as int);
}

// ---------------------------------------------------------------------------
// Steps that all have a property
// ---------------------------------------------------------------------------

/// Every one of the steps satisfies `pred`.
pub open spec fn all_steps(steps: Seq<StepView>, pred: spec_fn(StepView) -> bool) -> bool {
    forall|i: int| 0 <= i < steps.len() ==> pred(#[trigger] steps[i])
}

proof fn lemma_all_steps_add(a: Seq<StepView>, b: Seq<StepView>, pred: spec_fn(StepView) -> bool)
    ensures
        all_steps(a + b, pred) <==> all_steps(a, pred) && all_steps(b, pred),
{
    if all_steps(a + b, pred) {
        assert forall|i: int| 0 <= i < a.len() implies pred(#[trigger] a[i]) by {
            assert((a + b)[i] == a[i]);
        }
        assert forall|i: int| 0 <= i < b.len() implies pred(#[trigger] b[i]) by {
            assert((a + b)[a.len() + i] == b[i]);
        }
    }
    if all_steps(a, pred) && all_steps(b, pred) {
        assert forall|i: int| 0 <= i < (a + b).len() implies pred(#[trigger] (a + b)[i]) by {
            if i < a.len() {
                assert((a + b)[i] == a[i]);
            } else {
                assert((a + b)[i] == b[i - a.len()]);
            }
        }
    }
}

/// The steps of a difference satisfy `pred` where `pred` holds of the step
/// that each entry of the difference turns into.
pub proof fn lemma_into_steps_all(diff: SqlSchemaDiffView, pred: spec_fn(StepView) -> bool)
    requires
        forall|i: int|
            0 <= i < diff.drop_indexes.len() ==> pred(
                StepView::DropIndex(#[trigger] diff.drop_indexes[i]),
            ),
        forall|i: int|
            0 <= i < diff.drop_tables.len() ==> pred(
                StepView::DropTable(#[trigger] diff.drop_tables[i]),
            ),
        forall|i: int|
            0 <= i < diff.create_tables.len() ==> pred(
                StepView::CreateTable(#[trigger] diff.create_tables[i]),
            ),
        forall|i: int|
            0 <= i < diff.alter_tables.len() ==> pred(
                StepView::AlterTable(#[trigger] diff.alter_tables[i]),
            ),
        forall|i: int|
            0 <= i < diff.create_indexes.len() ==> pred(
                StepView::CreateIndex(#[trigger] diff.create_indexes[i]),
            ),
        forall|i: int|
            0 <= i < diff.alter_indexes.len() ==> pred(
                StepView::AlterIndex(#[trigger] diff.alter_indexes[i]),
            ),
    ensures
        all_steps(diff.into_steps(), pred),
{
    let a = diff.drop_indexes.map_values(|x: DropIndexView| StepView::DropIndex(x));
    let b = diff.drop_tables.map_values(|x: Seq<char>| StepView::DropTable(x));
    let c = diff.create_tables.map_values(|x: TableView| StepView::CreateTable(x));
    let d = diff.alter_tables.map_values(|x: AlterTableView| StepView::AlterTable(x));
    let e = diff.create_indexes.map_values(|x: CreateIndexView| StepView::CreateIndex(x));
    let f = diff.alter_indexes.map_values(|x: AlterIndexView| StepView::AlterIndex(x));
    assert(all_steps(a, pred)) by {
        assert forall|i: int| 0 <= i < a.len() implies pred(#[trigger] a[i]) by {
            assert(a[i] == StepView::DropIndex(diff.drop_indexes[i]));
        }
    }
    assert(all_steps(b, pred)) by {
        assert forall|i: int| 0 <= i < b.len() implies pred(#[trigger] b[i]) by {
            assert(b[i] == StepView::DropTable(diff.drop_tables[i]));
        }
    }
    assert(all_steps(c, pred)) by {
        assert forall|i: int| 0 <= i < c.len() implies pred(#[trigger] c[i]) by {
            assert(c[i] == StepView::CreateTable(diff.create_tables[i]));
        }
    }
    assert(all_steps(d, pred)) by {
        assert forall|i: int| 0 <= i < d.len() implies pred(#[trigger] d[i]) by {
            assert(d[i] == StepView::AlterTable(diff.alter_tables[i]));
        }
    }
    assert(all_steps(e, pred)) by {
        assert forall|i: int| 0 <= i < e.len() implies pred(#[trigger] e[i]) by {
            assert(e[i] == StepView::CreateIndex(diff.create_indexes[i]));
        }
    }
    assert(all_steps(f, pred)) by {
        assert forall|i: int| 0 <= i < f.len() implies pred(#[trigger] f[i]) by {
            assert(f[i] == StepView::AlterIndex(diff.alter_indexes[i]));
        }
    }
    lemma_all_steps_add(a, b, pred);
    lemma_all_steps_add(a + b, c, pred);
    lemma_all_steps_add(a + b + c, d, pred);
    lemma_all_steps_add(a + b + c + d, e, pred);
    lemma_all_steps_add(a + b + c + d + e, f, pred);
}

// ---------------------------------------------------------------------------
// SQLite: what a walk puts out
// ---------------------------------------------------------------------------

/// A step that a rebuild may consist of.
pub open spec fn is_rebuild_step(step: StepView) -> bool {
    step is RawSql || step is CreateTable || step is DropTable || step is RenameTable
        || step is CreateIndex
}

proof fn lemma_index_steps_shape(table: TableView, n: int)
    ensures
        all_steps(index_steps(table, n), |s: StepView| s is CreateIndex),
    decreases n,
{
    if n > 0 {
        lemma_index_steps_shape(table, n - 1);
    }
}

/// A rebuild alters no table and renames no index.
pub proof fn lemma_rebuild_shape(current: TableView, next: TableView, schema: Seq<char>)
    ensures
        all_steps(fix_spec(current, next, schema), |s: StepView| is_rebuild_step(s)),
{
    let pred = |s: StepView| is_rebuild_step(s);
    let head = rebuild_head(current, next);
    let indexes = index_steps(next, next.indices.len() as int);
    let tail = rebuild_tail(schema);
    lemma_index_steps_shape(next, next.indices.len() as int);
    assert(all_steps(indexes, pred)) by {
        assert forall|i: int| 0 <= i < indexes.len() implies pred(#[trigger] indexes[i]) by {
            assert((|s: StepView| s is CreateIndex)(indexes[i]));
        }
    }
    assert(all_steps(head, pred));
    assert(all_steps(tail, pred));
    lemma_all_steps_add(head, indexes, pred);
    lemma_all_steps_add(head + indexes, tail, pred);
}

/// What a walk over the first `n` steps puts out satisfies `pred`, where
/// `pred` holds of every rebuild step and of every step that is handed on.
proof fn lemma_sqlite_walk_all(
    steps: Seq<StepView>,
    current: SqlSchemaView,
    next: SqlSchemaView,
    schema: Seq<char>,
    n: int,
    pred: spec_fn(StepView) -> bool,
)
    requires
        0 <= n <= steps.len(),
        forall|s: StepView| is_rebuild_step(s) ==> #[trigger] pred(s),
        forall|i: int|
            0 <= i < n && table_to_rebuild(steps[i]) is None ==> pred(#[trigger] steps[i]),
    ensures
        match sqlite_walk(steps, current, next, schema, n) {
            Ok(walk) => all_steps(walk.steps, pred),
            Err(_) => true,
        },
    decreases n,
{
    if n > 0 {
        lemma_sqlite_walk_all(steps, current, next, schema, n - 1, pred);
        match sqlite_walk(steps, current, next, schema, n - 1) {
            Ok(walk) => {
                match table_to_rebuild(steps[n - 1]) {
                    Some(table) => {
                        match sqlite_fix_table_spec(current, next, table, schema) {
                            Ok(rebuild) => {
                                lemma_rebuild_shape(
                                    current.table(table).unwrap(),
                                    next.table(table).unwrap(),
                                    schema,
                                );
                                assert(all_steps(rebuild, pred)) by {
                                    assert forall|i: int| 0 <= i < rebuild.len() implies pred(
                                        #[trigger] rebuild[i],
                                    ) by {
                                        assert((|s: StepView| is_rebuild_step(s))(rebuild[i]));
                                    }
                                }
                                lemma_all_steps_add(walk.steps, rebuild, pred);
                            },
                            Err(_) => {},
                        }
                    },
                    None => {
                        lemma_all_steps_add(walk.steps, seq![steps[n - 1]], pred);
                        assert(walk.steps.push(steps[n - 1]) =~= walk.steps + seq![steps[n - 1]]);
                    },
                }
            },
            Err(_) => {},
        }
    }
}

/// Whatever the difference, the steps corrected for SQLite rename no index.
pub proof fn lemma_sqlite_steps_rename_no_index(
    diff: SqlSchemaDiffView,
    current: SqlSchemaView,
    next: SqlSchemaView,
    schema: Seq<char>,
)
    ensures
        match fix_stupid_sqlite_spec(diff, current, next, schema) {
            Ok(steps) => forall|i: int| 0 <= i < steps.len() ==> !(#[trigger] steps[i] is AlterIndex),
            Err(_) => true,
        },
{
    let pred = |s: StepView| !(s is AlterIndex);
    let steps = diff.into_steps();
    lemma_sqlite_walk_all(steps, current, next, schema, steps.len() as int, pred);
    match fix_stupid_sqlite_spec(diff, current, next, schema) {
        Ok(fixed) => {
            assert forall|i: int| 0 <= i < fixed.len() implies !(#[trigger] fixed[i] is AlterIndex) by {
                assert(pred(fixed[i]));
            }
        },
        Err(_) => {},
    }
}

// ---------------------------------------------------------------------------
// What a difference holds
// ---------------------------------------------------------------------------

/// A schema has a table under the name of each of its tables.
pub proof fn lemma_has_own_table(schema: SqlSchemaView, table: TableView)
    requires
        schema.tables.contains(table),
    ensures
        schema.has_table(table.name),
{
    let p = |t: TableView| t.name == table.name;
    let i = choose|i: int| 0 <= i < schema.tables.len() && schema.tables[i] == table;
    assert(p(schema.tables[i]));
    lemma_first_where(schema.tables, p);
}

/// `alter` is what the difference holds for one of the tables of `sorted`:
/// the table is altered into, and the changes are those that lead from the
/// table that `from` has under the same name to that table. There is at
/// least one change.
pub open spec fn is_alteration(from: SqlSchemaView, sorted: Seq<TableView>, alter: AlterTableView) -> bool {
    &&& sorted.contains(alter.table)
    &&& from.table(alter.table.name) is Some
    &&& alter.changes == column_changes(from.table(alter.table.name).unwrap(), alter.table)
    &&& alter.changes.len() > 0
}

/// Each `AlterTable` of a difference alters one of the sorted tables, by the
/// changes from the table that `from` has under its name, of which there is at
/// least one.
pub proof fn lemma_altered_tables_shape(from: SqlSchemaView, sorted: Seq<TableView>, n: int, k: int)
    requires
        0 <= n <= sorted.len(),
        0 <= k < altered_tables(from, sorted, n).len(),
    ensures
        is_alteration(from, sorted, altered_tables(from, sorted, n)[k]),
    decreases n,
{
    if n > 0 {
        let rest = altered_tables(from, sorted, n - 1);
        if k < rest.len() {
            lemma_altered_tables_shape(from, sorted, n - 1, k);
        } else {
            assert(sorted.contains(sorted[n - 1]));
        }
    }
}

proof fn lemma_dropped_columns_shape(current: TableView, next: TableView, n: int, k: int)
    requires
        0 <= k < dropped_columns(current, next, n).len(),
    ensures
        dropped_columns(current, next, n)[k] is DropColumn,
    decreases n,
{
    if n > 0 && k < dropped_columns(current, next, n - 1).len() {
        lemma_dropped_columns_shape(current, next, n - 1, k);
    }
}

proof fn lemma_added_columns_shape(current: TableView, next: TableView, n: int, k: int)
    requires
        0 <= k < added_columns(current, next, n).len(),
    ensures
        added_columns(current, next, n)[k] is AddColumn,
    decreases n,
{
    if n > 0 && k < added_columns(current, next, n - 1).len() {
        lemma_added_columns_shape(current, next, n - 1, k);
    }
}

proof fn lemma_altered_columns_shape(current: TableView, next: TableView, n: int, k: int)
    requires
        0 <= k < altered_columns(current, next, n).len(),
    ensures
        altered_columns(current, next, n)[k] is AlterColumn,
        current.column(altered_columns(current, next, n)[k]->AlterColumn_name) is Some,
    decreases n,
{
    if n > 0 && k < altered_columns(current, next, n - 1).len() {
        lemma_altered_columns_shape(current, next, n - 1, k);
    }
}

/// Every column that the changes between two tables alter is a column of
/// the first table.
pub proof fn lemma_column_changes_alter_known_columns(current: TableView, next: TableView, k: int)
    requires
        0 <= k < column_changes(current, next).len(),
    ensures
        changes_id_type(current, column_changes(current, next)[k]) is Ok,
{
    let dropped = dropped_columns(current, next, current.columns.len() as int);
    let added = added_columns(current, next, next.columns.len() as int);
    let altered = altered_columns(current, next, next.columns.len() as int);
    if k < dropped.len() {
        lemma_dropped_columns_shape(current, next, current.columns.len() as int, k);
    } else if k < dropped.len() + added.len() {
        lemma_added_columns_shape(current, next, next.columns.len() as int, k - dropped.len());
    } else {
        lemma_altered_columns_shape(
            current,
            next,
            next.columns.len() as int,
            k - dropped.len() - added.len(),
        );
    }
}

proof fn lemma_scan_changes_succeeds(current: TableView, changes: Seq<TableChangeView>, n: int)
    requires
        0 <= n <= changes.len(),
        forall|k: int| 0 <= k < changes.len() ==> changes_id_type(current, #[trigger] changes[k]) is Ok,
    ensures
        scan_changes(current, changes, n) is Ok,
    decreases n,
{
    if n > 0 {
        lemma_scan_changes_succeeds(current, changes, n - 1);
    }
}

proof fn lemma_delayed_columns_shape(created: Seq<Seq<char>>, table: TableView, n: int, k: int)
    requires
        0 <= k < delayed_columns(created, table, n).len(),
    ensures
        delayed_columns(created, table, n)[k] is AddColumn,
    decreases n,
{
    if n > 0 && k < delayed_columns(created, table, n - 1).len() {
        lemma_delayed_columns_shape(created, table, n - 1, k);
    }
}

proof fn lemma_delayed_alter_tables_shape(
    created: Seq<Seq<char>>,
    tables: Seq<TableView>,
    n: int,
    k: int,
)
    requires
        0 <= k < delayed_alter_tables(created, tables, n).len(),
    ensures
        delayed_alter_tables(created, tables, n)[k].changes.len() > 0,
        forall|j: int|
            0 <= j < delayed_alter_tables(created, tables, n)[k].changes.len()
                ==> #[trigger] delayed_alter_tables(created, tables, n)[k].changes[j] is AddColumn,
    decreases n,
{
    if n > 0 {
        if k < delayed_alter_tables(created, tables, n - 1).len() {
            lemma_delayed_alter_tables_shape(created, tables, n - 1, k);
        } else {
            let table = tables[n - 1];
            let changes = delayed_columns(created, table, table.columns.len() as int);
            assert forall|j: int| 0 <= j < changes.len() implies #[trigger] changes[j] is AddColumn by {
                lemma_delayed_columns_shape(created, table, table.columns.len() as int, j);
            }
        }
    }
}

proof fn lemma_table_renamed_indexes_shape(
    table: Seq<char>,
    previous: Seq<IndexView>,
    next: Seq<IndexView>,
    n: int,
    k: int,
)
    requires
        0 <= k < table_renamed_indexes(table, previous, next, n).len(),
    ensures
        table_renamed_indexes(table, previous, next, n)[k].table == table,
        next.len() > 0,
    decreases n,
{
    if n > 0 {
        if k < table_renamed_indexes(table, previous, next, n - 1).len() {
            lemma_table_renamed_indexes_shape(table, previous, next, n - 1, k);
        } else {
            let like = previous[n - 1];
            lemma_first_where(
                next,
                |x: IndexView| index_named(previous, x.name) is None && x.same_definition(like),
            );
        }
    }
}

/// Each renaming of an index concerns a table that both schemas have.
pub proof fn lemma_renamed_indexes_shape(from_sorted: Seq<TableView>, to: SqlSchemaView, n: int, k: int)
    requires
        0 <= n <= from_sorted.len(),
        0 <= k < renamed_indexes(from_sorted, to, n).len(),
    ensures
        exists|m: int|
            0 <= m < from_sorted.len() && (#[trigger] from_sorted[m]).name == renamed_indexes(
                from_sorted,
                to,
                n,
            )[k].table,
        to.has_table(renamed_indexes(from_sorted, to, n)[k].table),
    decreases n,
{
    if n > 0 {
        let rest = renamed_indexes(from_sorted, to, n - 1);
        if k < rest.len() {
            lemma_renamed_indexes_shape(from_sorted, to, n - 1, k);
        } else {
            let table = from_sorted[n - 1];
            lemma_table_renamed_indexes_shape(
                table.name,
                table.indices,
                indexes_of(to, table.name),
                table.indices.len() as int,
                k - rest.len(),
            );
        }
    }
}

/// The names never go down from one to the next.
pub open spec fn names_in_order(names: Seq<Seq<char>>) -> bool {
    forall|i: int, j: int|
        0 <= i < j < names.len() ==> name_le(#[trigger] names[i], #[trigger] names[j])
}

/// Each of the names is the name of one of the first `n` tables.
pub open spec fn names_among(names: Seq<Seq<char>>, tables: Seq<TableView>, n: int) -> bool {
    forall|k: int|
        0 <= k < names.len() ==> exists|j: int|
            0 <= j < n && #[trigger] names[k] == (#[trigger] tables[j]).name
}

/// Names in order stay in order when names of the next table follow.
proof fn lemma_names_in_order_add(
    before: Seq<Seq<char>>,
    part: Seq<Seq<char>>,
    sorted: Seq<TableView>,
    n: int,
)
    requires
        is_sorted_by_name(sorted),
        0 < n <= sorted.len(),
        names_in_order(before),
        names_among(before, sorted, n - 1),
        forall|k: int| 0 <= k < part.len() ==> #[trigger] part[k] == sorted[n - 1].name,
    ensures
        names_in_order(before + part),
        names_among(before + part, sorted, n),
{
    let all = before + part;
    let last = sorted[n - 1].name;
    lemma_bytes_le_total(encode_utf8(last), encode_utf8(last));
    assert forall|k: int| 0 <= k < all.len() implies exists|j: int|
        0 <= j < n && #[trigger] all[k] == (#[trigger] sorted[j]).name by {
        if k < before.len() {
            assert(all[k] == before[k]);
            let j = choose|j: int| 0 <= j < n - 1 && before[k] == (#[trigger] sorted[j]).name;
            assert(0 <= j < n && all[k] == sorted[j].name);
        } else {
            assert(all[k] == part[k - before.len()]);
            assert(all[k] == sorted[n - 1].name);
        }
    }
    assert forall|i: int, j: int| 0 <= i < j < all.len() implies name_le(
        #[trigger] all[i],
        #[trigger] all[j],
    ) by {
        if j < before.len() {
            assert(all[i] == before[i] && all[j] == before[j]);
        } else {
            assert(all[j] == part[j - before.len()]);
            if i < before.len() {
                assert(all[i] == before[i]);
                let a = choose|a: int| 0 <= a < n - 1 && before[i] == (#[trigger] sorted[a]).name;
                assert(name_le(sorted[a].name, sorted[n - 1].name));
            } else {
                assert(all[i] == part[i - before.len()]);
            }
        }
    }
}

/// The names of the tables whose indexes are dropped, entry by entry.
pub open spec fn dropped_index_tables(drops: Seq<DropIndexView>) -> Seq<Seq<char>> {
    Seq::new(drops.len(), |i: int| drops[i].table)
}

/// The names of the tables whose indexes are created, entry by entry.
pub open spec fn created_index_tables(creates: Seq<CreateIndexView>) -> Seq<Seq<char>> {
    Seq::new(creates.len(), |i: int| creates[i].table.name)
}

/// The names of the tables whose indexes are renamed, entry by entry.
pub open spec fn renamed_index_tables(renames: Seq<AlterIndexView>) -> Seq<Seq<char>> {
    Seq::new(renames.len(), |i: int| renames[i].table)
}

/// The names of the tables that are altered, entry by entry.
pub open spec fn altered_table_names(alters: Seq<AlterTableView>) -> Seq<Seq<char>> {
    Seq::new(alters.len(), |i: int| alters[i].table.name)
}

proof fn lemma_dropped_tables_in_order(sorted: Seq<TableView>, to: SqlSchemaView, n: int)
    requires
        is_sorted_by_name(sorted),
        0 <= n <= sorted.len(),
    ensures
        names_in_order(dropped_tables(sorted, to, n)),
        names_among(dropped_tables(sorted, to, n), sorted, n),
    decreases n,
{
    if n > 0 {
        lemma_dropped_tables_in_order(sorted, to, n - 1);
        let before = dropped_tables(sorted, to, n - 1);
        let part = if to.has_table(sorted[n - 1].name) {
            Seq::<Seq<char>>::empty()
        } else {
            seq![sorted[n - 1].name]
        };
        lemma_names_in_order_add(before, part, sorted, n);
        assert(dropped_tables(sorted, to, n) =~= before + part);
    }
}

proof fn lemma_created_tables_in_order(from: SqlSchemaView, sorted: Seq<TableView>, n: int)
    requires
        is_sorted_by_name(sorted),
        0 <= n <= sorted.len(),
    ensures
        names_in_order(table_names(created_tables(from, sorted, n))),
        names_among(table_names(created_tables(from, sorted, n)), sorted, n),
    decreases n,
{
    if n > 0 {
        lemma_created_tables_in_order(from, sorted, n - 1);
        let before = table_names(created_tables(from, sorted, n - 1));
        let part = if from.has_table(sorted[n - 1].name) {
            Seq::<Seq<char>>::empty()
        } else {
            seq![sorted[n - 1].name]
        };
        lemma_names_in_order_add(before, part, sorted, n);
        assert(table_names(created_tables(from, sorted, n)) =~= before + part);
    }
}

proof fn lemma_altered_tables_in_order(from: SqlSchemaView, sorted: Seq<TableView>, n: int)
    requires
        is_sorted_by_name(sorted),
        0 <= n <= sorted.len(),
    ensures
        names_in_order(altered_table_names(altered_tables(from, sorted, n))),
        names_among(altered_table_names(altered_tables(from, sorted, n)), sorted, n),
    decreases n,
{
    if n > 0 {
        lemma_altered_tables_in_order(from, sorted, n - 1);
        let before = altered_table_names(altered_tables(from, sorted, n - 1));
        let all = altered_table_names(altered_tables(from, sorted, n));
        let part = if all.len() == before.len() {
            Seq::<Seq<char>>::empty()
        } else {
            seq![sorted[n - 1].name]
        };
        lemma_names_in_order_add(before, part, sorted, n);
        assert(all =~= before + part);
    }
}

proof fn lemma_dropped_indexes_in_order(sorted: Seq<TableView>, to: SqlSchemaView, n: int)
    requires
        is_sorted_by_name(sorted),
        0 <= n <= sorted.len(),
    ensures
        names_in_order(dropped_index_tables(dropped_indexes(sorted, to, n))),
        names_among(dropped_index_tables(dropped_indexes(sorted, to, n)), sorted, n),
    decreases n,
{
    if n > 0 {
        lemma_dropped_indexes_in_order(sorted, to, n - 1);
        let table = sorted[n - 1];
        let before = dropped_index_tables(dropped_indexes(sorted, to, n - 1));
        let part = dropped_index_tables(
            table_dropped_indexes(
                table.name,
                table.indices,
                indexes_of(to, table.name),
                table.indices.len() as int,
            ),
        );
        lemma_table_dropped_indexes_table(
            table.name,
            table.indices,
            indexes_of(to, table.name),
            table.indices.len() as int,
        );
        lemma_names_in_order_add(before, part, sorted, n);
        assert(dropped_index_tables(dropped_indexes(sorted, to, n)) =~= before + part);
    }
}

proof fn lemma_renamed_indexes_in_order(sorted: Seq<TableView>, to: SqlSchemaView, n: int)
    requires
        is_sorted_by_name(sorted),
        0 <= n <= sorted.len(),
    ensures
        names_in_order(renamed_index_tables(renamed_indexes(sorted, to, n))),
        names_among(renamed_index_tables(renamed_indexes(sorted, to, n)), sorted, n),
    decreases n,
{
    if n > 0 {
        lemma_renamed_indexes_in_order(sorted, to, n - 1);
        let table = sorted[n - 1];
        let before = renamed_index_tables(renamed_indexes(sorted, to, n - 1));
        let part = renamed_index_tables(
            table_renamed_indexes(
                table.name,
                table.indices,
                indexes_of(to, table.name),
                table.indices.len() as int,
            ),
        );
        lemma_table_renamed_indexes_table(
            table.name,
            table.indices,
            indexes_of(to, table.name),
            table.indices.len() as int,
        );
        lemma_names_in_order_add(before, part, sorted, n);
        assert(renamed_index_tables(renamed_indexes(sorted, to, n)) =~= before + part);
    }
}

proof fn lemma_created_indexes_in_order(from: SqlSchemaView, sorted: Seq<TableView>, n: int)
    requires
        is_sorted_by_name(sorted),
        0 <= n <= sorted.len(),
    ensures
        names_in_order(created_index_tables(created_indexes(from, sorted, n))),
        names_among(created_index_tables(created_indexes(from, sorted, n)), sorted, n),
    decreases n,
{
    if n > 0 {
        lemma_created_indexes_in_order(from, sorted, n - 1);
        let table = sorted[n - 1];
        let before = created_index_tables(created_indexes(from, sorted, n - 1));
        let part = created_index_tables(
            table_created_indexes(
                table,
                indexes_of(from, table.name),
                table.indices.len() as int,
            ),
        );
        lemma_table_created_indexes_table(
            table,
            indexes_of(from, table.name),
            table.indices.len() as int,
        );
        lemma_names_in_order_add(before, part, sorted, n);
        assert(created_index_tables(created_indexes(from, sorted, n)) =~= before + part);
    }
}

/// Whatever a difference derives from the tables of a schema comes in the
/// order of the names of the tables.
pub proof fn lemma_diff_is_ordered_by_table_name(from: SqlSchemaView, to: SqlSchemaView)
    ensures
        names_in_order(diff_spec(from, to).drop_tables),
        names_in_order(table_names(diff_spec(from, to).create_tables)),
        names_in_order(altered_table_names(diff_spec(from, to).alter_tables)),
        names_in_order(dropped_index_tables(diff_spec(from, to).drop_indexes)),
        names_in_order(created_index_tables(diff_spec(from, to).create_indexes)),
        names_in_order(renamed_index_tables(diff_spec(from, to).alter_indexes)),
{
    let source = sort_by_name(from.tables);
    let target = sort_by_name(to.tables);
    lemma_sort_by_name_sorted(from.tables);
    lemma_sort_by_name_sorted(to.tables);
    lemma_dropped_tables_in_order(source, to, source.len() as int);
    lemma_created_tables_in_order(from, target, target.len() as int);
    lemma_altered_tables_in_order(from, target, target.len() as int);
    lemma_dropped_indexes_in_order(source, to, source.len() as int);
    lemma_created_indexes_in_order(from, target, target.len() as int);
    lemma_renamed_indexes_in_order(source, to, source.len() as int);
}

/// A difference drops tables that only the first schema has, creates
/// tables that only the second has, and alters tables that both have: no
/// table is dropped and created, dropped and altered, or created and altered.
pub proof fn lemma_diff_tells_tables_apart(from: SqlSchemaView, to: SqlSchemaView)
    ensures
        forall|i: int|
            0 <= i < diff_spec(from, to).drop_tables.len() ==> from.has_table(
                #[trigger] diff_spec(from, to).drop_tables[i],
            ) && !to.has_table(diff_spec(from, to).drop_tables[i]),
        forall|i: int|
            0 <= i < diff_spec(from, to).create_tables.len() ==> !from.has_table(
                (#[trigger] diff_spec(from, to).create_tables[i]).name,
            ) && to.has_table(diff_spec(from, to).create_tables[i].name),
        forall|i: int|
            0 <= i < diff_spec(from, to).alter_tables.len() ==> from.has_table(
                (#[trigger] diff_spec(from, to).alter_tables[i]).table.name,
            ) && to.has_table(diff_spec(from, to).alter_tables[i].table.name),
{
    let diff = diff_spec(from, to);
    let source = SqlSchemaView { tables: sort_by_name(from.tables) };
    let target = SqlSchemaView { tables: sort_by_name(to.tables) };
    lemma_sort_by_name_keeps_tables(from.tables);
    lemma_sort_by_name_keeps_tables(to.tables);
    assert forall|i: int| 0 <= i < diff.drop_tables.len() implies from.has_table(
        #[trigger] diff.drop_tables[i],
    ) && !to.has_table(diff.drop_tables[i]) by {
        lemma_dropped_tables_names(source, to, source.tables.len() as int, i);
        let at = choose|at: int|
            0 <= at < source.tables.len() && (#[trigger] source.tables[at]).name
                == diff.drop_tables[i];
        assert(source.tables.contains(source.tables[at]));
        lemma_has_own_table(from, source.tables[at]);
    }
    assert forall|i: int| 0 <= i < diff.create_tables.len() implies !from.has_table(
        (#[trigger] diff.create_tables[i]).name,
    ) && to.has_table(diff.create_tables[i].name) by {
        lemma_created_tables_names(from, target, target.tables.len() as int, i);
        let at = choose|at: int|
            0 <= at < target.tables.len() && (#[trigger] target.tables[at]).name
                == diff.create_tables[i].name;
        assert(target.tables.contains(target.tables[at]));
        lemma_has_own_table(to, target.tables[at]);
    }
    assert forall|i: int| 0 <= i < diff.alter_tables.len() implies from.has_table(
        (#[trigger] diff.alter_tables[i]).table.name,
    ) && to.has_table(diff.alter_tables[i].table.name) by {
        lemma_altered_tables_shape(from, target.tables, target.tables.len() as int, i);
        lemma_has_own_table(to, diff.alter_tables[i].table);
    }
}

// ---------------------------------------------------------------------------
// Planning never fails
// ---------------------------------------------------------------------------

/// Both schemas have the table that the step makes SQLite rebuild, if any.
pub open spec fn can_rebuild(from: SqlSchemaView, to: SqlSchemaView, step: StepView) -> bool {
    match table_to_rebuild(step) {
        Some(table) => from.has_table(table) && to.has_table(table),
        None => true,
    }
}

proof fn lemma_sqlite_walk_succeeds(
    steps: Seq<StepView>,
    from: SqlSchemaView,
    to: SqlSchemaView,
    schema: Seq<char>,
    n: int,
)
    requires
        0 <= n <= steps.len(),
        forall|i: int| 0 <= i < steps.len() ==> can_rebuild(from, to, #[trigger] steps[i]),
    ensures
        sqlite_walk(steps, from, to, schema, n) is Ok,
    decreases n,
{
    if n > 0 {
        lemma_sqlite_walk_succeeds(steps, from, to, schema, n - 1);
        assert(can_rebuild(from, to, steps[n - 1]));
    }
}

/// Both schemas have every table that a step of their difference makes SQLite
/// rebuild.
pub proof fn lemma_diff_steps_can_rebuild(from: SqlSchemaView, to: SqlSchemaView)
    ensures
        all_steps(diff_spec(from, to).into_steps(), |s: StepView| can_rebuild(from, to, s)),
{
    let diff = diff_spec(from, to);
    let pred = |s: StepView| can_rebuild(from, to, s);
    let from_sorted = sort_by_name(from.tables);
    let to_sorted = sort_by_name(to.tables);
    lemma_sort_by_name_keeps_tables(from.tables);
    lemma_sort_by_name_keeps_tables(to.tables);
    assert forall|i: int| 0 <= i < diff.alter_tables.len() implies pred(
        StepView::AlterTable(#[trigger] diff.alter_tables[i]),
    ) by {
        lemma_altered_tables_shape(from, to_sorted, to_sorted.len() as int, i);
        let alter = diff.alter_tables[i];
        assert(to.tables.contains(alter.table));
        lemma_has_own_table(to, alter.table);
    }
    assert forall|i: int| 0 <= i < diff.alter_indexes.len() implies pred(
        StepView::AlterIndex(#[trigger] diff.alter_indexes[i]),
    ) by {
        lemma_renamed_indexes_shape(from_sorted, to, from_sorted.len() as int, i);
        let rename = diff.alter_indexes[i];
        let m = choose|m: int|
            0 <= m < from_sorted.len() && (#[trigger] from_sorted[m]).name == rename.table;
        assert(from_sorted.contains(from_sorted[m]));
        lemma_has_own_table(from, from_sorted[m]);
    }
    lemma_into_steps_all(diff, pred);
}

proof fn lemma_scan_steps_succeeds(from: SqlSchemaView, steps: Seq<StepView>, n: int)
    requires
        0 <= n <= steps.len(),
        forall|i: int| 0 <= i < steps.len() ==> scan_step(from, #[trigger] steps[i]) is Ok,
    ensures
        scan_steps(from, steps, n) is Ok,
    decreases n,
{
    if n > 0 {
        lemma_scan_steps_succeeds(from, steps, n - 1);
        assert(scan_step(from, steps[n - 1]) is Ok);
    }
}

proof fn lemma_delayed_steps_can_be_scanned(from: SqlSchemaView, to: SqlSchemaView)
    ensures
        all_steps(
            delay_foreign_key_creation_spec(diff_spec(from, to)),
            |s: StepView| scan_step(from, s) is Ok,
        ),
{
    let diff = diff_spec(from, to);
    let delayed = delayed_diff(diff);
    let pred = |s: StepView| scan_step(from, s) is Ok;
    let to_sorted = sort_by_name(to.tables);
    let created = table_names(diff.create_tables);
    assert forall|i: int| 0 <= i < delayed.alter_tables.len() implies pred(
        StepView::AlterTable(#[trigger] delayed.alter_tables[i]),
    ) by {
        let alter = delayed.alter_tables[i];
        if i < diff.alter_tables.len() {
            assert(alter == diff.alter_tables[i]);
            lemma_altered_tables_shape(from, to_sorted, to_sorted.len() as int, i);
            let current = from.table(alter.table.name).unwrap();
            assert forall|k: int| 0 <= k < alter.changes.len() implies changes_id_type(
                current,
                #[trigger] alter.changes[k],
            ) is Ok by {
                lemma_column_changes_alter_known_columns(current, alter.table, k);
            }
            lemma_scan_changes_succeeds(current, alter.changes, alter.changes.len() as int);
        } else {
            lemma_delayed_alter_tables_shape(
                created,
                diff.create_tables,
                diff.create_tables.len() as int,
                i - diff.alter_tables.len(),
            );
            match from.table(alter.table.name) {
                Some(current) => {
                    lemma_scan_changes_succeeds(current, alter.changes, alter.changes.len() as int);
                },
                None => {},
            }
        }
    }
    lemma_into_steps_all(delayed, pred);
}

/// Whatever the two schemas and the dialect, there are corrected steps
/// from the one to the other: no lookup of the planner fails on steps that
/// come from a difference.
pub proof fn lemma_corrected_steps_exist(
    from: SqlSchemaView,
    to: SqlSchemaView,
    schema: Seq<char>,
    family: SqlFamily,
)
    ensures
        corrected_steps_spec(from, to, schema, family) is Ok,
{
    let diff = diff_spec(from, to);
    match family {
        SqlFamily::Sqlite => {
            lemma_diff_steps_can_rebuild(from, to);
            let steps = diff.into_steps();
            assert forall|i: int| 0 <= i < steps.len() implies can_rebuild(
                from,
                to,
                #[trigger] steps[i],
            ) by {
                assert((|s: StepView| can_rebuild(from, to, s))(steps[i]));
            }
            lemma_sqlite_walk_succeeds(steps, from, to, schema, steps.len() as int);
        },
        _ => {
            lemma_delayed_steps_can_be_scanned(from, to);
            let steps = delay_foreign_key_creation_spec(diff);
            assert forall|i: int| 0 <= i < steps.len() implies scan_step(
                from,
                #[trigger] steps[i],
            ) is Ok by {
                assert((|s: StepView| scan_step(from, s) is Ok)(steps[i]));
            }
            lemma_scan_steps_succeeds(from, steps, steps.len() as int);
        },
    }
}

/// Planning a migration between two schemas never fails.
pub proof fn lemma_infer_succeeds(
    current: SqlSchemaView,
    expected: SqlSchemaView,
    schema: Seq<char>,
    family: SqlFamily,
)
    ensures
        infer_spec(current, expected, schema, family) is Ok,
{
    lemma_corrected_steps_exist(current, expected, schema, family);
    lemma_corrected_steps_exist(expected, current, schema, family);
}

// ---------------------------------------------------------------------------
// No step that does nothing
// ---------------------------------------------------------------------------

/// A step other than an `AlterTable` without changes.
pub open spec fn changes_something(step: StepView) -> bool {
    match step {
        StepView::AlterTable(alter) => alter.changes.len() > 0,
        _ => true,
    }
}

/// A step that the correction for MySQL may put in the place of an `AlterTable`.
pub open spec fn is_mysql_expansion_step(step: StepView) -> bool {
    match step {
        StepView::AlterTable(alter) => alter.changes.len() > 0,
        StepView::RawSql { .. } => true,
        _ => false,
    }
}

proof fn lemma_required_text_steps_shape(
    table: TableView,
    columns: Seq<ColumnView>,
    schema: Seq<char>,
    n: int,
)
    ensures
        all_steps(
            required_text_steps(table, columns, schema, n),
            |s: StepView| is_mysql_expansion_step(s),
        ),
    decreases n,
{
    let pred = |s: StepView| is_mysql_expansion_step(s);
    if n > 0 {
        lemma_required_text_steps_shape(table, columns, schema, n - 1);
        let more = required_text_column_steps(table, columns[n - 1], schema);
        assert(all_steps(more, pred)) by {
            assert(add_nullable_step(table, columns[n - 1])->AlterTable_0.changes.len() == 1);
            assert(make_required_step(table, columns[n - 1])->AlterTable_0.changes.len() == 1);
        }
        lemma_all_steps_add(required_text_steps(table, columns, schema, n - 1), more, pred);
    }
}

/// What MySQL gets in the place of an `AlterTable` is made of statements
/// and of `AlterTable` steps that change something.
pub proof fn lemma_mysql_expansion_shape(alter: AlterTableView, schema: Seq<char>)
    ensures
        all_steps(
            fix_mysql_alter_table_spec(alter, schema),
            |s: StepView| is_mysql_expansion_step(s),
        ),
{
    let columns = required_text_columns(alter.changes, alter.changes.len() as int);
    lemma_required_text_steps_shape(alter.table, columns, schema, columns.len() as int);
}

/// What the correction for MySQL makes of the first `n` steps satisfies
/// `pred`, where `pred` holds of every step that may stand in the place of
/// an `AlterTable` and of every other step among the first `n`.
proof fn lemma_fix_steps_mysql_all(
    steps: Seq<StepView>,
    schema: Seq<char>,
    n: int,
    pred: spec_fn(StepView) -> bool,
)
    requires
        0 <= n <= steps.len(),
        forall|s: StepView| is_mysql_expansion_step(s) ==> #[trigger] pred(s),
        forall|i: int| 0 <= i < n && !(steps[i] is AlterTable) ==> pred(#[trigger] steps[i]),
    ensures
        all_steps(fix_steps_mysql_spec(steps, schema, n), pred),
    decreases n,
{
    if n > 0 {
        lemma_fix_steps_mysql_all(steps, schema, n - 1, pred);
        let more = fix_mysql_step_spec(steps[n - 1], schema);
        assert(all_steps(more, pred)) by {
            match steps[n - 1] {
                StepView::AlterTable(alter) => {
                    lemma_mysql_expansion_shape(alter, schema);
                    assert forall|i: int| 0 <= i < more.len() implies pred(#[trigger] more[i]) by {
                        assert((|s: StepView| is_mysql_expansion_step(s))(more[i]));
                    }
                },
                _ => {},
            }
        }
        lemma_all_steps_add(fix_steps_mysql_spec(steps, schema, n - 1), more, pred);
    }
}

proof fn lemma_diff_steps_change_something(from: SqlSchemaView, to: SqlSchemaView)
    ensures
        all_steps(diff_spec(from, to).into_steps(), |s: StepView| changes_something(s)),
{
    let diff = diff_spec(from, to);
    let to_sorted = sort_by_name(to.tables);
    assert forall|i: int| 0 <= i < diff.alter_tables.len() implies changes_something(
        StepView::AlterTable(#[trigger] diff.alter_tables[i]),
    ) by {
        lemma_altered_tables_shape(from, to_sorted, to_sorted.len() as int, i);
    }
    lemma_into_steps_all(diff, |s: StepView| changes_something(s));
}

proof fn lemma_delayed_steps_change_something(from: SqlSchemaView, to: SqlSchemaView)
    ensures
        all_steps(
            delay_foreign_key_creation_spec(diff_spec(from, to)),
            |s: StepView| changes_something(s),
        ),
{
    let diff = diff_spec(from, to);
    let delayed = delayed_diff(diff);
    let to_sorted = sort_by_name(to.tables);
    assert forall|i: int| 0 <= i < delayed.alter_tables.len() implies changes_something(
        StepView::AlterTable(#[trigger] delayed.alter_tables[i]),
    ) by {
        if i < diff.alter_tables.len() {
            assert(delayed.alter_tables[i] == diff.alter_tables[i]);
            lemma_altered_tables_shape(from, to_sorted, to_sorted.len() as int, i);
        } else {
            lemma_delayed_alter_tables_shape(
                table_names(diff.create_tables),
                diff.create_tables,
                diff.create_tables.len() as int,
                i - diff.alter_tables.len(),
            );
        }
    }
    lemma_into_steps_all(delayed, |s: StepView| changes_something(s));
}

/// What the correction for a changed primary key type hands on satisfies
/// `pred`, where the steps it was given and the steps from scratch do.
proof fn lemma_fix_id_all(
    from: SqlSchemaView,
    to: SqlSchemaView,
    steps: Seq<StepView>,
    pred: spec_fn(StepView) -> bool,
)
    requires
        all_steps(steps, pred),
        all_steps(delay_foreign_key_creation_spec(diff_spec(SqlSchemaView::empty(), to)), pred),
        forall|names: Seq<Seq<char>>| #[trigger] pred(StepView::DropTables(names)),
    ensures
        match fix_id_column_type_change_spec(from, to, steps) {
            Ok(fixed) => all_steps(fixed, pred),
            Err(_) => true,
        },
{
    let radical = radical_steps(from, to);
    let first = seq![
        StepView::DropTables(
            crate::sql_database_migration_inferrer::droppable_names(
                sort_by_name(from.tables),
                from.tables.len() as int,
            ),
        ),
    ];
    assert(all_steps(first, pred));
    lemma_all_steps_add(
        first,
        delay_foreign_key_creation_spec(diff_spec(SqlSchemaView::empty(), to)),
        pred,
    );
}

/// No corrected step is an `AlterTable` without changes.
pub proof fn lemma_corrected_steps_change_something(
    from: SqlSchemaView,
    to: SqlSchemaView,
    schema: Seq<char>,
    family: SqlFamily,
)
    ensures
        match corrected_steps_spec(from, to, schema, family) {
            Ok(steps) => forall|i: int|
                0 <= i < steps.len() ==> changes_something(#[trigger] steps[i]),
            Err(_) => true,
        },
{
    let pred = |s: StepView| changes_something(s);
    let diff = diff_spec(from, to);
    match family {
        SqlFamily::Sqlite => {
            lemma_diff_steps_change_something(from, to);
            let steps = diff.into_steps();
            assert forall|i: int| 0 <= i < steps.len() implies pred(#[trigger] steps[i]) by {}
            lemma_sqlite_walk_all(steps, from, to, schema, steps.len() as int, pred);
        },
        _ => {
            lemma_delayed_steps_change_something(from, to);
            lemma_delayed_steps_change_something(SqlSchemaView::empty(), to);
            let steps = delay_foreign_key_creation_spec(diff);
            lemma_fix_id_all(from, to, steps, pred);
            if family == SqlFamily::Mysql {
                match fix_id_column_type_change_spec(from, to, steps) {
                    Ok(fixed) => {
                        lemma_fix_steps_mysql_all(fixed, schema, fixed.len() as int, pred);
                    },
                    Err(_) => {},
                }
            }
        },
    }
    match corrected_steps_spec(from, to, schema, family) {
        Ok(steps) => {
            assert(all_steps(steps, pred));
            assert forall|i: int| 0 <= i < steps.len() implies changes_something(
                #[trigger] steps[i],
            ) by {
                assert(pred(steps[i]));
            }
        },
        Err(_) => {},
    }
}

/// On SQLite no corrected step renames an index.
pub proof fn lemma_corrected_steps_rename_no_index_on_sqlite(
    from: SqlSchemaView,
    to: SqlSchemaView,
    schema: Seq<char>,
)
    ensures
        match corrected_steps_spec(from, to, schema, SqlFamily::Sqlite) {
            Ok(steps) => forall|i: int| 0 <= i < steps.len() ==> !(#[trigger] steps[i] is AlterIndex),
            Err(_) => true,
        },
{
    lemma_sqlite_steps_rename_no_index(diff_spec(from, to), from, to, schema);
}

// ---------------------------------------------------------------------------
// No foreign key to a table that is created alongside
// ---------------------------------------------------------------------------

/// None of the columns of `table` has to wait for another of the tables in `created`.
pub open spec fn waits_for_no_table(created: Seq<Seq<char>>, table: TableView) -> bool {
    forall|k: int|
        0 <= k < table.columns.len() ==> !is_delayed(created, table, #[trigger] table.columns[k])
}

/// Where the step creates a table, the table is one of `created` and none
/// of its columns has to wait.
pub open spec fn is_settled_create(created: Seq<Seq<char>>, step: StepView) -> bool {
    match step {
        StepView::CreateTable(table) => created.contains(table.name) && waits_for_no_table(
            created,
            table,
        ),
        _ => true,
    }
}

/// One of the steps creates a table called `name`.
pub open spec fn creates_table(steps: Seq<StepView>, name: Seq<char>) -> bool {
    exists|j: int|
        0 <= j < steps.len() && (#[trigger] steps[j]) is CreateTable
            && steps[j]->CreateTable_0.name == name
}

/// The column may be created with its table: where a foreign key
/// constrains it and points to another table that the steps create, the
/// column is part of the primary key or the table is a relation table.
pub open spec fn column_is_settled(steps: Seq<StepView>, table: TableView, k: int) -> bool {
    match table.foreign_key_for_column(table.columns[k].name) {
        Some(foreign_key) => foreign_key.referenced_table != table.name && creates_table(
            steps,
            foreign_key.referenced_table,
        ) ==> table.is_part_of_primary_key(table.columns[k].name) || is_relation_table(table.name),
        None => true,
    }
}

/// No table is created with a column whose foreign key points to another
/// table that the same steps create, unless the column is part of the
/// primary key or the table is a relation table.
pub open spec fn creates_no_early_reference(steps: Seq<StepView>) -> bool {
    forall|i: int, k: int|
        0 <= i < steps.len() && steps[i] is CreateTable && 0 <= k
            < steps[i]->CreateTable_0.columns.len() ==> #[trigger] column_is_settled(
            steps,
            steps[i]->CreateTable_0,
            k,
        )
}

proof fn lemma_settled_creates_no_early_reference(created: Seq<Seq<char>>, steps: Seq<StepView>)
    requires
        all_steps(steps, |s: StepView| is_settled_create(created, s)),
    ensures
        creates_no_early_reference(steps),
{
    let pred = |s: StepView| is_settled_create(created, s);
    assert forall|i: int, k: int|
        0 <= i < steps.len() && steps[i] is CreateTable && 0 <= k
            < steps[i]->CreateTable_0.columns.len() implies #[trigger] column_is_settled(
        steps,
        steps[i]->CreateTable_0,
        k,
    ) by {
        let table = steps[i]->CreateTable_0;
        assert(pred(steps[i]));
        assert(!is_delayed(created, table, table.columns[k]));
        match table.foreign_key_for_column(table.columns[k].name) {
            Some(foreign_key) => {
                if creates_table(steps, foreign_key.referenced_table) {
                    let j = choose|j: int|
                        0 <= j < steps.len() && (#[trigger] steps[j]) is CreateTable
                            && steps[j]->CreateTable_0.name == foreign_key.referenced_table;
                    assert(pred(steps[j]));
                }
            },
            None => {},
        }
    }
}

proof fn lemma_kept_columns_shape(created: Seq<Seq<char>>, table: TableView, n: int, k: int)
    requires
        0 <= k < kept_columns(created, table, n).len(),
    ensures
        !is_delayed(created, table, kept_columns(created, table, n)[k]),
    decreases n,
{
    if n > 0 && k < kept_columns(created, table, n - 1).len() {
        lemma_kept_columns_shape(created, table, n - 1, k);
    }
}

proof fn lemma_delayed_steps_are_settled(diff: SqlSchemaDiffView)
    ensures
        all_steps(
            delay_foreign_key_creation_spec(diff),
            |s: StepView| is_settled_create(table_names(diff.create_tables), s),
        ),
{
    let created = table_names(diff.create_tables);
    let delayed = delayed_diff(diff);
    let pred = |s: StepView| is_settled_create(created, s);
    assert forall|i: int| 0 <= i < delayed.create_tables.len() implies pred(
        StepView::CreateTable(#[trigger] delayed.create_tables[i]),
    ) by {
        let table = diff.create_tables[i];
        let pruned = pruned_table(created, table);
        assert(delayed.create_tables[i] == pruned);
        assert(created[i] == table.name);
        assert forall|k: int| 0 <= k < pruned.columns.len() implies !is_delayed(
            created,
            pruned,
            #[trigger] pruned.columns[k],
        ) by {
            lemma_kept_columns_shape(created, table, table.columns.len() as int, k);
            assert(pruned.foreign_key_for_column(pruned.columns[k].name)
                == table.foreign_key_for_column(pruned.columns[k].name));
        }
    }
    lemma_into_steps_all(delayed, pred);
}

/// On MySQL and PostgreSQL no corrected step creates a table with a column
/// whose foreign key points to another table that the corrected steps
/// create, unless the column is part of the primary key or the name of the
/// table begins with an underscore.
pub proof fn lemma_corrected_steps_create_no_early_reference(
    from: SqlSchemaView,
    to: SqlSchemaView,
    schema: Seq<char>,
    family: SqlFamily,
)
    requires
        family != SqlFamily::Sqlite,
    ensures
        match corrected_steps_spec(from, to, schema, family) {
            Ok(steps) => creates_no_early_reference(steps),
            Err(_) => true,
        },
{
    let diff = diff_spec(from, to);
    let steps = delay_foreign_key_creation_spec(diff);
    let from_scratch = diff_spec(SqlSchemaView::empty(), to);
    let found = scan_steps(from, steps, steps.len() as int);
    match found {
        Ok(radical) => {
            let created = if radical {
                table_names(from_scratch.create_tables)
            } else {
                table_names(diff.create_tables)
            };
            let pred = |s: StepView| is_settled_create(created, s);
            let fixed = fix_id_column_type_change_spec(from, to, steps)->Ok_0;
            if radical {
                lemma_delayed_steps_are_settled(from_scratch);
                let first = seq![
                    StepView::DropTables(
                        crate::sql_database_migration_inferrer::droppable_names(
                            sort_by_name(from.tables),
                            from.tables.len() as int,
                        ),
                    ),
                ];
                assert(all_steps(first, pred));
                lemma_all_steps_add(first, delay_foreign_key_creation_spec(from_scratch), pred);
            } else {
                lemma_delayed_steps_are_settled(diff);
            }
            assert(all_steps(fixed, pred));
            if family == SqlFamily::Mysql {
                assert forall|i: int| 0 <= i < fixed.len() && !(fixed[i] is AlterTable) implies pred(
                    #[trigger] fixed[i],
                ) by {}
                lemma_fix_steps_mysql_all(fixed, schema, fixed.len() as int, pred);
                lemma_settled_creates_no_early_reference(
                    created,
                    fix_steps_mysql_spec(fixed, schema, fixed.len() as int),
                );
            } else {
                lemma_settled_creates_no_early_reference(created, fixed);
            }
        },
        Err(_) => {},
    }
}

/// A column whose foreign key points to its own table does not have to wait.
pub proof fn lemma_self_reference_does_not_wait(
    created: Seq<Seq<char>>,
    table: TableView,
    column: ColumnView,
)
    requires
        table.foreign_key_for_column(column.name) is Some,
        table.foreign_key_for_column(column.name)->Some_0.referenced_table == table.name,
    ensures
        !is_delayed(created, table, column),
{
}

/// A table whose foreign keys all point to the table itself, or to tables
/// that are not created alongside, has no column that has to wait.
pub proof fn lemma_table_without_references_to_new_tables(
    created: Seq<Seq<char>>,
    table: TableView,
    n: int,
)
    requires
        0 <= n <= table.columns.len(),
        forall|k: int|
            0 <= k < table.columns.len() ==> match table.foreign_key_for_column(
                (#[trigger] table.columns[k]).name,
            ) {
                Some(foreign_key) => foreign_key.referenced_table == table.name || !created.contains(
                    foreign_key.referenced_table,
                ),
                None => true,
            },
    ensures
        delayed_columns(created, table, n).len() == 0,
    decreases n,
{
    if n > 0 {
        lemma_table_without_references_to_new_tables(created, table, n - 1);
        assert(!is_delayed(created, table, table.columns[n - 1]));
    }
}

proof fn lemma_no_late_alter_tables(created: Seq<Seq<char>>, tables: Seq<TableView>, n: int)
    requires
        0 <= n <= tables.len(),
        forall|i: int| 0 <= i < tables.len() ==> !waits(created, #[trigger] tables[i]),
    ensures
        delayed_alter_tables(created, tables, n).len() == 0,
    decreases n,
{
    if n > 0 {
        lemma_no_late_alter_tables(created, tables, n - 1);
        assert(!waits(created, tables[n - 1]));
    }
}

/// Where no column of a table that is created has to wait, the steps of the
/// difference are left as they are: every table is created with all its
/// columns, and no `AlterTable` is added.
pub proof fn lemma_nothing_waits_leaves_the_steps(diff: SqlSchemaDiffView)
    requires
        forall|i: int|
            0 <= i < diff.create_tables.len() ==> !waits(
                table_names(diff.create_tables),
                #[trigger] diff.create_tables[i],
            ),
    ensures
        delay_foreign_key_creation_spec(diff) == diff.into_steps(),
{
    let created = table_names(diff.create_tables);
    let delayed = delayed_diff(diff);
    lemma_no_late_alter_tables(created, diff.create_tables, diff.create_tables.len() as int);
    assert(delayed.alter_tables =~= diff.alter_tables);
    assert(delayed.create_tables =~= diff.create_tables) by {
        assert forall|i: int| 0 <= i < diff.create_tables.len() implies delayed.create_tables[i]
            == diff.create_tables[i] by {
            let table = diff.create_tables[i];
            assert(!waits(created, table));
            lemma_nothing_waits(created, table, table.columns.len() as int);
            assert(table.columns.take(table.columns.len() as int) =~= table.columns);
        }
    }
    assert(delayed == diff);
}

// ---------------------------------------------------------------------------
// When the planner starts from scratch
// ---------------------------------------------------------------------------

/// The `k`-th change of the step alters a column of the primary key of the
/// table that `from` has under the name of the altered table, and gives the
/// column a type of another family.
pub open spec fn changes_type_of_id(from: SqlSchemaView, step: StepView, k: int) -> bool {
    match step {
        StepView::AlterTable(alter) => 0 <= k < alter.changes.len() && match from.table(
            alter.table.name,
        ) {
            Some(current) => changes_id_type(current, alter.changes[k]) == Ok::<
                bool,
                SqlErrorView,
            >(true),
            None => false,
        },
        _ => false,
    }
}

/// One of the first `n` steps changes the type family of a primary key column.
pub open spec fn has_id_type_change(from: SqlSchemaView, steps: Seq<StepView>, n: int) -> bool {
    exists|i: int, k: int| 0 <= i < n && #[trigger] changes_type_of_id(from, steps[i], k)
}

proof fn lemma_scan_changes_finds(current: TableView, changes: Seq<TableChangeView>, n: int)
    requires
        0 <= n <= changes.len(),
    ensures
        match scan_changes(current, changes, n) {
            Ok(found) => found == exists|k: int|
                0 <= k < n && changes_id_type(current, #[trigger] changes[k]) == Ok::<
                    bool,
                    SqlErrorView,
                >(true),
            Err(_) => true,
        },
    decreases n,
{
    if n > 0 {
        lemma_scan_changes_finds(current, changes, n - 1);
        match scan_changes(current, changes, n - 1) {
            Ok(before) => {
                if before {
                    let k = choose|k: int|
                        0 <= k < n - 1 && changes_id_type(current, #[trigger] changes[k]) == Ok::<
                            bool,
                            SqlErrorView,
                        >(true);
                    assert(0 <= k < n);
                } else {
                    match changes_id_type(current, changes[n - 1]) {
                        Ok(found) => {
                            if !found {
                                assert forall|k: int| 0 <= k < n implies changes_id_type(
                                    current,
                                    #[trigger] changes[k],
                                ) != Ok::<bool, SqlErrorView>(true) by {
                                    if k < n - 1 {
                                    }
                                }
                            }
                        },
                        Err(_) => {},
                    }
                }
            },
            Err(_) => {},
        }
    }
}

proof fn lemma_scan_steps_finds(from: SqlSchemaView, steps: Seq<StepView>, n: int)
    requires
        0 <= n <= steps.len(),
    ensures
        match scan_steps(from, steps, n) {
            Ok(found) => found == has_id_type_change(from, steps, n),
            Err(_) => true,
        },
    decreases n,
{
    if n > 0 {
        lemma_scan_steps_finds(from, steps, n - 1);
        match scan_steps(from, steps, n - 1) {
            Ok(before) => {
                if before {
                    let (i, k) = choose|i: int, k: int|
                        0 <= i < n - 1 && #[trigger] changes_type_of_id(from, steps[i], k);
                    assert(0 <= i < n && changes_type_of_id(from, steps[i], k));
                } else {
                    match steps[n - 1] {
                        StepView::AlterTable(alter) => {
                            match from.table(alter.table.name) {
                                Some(current) => {
                                    lemma_scan_changes_finds(
                                        current,
                                        alter.changes,
                                        alter.changes.len() as int,
                                    );
                                    match scan_changes(
                                        current,
                                        alter.changes,
                                        alter.changes.len() as int,
                                    ) {
                                        Ok(found) => {
                                            if found {
                                                let k = choose|k: int|
                                                    0 <= k < alter.changes.len()
                                                        && changes_id_type(
                                                        current,
                                                        #[trigger] alter.changes[k],
                                                    ) == Ok::<bool, SqlErrorView>(true);
                                                assert(changes_type_of_id(from, steps[n - 1], k));
                                            } else {
                                                assert forall|i: int, k: int|
                                                    0 <= i < n implies !#[trigger] changes_type_of_id(
                                                    from,
                                                    steps[i],
                                                    k,
                                                ) by {
                                                    if i < n - 1 {
                                                    } else if 0 <= k < alter.changes.len() {
                                                        assert(changes_id_type(
                                                            current,
                                                            alter.changes[k],
                                                        ) != Ok::<bool, SqlErrorView>(true));
                                                    }
                                                }
                                            }
                                        },
                                        Err(_) => {},
                                    }
                                },
                                None => {
                                    assert forall|i: int, k: int|
                                        0 <= i < n implies !#[trigger] changes_type_of_id(
                                        from,
                                        steps[i],
                                        k,
                                    ) by {
                                        if i < n - 1 {
                                        }
                                    }
                                },
                            }
                        },
                        _ => {
                            assert forall|i: int, k: int|
                                0 <= i < n implies !#[trigger] changes_type_of_id(
                                from,
                                steps[i],
                                k,
                            ) by {
                                if i < n - 1 {
                                }
                            }
                        },
                    }
                }
            },
            Err(_) => {},
        }
    }
}

/// Unless a step alters a column that the current table lacks, the planner
/// starts from scratch exactly if a step alters a column of the current
/// primary key and changes the family of its type; it hands the steps on
/// otherwise.
pub proof fn lemma_starts_from_scratch_iff_id_type_changes(
    from: SqlSchemaView,
    to: SqlSchemaView,
    steps: Seq<StepView>,
)
    ensures
        match scan_steps(from, steps, steps.len() as int) {
            Ok(found) => {
                &&& found == has_id_type_change(from, steps, steps.len() as int)
                &&& fix_id_column_type_change_spec(from, to, steps) == Ok::<
                    Seq<StepView>,
                    SqlErrorView,
                >(if found {
                    radical_steps(from, to)
                } else {
                    steps
                })
            },
            Err(e) => fix_id_column_type_change_spec(from, to, steps) == Err::<
                Seq<StepView>,
                SqlErrorView,
            >(e),
        },
{
    lemma_scan_steps_finds(from, steps, steps.len() as int);
}

/// On PostgreSQL the corrected steps are the steps from scratch exactly if
/// a step of the difference changes the type family of a column of the
/// current primary key, and the steps of the difference, foreign key
/// columns late, otherwise.
pub proof fn lemma_postgres_steps(from: SqlSchemaView, to: SqlSchemaView, schema: Seq<char>)
    ensures
        corrected_steps_spec(from, to, schema, SqlFamily::Postgres) == Ok::<
            Seq<StepView>,
            SqlErrorView,
        >(
            {
                let steps = delay_foreign_key_creation_spec(diff_spec(from, to));
                if has_id_type_change(from, steps, steps.len() as int) {
                    radical_steps(from, to)
                } else {
                    steps
                }
            },
        ),
{
    let steps = delay_foreign_key_creation_spec(diff_spec(from, to));
    lemma_corrected_steps_exist(from, to, schema, SqlFamily::Postgres);
    lemma_starts_from_scratch_iff_id_type_changes(from, to, steps);
}

// ---------------------------------------------------------------------------
// Rendered SQL
// ---------------------------------------------------------------------------

/// The text is not empty and does not end in a line break.
pub open spec fn ends_within_line(text: Seq<char>) -> bool {
    text.len() > 0 && text.last() != '\n'
}

proof fn lemma_quoted_ends_within_line(family: SqlFamily, before: Seq<char>, name: Seq<char>)
    ensures
        ends_within_line(before + quote_spec(family, name)),
{
    reveal_strlit("`");
    reveal_strlit("\"");
    let mark = quote_mark(family);
    assert(mark.len() == 1 && mark[0] != '\n');
    let text = before + quote_spec(family, name);
    assert(text.last() == mark[0]);
}

/// The SQL of a step other than a statement of raw SQL, which is rendered as
/// it is, does not end in a line break.
pub proof fn lemma_rendered_sql_ends_within_line(
    step: StepView,
    family: SqlFamily,
    schema: Seq<char>,
)
    requires
        is_renderable(step, family),
        !(step is RawSql),
    ensures
        ends_within_line(render_raw_sql_spec(step, family, schema)),
{
    reveal_strlit(";");
    reveal_strlit(")");
    let sql = render_raw_sql_spec(step, family, schema);
    match step {
        StepView::CreateIndex(create) => {
            assert(sql.last() == ')');
        },
        StepView::DropIndex(drop) => {
            match family {
                SqlFamily::Mysql => {
                    lemma_quoted_ends_within_line(
                        family,
                        "DROP INDEX "@ + quote_spec(family, drop.name) + " ON "@ + quote_spec(
                            family,
                            schema,
                        ) + "."@,
                        drop.table,
                    );
                    assert(sql =~= "DROP INDEX "@ + quote_spec(family, drop.name) + " ON "@
                        + quote_spec(family, schema) + "."@ + quote_spec(family, drop.table));
                },
                _ => {
                    lemma_quoted_ends_within_line(
                        family,
                        "DROP INDEX "@ + quote_spec(family, schema) + "."@,
                        drop.name,
                    );
                    assert(sql =~= "DROP INDEX "@ + quote_spec(family, schema) + "."@ + quote_spec(
                        family,
                        drop.name,
                    ));
                },
            }
        },
        StepView::AlterIndex(alter) => {
            match family {
                SqlFamily::Mysql => {
                    lemma_quoted_ends_within_line(
                        family,
                        "ALTER TABLE "@ + quote_with_schema_spec(family, schema, alter.table)
                            + " RENAME INDEX "@ + quote_spec(family, alter.index_name) + " TO "@,
                        alter.index_new_name,
                    );
                },
                _ => {
                    lemma_quoted_ends_within_line(
                        family,
                        "ALTER INDEX "@ + quote_with_schema_spec(family, schema, alter.index_name)
                            + " RENAME TO "@,
                        alter.index_new_name,
                    );
                },
            }
        },
        _ => {
            assert(sql.last() == ';');
        },
    }
}

} // verus!
