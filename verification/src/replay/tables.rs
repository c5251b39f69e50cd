//! What steps make of one table, kind of step by kind of step.

use crate::guarantees::{
    lemma_into_steps_all, lemma_sort_by_name_keeps_tables, lemma_sort_by_name_permutes,
};
use crate::replay::content::{
    altered, apply_index_creates, apply_index_drops, apply_index_renames, apply_step, apply_steps,
    created_content, rename_index, with_indexes, TableContent,
};
use crate::schema::{IndexView, SqlSchemaView, TableView};
use crate::search::lemma_first_where;
use crate::sql_migration::{
    AlterIndex, AlterIndexView, AlterTable, AlterTableView, CreateIndex, CreateIndexView,
    CreateTable, DropIndex, DropIndexView, DropTable, DropTables, StepView,
};
use crate::sql_schema_differ::{
    altered_tables, column_changes, created_indexes, created_tables, dropped_indexes,
    dropped_tables, indexes_of, renamed_indexes, sort_by_name, table_created_indexes,
    table_dropped_indexes, table_renamed_indexes, SqlSchemaDiffView,
};
use vstd::prelude::*;

verus! {

/// Whether a step concerns the table called `table`.
pub open spec fn touches(step: StepView, table: Seq<char>) -> bool {
    match step {
        StepView::CreateTable(created) => created.name == table,
        StepView::DropTable(name) => name == table,
        StepView::DropTables(names) => names.contains(table),
        StepView::RenameTable { name, new_name } => name == table || new_name == table,
        StepView::AlterTable(alter) => alter.table.name == table,
        StepView::CreateIndex(create) => create.table.name == table,
        StepView::DropIndex(drop) => drop.table == table,
        StepView::AlterIndex(alter) => alter.table == table,
        StepView::RawSql { raw } => false,
    }
}

/// What a step that renames no table makes of the table called `table`.
pub open spec fn step_at(state: Option<TableContent>, step: StepView, table: Seq<char>) -> Option<
    TableContent,
> {
    if !touches(step, table) {
        state
    } else {
        match step {
            StepView::CreateTable(created) => Some(created_content(created)),
            StepView::DropTable(name) => None,
            StepView::DropTables(names) => None,
            StepView::AlterTable(alter) => match state {
                Some(content) => Some(altered(content, alter)),
                None => None,
            },
            StepView::CreateIndex(create) => match state {
                Some(content) => Some(
                    with_indexes(content, content.indexes.insert(create.index.name, create.index)),
                ),
                None => None,
            },
            StepView::DropIndex(drop) => match state {
                Some(content) => Some(with_indexes(content, content.indexes.remove(drop.name))),
                None => None,
            },
            StepView::AlterIndex(alter) => match state {
                Some(content) => Some(
                    with_indexes(
                        content,
                        rename_index(content.indexes, alter.index_name, alter.index_new_name),
                    ),
                ),
                None => None,
            },
            _ => state,
        }
    }
}

/// What steps that rename no table make of the table called `table`.
pub open spec fn steps_at(state: Option<TableContent>, steps: Seq<StepView>, table: Seq<char>) -> Option<
    TableContent,
>
    decreases steps.len(),
{
    if steps.len() == 0 {
        state
    } else {
        step_at(steps_at(state, steps.drop_last(), table), steps.last(), table)
    }
}

/// None of the steps renames a table.
pub open spec fn renames_no_table(steps: Seq<StepView>) -> bool {
    forall|i: int| 0 <= i < steps.len() ==> !(#[trigger] steps[i] is RenameTable)
}

/// What a step that renames no table does to the content is, table by table,
/// what it makes of that table.
pub proof fn lemma_apply_step_at(content: Map<Seq<char>, TableContent>, step: StepView, table: Seq<char>)
    requires
        !(step is RenameTable),
    ensures
        apply_step(content, step).get(table) == step_at(content.get(table), step, table),
{
    match step {
        StepView::DropTables(names) => {
            assert(names.to_set().contains(table) == names.contains(table));
        },
        _ => {},
    }
}

/// What steps that rename no table do to the content is, table by table,
/// what they make of that table.
pub proof fn lemma_apply_steps_at(
    content: Map<Seq<char>, TableContent>,
    steps: Seq<StepView>,
    table: Seq<char>,
)
    requires
        renames_no_table(steps),
    ensures
        apply_steps(content, steps).get(table) == steps_at(content.get(table), steps, table),
    decreases steps.len(),
{
    if steps.len() > 0 {
        assert(renames_no_table(steps.drop_last())) by {
            assert forall|i: int| 0 <= i < steps.drop_last().len() implies !(
            #[trigger] steps.drop_last()[i] is RenameTable) by {
                assert(steps.drop_last()[i] == steps[i]);
            }
        }
        lemma_apply_steps_at(content, steps.drop_last(), table);
        assert(!(steps[steps.len() - 1] is RenameTable));
        lemma_apply_step_at(apply_steps(content, steps.drop_last()), steps.last(), table);
    }
}

/// Steps in two parts are replayed part after part.
pub proof fn lemma_apply_steps_add(
    content: Map<Seq<char>, TableContent>,
    first: Seq<StepView>,
    second: Seq<StepView>,
)
    ensures
        apply_steps(content, first + second) == apply_steps(apply_steps(content, first), second),
    decreases second.len(),
{
    if second.len() == 0 {
        assert(first + second =~= first);
    } else {
        lemma_apply_steps_add(content, first, second.drop_last());
        assert((first + second).drop_last() =~= first + second.drop_last());
    }
}

/// Steps in two parts make of a table what the second part makes of what
/// the first part made of it.
pub proof fn lemma_steps_at_add(
    state: Option<TableContent>,
    first: Seq<StepView>,
    second: Seq<StepView>,
    table: Seq<char>,
)
    ensures
        steps_at(state, first + second, table) == steps_at(
            steps_at(state, first, table),
            second,
            table,
        ),
    decreases second.len(),
{
    if second.len() == 0 {
        assert(first + second =~= first);
    } else {
        lemma_steps_at_add(state, first, second.drop_last(), table);
        assert((first + second).drop_last() =~= first + second.drop_last());
    }
}

/// One more step is replayed after the others.
pub proof fn lemma_steps_at_push(
    state: Option<TableContent>,
    steps: Seq<StepView>,
    step: StepView,
    table: Seq<char>,
)
    ensures
        steps_at(state, steps.push(step), table) == step_at(
            steps_at(state, steps, table),
            step,
            table,
        ),
{
    assert(steps.push(step).drop_last() =~= steps);
}

/// Steps that do not concern a table leave it as it is.
pub proof fn lemma_steps_at_untouched(state: Option<TableContent>, steps: Seq<StepView>, table: Seq<char>)
    requires
        forall|i: int| 0 <= i < steps.len() ==> !touches(#[trigger] steps[i], table),
    ensures
        steps_at(state, steps, table) == state,
    decreases steps.len(),
{
    if steps.len() > 0 {
        assert forall|i: int| 0 <= i < steps.drop_last().len() implies !touches(
            #[trigger] steps.drop_last()[i],
            table,
        ) by {
            assert(steps.drop_last()[i] == steps[i]);
        }
        lemma_steps_at_untouched(state, steps.drop_last(), table);
        assert(!touches(steps[steps.len() - 1], table));
    }
}

/// Steps leave a table that is not there and that they do not create as it is.
pub proof fn lemma_steps_at_missing(steps: Seq<StepView>, table: Seq<char>)
    requires
        forall|i: int|
            0 <= i < steps.len() ==> !(#[trigger] steps[i] is CreateTable && touches(
                steps[i],
                table,
            )),
    ensures
        steps_at(None, steps, table) is None,
    decreases steps.len(),
{
    if steps.len() > 0 {
        assert forall|i: int| 0 <= i < steps.drop_last().len() implies !(
        #[trigger] steps.drop_last()[i] is CreateTable && touches(steps.drop_last()[i], table)) by {
            assert(steps.drop_last()[i] == steps[i]);
        }
        lemma_steps_at_missing(steps.drop_last(), table);
        assert(!(steps[steps.len() - 1] is CreateTable && touches(
            steps[steps.len() - 1],
            table,
        )));
    }
}

/// The steps that the entries of a difference turn into, kind by kind.
pub open spec fn drop_index_steps(drops: Seq<DropIndexView>) -> Seq<StepView> {
    drops.map_values(|x: DropIndexView| StepView::DropIndex(x))
}

/// The `DropTable` steps for the names.
pub open spec fn drop_table_steps(names: Seq<Seq<char>>) -> Seq<StepView> {
    names.map_values(|x: Seq<char>| StepView::DropTable(x))
}

/// The `CreateTable` steps for the tables.
pub open spec fn create_table_steps(tables: Seq<TableView>) -> Seq<StepView> {
    tables.map_values(|x: TableView| StepView::CreateTable(x))
}

/// The `AlterTable` steps for the alterations.
pub open spec fn alter_table_steps(alters: Seq<AlterTableView>) -> Seq<StepView> {
    alters.map_values(|x: AlterTableView| StepView::AlterTable(x))
}

/// The `CreateIndex` steps for the indexes to create.
pub open spec fn create_index_steps(creates: Seq<CreateIndexView>) -> Seq<StepView> {
    creates.map_values(|x: CreateIndexView| StepView::CreateIndex(x))
}

/// The `AlterIndex` steps for the renamings.
pub open spec fn alter_index_steps(renames: Seq<AlterIndexView>) -> Seq<StepView> {
    renames.map_values(|x: AlterIndexView| StepView::AlterIndex(x))
}

/// Dropping indexes of a table leaves the table its columns and takes the
/// indexes away.
pub proof fn lemma_drop_index_steps_at(
    content: TableContent,
    drops: Seq<DropIndexView>,
    table: Seq<char>,
)
    requires
        forall|i: int| 0 <= i < drops.len() ==> (#[trigger] drops[i]).table == table,
    ensures
        steps_at(Some(content), drop_index_steps(drops), table) == Some(
            with_indexes(content, apply_index_drops(content.indexes, drops)),
        ),
    decreases drops.len(),
{
    if drops.len() == 0 {
        assert(with_indexes(content, content.indexes) == content);
    } else {
        lemma_drop_index_steps_at(content, drops.drop_last(), table);
        assert(drop_index_steps(drops).drop_last() =~= drop_index_steps(drops.drop_last()));
        assert(drops[drops.len() - 1].table == table);
    }
}

/// Creating indexes of a table leaves the table its columns and adds the
/// indexes.
pub proof fn lemma_create_index_steps_at(
    content: TableContent,
    creates: Seq<CreateIndexView>,
    table: Seq<char>,
)
    requires
        forall|i: int| 0 <= i < creates.len() ==> (#[trigger] creates[i]).table.name == table,
    ensures
        steps_at(Some(content), create_index_steps(creates), table) == Some(
            with_indexes(content, apply_index_creates(content.indexes, creates)),
        ),
    decreases creates.len(),
{
    if creates.len() == 0 {
        assert(with_indexes(content, content.indexes) == content);
    } else {
        lemma_create_index_steps_at(content, creates.drop_last(), table);
        assert(create_index_steps(creates).drop_last() =~= create_index_steps(
            creates.drop_last(),
        ));
        assert(creates[creates.len() - 1].table.name == table);
    }
}

/// Renaming indexes of a table leaves the table its columns and renames the
/// indexes.
pub proof fn lemma_alter_index_steps_at(
    content: TableContent,
    renames: Seq<AlterIndexView>,
    table: Seq<char>,
)
    requires
        forall|i: int| 0 <= i < renames.len() ==> (#[trigger] renames[i]).table == table,
    ensures
        steps_at(Some(content), alter_index_steps(renames), table) == Some(
            with_indexes(content, apply_index_renames(content.indexes, renames)),
        ),
    decreases renames.len(),
{
    if renames.len() == 0 {
        assert(with_indexes(content, content.indexes) == content);
    } else {
        lemma_alter_index_steps_at(content, renames.drop_last(), table);
        assert(alter_index_steps(renames).drop_last() =~= alter_index_steps(
            renames.drop_last(),
        ));
        assert(renames[renames.len() - 1].table == table);
    }
}

/// Where the table called `name` stands in a schema with distinct table names.
pub proof fn lemma_table_position(schema: SqlSchemaView, name: Seq<char>)
    requires
        schema.wf(),
    ensures
        match schema.table_index(name) {
            Some(i) => 0 <= i < schema.tables.len() && schema.tables[i].name == name
                && schema.table(name) == Some(schema.tables[i]) && schema.tables[i].wf()
                && forall|j: int|
                0 <= j < schema.tables.len() && j != i ==> (#[trigger] schema.tables[j]).name
                    != name,
            None => schema.table(name) is None && forall|j: int|
                0 <= j < schema.tables.len() ==> (#[trigger] schema.tables[j]).name != name,
        },
{
    let p = |t: TableView| t.name == name;
    lemma_first_where(schema.tables, p);
    match schema.table_index(name) {
        Some(i) => {
            assert forall|j: int| 0 <= j < schema.tables.len() && j != i implies (
            #[trigger] schema.tables[j]).name != name by {
                if j < i {
                    assert(!p(schema.tables[j]));
                } else {
                    assert(schema.tables[i].name != schema.tables[j].name);
                }
            }
        },
        None => {
            assert forall|j: int| 0 <= j < schema.tables.len() implies (
            #[trigger] schema.tables[j]).name != name by {
                assert(!p(schema.tables[j]));
            }
        },
    }
}

/// The schema with its tables in the order of their names.
pub open spec fn sorted_schema(schema: SqlSchemaView) -> SqlSchemaView {
    SqlSchemaView { tables: sort_by_name(schema.tables) }
}

/// A well-formed schema stays well formed when its tables are sorted, and
/// every name finds the same table.
pub proof fn lemma_sorted_schema(schema: SqlSchemaView)
    requires
        schema.wf(),
    ensures
        sorted_schema(schema).wf(),
        sorted_schema(schema).tables.len() == schema.tables.len(),
        forall|name: Seq<char>| #[trigger]
            sorted_schema(schema).table(name) == schema.table(name),
{
    let sorted = sort_by_name(schema.tables);
    lemma_sort_by_name_permutes(schema.tables);
    lemma_sort_by_name_keeps_tables(schema.tables);
    assert(schema.tables.no_duplicates()) by {
        assert forall|i: int, j: int|
            0 <= i < schema.tables.len() && 0 <= j < schema.tables.len() && i != j implies schema.tables[i]
            != schema.tables[j] by {
            if i < j {
                assert(schema.tables[i].name != schema.tables[j].name);
            } else {
                assert(schema.tables[j].name != schema.tables[i].name);
            }
        }
    }
    schema.tables.lemma_multiset_has_no_duplicates();
    sorted.lemma_multiset_has_no_duplicates_conv();
    assert forall|i: int, j: int| 0 <= i < j < sorted.len() implies (#[trigger] sorted[i]).name != (
    #[trigger] sorted[j]).name by {
        assert(sorted.contains(sorted[i]));
        assert(sorted.contains(sorted[j]));
        assert(schema.tables.contains(sorted[i]));
        assert(schema.tables.contains(sorted[j]));
        let a = choose|a: int| 0 <= a < schema.tables.len() && schema.tables[a] == sorted[i];
        let b = choose|b: int| 0 <= b < schema.tables.len() && schema.tables[b] == sorted[j];
        if a < b {
            assert(schema.tables[a].name != schema.tables[b].name);
        } else if b < a {
            assert(schema.tables[b].name != schema.tables[a].name);
        } else {
            assert(sorted[i] != sorted[j]);
        }
    }
    assert forall|i: int| 0 <= i < sorted.len() implies (#[trigger] sorted[i]).wf() by {
        assert(sorted.contains(sorted[i]));
        assert(schema.tables.contains(sorted[i]));
        let a = choose|a: int| 0 <= a < schema.tables.len() && schema.tables[a] == sorted[i];
        assert(schema.tables[a].wf());
    }
    assert forall|name: Seq<char>| #[trigger]
        sorted_schema(schema).table(name) == schema.table(name) by {
        lemma_table_position(schema, name);
        lemma_table_position(sorted_schema(schema), name);
        match schema.table_index(name) {
            Some(i) => {
                assert(schema.tables.contains(schema.tables[i]));
                assert(sorted.contains(schema.tables[i]));
                let a = choose|a: int| 0 <= a < sorted.len() && sorted[a] == schema.tables[i];
                assert(sorted[a].name == name);
            },
            None => {
                match sorted_schema(schema).table_index(name) {
                    Some(a) => {
                        assert(sorted.contains(sorted[a]));
                        assert(schema.tables.contains(sorted[a]));
                        let i = choose|i: int|
                            0 <= i < schema.tables.len() && schema.tables[i] == sorted[a];
                        assert(schema.tables[i].name == name);
                    },
                    None => {},
                }
            },
        }
    }
}

/// The indexes to drop for a table name that table.
pub proof fn lemma_table_dropped_indexes_table(
    table: Seq<char>,
    previous: Seq<IndexView>,
    next: Seq<IndexView>,
    n: int,
)
    ensures
        forall|i: int|
            0 <= i < table_dropped_indexes(table, previous, next, n).len() ==> (
            #[trigger] table_dropped_indexes(table, previous, next, n)[i]).table == table,
    decreases n,
{
    if n > 0 {
        lemma_table_dropped_indexes_table(table, previous, next, n - 1);
        let rest = table_dropped_indexes(table, previous, next, n - 1);
        let all = table_dropped_indexes(table, previous, next, n);
        assert forall|i: int| 0 <= i < all.len() implies (#[trigger] all[i]).table == table by {
            if i < rest.len() {
                assert(all[i] == rest[i]);
            }
        }
    }
}

/// The renamings of indexes of a table name that table.
pub proof fn lemma_table_renamed_indexes_table(
    table: Seq<char>,
    previous: Seq<IndexView>,
    next: Seq<IndexView>,
    n: int,
)
    ensures
        forall|i: int|
            0 <= i < table_renamed_indexes(table, previous, next, n).len() ==> (
            #[trigger] table_renamed_indexes(table, previous, next, n)[i]).table == table,
    decreases n,
{
    if n > 0 {
        lemma_table_renamed_indexes_table(table, previous, next, n - 1);
        let rest = table_renamed_indexes(table, previous, next, n - 1);
        let all = table_renamed_indexes(table, previous, next, n);
        assert forall|i: int| 0 <= i < all.len() implies (#[trigger] all[i]).table == table by {
            if i < rest.len() {
                assert(all[i] == rest[i]);
            }
        }
    }
}

/// The indexes to create for a table name that table.
pub proof fn lemma_table_created_indexes_table(table: TableView, previous: Seq<IndexView>, n: int)
    ensures
        forall|i: int|
            0 <= i < table_created_indexes(table, previous, n).len() ==> (
            #[trigger] table_created_indexes(table, previous, n)[i]).table == table,
    decreases n,
{
    if n > 0 {
        lemma_table_created_indexes_table(table, previous, n - 1);
        let rest = table_created_indexes(table, previous, n - 1);
        let all = table_created_indexes(table, previous, n);
        assert forall|i: int| 0 <= i < all.len() implies (#[trigger] all[i]).table == table by {
            if i < rest.len() {
                assert(all[i] == rest[i]);
            }
        }
    }
}

/// What the indexes to drop for the table at position `i` are.
pub open spec fn dropped_part(source: SqlSchemaView, to: SqlSchemaView, i: int) -> Seq<DropIndexView> {
    table_dropped_indexes(
        source.tables[i].name,
        source.tables[i].indices,
        indexes_of(to, source.tables[i].name),
        source.tables[i].indices.len() as int,
    )
}

/// What the indexes to rename for the table at position `i` are.
pub open spec fn renamed_part(source: SqlSchemaView, to: SqlSchemaView, i: int) -> Seq<AlterIndexView> {
    table_renamed_indexes(
        source.tables[i].name,
        source.tables[i].indices,
        indexes_of(to, source.tables[i].name),
        source.tables[i].indices.len() as int,
    )
}

/// What the indexes to create for the table at position `i` are.
pub open spec fn created_part(from: SqlSchemaView, target: SqlSchemaView, i: int) -> Seq<
    CreateIndexView,
> {
    table_created_indexes(
        target.tables[i],
        indexes_of(from, target.tables[i].name),
        target.tables[i].indices.len() as int,
    )
}

/// Of all the indexes dropped for the first `n` tables, only those of the
/// table itself matter to a table.
pub proof fn lemma_drop_indexes_phase(
    state: Option<TableContent>,
    source: SqlSchemaView,
    to: SqlSchemaView,
    table: Seq<char>,
    n: int,
)
    requires
        source.wf(),
        0 <= n <= source.tables.len(),
    ensures
        steps_at(state, drop_index_steps(dropped_indexes(source.tables, to, n)), table)
            == match source.table_index(table) {
            Some(i) => if i < n {
                steps_at(state, drop_index_steps(dropped_part(source, to, i)), table)
            } else {
                state
            },
            None => state,
        },
    decreases n,
{
    lemma_table_position(source, table);
    if n > 0 {
        lemma_drop_indexes_phase(state, source, to, table, n - 1);
        let rest = dropped_indexes(source.tables, to, n - 1);
        let part = dropped_part(source, to, n - 1);
        assert(drop_index_steps(rest + part) =~= drop_index_steps(rest) + drop_index_steps(part));
        lemma_steps_at_add(state, drop_index_steps(rest), drop_index_steps(part), table);
        lemma_table_dropped_indexes_table(
            source.tables[n - 1].name,
            source.tables[n - 1].indices,
            indexes_of(to, source.tables[n - 1].name),
            source.tables[n - 1].indices.len() as int,
        );
        if source.tables[n - 1].name != table {
            lemma_steps_at_untouched(
                steps_at(state, drop_index_steps(rest), table),
                drop_index_steps(part),
                table,
            );
        }
    } else {
        assert(drop_index_steps(dropped_indexes(source.tables, to, n)) =~= Seq::empty());
    }
}

/// Of all the indexes renamed for the first `n` tables, only those of the
/// table itself matter to a table.
pub proof fn lemma_rename_indexes_phase(
    state: Option<TableContent>,
    source: SqlSchemaView,
    to: SqlSchemaView,
    table: Seq<char>,
    n: int,
)
    requires
        source.wf(),
        0 <= n <= source.tables.len(),
    ensures
        steps_at(state, alter_index_steps(renamed_indexes(source.tables, to, n)), table)
            == match source.table_index(table) {
            Some(i) => if i < n {
                steps_at(state, alter_index_steps(renamed_part(source, to, i)), table)
            } else {
                state
            },
            None => state,
        },
    decreases n,
{
    lemma_table_position(source, table);
    if n > 0 {
        lemma_rename_indexes_phase(state, source, to, table, n - 1);
        let rest = renamed_indexes(source.tables, to, n - 1);
        let part = renamed_part(source, to, n - 1);
        assert(alter_index_steps(rest + part) =~= alter_index_steps(rest) + alter_index_steps(
            part,
        ));
        lemma_steps_at_add(state, alter_index_steps(rest), alter_index_steps(part), table);
        lemma_table_renamed_indexes_table(
            source.tables[n - 1].name,
            source.tables[n - 1].indices,
            indexes_of(to, source.tables[n - 1].name),
            source.tables[n - 1].indices.len() as int,
        );
        if source.tables[n - 1].name != table {
            lemma_steps_at_untouched(
                steps_at(state, alter_index_steps(rest), table),
                alter_index_steps(part),
                table,
            );
        }
    } else {
        assert(alter_index_steps(renamed_indexes(source.tables, to, n)) =~= Seq::empty());
    }
}

/// Of all the indexes created for the first `n` tables, only those of the
/// table itself matter to a table.
pub proof fn lemma_create_indexes_phase(
    state: Option<TableContent>,
    from: SqlSchemaView,
    target: SqlSchemaView,
    table: Seq<char>,
    n: int,
)
    requires
        target.wf(),
        0 <= n <= target.tables.len(),
    ensures
        steps_at(state, create_index_steps(created_indexes(from, target.tables, n)), table)
            == match target.table_index(table) {
            Some(i) => if i < n {
                steps_at(state, create_index_steps(created_part(from, target, i)), table)
            } else {
                state
            },
            None => state,
        },
    decreases n,
{
    lemma_table_position(target, table);
    if n > 0 {
        lemma_create_indexes_phase(state, from, target, table, n - 1);
        let rest = created_indexes(from, target.tables, n - 1);
        let part = created_part(from, target, n - 1);
        assert(create_index_steps(rest + part) =~= create_index_steps(rest) + create_index_steps(
            part,
        ));
        lemma_steps_at_add(state, create_index_steps(rest), create_index_steps(part), table);
        lemma_table_created_indexes_table(
            target.tables[n - 1],
            indexes_of(from, target.tables[n - 1].name),
            target.tables[n - 1].indices.len() as int,
        );
        if target.tables[n - 1].name != table {
            lemma_steps_at_untouched(
                steps_at(state, create_index_steps(rest), table),
                create_index_steps(part),
                table,
            );
        }
    } else {
        assert(create_index_steps(created_indexes(from, target.tables, n)) =~= Seq::empty());
    }
}

/// Dropping the tables among the first `n` that the target lacks removes a
/// table exactly if it is one of them.
pub proof fn lemma_drop_tables_phase(
    state: Option<TableContent>,
    source: SqlSchemaView,
    to: SqlSchemaView,
    table: Seq<char>,
    n: int,
)
    requires
        source.wf(),
        0 <= n <= source.tables.len(),
    ensures
        steps_at(state, drop_table_steps(dropped_tables(source.tables, to, n)), table)
            == match source.table_index(table) {
            Some(i) => if i < n && !to.has_table(table) {
                None
            } else {
                state
            },
            None => state,
        },
    decreases n,
{
    lemma_table_position(source, table);
    if n > 0 {
        lemma_drop_tables_phase(state, source, to, table, n - 1);
        let rest = dropped_tables(source.tables, to, n - 1);
        let name = source.tables[n - 1].name;
        if !to.has_table(name) {
            assert(drop_table_steps(rest.push(name)) =~= drop_table_steps(rest).push(
                StepView::DropTable(name),
            ));
            lemma_steps_at_push(state, drop_table_steps(rest), StepView::DropTable(name), table);
        }
    } else {
        assert(drop_table_steps(dropped_tables(source.tables, to, n)) =~= Seq::empty());
    }
}

/// Creating the tables among the first `n` of the target that are new puts a
/// table there exactly if it is one of them.
pub proof fn lemma_create_tables_phase(
    state: Option<TableContent>,
    from: SqlSchemaView,
    target: SqlSchemaView,
    table: Seq<char>,
    n: int,
)
    requires
        target.wf(),
        0 <= n <= target.tables.len(),
    ensures
        steps_at(state, create_table_steps(created_tables(from, target.tables, n)), table)
            == match target.table_index(table) {
            Some(i) => if i < n && !from.has_table(table) {
                Some(created_content(target.tables[i]))
            } else {
                state
            },
            None => state,
        },
    decreases n,
{
    lemma_table_position(target, table);
    if n > 0 {
        lemma_create_tables_phase(state, from, target, table, n - 1);
        let rest = created_tables(from, target.tables, n - 1);
        let created = target.tables[n - 1];
        if !from.has_table(created.name) {
            assert(create_table_steps(rest.push(created)) =~= create_table_steps(rest).push(
                StepView::CreateTable(created),
            ));
            lemma_steps_at_push(
                state,
                create_table_steps(rest),
                StepView::CreateTable(created),
                table,
            );
        }
    } else {
        assert(create_table_steps(created_tables(from, target.tables, n)) =~= Seq::empty());
    }
}

/// Altering the tables among the first `n` of the target alters a table
/// exactly if it is one of them and its columns differ.
pub proof fn lemma_alter_tables_phase(
    state: Option<TableContent>,
    from: SqlSchemaView,
    target: SqlSchemaView,
    table: Seq<char>,
    n: int,
)
    requires
        target.wf(),
        0 <= n <= target.tables.len(),
    ensures
        steps_at(state, alter_table_steps(altered_tables(from, target.tables, n)), table)
            == match target.table_index(table) {
            Some(i) => if i < n && from.table(table) is Some && column_changes(
                from.table(table)->Some_0,
                target.tables[i],
            ).len() > 0 {
                step_at(
                    state,
                    StepView::AlterTable(
                        AlterTableView {
                            table: target.tables[i],
                            changes: column_changes(from.table(table)->Some_0, target.tables[i]),
                        },
                    ),
                    table,
                )
            } else {
                state
            },
            None => state,
        },
    decreases n,
{
    lemma_table_position(target, table);
    if n > 0 {
        lemma_alter_tables_phase(state, from, target, table, n - 1);
        let rest = altered_tables(from, target.tables, n - 1);
        let altered = target.tables[n - 1];
        match from.table(altered.name) {
            Some(current) => {
                if column_changes(current, altered).len() > 0 {
                    let alter = AlterTableView {
                        table: altered,
                        changes: column_changes(current, altered),
                    };
                    assert(alter_table_steps(rest.push(alter)) =~= alter_table_steps(rest).push(
                        StepView::AlterTable(alter),
                    ));
                    lemma_steps_at_push(
                        state,
                        alter_table_steps(rest),
                        StepView::AlterTable(alter),
                        table,
                    );
                }
            },
            None => {},
        }
    } else {
        assert(alter_table_steps(altered_tables(from, target.tables, n)) =~= Seq::empty());
    }
}

/// The steps of a difference are its six kinds of steps in their order, and
/// none renames a table.
pub proof fn lemma_into_steps_phases(diff: SqlSchemaDiffView)
    ensures
        diff.into_steps() == drop_index_steps(diff.drop_indexes) + drop_table_steps(
            diff.drop_tables,
        ) + create_table_steps(diff.create_tables) + alter_table_steps(diff.alter_tables)
            + create_index_steps(diff.create_indexes) + alter_index_steps(diff.alter_indexes),
        renames_no_table(diff.into_steps()),
{
    assert(diff.into_steps() =~= drop_index_steps(diff.drop_indexes) + drop_table_steps(
        diff.drop_tables,
    ) + create_table_steps(diff.create_tables) + alter_table_steps(diff.alter_tables)
        + create_index_steps(diff.create_indexes) + alter_index_steps(diff.alter_indexes));
    let pred = |s: StepView| !(s is RenameTable);
    lemma_into_steps_all(diff, pred);
    assert forall|i: int| 0 <= i < diff.into_steps().len() implies !(
    #[trigger] diff.into_steps()[i] is RenameTable) by {
        assert(pred(diff.into_steps()[i]));
    }
}

/// What the six kinds of steps of a difference, in their order, make of a table.
pub proof fn lemma_phases_at(state: Option<TableContent>, diff: SqlSchemaDiffView, table: Seq<char>)
    ensures
        steps_at(state, diff.into_steps(), table) == steps_at(
            steps_at(
                steps_at(
                    steps_at(
                        steps_at(
                            steps_at(state, drop_index_steps(diff.drop_indexes), table),
                            drop_table_steps(diff.drop_tables),
                            table,
                        ),
                        create_table_steps(diff.create_tables),
                        table,
                    ),
                    alter_table_steps(diff.alter_tables),
                    table,
                ),
                create_index_steps(diff.create_indexes),
                table,
            ),
            alter_index_steps(diff.alter_indexes),
            table,
        ),
{
    lemma_into_steps_phases(diff);
    let a = drop_index_steps(diff.drop_indexes);
    let b = drop_table_steps(diff.drop_tables);
    let c = create_table_steps(diff.create_tables);
    let d = alter_table_steps(diff.alter_tables);
    let e = create_index_steps(diff.create_indexes);
    let f = alter_index_steps(diff.alter_indexes);
    lemma_steps_at_add(state, a, b, table);
    lemma_steps_at_add(state, a + b, c, table);
    lemma_steps_at_add(state, a + b + c, d, table);
    lemma_steps_at_add(state, a + b + c + d, e, table);
    lemma_steps_at_add(state, a + b + c + d + e, f, table);
}

/// Two contents that hold the same under every name are the same.
pub proof fn lemma_same_content(a: Map<Seq<char>, TableContent>, b: Map<Seq<char>, TableContent>)
    requires
        forall|table: Seq<char>| a.get(table) == b.get(table),
    ensures
        a == b,
{
    assert(a =~= b) by {
        assert forall|table: Seq<char>| a.dom().contains(table) == b.dom().contains(table) by {
            assert(a.get(table) == b.get(table));
        }
        assert forall|table: Seq<char>| a.dom().contains(table) implies a[table] == b[table] by {
            assert(a.get(table) == b.get(table));
        }
    }
}

/// A single step is replayed as it is.
pub proof fn lemma_apply_one_step(content: Map<Seq<char>, TableContent>, step: StepView)
    ensures
        apply_steps(content, seq![step]) == apply_step(content, step),
{
    let steps = seq![step];
    assert(steps.drop_last() =~= Seq::<StepView>::empty());
    assert(apply_steps(content, steps.drop_last()) == content);
    assert(steps.last() == step);
}

} // verus!
