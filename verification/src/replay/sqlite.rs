//! SQLite: rebuilding a table comes to altering it.

use crate::guarantees::{can_rebuild, lemma_diff_steps_can_rebuild, lemma_diff_tells_tables_apart};
use crate::replay::content::{
    apply_steps, columns_of, content_of, created_content, indexes_by_name, table_content,
    TableContent,
};
use crate::replay::indexes::{lemma_index_changes_lead_to_target, lemma_unmatched_in_nothing};
use crate::replay::plain::{lemma_after_drops, lemma_plain_steps_at, plain_table};
use crate::replay::tables::{
    alter_index_steps, alter_table_steps, create_index_steps, create_table_steps, drop_index_steps,
    drop_table_steps, lemma_apply_step_at, lemma_apply_steps_add, lemma_apply_steps_at,
    lemma_create_index_steps_at, lemma_into_steps_phases, lemma_same_content, lemma_sorted_schema,
    lemma_steps_at_add, lemma_steps_at_missing, lemma_steps_at_push, lemma_steps_at_untouched,
    lemma_table_created_indexes_table, lemma_table_position, renames_no_table, sorted_schema,
    steps_at, touches,
};
use crate::schema::{IndexView, SqlErrorView, SqlSchemaView, TableView};
use crate::search::lemma_first_where_none;
use crate::sql_database_migration_inferrer::{
    corrected_steps_spec, fix_spec, index_steps, is_suppressed, rebuild_head, rebuild_tail,
    sqlite_fix_table_spec, sqlite_walk, table_to_rebuild, temporary_name,
};
use crate::sql_migration::{
    AlterIndex, AlterTable, CreateIndex, CreateIndexView, CreateTable, StepView,
};
use crate::sql_renderer::SqlFamily;
use crate::sql_schema_differ::{
    altered_tables, created_tables, diff_spec, dropped_tables, table_created_indexes,
};
use vstd::prelude::*;

verus! {

/// The index steps of a rebuild are the creation of all indexes of the table.
pub proof fn lemma_index_steps_create_all(table: TableView, n: int)
    requires
        0 <= n <= table.indices.len(),
    ensures
        index_steps(table, n) == create_index_steps(
            table_created_indexes(table, Seq::<IndexView>::empty(), n),
        ),
    decreases n,
{
    let nothing = Seq::<IndexView>::empty();
    if n > 0 {
        lemma_index_steps_create_all(table, n - 1);
        lemma_unmatched_in_nothing(table.indices, n - 1);
        let rest = table_created_indexes(table, nothing, n - 1);
        let create = CreateIndexView { table, index: table.indices[n - 1] };
        assert(create_index_steps(rest.push(create)) =~= create_index_steps(rest).push(
            StepView::CreateIndex(create),
        ));
    } else {
        assert(create_index_steps(table_created_indexes(table, nothing, n)) =~= Seq::empty());
    }
}

/// Creating all indexes of a table that has none yet gives the table its indexes.
pub proof fn lemma_index_steps_effect(content: Map<Seq<char>, TableContent>, table: TableView)
    requires
        table.wf(),
        content.dom().contains(table.name),
        content[table.name] == created_content(table),
    ensures
        apply_steps(content, index_steps(table, table.indices.len() as int)) == content.insert(
            table.name,
            table_content(table),
        ),
{
    let nothing = Seq::<IndexView>::empty();
    let n = table.indices.len() as int;
    let steps = index_steps(table, n);
    let creates = table_created_indexes(table, nothing, n);
    lemma_index_steps_create_all(table, n);
    let result = apply_steps(content, steps);
    let expected = content.insert(table.name, table_content(table));
    assert(renames_no_table(steps));
    lemma_table_created_indexes_table(table, nothing, n);
    lemma_index_changes_lead_to_target(nothing, table);
    assert(indexes_by_name(nothing) =~= Map::<Seq<char>, IndexView>::empty()) by {
        assert forall|name: Seq<char>| !indexes_by_name(nothing).dom().contains(name) by {
            lemma_first_where_none(nothing, |x: IndexView| x.name == name);
        }
    }
    assert forall|name: Seq<char>| result.get(name) == expected.get(name) by {
        lemma_apply_steps_at(content, steps, name);
        if name == table.name {
            lemma_create_index_steps_at(created_content(table), creates, name);
        } else {
            assert forall|i: int| 0 <= i < steps.len() implies !touches(#[trigger] steps[i], name) by {
                assert(steps[i] == StepView::CreateIndex(creates[i]));
            }
            lemma_steps_at_untouched(content.get(name), steps, name);
        }
    }
    lemma_same_content(result, expected);
}

/// The name under which a table is rebuilt is not the name of the table.
pub proof fn lemma_temporary_name_differs(name: Seq<char>)
    ensures
        temporary_name(name) != name,
{
    reveal_strlit("new_");
    assert(temporary_name(name).len() == name.len() + 4);
}

/// The rebuild of a table puts the target table in the place of the
/// current one; nothing is left under the temporary name.
pub proof fn lemma_rebuild_effect(
    content: Map<Seq<char>, TableContent>,
    current: TableView,
    next: TableView,
    schema: Seq<char>,
)
    requires
        next.wf(),
        current.name == next.name,
    ensures
        apply_steps(content, fix_spec(current, next, schema)) == content.remove(
            temporary_name(next.name),
        ).insert(next.name, table_content(next)),
{
    let name = next.name;
    let temporary = temporary_name(name);
    lemma_temporary_name_differs(name);
    let head = rebuild_head(current, next);
    let indexes = index_steps(next, next.indices.len() as int);
    let tail = rebuild_tail(schema);
    let nothing = Seq::<StepView>::empty();
    let temporary_table = TableView {
        name: temporary,
        columns: next.columns,
        indices: next.indices,
        primary_key: next.primary_key,
        foreign_keys: next.foreign_keys,
    };
    assert(columns_of(temporary_table) =~= columns_of(next));
    assert(created_content(temporary_table) == created_content(next));
    // the head: create under the temporary name, drop, rename
    assert(head =~= nothing.push(head[0]).push(head[1]).push(head[2]).push(head[3]).push(head[4]));
    let h1 = nothing.push(head[0]);
    let h2 = h1.push(head[1]);
    let h3 = h2.push(head[2]);
    let h4 = h3.push(head[3]);
    let h5 = h4.push(head[4]);
    assert(h1.drop_last() =~= nothing);
    assert(h2.drop_last() =~= h1);
    assert(h3.drop_last() =~= h2);
    assert(h4.drop_last() =~= h3);
    assert(h5.drop_last() =~= h4);
    assert(apply_steps(content, nothing) == content);
    assert(apply_steps(content, h1) == content);
    let created = content.insert(temporary, created_content(next));
    assert(apply_steps(content, h2) == created);
    assert(apply_steps(content, h3) == created);
    let dropped = created.remove(name);
    assert(apply_steps(content, h4) == dropped);
    assert(dropped.dom().contains(temporary));
    let renamed_table = dropped.remove(temporary).insert(name, created_content(next));
    assert(apply_steps(content, h5) == renamed_table);
    assert(apply_steps(content, head) == renamed_table);
    // the indexes
    lemma_apply_steps_add(content, head, indexes);
    lemma_index_steps_effect(renamed_table, next);
    let indexed = renamed_table.insert(name, table_content(next));
    // the tail: two statements
    lemma_apply_steps_add(content, head + indexes, tail);
    assert(tail =~= nothing.push(tail[0]).push(tail[1]));
    let t1 = nothing.push(tail[0]);
    let t2 = t1.push(tail[1]);
    assert(t1.drop_last() =~= nothing);
    assert(t2.drop_last() =~= t1);
    assert(apply_steps(indexed, nothing) == indexed);
    assert(apply_steps(indexed, t1) == indexed);
    assert(apply_steps(indexed, t2) == indexed);
    assert(indexed =~= content.remove(temporary).insert(name, table_content(next)));
}

/// Every table to drop is one of the tables, and the target lacks it.
pub proof fn lemma_dropped_tables_names(source: SqlSchemaView, to: SqlSchemaView, n: int, k: int)
    requires
        0 <= n <= source.tables.len(),
        0 <= k < dropped_tables(source.tables, to, n).len(),
    ensures
        exists|i: int|
            0 <= i < source.tables.len() && (#[trigger] source.tables[i]).name == dropped_tables(
                source.tables,
                to,
                n,
            )[k],
        !to.has_table(dropped_tables(source.tables, to, n)[k]),
    decreases n,
{
    if n > 0 {
        let rest = dropped_tables(source.tables, to, n - 1);
        if k < rest.len() {
            lemma_dropped_tables_names(source, to, n - 1, k);
        } else {
            assert(source.tables[n - 1].name == dropped_tables(source.tables, to, n)[k]);
        }
    }
}

/// Every table to create is one of the tables of the target, and the
/// schema to start from lacks it.
pub proof fn lemma_created_tables_names(from: SqlSchemaView, target: SqlSchemaView, n: int, k: int)
    requires
        0 <= n <= target.tables.len(),
        0 <= k < created_tables(from, target.tables, n).len(),
    ensures
        exists|i: int|
            0 <= i < target.tables.len() && (#[trigger] target.tables[i]).name == created_tables(
                from,
                target.tables,
                n,
            )[k].name,
        !from.has_table(created_tables(from, target.tables, n)[k].name),
    decreases n,
{
    if n > 0 {
        let rest = created_tables(from, target.tables, n - 1);
        if k < rest.len() {
            lemma_created_tables_names(from, target, n - 1, k);
        } else {
            assert(target.tables[n - 1].name == created_tables(from, target.tables, n)[k].name);
        }
    }
}

/// No table is altered twice, and every altered table is one of the first `n`
/// tables of the target.
pub proof fn lemma_altered_tables_distinct(from: SqlSchemaView, target: SqlSchemaView, n: int)
    requires
        target.wf(),
        0 <= n <= target.tables.len(),
    ensures
        forall|k: int|
            0 <= k < altered_tables(from, target.tables, n).len() ==> exists|j: int|
                0 <= j < n && (#[trigger] altered_tables(from, target.tables, n)[k]).table.name == (
                #[trigger] target.tables[j]).name,
        forall|a: int, b: int|
            0 <= a < b < altered_tables(from, target.tables, n).len() ==> (
            #[trigger] altered_tables(from, target.tables, n)[a]).table.name != (
            #[trigger] altered_tables(from, target.tables, n)[b]).table.name,
    decreases n,
{
    if n > 0 {
        lemma_altered_tables_distinct(from, target, n - 1);
        let rest = altered_tables(from, target.tables, n - 1);
        let all = altered_tables(from, target.tables, n);
        assert forall|k: int| 0 <= k < all.len() implies exists|j: int|
            0 <= j < n && (#[trigger] all[k]).table.name == (#[trigger] target.tables[j]).name by {
            if k < rest.len() {
                assert(all[k] == rest[k]);
                let j = choose|j: int|
                    0 <= j < n - 1 && rest[k].table.name == (#[trigger] target.tables[j]).name;
                assert(0 <= j < n && all[k].table.name == target.tables[j].name);
            } else {
                assert(all[k].table.name == target.tables[n - 1].name);
            }
        }
        assert forall|a: int, b: int| 0 <= a < b < all.len() implies (#[trigger] all[a]).table.name
            != (#[trigger] all[b]).table.name by {
            assert(all[a] == rest[a]);
            if b < rest.len() {
                assert(all[b] == rest[b]);
            } else {
                let j = choose|j: int|
                    0 <= j < n - 1 && rest[a].table.name == (#[trigger] target.tables[j]).name;
                assert(target.tables[j].name != target.tables[n - 1].name);
            }
        }
    }
}

/// Behind a step that alters a table or renames one of its indexes, the
/// steps of a difference concern that table only by creating or renaming
/// its indexes.
pub proof fn lemma_later_steps_on_rebuilt_table(
    from: SqlSchemaView,
    to: SqlSchemaView,
    first: int,
    later: int,
    table: Seq<char>,
)
    requires
        from.wf(),
        to.wf(),
        0 <= first < later < diff_spec(from, to).into_steps().len(),
        diff_spec(from, to).into_steps()[first] is AlterTable || diff_spec(
            from,
            to,
        ).into_steps()[first] is AlterIndex,
        touches(diff_spec(from, to).into_steps()[first], table),
        touches(diff_spec(from, to).into_steps()[later], table),
    ensures
        diff_spec(from, to).into_steps()[later] is CreateIndex || diff_spec(
            from,
            to,
        ).into_steps()[later] is AlterIndex,
{
    let diff = diff_spec(from, to);
    let steps = diff.into_steps();
    lemma_into_steps_phases(diff);
    let a = drop_index_steps(diff.drop_indexes);
    let b = drop_table_steps(diff.drop_tables);
    let c = create_table_steps(diff.create_tables);
    let d = alter_table_steps(diff.alter_tables);
    let e = create_index_steps(diff.create_indexes);
    let f = alter_index_steps(diff.alter_indexes);
    let before_d = a.len() + b.len() + c.len();
    let before_e = before_d + d.len();
    let before_f = before_e + e.len();
    lemma_sorted_schema(to);
    lemma_altered_tables_distinct(
        from,
        sorted_schema(to),
        sorted_schema(to).tables.len() as int,
    );
    if first < a.len() {
        assert(steps[first] == a[first]);
    } else if first < a.len() + b.len() {
        assert(steps[first] == b[first - a.len()]);
    } else if first < before_d {
        assert(steps[first] == c[first - a.len() - b.len()]);
    } else if first < before_e {
        assert(steps[first] == d[first - before_d]);
        if later < before_e {
            assert(steps[later] == d[later - before_d]);
            assert(diff.alter_tables[first - before_d].table.name != diff.alter_tables[later
                - before_d].table.name);
        } else if later < before_f {
            assert(steps[later] == e[later - before_e]);
        } else {
            assert(steps[later] == f[later - before_f]);
        }
    } else if first < before_f {
        assert(steps[first] == e[first - before_e]);
    } else {
        assert(steps[first] == f[first - before_f]);
        assert(steps[later] == f[later - before_f]);
    }
}

/// One of the steps of the difference makes SQLite rebuild the table.
pub open spec fn is_rebuilt(from: SqlSchemaView, to: SqlSchemaView, table: Seq<char>) -> bool {
    exists|i: int|
        0 <= i < diff_spec(from, to).into_steps().len() && table_to_rebuild(
            #[trigger] diff_spec(from, to).into_steps()[i],
        ) == Some(table)
}

/// No table of the target bears the temporary name of a table that is rebuilt.
pub open spec fn no_temporary_names(from: SqlSchemaView, to: SqlSchemaView) -> bool {
    forall|name: Seq<char>|
        is_rebuilt(from, to, name) ==> !to.has_table(#[trigger] temporary_name(name))
}

/// Behind the steps that drop tables, a table that the target lacks is gone
/// and stays gone.
pub proof fn lemma_gone_behind_the_drops(
    from: SqlSchemaView,
    to: SqlSchemaView,
    n: int,
    table: Seq<char>,
)
    requires
        from.wf(),
        to.wf(),
        !to.has_table(table),
        0 < n <= diff_spec(from, to).into_steps().len(),
        diff_spec(from, to).into_steps()[n - 1] is AlterTable || diff_spec(
            from,
            to,
        ).into_steps()[n - 1] is AlterIndex,
    ensures
        steps_at(content_of(from).get(table), diff_spec(from, to).into_steps().take(n), table)
            is None,
{
    let diff = diff_spec(from, to);
    let steps = diff.into_steps();
    lemma_into_steps_phases(diff);
    let a = drop_index_steps(diff.drop_indexes);
    let b = drop_table_steps(diff.drop_tables);
    let c = create_table_steps(diff.create_tables);
    let d = alter_table_steps(diff.alter_tables);
    let e = create_index_steps(diff.create_indexes);
    let f = alter_index_steps(diff.alter_indexes);
    let start = (a.len() + b.len()) as int;
    let before_d = start + c.len();
    let before_e = before_d + d.len();
    let before_f = before_e + e.len();
    if n - 1 < a.len() {
        assert(steps[n - 1] == a[n - 1]);
    } else if n - 1 < start {
        assert(steps[n - 1] == b[n - 1 - a.len()]);
    } else if n - 1 < before_d {
        assert(steps[n - 1] == c[n - 1 - start]);
    }
    assert(n - 1 >= before_d);
    let rest = steps.subrange(start, n);
    assert(steps.take(n) =~= (a + b) + rest);
    let state = content_of(from).get(table);
    lemma_steps_at_add(state, a + b, rest, table);
    lemma_steps_at_add(state, a, b, table);
    lemma_after_drops(from, to, table);
    lemma_diff_tells_tables_apart(from, to);
    assert forall|i: int| 0 <= i < rest.len() implies !(#[trigger] rest[i] is CreateTable && touches(
        rest[i],
        table,
    )) by {
        let at = start + i;
        assert(rest[i] == steps[at]);
        if at < before_d {
            assert(steps[at] == c[at - start]);
            assert(to.has_table(diff.create_tables[at - start].name));
        } else if at < before_e {
            assert(steps[at] == d[at - before_d]);
        } else if at < before_f {
            assert(steps[at] == e[at - before_e]);
        } else {
            assert(steps[at] == f[at - before_f]);
        }
    }
    lemma_steps_at_missing(rest, table);
}

/// One of the first `n` steps alters the table or renames one of its indexes.
pub open spec fn rebuilt_before(steps: Seq<StepView>, n: int, table: Seq<char>) -> bool {
    exists|i: int|
        0 <= i < n && ((#[trigger] steps[i]) is AlterTable || steps[i] is AlterIndex) && touches(
            steps[i],
            table,
        )
}

/// One of the first `n` steps makes SQLite rebuild the table.
pub open spec fn rebuilt_among(steps: Seq<StepView>, n: int, table: Seq<char>) -> bool {
    exists|i: int| 0 <= i < n && table_to_rebuild(#[trigger] steps[i]) == Some(table)
}

/// After the walk over the first `n` steps of the difference, the tables
/// rebuilt so far are those that one of the steps makes SQLite rebuild, a
/// table that was rebuilt is as the target has it, and any other table is
/// as the first `n` steps themselves make it.
pub open spec fn walk_agrees(
    from: SqlSchemaView,
    to: SqlSchemaView,
    schema: Seq<char>,
    n: int,
    table: Seq<char>,
) -> bool {
    let steps = diff_spec(from, to).into_steps();
    match sqlite_walk(steps, from, to, schema, n) {
        Ok(walk) => {
            let effect = apply_steps(content_of(from), walk.steps).get(table);
            walk.fixed_tables.contains(table) == rebuilt_among(steps, n, table) && if walk.fixed_tables.contains(
                table,
            ) {
                &&& effect == content_of(to).get(table)
                &&& from.has_table(table)
                &&& to.has_table(table)
                &&& rebuilt_before(steps, n, table)
            } else {
                effect == steps_at(content_of(from).get(table), steps.take(n), table)
            }
        },
        Err(_) => false,
    }
}

/// A list with one more name holds the names it held and that name.
pub proof fn lemma_push_contains(names: Seq<Seq<char>>, more: Seq<char>, name: Seq<char>)
    ensures
        names.push(more).contains(name) == (names.contains(name) || name == more),
{
    let all = names.push(more);
    if names.contains(name) {
        let i = choose|i: int| 0 <= i < names.len() && names[i] == name;
        assert(all[i] == name);
    }
    if name == more {
        assert(all[names.len() as int] == name);
    }
    if all.contains(name) {
        let i = choose|i: int| 0 <= i < all.len() && all[i] == name;
        if i < names.len() {
            assert(names[i] == name);
        }
    }
}

/// The walk over the first `n` steps of a difference succeeds and agrees with
/// the steps on every table.
pub proof fn lemma_walk_agrees(from: SqlSchemaView, to: SqlSchemaView, schema: Seq<char>, n: int)
    requires
        from.wf(),
        to.wf(),
        no_temporary_names(from, to),
        0 <= n <= diff_spec(from, to).into_steps().len(),
    ensures
        sqlite_walk(diff_spec(from, to).into_steps(), from, to, schema, n) is Ok,
        forall|table: Seq<char>| #[trigger] walk_agrees(from, to, schema, n, table),
    decreases n,
{
    let steps = diff_spec(from, to).into_steps();
    let start = content_of(from);
    if n == 0 {
        assert(steps.take(0) =~= Seq::<StepView>::empty());
        assert forall|table: Seq<char>| #[trigger] walk_agrees(from, to, schema, n, table) by {
            let walk = sqlite_walk(steps, from, to, schema, n)->Ok_0;
            assert(walk.steps =~= Seq::<StepView>::empty());
            assert(!walk.fixed_tables.contains(table));
        }
    } else {
        lemma_walk_agrees(from, to, schema, n - 1);
        let step = steps[n - 1];
        let before = sqlite_walk(steps, from, to, schema, n - 1)->Ok_0;
        let reached = apply_steps(start, before.steps);
        lemma_diff_steps_can_rebuild(from, to);
        assert(can_rebuild(from, to, step)) by {
            assert((|s: StepView| can_rebuild(from, to, s))(steps[n - 1]));
        }
        lemma_into_steps_phases(diff_spec(from, to));
        assert(steps.take(n) =~= steps.take(n - 1).push(step));
        match table_to_rebuild(step) {
            Some(rebuilt) => {
                lemma_table_position(from, rebuilt);
                lemma_table_position(to, rebuilt);
                let current = from.table(rebuilt)->Some_0;
                let next = to.table(rebuilt)->Some_0;
                let rebuild = fix_spec(current, next, schema);
                assert(sqlite_fix_table_spec(from, to, rebuilt, schema) == Ok::<
                    Seq<StepView>,
                    SqlErrorView,
                >(rebuild));
                let walk = sqlite_walk(steps, from, to, schema, n)->Ok_0;
                assert(walk.steps == before.steps + rebuild);
                assert(walk.fixed_tables == before.fixed_tables.push(rebuilt));
                lemma_apply_steps_add(start, before.steps, rebuild);
                lemma_rebuild_effect(reached, current, next, schema);
                let temporary = temporary_name(rebuilt);
                lemma_temporary_name_differs(rebuilt);
                assert(is_rebuilt(from, to, rebuilt)) by {
                    assert(table_to_rebuild(steps[n - 1]) == Some(rebuilt));
                }
                assert(!to.has_table(temporary));
                assert(touches(step, rebuilt));
                assert(steps[n - 1] is AlterTable || steps[n - 1] is AlterIndex);
                assert forall|table: Seq<char>| #[trigger]
                    walk_agrees(from, to, schema, n, table) by {
                    assert(walk_agrees(from, to, schema, n - 1, table));
                    lemma_push_contains(before.fixed_tables, rebuilt, table);
                    lemma_steps_at_push(start.get(table), steps.take(n - 1), step, table);
                    if table == rebuilt {
                        assert(steps[n - 1] is AlterTable || steps[n - 1] is AlterIndex);
                    } else if before.fixed_tables.contains(table) {
                        let i = choose|i: int|
                            0 <= i < n - 1 && ((#[trigger] steps[i]) is AlterTable
                                || steps[i] is AlterIndex) && touches(steps[i], table);
                        assert(0 <= i < n && (steps[i] is AlterTable || steps[i] is AlterIndex)
                            && touches(steps[i], table));
                    } else if table == temporary {
                        lemma_gone_behind_the_drops(from, to, n, table);
                    } else {
                        assert(!touches(step, table));
                    }
                }
            },
            None => {
                if is_suppressed(step, before.fixed_tables) {
                    assert forall|table: Seq<char>| #[trigger]
                        walk_agrees(from, to, schema, n, table) by {
                        assert(walk_agrees(from, to, schema, n - 1, table));
                        lemma_steps_at_push(start.get(table), steps.take(n - 1), step, table);
                        if before.fixed_tables.contains(table) {
                            let i = choose|i: int|
                                0 <= i < n - 1 && ((#[trigger] steps[i]) is AlterTable
                                    || steps[i] is AlterIndex) && touches(steps[i], table);
                            assert(0 <= i < n && (steps[i] is AlterTable
                                || steps[i] is AlterIndex) && touches(steps[i], table));
                        }
                    }
                } else {
                    let walk = sqlite_walk(steps, from, to, schema, n)->Ok_0;
                    assert(walk.steps == before.steps.push(step));
                    assert(walk.steps.drop_last() =~= before.steps);
                    assert(!(steps[n - 1] is RenameTable));
                    assert forall|table: Seq<char>| #[trigger]
                        walk_agrees(from, to, schema, n, table) by {
                        assert(walk_agrees(from, to, schema, n - 1, table));
                        lemma_steps_at_push(start.get(table), steps.take(n - 1), step, table);
                        lemma_apply_step_at(reached, step, table);
                        if before.fixed_tables.contains(table) {
                            let i = choose|i: int|
                                0 <= i < n - 1 && ((#[trigger] steps[i]) is AlterTable
                                    || steps[i] is AlterIndex) && touches(steps[i], table);
                            assert(0 <= i < n && (steps[i] is AlterTable
                                || steps[i] is AlterIndex) && touches(steps[i], table));
                            if touches(step, table) {
                                lemma_later_steps_on_rebuilt_table(from, to, i, n - 1, table);
                            }
                        }
                    }
                }
            },
        }
    }
}

/// What the steps corrected for SQLite make of the table called `table`:
/// a table that is rebuilt is as the target has it, with its columns in
/// their order and its keys; any other table is what the steps of the
/// difference make of it.
pub open spec fn sqlite_table(from: SqlSchemaView, to: SqlSchemaView, table: Seq<char>) -> Option<
    TableContent,
> {
    if is_rebuilt(from, to, table) {
        content_of(to).get(table)
    } else {
        plain_table(from, to, table)
    }
}

/// What the steps corrected for SQLite make of the schema `from`.
pub open spec fn sqlite_content(from: SqlSchemaView, to: SqlSchemaView) -> Map<
    Seq<char>,
    TableContent,
> {
    Map::new(
        |table: Seq<char>| sqlite_table(from, to, table) is Some,
        |table: Seq<char>| sqlite_table(from, to, table)->Some_0,
    )
}

/// On SQLite the corrected steps lead from the content of the current
/// schema to the tables of the target, each rebuilt, made anew or changed in
/// place, for well-formed schemas where no table of the target bears the
/// temporary name of a table that is rebuilt.
pub proof fn lemma_sqlite_steps_lead_to_target(
    from: SqlSchemaView,
    to: SqlSchemaView,
    schema: Seq<char>,
)
    requires
        from.wf(),
        to.wf(),
        no_temporary_names(from, to),
    ensures
        corrected_steps_spec(from, to, schema, SqlFamily::Sqlite) is Ok,
        apply_steps(
            content_of(from),
            corrected_steps_spec(from, to, schema, SqlFamily::Sqlite)->Ok_0,
        ) == sqlite_content(from, to),
{
    let steps = diff_spec(from, to).into_steps();
    let n = steps.len() as int;
    lemma_walk_agrees(from, to, schema, n);
    let walk = sqlite_walk(steps, from, to, schema, n)->Ok_0;
    let result = apply_steps(content_of(from), walk.steps);
    assert(steps.take(n) =~= steps);
    assert forall|table: Seq<char>| result.get(table) == sqlite_content(from, to).get(table) by {
        assert(walk_agrees(from, to, schema, n, table));
        assert(rebuilt_among(steps, n, table) == is_rebuilt(from, to, table));
        lemma_plain_steps_at(from, to, table);
    }
    lemma_same_content(result, sqlite_content(from, to));
}

} // verus!
