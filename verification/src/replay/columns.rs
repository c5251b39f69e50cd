//! Columns: the changes between two tables turn the columns of the one into
//! the columns of the other, and they do not get in each other's way.

use crate::replay::content::{
    added_entry, alters_in_place, apply_changes, columns_of, entry_of, ColumnEntry,
};
use crate::schema::{ColumnView, TableView};
use crate::search::{first_where, lemma_first_where, lemma_first_where_none, lemma_first_where_push};
use crate::sql_database_migration_inferrer::{
    delayed_columns, is_delayed, kept_columns, pruned_table,
};
use crate::sql_migration::{AddColumn, AlterColumn, DropColumn, TableChangeView};
use crate::sql_schema_differ::{
    added_columns, altered_columns, column_change, column_changes, dropped_columns,
};
use vstd::prelude::*;

verus! {

/// What a change of an `AlterTable` for `table` makes of the column called
/// `name`.
pub open spec fn change_at(
    state: Option<ColumnEntry>,
    table: TableView,
    change: TableChangeView,
    name: Seq<char>,
) -> Option<ColumnEntry> {
    match change {
        TableChangeView::AddColumn { column } => if column.name == name {
            Some(added_entry(table, column))
        } else {
            state
        },
        TableChangeView::DropColumn { name: dropped } => if dropped == name {
            None
        } else {
            state
        },
        TableChangeView::AlterColumn { name: altered, column, change } => if alters_in_place(
            change,
        ) {
            if altered == name {
                match state {
                    Some(entry) => Some(ColumnEntry { column, reference: entry.reference }),
                    None => None,
                }
            } else {
                state
            }
        } else if column.name == name {
            Some(added_entry(table, column))
        } else if altered == name {
            None
        } else {
            state
        },
    }
}

/// What the changes make of the column called `name`.
pub open spec fn changes_at(
    state: Option<ColumnEntry>,
    table: TableView,
    changes: Seq<TableChangeView>,
    name: Seq<char>,
) -> Option<ColumnEntry>
    decreases changes.len(),
{
    if changes.len() == 0 {
        state
    } else {
        change_at(changes_at(state, table, changes.drop_last(), name), table, changes.last(), name)
    }
}

/// What the changes do to the columns is, name by name, what they make of the
/// column of that name.
pub proof fn lemma_apply_changes_at(
    columns: Map<Seq<char>, ColumnEntry>,
    table: TableView,
    changes: Seq<TableChangeView>,
    name: Seq<char>,
)
    ensures
        apply_changes(columns, table, changes).get(name) == changes_at(
            columns.get(name),
            table,
            changes,
            name,
        ),
    decreases changes.len(),
{
    if changes.len() > 0 {
        lemma_apply_changes_at(columns, table, changes.drop_last(), name);
    }
}

/// One more change is applied after the others.
pub proof fn lemma_changes_at_push(
    state: Option<ColumnEntry>,
    table: TableView,
    changes: Seq<TableChangeView>,
    change: TableChangeView,
    name: Seq<char>,
)
    ensures
        changes_at(state, table, changes.push(change), name) == change_at(
            changes_at(state, table, changes, name),
            table,
            change,
            name,
        ),
{
    assert(changes.push(change).drop_last() =~= changes);
}

/// Changes in two parts are applied part after part.
pub proof fn lemma_changes_at_add(
    state: Option<ColumnEntry>,
    table: TableView,
    first: Seq<TableChangeView>,
    second: Seq<TableChangeView>,
    name: Seq<char>,
)
    ensures
        changes_at(state, table, first + second, name) == changes_at(
            changes_at(state, table, first, name),
            table,
            second,
            name,
        ),
    decreases second.len(),
{
    if second.len() == 0 {
        assert(first + second =~= first);
    } else {
        lemma_changes_at_add(state, table, first, second.drop_last(), name);
        assert((first + second).drop_last() =~= first + second.drop_last());
    }
}

/// Where the column called `name` stands in a table with distinct column
/// names: there, and nowhere else.
pub proof fn lemma_column_position(table: TableView, name: Seq<char>)
    requires
        table.wf(),
    ensures
        match table.column_index(name) {
            Some(i) => 0 <= i < table.columns.len() && table.columns[i].name == name
                && table.column(name) == Some(table.columns[i]) && forall|j: int|
                0 <= j < table.columns.len() && j != i ==> (#[trigger] table.columns[j]).name
                    != name,
            None => table.column(name) is None && forall|j: int|
                0 <= j < table.columns.len() ==> (#[trigger] table.columns[j]).name != name,
        },
{
    let p = |c: ColumnView| c.name == name;
    lemma_first_where(table.columns, p);
    match table.column_index(name) {
        Some(i) => {
            assert forall|j: int| 0 <= j < table.columns.len() && j != i implies (
            #[trigger] table.columns[j]).name != name by {
                if j < i {
                    assert(!p(table.columns[j]));
                } else {
                    assert(table.columns[i].name != table.columns[j].name);
                }
            }
        },
        None => {
            assert forall|j: int| 0 <= j < table.columns.len() implies (
            #[trigger] table.columns[j]).name != name by {
                assert(!p(table.columns[j]));
            }
        },
    }
}

/// The drops among the first `n` columns remove the column called `name`
/// exactly if it is one of them and the target lacks it.
pub proof fn lemma_dropped_columns_at(
    state: Option<ColumnEntry>,
    current: TableView,
    next: TableView,
    name: Seq<char>,
    n: int,
)
    requires
        current.wf(),
        0 <= n <= current.columns.len(),
    ensures
        changes_at(state, next, dropped_columns(current, next, n), name)
            == match current.column_index(name) {
            Some(i) => if i < n && !next.has_column(name) {
                None
            } else {
                state
            },
            None => state,
        },
    decreases n,
{
    lemma_column_position(current, name);
    if n > 0 {
        lemma_dropped_columns_at(state, current, next, name, n - 1);
        let column = current.columns[n - 1];
        if !next.has_column(column.name) {
            lemma_changes_at_push(
                state,
                next,
                dropped_columns(current, next, n - 1),
                TableChangeView::DropColumn { name: column.name },
                name,
            );
        }
    }
}

/// The additions among the first `n` columns of the target put the column
/// called `name` there, with the foreign key of the target, exactly if it is
/// one of them and the current table lacks it.
pub proof fn lemma_added_columns_at(
    state: Option<ColumnEntry>,
    current: TableView,
    next: TableView,
    name: Seq<char>,
    n: int,
)
    requires
        next.wf(),
        0 <= n <= next.columns.len(),
    ensures
        changes_at(state, next, added_columns(current, next, n), name) == match next.column_index(
            name,
        ) {
            Some(i) => if i < n && !current.has_column(name) {
                Some(entry_of(next, name))
            } else {
                state
            },
            None => state,
        },
    decreases n,
{
    lemma_column_position(next, name);
    if n > 0 {
        lemma_added_columns_at(state, current, next, name, n - 1);
        let column = next.columns[n - 1];
        if !current.has_column(column.name) {
            lemma_changes_at_push(
                state,
                next,
                added_columns(current, next, n - 1),
                TableChangeView::AddColumn { column },
                name,
            );
        }
    }
}

/// What the alteration of the column called `name` makes of it: altered in
/// place it keeps its foreign key, dropped and added again it gets the one
/// of the target.
pub open spec fn altered_entry(
    state: Option<ColumnEntry>,
    previous: ColumnView,
    next: TableView,
    name: Seq<char>,
) -> Option<ColumnEntry> {
    if alters_in_place(column_change(previous, next.column(name)->Some_0)) {
        match state {
            Some(entry) => Some(
                ColumnEntry { column: next.column(name)->Some_0, reference: entry.reference },
            ),
            None => None,
        }
    } else {
        Some(entry_of(next, name))
    }
}

/// The alterations among the first `n` columns of the target alter the
/// column called `name` exactly if it is one of them and differs from the
/// column that the current table has under that name.
pub proof fn lemma_altered_columns_at(
    state: Option<ColumnEntry>,
    current: TableView,
    next: TableView,
    name: Seq<char>,
    n: int,
)
    requires
        next.wf(),
        0 <= n <= next.columns.len(),
    ensures
        changes_at(state, next, altered_columns(current, next, n), name)
            == match next.column_index(name) {
            Some(i) => if i < n && current.column(name) is Some && current.column(
                name,
            )->Some_0.differs_from(next.columns[i]) {
                altered_entry(state, current.column(name)->Some_0, next, name)
            } else {
                state
            },
            None => state,
        },
    decreases n,
{
    lemma_column_position(next, name);
    if n > 0 {
        lemma_altered_columns_at(state, current, next, name, n - 1);
        let column = next.columns[n - 1];
        match current.column(column.name) {
            Some(previous) => {
                if previous.differs_from(column) {
                    lemma_changes_at_push(
                        state,
                        next,
                        altered_columns(current, next, n - 1),
                        TableChangeView::AlterColumn {
                            name: column.name,
                            column,
                            change: column_change(previous, column),
                        },
                        name,
                    );
                }
            },
            None => {},
        }
    }
}

/// What the changes between two tables make of the column called `name`:
/// a column of the target that is new, or dropped and added again, is as the
/// target has it; a column that stays where it stands gets the definition of
/// the target and keeps the foreign key that it has in the current table.
pub open spec fn reached_entry(current: TableView, next: TableView, name: Seq<char>) -> ColumnEntry {
    match current.column(name) {
        Some(previous) => if previous.differs_from(next.column(name)->Some_0) && !alters_in_place(
            column_change(previous, next.column(name)->Some_0),
        ) {
            entry_of(next, name)
        } else {
            ColumnEntry {
                column: next.column(name)->Some_0,
                reference: current.foreign_key_for_column(name),
            }
        },
        None => entry_of(next, name),
    }
}

/// The columns that the changes between two tables lead to: the columns of
/// the target, each with the foreign key that `reached_entry` gives it.
pub open spec fn reached_columns(current: TableView, next: TableView) -> Map<Seq<char>, ColumnEntry> {
    Map::new(
        |name: Seq<char>| next.has_column(name),
        |name: Seq<char>| reached_entry(current, next, name),
    )
}

/// Every column that both tables have is constrained by the same foreign
/// key in both, or by none.
pub open spec fn keeps_references(current: TableView, next: TableView) -> bool {
    forall|name: Seq<char>|
        current.has_column(name) && next.has_column(name) ==> #[trigger] current.foreign_key_for_column(
            name,
        ) == next.foreign_key_for_column(name)
}

/// The changes between two well-formed tables turn the columns of the one
/// into the columns of the other. A column that stays where it stands keeps
/// its foreign key.
pub proof fn lemma_column_changes_lead_to_target(current: TableView, next: TableView)
    requires
        current.wf(),
        next.wf(),
    ensures
        apply_changes(columns_of(current), next, column_changes(current, next)) == reached_columns(
            current,
            next,
        ),
        keeps_references(current, next) ==> reached_columns(current, next) == columns_of(next),
{
    let dropped = dropped_columns(current, next, current.columns.len() as int);
    let added = added_columns(current, next, next.columns.len() as int);
    let altered = altered_columns(current, next, next.columns.len() as int);
    let result = apply_changes(columns_of(current), next, column_changes(current, next));
    assert forall|name: Seq<char>| result.get(name) == reached_columns(current, next).get(name) by {
        lemma_apply_changes_at(columns_of(current), next, column_changes(current, next), name);
        let start = columns_of(current).get(name);
        lemma_changes_at_add(start, next, dropped + added, altered, name);
        lemma_changes_at_add(start, next, dropped, added, name);
        lemma_dropped_columns_at(start, current, next, name, current.columns.len() as int);
        let after_drops = changes_at(start, next, dropped, name);
        lemma_added_columns_at(after_drops, current, next, name, next.columns.len() as int);
        let after_adds = changes_at(after_drops, next, added, name);
        lemma_altered_columns_at(after_adds, current, next, name, next.columns.len() as int);
        lemma_column_position(current, name);
        lemma_column_position(next, name);
    }
    lemma_same_columns(result, reached_columns(current, next));
    if keeps_references(current, next) {
        assert forall|name: Seq<char>| reached_columns(current, next).get(name) == columns_of(
            next,
        ).get(name) by {
            if current.has_column(name) && next.has_column(name) {
                assert(current.foreign_key_for_column(name) == next.foreign_key_for_column(name));
            }
        }
        lemma_same_columns(reached_columns(current, next), columns_of(next));
    }
}

/// The column called `name` among those of the first `n` columns that are kept.
pub proof fn lemma_kept_column(created: Seq<Seq<char>>, table: TableView, name: Seq<char>, n: int)
    requires
        table.wf(),
        0 <= n <= table.columns.len(),
    ensures
        ({
            let kept = kept_columns(created, table, n);
            let found = first_where(kept, |c: ColumnView| c.name == name);
            match table.column_index(name) {
                Some(i) => if i < n && !is_delayed(created, table, table.columns[i]) {
                    found is Some && kept[found->Some_0] == table.columns[i]
                } else {
                    found is None
                },
                None => found is None,
            }
        }),
    decreases n,
{
    let p = |c: ColumnView| c.name == name;
    lemma_column_position(table, name);
    if n > 0 {
        lemma_kept_column(created, table, name, n - 1);
        let rest = kept_columns(created, table, n - 1);
        if !is_delayed(created, table, table.columns[n - 1]) {
            lemma_first_where_push(rest, p, table.columns[n - 1]);
            lemma_first_where(rest, p);
        }
    } else {
        lemma_first_where_none(kept_columns(created, table, n), p);
    }
}

/// The additions of the columns among the first `n` that had to wait put the
/// column called `name` there exactly if it is one of them.
pub proof fn lemma_delayed_columns_at(
    state: Option<ColumnEntry>,
    created: Seq<Seq<char>>,
    table: TableView,
    name: Seq<char>,
    n: int,
)
    requires
        table.wf(),
        0 <= n <= table.columns.len(),
    ensures
        changes_at(
            state,
            pruned_table(created, table),
            delayed_columns(created, table, n),
            name,
        ) == match table.column_index(name) {
            Some(i) => if i < n && is_delayed(created, table, table.columns[i]) {
                Some(entry_of(table, name))
            } else {
                state
            },
            None => state,
        },
    decreases n,
{
    lemma_column_position(table, name);
    let pruned = pruned_table(created, table);
    assert(pruned.foreign_key_for_column(name) == table.foreign_key_for_column(name));
    if n > 0 {
        lemma_delayed_columns_at(state, created, table, name, n - 1);
        let column = table.columns[n - 1];
        if is_delayed(created, table, column) {
            lemma_changes_at_push(
                state,
                pruned,
                delayed_columns(created, table, n - 1),
                TableChangeView::AddColumn { column },
                name,
            );
        }
    }
}

/// A table created without the columns that have to wait has all its
/// columns, each with its foreign key, once those are added.
pub proof fn lemma_delayed_columns_complete_the_table(created: Seq<Seq<char>>, table: TableView)
    requires
        table.wf(),
    ensures
        apply_changes(
            columns_of(pruned_table(created, table)),
            pruned_table(created, table),
            delayed_columns(created, table, table.columns.len() as int),
        ) == columns_of(table),
{
    let pruned = pruned_table(created, table);
    let delayed = delayed_columns(created, table, table.columns.len() as int);
    let result = apply_changes(columns_of(pruned), pruned, delayed);
    assert forall|name: Seq<char>| result.get(name) == columns_of(table).get(name) by {
        lemma_apply_changes_at(columns_of(pruned), pruned, delayed, name);
        lemma_kept_column(created, table, name, table.columns.len() as int);
        lemma_delayed_columns_at(
            columns_of(pruned).get(name),
            created,
            table,
            name,
            table.columns.len() as int,
        );
        lemma_column_position(table, name);
        assert(pruned.foreign_key_for_column(name) == table.foreign_key_for_column(name));
    }
    lemma_same_columns(result, columns_of(table));
}

/// The name of the column that a change is about.
pub open spec fn change_target(change: TableChangeView) -> Seq<char> {
    match change {
        TableChangeView::AddColumn { column } => column.name,
        TableChangeView::DropColumn { name } => name,
        TableChangeView::AlterColumn { name, column, change } => name,
    }
}

/// A change that alters a column leaves the column its name.
pub open spec fn keeps_name(change: TableChangeView) -> bool {
    match change {
        TableChangeView::AlterColumn { name, column, change } => name == column.name,
        _ => true,
    }
}

/// No two of the changes are about the same column, and none renames a column.
pub open spec fn independent_changes(changes: Seq<TableChangeView>) -> bool {
    &&& forall|i: int, j: int|
        0 <= i < j < changes.len() ==> change_target(#[trigger] changes[i]) != change_target(
            #[trigger] changes[j],
        )
    &&& forall|i: int| 0 <= i < changes.len() ==> keeps_name(#[trigger] changes[i])
}

/// The position of the change that is about the column called `name`.
pub open spec fn targeting(changes: Seq<TableChangeView>, name: Seq<char>) -> Option<int> {
    first_where(changes, |c: TableChangeView| change_target(c) == name)
}

/// Where the change about the column called `name` stands among independent
/// changes: there, and nowhere else.
pub proof fn lemma_targeting(changes: Seq<TableChangeView>, name: Seq<char>)
    requires
        independent_changes(changes),
    ensures
        match targeting(changes, name) {
            Some(j) => 0 <= j < changes.len() && change_target(changes[j]) == name && forall|i: int|
                0 <= i < changes.len() && i != j ==> change_target(#[trigger] changes[i]) != name,
            None => forall|i: int|
                0 <= i < changes.len() ==> change_target(#[trigger] changes[i]) != name,
        },
{
    let p = |c: TableChangeView| change_target(c) == name;
    lemma_first_where(changes, p);
    match targeting(changes, name) {
        Some(j) => {
            assert forall|i: int| 0 <= i < changes.len() && i != j implies change_target(
                #[trigger] changes[i],
            ) != name by {
                if i < j {
                    assert(!p(changes[i]));
                } else {
                    assert(change_target(changes[j]) != change_target(changes[i]));
                }
            }
        },
        None => {
            assert forall|i: int| 0 <= i < changes.len() implies change_target(
                #[trigger] changes[i],
            ) != name by {
                assert(!p(changes[i]));
            }
        },
    }
}

/// Among independent changes only the one about a column decides what
/// becomes of the column.
pub proof fn lemma_changes_at_independent(
    state: Option<ColumnEntry>,
    table: TableView,
    changes: Seq<TableChangeView>,
    name: Seq<char>,
)
    requires
        independent_changes(changes),
    ensures
        changes_at(state, table, changes, name) == match targeting(changes, name) {
            Some(j) => change_at(state, table, changes[j], name),
            None => state,
        },
    decreases changes.len(),
{
    lemma_targeting(changes, name);
    if changes.len() > 0 {
        let init = changes.drop_last();
        assert(independent_changes(init)) by {
            assert forall|i: int, j: int| 0 <= i < j < init.len() implies change_target(
                #[trigger] init[i],
            ) != change_target(#[trigger] init[j]) by {
                assert(change_target(changes[i]) != change_target(changes[j]));
            }
            assert forall|i: int| 0 <= i < init.len() implies keeps_name(#[trigger] init[i]) by {
                assert(keeps_name(changes[i]));
            }
        }
        lemma_changes_at_independent(state, table, init, name);
        lemma_targeting(init, name);
        let last = changes.len() - 1;
        assert(keeps_name(changes[last]));
        match targeting(init, name) {
            Some(j) => {
                assert(init[j] == changes[j]);
                assert(change_target(changes[j]) == name);
            },
            None => {
                if change_target(changes[last]) != name {
                    assert forall|i: int| 0 <= i < changes.len() implies change_target(
                        #[trigger] changes[i],
                    ) != name by {
                        if i < last {
                            assert(init[i] == changes[i]);
                        }
                    }
                }
            },
        }
    }
}

/// The columns that the changes are about are among the first `n` of `columns`.
pub open spec fn targets_among(changes: Seq<TableChangeView>, columns: Seq<ColumnView>, n: int) -> bool {
    forall|k: int|
        0 <= k < changes.len() ==> exists|j: int|
            0 <= j < n && change_target(#[trigger] changes[k]) == (#[trigger] columns[j]).name
}

/// The drops are independent, they concern columns of the current table, and
/// the target has none of those columns.
pub proof fn lemma_dropped_columns_independent(current: TableView, next: TableView, n: int)
    requires
        current.wf(),
        0 <= n <= current.columns.len(),
    ensures
        independent_changes(dropped_columns(current, next, n)),
        targets_among(dropped_columns(current, next, n), current.columns, n),
        forall|k: int|
            0 <= k < dropped_columns(current, next, n).len() ==> !next.has_column(
                change_target(#[trigger] dropped_columns(current, next, n)[k]),
            ),
    decreases n,
{
    if n > 0 {
        lemma_dropped_columns_independent(current, next, n - 1);
        let rest = dropped_columns(current, next, n - 1);
        let all = dropped_columns(current, next, n);
        let column = current.columns[n - 1];
        assert forall|k: int| 0 <= k < all.len() implies exists|j: int|
            0 <= j < n && change_target(#[trigger] all[k]) == (#[trigger] current.columns[j]).name by {
            if k < rest.len() {
                assert(all[k] == rest[k]);
                let j = choose|j: int|
                    0 <= j < n - 1 && change_target(rest[k]) == (#[trigger] current.columns[j]).name;
                assert(0 <= j < n && change_target(all[k]) == current.columns[j].name);
            } else {
                assert(change_target(all[k]) == current.columns[n - 1].name);
            }
        }
        assert forall|i: int, j: int| 0 <= i < j < all.len() implies change_target(
            #[trigger] all[i],
        ) != change_target(#[trigger] all[j]) by {
            assert(all[i] == rest[i]);
            if j < rest.len() {
                assert(all[j] == rest[j]);
            } else {
                let a = choose|a: int|
                    0 <= a < n - 1 && change_target(rest[i]) == (#[trigger] current.columns[a]).name;
                assert(current.columns[a].name != current.columns[n - 1].name);
            }
        }
        assert forall|i: int| 0 <= i < all.len() implies keeps_name(#[trigger] all[i]) by {
            if i < rest.len() {
                assert(all[i] == rest[i]);
            }
        }
        assert forall|k: int| 0 <= k < all.len() implies !next.has_column(
            change_target(#[trigger] all[k]),
        ) by {
            if k < rest.len() {
                assert(all[k] == rest[k]);
            }
        }
    }
}

/// The additions are independent, they concern columns of the target, and
/// the current table has none of those columns.
pub proof fn lemma_added_columns_independent(current: TableView, next: TableView, n: int)
    requires
        next.wf(),
        0 <= n <= next.columns.len(),
    ensures
        independent_changes(added_columns(current, next, n)),
        targets_among(added_columns(current, next, n), next.columns, n),
        forall|k: int|
            0 <= k < added_columns(current, next, n).len() ==> !current.has_column(
                change_target(#[trigger] added_columns(current, next, n)[k]),
            ),
    decreases n,
{
    if n > 0 {
        lemma_added_columns_independent(current, next, n - 1);
        let rest = added_columns(current, next, n - 1);
        let all = added_columns(current, next, n);
        assert forall|k: int| 0 <= k < all.len() implies exists|j: int|
            0 <= j < n && change_target(#[trigger] all[k]) == (#[trigger] next.columns[j]).name by {
            if k < rest.len() {
                assert(all[k] == rest[k]);
                let j = choose|j: int|
                    0 <= j < n - 1 && change_target(rest[k]) == (#[trigger] next.columns[j]).name;
                assert(0 <= j < n && change_target(all[k]) == next.columns[j].name);
            } else {
                assert(change_target(all[k]) == next.columns[n - 1].name);
            }
        }
        assert forall|i: int, j: int| 0 <= i < j < all.len() implies change_target(
            #[trigger] all[i],
        ) != change_target(#[trigger] all[j]) by {
            assert(all[i] == rest[i]);
            if j < rest.len() {
                assert(all[j] == rest[j]);
            } else {
                let a = choose|a: int|
                    0 <= a < n - 1 && change_target(rest[i]) == (#[trigger] next.columns[a]).name;
                assert(next.columns[a].name != next.columns[n - 1].name);
            }
        }
        assert forall|i: int| 0 <= i < all.len() implies keeps_name(#[trigger] all[i]) by {
            if i < rest.len() {
                assert(all[i] == rest[i]);
            }
        }
        assert forall|k: int| 0 <= k < all.len() implies !current.has_column(
            change_target(#[trigger] all[k]),
        ) by {
            if k < rest.len() {
                assert(all[k] == rest[k]);
            }
        }
    }
}

/// The alterations are independent, they concern columns of the target, and
/// the current table has each of those columns.
pub proof fn lemma_altered_columns_independent(current: TableView, next: TableView, n: int)
    requires
        next.wf(),
        0 <= n <= next.columns.len(),
    ensures
        independent_changes(altered_columns(current, next, n)),
        targets_among(altered_columns(current, next, n), next.columns, n),
        forall|k: int|
            0 <= k < altered_columns(current, next, n).len() ==> current.has_column(
                change_target(#[trigger] altered_columns(current, next, n)[k]),
            ),
    decreases n,
{
    if n > 0 {
        lemma_altered_columns_independent(current, next, n - 1);
        let rest = altered_columns(current, next, n - 1);
        let all = altered_columns(current, next, n);
        assert forall|k: int| 0 <= k < all.len() implies exists|j: int|
            0 <= j < n && change_target(#[trigger] all[k]) == (#[trigger] next.columns[j]).name by {
            if k < rest.len() {
                assert(all[k] == rest[k]);
                let j = choose|j: int|
                    0 <= j < n - 1 && change_target(rest[k]) == (#[trigger] next.columns[j]).name;
                assert(0 <= j < n && change_target(all[k]) == next.columns[j].name);
            } else {
                assert(change_target(all[k]) == next.columns[n - 1].name);
            }
        }
        assert forall|i: int, j: int| 0 <= i < j < all.len() implies change_target(
            #[trigger] all[i],
        ) != change_target(#[trigger] all[j]) by {
            assert(all[i] == rest[i]);
            if j < rest.len() {
                assert(all[j] == rest[j]);
            } else {
                let a = choose|a: int|
                    0 <= a < n - 1 && change_target(rest[i]) == (#[trigger] next.columns[a]).name;
                assert(next.columns[a].name != next.columns[n - 1].name);
            }
        }
        assert forall|i: int| 0 <= i < all.len() implies keeps_name(#[trigger] all[i]) by {
            if i < rest.len() {
                assert(all[i] == rest[i]);
            }
        }
        assert forall|k: int| 0 <= k < all.len() implies current.has_column(
            change_target(#[trigger] all[k]),
        ) by {
            if k < rest.len() {
                assert(all[k] == rest[k]);
            }
        }
    }
}

/// A table has each of its columns.
pub proof fn lemma_has_own_column(table: TableView, j: int)
    requires
        0 <= j < table.columns.len(),
    ensures
        table.has_column(table.columns[j].name),
{
    let p = |c: ColumnView| c.name == table.columns[j].name;
    assert(p(table.columns[j]));
    lemma_first_where(table.columns, p);
}

/// The changes between two well-formed tables are independent.
pub proof fn lemma_column_changes_independent(current: TableView, next: TableView)
    requires
        current.wf(),
        next.wf(),
    ensures
        independent_changes(column_changes(current, next)),
{
    let dropped = dropped_columns(current, next, current.columns.len() as int);
    let added = added_columns(current, next, next.columns.len() as int);
    let altered = altered_columns(current, next, next.columns.len() as int);
    lemma_dropped_columns_independent(current, next, current.columns.len() as int);
    lemma_added_columns_independent(current, next, next.columns.len() as int);
    lemma_altered_columns_independent(current, next, next.columns.len() as int);
    let all = column_changes(current, next);
    assert forall|i: int| 0 <= i < all.len() implies keeps_name(#[trigger] all[i]) by {
        if i < dropped.len() {
            assert(all[i] == dropped[i]);
        } else if i < dropped.len() + added.len() {
            assert(all[i] == added[i - dropped.len()]);
        } else {
            assert(all[i] == altered[i - dropped.len() - added.len()]);
        }
    }
    assert forall|i: int, j: int| 0 <= i < j < all.len() implies change_target(
        #[trigger] all[i],
    ) != change_target(#[trigger] all[j]) by {
        let d = dropped.len() as int;
        let a = added.len() as int;
        if j < d {
            assert(all[i] == dropped[i] && all[j] == dropped[j]);
        } else if j < d + a {
            assert(all[j] == added[j - d]);
            if i < d {
                assert(all[i] == dropped[i]);
                let at = choose|at: int|
                    0 <= at < next.columns.len() && change_target(added[j - d]) == (
                    #[trigger] next.columns[at]).name;
                lemma_has_own_column(next, at);
            } else {
                assert(all[i] == added[i - d]);
            }
        } else {
            assert(all[j] == altered[j - d - a]);
            if i < d {
                assert(all[i] == dropped[i]);
                let at = choose|at: int|
                    0 <= at < next.columns.len() && change_target(altered[j - d - a]) == (
                    #[trigger] next.columns[at]).name;
                lemma_has_own_column(next, at);
            } else if i < d + a {
                assert(all[i] == added[i - d]);
            } else {
                assert(all[i] == altered[i - d - a]);
            }
        }
    }
}

/// The additions of the columns that had to wait are independent.
pub proof fn lemma_delayed_columns_independent(created: Seq<Seq<char>>, table: TableView, n: int)
    requires
        table.wf(),
        0 <= n <= table.columns.len(),
    ensures
        independent_changes(delayed_columns(created, table, n)),
        targets_among(delayed_columns(created, table, n), table.columns, n),
    decreases n,
{
    if n > 0 {
        lemma_delayed_columns_independent(created, table, n - 1);
        let rest = delayed_columns(created, table, n - 1);
        let all = delayed_columns(created, table, n);
        assert forall|k: int| 0 <= k < all.len() implies exists|j: int|
            0 <= j < n && change_target(#[trigger] all[k]) == (#[trigger] table.columns[j]).name by {
            if k < rest.len() {
                assert(all[k] == rest[k]);
                let j = choose|j: int|
                    0 <= j < n - 1 && change_target(rest[k]) == (#[trigger] table.columns[j]).name;
                assert(0 <= j < n && change_target(all[k]) == table.columns[j].name);
            } else {
                assert(change_target(all[k]) == table.columns[n - 1].name);
            }
        }
        assert forall|i: int, j: int| 0 <= i < j < all.len() implies change_target(
            #[trigger] all[i],
        ) != change_target(#[trigger] all[j]) by {
            assert(all[i] == rest[i]);
            if j < rest.len() {
                assert(all[j] == rest[j]);
            } else {
                let a = choose|a: int|
                    0 <= a < n - 1 && change_target(rest[i]) == (#[trigger] table.columns[a]).name;
                assert(table.columns[a].name != table.columns[n - 1].name);
            }
        }
        assert forall|i: int| 0 <= i < all.len() implies keeps_name(#[trigger] all[i]) by {
            if i < rest.len() {
                assert(all[i] == rest[i]);
            }
        }
    }
}

/// Two sets of columns that hold the same under every name are the same.
pub proof fn lemma_same_columns(a: Map<Seq<char>, ColumnEntry>, b: Map<Seq<char>, ColumnEntry>)
    requires
        forall|name: Seq<char>| a.get(name) == b.get(name),
    ensures
        a == b,
{
    assert(a =~= b) by {
        assert forall|name: Seq<char>| a.dom().contains(name) == b.dom().contains(name) by {
            assert(a.get(name) == b.get(name));
        }
        assert forall|name: Seq<char>| a.dom().contains(name) implies a[name] == b[name] by {
            assert(a.get(name) == b.get(name));
        }
    }
}

} // verus!
