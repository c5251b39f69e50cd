//! The content of a schema, and what changes and steps do to it.

use crate::schema::{ColumnArity, ColumnView, ForeignKeyView, IndexView, SqlSchemaView, TableView};
use crate::sql_migration::{
    AddColumn, AlterColumn, AlterIndex, AlterIndexView, AlterTable, AlterTableView, ColumnChange,
    CreateIndex, CreateIndexView, CreateTable, DropColumn, DropIndex, DropIndexView, DropTable,
    DropTables, StepView, TableChangeView,
};
use crate::sql_schema_differ::index_named;
use vstd::prelude::*;

verus! {

/// A column with the foreign key that constrains it, if there is one.
pub struct ColumnEntry {
    pub column: ColumnView,
    pub reference: Option<ForeignKeyView>,
}

/// What is known of the order of the columns of a table: the table begins
/// with the columns `leading`, in that order. Where `whole` holds, these are
/// all its columns; where it does not, the other columns follow them in an
/// order that is not followed.
pub struct ColumnOrder {
    pub leading: Seq<Seq<char>>,
    pub whole: bool,
}

/// What a table holds: its columns and its indexes by name, its primary
/// key, and the order of its columns. The order is whole as long as the
/// table is as a `CREATE TABLE` made it. Once an `ALTER TABLE` has added
/// columns, the table still begins with the columns it had; once one has
/// dropped or replaced a column, nothing is known of the order any more.
pub struct TableContent {
    pub columns: Map<Seq<char>, ColumnEntry>,
    pub indexes: Map<Seq<char>, IndexView>,
    pub primary_key: Option<Seq<Seq<char>>>,
    pub column_order: ColumnOrder,
}

/// The names of the columns of a table, in order.
pub open spec fn column_names(table: TableView) -> Seq<Seq<char>> {
    Seq::new(table.columns.len(), |i: int| table.columns[i].name)
}

/// The order of the columns of a table as it is given: all of them.
pub open spec fn whole_order(table: TableView) -> ColumnOrder {
    ColumnOrder { leading: column_names(table), whole: true }
}

/// The column called `name` as `table` has it, with its foreign key.
pub open spec fn entry_of(table: TableView, name: Seq<char>) -> ColumnEntry {
    ColumnEntry { column: table.column(name)->Some_0, reference: table.foreign_key_for_column(name) }
}

/// A column as a statement for `table` adds it: with the foreign key that
/// `table` gives it.
pub open spec fn added_entry(table: TableView, column: ColumnView) -> ColumnEntry {
    ColumnEntry { column, reference: table.foreign_key_for_column(column.name) }
}

/// The columns of a table by name, each with its foreign key.
pub open spec fn columns_of(table: TableView) -> Map<Seq<char>, ColumnEntry> {
    Map::new(|name: Seq<char>| table.has_column(name), |name: Seq<char>| entry_of(table, name))
}

/// The indexes by name.
pub open spec fn indexes_by_name(indexes: Seq<IndexView>) -> Map<Seq<char>, IndexView> {
    Map::new(
        |name: Seq<char>| index_named(indexes, name) is Some,
        |name: Seq<char>| indexes[index_named(indexes, name)->Some_0],
    )
}

/// The content of a table.
pub open spec fn table_content(table: TableView) -> TableContent {
    TableContent {
        columns: columns_of(table),
        indexes: indexes_by_name(table.indices),
        primary_key: table.primary_key,
        column_order: whole_order(table),
    }
}

/// The content of a schema: the content of its tables, by name.
pub open spec fn content_of(schema: SqlSchemaView) -> Map<Seq<char>, TableContent> {
    Map::new(
        |name: Seq<char>| schema.has_table(name),
        |name: Seq<char>| table_content(schema.table(name)->Some_0),
    )
}

/// Whether a column is altered where it stands: PostgreSQL and MySQL
/// change the arity between required and nullable in place. Any other
/// alteration drops the column and adds it again.
pub open spec fn alters_in_place(change: ColumnChange) -> bool {
    match change {
        ColumnChange::ChangeArity { from, to } => (from == ColumnArity::Nullable && to
            == ColumnArity::Required) || (from == ColumnArity::Required && to
            == ColumnArity::Nullable),
        ColumnChange::ReplaceColumn => false,
    }
}

/// What a change of an `AlterTable` for `table` does to the columns. A
/// column that is added, or dropped and added again, gets the foreign key
/// that `table` gives it; a column that is altered in place keeps the one it
/// has.
pub open spec fn apply_change(
    columns: Map<Seq<char>, ColumnEntry>,
    table: TableView,
    change: TableChangeView,
) -> Map<Seq<char>, ColumnEntry> {
    match change {
        TableChangeView::AddColumn { column } => columns.insert(
            column.name,
            added_entry(table, column),
        ),
        TableChangeView::DropColumn { name } => columns.remove(name),
        TableChangeView::AlterColumn { name, column, change } => if alters_in_place(change) {
            if columns.dom().contains(name) {
                columns.insert(name, ColumnEntry { column, reference: columns[name].reference })
            } else {
                columns
            }
        } else {
            columns.remove(name).insert(column.name, added_entry(table, column))
        },
    }
}

/// What the changes, one after the other, do to the columns of a table.
pub open spec fn apply_changes(
    columns: Map<Seq<char>, ColumnEntry>,
    table: TableView,
    changes: Seq<TableChangeView>,
) -> Map<Seq<char>, ColumnEntry>
    decreases changes.len(),
{
    if changes.len() == 0 {
        columns
    } else {
        apply_change(apply_changes(columns, table, changes.drop_last()), table, changes.last())
    }
}

/// The index under another name.
pub open spec fn renamed(index: IndexView, name: Seq<char>) -> IndexView {
    IndexView { name, columns: index.columns, tpe: index.tpe }
}

/// What the renaming of an index does to the indexes of a table.
pub open spec fn rename_index(
    indexes: Map<Seq<char>, IndexView>,
    name: Seq<char>,
    new_name: Seq<char>,
) -> Map<Seq<char>, IndexView> {
    if indexes.dom().contains(name) {
        indexes.remove(name).insert(new_name, renamed(indexes[name], new_name))
    } else {
        indexes
    }
}

/// The indexes without those that the drops name.
pub open spec fn apply_index_drops(
    indexes: Map<Seq<char>, IndexView>,
    drops: Seq<DropIndexView>,
) -> Map<Seq<char>, IndexView>
    decreases drops.len(),
{
    if drops.len() == 0 {
        indexes
    } else {
        apply_index_drops(indexes, drops.drop_last()).remove(drops.last().name)
    }
}

/// The indexes with those created.
pub open spec fn apply_index_creates(
    indexes: Map<Seq<char>, IndexView>,
    creates: Seq<CreateIndexView>,
) -> Map<Seq<char>, IndexView>
    decreases creates.len(),
{
    if creates.len() == 0 {
        indexes
    } else {
        apply_index_creates(indexes, creates.drop_last()).insert(
            creates.last().index.name,
            creates.last().index,
        )
    }
}

/// The indexes after the renamings, one after the other.
pub open spec fn apply_index_renames(
    indexes: Map<Seq<char>, IndexView>,
    renames: Seq<AlterIndexView>,
) -> Map<Seq<char>, IndexView>
    decreases renames.len(),
{
    if renames.len() == 0 {
        indexes
    } else {
        rename_index(
            apply_index_renames(indexes, renames.drop_last()),
            renames.last().index_name,
            renames.last().index_new_name,
        )
    }
}

/// The content of a table right after its creation: its columns in their
/// order, each with its foreign key, and its primary key; no index.
pub open spec fn created_content(table: TableView) -> TableContent {
    TableContent {
        columns: columns_of(table),
        indexes: Map::empty(),
        primary_key: table.primary_key,
        column_order: whole_order(table),
    }
}

/// Whether a change leaves the columns that are there where they stand: it
/// adds a column, which goes behind them, or alters one in place.
pub open spec fn appends(change: TableChangeView) -> bool {
    match change {
        TableChangeView::AddColumn { column } => true,
        TableChangeView::DropColumn { name } => false,
        TableChangeView::AlterColumn { name, column, change } => alters_in_place(change),
    }
}

/// Whether each of the changes leaves the columns that are there where they
/// stand.
pub open spec fn only_appends(changes: Seq<TableChangeView>) -> bool {
    forall|i: int| 0 <= i < changes.len() ==> appends(#[trigger] changes[i])
}

/// The order of the columns once columns were added behind those that were
/// there: the table still begins as it did.
pub open spec fn appended_to(order: ColumnOrder) -> ColumnOrder {
    ColumnOrder { leading: order.leading, whole: false }
}

/// The order of the columns after the changes of an `ALTER TABLE`: where
/// they only add columns or alter them in place, the table still begins as
/// it did; else nothing is known of the order.
pub open spec fn order_after(order: ColumnOrder, changes: Seq<TableChangeView>) -> ColumnOrder {
    if only_appends(changes) {
        appended_to(order)
    } else {
        ColumnOrder { leading: Seq::empty(), whole: false }
    }
}

/// What an `AlterTable` makes of a table: the primary key and the indexes
/// stay. Without changes it leaves the table as it is.
pub open spec fn altered(content: TableContent, alter: AlterTableView) -> TableContent {
    if alter.changes.len() > 0 {
        TableContent {
            columns: apply_changes(content.columns, alter.table, alter.changes),
            indexes: content.indexes,
            primary_key: content.primary_key,
            column_order: order_after(content.column_order, alter.changes),
        }
    } else {
        content
    }
}

/// The content with other indexes.
pub open spec fn with_indexes(content: TableContent, indexes: Map<Seq<char>, IndexView>) -> TableContent {
    TableContent {
        columns: content.columns,
        indexes,
        primary_key: content.primary_key,
        column_order: content.column_order,
    }
}

/// What a step does to the content of a schema. A `CreateTable` makes
/// the table as it is given, with its columns in their order and its keys. An
/// `AlterTable` changes the columns and leaves the primary key. A step that
/// concerns a table which is not there does nothing; a statement of raw SQL
/// leaves the content as it is.
pub open spec fn apply_step(content: Map<Seq<char>, TableContent>, step: StepView) -> Map<
    Seq<char>,
    TableContent,
> {
    match step {
        StepView::CreateTable(table) => content.insert(table.name, created_content(table)),
        StepView::DropTable(name) => content.remove(name),
        StepView::DropTables(names) => content.remove_keys(names.to_set()),
        StepView::RenameTable { name, new_name } => if content.dom().contains(name) {
            content.remove(name).insert(new_name, content[name])
        } else {
            content
        },
        StepView::AlterTable(alter) => if content.dom().contains(alter.table.name) {
            content.insert(alter.table.name, altered(content[alter.table.name], alter))
        } else {
            content
        },
        StepView::CreateIndex(create) => if content.dom().contains(create.table.name) {
            content.insert(
                create.table.name,
                with_indexes(
                    content[create.table.name],
                    content[create.table.name].indexes.insert(create.index.name, create.index),
                ),
            )
        } else {
            content
        },
        StepView::DropIndex(drop) => if content.dom().contains(drop.table) {
            content.insert(
                drop.table,
                with_indexes(content[drop.table], content[drop.table].indexes.remove(drop.name)),
            )
        } else {
            content
        },
        StepView::AlterIndex(alter) => if content.dom().contains(alter.table) {
            content.insert(
                alter.table,
                with_indexes(
                    content[alter.table],
                    rename_index(
                        content[alter.table].indexes,
                        alter.index_name,
                        alter.index_new_name,
                    ),
                ),
            )
        } else {
            content
        },
        StepView::RawSql { raw } => content,
    }
}

/// What the steps, one after the other, do to the content of a schema.
pub open spec fn apply_steps(content: Map<Seq<char>, TableContent>, steps: Seq<StepView>) -> Map<
    Seq<char>,
    TableContent,
>
    decreases steps.len(),
{
    if steps.len() == 0 {
        content
    } else {
        apply_step(apply_steps(content, steps.drop_last()), steps.last())
    }
}

} // verus!
