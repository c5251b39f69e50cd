//! Migration steps and the migration that holds them.

use crate::schema::{
    Column, ColumnArity, ColumnView, Index, IndexView, SqlSchema, SqlSchemaView, Table, TableView,
};
use crate::search::clone_all;
use vstd::prelude::*;

verus! {

/// What a planned migration consists of.
#[derive(Debug, PartialEq, Eq)]
pub struct SqlMigration {
    pub before: SqlSchema,
    pub after: SqlSchema,
    pub original_steps: Vec<SqlMigrationStep>,
    /// The steps of the difference, rewritten where the dialect cannot run them as they are.
    pub corrected_steps: Vec<SqlMigrationStep>,
    pub rollback: Vec<SqlMigrationStep>,
}

/// One step of a migration.
#[derive(Debug, PartialEq, Eq)]
pub enum SqlMigrationStep {
    CreateTable(CreateTable),
    AlterTable(AlterTable),
    DropTable(DropTable),
    DropTables(DropTables),
    RenameTable { name: String, new_name: String },
    RawSql { raw: String },
    CreateIndex(CreateIndex),
    DropIndex(DropIndex),
    AlterIndex(AlterIndex),
}

/// Creates a table. Its indexes are created by steps of their own.
#[derive(Debug, PartialEq, Eq)]
pub struct CreateTable {
    pub table: Table,
}

/// Drops the table called `name`.
#[derive(Debug, PartialEq, Eq)]
pub struct DropTable {
    pub name: String,
}

/// Drops several tables in one statement.
#[derive(Debug, PartialEq, Eq)]
pub struct DropTables {
    pub names: Vec<String>,
}

/// Changes to the columns of one table; `table` is the table as it shall become.
#[derive(Debug, PartialEq, Eq)]
pub struct AlterTable {
    pub table: Table,
    pub changes: Vec<TableChange>,
}

/// A change to one column of a table.
#[derive(Debug, PartialEq, Eq)]
pub enum TableChange {
    AddColumn(AddColumn),
    AlterColumn(AlterColumn),
    DropColumn(DropColumn),
}

/// Adds a column.
#[derive(Debug, PartialEq, Eq)]
pub struct AddColumn {
    pub column: Column,
}

/// Drops the column called `name`.
#[derive(Debug, PartialEq, Eq)]
pub struct DropColumn {
    pub name: String,
}

/// Replaces the column called `name` by `column`, in the way `change` says.
#[derive(Debug, PartialEq, Eq)]
pub struct AlterColumn {
    pub name: String,
    pub column: Column,
    pub change: ColumnChange,
}

/// How a column is altered: replaced as a whole, or changed in its arity only.
#[derive(Clone, Copy, Debug, PartialEq, Eq, Structural)]
pub enum ColumnChange {
    ReplaceColumn,
    ChangeArity { from: ColumnArity, to: ColumnArity },
}

/// Creates an index on a table.
#[derive(Debug, PartialEq, Eq)]
pub struct CreateIndex {
    pub table: Table,
    pub index: Index,
}

/// Drops the index called `name` of the table called `table`.
#[derive(Debug, PartialEq, Eq)]
pub struct DropIndex {
    pub table: String,
    pub name: String,
}

/// Renames an index of the table called `table`.
#[derive(Debug, PartialEq, Eq)]
pub struct AlterIndex {
    pub table: String,
    pub index_name: String,
    pub index_new_name: String,
}

/// A change to a column as the contracts see it.
pub enum TableChangeView {
    AddColumn { column: ColumnView },
    AlterColumn { name: Seq<char>, column: ColumnView, change: ColumnChange },
    DropColumn { name: Seq<char> },
}

/// An `AlterTable` as the contracts see it.
pub struct AlterTableView {
    pub table: TableView,
    pub changes: Seq<TableChangeView>,
}

/// A `CreateIndex` as the contracts see it.
pub struct CreateIndexView {
    pub table: TableView,
    pub index: IndexView,
}

/// A `DropIndex` as the contracts see it.
pub struct DropIndexView {
    pub table: Seq<char>,
    pub name: Seq<char>,
}

/// An `AlterIndex` as the contracts see it.
pub struct AlterIndexView {
    pub table: Seq<char>,
    pub index_name: Seq<char>,
    pub index_new_name: Seq<char>,
}

/// A step as the contracts see it.
pub enum StepView {
    CreateTable(TableView),
    AlterTable(AlterTableView),
    DropTable(Seq<char>),
    DropTables(Seq<Seq<char>>),
    RenameTable { name: Seq<char>, new_name: Seq<char> },
    RawSql { raw: Seq<char> },
    CreateIndex(CreateIndexView),
    DropIndex(DropIndexView),
    AlterIndex(AlterIndexView),
}

/// A migration as the contracts see it.
pub struct SqlMigrationView {
    pub before: SqlSchemaView,
    pub after: SqlSchemaView,
    pub original_steps: Seq<StepView>,
    pub corrected_steps: Seq<StepView>,
    pub rollback: Seq<StepView>,
}

impl View for CreateTable {
    type V = TableView;

    open spec fn view(&self) -> TableView {
        self.table@
    }
}

impl DeepView for CreateTable {
    type V = TableView;

    open spec fn deep_view(&self) -> TableView {
        self@
    }
}

impl View for DropTable {
    type V = Seq<char>;

    open spec fn view(&self) -> Seq<char> {
        self.name@
    }
}

impl DeepView for DropTable {
    type V = Seq<char>;

    open spec fn deep_view(&self) -> Seq<char> {
        self@
    }
}

impl View for DropTables {
    type V = Seq<Seq<char>>;

    open spec fn view(&self) -> Seq<Seq<char>> {
        self.names.deep_view()
    }
}

impl View for TableChange {
    type V = TableChangeView;

    open spec fn view(&self) -> TableChangeView {
        match self {
            TableChange::AddColumn(add) => TableChangeView::AddColumn { column: add.column@ },
            TableChange::AlterColumn(alter) => TableChangeView::AlterColumn {
                name: alter.name@,
                column: alter.column@,
                change: alter.change,
            },
            TableChange::DropColumn(drop) => TableChangeView::DropColumn { name: drop.name@ },
        }
    }
}

impl DeepView for TableChange {
    type V = TableChangeView;

    open spec fn deep_view(&self) -> TableChangeView {
        self@
    }
}

impl View for AlterTable {
    type V = AlterTableView;

    open spec fn view(&self) -> AlterTableView {
        AlterTableView { table: self.table@, changes: self.changes.deep_view() }
    }
}

impl DeepView for AlterTable {
    type V = AlterTableView;

    open spec fn deep_view(&self) -> AlterTableView {
        self@
    }
}

impl View for CreateIndex {
    type V = CreateIndexView;

    open spec fn view(&self) -> CreateIndexView {
        CreateIndexView { table: self.table@, index: self.index@ }
    }
}

impl DeepView for CreateIndex {
    type V = CreateIndexView;

    open spec fn deep_view(&self) -> CreateIndexView {
        self@
    }
}

impl View for DropIndex {
    type V = DropIndexView;

    open spec fn view(&self) -> DropIndexView {
        DropIndexView { table: self.table@, name: self.name@ }
    }
}

impl DeepView for DropIndex {
    type V = DropIndexView;

    open spec fn deep_view(&self) -> DropIndexView {
        self@
    }
}

impl View for AlterIndex {
    type V = AlterIndexView;

    open spec fn view(&self) -> AlterIndexView {
        AlterIndexView {
            table: self.table@,
            index_name: self.index_name@,
            index_new_name: self.index_new_name@,
        }
    }
}

impl DeepView for AlterIndex {
    type V = AlterIndexView;

    open spec fn deep_view(&self) -> AlterIndexView {
        self@
    }
}

impl View for SqlMigrationStep {
    type V = StepView;

    open spec fn view(&self) -> StepView {
        match self {
            SqlMigrationStep::CreateTable(create) => StepView::CreateTable(create@),
            SqlMigrationStep::AlterTable(alter) => StepView::AlterTable(alter@),
            SqlMigrationStep::DropTable(drop) => StepView::DropTable(drop@),
            SqlMigrationStep::DropTables(drop) => StepView::DropTables(drop@),
            SqlMigrationStep::RenameTable { name, new_name } => StepView::RenameTable {
                name: name@,
                new_name: new_name@,
            },
            SqlMigrationStep::RawSql { raw } => StepView::RawSql { raw: raw@ },
            SqlMigrationStep::CreateIndex(create) => StepView::CreateIndex(create@),
            SqlMigrationStep::DropIndex(drop) => StepView::DropIndex(drop@),
            SqlMigrationStep::AlterIndex(alter) => StepView::AlterIndex(alter@),
        }
    }
}

impl DeepView for SqlMigrationStep {
    type V = StepView;

    open spec fn deep_view(&self) -> StepView {
        self@
    }
}

impl View for SqlMigration {
    type V = SqlMigrationView;

    open spec fn view(&self) -> SqlMigrationView {
        SqlMigrationView {
            before: self.before@,
            after: self.after@,
            original_steps: self.original_steps.deep_view(),
            corrected_steps: self.corrected_steps.deep_view(),
            rollback: self.rollback.deep_view(),
        }
    }
}

impl SqlMigrationView {
    /// The migration between two empty schemas: no steps in any direction.
    pub open spec fn empty() -> SqlMigrationView {
        SqlMigrationView {
            before: SqlSchemaView::empty(),
            after: SqlSchemaView::empty(),
            original_steps: Seq::empty(),
            corrected_steps: Seq::empty(),
            rollback: Seq::empty(),
        }
    }
}

impl SqlMigration {
    /// The migration that does nothing, between two schemas without tables.
    pub fn empty() -> (migration: SqlMigration)
        ensures
            migration@ == SqlMigrationView::empty(),
    {
        let migration = SqlMigration {
            before: SqlSchema::empty(),
            after: SqlSchema::empty(),
            original_steps: Vec::new(),
            corrected_steps: Vec::new(),
            rollback: Vec::new(),
        };
        proof {
            assert(migration@.original_steps =~= Seq::empty());
            assert(migration@.corrected_steps =~= Seq::empty());
            assert(migration@.rollback =~= Seq::empty());
        }
        migration
    }
}

impl Clone for CreateTable {
    fn clone(&self) -> (copy: Self)
        ensures
            copy@ == self@,
    {
        CreateTable { table: self.table.clone() }
    }
}

impl Clone for DropTable {
    fn clone(&self) -> (copy: Self)
        ensures
            copy@ == self@,
    {
        DropTable { name: self.name.clone() }
    }
}

impl Clone for DropTables {
    fn clone(&self) -> (copy: Self)
        ensures
            copy@ == self@,
    {
        DropTables { names: clone_all(&self.names) }
    }
}

impl Clone for AddColumn {
    fn clone(&self) -> (copy: Self)
        ensures
            copy.column@ == self.column@,
    {
        AddColumn { column: self.column.clone() }
    }
}

impl Clone for DropColumn {
    fn clone(&self) -> (copy: Self)
        ensures
            copy.name@ == self.name@,
    {
        DropColumn { name: self.name.clone() }
    }
}

impl Clone for AlterColumn {
    fn clone(&self) -> (copy: Self)
        ensures
            copy.name@ == self.name@,
            copy.column@ == self.column@,
            copy.change == self.change,
    {
        AlterColumn { name: self.name.clone(), column: self.column.clone(), change: self.change }
    }
}

impl Clone for TableChange {
    fn clone(&self) -> (copy: Self)
        ensures
            copy@ == self@,
    {
        match self {
            TableChange::AddColumn(add) => TableChange::AddColumn(add.clone()),
            TableChange::AlterColumn(alter) => TableChange::AlterColumn(alter.clone()),
            TableChange::DropColumn(drop) => TableChange::DropColumn(drop.clone()),
        }
    }
}

impl Clone for AlterTable {
    fn clone(&self) -> (copy: Self)
        ensures
            copy@ == self@,
    {
        AlterTable { table: self.table.clone(), changes: clone_all(&self.changes) }
    }
}

impl Clone for CreateIndex {
    fn clone(&self) -> (copy: Self)
        ensures
            copy@ == self@,
    {
        CreateIndex { table: self.table.clone(), index: self.index.clone() }
    }
}

impl Clone for DropIndex {
    fn clone(&self) -> (copy: Self)
        ensures
            copy@ == self@,
    {
        DropIndex { table: self.table.clone(), name: self.name.clone() }
    }
}

impl Clone for AlterIndex {
    fn clone(&self) -> (copy: Self)
        ensures
            copy@ == self@,
    {
        AlterIndex {
            table: self.table.clone(),
            index_name: self.index_name.clone(),
            index_new_name: self.index_new_name.clone(),
        }
    }
}

impl Clone for SqlMigrationStep {
    fn clone(&self) -> (copy: Self)
        ensures
            copy@ == self@,
    {
        match self {
            SqlMigrationStep::CreateTable(create) => SqlMigrationStep::CreateTable(create.clone()),
            SqlMigrationStep::AlterTable(alter) => SqlMigrationStep::AlterTable(alter.clone()),
            SqlMigrationStep::DropTable(drop) => SqlMigrationStep::DropTable(drop.clone()),
            SqlMigrationStep::DropTables(drop) => SqlMigrationStep::DropTables(drop.clone()),
            SqlMigrationStep::RenameTable { name, new_name } => SqlMigrationStep::RenameTable {
                name: name.clone(),
                new_name: new_name.clone(),
            },
            SqlMigrationStep::RawSql { raw } => SqlMigrationStep::RawSql { raw: raw.clone() },
            SqlMigrationStep::CreateIndex(create) => SqlMigrationStep::CreateIndex(create.clone()),
            SqlMigrationStep::DropIndex(drop) => SqlMigrationStep::DropIndex(drop.clone()),
            SqlMigrationStep::AlterIndex(alter) => SqlMigrationStep::AlterIndex(alter.clone()),
        }
    }
}

impl Clone for SqlMigration {
    fn clone(&self) -> (copy: Self)
        ensures
            copy@ == self@,
    {
        SqlMigration {
            before: self.before.clone(),
            after: self.after.clone(),
            original_steps: clone_all(&self.original_steps),
            corrected_steps: clone_all(&self.corrected_steps),
            rollback: clone_all(&self.rollback),
        }
    }
}

} // verus!
