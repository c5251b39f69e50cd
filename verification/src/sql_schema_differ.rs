//! The difference between two schemas, and the steps it turns into.
//!
//! Tables are matched by name, and so are the columns and the indexes of two
//! tables of one name. Whatever is derived from the tables of a schema comes
//! out ordered by table name, so that the same two schemas always give the
//! same steps in the same order.

use crate::schema::{ColumnView, Index, IndexView, SqlSchema, SqlSchemaView, Table, TableView};
use crate::search::{
    append_all, clone_all, first_where, lemma_first_where_found, lemma_first_where_none,
    lemma_take_all, lemma_take_succ, push_back,
};
use crate::sql_database_migration_inferrer::wrap_as_step;
use crate::sql_migration::{
    AddColumn, AlterColumn, AlterIndex, AlterIndexView, AlterTable, AlterTableView, ColumnChange,
    CreateIndex, CreateIndexView, CreateTable, DropColumn, DropIndex, DropIndexView, DropTable,
    SqlMigrationStep, StepView, TableChange, TableChangeView,
};
use crate::text::{name_le, name_le_exec, text_eq};
use vstd::prelude::*;
use vstd::string::*;

verus! {

/// The changes that lead from one schema to another.
#[derive(Debug, PartialEq, Eq)]
pub struct SqlSchemaDiff {
    pub drop_tables: Vec<DropTable>,
    pub create_tables: Vec<CreateTable>,
    pub alter_tables: Vec<AlterTable>,
    pub create_indexes: Vec<CreateIndex>,
    pub drop_indexes: Vec<DropIndex>,
    pub alter_indexes: Vec<AlterIndex>,
}

/// A difference as the contracts see it.
pub struct SqlSchemaDiffView {
    pub drop_tables: Seq<Seq<char>>,
    pub create_tables: Seq<TableView>,
    pub alter_tables: Seq<AlterTableView>,
    pub create_indexes: Seq<CreateIndexView>,
    pub drop_indexes: Seq<DropIndexView>,
    pub alter_indexes: Seq<AlterIndexView>,
}

impl View for SqlSchemaDiff {
    type V = SqlSchemaDiffView;

    open spec fn view(&self) -> SqlSchemaDiffView {
        SqlSchemaDiffView {
            drop_tables: self.drop_tables.deep_view(),
            create_tables: self.create_tables.deep_view(),
            alter_tables: self.alter_tables.deep_view(),
            create_indexes: self.create_indexes.deep_view(),
            drop_indexes: self.drop_indexes.deep_view(),
            alter_indexes: self.alter_indexes.deep_view(),
        }
    }
}

impl Clone for SqlSchemaDiff {
    fn clone(&self) -> (copy: Self)
        ensures
            copy@ == self@,
    {
        SqlSchemaDiff {
            drop_tables: clone_all(&self.drop_tables),
            create_tables: clone_all(&self.create_tables),
            alter_tables: clone_all(&self.alter_tables),
            create_indexes: clone_all(&self.create_indexes),
            drop_indexes: clone_all(&self.drop_indexes),
            alter_indexes: clone_all(&self.alter_indexes),
        }
    }
}

impl SqlSchemaDiffView {
    /// No table and no index is created, dropped or changed.
    pub open spec fn is_empty(self) -> bool {
        &&& self.drop_tables.len() == 0
        &&& self.create_tables.len() == 0
        &&& self.alter_tables.len() == 0
        &&& self.create_indexes.len() == 0
        &&& self.drop_indexes.len() == 0
        &&& self.alter_indexes.len() == 0
    }
}

impl SqlSchemaDiffView {
    /// The steps of the difference, in the order in which they can run:
    /// indexes are dropped first, then tables are dropped, created and
    /// altered, and last indexes are created and renamed.
    pub open spec fn into_steps(self) -> Seq<StepView> {
        self.drop_indexes.map_values(|x: DropIndexView| StepView::DropIndex(x))
            + self.drop_tables.map_values(|x: Seq<char>| StepView::DropTable(x))
            + self.create_tables.map_values(|x: TableView| StepView::CreateTable(x))
            + self.alter_tables.map_values(|x: AlterTableView| StepView::AlterTable(x))
            + self.create_indexes.map_values(|x: CreateIndexView| StepView::CreateIndex(x))
            + self.alter_indexes.map_values(|x: AlterIndexView| StepView::AlterIndex(x))
    }
}

fn drop_index_step(x: DropIndex) -> (s: SqlMigrationStep)
    ensures
        s@ == StepView::DropIndex(x@),
{
    SqlMigrationStep::DropIndex(x)
}

fn drop_table_step(x: DropTable) -> (s: SqlMigrationStep)
    ensures
        s@ == StepView::DropTable(x@),
{
    SqlMigrationStep::DropTable(x)
}

fn create_table_step(x: CreateTable) -> (s: SqlMigrationStep)
    ensures
        s@ == StepView::CreateTable(x@),
{
    SqlMigrationStep::CreateTable(x)
}

fn alter_table_step(x: AlterTable) -> (s: SqlMigrationStep)
    ensures
        s@ == StepView::AlterTable(x@),
{
    SqlMigrationStep::AlterTable(x)
}

fn create_index_step(x: CreateIndex) -> (s: SqlMigrationStep)
    ensures
        s@ == StepView::CreateIndex(x@),
{
    SqlMigrationStep::CreateIndex(x)
}

fn alter_index_step(x: AlterIndex) -> (s: SqlMigrationStep)
    ensures
        s@ == StepView::AlterIndex(x@),
{
    SqlMigrationStep::AlterIndex(x)
}

impl SqlSchemaDiff {
    /// Turns the difference into steps.
    pub fn into_steps(self) -> (steps: Vec<SqlMigrationStep>)
        ensures
            steps.deep_view() == self@.into_steps(),
    {
        let ghost view = self@;
        let mut steps = wrap_as_step(self.drop_indexes, drop_index_step);
        let mut drop_tables = wrap_as_step(self.drop_tables, drop_table_step);
        let mut create_tables = wrap_as_step(self.create_tables, create_table_step);
        let mut alter_tables = wrap_as_step(self.alter_tables, alter_table_step);
        let mut create_indexes = wrap_as_step(self.create_indexes, create_index_step);
        let mut alter_indexes = wrap_as_step(self.alter_indexes, alter_index_step);
        proof {
            assert(steps.deep_view() =~= view.drop_indexes.map_values(
                |x: DropIndexView| StepView::DropIndex(x),
            ));
            assert(drop_tables.deep_view() =~= view.drop_tables.map_values(
                |x: Seq<char>| StepView::DropTable(x),
            ));
            assert(create_tables.deep_view() =~= view.create_tables.map_values(
                |x: TableView| StepView::CreateTable(x),
            ));
            assert(alter_tables.deep_view() =~= view.alter_tables.map_values(
                |x: AlterTableView| StepView::AlterTable(x),
            ));
            assert(create_indexes.deep_view() =~= view.create_indexes.map_values(
                |x: CreateIndexView| StepView::CreateIndex(x),
            ));
            assert(alter_indexes.deep_view() =~= view.alter_indexes.map_values(
                |x: AlterIndexView| StepView::AlterIndex(x),
            ));
        }
        append_all(&mut steps, &mut drop_tables);
        append_all(&mut steps, &mut create_tables);
        append_all(&mut steps, &mut alter_tables);
        append_all(&mut steps, &mut create_indexes);
        append_all(&mut steps, &mut alter_indexes);
        steps
    }
}

// ---------------------------------------------------------------------------
// Ordering tables by name
// ---------------------------------------------------------------------------

/// `sorted` with `table` put behind every table whose name is not greater.
pub open spec fn insert_by_name(sorted: Seq<TableView>, table: TableView) -> Seq<TableView>
    decreases sorted.len(),
{
    if sorted.len() == 0 {
        seq![table]
    } else if name_le(sorted.last().name, table.name) {
        sorted.push(table)
    } else {
        insert_by_name(sorted.drop_last(), table).push(sorted.last())
    }
}

/// The tables ordered by name; tables of one name keep their order.
pub open spec fn sort_by_name(tables: Seq<TableView>) -> Seq<TableView>
    decreases tables.len(),
{
    if tables.len() == 0 {
        Seq::empty()
    } else {
        insert_by_name(sort_by_name(tables.drop_last()), tables.last())
    }
}

/// The tables at the given positions, in the order of the positions.
pub open spec fn pick(tables: Seq<TableView>, order: Seq<usize>) -> Seq<TableView> {
    Seq::new(order.len(), |k: int| tables[order[k] as int])
}

proof fn lemma_insert_position(sorted: Seq<TableView>, table: TableView, p: int)
    requires
        0 <= p <= sorted.len(),
        forall|k: int| p <= k < sorted.len() ==> !name_le((#[trigger] sorted[k]).name, table.name),
        p == 0 || name_le(sorted[p - 1].name, table.name),
    ensures
        insert_by_name(sorted, table) == sorted.insert(p, table),
    decreases sorted.len(),
{
    if sorted.len() == 0 {
        assert(seq![table] =~= sorted.insert(p, table));
    } else if p == sorted.len() {
        assert(sorted.push(table) =~= sorted.insert(p, table));
    } else {
        assert(!name_le(sorted[sorted.len() - 1].name, table.name));
        lemma_insert_position(sorted.drop_last(), table, p);
        assert(sorted.drop_last().insert(p, table).push(sorted.last()) =~= sorted.insert(
            p,
            table,
        ));
    }
}

/// The positions of the tables, ordered by the names of the tables.
fn sorted_order(tables: &Vec<Table>) -> (order: Vec<usize>)
    ensures
        order@.len() == tables@.len(),
        forall|k: int| 0 <= k < order@.len() ==> (#[trigger] order@[k]) < tables@.len(),
        pick(tables.deep_view(), order@) == sort_by_name(tables.deep_view()),
{
    let mut order: Vec<usize> = Vec::new();
    let mut i: usize = 0;
    proof {
        lemma_take_all(tables.deep_view());
        assert(pick(tables.deep_view(), order@) =~= Seq::empty());
    }
    while i < tables.len()
        invariant
            i <= tables.len(),
            order@.len() == i,
            forall|k: int| 0 <= k < order@.len() ==> (#[trigger] order@[k]) < i,
            pick(tables.deep_view(), order@) == sort_by_name(tables.deep_view().take(i as int)),
        decreases tables.len() - i,
    {
        let ghost sorted = pick(tables.deep_view(), order@);
        let mut p: usize = order.len();
        while p > 0 && !name_le_exec(tables[order[p - 1]].name.as_str(), tables[i].name.as_str())
            invariant
                p <= order@.len(),
                i < tables.len(),
                order@.len() == i,
                forall|k: int| 0 <= k < order@.len() ==> (#[trigger] order@[k]) < i,
                sorted == pick(tables.deep_view(), order@),
                forall|k: int|
                    p <= k < sorted.len() ==> !name_le(
                        (#[trigger] sorted[k]).name,
                        tables[i as int]@.name,
                    ),
            decreases p,
        {
            p -= 1;
        }
        proof {
            lemma_insert_position(sorted, tables[i as int]@, p as int);
            lemma_take_succ(tables.deep_view(), i as int);
        }
        let ghost before = order@;
        order.insert(p, i);
        proof {
            assert(pick(tables.deep_view(), order@) =~= sorted.insert(
                p as int,
                tables[i as int]@,
            )) by {
                assert forall|k: int| 0 <= k < order@.len() implies pick(
                    tables.deep_view(),
                    order@,
                )[k] == sorted.insert(p as int, tables[i as int]@)[k] by {
                    if k < p {
                        assert(order@[k] == before[k]);
                    } else if k > p {
                        assert(order@[k] == before[k - 1]);
                    }
                }
            }
            assert forall|k: int| 0 <= k < order@.len() implies (#[trigger] order@[k]) < i + 1 by {
                if k < p {
                    assert(order@[k] == before[k]);
                } else if k > p {
                    assert(order@[k] == before[k - 1]);
                }
            }
        }
        i += 1;
    }
    order
}

/// The tables in the order of their names; tables of one name keep their order.
pub fn sorted_tables(tables: &Vec<Table>) -> (sorted: Vec<&Table>)
    ensures
        sorted.deep_view() == sort_by_name(tables.deep_view()),
{
    let order = sorted_order(tables);
    let mut sorted: Vec<&Table> = Vec::new();
    let mut k: usize = 0;
    while k < order.len()
        invariant
            k <= order.len(),
            order@.len() == tables@.len(),
            forall|i: int| 0 <= i < order@.len() ==> (#[trigger] order@[i]) < tables@.len(),
            sorted@.len() == k,
            forall|i: int| 0 <= i < k ==> (#[trigger] sorted@[i])@ == tables@[order@[i] as int]@,
        decreases order.len() - k,
    {
        sorted.push(&tables[order[k]]);
        k += 1;
    }
    proof {
        assert(sorted.deep_view() =~= pick(tables.deep_view(), order@));
    }
    sorted
}

// ---------------------------------------------------------------------------
// Columns of one table
// ---------------------------------------------------------------------------

/// How the column `next` replaces `current`: by a change of arity where that is
/// the only difference, by a full replacement otherwise.
pub open spec fn column_change(current: ColumnView, next: ColumnView) -> ColumnChange {
    if current.differs_only_in_arity(next) {
        ColumnChange::ChangeArity { from: current.arity, to: next.arity }
    } else {
        ColumnChange::ReplaceColumn
    }
}

/// A `DropColumn` for each of the first `n` columns of `current` that `next` lacks.
pub open spec fn dropped_columns(current: TableView, next: TableView, n: int) -> Seq<
    TableChangeView,
>
    decreases n,
{
    if n <= 0 {
        Seq::empty()
    } else {
        let rest = dropped_columns(current, next, n - 1);
        let column = current.columns[n - 1];
        if next.has_column(column.name) {
            rest
        } else {
            rest.push(TableChangeView::DropColumn { name: column.name })
        }
    }
}

/// An `AddColumn` for each of the first `n` columns of `next` that `current` lacks.
pub open spec fn added_columns(current: TableView, next: TableView, n: int) -> Seq<
    TableChangeView,
>
    decreases n,
{
    if n <= 0 {
        Seq::empty()
    } else {
        let rest = added_columns(current, next, n - 1);
        let column = next.columns[n - 1];
        if current.has_column(column.name) {
            rest
        } else {
            rest.push(TableChangeView::AddColumn { column })
        }
    }
}

/// An `AlterColumn` for each of the first `n` columns of `next` that `current`
/// has under the same name with another type, arity or default.
pub open spec fn altered_columns(current: TableView, next: TableView, n: int) -> Seq<
    TableChangeView,
>
    decreases n,
{
    if n <= 0 {
        Seq::empty()
    } else {
        let rest = altered_columns(current, next, n - 1);
        let column = next.columns[n - 1];
        match current.column(column.name) {
            Some(previous) => if previous.differs_from(column) {
                rest.push(
                    TableChangeView::AlterColumn {
                        name: column.name,
                        column,
                        change: column_change(previous, column),
                    },
                )
            } else {
                rest
            },
            None => rest,
        }
    }
}

/// The changes that turn the columns of `current` into those of `next`:
/// drops, then additions, then alterations.
pub open spec fn column_changes(current: TableView, next: TableView) -> Seq<TableChangeView> {
    dropped_columns(current, next, current.columns.len() as int) + added_columns(
        current,
        next,
        next.columns.len() as int,
    ) + altered_columns(current, next, next.columns.len() as int)
}

/// The changes that turn the columns of `current` into those of `next`.
pub fn column_changes_exec(current: &Table, next: &Table) -> (changes: Vec<TableChange>)
    ensures
        changes.deep_view() == column_changes(current@, next@),
{
    let mut changes: Vec<TableChange> = Vec::new();
    proof {
        assert(changes.deep_view() =~= Seq::empty());
    }
    let mut i: usize = 0;
    while i < current.columns.len()
        invariant
            i <= current.columns.len(),
            changes.deep_view() == dropped_columns(current@, next@, i as int),
        decreases current.columns.len() - i,
    {
        let column = &current.columns[i];
        if !next.has_column(column.name.as_str()) {
            push_back(
                &mut changes,
                TableChange::DropColumn(DropColumn { name: column.name.clone() }),
            );
        }
        i += 1;
    }
    let ghost dropped = changes.deep_view();
    proof {
        assert(dropped + Seq::<TableChangeView>::empty() =~= dropped);
    }
    let mut i: usize = 0;
    while i < next.columns.len()
        invariant
            i <= next.columns.len(),
            changes.deep_view() == dropped + added_columns(current@, next@, i as int),
        decreases next.columns.len() - i,
    {
        let column = &next.columns[i];
        let ghost added = added_columns(current@, next@, i as int);
        if !current.has_column(column.name.as_str()) {
            push_back(&mut changes, TableChange::AddColumn(AddColumn { column: column.clone() }));
            proof {
                assert((dropped + added).push(TableChangeView::AddColumn { column: column@ })
                    =~= dropped + added.push(TableChangeView::AddColumn { column: column@ }));
            }
        }
        i += 1;
    }
    let ghost first = changes.deep_view();
    proof {
        assert(first + Seq::<TableChangeView>::empty() =~= first);
    }
    let mut i: usize = 0;
    while i < next.columns.len()
        invariant
            i <= next.columns.len(),
            changes.deep_view() == first + altered_columns(current@, next@, i as int),
        decreases next.columns.len() - i,
    {
        let column = &next.columns[i];
        let ghost altered = altered_columns(current@, next@, i as int);
        match current.column(column.name.as_str()) {
            Some(previous) => {
                if previous.differs_from(column) {
                    let change = if previous.differs_only_in_arity(column) {
                        ColumnChange::ChangeArity { from: previous.arity, to: column.arity }
                    } else {
                        ColumnChange::ReplaceColumn
                    };
                    let alter = TableChange::AlterColumn(
                        AlterColumn { name: column.name.clone(), column: column.clone(), change },
                    );
                    proof {
                        assert((first + altered).push(alter@) =~= first + altered.push(alter@));
                    }
                    push_back(&mut changes, alter);
                }
            },
            None => {},
        }
        i += 1;
    }
    changes
}

// ---------------------------------------------------------------------------
// Indexes of one table
// ---------------------------------------------------------------------------

/// The position of the first of `indexes` that is called `name`.
pub open spec fn index_named(indexes: Seq<IndexView>, name: Seq<char>) -> Option<int> {
    first_where(indexes, |x: IndexView| x.name == name)
}

/// The position of the first of `list` that has no namesake in `other` and
/// is defined like `like`.
pub open spec fn first_unmatched_like(
    list: Seq<IndexView>,
    other: Seq<IndexView>,
    like: IndexView,
) -> Option<int> {
    first_where(
        list,
        |x: IndexView| index_named(other, x.name) is None && x.same_definition(like),
    )
}

/// The position in `other` of the index that `list[i]` is the same index as,
/// under another name. Two indexes are taken for one renamed index when neither
/// has a namesake on the other side, both have the same definition, and each is
/// the first such index on its side.
pub open spec fn counterpart(list: Seq<IndexView>, other: Seq<IndexView>, i: int) -> Option<int> {
    if first_unmatched_like(list, other, list[i]) == Some(i) {
        first_unmatched_like(other, list, list[i])
    } else {
        None
    }
}

/// Whether `list[i]` has nothing to do with any index of `other`: its
/// namesake there is defined otherwise, or it has neither namesake nor
/// counterpart.
pub open spec fn is_unmatched(list: Seq<IndexView>, other: Seq<IndexView>, i: int) -> bool {
    match index_named(other, list[i].name) {
        Some(j) => !list[i].same_definition(other[j]),
        None => counterpart(list, other, i) is None,
    }
}

/// The indexes of the table called `table`; none where the schema has no such table.
pub open spec fn indexes_of(schema: SqlSchemaView, table: Seq<char>) -> Seq<IndexView> {
    match schema.table(table) {
        Some(t) => t.indices,
        None => Seq::empty(),
    }
}

/// A `DropIndex` for each of the first `n` of `previous` that is unmatched in `next`.
pub open spec fn table_dropped_indexes(
    table: Seq<char>,
    previous: Seq<IndexView>,
    next: Seq<IndexView>,
    n: int,
) -> Seq<DropIndexView>
    decreases n,
{
    if n <= 0 {
        Seq::empty()
    } else {
        let rest = table_dropped_indexes(table, previous, next, n - 1);
        if is_unmatched(previous, next, n - 1) {
            rest.push(DropIndexView { table, name: previous[n - 1].name })
        } else {
            rest
        }
    }
}

/// An `AlterIndex` for each of the first `n` of `previous` that has a counterpart in `next`.
pub open spec fn table_renamed_indexes(
    table: Seq<char>,
    previous: Seq<IndexView>,
    next: Seq<IndexView>,
    n: int,
) -> Seq<AlterIndexView>
    decreases n,
{
    if n <= 0 {
        Seq::empty()
    } else {
        let rest = table_renamed_indexes(table, previous, next, n - 1);
        match counterpart(previous, next, n - 1) {
            Some(j) => rest.push(
                AlterIndexView {
                    table,
                    index_name: previous[n - 1].name,
                    index_new_name: next[j].name,
                },
            ),
            None => rest,
        }
    }
}

/// A `CreateIndex` for each of the first `n` indexes of `table` that is
/// unmatched in `previous`.
pub open spec fn table_created_indexes(table: TableView, previous: Seq<IndexView>, n: int) -> Seq<
    CreateIndexView,
>
    decreases n,
{
    if n <= 0 {
        Seq::empty()
    } else {
        let rest = table_created_indexes(table, previous, n - 1);
        if is_unmatched(table.indices, previous, n - 1) {
            rest.push(CreateIndexView { table, index: table.indices[n - 1] })
        } else {
            rest
        }
    }
}

fn find_index(indexes: &Vec<Index>, name: &str) -> (found: Option<usize>)
    ensures
        match found {
            Some(j) => j < indexes.len() && index_named(indexes.deep_view(), name@) == Some(
                j as int,
            ),
            None => index_named(indexes.deep_view(), name@) is None,
        },
{
    let ghost p = |x: IndexView| x.name == name@;
    let mut i: usize = 0;
    while i < indexes.len()
        invariant
            i <= indexes.len(),
            p == (|x: IndexView| x.name == name@),
            forall|j: int| 0 <= j < i ==> !p(#[trigger] indexes.deep_view()[j]),
        decreases indexes.len() - i,
    {
        if text_eq(indexes[i].name.as_str(), name) {
            proof {
                lemma_first_where_found(indexes.deep_view(), p, i as int);
            }
            return Some(i);
        }
        i += 1;
    }
    proof {
        lemma_first_where_none(indexes.deep_view(), p);
    }
    None
}

fn first_unmatched_like_exec(list: &Vec<Index>, other: &Vec<Index>, like: &Index) -> (found:
    Option<usize>)
    ensures
        match found {
            Some(j) => j < list.len() && first_unmatched_like(
                list.deep_view(),
                other.deep_view(),
                like@,
            ) == Some(j as int),
            None => first_unmatched_like(list.deep_view(), other.deep_view(), like@) is None,
        },
{
    let ghost p = |x: IndexView|
        index_named(other.deep_view(), x.name) is None && x.same_definition(like@);
    let mut i: usize = 0;
    while i < list.len()
        invariant
            i <= list.len(),
            p == (|x: IndexView|
                index_named(other.deep_view(), x.name) is None && x.same_definition(like@)),
            forall|j: int| 0 <= j < i ==> !p(#[trigger] list.deep_view()[j]),
        decreases list.len() - i,
    {
        if find_index(other, list[i].name.as_str()).is_none() && list[i].same_definition(like) {
            proof {
                lemma_first_where_found(list.deep_view(), p, i as int);
            }
            return Some(i);
        }
        i += 1;
    }
    proof {
        lemma_first_where_none(list.deep_view(), p);
    }
    None
}

fn counterpart_exec(list: &Vec<Index>, other: &Vec<Index>, i: usize) -> (found: Option<usize>)
    requires
        i < list.len(),
    ensures
        match found {
            Some(j) => j < other.len() && counterpart(list.deep_view(), other.deep_view(), i as int)
                == Some(j as int),
            None => counterpart(list.deep_view(), other.deep_view(), i as int) is None,
        },
{
    match first_unmatched_like_exec(list, other, &list[i]) {
        Some(first) => {
            if first == i {
                first_unmatched_like_exec(other, list, &list[i])
            } else {
                None
            }
        },
        None => None,
    }
}

fn is_unmatched_exec(list: &Vec<Index>, other: &Vec<Index>, i: usize) -> (unmatched: bool)
    requires
        i < list.len(),
    ensures
        unmatched == is_unmatched(list.deep_view(), other.deep_view(), i as int),
{
    match find_index(other, list[i].name.as_str()) {
        Some(j) => !list[i].same_definition(&other[j]),
        None => counterpart_exec(list, other, i).is_none(),
    }
}

// ---------------------------------------------------------------------------
// Tables of two schemas
// ---------------------------------------------------------------------------

/// Those of the first `n` of `to_sorted` that `from` has no table for.
pub open spec fn created_tables(from: SqlSchemaView, to_sorted: Seq<TableView>, n: int) -> Seq<
    TableView,
>
    decreases n,
{
    if n <= 0 {
        Seq::empty()
    } else {
        let rest = created_tables(from, to_sorted, n - 1);
        if from.has_table(to_sorted[n - 1].name) {
            rest
        } else {
            rest.push(to_sorted[n - 1])
        }
    }
}

/// The names of those of the first `n` of `from_sorted` that `to` has no table for.
pub open spec fn dropped_tables(from_sorted: Seq<TableView>, to: SqlSchemaView, n: int) -> Seq<
    Seq<char>,
>
    decreases n,
{
    if n <= 0 {
        Seq::empty()
    } else {
        let rest = dropped_tables(from_sorted, to, n - 1);
        if to.has_table(from_sorted[n - 1].name) {
            rest
        } else {
            rest.push(from_sorted[n - 1].name)
        }
    }
}

/// An `AlterTable` for each of the first `n` of `to_sorted` whose columns differ
/// from those of the table that `from` has under the same name.
pub open spec fn altered_tables(from: SqlSchemaView, to_sorted: Seq<TableView>, n: int) -> Seq<
    AlterTableView,
>
    decreases n,
{
    if n <= 0 {
        Seq::empty()
    } else {
        let rest = altered_tables(from, to_sorted, n - 1);
        let table = to_sorted[n - 1];
        match from.table(table.name) {
            Some(current) => if column_changes(current, table).len() > 0 {
                rest.push(AlterTableView { table, changes: column_changes(current, table) })
            } else {
                rest
            },
            None => rest,
        }
    }
}

/// The indexes to create for the first `n` of `to_sorted`, table after table.
pub open spec fn created_indexes(from: SqlSchemaView, to_sorted: Seq<TableView>, n: int) -> Seq<
    CreateIndexView,
>
    decreases n,
{
    if n <= 0 {
        Seq::empty()
    } else {
        let table = to_sorted[n - 1];
        created_indexes(from, to_sorted, n - 1) + table_created_indexes(
            table,
            indexes_of(from, table.name),
            table.indices.len() as int,
        )
    }
}

/// The indexes to drop for the first `n` of `from_sorted`, table after table.
pub open spec fn dropped_indexes(from_sorted: Seq<TableView>, to: SqlSchemaView, n: int) -> Seq<
    DropIndexView,
>
    decreases n,
{
    if n <= 0 {
        Seq::empty()
    } else {
        let table = from_sorted[n - 1];
        dropped_indexes(from_sorted, to, n - 1) + table_dropped_indexes(
            table.name,
            table.indices,
            indexes_of(to, table.name),
            table.indices.len() as int,
        )
    }
}

/// The indexes to rename for the first `n` of `from_sorted`, table after table.
pub open spec fn renamed_indexes(from_sorted: Seq<TableView>, to: SqlSchemaView, n: int) -> Seq<
    AlterIndexView,
>
    decreases n,
{
    if n <= 0 {
        Seq::empty()
    } else {
        let table = from_sorted[n - 1];
        renamed_indexes(from_sorted, to, n - 1) + table_renamed_indexes(
            table.name,
            table.indices,
            indexes_of(to, table.name),
            table.indices.len() as int,
        )
    }
}

/// The difference between two schemas.
pub open spec fn diff_spec(from: SqlSchemaView, to: SqlSchemaView) -> SqlSchemaDiffView {
    let from_sorted = sort_by_name(from.tables);
    let to_sorted = sort_by_name(to.tables);
    SqlSchemaDiffView {
        drop_tables: dropped_tables(from_sorted, to, from_sorted.len() as int),
        create_tables: created_tables(from, to_sorted, to_sorted.len() as int),
        alter_tables: altered_tables(from, to_sorted, to_sorted.len() as int),
        create_indexes: created_indexes(from, to_sorted, to_sorted.len() as int),
        drop_indexes: dropped_indexes(from_sorted, to, from_sorted.len() as int),
        alter_indexes: renamed_indexes(from_sorted, to, from_sorted.len() as int),
    }
}

/// `order` lists the positions of the tables of `schema`, ordered by table name.
pub open spec fn is_sorted_order(schema: SqlSchemaView, order: Seq<usize>) -> bool {
    &&& order.len() == schema.tables.len()
    &&& forall|k: int| 0 <= k < order.len() ==> (#[trigger] order[k]) < schema.tables.len()
    &&& pick(schema.tables, order) == sort_by_name(schema.tables)
}

fn create_tables(from: &SqlSchema, to: &SqlSchema, order: &Vec<usize>) -> (created: Vec<
    CreateTable,
>)
    requires
        is_sorted_order(to@, order@),
    ensures
        created.deep_view() == created_tables(
            from@,
            sort_by_name(to@.tables),
            to@.tables.len() as int,
        ),
{
    let ghost sorted = sort_by_name(to@.tables);
    let mut created: Vec<CreateTable> = Vec::new();
    proof {
        assert(created.deep_view() =~= Seq::empty());
    }
    let mut k: usize = 0;
    while k < order.len()
        invariant
            k <= order.len(),
            is_sorted_order(to@, order@),
            sorted == sort_by_name(to@.tables),
            created.deep_view() == created_tables(from@, sorted, k as int),
        decreases order.len() - k,
    {
        let table = &to.tables[order[k]];
        proof {
            assert(pick(to@.tables, order@)[k as int] == table@);
        }
        if !from.has_table(table.name.as_str()) {
            push_back(&mut created, CreateTable { table: table.clone() });
        }
        k += 1;
    }
    created
}

fn drop_tables(from: &SqlSchema, to: &SqlSchema, order: &Vec<usize>) -> (dropped: Vec<DropTable>)
    requires
        is_sorted_order(from@, order@),
    ensures
        dropped.deep_view() == dropped_tables(
            sort_by_name(from@.tables),
            to@,
            from@.tables.len() as int,
        ),
{
    let ghost sorted = sort_by_name(from@.tables);
    let mut dropped: Vec<DropTable> = Vec::new();
    proof {
        assert(dropped.deep_view() =~= Seq::empty());
    }
    let mut k: usize = 0;
    while k < order.len()
        invariant
            k <= order.len(),
            is_sorted_order(from@, order@),
            sorted == sort_by_name(from@.tables),
            dropped.deep_view() == dropped_tables(sorted, to@, k as int),
        decreases order.len() - k,
    {
        let table = &from.tables[order[k]];
        proof {
            assert(pick(from@.tables, order@)[k as int] == table@);
        }
        if !to.has_table(table.name.as_str()) {
            push_back(&mut dropped, DropTable { name: table.name.clone() });
        }
        k += 1;
    }
    dropped
}

fn alter_tables(from: &SqlSchema, to: &SqlSchema, order: &Vec<usize>) -> (altered: Vec<AlterTable>)
    requires
        is_sorted_order(to@, order@),
    ensures
        altered.deep_view() == altered_tables(
            from@,
            sort_by_name(to@.tables),
            to@.tables.len() as int,
        ),
{
    let ghost sorted = sort_by_name(to@.tables);
    let mut altered: Vec<AlterTable> = Vec::new();
    proof {
        assert(altered.deep_view() =~= Seq::empty());
    }
    let mut k: usize = 0;
    while k < order.len()
        invariant
            k <= order.len(),
            is_sorted_order(to@, order@),
            sorted == sort_by_name(to@.tables),
            altered.deep_view() == altered_tables(from@, sorted, k as int),
        decreases order.len() - k,
    {
        let table = &to.tables[order[k]];
        proof {
            assert(pick(to@.tables, order@)[k as int] == table@);
        }
        match from.table(table.name.as_str()) {
            Ok(current) => {
                let changes = column_changes_exec(current, table);
                if changes.len() > 0 {
                    push_back(&mut altered, AlterTable { table: table.clone(), changes });
                }
            },
            Err(_) => {},
        }
        k += 1;
    }
    altered
}

fn create_indexes(from: &SqlSchema, to: &SqlSchema, order: &Vec<usize>) -> (created: Vec<
    CreateIndex,
>)
    requires
        is_sorted_order(to@, order@),
    ensures
        created.deep_view() == created_indexes(
            from@,
            sort_by_name(to@.tables),
            to@.tables.len() as int,
        ),
{
    let ghost sorted = sort_by_name(to@.tables);
    let no_indexes: Vec<Index> = Vec::new();
    let mut created: Vec<CreateIndex> = Vec::new();
    proof {
        assert(created.deep_view() =~= Seq::empty());
        assert(no_indexes.deep_view() =~= Seq::empty());
    }
    let mut k: usize = 0;
    while k < order.len()
        invariant
            k <= order.len(),
            is_sorted_order(to@, order@),
            sorted == sort_by_name(to@.tables),
            no_indexes.deep_view() == Seq::<IndexView>::empty(),
            created.deep_view() == created_indexes(from@, sorted, k as int),
        decreases order.len() - k,
    {
        let table = &to.tables[order[k]];
        proof {
            assert(pick(to@.tables, order@)[k as int] == table@);
        }
        let previous = match from.table(table.name.as_str()) {
            Ok(current) => &current.indices,
            Err(_) => &no_indexes,
        };
        assert(previous.deep_view() == indexes_of(from@, table@.name));
        let ghost before = created.deep_view();
        proof {
            assert(before + Seq::<CreateIndexView>::empty() =~= before);
        }
        let mut j: usize = 0;
        while j < table.indices.len()
            invariant
                j <= table.indices.len(),
                created.deep_view() == before + table_created_indexes(
                    table@,
                    previous.deep_view(),
                    j as int,
                ),
            decreases table.indices.len() - j,
        {
            let ghost inner = table_created_indexes(table@, previous.deep_view(), j as int);
            if is_unmatched_exec(&table.indices, previous, j) {
                let create = CreateIndex { table: table.clone(), index: table.indices[j].clone() };
                proof {
                    assert((before + inner).push(create@) =~= before + inner.push(create@));
                }
                push_back(&mut created, create);
            }
            j += 1;
        }
        k += 1;
    }
    created
}

fn drop_indexes(from: &SqlSchema, to: &SqlSchema, order: &Vec<usize>) -> (dropped: Vec<DropIndex>)
    requires
        is_sorted_order(from@, order@),
    ensures
        dropped.deep_view() == dropped_indexes(
            sort_by_name(from@.tables),
            to@,
            from@.tables.len() as int,
        ),
{
    let ghost sorted = sort_by_name(from@.tables);
    let no_indexes: Vec<Index> = Vec::new();
    let mut dropped: Vec<DropIndex> = Vec::new();
    proof {
        assert(dropped.deep_view() =~= Seq::empty());
        assert(no_indexes.deep_view() =~= Seq::empty());
    }
    let mut k: usize = 0;
    while k < order.len()
        invariant
            k <= order.len(),
            is_sorted_order(from@, order@),
            sorted == sort_by_name(from@.tables),
            no_indexes.deep_view() == Seq::<IndexView>::empty(),
            dropped.deep_view() == dropped_indexes(sorted, to@, k as int),
        decreases order.len() - k,
    {
        let table = &from.tables[order[k]];
        proof {
            assert(pick(from@.tables, order@)[k as int] == table@);
        }
        let next = match to.table(table.name.as_str()) {
            Ok(target) => &target.indices,
            Err(_) => &no_indexes,
        };
        assert(next.deep_view() == indexes_of(to@, table@.name));
        let ghost before = dropped.deep_view();
        proof {
            assert(before + Seq::<DropIndexView>::empty() =~= before);
        }
        let mut j: usize = 0;
        while j < table.indices.len()
            invariant
                j <= table.indices.len(),
                dropped.deep_view() == before + table_dropped_indexes(
                    table@.name,
                    table@.indices,
                    next.deep_view(),
                    j as int,
                ),
            decreases table.indices.len() - j,
        {
            let ghost inner = table_dropped_indexes(
                table@.name,
                table@.indices,
                next.deep_view(),
                j as int,
            );
            if is_unmatched_exec(&table.indices, next, j) {
                let drop = DropIndex {
                    table: table.name.clone(),
                    name: table.indices[j].name.clone(),
                };
                proof {
                    assert((before + inner).push(drop@) =~= before + inner.push(drop@));
                }
                push_back(&mut dropped, drop);
            }
            j += 1;
        }
        k += 1;
    }
    dropped
}

fn alter_indexes(from: &SqlSchema, to: &SqlSchema, order: &Vec<usize>) -> (renamed: Vec<
    AlterIndex,
>)
    requires
        is_sorted_order(from@, order@),
    ensures
        renamed.deep_view() == renamed_indexes(
            sort_by_name(from@.tables),
            to@,
            from@.tables.len() as int,
        ),
{
    let ghost sorted = sort_by_name(from@.tables);
    let no_indexes: Vec<Index> = Vec::new();
    let mut renamed: Vec<AlterIndex> = Vec::new();
    proof {
        assert(renamed.deep_view() =~= Seq::empty());
        assert(no_indexes.deep_view() =~= Seq::empty());
    }
    let mut k: usize = 0;
    while k < order.len()
        invariant
            k <= order.len(),
            is_sorted_order(from@, order@),
            sorted == sort_by_name(from@.tables),
            no_indexes.deep_view() == Seq::<IndexView>::empty(),
            renamed.deep_view() == renamed_indexes(sorted, to@, k as int),
        decreases order.len() - k,
    {
        let table = &from.tables[order[k]];
        proof {
            assert(pick(from@.tables, order@)[k as int] == table@);
        }
        let next = match to.table(table.name.as_str()) {
            Ok(target) => &target.indices,
            Err(_) => &no_indexes,
        };
        assert(next.deep_view() == indexes_of(to@, table@.name));
        let ghost before = renamed.deep_view();
        proof {
            assert(before + Seq::<AlterIndexView>::empty() =~= before);
        }
        let mut j: usize = 0;
        while j < table.indices.len()
            invariant
                j <= table.indices.len(),
                renamed.deep_view() == before + table_renamed_indexes(
                    table@.name,
                    table@.indices,
                    next.deep_view(),
                    j as int,
                ),
            decreases table.indices.len() - j,
        {
            let ghost inner = table_renamed_indexes(
                table@.name,
                table@.indices,
                next.deep_view(),
                j as int,
            );
            match counterpart_exec(&table.indices, next, j) {
                Some(target) => {
                    let alter = AlterIndex {
                        table: table.name.clone(),
                        index_name: table.indices[j].name.clone(),
                        index_new_name: next[target].name.clone(),
                    };
                    proof {
                        assert((before + inner).push(alter@) =~= before + inner.push(alter@));
                    }
                    push_back(&mut renamed, alter);
                },
                None => {},
            }
            j += 1;
        }
        k += 1;
    }
    renamed
}

/// Compares two schemas.
pub struct SqlSchemaDiffer {}

impl SqlSchemaDiffer {
    /// The changes that lead from `previous` to `next`.
    pub fn diff(previous: &SqlSchema, next: &SqlSchema) -> (diff: SqlSchemaDiff)
        ensures
            diff@ == diff_spec(previous@, next@),
    {
        let previous_order = sorted_order(&previous.tables);
        let next_order = sorted_order(&next.tables);
        proof {
            lemma_sort_keeps_length(previous@.tables);
            lemma_sort_keeps_length(next@.tables);
        }
        SqlSchemaDiff {
            drop_tables: drop_tables(previous, next, &previous_order),
            create_tables: create_tables(previous, next, &next_order),
            alter_tables: alter_tables(previous, next, &next_order),
            create_indexes: create_indexes(previous, next, &next_order),
            drop_indexes: drop_indexes(previous, next, &previous_order),
            alter_indexes: alter_indexes(previous, next, &previous_order),
        }
    }
}

/// Sorting neither adds nor loses a table.
pub proof fn lemma_sort_keeps_length(tables: Seq<TableView>)
    ensures
        sort_by_name(tables).len() == tables.len(),
    decreases tables.len(),
{
    if tables.len() > 0 {
        lemma_sort_keeps_length(tables.drop_last());
        lemma_insert_adds_one(sort_by_name(tables.drop_last()), tables.last());
    }
}

proof fn lemma_insert_adds_one(sorted: Seq<TableView>, table: TableView)
    ensures
        insert_by_name(sorted, table).len() == sorted.len() + 1,
    decreases sorted.len(),
{
    if sorted.len() > 0 && !name_le(sorted.last().name, table.name) {
        lemma_insert_adds_one(sorted.drop_last(), table);
    }
}

} // verus!
