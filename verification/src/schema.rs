//! The schema model: tables, columns, indexes, primary and foreign keys.
//!
//! Every executable type has a view that holds the same data as mathematical
//! sequences; the contracts of the crate are stated over those views.

use crate::search::{clone_all, first_where, lemma_first_where_found, lemma_first_where_none};
use crate::text::text_eq;
use vstd::prelude::*;
use vstd::string::*;

verus! {

/// The family a column type belongs to, whatever the dialect calls it.
#[derive(Clone, Copy, Debug, PartialEq, Eq, Structural)]
pub enum ColumnTypeFamily {
    Int,
    Float,
    Boolean,
    String,
    DateTime,
    Binary,
    Json,
    Uuid,
    Enum,
    Unknown,
}

/// Whether a column must hold a value, may be null, or holds a list.
#[derive(Clone, Copy, Debug, PartialEq, Eq, Structural)]
pub enum ColumnArity {
    Required,
    Nullable,
    List,
}

/// Unique or plain index.
#[derive(Clone, Copy, Debug, PartialEq, Eq, Structural)]
pub enum IndexType {
    Unique,
    Normal,
}

/// What happens to a referencing row when the referenced row is deleted.
#[derive(Clone, Copy, Debug, PartialEq, Eq, Structural)]
pub enum ForeignKeyAction {
    NoAction,
    Restrict,
    Cascade,
    SetNull,
    SetDefault,
}

/// The type of a column: its family and the dialect's own spelling.
#[derive(Debug, PartialEq, Eq)]
pub struct ColumnType {
    pub raw: String,
    pub family: ColumnTypeFamily,
}

/// A column: its name, its type, whether it must hold a value, and its
/// default, if it has one.
#[derive(Debug, PartialEq, Eq)]
pub struct Column {
    pub name: String,
    pub tpe: ColumnType,
    pub arity: ColumnArity,
    pub default: Option<String>,
}

/// An index over columns of its table.
#[derive(Debug, PartialEq, Eq)]
pub struct Index {
    pub name: String,
    pub columns: Vec<String>,
    pub tpe: IndexType,
}

/// The columns that make up the primary key of a table.
#[derive(Debug, PartialEq, Eq)]
pub struct PrimaryKey {
    pub columns: Vec<String>,
}

/// A reference from columns of a table to columns of another table.
#[derive(Debug, PartialEq, Eq)]
pub struct ForeignKey {
    pub columns: Vec<String>,
    pub referenced_table: String,
    pub referenced_columns: Vec<String>,
    pub on_delete_action: ForeignKeyAction,
}

/// A table with its columns, indexes and keys.
#[derive(Debug, PartialEq, Eq)]
pub struct Table {
    pub name: String,
    pub columns: Vec<Column>,
    pub indices: Vec<Index>,
    pub primary_key: Option<PrimaryKey>,
    pub foreign_keys: Vec<ForeignKey>,
}

/// A snapshot of a database schema.
#[derive(Debug, PartialEq, Eq)]
pub struct SqlSchema {
    pub tables: Vec<Table>,
}

/// A lookup that the planner needed and that found nothing.
#[derive(Debug, PartialEq, Eq)]
pub enum SqlError {
    TableNotFound { table: String },
    ColumnNotFound { table: String, column: String },
}

/// A column as the contracts see it.
pub struct ColumnView {
    pub name: Seq<char>,
    pub raw_type: Seq<char>,
    pub family: ColumnTypeFamily,
    pub arity: ColumnArity,
    pub default: Option<Seq<char>>,
}

/// An index as the contracts see it.
pub struct IndexView {
    pub name: Seq<char>,
    pub columns: Seq<Seq<char>>,
    pub tpe: IndexType,
}

/// A foreign key as the contracts see it.
pub struct ForeignKeyView {
    pub columns: Seq<Seq<char>>,
    pub referenced_table: Seq<char>,
    pub referenced_columns: Seq<Seq<char>>,
    pub on_delete_action: ForeignKeyAction,
}

/// A table as the contracts see it.
pub struct TableView {
    pub name: Seq<char>,
    pub columns: Seq<ColumnView>,
    pub indices: Seq<IndexView>,
    pub primary_key: Option<Seq<Seq<char>>>,
    pub foreign_keys: Seq<ForeignKeyView>,
}

/// A schema as the contracts see it.
pub struct SqlSchemaView {
    pub tables: Seq<TableView>,
}

/// An error as the contracts see it.
pub enum SqlErrorView {
    TableNotFound { table: Seq<char> },
    ColumnNotFound { table: Seq<char>, column: Seq<char> },
}

impl View for Column {
    type V = ColumnView;

    open spec fn view(&self) -> ColumnView {
        ColumnView {
            name: self.name@,
            raw_type: self.tpe.raw@,
            family: self.tpe.family,
            arity: self.arity,
            default: self.default.deep_view(),
        }
    }
}

impl DeepView for Column {
    type V = ColumnView;

    open spec fn deep_view(&self) -> ColumnView {
        self@
    }
}

impl View for Index {
    type V = IndexView;

    open spec fn view(&self) -> IndexView {
        IndexView { name: self.name@, columns: self.columns.deep_view(), tpe: self.tpe }
    }
}

impl DeepView for Index {
    type V = IndexView;

    open spec fn deep_view(&self) -> IndexView {
        self@
    }
}

impl View for PrimaryKey {
    type V = Seq<Seq<char>>;

    open spec fn view(&self) -> Seq<Seq<char>> {
        self.columns.deep_view()
    }
}

impl DeepView for PrimaryKey {
    type V = Seq<Seq<char>>;

    open spec fn deep_view(&self) -> Seq<Seq<char>> {
        self@
    }
}

impl View for ForeignKey {
    type V = ForeignKeyView;

    open spec fn view(&self) -> ForeignKeyView {
        ForeignKeyView {
            columns: self.columns.deep_view(),
            referenced_table: self.referenced_table@,
            referenced_columns: self.referenced_columns.deep_view(),
            on_delete_action: self.on_delete_action,
        }
    }
}

impl DeepView for ForeignKey {
    type V = ForeignKeyView;

    open spec fn deep_view(&self) -> ForeignKeyView {
        self@
    }
}

impl View for Table {
    type V = TableView;

    open spec fn view(&self) -> TableView {
        TableView {
            name: self.name@,
            columns: self.columns.deep_view(),
            indices: self.indices.deep_view(),
            primary_key: self.primary_key.deep_view(),
            foreign_keys: self.foreign_keys.deep_view(),
        }
    }
}

impl DeepView for Table {
    type V = TableView;

    open spec fn deep_view(&self) -> TableView {
        self@
    }
}

impl View for SqlSchema {
    type V = SqlSchemaView;

    open spec fn view(&self) -> SqlSchemaView {
        SqlSchemaView { tables: self.tables.deep_view() }
    }
}

impl View for SqlError {
    type V = SqlErrorView;

    open spec fn view(&self) -> SqlErrorView {
        match self {
            SqlError::TableNotFound { table } => SqlErrorView::TableNotFound { table: table@ },
            SqlError::ColumnNotFound { table, column } => SqlErrorView::ColumnNotFound {
                table: table@,
                column: column@,
            },
        }
    }
}

impl ColumnView {
    /// Whether `other` differs from this column in anything but the name.
    pub open spec fn differs_from(self, other: ColumnView) -> bool {
        self.family != other.family || self.raw_type != other.raw_type || self.arity
            != other.arity || self.default != other.default
    }

    /// Whether the arity is all that sets `other` apart from this column.
    pub open spec fn differs_only_in_arity(self, other: ColumnView) -> bool {
        self.family == other.family && self.raw_type == other.raw_type && self.default
            == other.default && self.arity != other.arity
    }
}

impl IndexView {
    /// Same columns in the same order, and the same kind.
    pub open spec fn same_definition(self, other: IndexView) -> bool {
        self.columns == other.columns && self.tpe == other.tpe
    }
}

impl TableView {
    /// The position of the first column called `name`.
    pub open spec fn column_index(self, name: Seq<char>) -> Option<int> {
        first_where(self.columns, |c: ColumnView| c.name == name)
    }

    /// The first column called `name`.
    pub open spec fn column(self, name: Seq<char>) -> Option<ColumnView> {
        match self.column_index(name) {
            Some(i) => Some(self.columns[i]),
            None => None,
        }
    }

    /// Whether the table has a column called `name`.
    pub open spec fn has_column(self, name: Seq<char>) -> bool {
        self.column_index(name) is Some
    }

    /// The columns of the primary key; none where the table has no key.
    pub open spec fn primary_key_columns(self) -> Seq<Seq<char>> {
        match self.primary_key {
            Some(columns) => columns,
            None => Seq::empty(),
        }
    }

    /// Whether the column is one of the columns of the primary key.
    pub open spec fn is_part_of_primary_key(self, column: Seq<char>) -> bool {
        self.primary_key_columns().contains(column)
    }

    /// The first foreign key that constrains `column`.
    pub open spec fn foreign_key_for_column(self, column: Seq<char>) -> Option<ForeignKeyView> {
        match first_where(self.foreign_keys, |fk: ForeignKeyView| fk.columns.contains(column)) {
            Some(i) => Some(self.foreign_keys[i]),
            None => None,
        }
    }

    /// Column and index names are unique, and whatever an index, the primary
    /// key or a foreign key names as a column is a column of the table.
    pub open spec fn wf(self) -> bool {
        &&& forall|i: int, j: int|
            0 <= i < j < self.columns.len() ==> (#[trigger] self.columns[i]).name != (
            #[trigger] self.columns[j]).name
        &&& forall|i: int, j: int|
            0 <= i < j < self.indices.len() ==> (#[trigger] self.indices[i]).name != (
            #[trigger] self.indices[j]).name
        &&& forall|i: int, k: int|
            0 <= i < self.indices.len() && 0 <= k < self.indices[i].columns.len()
                ==> self.has_column(#[trigger] self.indices[i].columns[k])
        &&& forall|i: int, k: int|
            0 <= i < self.foreign_keys.len() && 0 <= k < self.foreign_keys[i].columns.len()
                ==> self.has_column(#[trigger] self.foreign_keys[i].columns[k])
        &&& forall|k: int|
            0 <= k < self.primary_key_columns().len() ==> self.has_column(
                #[trigger] self.primary_key_columns()[k],
            )
    }
}

impl SqlSchemaView {
    /// The schema without tables.
    pub open spec fn empty() -> SqlSchemaView {
        SqlSchemaView { tables: Seq::empty() }
    }

    /// The position of the first table called `name`.
    pub open spec fn table_index(self, name: Seq<char>) -> Option<int> {
        first_where(self.tables, |t: TableView| t.name == name)
    }

    /// The first table called `name`.
    pub open spec fn table(self, name: Seq<char>) -> Option<TableView> {
        match self.table_index(name) {
            Some(i) => Some(self.tables[i]),
            None => None,
        }
    }

    /// Whether the schema has a table called `name`.
    pub open spec fn has_table(self, name: Seq<char>) -> bool {
        self.table_index(name) is Some
    }

    /// Table names are unique and every table is well formed.
    pub open spec fn wf(self) -> bool {
        &&& forall|i: int, j: int|
            0 <= i < j < self.tables.len() ==> (#[trigger] self.tables[i]).name != (
            #[trigger] self.tables[j]).name
        &&& forall|i: int| 0 <= i < self.tables.len() ==> (#[trigger] self.tables[i]).wf()
    }
}

/// Whether two lists hold the same names in the same order.
pub fn names_eq(a: &Vec<String>, b: &Vec<String>) -> (eq: bool)
    ensures
        eq == (a.deep_view() == b.deep_view()),
{
    if a.len() != b.len() {
        proof {
            assert(a.deep_view().len() != b.deep_view().len());
        }
        return false;
    }
    let mut i: usize = 0;
    while i < a.len()
        invariant
            i <= a.len(),
            a.len() == b.len(),
            forall|j: int| 0 <= j < i ==> a[j]@ == b[j]@,
        decreases a.len() - i,
    {
        if a[i] != b[i] {
            proof {
                assert(a.deep_view()[i as int] == a[i as int]@);
                assert(b.deep_view()[i as int] == b[i as int]@);
            }
            return false;
        }
        i += 1;
    }
    proof {
        assert(a.deep_view() =~= b.deep_view());
    }
    true
}

/// Whether `name` is one of `names`.
pub fn names_contain(names: &Vec<String>, name: &str) -> (found: bool)
    ensures
        found == names.deep_view().contains(name@),
{
    let mut i: usize = 0;
    while i < names.len()
        invariant
            i <= names.len(),
            forall|j: int| 0 <= j < i ==> names[j]@ != name@,
        decreases names.len() - i,
    {
        if text_eq(names[i].as_str(), name) {
            proof {
                assert(names.deep_view()[i as int] == name@);
            }
            return true;
        }
        i += 1;
    }
    proof {
        assert forall|j: int| 0 <= j < names.deep_view().len() implies names.deep_view()[j]
            != name@ by {
            assert(names.deep_view()[j] == names[j]@);
        }
    }
    false
}

fn clone_default(default: &Option<String>) -> (copy: Option<String>)
    ensures
        copy.deep_view() == default.deep_view(),
{
    match default {
        Some(value) => Some(value.clone()),
        None => None,
    }
}

fn default_eq(a: &Option<String>, b: &Option<String>) -> (eq: bool)
    ensures
        eq == (a.deep_view() == b.deep_view()),
{
    match a {
        Some(x) => match b {
            Some(y) => {
                proof {
                    assert(a.deep_view() == Some(x@));
                    assert(b.deep_view() == Some(y@));
                }
                text_eq(x.as_str(), y.as_str())
            },
            None => false,
        },
        None => b.is_none(),
    }
}

impl Clone for SqlError {
    fn clone(&self) -> (copy: Self)
        ensures
            copy@ == self@,
    {
        match self {
            SqlError::TableNotFound { table } => SqlError::TableNotFound { table: table.clone() },
            SqlError::ColumnNotFound { table, column } => SqlError::ColumnNotFound {
                table: table.clone(),
                column: column.clone(),
            },
        }
    }
}

impl Clone for ColumnType {
    fn clone(&self) -> (copy: Self)
        ensures
            copy.raw@ == self.raw@,
            copy.family == self.family,
    {
        ColumnType { raw: self.raw.clone(), family: self.family }
    }
}

impl Clone for Column {
    fn clone(&self) -> (copy: Self)
        ensures
            copy@ == self@,
    {
        Column {
            name: self.name.clone(),
            tpe: self.tpe.clone(),
            arity: self.arity,
            default: clone_default(&self.default),
        }
    }
}

impl Clone for Index {
    fn clone(&self) -> (copy: Self)
        ensures
            copy@ == self@,
    {
        Index { name: self.name.clone(), columns: clone_all(&self.columns), tpe: self.tpe }
    }
}

impl Clone for PrimaryKey {
    fn clone(&self) -> (copy: Self)
        ensures
            copy@ == self@,
    {
        PrimaryKey { columns: clone_all(&self.columns) }
    }
}

impl Clone for ForeignKey {
    fn clone(&self) -> (copy: Self)
        ensures
            copy@ == self@,
    {
        ForeignKey {
            columns: clone_all(&self.columns),
            referenced_table: self.referenced_table.clone(),
            referenced_columns: clone_all(&self.referenced_columns),
            on_delete_action: self.on_delete_action,
        }
    }
}

fn clone_primary_key(key: &Option<PrimaryKey>) -> (copy: Option<PrimaryKey>)
    ensures
        copy.deep_view() == key.deep_view(),
{
    match key {
        Some(pk) => Some(pk.clone()),
        None => None,
    }
}

impl Clone for Table {
    fn clone(&self) -> (copy: Self)
        ensures
            copy@ == self@,
    {
        Table {
            name: self.name.clone(),
            columns: clone_all(&self.columns),
            indices: clone_all(&self.indices),
            primary_key: clone_primary_key(&self.primary_key),
            foreign_keys: clone_all(&self.foreign_keys),
        }
    }
}

impl Clone for SqlSchema {
    fn clone(&self) -> (copy: Self)
        ensures
            copy@ == self@,
    {
        SqlSchema { tables: clone_all(&self.tables) }
    }
}

impl Column {
    /// Whether `other` differs from this column in type, arity or default.
    pub fn differs_from(&self, other: &Column) -> (differs: bool)
        ensures
            differs == self@.differs_from(other@),
    {
        self.tpe.family != other.tpe.family || self.tpe.raw != other.tpe.raw || self.arity
            != other.arity || !default_eq(&self.default, &other.default)
    }

    /// Whether the arity is all that sets `other` apart from this column.
    pub fn differs_only_in_arity(&self, other: &Column) -> (only_arity: bool)
        ensures
            only_arity == self@.differs_only_in_arity(other@),
    {
        self.tpe.family == other.tpe.family && self.tpe.raw == other.tpe.raw && default_eq(
            &self.default,
            &other.default,
        ) && self.arity != other.arity
    }
}

impl Index {
    /// Whether the other index has the same columns in the same order and is of
    /// the same kind.
    pub fn same_definition(&self, other: &Index) -> (same: bool)
        ensures
            same == self@.same_definition(other@),
    {
        names_eq(&self.columns, &other.columns) && self.tpe == other.tpe
    }
}

impl Table {
    /// The position of the first column called `name`.
    pub fn column_index(&self, name: &str) -> (found: Option<usize>)
        ensures
            match found {
                Some(i) => self@.column_index(name@) == Some(i as int),
                None => self@.column_index(name@) is None,
            },
    {
        let ghost p = |c: ColumnView| c.name == name@;
        let mut i: usize = 0;
        while i < self.columns.len()
            invariant
                i <= self.columns.len(),
                p == (|c: ColumnView| c.name == name@),
                forall|j: int| 0 <= j < i ==> !p(#[trigger] self@.columns[j]),
            decreases self.columns.len() - i,
        {
            if text_eq(self.columns[i].name.as_str(), name) {
                proof {
                    lemma_first_where_found(self@.columns, p, i as int);
                }
                return Some(i);
            }
            i += 1;
        }
        proof {
            lemma_first_where_none(self@.columns, p);
        }
        None
    }

    /// The first column called `name`.
    pub fn column(&self, name: &str) -> (found: Option<&Column>)
        ensures
            found.deep_view() == self@.column(name@),
    {
        match self.column_index(name) {
            Some(i) => Some(&self.columns[i]),
            None => None,
        }
    }

    /// Whether the table has a column called `name`.
    pub fn has_column(&self, name: &str) -> (found: bool)
        ensures
            found == self@.has_column(name@),
    {
        self.column_index(name).is_some()
    }

    /// The columns of the primary key; none where the table has no key.
    pub fn primary_key_columns(&self) -> (columns: Vec<String>)
        ensures
            columns.deep_view() == self@.primary_key_columns(),
    {
        match &self.primary_key {
            Some(pk) => clone_all(&pk.columns),
            None => {
                let columns: Vec<String> = Vec::new();
                proof {
                    assert(columns.deep_view() =~= Seq::<Seq<char>>::empty());
                }
                columns
            },
        }
    }

    /// Whether the column is one of the columns of the primary key.
    pub fn is_part_of_primary_key(&self, column: &str) -> (part: bool)
        ensures
            part == self@.is_part_of_primary_key(column@),
    {
        match &self.primary_key {
            Some(pk) => names_contain(&pk.columns, column),
            None => false,
        }
    }

    /// The first foreign key that constrains `column`.
    pub fn foreign_key_for_column(&self, column: &str) -> (found: Option<&ForeignKey>)
        ensures
            found.deep_view() == self@.foreign_key_for_column(column@),
    {
        let ghost p = |fk: ForeignKeyView| fk.columns.contains(column@);
        let mut i: usize = 0;
        while i < self.foreign_keys.len()
            invariant
                i <= self.foreign_keys.len(),
                p == (|fk: ForeignKeyView| fk.columns.contains(column@)),
                forall|j: int| 0 <= j < i ==> !p(#[trigger] self@.foreign_keys[j]),
            decreases self.foreign_keys.len() - i,
        {
            if names_contain(&self.foreign_keys[i].columns, column) {
                proof {
                    lemma_first_where_found(self@.foreign_keys, p, i as int);
                }
                return Some(&self.foreign_keys[i]);
            }
            i += 1;
        }
        proof {
            lemma_first_where_none(self@.foreign_keys, p);
        }
        None
    }
}

impl SqlSchema {
    /// A schema without tables.
    pub fn empty() -> (schema: SqlSchema)
        ensures
            schema@ == SqlSchemaView::empty(),
    {
        let schema = SqlSchema { tables: Vec::new() };
        proof {
            assert(schema@.tables =~= Seq::empty());
        }
        schema
    }

    /// The position of the first table called `name`.
    pub fn table_index(&self, name: &str) -> (found: Option<usize>)
        ensures
            match found {
                Some(i) => self@.table_index(name@) == Some(i as int),
                None => self@.table_index(name@) is None,
            },
    {
        let ghost p = |t: TableView| t.name == name@;
        let mut i: usize = 0;
        while i < self.tables.len()
            invariant
                i <= self.tables.len(),
                p == (|t: TableView| t.name == name@),
                forall|j: int| 0 <= j < i ==> !p(#[trigger] self@.tables[j]),
            decreases self.tables.len() - i,
        {
            if text_eq(self.tables[i].name.as_str(), name) {
                proof {
                    lemma_first_where_found(self@.tables, p, i as int);
                }
                return Some(i);
            }
            i += 1;
        }
        proof {
            lemma_first_where_none(self@.tables, p);
        }
        None
    }

    /// The first table called `name`, or the error that names it as missing.
    pub fn table(&self, name: &str) -> (found: Result<&Table, SqlError>)
        ensures
            match found {
                Ok(table) => self@.table(name@) == Some(table@),
                Err(e) => self@.table(name@) is None && e@ == (SqlErrorView::TableNotFound {
                    table: name@,
                }),
            },
    {
        match self.table_index(name) {
            Some(i) => Ok(&self.tables[i]),
            None => Err(SqlError::TableNotFound { table: name.to_owned() }),
        }
    }

    /// Whether the schema has a table called `name`.
    pub fn has_table(&self, name: &str) -> (found: bool)
        ensures
            found == self@.has_table(name@),
    {
        self.table_index(name).is_some()
    }
}

/// No name occurs twice.
pub open spec fn distinct_names(names: Seq<Seq<char>>) -> bool {
    forall|i: int, j: int| 0 <= i < j < names.len() ==> #[trigger] names[i] != #[trigger] names[j]
}

/// Whether no name occurs twice.
pub fn distinct_names_exec(names: &Vec<String>) -> (distinct: bool)
    ensures
        distinct == distinct_names(names.deep_view()),
{
    let mut j: usize = 0;
    while j < names.len()
        invariant
            j <= names.len(),
            forall|a: int, b: int|
                0 <= a < b < j ==> #[trigger] names.deep_view()[a] != #[trigger] names.deep_view()[b],
        decreases names.len() - j,
    {
        let mut i: usize = 0;
        while i < j
            invariant
                i <= j,
                j < names.len(),
                forall|a: int| 0 <= a < i ==> #[trigger] names.deep_view()[a] != names.deep_view()[j as int],
            decreases j - i,
        {
            if text_eq(names[i].as_str(), names[j].as_str()) {
                proof {
                    assert(names.deep_view()[i as int] == names.deep_view()[j as int]);
                }
                return false;
            }
            i += 1;
        }
        j += 1;
    }
    true
}

impl Table {
    /// Whether each of the names is a column of the table.
    pub fn has_columns(&self, names: &Vec<String>) -> (all: bool)
        ensures
            all == forall|k: int|
                0 <= k < names.len() ==> self@.has_column(#[trigger] names.deep_view()[k]),
    {
        let mut k: usize = 0;
        while k < names.len()
            invariant
                k <= names.len(),
                forall|a: int| 0 <= a < k ==> self@.has_column(#[trigger] names.deep_view()[a]),
            decreases names.len() - k,
        {
            if !self.has_column(names[k].as_str()) {
                proof {
                    assert(names.deep_view()[k as int] == names[k as int]@);
                }
                return false;
            }
            proof {
                assert(names.deep_view()[k as int] == names[k as int]@);
            }
            k += 1;
        }
        true
    }

    /// Whether the table is well formed.
    pub fn is_well_formed(&self) -> (wf: bool)
        ensures
            wf == self@.wf(),
    {
        let mut column_names: Vec<String> = Vec::new();
        let mut c: usize = 0;
        while c < self.columns.len()
            invariant
                c <= self.columns.len(),
                column_names@.len() == c,
                forall|a: int| 0 <= a < c ==> column_names@[a]@ == self@.columns[a].name,
            decreases self.columns.len() - c,
        {
            column_names.push(self.columns[c].name.clone());
            c += 1;
        }
        if !distinct_names_exec(&column_names) {
            proof {
                let (i, j) = choose|i: int, j: int|
                    0 <= i < j < column_names.deep_view().len() && !(
                    #[trigger] column_names.deep_view()[i] != #[trigger] column_names.deep_view()[j]);
                assert(self@.columns[i].name == self@.columns[j].name);
            }
            return false;
        }
        proof {
            assert forall|i: int, j: int| 0 <= i < j < self@.columns.len() implies (
            #[trigger] self@.columns[i]).name != (#[trigger] self@.columns[j]).name by {
                assert(column_names.deep_view()[i] != column_names.deep_view()[j]);
            }
        }
        let mut index_names: Vec<String> = Vec::new();
        let mut x: usize = 0;
        while x < self.indices.len()
            invariant
                x <= self.indices.len(),
                index_names@.len() == x,
                forall|a: int| 0 <= a < x ==> index_names@[a]@ == self@.indices[a].name,
            decreases self.indices.len() - x,
        {
            index_names.push(self.indices[x].name.clone());
            x += 1;
        }
        if !distinct_names_exec(&index_names) {
            proof {
                let (i, j) = choose|i: int, j: int|
                    0 <= i < j < index_names.deep_view().len() && !(
                    #[trigger] index_names.deep_view()[i] != #[trigger] index_names.deep_view()[j]);
                assert(self@.indices[i].name == self@.indices[j].name);
            }
            return false;
        }
        proof {
            assert forall|i: int, j: int| 0 <= i < j < self@.indices.len() implies (
            #[trigger] self@.indices[i]).name != (#[trigger] self@.indices[j]).name by {
                assert(index_names.deep_view()[i] != index_names.deep_view()[j]);
            }
        }
        let mut i: usize = 0;
        while i < self.indices.len()
            invariant
                i <= self.indices.len(),
                forall|a: int, k: int|
                    0 <= a < i && 0 <= k < self@.indices[a].columns.len() ==> self@.has_column(
                        #[trigger] self@.indices[a].columns[k],
                    ),
            decreases self.indices.len() - i,
        {
            proof {
                assert(self@.indices[i as int].columns == self.indices[i as int].columns.deep_view());
            }
            if !self.has_columns(&self.indices[i].columns) {
                return false;
            }
            i += 1;
        }
        let mut f: usize = 0;
        while f < self.foreign_keys.len()
            invariant
                f <= self.foreign_keys.len(),
                forall|a: int, k: int|
                    0 <= a < f && 0 <= k < self@.foreign_keys[a].columns.len()
                        ==> self@.has_column(#[trigger] self@.foreign_keys[a].columns[k]),
            decreases self.foreign_keys.len() - f,
        {
            proof {
                assert(self@.foreign_keys[f as int].columns
                    == self.foreign_keys[f as int].columns.deep_view());
            }
            if !self.has_columns(&self.foreign_keys[f].columns) {
                return false;
            }
            f += 1;
        }
        match &self.primary_key {
            Some(pk) => self.has_columns(&pk.columns),
            None => true,
        }
    }
}

impl SqlSchema {
    /// Whether the schema is well formed.
    pub fn is_well_formed(&self) -> (wf: bool)
        ensures
            wf == self@.wf(),
    {
        let mut table_names: Vec<String> = Vec::new();
        let mut t: usize = 0;
        while t < self.tables.len()
            invariant
                t <= self.tables.len(),
                table_names@.len() == t,
                forall|a: int| 0 <= a < t ==> table_names@[a]@ == self@.tables[a].name,
            decreases self.tables.len() - t,
        {
            table_names.push(self.tables[t].name.clone());
            t += 1;
        }
        if !distinct_names_exec(&table_names) {
            proof {
                let (i, j) = choose|i: int, j: int|
                    0 <= i < j < table_names.deep_view().len() && !(
                    #[trigger] table_names.deep_view()[i] != #[trigger] table_names.deep_view()[j]);
                assert(self@.tables[i].name == self@.tables[j].name);
            }
            return false;
        }
        proof {
            assert forall|i: int, j: int| 0 <= i < j < self@.tables.len() implies (
            #[trigger] self@.tables[i]).name != (#[trigger] self@.tables[j]).name by {
                assert(table_names.deep_view()[i] != table_names.deep_view()[j]);
            }
        }
        let mut i: usize = 0;
        while i < self.tables.len()
            invariant
                i <= self.tables.len(),
                forall|a: int| 0 <= a < i ==> (#[trigger] self@.tables[a]).wf(),
            decreases self.tables.len() - i,
        {
            if !self.tables[i].is_well_formed() {
                proof {
                    assert(self@.tables[i as int] == self.tables[i as int]@);
                }
                return false;
            }
            proof {
                assert(self@.tables[i as int] == self.tables[i as int]@);
            }
            i += 1;
        }
        true
    }
}

} // verus!
