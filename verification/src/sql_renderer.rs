//! The pieces of SQL that depend on the dialect: quoting, column definitions,
//! foreign key references.

use crate::schema::{
    Column, ColumnArity, ColumnTypeFamily, ColumnView, ForeignKey, ForeignKeyAction, ForeignKeyView,
    Table, TableView,
};
use crate::text::{glue, join, join_spec};
use vstd::prelude::*;
use vstd::string::*;

verus! {

/// The three SQL dialects that a migration can be planned and rendered for.
#[derive(Clone, Copy, Debug, PartialEq, Eq, Structural)]
pub enum SqlFamily {
    Sqlite,
    Postgres,
    Mysql,
}

/// The character that encloses an identifier.
pub open spec fn quote_mark(family: SqlFamily) -> Seq<char> {
    match family {
        SqlFamily::Mysql => "`"@,
        _ => "\""@,
    }
}

/// The identifier between the dialect's quotes.
pub open spec fn quote_spec(family: SqlFamily, name: Seq<char>) -> Seq<char> {
    quote_mark(family) + name + quote_mark(family)
}

/// The quoted schema, a dot, and the quoted identifier.
pub open spec fn quote_with_schema_spec(family: SqlFamily, schema: Seq<char>, name: Seq<char>) -> Seq<
    char,
> {
    quote_spec(family, schema) + "."@ + quote_spec(family, name)
}

/// Each of the names between the dialect's quotes.
pub open spec fn quote_all_spec(family: SqlFamily, names: Seq<Seq<char>>) -> Seq<Seq<char>> {
    Seq::new(names.len(), |i: int| quote_spec(family, names[i]))
}

/// The type of a column as the dialect spells it.
pub open spec fn render_column_type_spec(column: ColumnView) -> Seq<char> {
    column.raw_type
}

/// The `DEFAULT` clause of a column that has a default; the value of a column
/// of the string family stands between single quotes.
pub open spec fn render_default_spec(column: ColumnView) -> Option<Seq<char>> {
    match column.default {
        Some(value) => if column.family == ColumnTypeFamily::String {
            Some("DEFAULT '"@ + value + "'"@)
        } else {
            Some("DEFAULT "@ + value)
        },
        None => None,
    }
}

/// The action of a foreign key as SQL spells it.
pub open spec fn render_on_delete_spec(action: ForeignKeyAction) -> Seq<char> {
    match action {
        ForeignKeyAction::NoAction => "NO ACTION"@,
        ForeignKeyAction::Restrict => "RESTRICT"@,
        ForeignKeyAction::Cascade => "CASCADE"@,
        ForeignKeyAction::SetNull => "SET NULL"@,
        ForeignKeyAction::SetDefault => "SET DEFAULT"@,
    }
}

/// How a table is referred to from a constraint: SQLite takes the bare quoted
/// name, the others the name qualified by the schema.
pub open spec fn table_reference_spec(family: SqlFamily, schema: Seq<char>, table: Seq<char>) -> Seq<
    char,
> {
    match family {
        SqlFamily::Sqlite => quote_spec(family, table),
        _ => quote_with_schema_spec(family, schema, table),
    }
}

/// The `REFERENCES` clause of a foreign key.
pub open spec fn render_references_spec(
    family: SqlFamily,
    schema: Seq<char>,
    foreign_key: ForeignKeyView,
) -> Seq<char> {
    "REFERENCES "@ + table_reference_spec(family, schema, foreign_key.referenced_table) + "("@
        + join_spec(quote_all_spec(family, foreign_key.referenced_columns), ","@)
        + ") ON DELETE "@ + render_on_delete_spec(foreign_key.on_delete_action)
}

/// Name, type, `NOT NULL` where the column is required, and the default.
pub open spec fn render_column_base_spec(family: SqlFamily, column: ColumnView) -> Seq<char> {
    let named = quote_spec(family, column.name) + " "@ + render_column_type_spec(column);
    let with_nullability = if column.arity == ColumnArity::Required {
        named + " NOT NULL"@
    } else {
        named
    };
    match render_default_spec(column) {
        Some(default) => with_nullability + " "@ + default,
        None => with_nullability,
    }
}

/// The definition of a column of `table`. Where a foreign key of the table
/// constrains the column, its reference follows: inline on SQLite and
/// PostgreSQL, as a `FOREIGN KEY` clause of its own on MySQL, which begins
/// with `ADD` when `add_fk_prefix` is set.
pub open spec fn render_column_spec(
    family: SqlFamily,
    schema: Seq<char>,
    table: TableView,
    column: ColumnView,
    add_fk_prefix: bool,
) -> Seq<char> {
    let base = render_column_base_spec(family, column);
    match table.foreign_key_for_column(column.name) {
        Some(foreign_key) => match family {
            SqlFamily::Mysql => {
                let opened = if add_fk_prefix {
                    base + ",\nADD FOREIGN KEY ("@
                } else {
                    base + ",\nFOREIGN KEY ("@
                };
                opened + quote_spec(family, column.name) + ") "@ + render_references_spec(
                    family,
                    schema,
                    foreign_key,
                )
            },
            _ => base + " "@ + render_references_spec(family, schema, foreign_key),
        },
        None => base,
    }
}

/// The columns of an index, separated by commas.
pub open spec fn render_index_columns_spec(columns: Seq<Seq<char>>) -> Seq<char> {
    join_spec(columns, ","@)
}

/// Renders the dialect-dependent pieces of SQL.
#[derive(Clone, Copy, Debug, PartialEq, Eq)]
pub struct SqlRenderer {
    pub sql_family: SqlFamily,
}

impl SqlRenderer {
    /// The renderer for a dialect.
    pub fn for_family(sql_family: &SqlFamily) -> (renderer: SqlRenderer)
        ensures
            renderer.sql_family == *sql_family,
    {
        SqlRenderer { sql_family: *sql_family }
    }

    fn quote_mark(&self) -> (mark: &'static str)
        ensures
            mark@ == quote_mark(self.sql_family),
    {
        match self.sql_family {
            SqlFamily::Mysql => "`",
            SqlFamily::Sqlite => "\"",
            SqlFamily::Postgres => "\"",
        }
    }

    /// The identifier between the dialect's quotes.
    pub fn quote(&self, name: &str) -> (quoted: String)
        ensures
            quoted@ == quote_spec(self.sql_family, name@),
    {
        let mut quoted = glue(self.quote_mark(), name);
        quoted.append(self.quote_mark());
        quoted
    }

    /// The quoted schema, a dot, and the quoted identifier.
    pub fn quote_with_schema(&self, schema_name: &str, name: &str) -> (quoted: String)
        ensures
            quoted@ == quote_with_schema_spec(self.sql_family, schema_name@, name@),
    {
        let mut quoted = self.quote(schema_name);
        quoted.append(".");
        quoted.append(self.quote(name).as_str());
        quoted
    }

    fn quote_all(&self, names: &Vec<String>) -> (quoted: Vec<String>)
        ensures
            quoted.deep_view() == quote_all_spec(self.sql_family, names.deep_view()),
    {
        let mut quoted: Vec<String> = Vec::new();
        let mut i: usize = 0;
        while i < names.len()
            invariant
                i <= names.len(),
                quoted@.len() == i,
                forall|k: int| 0 <= k < i ==> quoted@[k]@ == quote_spec(self.sql_family, names@[k]@),
            decreases names.len() - i,
        {
            quoted.push(self.quote(names[i].as_str()));
            i += 1;
        }
        proof {
            assert(quoted.deep_view() =~= quote_all_spec(self.sql_family, names.deep_view()));
        }
        quoted
    }

    /// The type of a column as the dialect spells it.
    pub fn render_column_type(&self, column: &Column) -> (rendered: String)
        ensures
            rendered@ == render_column_type_spec(column@),
    {
        column.tpe.raw.clone()
    }

    /// The `DEFAULT` clause of a column that has a default.
    pub fn render_default(&self, column: &Column) -> (rendered: Option<String>)
        ensures
            rendered.deep_view() == render_default_spec(column@),
    {
        match &column.default {
            Some(value) => {
                if column.tpe.family == ColumnTypeFamily::String {
                    let mut clause = glue("DEFAULT '", value.as_str());
                    clause.append("'");
                    Some(clause)
                } else {
                    Some(glue("DEFAULT ", value.as_str()))
                }
            },
            None => None,
        }
    }

    fn render_on_delete(&self, action: ForeignKeyAction) -> (rendered: &'static str)
        ensures
            rendered@ == render_on_delete_spec(action),
    {
        match action {
            ForeignKeyAction::NoAction => "NO ACTION",
            ForeignKeyAction::Restrict => "RESTRICT",
            ForeignKeyAction::Cascade => "CASCADE",
            ForeignKeyAction::SetNull => "SET NULL",
            ForeignKeyAction::SetDefault => "SET DEFAULT",
        }
    }

    fn table_reference(&self, schema_name: &str, table: &str) -> (rendered: String)
        ensures
            rendered@ == table_reference_spec(self.sql_family, schema_name@, table@),
    {
        match self.sql_family {
            SqlFamily::Sqlite => self.quote(table),
            _ => self.quote_with_schema(schema_name, table),
        }
    }

    /// The `REFERENCES` clause of a foreign key.
    pub fn render_references(&self, schema_name: &str, foreign_key: &ForeignKey) -> (rendered:
        String)
        ensures
            rendered@ == render_references_spec(self.sql_family, schema_name@, foreign_key@),
    {
        let mut rendered = glue(
            "REFERENCES ",
            self.table_reference(schema_name, foreign_key.referenced_table.as_str()).as_str(),
        );
        rendered.append("(");
        rendered.append(join(&self.quote_all(&foreign_key.referenced_columns), ",").as_str());
        rendered.append(") ON DELETE ");
        rendered.append(self.render_on_delete(foreign_key.on_delete_action));
        rendered
    }

    fn render_column_base(&self, column: &Column) -> (rendered: String)
        ensures
            rendered@ == render_column_base_spec(self.sql_family, column@),
    {
        let mut rendered = self.quote(column.name.as_str());
        rendered.append(" ");
        rendered.append(self.render_column_type(column).as_str());
        if column.arity == ColumnArity::Required {
            rendered.append(" NOT NULL");
        }
        match self.render_default(column) {
            Some(default) => {
                rendered.append(" ");
                rendered.append(default.as_str());
            },
            None => {},
        }
        rendered
    }

    /// The definition of a column of `table`, with the reference of the
    /// foreign key that constrains it, if there is one.
    pub fn render_column(
        &self,
        schema_name: &str,
        table: &Table,
        column: &Column,
        add_fk_prefix: bool,
    ) -> (rendered: String)
        ensures
            rendered@ == render_column_spec(
                self.sql_family,
                schema_name@,
                table@,
                column@,
                add_fk_prefix,
            ),
    {
        let mut rendered = self.render_column_base(column);
        match table.foreign_key_for_column(column.name.as_str()) {
            Some(foreign_key) => {
                match self.sql_family {
                    SqlFamily::Mysql => {
                        if add_fk_prefix {
                            rendered.append(",\nADD FOREIGN KEY (");
                        } else {
                            rendered.append(",\nFOREIGN KEY (");
                        }
                        rendered.append(self.quote(column.name.as_str()).as_str());
                        rendered.append(") ");
                    },
                    _ => {
                        rendered.append(" ");
                    },
                }
                rendered.append(self.render_references(schema_name, foreign_key).as_str());
            },
            None => {},
        }
        rendered
    }

    /// The columns of an index, separated by commas.
    pub fn render_index_columns(&self, _table: &Table, columns: &Vec<String>) -> (rendered: String)
        ensures
            rendered@ == render_index_columns_spec(columns.deep_view()),
    {
        join(columns, ",")
    }
}

} // verus!
