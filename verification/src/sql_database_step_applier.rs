//! Rendering migration steps to SQL, and deciding what to run next.

use crate::schema::{Column, ColumnArity, ColumnView, IndexType, Table, TableView};
use crate::search::push_back;
use crate::sql_migration::{
    AlterIndex, AlterIndexView, AlterTable, AlterTableView, ColumnChange, CreateIndex,
    CreateIndexView, DropIndex, DropIndexView, SqlMigration, SqlMigrationStep, StepView,
    TableChange, TableChangeView,
};
use crate::sql_renderer::{
    quote_spec, quote_with_schema_spec, render_column_spec, render_column_type_spec,
    render_default_spec, render_index_columns_spec, table_reference_spec, SqlFamily, SqlRenderer,
};
use crate::text::{contains, glue, join, join_spec, text_contains};
use itertools::Itertools;
use vstd::prelude::*;
use vstd::string::*;

verus! {

/// What follows the closing bracket of a `CREATE TABLE` statement.
pub open spec fn create_table_suffix_spec(sql_family: SqlFamily) -> Seq<char> {
    match sql_family {
        SqlFamily::Mysql => "\nDEFAULT CHARACTER SET utf8mb4 COLLATE utf8mb4_unicode_ci"@,
        _ => ""@,
    }
}

/// The definitions of the first `n` columns of `table`, each indented by two spaces.
pub open spec fn column_lines(family: SqlFamily, schema: Seq<char>, table: TableView, n: int) -> Seq<
    Seq<char>,
>
    decreases n,
{
    if n <= 0 {
        Seq::empty()
    } else {
        column_lines(family, schema, table, n - 1).push(
            "  "@ + render_column_spec(family, schema, table, table.columns[n - 1], false),
        )
    }
}

/// The line that declares the primary key of `table`.
pub open spec fn primary_key_line(table: TableView) -> Seq<char> {
    "  PRIMARY KEY ("@ + join_spec(table.primary_key_columns(), ", "@) + ")"@
}

/// The lines between the brackets of `CREATE TABLE`: one for each column, and
/// one for the primary key where the table has one and no column line
/// declares it already.
pub open spec fn create_table_lines(family: SqlFamily, schema: Seq<char>, table: TableView) -> Seq<
    Seq<char>,
> {
    let lines = column_lines(family, schema, table, table.columns.len() as int);
    if table.primary_key_columns().len() > 0 && !text_contains(
        join_spec(lines, ","@),
        "PRIMARY KEY"@,
    ) {
        lines.push(primary_key_line(table))
    } else {
        lines
    }
}

/// The `CREATE TABLE` statement for a table.
pub open spec fn render_create_table_spec(family: SqlFamily, schema: Seq<char>, table: TableView) -> Seq<
    char,
> {
    "CREATE TABLE "@ + quote_with_schema_spec(family, schema, table.name) + " (\n"@ + join_spec(
        create_table_lines(family, schema, table),
        ",\n"@,
    ) + "\n)"@ + create_table_suffix_spec(family) + ";"@
}

/// Dropping the column called `name` and adding `column` in its place.
pub open spec fn drop_and_add_column_lines(
    family: SqlFamily,
    schema: Seq<char>,
    table: TableView,
    name: Seq<char>,
    column: ColumnView,
) -> Seq<Seq<char>> {
    seq![
        "DROP COLUMN "@ + quote_spec(family, name),
        "ADD COLUMN "@ + render_column_spec(family, schema, table, column, true),
    ]
}

/// MySQL's `MODIFY` of a column, with or without `NOT NULL`.
pub open spec fn modify_column_line(name: Seq<char>, column: ColumnView, required: bool) -> Seq<
    char,
> {
    let typed = "MODIFY "@ + name + " "@ + render_column_type_spec(column);
    let prefix = if required {
        typed + " NOT NULL "@
    } else {
        typed + " "@
    };
    match render_default_spec(column) {
        Some(default) => prefix + default,
        None => prefix,
    }
}

/// The lines that one change contributes to an `ALTER TABLE` statement.
pub open spec fn change_lines(
    family: SqlFamily,
    schema: Seq<char>,
    table: TableView,
    change: TableChangeView,
) -> Seq<Seq<char>> {
    match change {
        TableChangeView::AddColumn { column } => seq![
            "ADD COLUMN "@ + render_column_spec(family, schema, table, column, true),
        ],
        TableChangeView::DropColumn { name } => seq!["DROP COLUMN "@ + quote_spec(family, name)],
        TableChangeView::AlterColumn { name, column, change } => match change {
            ColumnChange::ReplaceColumn => drop_and_add_column_lines(
                family,
                schema,
                table,
                name,
                column,
            ),
            ColumnChange::ChangeArity { from, to } => {
                if family == SqlFamily::Postgres && from == ColumnArity::Nullable && to
                    == ColumnArity::Required {
                    seq!["ALTER COLUMN "@ + quote_spec(family, name) + " SET NOT NULL"@]
                } else if family == SqlFamily::Postgres && from == ColumnArity::Required && to
                    == ColumnArity::Nullable {
                    seq!["ALTER COLUMN "@ + quote_spec(family, name) + " DROP NOT NULL"@]
                } else if family == SqlFamily::Mysql && from == ColumnArity::Nullable && to
                    == ColumnArity::Required {
                    seq![modify_column_line(name, column, true)]
                } else if family == SqlFamily::Mysql && from == ColumnArity::Required && to
                    == ColumnArity::Nullable {
                    seq![modify_column_line(name, column, false)]
                } else {
                    drop_and_add_column_lines(family, schema, table, name, column)
                }
            },
        },
    }
}

/// The lines of the first `n` changes, in order.
pub open spec fn alter_table_lines(
    family: SqlFamily,
    schema: Seq<char>,
    table: TableView,
    changes: Seq<TableChangeView>,
    n: int,
) -> Seq<Seq<char>>
    decreases n,
{
    if n <= 0 {
        Seq::empty()
    } else {
        alter_table_lines(family, schema, table, changes, n - 1) + change_lines(
            family,
            schema,
            table,
            changes[n - 1],
        )
    }
}

/// The `ALTER TABLE` statement for the changes to a table.
pub open spec fn render_alter_table_spec(family: SqlFamily, schema: Seq<char>, alter: AlterTableView) -> Seq<
    char,
> {
    "ALTER TABLE "@ + quote_with_schema_spec(family, schema, alter.table.name) + " "@ + join_spec(
        alter_table_lines(family, schema, alter.table, alter.changes, alter.changes.len() as int),
        ",\n"@,
    ) + ";"@
}

/// Each of the names qualified by the schema.
pub open spec fn qualified_names(family: SqlFamily, schema: Seq<char>, names: Seq<Seq<char>>) -> Seq<
    Seq<char>,
> {
    Seq::new(names.len(), |i: int| quote_with_schema_spec(family, schema, names[i]))
}

/// The `CREATE INDEX` statement; SQLite qualifies the index by the schema
/// and names the table bare, the others do it the other way round.
pub open spec fn render_create_index_spec(family: SqlFamily, schema: Seq<char>, create: CreateIndexView) -> Seq<
    char,
> {
    let keyword = match create.index.tpe {
        IndexType::Unique => "CREATE UNIQUE INDEX "@,
        IndexType::Normal => "CREATE INDEX "@,
    };
    let index_name = match family {
        SqlFamily::Sqlite => quote_with_schema_spec(family, schema, create.index.name),
        _ => quote_spec(family, create.index.name),
    };
    keyword + index_name + " ON "@ + table_reference_spec(family, schema, create.table.name) + "("@
        + render_index_columns_spec(create.index.columns) + ")"@
}

/// The `DROP INDEX` statement; MySQL names the table of the index.
pub open spec fn render_drop_index_spec(family: SqlFamily, schema: Seq<char>, drop: DropIndexView) -> Seq<
    char,
> {
    match family {
        SqlFamily::Mysql => "DROP INDEX "@ + quote_spec(family, drop.name) + " ON "@
            + quote_with_schema_spec(family, schema, drop.table),
        _ => "DROP INDEX "@ + quote_with_schema_spec(family, schema, drop.name),
    }
}

/// The renaming of an index; SQLite has no statement for it.
pub open spec fn render_alter_index_spec(family: SqlFamily, schema: Seq<char>, alter: AlterIndexView) -> Seq<
    char,
>
    recommends
        family != SqlFamily::Sqlite,
{
    match family {
        SqlFamily::Mysql => "ALTER TABLE "@ + quote_with_schema_spec(family, schema, alter.table)
            + " RENAME INDEX "@ + quote_spec(family, alter.index_name) + " TO "@ + quote_spec(
            family,
            alter.index_new_name,
        ),
        SqlFamily::Postgres => "ALTER INDEX "@ + quote_with_schema_spec(
            family,
            schema,
            alter.index_name,
        ) + " RENAME TO "@ + quote_spec(family, alter.index_new_name),
        SqlFamily::Sqlite => arbitrary(),
    }
}

/// Whether the dialect has SQL for the step: all but the renaming of an index on SQLite.
pub open spec fn is_renderable(step: StepView, family: SqlFamily) -> bool {
    !(step is AlterIndex && family == SqlFamily::Sqlite)
}

/// The SQL of one step.
pub open spec fn render_raw_sql_spec(step: StepView, family: SqlFamily, schema: Seq<char>) -> Seq<
    char,
>
    recommends
        is_renderable(step, family),
{
    match step {
        StepView::CreateTable(table) => render_create_table_spec(family, schema, table),
        StepView::DropTable(name) => "DROP TABLE "@ + quote_with_schema_spec(family, schema, name)
            + ";"@,
        StepView::DropTables(names) => "DROP TABLE "@ + join_spec(
            qualified_names(family, schema, names),
            ","@,
        ) + ";"@,
        StepView::RenameTable { name, new_name } => "ALTER TABLE "@ + quote_with_schema_spec(
            family,
            schema,
            name,
        ) + " RENAME TO "@ + table_reference_spec(family, schema, new_name) + ";"@,
        StepView::AlterTable(alter) => render_alter_table_spec(family, schema, alter),
        StepView::CreateIndex(create) => render_create_index_spec(family, schema, create),
        StepView::DropIndex(drop) => render_drop_index_spec(family, schema, drop),
        StepView::AlterIndex(alter) => render_alter_index_spec(family, schema, alter),
        StepView::RawSql { raw } => raw,
    }
}

/// The SQL of each step, in order.
pub open spec fn render_steps_spec(steps: Seq<StepView>, family: SqlFamily, schema: Seq<char>) -> Seq<
    Seq<char>,
> {
    Seq::new(steps.len(), |i: int| render_raw_sql_spec(steps[i], family, schema))
}

/// What follows the closing bracket of a `CREATE TABLE` statement.
pub fn create_table_suffix(sql_family: SqlFamily) -> (suffix: &'static str)
    ensures
        suffix@ == create_table_suffix_spec(sql_family),
{
    match sql_family {
        SqlFamily::Sqlite => "",
        SqlFamily::Postgres => "",
        SqlFamily::Mysql => "\nDEFAULT CHARACTER SET utf8mb4 COLLATE utf8mb4_unicode_ci",
    }
}

/// Joins the names by `Itertools::join`, which writes the first name and then,
/// for each further one, the separator and the name.
#[verifier::external_body]
fn join_names(names: &Vec<String>, sep: &str) -> (joined: String)
    ensures
        joined@ == join_spec(names.deep_view(), sep@),
{
    names.iter().join(sep)
}

fn render_create_table(renderer: &SqlRenderer, schema_name: &str, table: &Table) -> (sql: String)
    ensures
        sql@ == render_create_table_spec(renderer.sql_family, schema_name@, table@),
{
    let primary_columns = table.primary_key_columns();
    let mut lines: Vec<String> = Vec::new();
    proof {
        assert(lines.deep_view() =~= Seq::empty());
    }
    let mut i: usize = 0;
    while i < table.columns.len()
        invariant
            i <= table.columns.len(),
            lines.deep_view() == column_lines(renderer.sql_family, schema_name@, table@, i as int),
        decreases table.columns.len() - i,
    {
        let col_sql = renderer.render_column(schema_name, table, &table.columns[i], false);
        push_back(&mut lines, glue("  ", col_sql.as_str()));
        i += 1;
    }
    let primary_key_was_already_set_in_column_line = contains(
        join(&lines, ",").as_str(),
        "PRIMARY KEY",
    );
    if primary_columns.len() > 0 && !primary_key_was_already_set_in_column_line {
        let mut line = glue("  PRIMARY KEY (", join_names(&primary_columns, ", ").as_str());
        line.append(")");
        push_back(&mut lines, line);
    }
    let mut sql = glue(
        "CREATE TABLE ",
        renderer.quote_with_schema(schema_name, table.name.as_str()).as_str(),
    );
    sql.append(" (\n");
    sql.append(join(&lines, ",\n").as_str());
    sql.append("\n)");
    sql.append(create_table_suffix(renderer.sql_family));
    sql.append(";");
    sql
}

/// Appends the two lines that drop a column and add its replacement.
pub fn render_drop_and_add_column(
    lines: &mut Vec<String>,
    schema_name: &str,
    table: &Table,
    initial_column_name: &str,
    column: &Column,
    renderer: &SqlRenderer,
)
    ensures
        final(lines).deep_view() == old(lines).deep_view() + drop_and_add_column_lines(
            renderer.sql_family,
            schema_name@,
            table@,
            initial_column_name@,
            column@,
        ),
{
    let name = renderer.quote(initial_column_name);
    push_back(lines, glue("DROP COLUMN ", name.as_str()));
    let col_sql = renderer.render_column(schema_name, table, column, true);
    push_back(lines, glue("ADD COLUMN ", col_sql.as_str()));
    proof {
        assert(lines.deep_view() =~= old(lines).deep_view() + drop_and_add_column_lines(
            renderer.sql_family,
            schema_name@,
            table@,
            initial_column_name@,
            column@,
        ));
    }
}

fn modify_column(renderer: &SqlRenderer, name: &str, column: &Column, required: bool) -> (line:
    String)
    ensures
        line@ == modify_column_line(name@, column@, required),
{
    let mut line = glue("MODIFY ", name);
    line.append(" ");
    line.append(renderer.render_column_type(column).as_str());
    if required {
        line.append(" NOT NULL ");
    } else {
        line.append(" ");
    }
    match renderer.render_default(column) {
        Some(default) => {
            line.append(default.as_str());
        },
        None => {},
    }
    line
}

fn render_change(
    lines: &mut Vec<String>,
    renderer: &SqlRenderer,
    schema_name: &str,
    table: &Table,
    change: &TableChange,
)
    ensures
        final(lines).deep_view() == old(lines).deep_view() + change_lines(
            renderer.sql_family,
            schema_name@,
            table@,
            change@,
        ),
{
    let ghost before = lines.deep_view();
    match change {
        TableChange::AddColumn(add) => {
            let col_sql = renderer.render_column(schema_name, table, &add.column, true);
            let line = glue("ADD COLUMN ", col_sql.as_str());
            proof {
                assert(before.push(line@) =~= before + seq![line@]);
            }
            push_back(lines, line);
        },
        TableChange::DropColumn(drop) => {
            let name = renderer.quote(drop.name.as_str());
            let line = glue("DROP COLUMN ", name.as_str());
            proof {
                assert(before.push(line@) =~= before + seq![line@]);
            }
            push_back(lines, line);
        },
        TableChange::AlterColumn(alter) => {
            match alter.change {
                ColumnChange::ReplaceColumn => {
                    render_drop_and_add_column(
                        lines,
                        schema_name,
                        table,
                        alter.name.as_str(),
                        &alter.column,
                        renderer,
                    );
                },
                ColumnChange::ChangeArity { from, to } => {
                    if renderer.sql_family == SqlFamily::Postgres && from == ColumnArity::Nullable
                        && to == ColumnArity::Required {
                        let mut line = glue(
                            "ALTER COLUMN ",
                            renderer.quote(alter.name.as_str()).as_str(),
                        );
                        line.append(" SET NOT NULL");
                        proof {
                            assert(before.push(line@) =~= before + seq![line@]);
                        }
                        push_back(lines, line);
                    } else if renderer.sql_family == SqlFamily::Postgres && from
                        == ColumnArity::Required && to == ColumnArity::Nullable {
                        let mut line = glue(
                            "ALTER COLUMN ",
                            renderer.quote(alter.name.as_str()).as_str(),
                        );
                        line.append(" DROP NOT NULL");
                        proof {
                            assert(before.push(line@) =~= before + seq![line@]);
                        }
                        push_back(lines, line);
                    } else if renderer.sql_family == SqlFamily::Mysql && from
                        == ColumnArity::Nullable && to == ColumnArity::Required {
                        let line = modify_column(
                            renderer,
                            alter.name.as_str(),
                            &alter.column,
                            true,
                        );
                        proof {
                            assert(before.push(line@) =~= before + seq![line@]);
                        }
                        push_back(lines, line);
                    } else if renderer.sql_family == SqlFamily::Mysql && from
                        == ColumnArity::Required && to == ColumnArity::Nullable {
                        let line = modify_column(
                            renderer,
                            alter.name.as_str(),
                            &alter.column,
                            false,
                        );
                        proof {
                            assert(before.push(line@) =~= before + seq![line@]);
                        }
                        push_back(lines, line);
                    } else {
                        render_drop_and_add_column(
                            lines,
                            schema_name,
                            table,
                            alter.name.as_str(),
                            &alter.column,
                            renderer,
                        );
                    }
                },
            }
        },
    }
}

fn render_alter_table(renderer: &SqlRenderer, schema_name: &str, alter: &AlterTable) -> (sql:
    String)
    ensures
        sql@ == render_alter_table_spec(renderer.sql_family, schema_name@, alter@),
{
    let mut lines: Vec<String> = Vec::new();
    proof {
        assert(lines.deep_view() =~= Seq::empty());
    }
    let mut i: usize = 0;
    while i < alter.changes.len()
        invariant
            i <= alter.changes.len(),
            lines.deep_view() == alter_table_lines(
                renderer.sql_family,
                schema_name@,
                alter@.table,
                alter@.changes,
                i as int,
            ),
        decreases alter.changes.len() - i,
    {
        render_change(&mut lines, renderer, schema_name, &alter.table, &alter.changes[i]);
        i += 1;
    }
    let mut sql = glue(
        "ALTER TABLE ",
        renderer.quote_with_schema(schema_name, alter.table.name.as_str()).as_str(),
    );
    sql.append(" ");
    sql.append(join(&lines, ",\n").as_str());
    sql.append(";");
    sql
}

fn table_reference(renderer: &SqlRenderer, schema_name: &str, table: &str) -> (rendered: String)
    ensures
        rendered@ == table_reference_spec(renderer.sql_family, schema_name@, table@),
{
    match renderer.sql_family {
        SqlFamily::Sqlite => renderer.quote(table),
        _ => renderer.quote_with_schema(schema_name, table),
    }
}

fn render_drop_tables(renderer: &SqlRenderer, schema_name: &str, names: &Vec<String>) -> (sql:
    String)
    ensures
        sql@ == "DROP TABLE "@ + join_spec(
            qualified_names(renderer.sql_family, schema_name@, names.deep_view()),
            ","@,
        ) + ";"@,
{
    let mut fully_qualified_names: Vec<String> = Vec::new();
    let mut i: usize = 0;
    while i < names.len()
        invariant
            i <= names.len(),
            fully_qualified_names@.len() == i,
            forall|k: int|
                0 <= k < i ==> fully_qualified_names@[k]@ == quote_with_schema_spec(
                    renderer.sql_family,
                    schema_name@,
                    names@[k]@,
                ),
        decreases names.len() - i,
    {
        fully_qualified_names.push(renderer.quote_with_schema(schema_name, names[i].as_str()));
        i += 1;
    }
    proof {
        assert(fully_qualified_names.deep_view() =~= qualified_names(
            renderer.sql_family,
            schema_name@,
            names.deep_view(),
        ));
    }
    let mut sql = glue("DROP TABLE ", join(&fully_qualified_names, ",").as_str());
    sql.append(";");
    sql
}

fn render_create_index(renderer: &SqlRenderer, schema_name: &str, create: &CreateIndex) -> (sql:
    String)
    ensures
        sql@ == render_create_index_spec(renderer.sql_family, schema_name@, create@),
{
    let keyword = match create.index.tpe {
        IndexType::Unique => "CREATE UNIQUE INDEX ",
        IndexType::Normal => "CREATE INDEX ",
    };
    let index_name = match renderer.sql_family {
        SqlFamily::Sqlite => renderer.quote_with_schema(schema_name, create.index.name.as_str()),
        _ => renderer.quote(create.index.name.as_str()),
    };
    let table_reference = table_reference(renderer, schema_name, create.table.name.as_str());
    let columns = renderer.render_index_columns(&create.table, &create.index.columns);
    let mut sql = glue(keyword, index_name.as_str());
    sql.append(" ON ");
    sql.append(table_reference.as_str());
    sql.append("(");
    sql.append(columns.as_str());
    sql.append(")");
    sql
}

fn render_drop_index(renderer: &SqlRenderer, schema_name: &str, drop: &DropIndex) -> (sql: String)
    ensures
        sql@ == render_drop_index_spec(renderer.sql_family, schema_name@, drop@),
{
    match renderer.sql_family {
        SqlFamily::Mysql => {
            let mut sql = glue("DROP INDEX ", renderer.quote(drop.name.as_str()).as_str());
            sql.append(" ON ");
            sql.append(renderer.quote_with_schema(schema_name, drop.table.as_str()).as_str());
            sql
        },
        _ => glue(
            "DROP INDEX ",
            renderer.quote_with_schema(schema_name, drop.name.as_str()).as_str(),
        ),
    }
}

fn render_alter_index(renderer: &SqlRenderer, schema_name: &str, alter: &AlterIndex) -> (sql:
    String)
    requires
        renderer.sql_family != SqlFamily::Sqlite,
    ensures
        sql@ == render_alter_index_spec(renderer.sql_family, schema_name@, alter@),
{
    match renderer.sql_family {
        SqlFamily::Mysql => {
            let mut sql = glue(
                "ALTER TABLE ",
                renderer.quote_with_schema(schema_name, alter.table.as_str()).as_str(),
            );
            sql.append(" RENAME INDEX ");
            sql.append(renderer.quote(alter.index_name.as_str()).as_str());
            sql.append(" TO ");
            sql.append(renderer.quote(alter.index_new_name.as_str()).as_str());
            sql
        },
        _ => {
            let mut sql = glue(
                "ALTER INDEX ",
                renderer.quote_with_schema(schema_name, alter.index_name.as_str()).as_str(),
            );
            sql.append(" RENAME TO ");
            sql.append(renderer.quote(alter.index_new_name.as_str()).as_str());
            sql
        },
    }
}

/// Whether the dialect has SQL for the step.
pub fn is_renderable_exec(step: &SqlMigrationStep, sql_family: SqlFamily) -> (renderable: bool)
    ensures
        renderable == is_renderable(step@, sql_family),
{
    match step {
        SqlMigrationStep::AlterIndex(_) => sql_family != SqlFamily::Sqlite,
        _ => true,
    }
}

/// Renders one step to the SQL of the dialect.
pub fn render_raw_sql(step: &SqlMigrationStep, sql_family: SqlFamily, schema_name: &str) -> (sql:
    String)
    requires
        is_renderable(step@, sql_family),
    ensures
        sql@ == render_raw_sql_spec(step@, sql_family, schema_name@),
{
    let renderer = SqlRenderer::for_family(&sql_family);
    match step {
        SqlMigrationStep::CreateTable(create) => render_create_table(
            &renderer,
            schema_name,
            &create.table,
        ),
        SqlMigrationStep::DropTable(drop) => {
            let mut sql = glue(
                "DROP TABLE ",
                renderer.quote_with_schema(schema_name, drop.name.as_str()).as_str(),
            );
            sql.append(";");
            sql
        },
        SqlMigrationStep::DropTables(drop) => render_drop_tables(
            &renderer,
            schema_name,
            &drop.names,
        ),
        SqlMigrationStep::RenameTable { name, new_name } => {
            let new_name = table_reference(&renderer, schema_name, new_name.as_str());
            let mut sql = glue(
                "ALTER TABLE ",
                renderer.quote_with_schema(schema_name, name.as_str()).as_str(),
            );
            sql.append(" RENAME TO ");
            sql.append(new_name.as_str());
            sql.append(";");
            sql
        },
        SqlMigrationStep::AlterTable(alter) => render_alter_table(&renderer, schema_name, alter),
        SqlMigrationStep::CreateIndex(create) => render_create_index(
            &renderer,
            schema_name,
            create,
        ),
        SqlMigrationStep::DropIndex(drop) => render_drop_index(&renderer, schema_name, drop),
        SqlMigrationStep::AlterIndex(alter) => render_alter_index(&renderer, schema_name, alter),
        SqlMigrationStep::RawSql { raw } => raw.clone(),
    }
}

/// The dialect has SQL for each of the steps.
pub open spec fn all_renderable(steps: Seq<StepView>, family: SqlFamily) -> bool {
    forall|i: int| 0 <= i < steps.len() ==> is_renderable(#[trigger] steps[i], family)
}

/// Whether the dialect has SQL for each of the steps.
pub fn all_renderable_exec(steps: &Vec<SqlMigrationStep>, sql_family: SqlFamily) -> (renderable:
    bool)
    ensures
        renderable == all_renderable(steps.deep_view(), sql_family),
{
    let mut i: usize = 0;
    while i < steps.len()
        invariant
            i <= steps.len(),
            forall|k: int| 0 <= k < i ==> is_renderable(#[trigger] steps.deep_view()[k], sql_family),
        decreases steps.len() - i,
    {
        if !is_renderable_exec(&steps[i], sql_family) {
            proof {
                assert(steps.deep_view()[i as int] == steps[i as int]@);
            }
            return false;
        }
        i += 1;
    }
    true
}

/// The SQL of each corrected step of the migration, in order.
pub fn render_steps_raw(
    database_migration: &SqlMigration,
    sql_family: SqlFamily,
    schema_name: &str,
) -> (rendered: Vec<String>)
    requires
        all_renderable(database_migration@.corrected_steps, sql_family),
    ensures
        rendered.deep_view() == render_steps_spec(
            database_migration@.corrected_steps,
            sql_family,
            schema_name@,
        ),
{
    let steps = &database_migration.corrected_steps;
    let mut rendered: Vec<String> = Vec::new();
    let mut i: usize = 0;
    while i < steps.len()
        invariant
            i <= steps.len(),
            all_renderable(steps.deep_view(), sql_family),
            rendered@.len() == i,
            forall|k: int|
                0 <= k < i ==> rendered@[k]@ == render_raw_sql_spec(
                    steps.deep_view()[k],
                    sql_family,
                    schema_name@,
                ),
        decreases steps.len() - i,
    {
        proof {
            assert(steps.deep_view()[i as int] == steps[i as int]@);
        }
        rendered.push(render_raw_sql(&steps[i], sql_family, schema_name));
        i += 1;
    }
    proof {
        assert(rendered.deep_view() =~= render_steps_spec(
            steps.deep_view(),
            sql_family,
            schema_name@,
        ));
    }
    rendered
}

/// The SQL to run for the step at `index`; `None` where the steps end before `index`.
pub fn next_step_sql(
    steps: &Vec<SqlMigrationStep>,
    index: usize,
    sql_family: SqlFamily,
    schema_name: &str,
) -> (sql: Option<String>)
    requires
        index < steps.len() ==> is_renderable(steps[index as int]@, sql_family),
    ensures
        match sql {
            Some(statement) => index < steps.len() && statement@ == render_raw_sql_spec(
                steps[index as int]@,
                sql_family,
                schema_name@,
            ),
            None => index >= steps.len(),
        },
{
    if index < steps.len() {
        Some(render_raw_sql(&steps[index], sql_family, schema_name))
    } else {
        None
    }
}

/// Whether a step follows the step at `index`.
pub fn has_more_steps(steps: &Vec<SqlMigrationStep>, index: usize) -> (more: bool)
    ensures
        more == (index + 1 < steps.len()),
{
    index < steps.len() && index < steps.len() - 1
}

} // verus!
