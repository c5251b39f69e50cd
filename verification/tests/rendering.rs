use sql_migration_connector::schema::{
    Column, ColumnArity, ColumnType, ColumnTypeFamily, ForeignKey, ForeignKeyAction, Index,
    IndexType, PrimaryKey, Table,
};
use sql_migration_connector::sql_database_step_applier::{
    all_renderable_exec, create_table_suffix, has_more_steps, is_renderable_exec, next_step_sql,
    render_drop_and_add_column, render_raw_sql, render_steps_raw,
};
use sql_migration_connector::sql_migration::{
    AddColumn, AlterColumn, AlterIndex, AlterTable, ColumnChange, CreateIndex, CreateTable,
    DropColumn, DropIndex, DropTable, DropTables, SqlMigration, SqlMigrationStep, TableChange,
};
use sql_migration_connector::sql_renderer::{SqlFamily, SqlRenderer};

fn col(name: &str, family: ColumnTypeFamily, raw: &str, arity: ColumnArity) -> Column {
    Column {
        name: name.to_string(),
        tpe: ColumnType { raw: raw.to_string(), family },
        arity,
        default: None,
    }
}

fn users() -> Table {
    let mut name = col("name", ColumnTypeFamily::String, "text", ColumnArity::Nullable);
    name.default = Some("anonymous".to_string());
    let mut age = col("age", ColumnTypeFamily::Int, "integer", ColumnArity::Required);
    age.default = Some("18".to_string());
    Table {
        name: "users".to_string(),
        columns: vec![
            col("id", ColumnTypeFamily::Int, "integer", ColumnArity::Required),
            name,
            age,
            col("team_id", ColumnTypeFamily::Int, "integer", ColumnArity::Nullable),
        ],
        indices: vec![],
        primary_key: Some(PrimaryKey { columns: vec!["id".to_string()] }),
        foreign_keys: vec![ForeignKey {
            columns: vec!["team_id".to_string()],
            referenced_table: "teams".to_string(),
            referenced_columns: vec!["id".to_string()],
            on_delete_action: ForeignKeyAction::SetNull,
        }],
    }
}

fn alter(changes: Vec<TableChange>) -> SqlMigrationStep {
    SqlMigrationStep::AlterTable(AlterTable { table: users(), changes })
}

#[test]
fn quoting_follows_the_dialect() {
    let sqlite = SqlRenderer::for_family(&SqlFamily::Sqlite);
    let postgres = SqlRenderer::for_family(&SqlFamily::Postgres);
    let mysql = SqlRenderer::for_family(&SqlFamily::Mysql);
    assert_eq!(sqlite.quote("a"), "\"a\"");
    assert_eq!(postgres.quote("a"), "\"a\"");
    assert_eq!(mysql.quote("a"), "`a`");
    assert_eq!(sqlite.quote_with_schema("s", "a"), "\"s\".\"a\"");
    assert_eq!(postgres.quote_with_schema("s", "a"), "\"s\".\"a\"");
    assert_eq!(mysql.quote_with_schema("s", "a"), "`s`.`a`");
    assert_eq!(mysql.quote(""), "``");
}

#[test]
fn create_table_suffix_is_set_on_mysql_only() {
    assert_eq!(create_table_suffix(SqlFamily::Sqlite), "");
    assert_eq!(create_table_suffix(SqlFamily::Postgres), "");
    assert_eq!(
        create_table_suffix(SqlFamily::Mysql),
        "\nDEFAULT CHARACTER SET utf8mb4 COLLATE utf8mb4_unicode_ci"
    );
}

#[test]
fn column_definitions() {
    let table = users();
    let postgres = SqlRenderer::for_family(&SqlFamily::Postgres);
    assert_eq!(postgres.render_column("s", &table, &table.columns[0], false), "\"id\" integer NOT NULL");
    assert_eq!(
        postgres.render_column("s", &table, &table.columns[1], false),
        "\"name\" text DEFAULT 'anonymous'"
    );
    assert_eq!(
        postgres.render_column("s", &table, &table.columns[2], true),
        "\"age\" integer NOT NULL DEFAULT 18"
    );
    assert_eq!(
        postgres.render_column("s", &table, &table.columns[3], true),
        "\"team_id\" integer REFERENCES \"s\".\"teams\"(\"id\") ON DELETE SET NULL"
    );
    let sqlite = SqlRenderer::for_family(&SqlFamily::Sqlite);
    assert_eq!(
        sqlite.render_column("s", &table, &table.columns[3], true),
        "\"team_id\" integer REFERENCES \"teams\"(\"id\") ON DELETE SET NULL"
    );
    let mysql = SqlRenderer::for_family(&SqlFamily::Mysql);
    assert_eq!(
        mysql.render_column("s", &table, &table.columns[3], true),
        "`team_id` integer,\nADD FOREIGN KEY (`team_id`) REFERENCES `s`.`teams`(`id`) ON DELETE SET NULL"
    );
    assert_eq!(
        mysql.render_column("s", &table, &table.columns[3], false),
        "`team_id` integer,\nFOREIGN KEY (`team_id`) REFERENCES `s`.`teams`(`id`) ON DELETE SET NULL"
    );
    assert_eq!(postgres.render_column_type(&table.columns[1]), "text");
    assert_eq!(postgres.render_default(&table.columns[0]), None);
    assert_eq!(
        postgres.render_default(&table.columns[1]),
        Some("DEFAULT 'anonymous'".to_string())
    );
    assert_eq!(postgres.render_default(&table.columns[2]), Some("DEFAULT 18".to_string()));
    assert_eq!(
        postgres.render_index_columns(&table, &vec!["a".to_string(), "b".to_string()]),
        "a,b"
    );
}

#[test]
fn references_name_every_action_and_all_referenced_columns() {
    let renderer = SqlRenderer::for_family(&SqlFamily::Postgres);
    let mut key = ForeignKey {
        columns: vec!["a".to_string(), "b".to_string()],
        referenced_table: "t".to_string(),
        referenced_columns: vec!["x".to_string(), "y".to_string()],
        on_delete_action: ForeignKeyAction::NoAction,
    };
    assert_eq!(
        renderer.render_references("s", &key),
        "REFERENCES \"s\".\"t\"(\"x\",\"y\") ON DELETE NO ACTION"
    );
    key.on_delete_action = ForeignKeyAction::Restrict;
    assert!(renderer.render_references("s", &key).ends_with("ON DELETE RESTRICT"));
    key.on_delete_action = ForeignKeyAction::Cascade;
    assert!(renderer.render_references("s", &key).ends_with("ON DELETE CASCADE"));
    key.on_delete_action = ForeignKeyAction::SetNull;
    assert!(renderer.render_references("s", &key).ends_with("ON DELETE SET NULL"));
    key.on_delete_action = ForeignKeyAction::SetDefault;
    assert!(renderer.render_references("s", &key).ends_with("ON DELETE SET DEFAULT"));
}

#[test]
fn create_table_on_each_dialect() {
    let step = SqlMigrationStep::CreateTable(CreateTable { table: users() });
    assert_eq!(
        render_raw_sql(&step, SqlFamily::Postgres, "s"),
        "CREATE TABLE \"s\".\"users\" (\n  \"id\" integer NOT NULL,\n  \"name\" text DEFAULT 'anonymous',\n  \"age\" integer NOT NULL DEFAULT 18,\n  \"team_id\" integer REFERENCES \"s\".\"teams\"(\"id\") ON DELETE SET NULL,\n  PRIMARY KEY (id)\n);"
    );
    assert_eq!(
        render_raw_sql(&step, SqlFamily::Sqlite, "s"),
        "CREATE TABLE \"s\".\"users\" (\n  \"id\" integer NOT NULL,\n  \"name\" text DEFAULT 'anonymous',\n  \"age\" integer NOT NULL DEFAULT 18,\n  \"team_id\" integer REFERENCES \"teams\"(\"id\") ON DELETE SET NULL,\n  PRIMARY KEY (id)\n);"
    );
    assert_eq!(
        render_raw_sql(&step, SqlFamily::Mysql, "s"),
        "CREATE TABLE `s`.`users` (\n  `id` integer NOT NULL,\n  `name` text DEFAULT 'anonymous',\n  `age` integer NOT NULL DEFAULT 18,\n  `team_id` integer,\nFOREIGN KEY (`team_id`) REFERENCES `s`.`teams`(`id`) ON DELETE SET NULL,\n  PRIMARY KEY (id)\n)\nDEFAULT CHARACTER SET utf8mb4 COLLATE utf8mb4_unicode_ci;"
    );
}

#[test]
fn primary_key_line_lists_all_key_columns() {
    let table = Table {
        name: "pairs".to_string(),
        columns: vec![
            col("a", ColumnTypeFamily::Int, "int", ColumnArity::Required),
            col("b", ColumnTypeFamily::Int, "int", ColumnArity::Required),
        ],
        indices: vec![],
        primary_key: Some(PrimaryKey { columns: vec!["a".to_string(), "b".to_string()] }),
        foreign_keys: vec![],
    };
    let step = SqlMigrationStep::CreateTable(CreateTable { table });
    assert_eq!(
        render_raw_sql(&step, SqlFamily::Postgres, "s"),
        "CREATE TABLE \"s\".\"pairs\" (\n  \"a\" int NOT NULL,\n  \"b\" int NOT NULL,\n  PRIMARY KEY (a, b)\n);"
    );
}

#[test]
fn primary_key_line_is_left_out_where_a_column_declares_the_key_or_there_is_none() {
    let mut table = Table {
        name: "t".to_string(),
        columns: vec![col(
            "id",
            ColumnTypeFamily::Int,
            "INTEGER PRIMARY KEY AUTOINCREMENT",
            ColumnArity::Required,
        )],
        indices: vec![],
        primary_key: Some(PrimaryKey { columns: vec!["id".to_string()] }),
        foreign_keys: vec![],
    };
    let step = SqlMigrationStep::CreateTable(CreateTable { table: table.clone() });
    assert_eq!(
        render_raw_sql(&step, SqlFamily::Sqlite, "s"),
        "CREATE TABLE \"s\".\"t\" (\n  \"id\" INTEGER PRIMARY KEY AUTOINCREMENT NOT NULL\n);"
    );
    table.columns[0].tpe.raw = "INTEGER".to_string();
    table.primary_key = Some(PrimaryKey { columns: vec![] });
    let step = SqlMigrationStep::CreateTable(CreateTable { table: table.clone() });
    assert_eq!(
        render_raw_sql(&step, SqlFamily::Sqlite, "s"),
        "CREATE TABLE \"s\".\"t\" (\n  \"id\" INTEGER NOT NULL\n);"
    );
    table.primary_key = None;
    let step = SqlMigrationStep::CreateTable(CreateTable { table });
    assert_eq!(
        render_raw_sql(&step, SqlFamily::Sqlite, "s"),
        "CREATE TABLE \"s\".\"t\" (\n  \"id\" INTEGER NOT NULL\n);"
    );
}

#[test]
fn drop_and_rename_table() {
    let drop = SqlMigrationStep::DropTable(DropTable { name: "t".to_string() });
    assert_eq!(render_raw_sql(&drop, SqlFamily::Postgres, "s"), "DROP TABLE \"s\".\"t\";");
    assert_eq!(render_raw_sql(&drop, SqlFamily::Mysql, "s"), "DROP TABLE `s`.`t`;");
    let drops = SqlMigrationStep::DropTables(DropTables {
        names: vec!["a".to_string(), "b".to_string(), "c".to_string()],
    });
    assert_eq!(
        render_raw_sql(&drops, SqlFamily::Mysql, "s"),
        "DROP TABLE `s`.`a`,`s`.`b`,`s`.`c`;"
    );
    let none = SqlMigrationStep::DropTables(DropTables { names: vec![] });
    assert_eq!(render_raw_sql(&none, SqlFamily::Mysql, "s"), "DROP TABLE ;");
    let rename =
        SqlMigrationStep::RenameTable { name: "old".to_string(), new_name: "new".to_string() };
    assert_eq!(
        render_raw_sql(&rename, SqlFamily::Sqlite, "s"),
        "ALTER TABLE \"s\".\"old\" RENAME TO \"new\";"
    );
    assert_eq!(
        render_raw_sql(&rename, SqlFamily::Postgres, "s"),
        "ALTER TABLE \"s\".\"old\" RENAME TO \"s\".\"new\";"
    );
    assert_eq!(
        render_raw_sql(&rename, SqlFamily::Mysql, "s"),
        "ALTER TABLE `s`.`old` RENAME TO `s`.`new`;"
    );
}

#[test]
fn alter_table_joins_the_lines_of_its_changes() {
    let table = users();
    let step = alter(vec![
        TableChange::DropColumn(DropColumn { name: "old".to_string() }),
        TableChange::AddColumn(AddColumn { column: table.columns[3].clone() }),
        TableChange::AlterColumn(AlterColumn {
            name: "age".to_string(),
            column: table.columns[2].clone(),
            change: ColumnChange::ReplaceColumn,
        }),
    ]);
    assert_eq!(
        render_raw_sql(&step, SqlFamily::Postgres, "s"),
        "ALTER TABLE \"s\".\"users\" DROP COLUMN \"old\",\nADD COLUMN \"team_id\" integer REFERENCES \"s\".\"teams\"(\"id\") ON DELETE SET NULL,\nDROP COLUMN \"age\",\nADD COLUMN \"age\" integer NOT NULL DEFAULT 18;"
    );
    assert_eq!(render_raw_sql(&alter(vec![]), SqlFamily::Postgres, "s"), "ALTER TABLE \"s\".\"users\" ;");
}

#[test]
fn change_of_arity_depends_on_the_dialect() {
    let table = users();
    let change = |from: ColumnArity, to: ColumnArity| {
        alter(vec![TableChange::AlterColumn(AlterColumn {
            name: "name".to_string(),
            column: table.columns[1].clone(),
            change: ColumnChange::ChangeArity { from, to },
        })])
    };
    let to_required = change(ColumnArity::Nullable, ColumnArity::Required);
    let to_nullable = change(ColumnArity::Required, ColumnArity::Nullable);
    let to_list = change(ColumnArity::Required, ColumnArity::List);
    assert_eq!(
        render_raw_sql(&to_required, SqlFamily::Postgres, "s"),
        "ALTER TABLE \"s\".\"users\" ALTER COLUMN \"name\" SET NOT NULL;"
    );
    assert_eq!(
        render_raw_sql(&to_nullable, SqlFamily::Postgres, "s"),
        "ALTER TABLE \"s\".\"users\" ALTER COLUMN \"name\" DROP NOT NULL;"
    );
    assert_eq!(
        render_raw_sql(&to_required, SqlFamily::Mysql, "s"),
        "ALTER TABLE `s`.`users` MODIFY name text NOT NULL DEFAULT 'anonymous';"
    );
    assert_eq!(
        render_raw_sql(&to_nullable, SqlFamily::Mysql, "s"),
        "ALTER TABLE `s`.`users` MODIFY name text DEFAULT 'anonymous';"
    );
    assert_eq!(
        render_raw_sql(&to_required, SqlFamily::Sqlite, "s"),
        "ALTER TABLE \"s\".\"users\" DROP COLUMN \"name\",\nADD COLUMN \"name\" text DEFAULT 'anonymous';"
    );
    assert_eq!(
        render_raw_sql(&to_list, SqlFamily::Postgres, "s"),
        "ALTER TABLE \"s\".\"users\" DROP COLUMN \"name\",\nADD COLUMN \"name\" text DEFAULT 'anonymous';"
    );
    assert_eq!(
        render_raw_sql(&to_list, SqlFamily::Mysql, "s"),
        "ALTER TABLE `s`.`users` DROP COLUMN `name`,\nADD COLUMN `name` text DEFAULT 'anonymous';"
    );
}

#[test]
fn modify_without_default_keeps_the_space_before_it() {
    let table = users();
    let step = alter(vec![TableChange::AlterColumn(AlterColumn {
        name: "id".to_string(),
        column: table.columns[0].clone(),
        change: ColumnChange::ChangeArity {
            from: ColumnArity::Nullable,
            to: ColumnArity::Required,
        },
    })]);
    assert_eq!(
        render_raw_sql(&step, SqlFamily::Mysql, "s"),
        "ALTER TABLE `s`.`users` MODIFY id integer NOT NULL ;"
    );
}

#[test]
fn drop_and_add_column_appends_two_lines() {
    let table = users();
    let renderer = SqlRenderer::for_family(&SqlFamily::Postgres);
    let mut lines = vec!["first".to_string()];
    render_drop_and_add_column(&mut lines, "s", &table, "was", &table.columns[0], &renderer);
    assert_eq!(
        lines,
        vec![
            "first".to_string(),
            "DROP COLUMN \"was\"".to_string(),
            "ADD COLUMN \"id\" integer NOT NULL".to_string(),
        ]
    );
}

#[test]
fn indexes_on_each_dialect() {
    let index = |tpe: IndexType| Index {
        name: "ix".to_string(),
        columns: vec!["a".to_string(), "b".to_string()],
        tpe,
    };
    let create = |tpe: IndexType| {
        SqlMigrationStep::CreateIndex(CreateIndex { table: users(), index: index(tpe) })
    };
    assert_eq!(
        render_raw_sql(&create(IndexType::Normal), SqlFamily::Sqlite, "s"),
        "CREATE INDEX \"s\".\"ix\" ON \"users\"(a,b)"
    );
    assert_eq!(
        render_raw_sql(&create(IndexType::Unique), SqlFamily::Postgres, "s"),
        "CREATE UNIQUE INDEX \"ix\" ON \"s\".\"users\"(a,b)"
    );
    assert_eq!(
        render_raw_sql(&create(IndexType::Normal), SqlFamily::Mysql, "s"),
        "CREATE INDEX `ix` ON `s`.`users`(a,b)"
    );
    let drop =
        SqlMigrationStep::DropIndex(DropIndex { table: "users".to_string(), name: "ix".to_string() });
    assert_eq!(render_raw_sql(&drop, SqlFamily::Mysql, "s"), "DROP INDEX `ix` ON `s`.`users`");
    assert_eq!(render_raw_sql(&drop, SqlFamily::Postgres, "s"), "DROP INDEX \"s\".\"ix\"");
    assert_eq!(render_raw_sql(&drop, SqlFamily::Sqlite, "s"), "DROP INDEX \"s\".\"ix\"");
    let rename = SqlMigrationStep::AlterIndex(AlterIndex {
        table: "users".to_string(),
        index_name: "ix".to_string(),
        index_new_name: "ix2".to_string(),
    });
    assert_eq!(
        render_raw_sql(&rename, SqlFamily::Mysql, "s"),
        "ALTER TABLE `s`.`users` RENAME INDEX `ix` TO `ix2`"
    );
    assert_eq!(
        render_raw_sql(&rename, SqlFamily::Postgres, "s"),
        "ALTER INDEX \"s\".\"ix\" RENAME TO \"ix2\""
    );
    assert!(!is_renderable_exec(&rename, SqlFamily::Sqlite));
    assert!(is_renderable_exec(&rename, SqlFamily::Mysql));
    assert!(is_renderable_exec(&drop, SqlFamily::Sqlite));
}

#[test]
fn raw_sql_is_rendered_as_it_is() {
    let step = SqlMigrationStep::RawSql { raw: "PRAGMA foreign_keys=OFF;".to_string() };
    assert_eq!(render_raw_sql(&step, SqlFamily::Sqlite, "s"), "PRAGMA foreign_keys=OFF;");
    let empty = SqlMigrationStep::RawSql { raw: String::new() };
    assert_eq!(render_raw_sql(&empty, SqlFamily::Mysql, "s"), "");
}

#[test]
fn steps_are_rendered_in_order_and_walked_by_index() {
    let steps = vec![
        SqlMigrationStep::DropTable(DropTable { name: "a".to_string() }),
        SqlMigrationStep::RawSql { raw: "SELECT 1".to_string() },
    ];
    let mut migration = SqlMigration::empty();
    migration.corrected_steps = steps.clone();
    assert!(all_renderable_exec(&migration.corrected_steps, SqlFamily::Sqlite));
    assert_eq!(
        render_steps_raw(&migration, SqlFamily::Sqlite, "s"),
        vec!["DROP TABLE \"s\".\"a\";".to_string(), "SELECT 1".to_string()]
    );
    assert_eq!(
        next_step_sql(&steps, 0, SqlFamily::Sqlite, "s"),
        Some("DROP TABLE \"s\".\"a\";".to_string())
    );
    assert_eq!(next_step_sql(&steps, 1, SqlFamily::Sqlite, "s"), Some("SELECT 1".to_string()));
    assert_eq!(next_step_sql(&steps, 2, SqlFamily::Sqlite, "s"), None);
    assert!(has_more_steps(&steps, 0));
    assert!(!has_more_steps(&steps, 1));
    assert!(!has_more_steps(&steps, 2));
    assert!(!has_more_steps(&steps, usize::MAX));
    assert!(!has_more_steps(&vec![], 0));

    let rename = SqlMigrationStep::AlterIndex(AlterIndex {
        table: "t".to_string(),
        index_name: "a".to_string(),
        index_new_name: "b".to_string(),
    });
    assert!(!all_renderable_exec(&vec![steps[0].clone(), rename.clone()], SqlFamily::Sqlite));
    assert!(all_renderable_exec(&vec![steps[0].clone(), rename], SqlFamily::Postgres));
}

#[test]
fn the_empty_migration_has_no_steps() {
    let migration = SqlMigration::empty();
    assert!(migration.before.tables.is_empty());
    assert!(migration.after.tables.is_empty());
    assert!(migration.original_steps.is_empty());
    assert!(migration.corrected_steps.is_empty());
    assert!(migration.rollback.is_empty());
    assert_eq!(render_steps_raw(&migration, SqlFamily::Mysql, "s"), Vec::<String>::new());
    assert_eq!(migration.clone(), migration);
}
