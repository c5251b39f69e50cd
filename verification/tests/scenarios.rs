use sql_migration_connector::schema::{
    Column, ColumnArity, ColumnType, ColumnTypeFamily, ForeignKey, ForeignKeyAction, Index,
    IndexType, PrimaryKey, SqlSchema, Table,
};
use sql_migration_connector::sql_database_migration_inferrer::infer;
use sql_migration_connector::sql_database_step_applier::render_raw_sql;
use sql_migration_connector::sql_migration::{
    AddColumn, AlterColumn, AlterTable, ColumnChange, CreateIndex, CreateTable, DropTable,
    DropTables, SqlMigrationStep, TableChange,
};
use sql_migration_connector::sql_renderer::SqlFamily;

fn column(name: &str, family: ColumnTypeFamily, raw: &str, arity: ColumnArity) -> Column {
    Column {
        name: name.to_string(),
        tpe: ColumnType { raw: raw.to_string(), family },
        arity,
        default: None,
    }
}

fn int_column(name: &str) -> Column {
    column(name, ColumnTypeFamily::Int, "INT", ColumnArity::Required)
}

fn text_column(name: &str) -> Column {
    column(name, ColumnTypeFamily::String, "TEXT", ColumnArity::Nullable)
}

fn table(name: &str, columns: Vec<Column>) -> Table {
    Table {
        name: name.to_string(),
        columns,
        indices: vec![],
        primary_key: Some(PrimaryKey { columns: vec!["id".to_string()] }),
        foreign_keys: vec![],
    }
}

fn foreign_key(column: &str, referenced_table: &str) -> ForeignKey {
    ForeignKey {
        columns: vec![column.to_string()],
        referenced_table: referenced_table.to_string(),
        referenced_columns: vec!["id".to_string()],
        on_delete_action: ForeignKeyAction::Cascade,
    }
}

fn raw(sql: &str) -> SqlMigrationStep {
    SqlMigrationStep::RawSql { raw: sql.to_string() }
}

#[test]
fn add_nullable_column_on_postgres_is_one_alter_table() {
    let current = SqlSchema { tables: vec![table("T", vec![int_column("id"), int_column("a")])] };
    let b = text_column("b");
    let target_table = table("T", vec![int_column("id"), int_column("a"), b.clone()]);
    let target = SqlSchema { tables: vec![target_table.clone()] };

    let migration = infer(&current, &target, "schema", SqlFamily::Postgres).unwrap();

    let expected = vec![SqlMigrationStep::AlterTable(AlterTable {
        table: target_table,
        changes: vec![TableChange::AddColumn(AddColumn { column: b })],
    })];
    assert_eq!(migration.corrected_steps, expected);
    assert_eq!(migration.original_steps, expected);
    assert_eq!(migration.before, current);
    assert_eq!(migration.after, target);
    assert_eq!(
        render_raw_sql(&migration.corrected_steps[0], SqlFamily::Postgres, "schema"),
        "ALTER TABLE \"schema\".\"T\" ADD COLUMN \"b\" TEXT;"
    );
}

#[test]
fn cyclic_foreign_keys_on_mysql_are_added_after_both_tables() {
    let mut a = table("A", vec![int_column("id"), int_column("b_id")]);
    a.foreign_keys = vec![foreign_key("b_id", "B")];
    let mut b = table("B", vec![int_column("id"), int_column("a_id")]);
    b.foreign_keys = vec![foreign_key("a_id", "A")];
    let target = SqlSchema { tables: vec![a.clone(), b.clone()] };

    let migration = infer(&SqlSchema::empty(), &target, "schema", SqlFamily::Mysql).unwrap();

    let mut a_pruned = a.clone();
    a_pruned.columns = vec![int_column("id")];
    let mut b_pruned = b.clone();
    b_pruned.columns = vec![int_column("id")];
    assert_eq!(
        migration.corrected_steps,
        vec![
            SqlMigrationStep::CreateTable(CreateTable { table: a_pruned.clone() }),
            SqlMigrationStep::CreateTable(CreateTable { table: b_pruned.clone() }),
            SqlMigrationStep::AlterTable(AlterTable {
                table: a_pruned,
                changes: vec![TableChange::AddColumn(AddColumn { column: int_column("b_id") })],
            }),
            SqlMigrationStep::AlterTable(AlterTable {
                table: b_pruned,
                changes: vec![TableChange::AddColumn(AddColumn { column: int_column("a_id") })],
            }),
        ]
    );
    assert_eq!(
        migration.original_steps,
        vec![
            SqlMigrationStep::CreateTable(CreateTable { table: a }),
            SqlMigrationStep::CreateTable(CreateTable { table: b }),
        ]
    );
    assert_eq!(
        render_raw_sql(&migration.corrected_steps[2], SqlFamily::Mysql, "schema"),
        "ALTER TABLE `schema`.`A` ADD COLUMN `b_id` INT NOT NULL,\nADD FOREIGN KEY (`b_id`) REFERENCES `schema`.`B`(`id`) ON DELETE CASCADE;"
    );
}

#[test]
fn dropping_a_column_on_sqlite_rebuilds_the_table() {
    let current_table = table("T", vec![int_column("id"), text_column("a"), text_column("b")]);
    let target_table = table("T", vec![int_column("id"), text_column("a")]);
    let current = SqlSchema { tables: vec![current_table] };
    let target = SqlSchema { tables: vec![target_table.clone()] };

    let migration = infer(&current, &target, "schema", SqlFamily::Sqlite).unwrap();

    let mut temporary = target_table.clone();
    temporary.name = "new_T".to_string();
    assert_eq!(
        migration.corrected_steps,
        vec![
            raw("PRAGMA foreign_keys=OFF;"),
            SqlMigrationStep::CreateTable(CreateTable { table: temporary }),
            raw("INSERT INTO \"new_T\" (\"id\",\"a\") SELECT \"id\",\"a\" FROM \"T\""),
            SqlMigrationStep::DropTable(DropTable { name: "T".to_string() }),
            SqlMigrationStep::RenameTable { name: "new_T".to_string(), new_name: "T".to_string() },
            raw("PRAGMA \"schema\".foreign_key_check;"),
            raw("PRAGMA foreign_keys=ON;"),
        ]
    );
    let rendered: Vec<String> = migration
        .corrected_steps
        .iter()
        .map(|step| render_raw_sql(step, SqlFamily::Sqlite, "schema"))
        .collect();
    assert_eq!(
        rendered,
        vec![
            "PRAGMA foreign_keys=OFF;".to_string(),
            "CREATE TABLE \"schema\".\"new_T\" (\n  \"id\" INT NOT NULL,\n  \"a\" TEXT,\n  PRIMARY KEY (id)\n);"
                .to_string(),
            "INSERT INTO \"new_T\" (\"id\",\"a\") SELECT \"id\",\"a\" FROM \"T\"".to_string(),
            "DROP TABLE \"schema\".\"T\";".to_string(),
            "ALTER TABLE \"schema\".\"new_T\" RENAME TO \"T\";".to_string(),
            "PRAGMA \"schema\".foreign_key_check;".to_string(),
            "PRAGMA foreign_keys=ON;".to_string(),
        ]
    );
    // the way back adds a nullable column, which SQLite can do in place
    assert_eq!(
        migration.rollback,
        vec![SqlMigrationStep::AlterTable(AlterTable {
            table: table("T", vec![int_column("id"), text_column("a"), text_column("b")]),
            changes: vec![TableChange::AddColumn(AddColumn { column: text_column("b") })],
        })]
    );
}

#[test]
fn required_text_column_on_mysql_is_added_in_three_steps() {
    let mut note = column("note", ColumnTypeFamily::String, "TEXT", ColumnArity::Required);
    note.default = Some("x".to_string());
    let current = SqlSchema { tables: vec![table("T", vec![int_column("id")])] };
    let target_table = table("T", vec![int_column("id"), note.clone()]);
    let target = SqlSchema { tables: vec![target_table.clone()] };

    let migration = infer(&current, &target, "schema", SqlFamily::Mysql).unwrap();

    let mut nullable_note = note.clone();
    nullable_note.arity = ColumnArity::Nullable;
    assert_eq!(
        migration.corrected_steps,
        vec![
            SqlMigrationStep::AlterTable(AlterTable {
                table: target_table.clone(),
                changes: vec![TableChange::AddColumn(AddColumn { column: nullable_note })],
            }),
            raw("UPDATE `schema`.`T` SET `note` = 'x'"),
            SqlMigrationStep::AlterTable(AlterTable {
                table: target_table.clone(),
                changes: vec![TableChange::AlterColumn(AlterColumn {
                    name: "note".to_string(),
                    column: note.clone(),
                    change: ColumnChange::ChangeArity {
                        from: ColumnArity::Nullable,
                        to: ColumnArity::Required,
                    },
                })],
            }),
        ]
    );
    assert_eq!(
        migration.original_steps,
        vec![SqlMigrationStep::AlterTable(AlterTable {
            table: target_table,
            changes: vec![TableChange::AddColumn(AddColumn { column: note })],
        })]
    );
    let rendered: Vec<String> = migration
        .corrected_steps
        .iter()
        .map(|step| render_raw_sql(step, SqlFamily::Mysql, "schema"))
        .collect();
    assert_eq!(
        rendered,
        vec![
            "ALTER TABLE `schema`.`T` ADD COLUMN `note` TEXT DEFAULT 'x';".to_string(),
            "UPDATE `schema`.`T` SET `note` = 'x'".to_string(),
            "ALTER TABLE `schema`.`T` MODIFY note TEXT NOT NULL DEFAULT 'x';".to_string(),
        ]
    );
}

#[test]
fn primary_key_type_change_on_postgres_starts_from_scratch() {
    let t = table("T", vec![int_column("id")]);
    let u = table("U", vec![int_column("id"), text_column("name")]);
    let bookkeeping = table("_Migration", vec![int_column("id")]);
    let current = SqlSchema { tables: vec![u.clone(), bookkeeping, t] };
    let t_next =
        table("T", vec![column("id", ColumnTypeFamily::Uuid, "UUID", ColumnArity::Required)]);
    let target = SqlSchema { tables: vec![t_next.clone(), u.clone()] };

    let migration = infer(&current, &target, "schema", SqlFamily::Postgres).unwrap();

    assert_eq!(
        migration.corrected_steps,
        vec![
            SqlMigrationStep::DropTables(DropTables {
                names: vec!["T".to_string(), "U".to_string()]
            }),
            SqlMigrationStep::CreateTable(CreateTable { table: t_next }),
            SqlMigrationStep::CreateTable(CreateTable { table: u }),
        ]
    );
    assert_eq!(
        render_raw_sql(&migration.corrected_steps[0], SqlFamily::Postgres, "schema"),
        "DROP TABLE \"schema\".\"T\",\"schema\".\"U\";"
    );
}

#[test]
fn renaming_an_index_on_sqlite_rebuilds_the_table() {
    let mut current_table = table("T", vec![int_column("id"), int_column("a")]);
    current_table.indices = vec![Index {
        name: "ix_a".to_string(),
        columns: vec!["a".to_string()],
        tpe: IndexType::Normal,
    }];
    let mut target_table = current_table.clone();
    target_table.indices[0].name = "ix_new".to_string();
    let current = SqlSchema { tables: vec![current_table] };
    let target = SqlSchema { tables: vec![target_table.clone()] };

    let migration = infer(&current, &target, "schema", SqlFamily::Sqlite).unwrap();

    let mut temporary = target_table.clone();
    temporary.name = "new_T".to_string();
    assert_eq!(
        migration.corrected_steps,
        vec![
            raw("PRAGMA foreign_keys=OFF;"),
            SqlMigrationStep::CreateTable(CreateTable { table: temporary }),
            raw("INSERT INTO \"new_T\" (\"id\",\"a\") SELECT \"id\",\"a\" FROM \"T\""),
            SqlMigrationStep::DropTable(DropTable { name: "T".to_string() }),
            SqlMigrationStep::RenameTable { name: "new_T".to_string(), new_name: "T".to_string() },
            SqlMigrationStep::CreateIndex(CreateIndex {
                table: target_table.clone(),
                index: target_table.indices[0].clone(),
            }),
            raw("PRAGMA \"schema\".foreign_key_check;"),
            raw("PRAGMA foreign_keys=ON;"),
        ]
    );
    assert_eq!(
        render_raw_sql(&migration.corrected_steps[5], SqlFamily::Sqlite, "schema"),
        "CREATE INDEX \"schema\".\"ix_new\" ON \"T\"(a)"
    );
}

#[test]
fn a_schema_does_not_differ_from_itself() {
    let mut orders = table("orders", vec![int_column("id"), int_column("customer_id")]);
    orders.foreign_keys = vec![foreign_key("customer_id", "customers")];
    orders.indices = vec![Index {
        name: "orders_customer".to_string(),
        columns: vec!["customer_id".to_string()],
        tpe: IndexType::Normal,
    }];
    let customers = table("customers", vec![int_column("id"), text_column("name")]);
    let schema = SqlSchema { tables: vec![orders, customers] };
    assert!(schema.is_well_formed());

    for family in [SqlFamily::Sqlite, SqlFamily::Postgres, SqlFamily::Mysql] {
        let migration = infer(&schema, &schema, "schema", family).unwrap();
        assert!(migration.original_steps.is_empty());
        assert!(migration.corrected_steps.is_empty());
        assert!(migration.rollback.is_empty());
    }
}

#[test]
fn corrected_steps_on_sqlite_rename_no_index_and_alter_something() {
    let mut current_a = table("a", vec![int_column("id"), int_column("x")]);
    current_a.indices = vec![Index {
        name: "old".to_string(),
        columns: vec!["x".to_string()],
        tpe: IndexType::Unique,
    }];
    let mut target_a = current_a.clone();
    target_a.indices[0].name = "new".to_string();
    let current_b = table("b", vec![int_column("id")]);
    let target_b = table("b", vec![int_column("id"), text_column("note")]);
    let current = SqlSchema { tables: vec![current_a, current_b] };
    let target = SqlSchema { tables: vec![target_a, target_b] };

    let migration = infer(&current, &target, "schema", SqlFamily::Sqlite).unwrap();

    assert!(migration
        .original_steps
        .iter()
        .any(|step| matches!(step, SqlMigrationStep::AlterIndex(_))));
    for steps in [&migration.corrected_steps, &migration.rollback] {
        for step in steps.iter() {
            assert!(!matches!(step, SqlMigrationStep::AlterIndex(_)));
            if let SqlMigrationStep::AlterTable(alter) = step {
                assert!(!alter.changes.is_empty());
            }
        }
    }
}

#[test]
fn primary_key_and_relation_table_columns_are_created_with_their_table() {
    // `a.b_id` is part of the primary key, `_link` is a relation table, `c.a_id` is neither
    let mut a = table("a", vec![int_column("b_id")]);
    a.primary_key = Some(PrimaryKey { columns: vec!["b_id".to_string()] });
    a.foreign_keys = vec![foreign_key("b_id", "b")];
    let b = table("b", vec![int_column("id")]);
    let mut link = table("_link", vec![int_column("id"), int_column("a_id")]);
    link.foreign_keys = vec![foreign_key("a_id", "a")];
    let mut c = table("c", vec![int_column("id"), int_column("a_id")]);
    c.foreign_keys = vec![foreign_key("a_id", "a")];
    let target = SqlSchema { tables: vec![a.clone(), b.clone(), link.clone(), c.clone()] };

    let migration = infer(&SqlSchema::empty(), &target, "schema", SqlFamily::Postgres).unwrap();

    let mut c_pruned = c.clone();
    c_pruned.columns = vec![int_column("id")];
    assert_eq!(
        migration.corrected_steps,
        vec![
            SqlMigrationStep::CreateTable(CreateTable { table: link }),
            SqlMigrationStep::CreateTable(CreateTable { table: a }),
            SqlMigrationStep::CreateTable(CreateTable { table: b }),
            SqlMigrationStep::CreateTable(CreateTable { table: c_pruned.clone() }),
            SqlMigrationStep::AlterTable(AlterTable {
                table: c_pruned,
                changes: vec![TableChange::AddColumn(AddColumn { column: int_column("a_id") })],
            }),
        ]
    );
}

#[test]
fn changing_the_type_of_another_column_keeps_the_steps() {
    let current = SqlSchema { tables: vec![table("T", vec![int_column("id"), int_column("a")])] };
    let a_next = column("a", ColumnTypeFamily::String, "TEXT", ColumnArity::Required);
    let target_table = table("T", vec![int_column("id"), a_next.clone()]);
    let target = SqlSchema { tables: vec![target_table.clone()] };

    let migration = infer(&current, &target, "schema", SqlFamily::Postgres).unwrap();

    assert_eq!(
        migration.corrected_steps,
        vec![SqlMigrationStep::AlterTable(AlterTable {
            table: target_table,
            changes: vec![TableChange::AlterColumn(AlterColumn {
                name: "a".to_string(),
                column: a_next,
                change: ColumnChange::ReplaceColumn,
            })],
        })]
    );
}

#[test]
fn changing_only_the_raw_type_of_a_primary_key_column_keeps_the_steps() {
    let current = SqlSchema { tables: vec![table("T", vec![int_column("id")])] };
    let id_next = column("id", ColumnTypeFamily::Int, "BIGINT", ColumnArity::Required);
    let target_table = table("T", vec![id_next.clone()]);
    let target = SqlSchema { tables: vec![target_table.clone()] };

    let migration = infer(&current, &target, "schema", SqlFamily::Mysql).unwrap();

    assert_eq!(
        migration.corrected_steps,
        vec![SqlMigrationStep::AlterTable(AlterTable {
            table: target_table,
            changes: vec![TableChange::AlterColumn(AlterColumn {
                name: "id".to_string(),
                column: id_next,
                change: ColumnChange::ReplaceColumn,
            })],
        })]
    );
}
