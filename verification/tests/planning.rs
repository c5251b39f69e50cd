use sql_migration_connector::schema::{
    Column, ColumnArity, ColumnType, ColumnTypeFamily, ForeignKey, ForeignKeyAction, Index,
    IndexType, PrimaryKey, SqlError, SqlSchema, Table,
};
use sql_migration_connector::sql_database_migration_inferrer::{
    delay_foreign_key_creation, fix, fix_id_column_type_change, fix_mysql_add_required_text_column,
    fix_mysql_new_required_text_fields, fix_steps_mysql, fix_stupid_sqlite,
    infer_database_migration_steps_and_fix, is_required_new_text_column, needs_fix,
    sqlite_fix_table, wrap_as_step,
};
use sql_migration_connector::sql_migration::{
    AddColumn, AlterColumn, AlterIndex, AlterTable, ColumnChange, CreateIndex, CreateTable,
    DropColumn, DropTable, DropTables, SqlMigrationStep, TableChange,
};
use sql_migration_connector::sql_renderer::SqlFamily;
use sql_migration_connector::sql_schema_differ::SqlSchemaDiff;

fn pc(name: &str, family: ColumnTypeFamily, arity: ColumnArity) -> Column {
    Column {
        name: name.to_string(),
        tpe: ColumnType { raw: "raw".to_string(), family },
        arity,
        default: None,
    }
}

fn pint(name: &str) -> Column {
    pc(name, ColumnTypeFamily::Int, ColumnArity::Required)
}

fn pt(name: &str, columns: Vec<Column>) -> Table {
    Table {
        name: name.to_string(),
        columns,
        indices: vec![],
        primary_key: Some(PrimaryKey { columns: vec!["id".to_string()] }),
        foreign_keys: vec![],
    }
}

fn no_diff() -> SqlSchemaDiff {
    SqlSchemaDiff {
        drop_tables: vec![],
        create_tables: vec![],
        alter_tables: vec![],
        create_indexes: vec![],
        drop_indexes: vec![],
        alter_indexes: vec![],
    }
}

fn sql(text: &str) -> SqlMigrationStep {
    SqlMigrationStep::RawSql { raw: text.to_string() }
}

fn alter_column(name: &str, column: Column) -> TableChange {
    TableChange::AlterColumn(AlterColumn {
        name: name.to_string(),
        column,
        change: ColumnChange::ReplaceColumn,
    })
}

#[test]
fn wrap_as_step_wraps_each_item_in_order() {
    let wrapped = wrap_as_step(vec!["a".to_string(), "b".to_string()], |name: String| {
        SqlMigrationStep::DropTable(DropTable { name })
    });
    assert_eq!(
        wrapped,
        vec![
            SqlMigrationStep::DropTable(DropTable { name: "a".to_string() }),
            SqlMigrationStep::DropTable(DropTable { name: "b".to_string() }),
        ]
    );
    let none = wrap_as_step(Vec::<String>::new(), |raw: String| SqlMigrationStep::RawSql { raw });
    assert!(none.is_empty());
}

#[test]
fn needs_fix_for_what_sqlite_cannot_do_in_place() {
    let table = pt("t", vec![pint("id")]);
    let with = |changes: Vec<TableChange>| AlterTable { table: table.clone(), changes };
    let nullable = pc("n", ColumnTypeFamily::Int, ColumnArity::Nullable);
    let list = pc("l", ColumnTypeFamily::Int, ColumnArity::List);
    assert!(!needs_fix(&with(vec![])));
    assert!(!needs_fix(&with(vec![
        TableChange::AddColumn(AddColumn { column: nullable.clone() }),
        TableChange::AddColumn(AddColumn { column: list }),
    ])));
    assert!(needs_fix(&with(vec![TableChange::AddColumn(AddColumn { column: pint("r") })])));
    assert!(needs_fix(&with(vec![TableChange::DropColumn(DropColumn { name: "x".to_string() })])));
    assert!(needs_fix(&with(vec![alter_column("x", nullable.clone())])));
    assert!(needs_fix(&with(vec![
        TableChange::AddColumn(AddColumn { column: nullable }),
        TableChange::DropColumn(DropColumn { name: "x".to_string() }),
    ])));
}

#[test]
fn rebuild_copies_the_common_columns_in_the_order_of_the_target() {
    let current = pt("T", vec![pint("c"), pint("gone"), pint("a"), pint("id")]);
    let mut next = pt("T", vec![pint("id"), pint("a"), pint("fresh"), pint("c")]);
    next.indices = vec![
        Index { name: "one".to_string(), columns: vec!["a".to_string()], tpe: IndexType::Unique },
        Index { name: "two".to_string(), columns: vec!["c".to_string()], tpe: IndexType::Normal },
    ];
    let mut temporary = next.clone();
    temporary.name = "new_T".to_string();
    assert_eq!(
        fix(&current, &next, "db"),
        vec![
            sql("PRAGMA foreign_keys=OFF;"),
            SqlMigrationStep::CreateTable(CreateTable { table: temporary }),
            sql("INSERT INTO \"new_T\" (\"id\",\"a\",\"c\") SELECT \"id\",\"a\",\"c\" FROM \"T\""),
            SqlMigrationStep::DropTable(DropTable { name: "T".to_string() }),
            SqlMigrationStep::RenameTable { name: "new_T".to_string(), new_name: "T".to_string() },
            SqlMigrationStep::CreateIndex(CreateIndex {
                table: next.clone(),
                index: next.indices[0].clone(),
            }),
            SqlMigrationStep::CreateIndex(CreateIndex {
                table: next.clone(),
                index: next.indices[1].clone(),
            }),
            sql("PRAGMA \"db\".foreign_key_check;"),
            sql("PRAGMA foreign_keys=ON;"),
        ]
    );
}

#[test]
fn rebuild_of_tables_without_common_columns() {
    let current = pt("T", vec![pint("a")]);
    let next = pt("T", vec![pint("b")]);
    let steps = fix(&current, &next, "db");
    assert_eq!(steps.len(), 7);
    assert_eq!(steps[2], sql("INSERT INTO \"new_T\" () SELECT  FROM \"T\""));
}

#[test]
fn sqlite_fix_table_needs_the_table_in_both_schemas() {
    let with = SqlSchema { tables: vec![pt("T", vec![pint("id")])] };
    let without = SqlSchema { tables: vec![pt("U", vec![pint("id")])] };
    let missing = SqlError::TableNotFound { table: "T".to_string() };
    assert_eq!(sqlite_fix_table(&without, &with, "T", "db"), Err(missing.clone()));
    assert_eq!(sqlite_fix_table(&with, &without, "T", "db"), Err(missing.clone()));
    assert_eq!(sqlite_fix_table(&without, &without, "T", "db"), Err(missing));
    assert_eq!(
        sqlite_fix_table(&with, &with, "T", "db"),
        Ok(fix(&with.tables[0], &with.tables[0], "db"))
    );
}

#[test]
fn sqlite_correction_fails_on_a_step_for_a_table_that_is_missing() {
    let schema = SqlSchema { tables: vec![pt("T", vec![pint("id")])] };
    let mut diff = no_diff();
    diff.drop_tables = vec![DropTable { name: "X".to_string() }];
    diff.alter_indexes = vec![
        AlterIndex {
            table: "nowhere".to_string(),
            index_name: "a".to_string(),
            index_new_name: "b".to_string(),
        },
        AlterIndex {
            table: "elsewhere".to_string(),
            index_name: "a".to_string(),
            index_new_name: "b".to_string(),
        },
    ];
    assert_eq!(
        fix_stupid_sqlite(diff, &schema, &schema, "db"),
        Err(SqlError::TableNotFound { table: "nowhere".to_string() })
    );
}

#[test]
fn sqlite_correction_leaves_out_the_indexes_of_rebuilt_tables_only() {
    let current_t = pt("T", vec![pint("id"), pint("x")]);
    let mut next_t = pt("T", vec![pint("id")]);
    next_t.indices = vec![Index {
        name: "t_id".to_string(),
        columns: vec!["id".to_string()],
        tpe: IndexType::Normal,
    }];
    let mut u = pt("U", vec![pint("id")]);
    let current = SqlSchema { tables: vec![current_t, u.clone()] };
    u.indices = vec![Index {
        name: "u_id".to_string(),
        columns: vec!["id".to_string()],
        tpe: IndexType::Normal,
    }];
    let next = SqlSchema { tables: vec![next_t.clone(), u.clone()] };

    let (plain, corrected) =
        infer_database_migration_steps_and_fix(&current, &next, "db", SqlFamily::Sqlite).unwrap();

    let create_t =
        SqlMigrationStep::CreateIndex(CreateIndex { table: next_t.clone(), index: next_t.indices[0].clone() });
    let create_u =
        SqlMigrationStep::CreateIndex(CreateIndex { table: u.clone(), index: u.indices[0].clone() });
    assert_eq!(
        plain,
        vec![
            SqlMigrationStep::AlterTable(AlterTable {
                table: next_t.clone(),
                changes: vec![TableChange::DropColumn(DropColumn { name: "x".to_string() })],
            }),
            create_t.clone(),
            create_u.clone(),
        ]
    );
    let mut expected = fix(&current.tables[0], &next_t, "db");
    expected.push(create_u);
    assert_eq!(corrected, expected);
    assert_eq!(corrected.iter().filter(|step| **step == create_t).count(), 1);
}

#[test]
fn steps_for_a_changed_primary_key_type_or_an_unknown_column() {
    let from = SqlSchema { tables: vec![pt("T", vec![pint("id"), pint("a")])] };
    let to = SqlSchema {
        tables: vec![pt("T", vec![pc("id", ColumnTypeFamily::Uuid, ColumnArity::Required), pint("a")])],
    };
    let alter = |changes: Vec<TableChange>| {
        SqlMigrationStep::AlterTable(AlterTable { table: to.tables[0].clone(), changes })
    };
    let from_scratch = vec![
        SqlMigrationStep::DropTables(DropTables { names: vec!["T".to_string()] }),
        SqlMigrationStep::CreateTable(CreateTable { table: to.tables[0].clone() }),
    ];

    // no change of a primary key column: the steps come back
    let harmless = vec![
        sql("SELECT 1"),
        alter(vec![alter_column("a", pc("a", ColumnTypeFamily::String, ColumnArity::Required))]),
        alter(vec![alter_column("id", pint("id"))]),
    ];
    assert_eq!(fix_id_column_type_change(&from, &to, "db", harmless.clone()), Ok(harmless));

    // the family of a primary key column changes
    let changing = vec![alter(vec![
        TableChange::DropColumn(DropColumn { name: "a".to_string() }),
        alter_column("id", to.tables[0].columns[0].clone()),
    ])];
    assert_eq!(fix_id_column_type_change(&from, &to, "db", changing), Ok(from_scratch.clone()));

    // a column that the current table lacks is altered first
    let unknown_first = vec![alter(vec![
        alter_column("ghost", pint("ghost")),
        alter_column("id", to.tables[0].columns[0].clone()),
    ])];
    assert_eq!(
        fix_id_column_type_change(&from, &to, "db", unknown_first),
        Err(SqlError::ColumnNotFound { table: "T".to_string(), column: "ghost".to_string() })
    );

    // the change is found before the unknown column is met
    let unknown_last = vec![alter(vec![
        alter_column("id", to.tables[0].columns[0].clone()),
        alter_column("ghost", pint("ghost")),
    ])];
    assert_eq!(fix_id_column_type_change(&from, &to, "db", unknown_last), Ok(from_scratch));

    // a table that the current schema lacks is not looked into
    let elsewhere = vec![SqlMigrationStep::AlterTable(AlterTable {
        table: pt("other", vec![]),
        changes: vec![alter_column("ghost", pint("ghost"))],
    })];
    assert_eq!(fix_id_column_type_change(&from, &to, "db", elsewhere.clone()), Ok(elsewhere));
    assert_eq!(fix_id_column_type_change(&from, &to, "db", vec![]), Ok(vec![]));
}

#[test]
fn foreign_key_columns_wait_for_tables_of_the_same_difference_only() {
    let mut a = pt("a", vec![pint("id"), pint("b_id"), pint("old_id")]);
    a.foreign_keys = vec![
        ForeignKey {
            columns: vec!["b_id".to_string()],
            referenced_table: "b".to_string(),
            referenced_columns: vec!["id".to_string()],
            on_delete_action: ForeignKeyAction::NoAction,
        },
        ForeignKey {
            columns: vec!["old_id".to_string()],
            referenced_table: "exists_already".to_string(),
            referenced_columns: vec!["id".to_string()],
            on_delete_action: ForeignKeyAction::NoAction,
        },
    ];
    let b = pt("b", vec![pint("id")]);
    let mut diff = no_diff();
    diff.create_tables = vec![CreateTable { table: a.clone() }, CreateTable { table: b.clone() }];
    diff.alter_tables = vec![AlterTable {
        table: pt("c", vec![]),
        changes: vec![TableChange::DropColumn(DropColumn { name: "x".to_string() })],
    }];

    let mut a_pruned = a.clone();
    a_pruned.columns = vec![pint("id"), pint("old_id")];
    assert_eq!(
        delay_foreign_key_creation(diff),
        vec![
            SqlMigrationStep::CreateTable(CreateTable { table: a_pruned.clone() }),
            SqlMigrationStep::CreateTable(CreateTable { table: b }),
            SqlMigrationStep::AlterTable(AlterTable {
                table: pt("c", vec![]),
                changes: vec![TableChange::DropColumn(DropColumn { name: "x".to_string() })],
            }),
            SqlMigrationStep::AlterTable(AlterTable {
                table: a_pruned,
                changes: vec![TableChange::AddColumn(AddColumn { column: pint("b_id") })],
            }),
        ]
    );
    assert_eq!(delay_foreign_key_creation(no_diff()), vec![]);
}

#[test]
fn a_table_that_refers_to_itself_is_created_with_the_column() {
    let mut tree = pt("tree", vec![pint("id"), pint("parent")]);
    tree.foreign_keys = vec![ForeignKey {
        columns: vec!["parent".to_string()],
        referenced_table: "tree".to_string(),
        referenced_columns: vec!["id".to_string()],
        on_delete_action: ForeignKeyAction::Cascade,
    }];
    let mut diff = no_diff();
    diff.create_tables = vec![CreateTable { table: tree.clone() }];
    assert_eq!(
        delay_foreign_key_creation(diff),
        vec![SqlMigrationStep::CreateTable(CreateTable { table: tree.clone() })]
    );
    for family in [SqlFamily::Postgres, SqlFamily::Mysql] {
        let (_, corrected) = infer_database_migration_steps_and_fix(
            &SqlSchema::empty(),
            &SqlSchema { tables: vec![tree.clone()] },
            "db",
            family,
        )
        .unwrap();
        assert_eq!(corrected, vec![SqlMigrationStep::CreateTable(CreateTable { table: tree.clone() })]);
    }
}

#[test]
fn a_reference_to_itself_stays_while_a_reference_to_another_new_table_waits() {
    let mut node = pt("node", vec![pint("id"), pint("parent"), pint("owner")]);
    node.foreign_keys = vec![
        ForeignKey {
            columns: vec!["parent".to_string()],
            referenced_table: "node".to_string(),
            referenced_columns: vec!["id".to_string()],
            on_delete_action: ForeignKeyAction::Cascade,
        },
        ForeignKey {
            columns: vec!["owner".to_string()],
            referenced_table: "owner".to_string(),
            referenced_columns: vec!["id".to_string()],
            on_delete_action: ForeignKeyAction::Cascade,
        },
    ];
    let owner = pt("owner", vec![pint("id")]);
    let mut diff = no_diff();
    diff.create_tables = vec![CreateTable { table: node.clone() }, CreateTable { table: owner.clone() }];
    let mut pruned = node.clone();
    pruned.columns = vec![pint("id"), pint("parent")];
    assert_eq!(
        delay_foreign_key_creation(diff),
        vec![
            SqlMigrationStep::CreateTable(CreateTable { table: pruned.clone() }),
            SqlMigrationStep::CreateTable(CreateTable { table: owner }),
            SqlMigrationStep::AlterTable(AlterTable {
                table: pruned,
                changes: vec![TableChange::AddColumn(AddColumn { column: pint("owner") })],
            }),
        ]
    );
}

#[test]
fn required_text_columns_are_told_apart() {
    assert!(is_required_new_text_column(&pc("a", ColumnTypeFamily::String, ColumnArity::Required)));
    assert!(!is_required_new_text_column(&pc("a", ColumnTypeFamily::String, ColumnArity::Nullable)));
    assert!(!is_required_new_text_column(&pc("a", ColumnTypeFamily::String, ColumnArity::List)));
    assert!(!is_required_new_text_column(&pc("a", ColumnTypeFamily::Int, ColumnArity::Required)));
}

#[test]
fn required_text_column_without_default_takes_two_steps() {
    let table = pt("T", vec![pint("id")]);
    let text = pc("note", ColumnTypeFamily::String, ColumnArity::Required);
    let mut nullable = text.clone();
    nullable.arity = ColumnArity::Nullable;
    let mut steps = vec![sql("before")];
    assert_eq!(fix_mysql_add_required_text_column(&table, text.clone(), &mut steps, "db"), Ok(()));
    assert_eq!(
        steps,
        vec![
            sql("before"),
            SqlMigrationStep::AlterTable(AlterTable {
                table: table.clone(),
                changes: vec![TableChange::AddColumn(AddColumn { column: nullable })],
            }),
            SqlMigrationStep::AlterTable(AlterTable {
                table: table.clone(),
                changes: vec![TableChange::AlterColumn(AlterColumn {
                    name: "note".to_string(),
                    column: text,
                    change: ColumnChange::ChangeArity {
                        from: ColumnArity::Nullable,
                        to: ColumnArity::Required,
                    },
                })],
            }),
        ]
    );
}

#[test]
fn mysql_expansion_comes_before_the_changes_that_are_left() {
    let table = pt("T", vec![pint("id")]);
    let mut first = pc("first", ColumnTypeFamily::String, ColumnArity::Required);
    first.default = Some("it's".to_string());
    let second = pc("second", ColumnTypeFamily::String, ColumnArity::Required);
    let plain = pc("plain", ColumnTypeFamily::String, ColumnArity::Nullable);
    let alter_table = AlterTable {
        table: table.clone(),
        changes: vec![
            TableChange::DropColumn(DropColumn { name: "x".to_string() }),
            TableChange::AddColumn(AddColumn { column: first.clone() }),
            TableChange::AddColumn(AddColumn { column: plain.clone() }),
            TableChange::AddColumn(AddColumn { column: second.clone() }),
        ],
    };
    let mut expected: Vec<SqlMigrationStep> = vec![];
    fix_mysql_add_required_text_column(&table, first, &mut expected, "db").unwrap();
    fix_mysql_add_required_text_column(&table, second, &mut expected, "db").unwrap();
    assert_eq!(expected.len(), 5);
    assert_eq!(expected[1], sql("UPDATE `db`.`T` SET `first` = 'it's'"));
    expected.push(SqlMigrationStep::AlterTable(AlterTable {
        table: table.clone(),
        changes: vec![
            TableChange::DropColumn(DropColumn { name: "x".to_string() }),
            TableChange::AddColumn(AddColumn { column: plain }),
        ],
    }));

    let mut steps = vec![];
    assert_eq!(fix_mysql_new_required_text_fields(alter_table.clone(), &mut steps, "db"), Ok(()));
    assert_eq!(steps, expected);

    let mut all = vec![sql("first")];
    all.extend(expected);
    all.push(sql("last"));
    assert_eq!(
        fix_steps_mysql(vec![sql("first"), SqlMigrationStep::AlterTable(alter_table), sql("last")], "db"),
        Ok(all)
    );
}

#[test]
fn an_alter_table_without_changes_disappears_on_mysql() {
    let empty = SqlMigrationStep::AlterTable(AlterTable { table: pt("T", vec![]), changes: vec![] });
    assert_eq!(fix_steps_mysql(vec![empty], "db"), Ok(vec![]));
    assert_eq!(fix_steps_mysql(vec![], "db"), Ok(vec![]));
}
