use sql_migration_connector::schema::{
    Column, ColumnArity, ColumnType, ColumnTypeFamily, Index, IndexType, SqlSchema, Table,
};
use sql_migration_connector::sql_migration::{
    AddColumn, AlterColumn, AlterIndex, AlterTable, ColumnChange, CreateIndex, CreateTable,
    DropColumn, DropIndex, DropTable, SqlMigrationStep, TableChange,
};
use sql_migration_connector::sql_schema_differ::{
    column_changes_exec, sorted_tables, SqlSchemaDiff, SqlSchemaDiffer,
};

fn c(name: &str, family: ColumnTypeFamily, raw: &str, arity: ColumnArity, default: Option<&str>) -> Column {
    Column {
        name: name.to_string(),
        tpe: ColumnType { raw: raw.to_string(), family },
        arity,
        default: default.map(|d| d.to_string()),
    }
}

fn int_col(name: &str) -> Column {
    c(name, ColumnTypeFamily::Int, "int", ColumnArity::Required, None)
}

fn t(name: &str, columns: Vec<Column>) -> Table {
    Table { name: name.to_string(), columns, indices: vec![], primary_key: None, foreign_keys: vec![] }
}

fn ix(name: &str, columns: &[&str], tpe: IndexType) -> Index {
    Index { name: name.to_string(), columns: columns.iter().map(|x| x.to_string()).collect(), tpe }
}

fn empty_diff() -> SqlSchemaDiff {
    SqlSchemaDiff {
        drop_tables: vec![],
        create_tables: vec![],
        alter_tables: vec![],
        create_indexes: vec![],
        drop_indexes: vec![],
        alter_indexes: vec![],
    }
}

#[test]
fn tables_are_created_dropped_and_altered_by_name() {
    let from = SqlSchema { tables: vec![t("stays", vec![int_col("id")]), t("goes", vec![int_col("id")])] };
    let to = SqlSchema {
        tables: vec![t("comes", vec![int_col("id")]), t("stays", vec![int_col("id"), int_col("more")])],
    };
    let diff = SqlSchemaDiffer::diff(&from, &to);
    let mut expected = empty_diff();
    expected.drop_tables = vec![DropTable { name: "goes".to_string() }];
    expected.create_tables = vec![CreateTable { table: t("comes", vec![int_col("id")]) }];
    expected.alter_tables = vec![AlterTable {
        table: t("stays", vec![int_col("id"), int_col("more")]),
        changes: vec![TableChange::AddColumn(AddColumn { column: int_col("more") })],
    }];
    assert_eq!(diff, expected);
}

#[test]
fn what_comes_from_tables_is_ordered_by_table_name() {
    let from = SqlSchema {
        tables: vec![t("zeta", vec![int_col("id")]), t("Beta", vec![int_col("id")]), t("alpha", vec![int_col("id")])],
    };
    let diff = SqlSchemaDiffer::diff(&from, &SqlSchema::empty());
    assert_eq!(
        diff.drop_tables,
        vec![
            DropTable { name: "Beta".to_string() },
            DropTable { name: "alpha".to_string() },
            DropTable { name: "zeta".to_string() },
        ]
    );
    let back = SqlSchemaDiffer::diff(&SqlSchema::empty(), &from);
    let created: Vec<String> = back.create_tables.iter().map(|x| x.table.name.clone()).collect();
    assert_eq!(created, vec!["Beta".to_string(), "alpha".to_string(), "zeta".to_string()]);
}

#[test]
fn sorted_tables_are_ordered_by_the_bytes_of_their_names_and_stay_in_order_where_equal() {
    let tables = vec![
        t("b", vec![]),
        t("a", vec![int_col("first")]),
        t("ab", vec![]),
        t("", vec![]),
        t("a", vec![int_col("second")]),
        t("é", vec![]),
        t("z", vec![]),
    ];
    let sorted = sorted_tables(&tables);
    let expected: Vec<&Table> = [3, 1, 4, 2, 0, 6, 5].iter().map(|i: &usize| &tables[*i]).collect();
    assert_eq!(sorted, expected);
    assert_eq!(sorted_tables(&vec![]), Vec::<&Table>::new());
}

#[test]
fn column_changes_come_as_drops_then_additions_then_alterations() {
    let current = t(
        "t",
        vec![
            int_col("dropped_1"),
            c("arity", ColumnTypeFamily::Int, "int", ColumnArity::Required, None),
            c("family", ColumnTypeFamily::Int, "int", ColumnArity::Required, None),
            int_col("same"),
            int_col("dropped_2"),
            c("raw", ColumnTypeFamily::Int, "int", ColumnArity::Nullable, Some("1")),
            c("default", ColumnTypeFamily::Int, "int", ColumnArity::Nullable, Some("1")),
            c("both", ColumnTypeFamily::Int, "int", ColumnArity::Nullable, None),
        ],
    );
    let next = t(
        "t",
        vec![
            int_col("added_1"),
            c("both", ColumnTypeFamily::Int, "bigint", ColumnArity::List, None),
            c("default", ColumnTypeFamily::Int, "int", ColumnArity::Nullable, None),
            c("raw", ColumnTypeFamily::Int, "bigint", ColumnArity::Nullable, Some("1")),
            int_col("same"),
            c("family", ColumnTypeFamily::String, "int", ColumnArity::Required, None),
            c("arity", ColumnTypeFamily::Int, "int", ColumnArity::Nullable, None),
            int_col("added_2"),
        ],
    );
    let replace = |column: &Column| {
        TableChange::AlterColumn(AlterColumn {
            name: column.name.clone(),
            column: column.clone(),
            change: ColumnChange::ReplaceColumn,
        })
    };
    assert_eq!(
        column_changes_exec(&current, &next),
        vec![
            TableChange::DropColumn(DropColumn { name: "dropped_1".to_string() }),
            TableChange::DropColumn(DropColumn { name: "dropped_2".to_string() }),
            TableChange::AddColumn(AddColumn { column: int_col("added_1") }),
            TableChange::AddColumn(AddColumn { column: int_col("added_2") }),
            replace(&next.columns[1]),
            replace(&next.columns[2]),
            replace(&next.columns[3]),
            replace(&next.columns[5]),
            TableChange::AlterColumn(AlterColumn {
                name: "arity".to_string(),
                column: next.columns[6].clone(),
                change: ColumnChange::ChangeArity {
                    from: ColumnArity::Required,
                    to: ColumnArity::Nullable,
                },
            }),
        ]
    );
    assert_eq!(column_changes_exec(&current, &current), vec![]);
    assert_eq!(column_changes_exec(&t("t", vec![]), &t("t", vec![])), vec![]);
}

#[test]
fn a_table_that_only_reorders_its_columns_is_not_altered() {
    let from = SqlSchema { tables: vec![t("t", vec![int_col("a"), int_col("b")])] };
    let to = SqlSchema { tables: vec![t("t", vec![int_col("b"), int_col("a")])] };
    assert_eq!(SqlSchemaDiffer::diff(&from, &to), empty_diff());
}

#[test]
fn indexes_are_created_dropped_rebuilt_and_renamed() {
    let mut previous = t("t", vec![int_col("a"), int_col("b"), int_col("c")]);
    previous.indices = vec![
        ix("kept", &["a"], IndexType::Normal),
        ix("removed", &["b"], IndexType::Normal),
        ix("redefined", &["c"], IndexType::Normal),
        ix("old_name", &["a", "b"], IndexType::Unique),
    ];
    let mut next = previous.clone();
    next.indices = vec![
        ix("new_name", &["a", "b"], IndexType::Unique),
        ix("redefined", &["c"], IndexType::Unique),
        ix("added", &["c", "a"], IndexType::Normal),
        ix("kept", &["a"], IndexType::Normal),
    ];
    let diff = SqlSchemaDiffer::diff(
        &SqlSchema { tables: vec![previous] },
        &SqlSchema { tables: vec![next.clone()] },
    );
    let mut expected = empty_diff();
    expected.drop_indexes = vec![
        DropIndex { table: "t".to_string(), name: "removed".to_string() },
        DropIndex { table: "t".to_string(), name: "redefined".to_string() },
    ];
    expected.create_indexes = vec![
        CreateIndex { table: next.clone(), index: next.indices[1].clone() },
        CreateIndex { table: next.clone(), index: next.indices[2].clone() },
    ];
    expected.alter_indexes = vec![AlterIndex {
        table: "t".to_string(),
        index_name: "old_name".to_string(),
        index_new_name: "new_name".to_string(),
    }];
    assert_eq!(diff, expected);
}

#[test]
fn of_several_indexes_alike_only_the_first_on_each_side_is_renamed() {
    let mut previous = t("t", vec![int_col("a")]);
    previous.indices =
        vec![ix("old_a", &["a"], IndexType::Normal), ix("old_b", &["a"], IndexType::Normal)];
    let mut next = previous.clone();
    next.indices = vec![ix("new_a", &["a"], IndexType::Normal), ix("new_b", &["a"], IndexType::Normal)];
    let diff = SqlSchemaDiffer::diff(
        &SqlSchema { tables: vec![previous] },
        &SqlSchema { tables: vec![next.clone()] },
    );
    let mut expected = empty_diff();
    expected.alter_indexes = vec![AlterIndex {
        table: "t".to_string(),
        index_name: "old_a".to_string(),
        index_new_name: "new_a".to_string(),
    }];
    expected.drop_indexes = vec![DropIndex { table: "t".to_string(), name: "old_b".to_string() }];
    expected.create_indexes = vec![CreateIndex { table: next.clone(), index: next.indices[1].clone() }];
    assert_eq!(diff, expected);
}

#[test]
fn indexes_of_created_and_dropped_tables_are_created_and_dropped() {
    let mut gone = t("gone", vec![int_col("a")]);
    gone.indices = vec![ix("gone_a", &["a"], IndexType::Normal)];
    let mut fresh = t("fresh", vec![int_col("a")]);
    fresh.indices = vec![ix("fresh_a", &["a"], IndexType::Normal)];
    let diff = SqlSchemaDiffer::diff(
        &SqlSchema { tables: vec![gone] },
        &SqlSchema { tables: vec![fresh.clone()] },
    );
    let mut expected = empty_diff();
    expected.drop_tables = vec![DropTable { name: "gone".to_string() }];
    expected.create_tables = vec![CreateTable { table: fresh.clone() }];
    expected.drop_indexes = vec![DropIndex { table: "gone".to_string(), name: "gone_a".to_string() }];
    expected.create_indexes = vec![CreateIndex { table: fresh.clone(), index: fresh.indices[0].clone() }];
    assert_eq!(diff, expected);
}

#[test]
fn steps_of_a_difference_come_in_a_fixed_order() {
    let table = t("t", vec![int_col("a")]);
    let index = ix("i", &["a"], IndexType::Normal);
    let diff = SqlSchemaDiff {
        drop_tables: vec![DropTable { name: "d".to_string() }],
        create_tables: vec![CreateTable { table: table.clone() }],
        alter_tables: vec![AlterTable { table: table.clone(), changes: vec![] }],
        create_indexes: vec![CreateIndex { table: table.clone(), index: index.clone() }],
        drop_indexes: vec![
            DropIndex { table: "t".to_string(), name: "x".to_string() },
            DropIndex { table: "t".to_string(), name: "y".to_string() },
        ],
        alter_indexes: vec![AlterIndex {
            table: "t".to_string(),
            index_name: "o".to_string(),
            index_new_name: "n".to_string(),
        }],
    };
    assert_eq!(
        diff.into_steps(),
        vec![
            SqlMigrationStep::DropIndex(DropIndex { table: "t".to_string(), name: "x".to_string() }),
            SqlMigrationStep::DropIndex(DropIndex { table: "t".to_string(), name: "y".to_string() }),
            SqlMigrationStep::DropTable(DropTable { name: "d".to_string() }),
            SqlMigrationStep::CreateTable(CreateTable { table: table.clone() }),
            SqlMigrationStep::AlterTable(AlterTable { table: table.clone(), changes: vec![] }),
            SqlMigrationStep::CreateIndex(CreateIndex { table, index }),
            SqlMigrationStep::AlterIndex(AlterIndex {
                table: "t".to_string(),
                index_name: "o".to_string(),
                index_new_name: "n".to_string(),
            }),
        ]
    );
    assert_eq!(empty_diff().into_steps(), vec![]);
}
