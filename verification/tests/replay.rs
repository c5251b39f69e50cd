use sql_migration_connector::schema::{
    Column, ColumnArity, ColumnType, ColumnTypeFamily, ForeignKey, ForeignKeyAction, Index,
    IndexType, PrimaryKey, SqlSchema, Table,
};
use sql_migration_connector::sql_database_migration_inferrer::infer;
use sql_migration_connector::sql_migration::{ColumnChange, SqlMigrationStep, TableChange};
use sql_migration_connector::sql_renderer::SqlFamily;
use std::collections::BTreeMap;

/// A column with the foreign key that constrains it, if there is one.
type Entry = (Column, Option<ForeignKey>);
type Columns = BTreeMap<String, Entry>;
type Indexes = BTreeMap<String, Index>;

/// What is known of the order of the columns: the table begins with
/// `leading`; where `whole` is set these are all its columns.
#[derive(Debug, Clone, PartialEq)]
struct Order {
    leading: Vec<String>,
    whole: bool,
}

/// What a table holds: columns and indexes by name, the primary key, and
/// what is known of the order of the columns.
#[derive(Debug, Clone, PartialEq)]
struct TableState {
    columns: Columns,
    indexes: Indexes,
    primary_key: Option<Vec<String>>,
    column_order: Order,
}

fn names(columns: &[&str], whole: bool) -> Order {
    Order { leading: columns.iter().map(|c| c.to_string()).collect(), whole }
}

type Content = BTreeMap<String, TableState>;

fn reference(table: &Table, column: &str) -> Option<ForeignKey> {
    table.foreign_keys.iter().find(|key| key.columns.iter().any(|c| c == column)).cloned()
}

fn columns_by_name(table: &Table) -> Columns {
    let mut columns = Columns::new();
    for column in &table.columns {
        columns
            .entry(column.name.clone())
            .or_insert_with(|| (column.clone(), reference(table, &column.name)));
    }
    columns
}

fn created(table: &Table) -> TableState {
    TableState {
        columns: columns_by_name(table),
        indexes: Indexes::new(),
        primary_key: table.primary_key.as_ref().map(|pk| pk.columns.clone()),
        column_order: Order {
            leading: table.columns.iter().map(|c| c.name.clone()).collect(),
            whole: true,
        },
    }
}

fn content_of(schema: &SqlSchema) -> Content {
    let mut content = Content::new();
    for table in &schema.tables {
        let mut state = created(table);
        for index in &table.indices {
            state.indexes.entry(index.name.clone()).or_insert_with(|| index.clone());
        }
        content.entry(table.name.clone()).or_insert(state);
    }
    content
}

/// The content without the order of the columns.
fn by_name(content: &Content) -> Content {
    content
        .iter()
        .map(|(name, state)| {
            (name.clone(), TableState { column_order: names(&[], false), ..state.clone() })
        })
        .collect()
}

fn alters_in_place(change: &ColumnChange) -> bool {
    matches!(
        change,
        ColumnChange::ChangeArity { from: ColumnArity::Nullable, to: ColumnArity::Required }
            | ColumnChange::ChangeArity { from: ColumnArity::Required, to: ColumnArity::Nullable }
    )
}

fn appends(change: &TableChange) -> bool {
    match change {
        TableChange::AddColumn(_) => true,
        TableChange::DropColumn(_) => false,
        TableChange::AlterColumn(alter_column) => alters_in_place(&alter_column.change),
    }
}

fn replay(content: &mut Content, step: &SqlMigrationStep) {
    match step {
        SqlMigrationStep::CreateTable(create) => {
            content.insert(create.table.name.clone(), created(&create.table));
        }
        SqlMigrationStep::DropTable(drop) => {
            content.remove(&drop.name);
        }
        SqlMigrationStep::DropTables(drop) => {
            for name in &drop.names {
                content.remove(name);
            }
        }
        SqlMigrationStep::RenameTable { name, new_name } => {
            if let Some(table) = content.remove(name) {
                content.insert(new_name.clone(), table);
            }
        }
        SqlMigrationStep::AlterTable(alter) => {
            if let Some(state) = content.get_mut(&alter.table.name) {
                if !alter.changes.is_empty() {
                    state.column_order.whole = false;
                    if !alter.changes.iter().all(appends) {
                        state.column_order.leading.clear();
                    }
                }
                for change in &alter.changes {
                    match change {
                        TableChange::AddColumn(add) => {
                            state.columns.insert(
                                add.column.name.clone(),
                                (add.column.clone(), reference(&alter.table, &add.column.name)),
                            );
                        }
                        TableChange::DropColumn(drop) => {
                            state.columns.remove(&drop.name);
                        }
                        TableChange::AlterColumn(alter_column) => {
                            if alters_in_place(&alter_column.change) {
                                if let Some(entry) = state.columns.get_mut(&alter_column.name) {
                                    entry.0 = alter_column.column.clone();
                                }
                            } else {
                                state.columns.remove(&alter_column.name);
                                state.columns.insert(
                                    alter_column.column.name.clone(),
                                    (
                                        alter_column.column.clone(),
                                        reference(&alter.table, &alter_column.column.name),
                                    ),
                                );
                            }
                        }
                    }
                }
            }
        }
        SqlMigrationStep::CreateIndex(create) => {
            if let Some(state) = content.get_mut(&create.table.name) {
                state.indexes.insert(create.index.name.clone(), create.index.clone());
            }
        }
        SqlMigrationStep::DropIndex(drop) => {
            if let Some(state) = content.get_mut(&drop.table) {
                state.indexes.remove(&drop.name);
            }
        }
        SqlMigrationStep::AlterIndex(alter) => {
            if let Some(state) = content.get_mut(&alter.table) {
                if let Some(mut index) = state.indexes.remove(&alter.index_name) {
                    index.name = alter.index_new_name.clone();
                    state.indexes.insert(alter.index_new_name.clone(), index);
                }
            }
        }
        SqlMigrationStep::RawSql { .. } => {}
    }
}

fn replay_all(schema: &SqlSchema, steps: &[SqlMigrationStep]) -> Content {
    let mut content = content_of(schema);
    for step in steps {
        replay(&mut content, step);
    }
    content
}

fn rc(name: &str, family: ColumnTypeFamily, raw: &str, arity: ColumnArity, default: Option<&str>) -> Column {
    Column {
        name: name.to_string(),
        tpe: ColumnType { raw: raw.to_string(), family },
        arity,
        default: default.map(|d| d.to_string()),
    }
}

fn id() -> Column {
    rc("id", ColumnTypeFamily::Int, "int", ColumnArity::Required, None)
}

fn rt(name: &str, columns: Vec<Column>, indices: Vec<Index>, foreign_keys: Vec<ForeignKey>) -> Table {
    Table {
        name: name.to_string(),
        columns,
        indices,
        primary_key: Some(PrimaryKey { columns: vec!["id".to_string()] }),
        foreign_keys,
    }
}

fn rix(name: &str, columns: &[&str], tpe: IndexType) -> Index {
    Index { name: name.to_string(), columns: columns.iter().map(|c| c.to_string()).collect(), tpe }
}

fn rfk(column: &str, table: &str) -> ForeignKey {
    ForeignKey {
        columns: vec![column.to_string()],
        referenced_table: table.to_string(),
        referenced_columns: vec!["id".to_string()],
        on_delete_action: ForeignKeyAction::Restrict,
    }
}

fn shop_before() -> SqlSchema {
    SqlSchema {
        tables: vec![
            rt(
                "orders",
                vec![
                    id(),
                    rc("total", ColumnTypeFamily::Int, "int", ColumnArity::Required, None),
                    rc("note", ColumnTypeFamily::String, "text", ColumnArity::Nullable, None),
                    rc("legacy", ColumnTypeFamily::String, "text", ColumnArity::Nullable, None),
                ],
                vec![
                    rix("orders_total", &["total"], IndexType::Normal),
                    rix("orders_note_old", &["note"], IndexType::Normal),
                    rix("orders_legacy", &["legacy"], IndexType::Unique),
                ],
                vec![],
            ),
            rt("coupons", vec![id()], vec![rix("coupons_id", &["id"], IndexType::Unique)], vec![]),
            rt(
                "customers",
                vec![id(), rc("name", ColumnTypeFamily::String, "text", ColumnArity::Nullable, None)],
                vec![rix("customers_name", &["name"], IndexType::Normal)],
                vec![],
            ),
        ],
    }
}

fn shop_after() -> SqlSchema {
    SqlSchema {
        tables: vec![
            rt(
                "customers",
                vec![
                    id(),
                    rc("name", ColumnTypeFamily::String, "text", ColumnArity::Required, None),
                    rc("email", ColumnTypeFamily::String, "text", ColumnArity::Required, Some("none")),
                    rc("nickname", ColumnTypeFamily::String, "text", ColumnArity::Required, None),
                    rc("age", ColumnTypeFamily::Int, "int", ColumnArity::Nullable, None),
                ],
                vec![rix("customers_name", &["name"], IndexType::Unique)],
                vec![],
            ),
            rt(
                "orders",
                vec![
                    rc("total", ColumnTypeFamily::Float, "decimal", ColumnArity::Required, Some("0")),
                    id(),
                    rc("note", ColumnTypeFamily::String, "text", ColumnArity::Nullable, None),
                    rc("customer_id", ColumnTypeFamily::Int, "int", ColumnArity::Nullable, None),
                ],
                vec![
                    rix("orders_note", &["note"], IndexType::Normal),
                    rix("orders_customer", &["customer_id"], IndexType::Normal),
                ],
                vec![rfk("customer_id", "customers")],
            ),
            rt(
                "items",
                vec![
                    id(),
                    rc("order_id", ColumnTypeFamily::Int, "int", ColumnArity::Required, None),
                    rc("tag_id", ColumnTypeFamily::Int, "int", ColumnArity::Nullable, None),
                ],
                vec![rix("items_order", &["order_id"], IndexType::Normal)],
                vec![rfk("order_id", "orders"), rfk("tag_id", "tags")],
            ),
            rt(
                "tags",
                vec![id(), rc("item_id", ColumnTypeFamily::Int, "int", ColumnArity::Nullable, None)],
                vec![],
                vec![rfk("item_id", "items")],
            ),
        ],
    }
}

#[test]
fn corrected_steps_lead_to_the_target_and_back_on_every_dialect() {
    let before = shop_before();
    let after = shop_after();
    assert!(before.is_well_formed());
    assert!(after.is_well_formed());
    for family in [SqlFamily::Sqlite, SqlFamily::Postgres, SqlFamily::Mysql] {
        let migration = infer(&before, &after, "shop", family).unwrap();
        assert!(!migration.corrected_steps.is_empty());
        // the same tables, columns, indexes and primary keys
        assert_eq!(by_name(&replay_all(&before, &migration.original_steps)), by_name(&content_of(&after)));
        assert_eq!(by_name(&replay_all(&before, &migration.corrected_steps)), by_name(&content_of(&after)));
        assert_eq!(by_name(&replay_all(&after, &migration.rollback)), by_name(&content_of(&before)));
        assert_ne!(by_name(&content_of(&before)), by_name(&content_of(&after)));
    }
}

#[test]
fn rebuilt_and_new_tables_get_the_order_of_columns_and_the_keys_of_the_target_on_sqlite() {
    let before = shop_before();
    let after = shop_after();
    let migration = infer(&before, &after, "shop", SqlFamily::Sqlite).unwrap();
    // "customers" and "orders" are rebuilt, "items" and "tags" are new
    assert_eq!(replay_all(&before, &migration.corrected_steps), content_of(&after));
    let orders = &replay_all(&before, &migration.corrected_steps)["orders"];
    assert_eq!(orders.column_order, names(&["total", "id", "note", "customer_id"], true));
    assert_eq!(orders.columns["customer_id"].1, Some(rfk("customer_id", "customers")));
    assert_eq!(orders.columns["id"].1, None);
}

#[test]
fn a_new_table_is_made_whole_unless_a_column_has_to_wait() {
    let before = shop_before();
    let mut after = shop_after();
    after.tables.push(rt(
        "notes",
        vec![
            rc("text", ColumnTypeFamily::String, "text", ColumnArity::Nullable, None),
            id(),
            rc("order_id", ColumnTypeFamily::Int, "int", ColumnArity::Nullable, None),
        ],
        vec![],
        vec![rfk("order_id", "orders")],
    ));
    for family in [SqlFamily::Postgres, SqlFamily::Mysql] {
        let migration = infer(&before, &after, "shop", family).unwrap();
        let reached = replay_all(&before, &migration.corrected_steps);
        let target = content_of(&after);
        // "notes" refers to a table that is there already: nothing waits
        assert_eq!(reached["notes"], target["notes"]);
        assert_eq!(reached["notes"].column_order, names(&["text", "id", "order_id"], true));
        // "items" and "tags" refer to each other: a column of each comes
        // late, with its foreign key, behind the columns that did not wait
        assert_eq!(reached["items"].column_order, names(&["id", "order_id"], false));
        assert_eq!(reached["tags"].column_order, names(&["id"], false));
        assert_eq!(reached["items"].primary_key, target["items"].primary_key);
        assert_eq!(reached["items"].columns, target["items"].columns);
        assert_eq!(reached["tags"].columns["item_id"].1, Some(rfk("item_id", "items")));
        // "customers" gets columns and has one altered in place: it begins
        // as it did
        assert_eq!(reached["customers"].column_order, names(&["id", "name"], false));
        // "orders" loses a column and has one replaced: nothing is known of
        // the order; it keeps its primary key, and the new column comes
        // with its foreign key
        assert_eq!(reached["orders"].column_order, names(&[], false));
        assert_eq!(reached["orders"].primary_key, content_of(&before)["orders"].primary_key);
        assert_eq!(
            reached["orders"].columns["customer_id"].1,
            Some(rfk("customer_id", "customers"))
        );
        // "coupons" is gone
        assert!(!reached.contains_key("coupons"));
        assert_eq!(by_name(&reached), by_name(&target));
    }
}

#[test]
fn a_table_whose_columns_do_not_change_keeps_the_order_of_its_columns() {
    let before = shop_before();
    let mut after = shop_before();
    // only an index changes, and the order of the columns is another
    after.tables[2].indices = vec![rix("customers_by_name", &["name", "id"], IndexType::Unique)];
    after.tables[2].columns.reverse();
    for family in [SqlFamily::Postgres, SqlFamily::Mysql, SqlFamily::Sqlite] {
        let migration = infer(&before, &after, "shop", family).unwrap();
        let reached = replay_all(&before, &migration.corrected_steps);
        assert_eq!(by_name(&reached), by_name(&content_of(&after)));
        assert_eq!(reached["customers"].column_order, content_of(&before)["customers"].column_order);
        assert_ne!(reached["customers"].column_order, content_of(&after)["customers"].column_order);
    }
}

#[test]
fn corrected_steps_differ_by_dialect_where_the_dialect_asks_for_it() {
    let before = shop_before();
    let after = shop_after();
    let sqlite = infer(&before, &after, "shop", SqlFamily::Sqlite).unwrap();
    let postgres = infer(&before, &after, "shop", SqlFamily::Postgres).unwrap();
    let mysql = infer(&before, &after, "shop", SqlFamily::Mysql).unwrap();
    assert_eq!(sqlite.original_steps, postgres.original_steps);
    assert_eq!(mysql.original_steps, postgres.original_steps);
    // SQLite rebuilds, so it renames tables; the others never do
    assert!(sqlite
        .corrected_steps
        .iter()
        .any(|step| matches!(step, SqlMigrationStep::RenameTable { .. })));
    for steps in [&postgres.corrected_steps, &mysql.corrected_steps, &postgres.original_steps] {
        assert!(!steps.iter().any(|step| matches!(step, SqlMigrationStep::RenameTable { .. })));
    }
    // MySQL gives every row of the new required text column its default
    assert!(mysql.corrected_steps.contains(&SqlMigrationStep::RawSql {
        raw: "UPDATE `shop`.`customers` SET `email` = 'none'".to_string()
    }));
    assert!(mysql.corrected_steps.len() > postgres.corrected_steps.len());
    // "items" and "tags" refer to each other: both columns come late
    assert_ne!(postgres.corrected_steps, postgres.original_steps);
}

#[test]
fn starting_from_scratch_leads_to_the_target_and_keeps_the_migration_table() {
    let before = SqlSchema {
        tables: vec![
            rt("a", vec![id(), rc("x", ColumnTypeFamily::Int, "int", ColumnArity::Required, None)], vec![], vec![]),
            rt("b", vec![id()], vec![rix("b_id", &["id"], IndexType::Unique)], vec![]),
        ],
    };
    let mut uuid = id();
    uuid.tpe = ColumnType { raw: "uuid".to_string(), family: ColumnTypeFamily::Uuid };
    let after = SqlSchema {
        tables: vec![
            rt("a", vec![uuid, rc("y", ColumnTypeFamily::Int, "int", ColumnArity::Required, None)], vec![rix("a_y", &["y"], IndexType::Normal)], vec![]),
            rt("c", vec![id()], vec![], vec![]),
        ],
    };
    for family in [SqlFamily::Postgres, SqlFamily::Mysql] {
        let migration = infer(&before, &after, "db", family).unwrap();
        assert!(matches!(migration.corrected_steps[0], SqlMigrationStep::DropTables(_)));
        // every table is made anew, with its columns in order and its keys
        assert_eq!(replay_all(&before, &migration.corrected_steps), content_of(&after));
        // on the way back the type of the key changes again
        assert!(matches!(migration.rollback[0], SqlMigrationStep::DropTables(_)));
        assert_eq!(replay_all(&after, &migration.rollback), content_of(&before));
    }

    // the table that records the migrations is kept beside the target
    let mut with_bookkeeping = before.clone();
    with_bookkeeping.tables.push(rt("_Migration", vec![id()], vec![], vec![]));
    for family in [SqlFamily::Postgres, SqlFamily::Mysql] {
        let migration = infer(&with_bookkeeping, &after, "db", family).unwrap();
        let reached = replay_all(&with_bookkeeping, &migration.corrected_steps);
        let mut expected = content_of(&after);
        expected.insert(
            "_Migration".to_string(),
            content_of(&with_bookkeeping).remove("_Migration").unwrap(),
        );
        assert_eq!(reached, expected);
    }
}

#[test]
fn a_leftover_temporary_table_is_dropped_before_the_rebuild_on_sqlite() {
    let before = SqlSchema {
        tables: vec![
            rt("T", vec![id(), rc("a", ColumnTypeFamily::Int, "int", ColumnArity::Nullable, None)], vec![], vec![]),
            rt("new_T", vec![id()], vec![], vec![]),
        ],
    };
    let after = SqlSchema { tables: vec![rt("T", vec![id()], vec![], vec![])] };
    let migration = infer(&before, &after, "db", SqlFamily::Sqlite).unwrap();
    assert_eq!(
        migration.corrected_steps[0],
        SqlMigrationStep::DropTable(sql_migration_connector::sql_migration::DropTable {
            name: "new_T".to_string()
        })
    );
    assert!(migration
        .corrected_steps
        .iter()
        .any(|step| matches!(step, SqlMigrationStep::RenameTable { .. })));
    assert_eq!(replay_all(&before, &migration.corrected_steps), content_of(&after));
}

#[test]
fn a_column_that_stays_in_place_keeps_its_foreign_key() {
    let owner = rc("owner", ColumnTypeFamily::Int, "int", ColumnArity::Nullable, None);
    let before = SqlSchema {
        tables: vec![
            rt("a", vec![id(), owner.clone()], vec![], vec![rfk("owner", "b")]),
            rt("b", vec![id()], vec![], vec![]),
            rt("c", vec![id()], vec![], vec![]),
        ],
    };
    // the target points "owner" at another table, makes it required, and adds a column
    let mut required_owner = owner.clone();
    required_owner.arity = ColumnArity::Required;
    let after = SqlSchema {
        tables: vec![
            rt(
                "a",
                vec![id(), required_owner, rc("more", ColumnTypeFamily::Int, "int", ColumnArity::Nullable, None)],
                vec![],
                vec![rfk("owner", "c"), rfk("more", "c")],
            ),
            rt("b", vec![id()], vec![], vec![]),
            rt("c", vec![id()], vec![], vec![]),
        ],
    };
    for family in [SqlFamily::Postgres, SqlFamily::Mysql] {
        let migration = infer(&before, &after, "db", family).unwrap();
        let reached = replay_all(&before, &migration.corrected_steps);
        let a = &reached["a"];
        // altered in place: the definition of the target, the foreign key it had
        assert_eq!(a.columns["owner"].0.arity, ColumnArity::Required);
        assert_eq!(a.columns["owner"].1, Some(rfk("owner", "b")));
        // added: the foreign key of the target
        assert_eq!(a.columns["more"].1, Some(rfk("more", "c")));
        assert_eq!(a.column_order, names(&["id", "owner"], false));
        assert_ne!(by_name(&reached), by_name(&content_of(&after)));
    }
    // SQLite rebuilds the table, which then is as the target has it
    let migration = infer(&before, &after, "db", SqlFamily::Sqlite).unwrap();
    assert_eq!(replay_all(&before, &migration.corrected_steps), content_of(&after));
}
