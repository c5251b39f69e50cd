use sql_migration_connector::schema::{
    distinct_names_exec, names_contain, names_eq, Column, ColumnArity, ColumnType,
    ColumnTypeFamily, ForeignKey, ForeignKeyAction, Index, IndexType, PrimaryKey, SqlError,
    SqlSchema, Table,
};
use sql_migration_connector::search::clone_all;
use sql_migration_connector::text::{glue, contains, join, name_le_exec, text_eq};
use sql_migration_connector::validator::{
    field_validation_error, AstField, AstModel, DatamodelError, Field, Model, SchemaAst, Span,
};

fn names(list: &[&str]) -> Vec<String> {
    list.iter().map(|x| x.to_string()).collect()
}

fn plain(name: &str) -> Column {
    Column {
        name: name.to_string(),
        tpe: ColumnType { raw: "int".to_string(), family: ColumnTypeFamily::Int },
        arity: ColumnArity::Required,
        default: None,
    }
}

fn sample() -> Table {
    Table {
        name: "t".to_string(),
        columns: vec![plain("id"), plain("a"), plain("b")],
        indices: vec![Index { name: "i".to_string(), columns: names(&["a", "b"]), tpe: IndexType::Unique }],
        primary_key: Some(PrimaryKey { columns: names(&["id"]) }),
        foreign_keys: vec![
            ForeignKey {
                columns: names(&["a"]),
                referenced_table: "x".to_string(),
                referenced_columns: names(&["id"]),
                on_delete_action: ForeignKeyAction::NoAction,
            },
            ForeignKey {
                columns: names(&["b", "a"]),
                referenced_table: "y".to_string(),
                referenced_columns: names(&["u", "v"]),
                on_delete_action: ForeignKeyAction::Cascade,
            },
        ],
    }
}

#[test]
fn joining_puts_the_separator_between_the_parts() {
    assert_eq!(join(&names(&[]), ", "), "");
    assert_eq!(join(&names(&["a"]), ", "), "a");
    assert_eq!(join(&names(&["a", "b", "c"]), ", "), "a, b, c");
    assert_eq!(join(&names(&["", ""]), "-"), "-");
    assert_eq!(join(&names(&["a", "b"]), ""), "ab");
    assert_eq!(glue("a", "b"), "ab");
    assert_eq!(glue("", ""), "");
}

#[test]
fn names_are_ordered_by_their_bytes() {
    assert!(name_le_exec("", ""));
    assert!(name_le_exec("", "a"));
    assert!(!name_le_exec("a", ""));
    assert!(name_le_exec("a", "a"));
    assert!(name_le_exec("a", "ab"));
    assert!(!name_le_exec("ab", "a"));
    assert!(name_le_exec("B", "a"));
    assert!(!name_le_exec("a", "B"));
    assert!(name_le_exec("_x", "a"));
    assert!(name_le_exec("z", "é"));
    assert!(!name_le_exec("é", "z"));
    assert!(name_le_exec("ab", "b"));
}

#[test]
fn searching_for_a_fragment() {
    assert!(contains("  \"id\" INTEGER PRIMARY KEY", "PRIMARY KEY"));
    assert!(contains("PRIMARY KEY", "PRIMARY KEY"));
    assert!(contains("xPRIMARY KEY", "PRIMARY KEY"));
    assert!(!contains("PRIMARY  KEY", "PRIMARY KEY"));
    assert!(!contains("PRIMARY KE", "PRIMARY KEY"));
    assert!(!contains("", "PRIMARY KEY"));
    assert!(contains("", ""));
    assert!(contains("abc", ""));
    assert!(contains("grüße", "üß"));
    assert!(!contains("primary key", "PRIMARY KEY"));
    assert!(text_eq("a", "a"));
    assert!(!text_eq("a", "A"));
    assert!(text_eq("", ""));
}

#[test]
fn lists_of_names() {
    assert!(names_eq(&names(&["a", "b"]), &names(&["a", "b"])));
    assert!(!names_eq(&names(&["a", "b"]), &names(&["b", "a"])));
    assert!(!names_eq(&names(&["a"]), &names(&["a", "b"])));
    assert!(names_eq(&names(&[]), &names(&[])));
    assert!(names_contain(&names(&["a", "b"]), "b"));
    assert!(!names_contain(&names(&["a", "b"]), "c"));
    assert!(!names_contain(&names(&[]), ""));
    assert_eq!(clone_all(&names(&["a", "b"])), names(&["a", "b"]));
    assert_eq!(clone_all(&Vec::<String>::new()), Vec::<String>::new());
    assert!(distinct_names_exec(&names(&["a", "b", "c"])));
    assert!(!distinct_names_exec(&names(&["a", "b", "a"])));
    assert!(distinct_names_exec(&names(&[])));
}

#[test]
fn looking_things_up_in_a_table() {
    let table = sample();
    assert_eq!(table.column_index("a"), Some(1));
    assert_eq!(table.column_index("zz"), None);
    assert_eq!(table.column("b"), Some(&table.columns[2]));
    assert_eq!(table.column("B"), None);
    assert!(table.has_column("id"));
    assert!(!table.has_column(""));
    assert_eq!(table.primary_key_columns(), names(&["id"]));
    assert!(table.is_part_of_primary_key("id"));
    assert!(!table.is_part_of_primary_key("a"));
    assert_eq!(table.foreign_key_for_column("a"), Some(&table.foreign_keys[0]));
    assert_eq!(table.foreign_key_for_column("b"), Some(&table.foreign_keys[1]));
    assert_eq!(table.foreign_key_for_column("id"), None);
    let mut keyless = sample();
    keyless.primary_key = None;
    assert_eq!(keyless.primary_key_columns(), names(&[]));
    assert!(!keyless.is_part_of_primary_key("id"));
    assert!(table.has_columns(&names(&["a", "id"])));
    assert!(!table.has_columns(&names(&["a", "nope"])));
    assert!(table.has_columns(&names(&[])));
}

#[test]
fn looking_tables_up_in_a_schema() {
    let mut second = sample();
    second.columns = vec![];
    let schema = SqlSchema { tables: vec![sample(), second] };
    assert_eq!(schema.table_index("t"), Some(0));
    assert_eq!(schema.table("t"), Ok(&schema.tables[0]));
    assert_eq!(schema.table("u"), Err(SqlError::TableNotFound { table: "u".to_string() }));
    assert!(schema.has_table("t"));
    assert!(!schema.has_table("T"));
    assert!(SqlSchema::empty().tables.is_empty());
    assert!(!SqlSchema::empty().has_table("t"));
    assert_eq!(schema.clone(), schema);
}

#[test]
fn columns_and_indexes_are_compared_by_their_definition() {
    let a = plain("a");
    let mut other_name = plain("b");
    other_name.default = None;
    assert!(!a.differs_from(&other_name));
    let mut arity = plain("a");
    arity.arity = ColumnArity::Nullable;
    assert!(a.differs_from(&arity));
    assert!(a.differs_only_in_arity(&arity));
    let mut both = arity.clone();
    both.default = Some("1".to_string());
    assert!(a.differs_from(&both));
    assert!(!a.differs_only_in_arity(&both));
    assert!(!a.differs_only_in_arity(&a));
    let mut raw = plain("a");
    raw.tpe.raw = "bigint".to_string();
    assert!(a.differs_from(&raw));
    let mut family = plain("a");
    family.tpe.family = ColumnTypeFamily::Float;
    assert!(a.differs_from(&family));

    let index = Index { name: "i".to_string(), columns: names(&["a", "b"]), tpe: IndexType::Unique };
    let mut renamed = index.clone();
    renamed.name = "j".to_string();
    assert!(index.same_definition(&renamed));
    let mut reordered = index.clone();
    reordered.columns = names(&["b", "a"]);
    assert!(!index.same_definition(&reordered));
    let mut plain_index = index.clone();
    plain_index.tpe = IndexType::Normal;
    assert!(!index.same_definition(&plain_index));
}

#[test]
fn well_formed_tables_and_schemas() {
    assert!(sample().is_well_formed());
    let mut twice = sample();
    twice.columns.push(plain("a"));
    assert!(!twice.is_well_formed());
    let mut index_twice = sample();
    index_twice.indices.push(index_twice.indices[0].clone());
    assert!(!index_twice.is_well_formed());
    let mut index_of_nothing = sample();
    index_of_nothing.indices[0].columns.push("ghost".to_string());
    assert!(!index_of_nothing.is_well_formed());
    let mut key_of_nothing = sample();
    key_of_nothing.primary_key = Some(PrimaryKey { columns: names(&["ghost"]) });
    assert!(!key_of_nothing.is_well_formed());
    let mut reference_from_nothing = sample();
    reference_from_nothing.foreign_keys[1].columns = names(&["b", "ghost"]);
    assert!(!reference_from_nothing.is_well_formed());

    let mut other = sample();
    other.name = "u".to_string();
    assert!(SqlSchema { tables: vec![sample(), other] }.is_well_formed());
    assert!(!SqlSchema { tables: vec![sample(), sample()] }.is_well_formed());
    assert!(!SqlSchema { tables: vec![twice] }.is_well_formed());
    assert!(SqlSchema::empty().is_well_formed());
}

#[test]
fn validation_error_points_at_the_field_in_the_source() {
    let ast = SchemaAst {
        models: vec![
            AstModel {
                name: "Post".to_string(),
                fields: vec![AstField { name: "title".to_string(), span: Span { start: 1, end: 2 } }],
            },
            AstModel {
                name: "User".to_string(),
                fields: vec![
                    AstField { name: "id".to_string(), span: Span { start: 10, end: 20 } },
                    AstField { name: "title".to_string(), span: Span { start: 30, end: 40 } },
                ],
            },
        ],
    };
    let model = Model {
        name: "User".to_string(),
        fields: vec![Field { name: "id".to_string() }, Field { name: "title".to_string() }],
    };
    assert_eq!(
        field_validation_error("must not be empty", &model, &model.fields[1], &ast),
        DatamodelError::ModelValidationError {
            message: "must not be empty".to_string(),
            model_name: "User".to_string(),
            span: Span { start: 30, end: 40 },
        }
    );
    assert_eq!(
        DatamodelError::new_model_validation_error("m", "M", Span { start: 3, end: 4 }),
        DatamodelError::ModelValidationError {
            message: "m".to_string(),
            model_name: "M".to_string(),
            span: Span { start: 3, end: 4 },
        }
    );
    assert_eq!(ast.find_field("User", "id"), Some(&ast.models[1].fields[0]));
    assert_eq!(ast.find_field("User", "nope"), None);
    assert_eq!(ast.find_field("Nope", "id"), None);
    assert_eq!(ast.find_model("Post"), Some(&ast.models[0]));
    assert_eq!(ast.models[0].find_field("title"), Some(&ast.models[0].fields[0]));
}
