[package]
name = "sql_migration_connector"
version = "0.1.0"
edition = "2021"
publish = false

[dependencies]
itertools = "0.8"
serde = { version = "1.0", features = ["derive"] }
serde_json = "1.0"
url = "2"
r2d2 = "0.8"
