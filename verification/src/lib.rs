//! Planning of SQL schema migrations.
//!
//! Two snapshots of a database schema are compared, the difference is turned
//! into steps, the steps are corrected for what SQLite, MySQL or PostgreSQL
//! cannot run as they are, and each step is rendered to the SQL of the
//! dialect. Everything here computes on values; talking to a database is
//! left to the caller.
//!
//! - [`schema`]: tables, columns, indexes and keys;
//! - [`sql_schema_differ`]: the difference between two schemas;
//! - [`sql_migration`]: the steps, and the migration that holds them;
//! - [`sql_database_migration_inferrer`]: the corrections for each dialect,
//!   and the planning of a migration and its way back;
//! - [`sql_renderer`] and [`sql_database_step_applier`]: the SQL of each step;
//! - [`guarantees`]: what holds of every difference and of all corrected steps;
//! - [`replay`]: what steps do to a schema, and the proof that the corrected
//!   steps lead from the one schema to the other;
//! - [`validator`]: errors that the validation of a data model reports;
//! - [`text`] and [`search`]: helpers for text and for sequences.

pub mod guarantees;
pub mod replay;
pub mod schema;
pub mod search;
pub mod sql_database_migration_inferrer;
pub mod sql_database_step_applier;
pub mod sql_migration;
pub mod sql_renderer;
pub mod sql_schema_differ;
pub mod text;
pub mod validator;
