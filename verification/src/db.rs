//! The database schema's migrations.
pub mod schema;
