//! Catalog entries: identifiers, database definitions and branch metadata.
pub mod database;
pub mod database_laws;
pub mod namespace;
pub mod wire;
