//! Keys of the catalog.
pub mod category;
pub mod encoding;
pub mod namespace;
