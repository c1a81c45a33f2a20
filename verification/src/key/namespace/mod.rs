//! Keys scoped to a namespace.
pub mod all;
pub mod bm;
pub mod bm_laws;
