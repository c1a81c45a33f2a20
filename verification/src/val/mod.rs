//! Object values and their order of presentation.
pub mod display;
pub mod headers;
pub mod object;
pub mod object_laws;
pub mod operation_laws;
pub mod presentation_laws;
pub mod sql;
pub mod sql_laws;
pub mod strings;
pub mod value;
