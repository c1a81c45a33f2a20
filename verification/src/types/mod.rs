//! The object type handed to clients.
pub mod object;
