//! Copy-on-write database branching.
pub mod bytes;
pub mod catalog;
pub mod collections;
pub mod expr;
pub mod key;
pub mod kvs;
pub mod peekable;
pub mod types;
pub mod val;
