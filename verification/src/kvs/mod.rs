//! Key-value level pieces: the overlay of a branch over its parent, and its laws.
pub mod branch;
pub mod branch_laws;
