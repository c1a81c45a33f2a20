//! Ordered maps with string keys.
pub mod compare;
pub mod entries;
pub mod laws;
pub mod vec_map;
