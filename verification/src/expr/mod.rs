//! Expressions and statements.
pub mod define;
pub mod define_laws;
pub mod expression;
pub mod statement;
