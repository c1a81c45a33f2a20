//! The parts of the expression language that definitions are made of.
use vstd::prelude::*;

verus! {

/// A literal.
#[derive(Clone, Debug, PartialEq, Eq, Hash)]
pub enum Literal {
    /// No value.
    Nil,
    String(String),
}

/// A path to a field.
#[derive(Clone, Debug, PartialEq, Eq, Hash)]
pub struct Idiom(pub Vec<String>);

impl Idiom {
    /// The path to the field `name`.
    pub fn field(name: String) -> (r: Self)
        ensures
            r.0@ == seq![name],
    {
        let mut parts: Vec<String> = Vec::new();
        parts.push(name);
        assert(parts@ =~= seq![name]);
        Idiom(parts)
    }
}

/// An expression.
#[derive(Clone, Debug, PartialEq, Eq, Hash)]
pub enum Expr {
    Literal(Literal),
    Idiom(Idiom),
    /// Any other expression, by its source text.
    Source(String),
}

/// How long the changes of a database are kept, and whether with the state before them.
#[derive(Clone, Copy, Debug, PartialEq, Eq, Hash, Structural)]
pub struct ChangeFeed {
    pub expiry_secs: u64,
    pub expiry_nanos: u32,
    pub store_diff: bool,
}

} // verus!
