//! The `DEFINE DATABASE` statement.
use vstd::prelude::*;

use crate::collections::entries::lookup;
use crate::expr::expression::{ChangeFeed, Expr, Literal};
use crate::val::object::Object;

verus! {

/// What a definition does where there is one already.
#[derive(Clone, Copy, Debug, PartialEq, Eq, Hash, Structural)]
pub enum DefineKind {
    /// It fails.
    Default,
    /// It takes its place.
    Overwrite,
    /// It leaves it as it is.
    IfNotExists,
}

/// `DEFINE DATABASE`.
#[derive(Clone, Debug, PartialEq, Eq, Hash)]
pub struct DefineDatabaseStatement {
    pub kind: DefineKind,
    pub id: Option<u32>,
    pub name: Expr,
    pub strict: bool,
    pub comment: Expr,
    pub changefeed: Option<ChangeFeed>,
    /// Copy-on-write branch source: `FROM <source_db>`. `None` is an ordinary database.
    pub from: Option<Expr>,
    /// `VERSION <datetime>` after `FROM`: the point in the source's history to branch from.
    /// `None` branches at the source's current state.
    pub from_version: Option<Expr>,
}

impl Default for DefineDatabaseStatement {
    fn default() -> (r: Self)
        ensures
            r == (DefineDatabaseStatement {
                kind: DefineKind::Default,
                id: None,
                name: Expr::Literal(Literal::Nil),
                strict: false,
                comment: Expr::Literal(Literal::Nil),
                changefeed: None,
                from: None,
                from_version: None,
            }),
    {
        DefineDatabaseStatement {
            kind: DefineKind::Default,
            id: None,
            name: Expr::Literal(Literal::Nil),
            comment: Expr::Literal(Literal::Nil),
            changefeed: None,
            strict: false,
            from: None,
            from_version: None,
        }
    }
}

impl DefineDatabaseStatement {
    /// The statement as an object: its name and its comment, as they convert.
    pub fn structure<V: From<Expr>>(self) -> (r: Object<V>)
        ensures
            r.wf(),
            r.plain(),
            lookup(r@, "name"@) matches Some(v) && call_ensures(V::from, (self.name,), v),
            lookup(r@, "comment"@) matches Some(v) && call_ensures(V::from, (self.comment,), v),
            forall|k: Seq<char>|
                k != "name"@ && k != "comment"@ ==> #[trigger] lookup(r@, k) is None,
    {
        proof {
            reveal_strlit("name");
            reveal_strlit("comment");
            assert("name"@.len() == 4 && "comment"@.len() == 7);
        }
        let mut r: Object<V> = Object::default();
        r.insert("name", V::from(self.name));
        r.insert("comment", V::from(self.comment));
        r
    }
}

} // verus!
