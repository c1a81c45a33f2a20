//! Databases in the catalog.
use vstd::prelude::*;
use vstd::string::StringExecFns;

use crate::catalog::namespace::NamespaceId;
use crate::catalog::wire::{read_u32, skip_u32, unwire_u32, wire_u32, write_u32, WireError};
use crate::collections::entries::lookup;
use crate::expr::expression::{ChangeFeed, Expr, Idiom, Literal};
use crate::expr::statement::{DefineDatabaseStatement, DefineKind};
use crate::val::object::Object;
use crate::val::value::Value;

verus! {

/// The identifier of a database.
#[derive(Clone, Copy, Debug, PartialEq, Eq, PartialOrd, Ord, Hash, Structural)]
pub struct DatabaseId(pub u32);

impl vstd::std_specs::convert::FromSpecImpl<u32> for DatabaseId {
    open spec fn obeys_from_spec() -> bool {
        true
    }

    open spec fn from_spec(v: u32) -> Self {
        DatabaseId(v)
    }
}

impl From<u32> for DatabaseId {
    fn from(v: u32) -> (r: Self) {
        DatabaseId(v)
    }
}

/// A decimal digit.
pub open spec fn digit_char(d: int) -> char {
    ('0' as int + d) as char
}

/// A number in decimal digits.
pub open spec fn decimal(n: int) -> Seq<char>
    decreases n,
{
    if n < 10 {
        seq![digit_char(n)]
    } else {
        decimal(n / 10).push(digit_char(n % 10))
    }
}

/// A decimal digit as text.
fn digit_str(d: u32) -> (r: &'static str)
    requires
        d < 10,
    ensures
        r@ == seq![digit_char(d as int)],
{
    proof {
        reveal_strlit("0");
        reveal_strlit("1");
        reveal_strlit("2");
        reveal_strlit("3");
        reveal_strlit("4");
        reveal_strlit("5");
        reveal_strlit("6");
        reveal_strlit("7");
        reveal_strlit("8");
        reveal_strlit("9");
    }
    let r = match d {
        0 => "0",
        1 => "1",
        2 => "2",
        3 => "3",
        4 => "4",
        5 => "5",
        6 => "6",
        7 => "7",
        8 => "8",
        _ => "9",
    };
    assert(r@ =~= seq![digit_char(d as int)]);
    r
}

/// A number in decimal digits.
fn decimal_string(n: u32) -> (r: String)
    ensures
        r@ == decimal(n as int),
    decreases n,
{
    if n < 10 {
        digit_str(n).to_owned()
    } else {
        let mut r = decimal_string(n / 10);
        let ghost head = r@;
        r.append(digit_str(n % 10));
        assert(r@ =~= head.push(digit_char(n as int % 10)));
        r
    }
}

impl DatabaseId {
    /// The revision of the wire format.
    pub fn revision() -> (r: u16)
        ensures
            r == 1,
    {
        1
    }

    /// Appends the identifier in the wire format; a vector takes everything.
    pub fn serialize_revisioned(&self, writer: &mut Vec<u8>) -> (r: Result<(), WireError>)
        ensures
            r is Ok,
            final(writer)@ == old(writer)@ + wire_u32(self.0),
    {
        if write_u32(self.0, writer) {
            Ok(())
        } else {
            Err(WireError::Failed)
        }
    }

    /// Reads an identifier, and returns it with what follows it.
    pub fn deserialize_revisioned(bytes: &[u8]) -> (r: Result<(DatabaseId, &[u8]), WireError>)
        ensures
            match r {
                Ok((id, rest)) => unwire_u32(bytes@) == Ok::<(u32, Seq<u8>), WireError>(
                    (id.0, rest@),
                ),
                Err(e) => unwire_u32(bytes@) == Err::<(u32, Seq<u8>), WireError>(e),
            },
    {
        match read_u32(bytes) {
            Ok((id, rest)) => Ok((DatabaseId(id), rest)),
            Err(e) => Err(e),
        }
    }

    /// Passes over an identifier, and returns what follows it.
    pub fn skip_revisioned(bytes: &[u8]) -> (r: Result<&[u8], WireError>)
        ensures
            match r {
                Ok(rest) => unwire_u32(bytes@) matches Ok((_, left)) && left == rest@,
                Err(e) => unwire_u32(bytes@) == Err::<(u32, Seq<u8>), WireError>(e),
            },
    {
        skip_u32(bytes)
    }

    /// The identifier in decimal digits.
    pub fn to_string(&self) -> (r: String)
        ensures
            r@ == decimal(self.0 as int),
    {
        decimal_string(self.0)
    }
}

/// A database as it is defined.
#[derive(Debug, PartialEq, Eq, Hash)]
pub struct DatabaseDefinition {
    pub namespace_id: NamespaceId,
    pub database_id: DatabaseId,
    pub name: String,
    pub comment: Option<String>,
    pub changefeed: Option<ChangeFeed>,
    pub strict: bool,
}

impl Clone for DatabaseDefinition {
    fn clone(&self) -> (r: Self)
        ensures
            r == *self,
    {
        DatabaseDefinition {
            namespace_id: self.namespace_id,
            database_id: self.database_id,
            name: self.name.clone(),
            comment: match &self.comment {
                Some(v) => Some(v.clone()),
                None => None,
            },
            changefeed: self.changefeed,
            strict: self.strict,
        }
    }
}

impl DatabaseDefinition {
    /// The statement that defines the database: its name, its comment and its change feed, and
    /// for the rest what a statement has by default.
    pub open spec fn is_defined_by(&self, r: DefineDatabaseStatement) -> bool {
        &&& r.name matches Expr::Idiom(i) && i.0@ == seq![self.name]
        &&& r.comment == Expr::Literal(
            match self.comment {
                Some(v) => Literal::String(v),
                None => Literal::Nil,
            },
        )
        &&& r.changefeed == self.changefeed
        &&& r.kind == DefineKind::Default
        &&& r.id is None
        &&& !r.strict
        &&& r.from is None
        &&& r.from_version is None
    }

    /// The statement that defines the database.
    pub fn to_sql_definition(&self) -> (r: DefineDatabaseStatement)
        ensures
            self.is_defined_by(r),
    {
        let comment = match &self.comment {
            Some(v) => Expr::Literal(Literal::String(v.clone())),
            None => Expr::Literal(Literal::Nil),
        };
        let rest = DefineDatabaseStatement::default();
        DefineDatabaseStatement {
            name: Expr::Idiom(Idiom::field(self.name.clone())),
            comment,
            changefeed: self.changefeed,
            ..rest
        }
    }

    /// Appends the statement that defines the database, as `fmt_statement` writes it.
    pub fn fmt_sql<F: Fn(&DefineDatabaseStatement) -> String>(&self, f: &mut String, fmt_statement: F)
        requires
            forall|statement: DefineDatabaseStatement| call_requires(fmt_statement, (&statement,)),
        ensures
            exists|statement: DefineDatabaseStatement, text: String|
                {
                    &&& self.is_defined_by(statement)
                    &&& #[trigger] call_ensures(fmt_statement, (&statement,), text)
                    &&& final(f)@ == old(f)@ + text@
                },
    {
        let statement = self.to_sql_definition();
        let text = fmt_statement(&statement);
        f.append(text.as_str());
    }

    /// The definition as an object: the name, the comment if there is one, and the identifier.
    pub fn structure(self) -> (r: Object<Value>)
        ensures
            r.wf(),
            r.plain(),
            lookup(r@, "name"@) == Some(Value::Strand(self.name)),
            lookup(r@, "comment"@) == (match self.comment {
                Some(v) => Some(Value::Strand(v)),
                None => None,
            }),
            lookup(r@, "id"@) == Some(Value::Number(self.database_id.0 as i64)),
            forall|k: Seq<char>|
                k != "name"@ && k != "comment"@ && k != "id"@ ==> #[trigger] lookup(r@, k) is None,
    {
        proof {
            reveal_strlit("name");
            reveal_strlit("comment");
            reveal_strlit("id");
            assert("name"@.len() == 4 && "comment"@.len() == 7 && "id"@.len() == 2);
        }
        let mut r: Object<Value> = Object::default();
        r.insert("name", Value::Strand(self.name));
        if let Some(v) = self.comment {
            r.insert("comment", Value::Strand(v));
        }
        r.insert("id", Value::Number(self.database_id.0 as i64));
        r
    }
}

/// Copy-on-write branch metadata of a database.
///
/// It is stored under a key of its own, not in the [`DatabaseDefinition`], so ordinary
/// databases are encoded as if there were no branches. Where there is none, the database is an
/// ordinary one.
#[derive(Clone, Copy, Debug, PartialEq, Eq, Hash, Structural)]
pub struct BranchMetadata {
    /// The database that this one was branched from, in the same namespace.
    pub parent: DatabaseId,
    /// The version of the parent that this branch is pinned to.
    pub base_version: u64,
}

} // verus!
