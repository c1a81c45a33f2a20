//! Laws of databases in the catalog.
use vstd::prelude::*;
use vstd::std_specs::convert::FromSpec;

use crate::catalog::database::{decimal, DatabaseDefinition, DatabaseId};
use crate::catalog::wire::{law_wire_round_trip, wire_u32, WireError};
use crate::collections::entries::{has_key, lookup};
use crate::expr::expression::{Expr, Literal};
use crate::expr::statement::{DefineDatabaseStatement, DefineKind};
use crate::val::object::Object;
use crate::val::value::Value;

verus! {

/// The number that decimal digits stand for, each digit ten times what the next one counts.
pub open spec fn numeral(s: Seq<char>) -> int
    decreases s.len(),
{
    if s.len() == 0 {
        0
    } else {
        10 * numeral(s.drop_last()) + (s.last() as int - '0' as int)
    }
}

/// A number is written in decimal digits, without a zero in front unless it is zero, and is read
/// back from them.
pub proof fn law_decimal_is_read_back(n: int)
    requires
        0 <= n,
    ensures
        numeral(decimal(n)) == n,
        decimal(n).len() > 0,
        forall|i: int| 0 <= i < decimal(n).len() ==> '0' <= #[trigger] decimal(n)[i] <= '9',
        decimal(n)[0] == '0' ==> n == 0,
        n == 0 ==> decimal(n).len() == 1,
    decreases n,
{
    if n < 10 {
        assert(decimal(n).drop_last() =~= Seq::empty());
        assert(numeral(Seq::<char>::empty()) == 0);
    } else {
        law_decimal_is_read_back(n / 10);
        assert(decimal(n).drop_last() =~= decimal(n / 10));
        assert(decimal(n)[0] == decimal(n / 10)[0]);
        assert forall|i: int| 0 <= i < decimal(n).len() implies '0' <= #[trigger] decimal(n)[i]
            <= '9' by {
            if i < decimal(n).len() - 1 {
                assert(decimal(n)[i] == decimal(n / 10)[i]);
            }
        }
    }
}

/// Numbers are told apart by their digits.
pub proof fn law_decimals_differ(a: int, b: int)
    requires
        0 <= a,
        0 <= b,
    ensures
        decimal(a) == decimal(b) <==> a == b,
{
    law_decimal_is_read_back(a);
    law_decimal_is_read_back(b);
}

/// An identifier of a number is that number.
pub proof fn law_identifier_of_number(n: u32)
    ensures
        DatabaseId::from_spec(n).0 == n,
        <DatabaseId as FromSpec<u32>>::obeys_from_spec(),
{
}

/// The string that an expression stands for, where it is a literal string.
pub open spec fn literal_string(expr: Expr) -> Option<String> {
    match expr {
        Expr::Literal(Literal::String(v)) => Some(v),
        _ => None,
    }
}

/// The field that an expression stands for, where it is a path to one.
pub open spec fn field_name(expr: Expr) -> Option<String> {
    match expr {
        Expr::Idiom(path) => if path.0@.len() == 1 {
            Some(path.0@[0])
        } else {
            None
        },
        _ => None,
    }
}

/// From the statement of a definition its name, its comment and its change feed can be read,
/// whatever else it holds: a comment that is there is the literal string, and one that is not is
/// no value. The statement defines an ordinary database, where there is none yet.
pub proof fn law_statement_tells_definition(
    definition: DatabaseDefinition,
    statement: DefineDatabaseStatement,
)
    requires
        definition.is_defined_by(statement),
    ensures
        field_name(statement.name) == Some(definition.name),
        literal_string(statement.comment) == definition.comment,
        definition.comment is None ==> statement.comment == Expr::Literal(Literal::Nil),
        statement.changefeed == definition.changefeed,
        statement.kind == DefineKind::Default,
        statement.id is None,
        !statement.strict,
        statement.from is None,
        statement.from_version is None,
{
}

/// A statement that tells the name, the comment and the change feed of a definition is the
/// statement of that definition, and of no other with another name, comment or change feed.
pub proof fn law_statement_is_of_one_definition(
    a: DatabaseDefinition,
    b: DatabaseDefinition,
    statement: DefineDatabaseStatement,
)
    requires
        a.is_defined_by(statement),
    ensures
        b.is_defined_by(statement) <==> a.name == b.name && a.comment == b.comment && a.changefeed
            == b.changefeed,
{
    if a.name == b.name && a.comment == b.comment {
        assert(seq![a.name] == seq![b.name]);
    }
    if b.is_defined_by(statement) {
        law_statement_tells_definition(a, statement);
        law_statement_tells_definition(b, statement);
    }
}

/// The statement that is made of a definition tells its name, its comment and its change feed.
pub proof fn law_made_statement_tells_definition(
    definition: DatabaseDefinition,
    statement: DefineDatabaseStatement,
)
    requires
        call_ensures(DatabaseDefinition::to_sql_definition, (&definition,), statement),
    ensures
        field_name(statement.name) == Some(definition.name),
        literal_string(statement.comment) == definition.comment,
        definition.comment is None ==> statement.comment == Expr::Literal(Literal::Nil),
        statement.changefeed == definition.changefeed,
        statement.kind == DefineKind::Default,
        statement.from is None,
{
    law_statement_tells_definition(definition, statement);
}

/// The text of a definition is that of its statement, behind what was there.
pub proof fn law_definition_is_written_as_its_statement<F: Fn(&DefineDatabaseStatement) -> String>(
    definition: DatabaseDefinition,
    f: &mut String,
    fmt_statement: F,
    text: spec_fn(Option<String>, Option<String>) -> Seq<char>,
)
    requires
        call_ensures(DatabaseDefinition::fmt_sql::<F>, (&definition, f, fmt_statement), ()),
        forall|statement: DefineDatabaseStatement, r: String| #[trigger]
            call_ensures(fmt_statement, (&statement,), r) ==> r@ == text(
                field_name(statement.name),
                literal_string(statement.comment),
            ),
    ensures
        final(f)@ == old(f)@ + text(Some(definition.name), definition.comment),
{
    let (statement, r) = choose|statement: DefineDatabaseStatement, r: String|
        {
            &&& definition.is_defined_by(statement)
            &&& #[trigger] call_ensures(fmt_statement, (&statement,), r)
            &&& final(f)@ == f@ + r@
        };
    law_statement_tells_definition(definition, statement);
}

/// The object of a definition has its name, its identifier, its comment exactly where there is
/// one, and nothing else.
pub proof fn law_object_of_definition(
    definition: DatabaseDefinition,
    object: Object<Value>,
    key: Seq<char>,
)
    requires
        call_ensures(DatabaseDefinition::structure, (definition,), object),
    ensures
        lookup(object@, "name"@) == Some(Value::Strand(definition.name)),
        lookup(object@, "id"@) matches Some(Value::Number(n)) && n == definition.database_id.0,
        has_key(object@, "comment"@) <==> definition.comment is Some,
        definition.comment is Some ==> lookup(object@, "comment"@) == Some(
            Value::Strand(definition.comment->0),
        ),
        has_key(object@, key) ==> key == "name"@ || key == "id"@ || key == "comment"@,
{
    assert(has_key(object@, key) <==> lookup(object@, key) is Some);
}

/// The object of a statement has its name and its comment, as they convert, and nothing else.
pub proof fn law_object_of_statement<V: From<Expr>>(
    statement: DefineDatabaseStatement,
    object: Object<V>,
    key: Seq<char>,
)
    requires
        call_ensures(DefineDatabaseStatement::structure::<V>, (statement,), object),
    ensures
        lookup(object@, "name"@) is Some,
        call_ensures(V::from, (statement.name,), lookup(object@, "name"@)->0),
        lookup(object@, "comment"@) is Some,
        call_ensures(V::from, (statement.comment,), lookup(object@, "comment"@)->0),
        has_key(object@, key) ==> key == "name"@ || key == "comment"@,
{
    assert(has_key(object@, key) <==> lookup(object@, key) is Some);
}

/// A statement by default defines nothing that was not asked for: no comment, no change feed, no
/// source, and it fails where there is a definition already.
pub proof fn law_default_statement(statement: DefineDatabaseStatement)
    requires
        call_ensures(<DefineDatabaseStatement as Default>::default, (), statement),
    ensures
        statement.kind == DefineKind::Default,
        statement.id is None,
        statement.name == Expr::Literal(Literal::Nil),
        statement.comment == Expr::Literal(Literal::Nil),
        statement.changefeed is None,
        !statement.strict,
        statement.from is None,
        statement.from_version is None,
{
}

/// The text of an identifier is its number in decimal digits.
pub proof fn law_identifier_is_read_back(id: DatabaseId, text: String)
    requires
        call_ensures(DatabaseId::to_string, (&id,), text),
    ensures
        numeral(text@) == id.0,
        text@.len() > 0,
        forall|i: int| 0 <= i < text@.len() ==> '0' <= #[trigger] text@[i] <= '9',
        text@[0] == '0' ==> id.0 == 0,
        id.0 == 0 ==> text@.len() == 1,
{
    law_decimal_is_read_back(id.0 as int);
}

/// An identifier that is written is read back, whatever follows it, and reading or passing over
/// it leaves what follows.
pub proof fn law_written_identifier_is_read(
    id: DatabaseId,
    writer: &mut Vec<u8>,
    written: Result<(), WireError>,
    bytes: &[u8],
    behind: Seq<u8>,
    read: Result<(DatabaseId, &[u8]), WireError>,
    passed: Result<&[u8], WireError>,
)
    requires
        call_ensures(DatabaseId::serialize_revisioned, (&id, writer), written),
        writer@.len() == 0,
        bytes@ == final(writer)@ + behind,
        call_ensures(DatabaseId::deserialize_revisioned, (bytes,), read),
        call_ensures(DatabaseId::skip_revisioned, (bytes,), passed),
    ensures
        written is Ok,
        read matches Ok((found, rest)) && found == id && rest@ == behind,
        passed matches Ok(rest) && rest@ == behind,
{
    law_wire_round_trip(id.0, behind);
    assert(final(writer)@ =~= wire_u32(id.0));
}

} // verus!
