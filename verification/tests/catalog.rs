//! Identifiers and definitions in the catalog.
use surreal_branch::catalog::database::{BranchMetadata, DatabaseDefinition, DatabaseId};
use surreal_branch::catalog::namespace::NamespaceId;
use surreal_branch::catalog::wire::WireError;
use surreal_branch::expr::expression::{ChangeFeed, Expr, Idiom, Literal};
use surreal_branch::expr::statement::{DefineDatabaseStatement, DefineKind};
use surreal_branch::val::value::Value;

fn wire(id: u32) -> Vec<u8> {
    let mut out = vec![0xaa];
    DatabaseId(id).serialize_revisioned(&mut out).unwrap();
    out.remove(0);
    out
}

#[test]
fn ids_have_a_wire_format() {
    assert_eq!(DatabaseId::revision(), 1);
    assert_eq!(wire(0), vec![0]);
    assert_eq!(wire(250), vec![250]);
    assert_eq!(wire(251), vec![251, 251, 0]);
    assert_eq!(wire(0x1234), vec![251, 0x34, 0x12]);
    assert_eq!(wire(0xffff), vec![251, 0xff, 0xff]);
    assert_eq!(wire(0x1_0000), vec![252, 0, 0, 1, 0]);
    assert_eq!(wire(u32::MAX), vec![252, 0xff, 0xff, 0xff, 0xff]);
}

#[test]
fn ids_are_read_back() {
    for id in [0, 1, 250, 251, 255, 256, 65_535, 65_536, 0x0102_0304, u32::MAX] {
        let mut bytes = wire(id);
        bytes.extend_from_slice(b"rest");
        assert_eq!(
            DatabaseId::deserialize_revisioned(&bytes),
            Ok((DatabaseId(id), &b"rest"[..]))
        );
        assert_eq!(DatabaseId::skip_revisioned(&bytes), Ok(&b"rest"[..]));
    }
    // A wider encoding than needed is read as well.
    let wide = [253, 7, 0, 0, 0, 0, 0, 0, 0, 9];
    assert_eq!(DatabaseId::deserialize_revisioned(&wide), Ok((DatabaseId(7), &[9][..])));
}

#[test]
fn broken_ids_are_rejected() {
    for bytes in [&[][..], &[251, 1], &[252, 1, 2, 3], &[253, 0, 0, 0, 0, 0, 0, 0]] {
        assert_eq!(
            DatabaseId::deserialize_revisioned(bytes),
            Err(WireError::UnexpectedEnd)
        );
        assert_eq!(DatabaseId::skip_revisioned(bytes), Err(WireError::UnexpectedEnd));
    }
    for bytes in [&[254][..], &[253, 0, 0, 0, 0, 1, 0, 0, 0]] {
        assert_eq!(
            DatabaseId::deserialize_revisioned(bytes),
            Err(WireError::IntegerOverflow)
        );
        assert_eq!(DatabaseId::skip_revisioned(bytes), Err(WireError::IntegerOverflow));
    }
    assert_eq!(
        DatabaseId::deserialize_revisioned(&[255, 0]),
        Err(WireError::InvalidIntegerEncoding)
    );
    assert_eq!(
        DatabaseId::skip_revisioned(&[255, 0]),
        Err(WireError::InvalidIntegerEncoding)
    );
}

#[test]
fn ids_print_in_decimal() {
    for id in [0, 7, 9, 10, 99, 100, 1_234_567_890, u32::MAX] {
        assert_eq!(DatabaseId(id).to_string(), format!("{id}"));
    }
    assert_eq!(DatabaseId::from(5), DatabaseId(5));
}

fn definition() -> DatabaseDefinition {
    DatabaseDefinition {
        namespace_id: NamespaceId(1),
        database_id: DatabaseId(2),
        name: "main".to_string(),
        comment: Some("the one".to_string()),
        changefeed: Some(ChangeFeed { expiry_secs: 3600, expiry_nanos: 0, store_diff: true }),
        strict: true,
    }
}

#[test]
fn definitions_become_statements() {
    let s = definition().to_sql_definition();
    assert_eq!(s.name, Expr::Idiom(Idiom(vec!["main".to_string()])));
    assert_eq!(s.comment, Expr::Literal(Literal::String("the one".to_string())));
    assert_eq!(s.changefeed, definition().changefeed);
    // The rest is as it is by default; the strictness is not carried over.
    assert_eq!(s, DefineDatabaseStatement {
        name: s.name.clone(),
        comment: s.comment.clone(),
        changefeed: s.changefeed,
        ..Default::default()
    });
    let bare = DatabaseDefinition { comment: None, changefeed: None, ..definition() };
    assert_eq!(bare.to_sql_definition().comment, Expr::Literal(Literal::Nil));
    assert_eq!(bare.to_sql_definition().changefeed, None);
}

#[test]
fn definitions_are_written_as_their_statement() {
    let mut f = "-- ".to_string();
    definition().fmt_sql(&mut f, |s: &DefineDatabaseStatement| format!("{:?}/{}", s.name, s.strict));
    assert_eq!(f, "-- Idiom(Idiom([\"main\"]))/false");
}

#[test]
fn default_statement_defines_nothing_special() {
    let s = DefineDatabaseStatement::default();
    assert_eq!(s.kind, DefineKind::Default);
    assert_eq!(s.id, None);
    assert_eq!(s.name, Expr::Literal(Literal::Nil));
    assert_eq!(s.comment, Expr::Literal(Literal::Nil));
    assert_eq!(s.changefeed, None);
    assert!(!s.strict);
    assert_eq!(s.from, None);
    assert_eq!(s.from_version, None);
}

#[test]
fn definitions_have_a_structure() {
    let o = definition().structure();
    assert_eq!(o.keys(), vec!["comment", "id", "name"]);
    assert_eq!(o.get("name"), Some(&Value::Strand("main".to_string())));
    assert_eq!(o.get("comment"), Some(&Value::Strand("the one".to_string())));
    assert_eq!(o.get("id"), Some(&Value::Number(2)));
    let bare = DatabaseDefinition { comment: None, ..definition() };
    assert_eq!(bare.structure().keys(), vec!["id", "name"]);
}

/// An expression by its debug text.
#[derive(Debug, PartialEq)]
struct Shown(String);

impl From<Expr> for Shown {
    fn from(e: Expr) -> Shown {
        Shown(format!("{e:?}"))
    }
}

#[test]
fn statements_have_a_structure() {
    let s = DefineDatabaseStatement {
        name: Expr::Source("$name".to_string()),
        ..Default::default()
    };
    let o = s.structure::<Shown>();
    assert_eq!(o.keys(), vec!["comment", "name"]);
    assert_eq!(o.get("name"), Some(&Shown("Source(\"$name\")".to_string())));
    assert_eq!(o.get("comment"), Some(&Shown("Literal(Nil)".to_string())));
}

#[test]
fn definitions_are_cloned_whole() {
    assert_eq!(definition().clone(), definition());
    let meta = BranchMetadata { parent: DatabaseId(1), base_version: 100 };
    assert_eq!(meta, BranchMetadata { parent: DatabaseId(1), base_version: 100 });
}
