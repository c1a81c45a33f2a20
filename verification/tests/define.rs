//! `DEFINE DATABASE`, in surroundings made for each test.
use surreal_branch::catalog::database::{BranchMetadata, DatabaseDefinition, DatabaseId};
use surreal_branch::catalog::namespace::NamespaceId;
use surreal_branch::expr::define::{
    DefineError, Namespace, Refusal, Reply, Request, Settings, Step,
};
use surreal_branch::expr::expression::{ChangeFeed, Expr};
use surreal_branch::expr::statement::{DefineDatabaseStatement, DefineKind};
use surreal_branch::val::value::Value;

const BRANCHING: Settings = Settings { branching: true, import: false };

/// A catalog with the databases `main` (1), `experiment` (2) and its branch metadata.
struct World {
    name: &'static str,
    source: &'static str,
    fail: Option<&'static str>,
    requests: Vec<String>,
    databases: Vec<DatabaseDefinition>,
    branches: Vec<(NamespaceId, DatabaseId, BranchMetadata)>,
}

fn world(name: &'static str, source: &'static str) -> World {
    World { name, source, fail: None, requests: vec![], databases: vec![], branches: vec![] }
}

impl World {
    fn find(&self, name: &str) -> Option<DatabaseId> {
        match name {
            "main" => Some(DatabaseId(1)),
            "experiment" => Some(DatabaseId(2)),
            _ => self.databases.iter().find(|d| d.name == name).map(|d| d.database_id),
        }
    }

    fn answer(&mut self, request: Request) -> Reply<String> {
        let text = format!("{request:?}");
        let kind = text.split(' ').next().unwrap().to_string();
        self.requests.push(kind.clone());
        if self.fail == Some(kind.as_str()) {
            return Reply::Failed(kind);
        }
        match request {
            Request::Allowed | Request::ClearCaches => Reply::Done,
            Request::NamespaceName => Reply::Text("demo".to_string()),
            Request::Namespace { ns } => {
                assert_eq!(ns, "demo");
                Reply::Namespace(Namespace { id: NamespaceId(7), name: "demo".to_string() })
            }
            Request::Name => Reply::Text(self.name.to_string()),
            Request::Database { ns, name } => {
                assert_eq!(ns, "demo");
                Reply::Database(self.find(&name))
            }
            Request::NextDatabaseId { ns } => {
                assert_eq!(ns, NamespaceId(7));
                Reply::Id(DatabaseId(40))
            }
            Request::Comment => Reply::Comment(Some("c".to_string())),
            Request::PutDatabase { ns, definition } => {
                assert_eq!(ns, "demo");
                self.databases.push(definition);
                Reply::Done
            }
            Request::SourceName => Reply::Text(self.source.to_string()),
            Request::Source { ns, name } => {
                assert_eq!(ns, "demo");
                Reply::Database(self.find(&name))
            }
            Request::SourceBranch { ns, db } => {
                assert_eq!(ns, NamespaceId(7));
                if db == DatabaseId(2) {
                    Reply::Branch(Some(BranchMetadata { parent: DatabaseId(1), base_version: 9 }))
                } else {
                    Reply::Branch(None)
                }
            }
            Request::Version => Reply::Version(123),
            Request::CurrentVersion => Reply::Version(456),
            Request::PutBranch { ns, db, metadata } => {
                self.branches.push((ns, db, metadata));
                Reply::Done
            }
        }
    }

    fn run(
        &mut self,
        statement: &DefineDatabaseStatement,
        settings: Settings,
    ) -> Result<Value, DefineError<String>> {
        let mut phase = statement.compute();
        loop {
            let request = phase.request(statement);
            let accepted = phase.request(statement);
            let reply = self.answer(request);
            assert!(accepted.accepts(&reply));
            match statement.resume(settings, phase, reply) {
                Step::Ask(p) => phase = p,
                Step::Finished(result) => return result,
            }
        }
    }

    fn stored_nothing(&self) -> bool {
        self.databases.is_empty() && self.branches.is_empty()
    }
}

fn statement(kind: DefineKind, from: bool, version: bool) -> DefineDatabaseStatement {
    let source = |text: &str| Some(Expr::Source(text.to_string()));
    DefineDatabaseStatement {
        kind,
        strict: true,
        changefeed: Some(ChangeFeed { expiry_secs: 60, expiry_nanos: 0, store_diff: false }),
        from: if from { source("main") } else { None },
        from_version: if version { source("d'2020-01-01T00:00:00Z'") } else { None },
        ..Default::default()
    }
}

#[test]
fn ordinary_database_is_stored() {
    let mut w = world("fresh", "");
    let s = statement(DefineKind::Default, false, false);
    assert_eq!(w.run(&s, Settings { branching: false, import: false }), Ok(Value::Nil));
    assert_eq!(w.requests, vec![
        "Allowed",
        "NamespaceName",
        "Namespace",
        "Name",
        "Database",
        "NextDatabaseId",
        "Comment",
        "PutDatabase",
        "ClearCaches"
    ]);
    assert_eq!(w.databases, vec![DatabaseDefinition {
        namespace_id: NamespaceId(7),
        database_id: DatabaseId(40),
        name: "fresh".to_string(),
        comment: Some("c".to_string()),
        changefeed: s.changefeed,
        strict: true,
    }]);
    assert!(w.branches.is_empty());
}

#[test]
fn branch_is_pinned_to_the_current_version() {
    let mut w = world("fresh", "main");
    let s = statement(DefineKind::Default, true, false);
    assert_eq!(w.run(&s, BRANCHING), Ok(Value::Nil));
    assert_eq!(w.requests, vec![
        "Allowed",
        "NamespaceName",
        "Namespace",
        "Name",
        "Database",
        "NextDatabaseId",
        "Comment",
        "PutDatabase",
        "SourceName",
        "Source",
        "SourceBranch",
        "CurrentVersion",
        "PutBranch",
        "ClearCaches"
    ]);
    assert_eq!(w.databases.len(), 1);
    assert_eq!(w.branches, vec![(NamespaceId(7), DatabaseId(40), BranchMetadata {
        parent: DatabaseId(1),
        base_version: 456
    })]);
}

#[test]
fn branch_is_pinned_to_the_given_version() {
    let mut w = world("fresh", "main");
    let s = statement(DefineKind::IfNotExists, true, true);
    assert_eq!(w.run(&s, BRANCHING), Ok(Value::Nil));
    assert_eq!(w.branches, vec![(NamespaceId(7), DatabaseId(40), BranchMetadata {
        parent: DatabaseId(1),
        base_version: 123
    })]);
    assert!(!w.requests.contains(&"CurrentVersion".to_string()));
}

#[test]
fn branching_needs_the_capability() {
    let mut w = world("fresh", "main");
    let s = statement(DefineKind::Overwrite, true, false);
    let result = w.run(&s, Settings { branching: false, import: true });
    assert_eq!(result, Err(DefineError::Thrown(Refusal::BranchingDisabled)));
    assert_eq!(
        Refusal::BranchingDisabled.message(),
        "Database branching is experimental; enable it with --allow-experimental \
         database_branching"
    );
    assert!(w.stored_nothing());
    assert_eq!(w.requests, vec!["Allowed", "NamespaceName", "Namespace", "Name"]);
}

#[test]
fn branch_cannot_overwrite() {
    let mut w = world("fresh", "main");
    let s = statement(DefineKind::Overwrite, true, false);
    assert_eq!(w.run(&s, BRANCHING), Err(DefineError::Thrown(Refusal::OverwriteBranch)));
    assert_eq!(
        Refusal::OverwriteBranch.message(),
        "DEFINE DATABASE ... OVERWRITE cannot be combined with FROM (branching)"
    );
    assert!(w.stored_nothing());
}

#[test]
fn existing_database_fails_by_default() {
    let mut w = world("main", "");
    let s = statement(DefineKind::Default, false, false);
    assert_eq!(
        w.run(&s, BRANCHING),
        Err(DefineError::DbAlreadyExists { name: "main".to_string() })
    );
    assert!(w.stored_nothing());
    assert!(!w.requests.contains(&"ClearCaches".to_string()));
}

#[test]
fn existing_database_is_left_if_not_exists() {
    let mut w = world("main", "main");
    let s = statement(DefineKind::IfNotExists, true, false);
    assert_eq!(w.run(&s, BRANCHING), Ok(Value::Nil));
    assert!(w.stored_nothing());
    assert_eq!(w.requests.last().unwrap(), "Database");
}

#[test]
fn existing_database_keeps_its_id() {
    for (kind, import) in [(DefineKind::Overwrite, false), (DefineKind::Default, true)] {
        let mut w = world("experiment", "");
        let s = statement(kind, false, false);
        assert_eq!(w.run(&s, Settings { branching: false, import }), Ok(Value::Nil));
        assert_eq!(w.databases[0].database_id, DatabaseId(2));
        assert!(!w.requests.contains(&"NextDatabaseId".to_string()));
        assert_eq!(w.requests.last().unwrap(), "ClearCaches");
    }
}

#[test]
fn source_must_be_there() {
    let mut w = world("fresh", "nowhere");
    let s = statement(DefineKind::Default, true, false);
    assert_eq!(
        w.run(&s, BRANCHING),
        Err(DefineError::DbNotFound { name: "nowhere".to_string() })
    );
    assert!(w.branches.is_empty());
    // The definition was stored before the source was looked up.
    assert_eq!(w.databases.len(), 1);
}

#[test]
fn new_database_is_no_source_of_its_own() {
    for kind in [DefineKind::Default, DefineKind::IfNotExists] {
        let mut w = world("fresh", "fresh");
        let s = statement(kind, true, false);
        assert_eq!(
            w.run(&s, BRANCHING),
            Err(DefineError::DbNotFound { name: "fresh".to_string() })
        );
        assert!(w.branches.is_empty());
        assert_eq!(w.requests.last().unwrap(), "SourceName");
        // By then a look-up would have found it.
        assert_eq!(w.find("fresh"), Some(DatabaseId(40)));
    }
}

#[test]
fn source_must_not_be_a_branch() {
    let mut w = world("fresh", "experiment");
    let s = statement(DefineKind::Default, true, false);
    let refusal = Refusal::SourceIsBranch { name: "experiment".to_string() };
    assert_eq!(
        refusal.message(),
        "Cannot branch from `experiment`: branching from a branch is not supported"
    );
    assert_eq!(w.run(&s, BRANCHING), Err(DefineError::Thrown(refusal)));
    assert!(w.branches.is_empty());
}

#[test]
fn failed_requests_end_the_statement() {
    for kind in [
        "Allowed",
        "NamespaceName",
        "Namespace",
        "Name",
        "Database",
        "NextDatabaseId",
        "Comment",
        "PutDatabase",
        "SourceName",
        "Source",
        "SourceBranch",
        "CurrentVersion",
        "PutBranch",
    ] {
        let mut w = world("fresh", "main");
        w.fail = Some(kind);
        let s = statement(DefineKind::Default, true, false);
        assert_eq!(w.run(&s, BRANCHING), Err(DefineError::Failed(kind.to_string())));
        assert_eq!(w.requests.last().unwrap(), kind);
    }
    let mut w = world("fresh", "main");
    w.fail = Some("Version");
    let s = statement(DefineKind::Default, true, true);
    assert_eq!(w.run(&s, BRANCHING), Err(DefineError::Failed("Version".to_string())));
}

#[test]
fn requests_name_their_expressions() {
    let s = DefineDatabaseStatement {
        name: Expr::Source("$n".to_string()),
        comment: Expr::Source("$c".to_string()),
        ..statement(DefineKind::Default, true, true)
    };
    assert_eq!(Request::Name.expression(&s), Some(&s.name));
    assert_eq!(Request::Comment.expression(&s), Some(&s.comment));
    assert_eq!(Request::SourceName.expression(&s), s.from.as_ref());
    assert_eq!(Request::Version.expression(&s), s.from_version.as_ref());
    assert_eq!(Request::CurrentVersion.expression(&s), None);
    assert_eq!(Request::Name.label(), Some("database name"));
    assert_eq!(Request::SourceName.label(), Some("source database name"));
    assert_eq!(Request::Comment.label(), None);
}

#[test]
fn replies_must_fit() {
    assert!(!Request::Allowed.accepts::<String>(&Reply::Text("x".to_string())));
    assert!(!Request::Comment.accepts::<String>(&Reply::Done));
    assert!(!Request::ClearCaches.accepts(&Reply::Failed("x".to_string())));
    assert!(Request::Comment.accepts::<String>(&Reply::Comment(None)));
}
