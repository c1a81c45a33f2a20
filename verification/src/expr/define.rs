//! `DEFINE DATABASE`, step by step.
//!
//! What the statement needs from its surroundings (permissions, evaluated expressions, the
//! catalog, the clock) it asks for, one request at a time. [`DefineDatabaseStatement::compute`]
//! starts it, [`Phase::request`] says what to ask for next, and
//! [`DefineDatabaseStatement::resume`] takes the reply.
use vstd::prelude::*;
use vstd::string::StringExecFns;

use crate::catalog::database::{BranchMetadata, DatabaseDefinition, DatabaseId};
use crate::catalog::namespace::NamespaceId;
use crate::expr::expression::Expr;
use crate::expr::statement::{DefineDatabaseStatement, DefineKind};
use crate::val::value::Value;

verus! {

/// What the surroundings allow and ask for.
#[derive(Clone, Copy, Debug, PartialEq, Eq, Structural)]
pub struct Settings {
    /// The experimental capability for database branching is enabled.
    pub branching: bool,
    /// The statement is part of an import.
    pub import: bool,
}

/// A namespace in the catalog.
#[derive(Debug, PartialEq, Eq)]
pub struct Namespace {
    pub id: NamespaceId,
    pub name: String,
}

/// What a statement asks for.
#[derive(Debug, PartialEq, Eq)]
pub enum Request {
    /// Whether databases of the namespace may be edited.
    Allowed,
    /// The name of the namespace in use.
    NamespaceName,
    /// The namespace of this name, defined if need be.
    Namespace { ns: String },
    /// The name of the database, from its expression.
    Name,
    /// The database of this name.
    Database { ns: String, name: String },
    /// A database identifier that is not in use.
    NextDatabaseId { ns: NamespaceId },
    /// The comment, from its expression.
    Comment,
    /// To store a definition.
    PutDatabase { ns: String, definition: DatabaseDefinition },
    /// The name of the source database, from its expression.
    SourceName,
    /// The source database of this name.
    Source { ns: String, name: String },
    /// The branch metadata of the source database.
    SourceBranch { ns: NamespaceId, db: DatabaseId },
    /// The version to branch from, from its expression.
    Version,
    /// The current version.
    CurrentVersion,
    /// To store branch metadata.
    PutBranch { ns: NamespaceId, db: DatabaseId, metadata: BranchMetadata },
    /// To clear the caches.
    ClearCaches,
}

/// What a statement is answered.
#[derive(Debug, PartialEq, Eq)]
pub enum Reply<E> {
    Done,
    Text(String),
    Namespace(Namespace),
    Database(Option<DatabaseId>),
    Id(DatabaseId),
    Comment(Option<String>),
    Branch(Option<BranchMetadata>),
    Version(u64),
    Failed(E),
}

/// Why a statement was refused.
#[derive(Debug, PartialEq, Eq)]
pub enum Refusal {
    /// Branching is not enabled.
    BranchingDisabled,
    /// A branch would take the place of a database.
    OverwriteBranch,
    /// The source is a branch.
    SourceIsBranch { name: String },
}

/// How a statement fails.
#[derive(Debug, PartialEq, Eq)]
pub enum DefineError<E> {
    Thrown(Refusal),
    DbAlreadyExists { name: String },
    DbNotFound { name: String },
    /// A request failed.
    Failed(E),
}

/// The text of a refusal.
pub open spec fn refusal_text(refusal: Refusal) -> Seq<char> {
    match refusal {
        Refusal::BranchingDisabled =>
            "Database branching is experimental; enable it with --allow-experimental database_branching"@,
        Refusal::OverwriteBranch =>
            "DEFINE DATABASE ... OVERWRITE cannot be combined with FROM (branching)"@,
        Refusal::SourceIsBranch { name } => "Cannot branch from `"@ + name@
            + "`: branching from a branch is not supported"@,
    }
}

impl Refusal {
    /// The text of the refusal.
    pub fn message(&self) -> (r: String)
        ensures
            r@ == refusal_text(*self),
    {
        match self {
            Refusal::BranchingDisabled => "Database branching is experimental; enable it with --allow-experimental database_branching".to_owned(),
            Refusal::OverwriteBranch => "DEFINE DATABASE ... OVERWRITE cannot be combined with FROM (branching)".to_owned(),
            Refusal::SourceIsBranch { name } => {
                let mut r = "Cannot branch from `".to_owned();
                r.append(name.as_str());
                r.append("`: branching from a branch is not supported");
                r
            },
        }
    }
}

/// How far a statement has come: what it asks for, and what it knows.
#[derive(Debug, PartialEq, Eq)]
pub enum Phase {
    Allowed,
    NamespaceName,
    Namespace { ns: String },
    Name { ns: String, space: Namespace },
    Database { ns: String, space: Namespace, name: String },
    Id { ns: String, space: Namespace, name: String },
    Comment { ns: String, space: Namespace, name: String, id: DatabaseId, new: bool },
    PutDatabase { ns: String, space: Namespace, definition: DatabaseDefinition, new: bool },
    SourceName { ns: String, space: NamespaceId, id: DatabaseId, target: String, new: bool },
    Source { ns: String, space: NamespaceId, id: DatabaseId, name: String },
    SourceBranch { space: NamespaceId, id: DatabaseId, name: String, source: DatabaseId },
    Version { space: NamespaceId, id: DatabaseId, source: DatabaseId },
    PutBranch { space: NamespaceId, id: DatabaseId, metadata: BranchMetadata },
    ClearCaches,
}

/// What comes of a reply: another phase, or the end.
#[derive(Debug, PartialEq, Eq)]
pub enum Step<E> {
    Ask(Phase),
    Finished(Result<Value, DefineError<E>>),
}

/// The request of a phase.
pub open spec fn phase_request(statement: DefineDatabaseStatement, phase: Phase) -> Request {
    match phase {
        Phase::Allowed => Request::Allowed,
        Phase::NamespaceName => Request::NamespaceName,
        Phase::Namespace { ns } => Request::Namespace { ns },
        Phase::Name { .. } => Request::Name,
        Phase::Database { ns, name, .. } => Request::Database { ns, name },
        Phase::Id { space, .. } => Request::NextDatabaseId { ns: space.id },
        Phase::Comment { .. } => Request::Comment,
        Phase::PutDatabase { space, definition, .. } => Request::PutDatabase {
            ns: space.name,
            definition,
        },
        Phase::SourceName { .. } => Request::SourceName,
        Phase::Source { ns, name, .. } => Request::Source { ns, name },
        Phase::SourceBranch { space, source, .. } => Request::SourceBranch { ns: space, db: source },
        Phase::Version { .. } => if statement.from_version is Some {
            Request::Version
        } else {
            Request::CurrentVersion
        },
        Phase::PutBranch { space, id, metadata } => Request::PutBranch {
            ns: space,
            db: id,
            metadata,
        },
        Phase::ClearCaches => Request::ClearCaches,
    }
}

/// The reply is one that the request can have. Only the caches are cleared without fail.
pub open spec fn fits<E>(request: Request, reply: Reply<E>) -> bool {
    match request {
        Request::ClearCaches => reply is Done,
        Request::Allowed => reply is Done || reply is Failed,
        Request::NamespaceName => reply is Text || reply is Failed,
        Request::Namespace { .. } => reply is Namespace || reply is Failed,
        Request::Name => reply is Text || reply is Failed,
        Request::Database { .. } => reply is Database || reply is Failed,
        Request::NextDatabaseId { .. } => reply is Id || reply is Failed,
        Request::Comment => reply is Comment || reply is Failed,
        Request::PutDatabase { .. } => reply is Done || reply is Failed,
        Request::SourceName => reply is Text || reply is Failed,
        Request::Source { .. } => reply is Database || reply is Failed,
        Request::SourceBranch { .. } => reply is Branch || reply is Failed,
        Request::Version => reply is Version || reply is Failed,
        Request::CurrentVersion => reply is Version || reply is Failed,
        Request::PutBranch { .. } => reply is Done || reply is Failed,
    }
}

/// The expression of the statement that a request is to evaluate.
pub open spec fn request_expression(
    statement: DefineDatabaseStatement,
    request: Request,
) -> Option<Expr> {
    match request {
        Request::Name => Some(statement.name),
        Request::Comment => Some(statement.comment),
        Request::SourceName => statement.from,
        Request::Version => statement.from_version,
        _ => None,
    }
}

/// What the evaluated expression of a request has to name, where it has to be a name.
pub open spec fn request_label(request: Request) -> Option<Seq<char>> {
    match request {
        Request::Name => Some("database name"@),
        Request::SourceName => Some("source database name"@),
        _ => None,
    }
}

/// Why a branch is refused before anything is looked up, if it is.
pub open spec fn early_refusal(statement: DefineDatabaseStatement, settings: Settings) -> Option<
    Refusal,
> {
    if statement.from is None {
        None
    } else if !settings.branching {
        Some(Refusal::BranchingDisabled)
    } else if statement.kind == DefineKind::Overwrite {
        Some(Refusal::OverwriteBranch)
    } else {
        None
    }
}

/// What comes of a reply that is no failure.
pub open spec fn after<E>(
    statement: DefineDatabaseStatement,
    settings: Settings,
    phase: Phase,
    reply: Reply<E>,
) -> Step<E> {
    match phase {
        Phase::Allowed => Step::Ask(Phase::NamespaceName),
        Phase::NamespaceName => Step::Ask(Phase::Namespace { ns: reply->Text_0 }),
        Phase::Namespace { ns } => Step::Ask(Phase::Name { ns, space: reply->Namespace_0 }),
        Phase::Name { ns, space } => match early_refusal(statement, settings) {
            Some(refusal) => Step::Finished(Err(DefineError::Thrown(refusal))),
            None => Step::Ask(Phase::Database { ns, space, name: reply->Text_0 }),
        },
        Phase::Database { ns, space, name } => match (reply->Database_0, statement.kind) {
            (None, _) => Step::Ask(Phase::Id { ns, space, name }),
            (Some(_), DefineKind::IfNotExists) => Step::Finished(Ok(Value::Nil)),
            (Some(id), DefineKind::Overwrite) => Step::Ask(
                Phase::Comment { ns, space, name, id, new: false },
            ),
            (Some(id), DefineKind::Default) => if settings.import {
                Step::Ask(Phase::Comment { ns, space, name, id, new: false })
            } else {
                Step::Finished(Err(DefineError::DbAlreadyExists { name }))
            },
        },
        Phase::Id { ns, space, name } => Step::Ask(
            Phase::Comment { ns, space, name, id: reply->Id_0, new: true },
        ),
        Phase::Comment { ns, space, name, id, new } => Step::Ask(
            Phase::PutDatabase {
                ns,
                space,
                definition: DatabaseDefinition {
                    namespace_id: space.id,
                    database_id: id,
                    name,
                    comment: reply->Comment_0,
                    changefeed: statement.changefeed,
                    strict: statement.strict,
                },
                new,
            },
        ),
        Phase::PutDatabase { ns, space, definition, new } => if statement.from is Some {
            Step::Ask(
                Phase::SourceName {
                    ns,
                    space: space.id,
                    id: definition.database_id,
                    target: definition.name,
                    new,
                },
            )
        } else {
            Step::Ask(Phase::ClearCaches)
        },
        Phase::SourceName { ns, space, id, target, new } => if new && target@
            == reply->Text_0@ {
            Step::Finished(Err(DefineError::DbNotFound { name: reply->Text_0 }))
        } else {
            Step::Ask(Phase::Source { ns, space, id, name: reply->Text_0 })
        },
        Phase::Source { space, id, name, .. } => match reply->Database_0 {
            Some(source) => Step::Ask(Phase::SourceBranch { space, id, name, source }),
            None => Step::Finished(Err(DefineError::DbNotFound { name })),
        },
        Phase::SourceBranch { space, id, name, source } => match reply->Branch_0 {
            Some(_) => Step::Finished(
                Err(DefineError::Thrown(Refusal::SourceIsBranch { name })),
            ),
            None => Step::Ask(Phase::Version { space, id, source }),
        },
        Phase::Version { space, id, source } => Step::Ask(
            Phase::PutBranch {
                space,
                id,
                metadata: BranchMetadata { parent: source, base_version: reply->Version_0 },
            },
        ),
        Phase::PutBranch { .. } => Step::Ask(Phase::ClearCaches),
        Phase::ClearCaches => Step::Finished(Ok(Value::Nil)),
    }
}

/// What comes of a reply: a failed request ends the statement with that failure.
pub open spec fn next<E>(
    statement: DefineDatabaseStatement,
    settings: Settings,
    phase: Phase,
    reply: Reply<E>,
) -> Step<E> {
    match reply {
        Reply::Failed(e) => Step::Finished(Err(DefineError::Failed(e))),
        _ => after(statement, settings, phase, reply),
    }
}

impl Phase {
    /// What the phase asks for.
    pub fn request(&self, statement: &DefineDatabaseStatement) -> (r: Request)
        ensures
            r == phase_request(*statement, *self),
    {
        match self {
            Phase::Allowed => Request::Allowed,
            Phase::NamespaceName => Request::NamespaceName,
            Phase::Namespace { ns } => Request::Namespace { ns: ns.clone() },
            Phase::Name { .. } => Request::Name,
            Phase::Database { ns, name, .. } => Request::Database {
                ns: ns.clone(),
                name: name.clone(),
            },
            Phase::Id { space, .. } => Request::NextDatabaseId { ns: space.id },
            Phase::Comment { .. } => Request::Comment,
            Phase::PutDatabase { space, definition, .. } => Request::PutDatabase {
                ns: space.name.clone(),
                definition: definition.clone(),
            },
            Phase::SourceName { .. } => Request::SourceName,
            Phase::Source { ns, name, .. } => Request::Source { ns: ns.clone(), name: name.clone() },
            Phase::SourceBranch { space, source, .. } => Request::SourceBranch {
                ns: *space,
                db: *source,
            },
            Phase::Version { .. } => if statement.from_version.is_some() {
                Request::Version
            } else {
                Request::CurrentVersion
            },
            Phase::PutBranch { space, id, metadata } => Request::PutBranch {
                ns: *space,
                db: *id,
                metadata: *metadata,
            },
            Phase::ClearCaches => Request::ClearCaches,
        }
    }
}

impl Request {
    /// The expression of the statement that the request is to evaluate.
    pub fn expression<'a>(&self, statement: &'a DefineDatabaseStatement) -> (r: Option<&'a Expr>)
        ensures
            r == (match request_expression(*statement, *self) {
                Some(expr) => Some(&expr),
                None => None,
            }),
    {
        match self {
            Request::Name => Some(&statement.name),
            Request::Comment => Some(&statement.comment),
            Request::SourceName => statement.from.as_ref(),
            Request::Version => statement.from_version.as_ref(),
            _ => None,
        }
    }

    /// What the evaluated expression has to name, where it has to be a name; failures to
    /// evaluate it tell it so.
    pub fn label(&self) -> (r: Option<&'static str>)
        ensures
            match r {
                Some(text) => request_label(*self) == Some(text@),
                None => request_label(*self) is None,
            },
    {
        match self {
            Request::Name => Some("database name"),
            Request::SourceName => Some("source database name"),
            _ => None,
        }
    }

    /// Whether `reply` is one that the request can have.
    pub fn accepts<E>(&self, reply: &Reply<E>) -> (b: bool)
        ensures
            b == fits(*self, *reply),
    {
        match (self, reply) {
            (Request::ClearCaches, Reply::Done) => true,
            (Request::ClearCaches, _) => false,
            (_, Reply::Failed(_)) => true,
            (Request::Allowed, Reply::Done) => true,
            (Request::NamespaceName, Reply::Text(_)) => true,
            (Request::Namespace { .. }, Reply::Namespace(_)) => true,
            (Request::Name, Reply::Text(_)) => true,
            (Request::Database { .. }, Reply::Database(_)) => true,
            (Request::NextDatabaseId { .. }, Reply::Id(_)) => true,
            (Request::Comment, Reply::Comment(_)) => true,
            (Request::PutDatabase { .. }, Reply::Done) => true,
            (Request::SourceName, Reply::Text(_)) => true,
            (Request::Source { .. }, Reply::Database(_)) => true,
            (Request::SourceBranch { .. }, Reply::Branch(_)) => true,
            (Request::Version, Reply::Version(_)) => true,
            (Request::CurrentVersion, Reply::Version(_)) => true,
            (Request::PutBranch { .. }, Reply::Done) => true,
            _ => false,
        }
    }
}

impl DefineDatabaseStatement {
    /// Starts the statement.
    pub fn compute(&self) -> (r: Phase)
        ensures
            r == Phase::Allowed,
    {
        Phase::Allowed
    }

    /// Why a branch is refused before anything is looked up, if it is.
    fn refuse_early(&self, settings: Settings) -> (r: Option<Refusal>)
        ensures
            r == early_refusal(*self, settings),
    {
        if self.from.is_none() {
            None
        } else if !settings.branching {
            Some(Refusal::BranchingDisabled)
        } else if self.kind == DefineKind::Overwrite {
            // The data of a branch would be discarded silently.
            Some(Refusal::OverwriteBranch)
        } else {
            None
        }
    }

    /// Goes on with the reply to the request of `phase`.
    pub fn resume<E>(&self, settings: Settings, phase: Phase, reply: Reply<E>) -> (r: Step<E>)
        requires
            fits(phase_request(*self, phase), reply),
        ensures
            r == next(*self, settings, phase, reply),
    {
        match (phase, reply) {
            (_, Reply::Failed(e)) => Step::Finished(Err(DefineError::Failed(e))),
            (Phase::Allowed, _) => Step::Ask(Phase::NamespaceName),
            (Phase::NamespaceName, Reply::Text(ns)) => Step::Ask(Phase::Namespace { ns }),
            (Phase::Namespace { ns }, Reply::Namespace(space)) => Step::Ask(
                Phase::Name { ns, space },
            ),
            (Phase::Name { ns, space }, Reply::Text(name)) => match self.refuse_early(settings) {
                Some(refusal) => Step::Finished(Err(DefineError::Thrown(refusal))),
                None => Step::Ask(Phase::Database { ns, space, name }),
            },
            (Phase::Database { ns, space, name }, Reply::Database(Some(id))) => match self.kind {
                DefineKind::Default => {
                    if settings.import {
                        Step::Ask(Phase::Comment { ns, space, name, id, new: false })
                    } else {
                        Step::Finished(Err(DefineError::DbAlreadyExists { name }))
                    }
                },
                DefineKind::Overwrite => Step::Ask(
                    Phase::Comment { ns, space, name, id, new: false },
                ),
                DefineKind::IfNotExists => Step::Finished(Ok(Value::Nil)),
            },
            (Phase::Database { ns, space, name }, _) => Step::Ask(Phase::Id { ns, space, name }),
            (Phase::Id { ns, space, name }, Reply::Id(id)) => Step::Ask(
                Phase::Comment { ns, space, name, id, new: true },
            ),
            (Phase::Comment { ns, space, name, id, new }, Reply::Comment(comment)) => {
                let definition = DatabaseDefinition {
                    namespace_id: space.id,
                    database_id: id,
                    name,
                    comment,
                    changefeed: self.changefeed,
                    strict: self.strict,
                };
                Step::Ask(Phase::PutDatabase { ns, space, definition, new })
            },
            (Phase::PutDatabase { ns, space, definition, new }, _) => if self.from.is_some() {
                Step::Ask(
                    Phase::SourceName {
                        ns,
                        space: space.id,
                        id: definition.database_id,
                        target: definition.name,
                        new,
                    },
                )
            } else {
                Step::Ask(Phase::ClearCaches)
            },
            (Phase::SourceName { ns, space, id, target, new }, Reply::Text(name)) => {
                // The definition is stored by now, so a new database would find itself here.
                if new && target == name {
                    Step::Finished(Err(DefineError::DbNotFound { name }))
                } else {
                    Step::Ask(Phase::Source { ns, space, id, name })
                }
            },
            (Phase::Source { space, id, name, .. }, Reply::Database(Some(source))) => Step::Ask(
                Phase::SourceBranch { space, id, name, source },
            ),
            (Phase::Source { name, .. }, _) => Step::Finished(
                Err(DefineError::DbNotFound { name }),
            ),
            // Branches have one level: the source must not itself be one.
            (Phase::SourceBranch { name, .. }, Reply::Branch(Some(_))) => Step::Finished(
                Err(DefineError::Thrown(Refusal::SourceIsBranch { name })),
            ),
            (Phase::SourceBranch { space, id, source, .. }, _) => Step::Ask(
                Phase::Version { space, id, source },
            ),
            (Phase::Version { space, id, source }, Reply::Version(base_version)) => Step::Ask(
                Phase::PutBranch {
                    space,
                    id,
                    metadata: BranchMetadata { parent: source, base_version },
                },
            ),
            (Phase::PutBranch { .. }, _) => Step::Ask(Phase::ClearCaches),
            _ => Step::Finished(Ok(Value::Nil)),
        }
    }
}

} // verus!
