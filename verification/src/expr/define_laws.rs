//! Laws of `DEFINE DATABASE`: what is asked for and what is stored, however the surroundings
//! answer.
use vstd::prelude::*;

use crate::catalog::database::{BranchMetadata, DatabaseDefinition, DatabaseId};
use crate::catalog::database_laws::law_statement_tells_definition;
use crate::catalog::namespace::NamespaceId;
use crate::expr::define::{
    early_refusal, fits, next, phase_request, refusal_text, request_expression, request_label,
    DefineError, Namespace, Phase, Refusal, Reply, Request, Settings, Step,
};
use crate::expr::expression::Expr;
use crate::expr::statement::{DefineDatabaseStatement, DefineKind};
use crate::val::value::Value;

verus! {

/// The exchange `trace` is a whole run of the statement from `phase` on, and `result` is what it
/// comes to: each request is that of the phase that the reply before it led to, each reply fits,
/// and the last one ends the statement.
pub open spec fn runs<E>(
    statement: DefineDatabaseStatement,
    settings: Settings,
    phase: Phase,
    trace: Seq<(Request, Reply<E>)>,
    result: Result<Value, DefineError<E>>,
) -> bool
    decreases trace.len(),
{
    &&& trace.len() > 0
    &&& trace[0].0 == phase_request(statement, phase)
    &&& fits(trace[0].0, trace[0].1)
    &&& match next(statement, settings, phase, trace[0].1) {
        Step::Finished(r) => trace.len() == 1 && r == result,
        Step::Ask(following) => runs(statement, settings, following, trace.drop_first(), result),
    }
}

/// The request was made and had this reply.
pub open spec fn heard<E>(
    trace: Seq<(Request, Reply<E>)>,
    request: Request,
    reply: Reply<E>,
) -> bool {
    trace.contains((request, reply))
}

/// The request, wherever it was made, had this reply.
pub open spec fn answered<E>(
    trace: Seq<(Request, Reply<E>)>,
    request: Request,
    reply: Reply<E>,
) -> bool {
    forall|i: int|
        0 <= i < trace.len() && (#[trigger] trace[i]).0 == request ==> trace[i].1 == reply
}

/// No request failed.
pub open spec fn unfailing<E>(trace: Seq<(Request, Reply<E>)>) -> bool {
    forall|i: int| 0 <= i < trace.len() ==> !((#[trigger] trace[i]).1 is Failed)
}

/// The request stores something.
pub open spec fn is_write(request: Request) -> bool {
    request is PutDatabase || request is PutBranch
}

/// Nothing is stored.
pub open spec fn stores_nothing<E>(trace: Seq<(Request, Reply<E>)>) -> bool {
    forall|i: int| 0 <= i < trace.len() ==> !is_write((#[trigger] trace[i]).0)
}

/// Branch metadata is stored.
pub open spec fn stores_branch<E>(trace: Seq<(Request, Reply<E>)>) -> bool {
    exists|i: int| 0 <= i < trace.len() && (#[trigger] trace[i]).0 is PutBranch
}

/// The statement may touch a database that is there already.
pub open spec fn may_touch(statement: DefineDatabaseStatement, settings: Settings) -> bool {
    statement.kind == DefineKind::Overwrite || (statement.kind == DefineKind::Default
        && settings.import)
}

/// The request for the version to branch from.
pub open spec fn version_request(statement: DefineDatabaseStatement) -> Request {
    if statement.from_version is Some {
        Request::Version
    } else {
        Request::CurrentVersion
    }
}

/// How many phases there are at most from this one on.
pub open spec fn rank(phase: Phase) -> nat {
    match phase {
        Phase::Allowed => 14,
        Phase::NamespaceName => 13,
        Phase::Namespace { .. } => 12,
        Phase::Name { .. } => 11,
        Phase::Database { .. } => 10,
        Phase::Id { .. } => 9,
        Phase::Comment { .. } => 8,
        Phase::PutDatabase { .. } => 7,
        Phase::SourceName { .. } => 6,
        Phase::Source { .. } => 5,
        Phase::SourceBranch { .. } => 4,
        Phase::Version { .. } => 3,
        Phase::PutBranch { .. } => 2,
        Phase::ClearCaches => 1,
    }
}

/// Where a request stands in the order of requests: the higher, the earlier.
pub open spec fn request_rank(request: Request) -> nat {
    match request {
        Request::Allowed => 14,
        Request::NamespaceName => 13,
        Request::Namespace { .. } => 12,
        Request::Name => 11,
        Request::Database { .. } => 10,
        Request::NextDatabaseId { .. } => 9,
        Request::Comment => 8,
        Request::PutDatabase { .. } => 7,
        Request::SourceName => 6,
        Request::Source { .. } => 5,
        Request::SourceBranch { .. } => 4,
        Request::Version => 3,
        Request::CurrentVersion => 3,
        Request::PutBranch { .. } => 2,
        Request::ClearCaches => 1,
    }
}

/// However it is answered, a statement ends: every reply leads to a phase from which there are
/// fewer to come, or to the end.
pub proof fn law_statement_ends<E>(
    statement: DefineDatabaseStatement,
    settings: Settings,
    phase: Phase,
    reply: Reply<E>,
)
    ensures
        next(statement, settings, phase, reply) matches Step::Ask(following) ==> rank(following)
            < rank(phase),
{
}

/// The namespace in use, by its name and as it stands in the catalog.
pub open spec fn in_namespace<E>(
    trace: Seq<(Request, Reply<E>)>,
    ns: String,
    space: Namespace,
) -> bool {
    &&& heard(trace, Request::NamespaceName, Reply::Text(ns))
    &&& heard(trace, Request::Namespace { ns }, Reply::Namespace(space))
}

/// The identifier that the statement gives to the database `name`: a new one where the database
/// is new, and otherwise its own, provided that the statement may touch it.
pub open spec fn takes_id<E>(
    statement: DefineDatabaseStatement,
    settings: Settings,
    trace: Seq<(Request, Reply<E>)>,
    ns: String,
    space: Namespace,
    name: String,
    id: DatabaseId,
    new: bool,
) -> bool {
    &&& heard(trace, Request::Name, Reply::Text(name))
    &&& if new {
        &&& heard(trace, Request::Database { ns, name }, Reply::Database(None))
        &&& heard(trace, Request::NextDatabaseId { ns: space.id }, Reply::Id(id))
    } else {
        &&& heard(trace, Request::Database { ns, name }, Reply::Database(Some(id)))
        &&& may_touch(statement, settings)
    }
}

/// The definition that the statement stores, of a new database or of one that was there.
pub open spec fn defines<E>(
    statement: DefineDatabaseStatement,
    settings: Settings,
    trace: Seq<(Request, Reply<E>)>,
    ns: String,
    space: Namespace,
    definition: DatabaseDefinition,
    new: bool,
) -> bool {
    &&& in_namespace(trace, ns, space)
    &&& early_refusal(statement, settings) is None
    &&& takes_id(
        statement,
        settings,
        trace,
        ns,
        space,
        definition.name,
        definition.database_id,
        new,
    )
    &&& definition.namespace_id == space.id
    &&& heard(trace, Request::Comment, Reply::Comment(definition.comment))
    &&& definition.changefeed == statement.changefeed
    &&& definition.strict == statement.strict
}

/// The definition of the database `target` is stored.
pub open spec fn is_stored<E>(
    statement: DefineDatabaseStatement,
    settings: Settings,
    trace: Seq<(Request, Reply<E>)>,
    ns: String,
    space: NamespaceId,
    id: DatabaseId,
    target: String,
    new: bool,
) -> bool {
    exists|at: Namespace, definition: DatabaseDefinition|
        {
            &&& #[trigger] defines(statement, settings, trace, ns, at, definition, new)
            &&& space == at.id
            &&& id == definition.database_id
            &&& target == definition.name
            &&& heard(trace, Request::PutDatabase { ns: at.name, definition }, Reply::Done)
        }
}

/// The stored database is to be a branch of the database `source`, which is not itself, were it
/// new.
pub open spec fn has_source<E>(
    statement: DefineDatabaseStatement,
    settings: Settings,
    trace: Seq<(Request, Reply<E>)>,
    ns: String,
    space: NamespaceId,
    id: DatabaseId,
    source: String,
) -> bool {
    &&& statement.from is Some
    &&& heard(trace, Request::SourceName, Reply::Text(source))
    &&& exists|target: String, new: bool|
        {
            &&& #[trigger] is_stored(statement, settings, trace, ns, space, id, target, new)
            &&& !(new && target@ == source@)
        }
}

/// The source was found to be the database `parent`.
pub open spec fn finds_source<E>(
    statement: DefineDatabaseStatement,
    settings: Settings,
    trace: Seq<(Request, Reply<E>)>,
    space: NamespaceId,
    id: DatabaseId,
    source: String,
    parent: DatabaseId,
) -> bool {
    exists|ns: String|
        {
            &&& #[trigger] has_source(statement, settings, trace, ns, space, id, source)
            &&& heard(
                trace,
                Request::Source { ns, name: source },
                Reply::Database(Some(parent)),
            )
        }
}

/// The source was found to be the database `parent`, which is no branch.
pub open spec fn has_parent<E>(
    statement: DefineDatabaseStatement,
    settings: Settings,
    trace: Seq<(Request, Reply<E>)>,
    space: NamespaceId,
    id: DatabaseId,
    parent: DatabaseId,
) -> bool {
    &&& heard(trace, Request::SourceBranch { ns: space, db: parent }, Reply::Branch(None))
    &&& exists|source: String| #[trigger]
        finds_source(statement, settings, trace, space, id, source, parent)
}

/// The branch metadata that the statement stores.
pub open spec fn branches<E>(
    statement: DefineDatabaseStatement,
    settings: Settings,
    trace: Seq<(Request, Reply<E>)>,
    space: NamespaceId,
    id: DatabaseId,
    metadata: BranchMetadata,
) -> bool {
    &&& has_parent(statement, settings, trace, space, id, metadata.parent)
    &&& heard(trace, version_request(statement), Reply::Version(metadata.base_version))
}

/// What there is to store is stored.
pub open spec fn is_complete<E>(
    statement: DefineDatabaseStatement,
    settings: Settings,
    trace: Seq<(Request, Reply<E>)>,
) -> bool {
    &&& early_refusal(statement, settings) is None
    &&& exists|ns: String, space: NamespaceId, id: DatabaseId, target: String, new: bool|
        #[trigger] is_stored(statement, settings, trace, ns, space, id, target, new)
    &&& statement.from is Some ==> exists|
        space: NamespaceId,
        id: DatabaseId,
        metadata: BranchMetadata,
    |
        {
            &&& #[trigger] branches(statement, settings, trace, space, id, metadata)
            &&& heard(trace, Request::PutBranch { ns: space, db: id, metadata }, Reply::Done)
        }
}

/// What a statement has learned from its surroundings when it comes to a phase.
pub open spec fn known<E>(
    statement: DefineDatabaseStatement,
    settings: Settings,
    trace: Seq<(Request, Reply<E>)>,
    phase: Phase,
) -> bool {
    match phase {
        Phase::Allowed => true,
        Phase::NamespaceName => true,
        Phase::Namespace { ns } => heard(trace, Request::NamespaceName, Reply::Text(ns)),
        Phase::Name { ns, space } => in_namespace(trace, ns, space),
        Phase::Database { ns, space, name } => {
            &&& in_namespace(trace, ns, space)
            &&& early_refusal(statement, settings) is None
            &&& heard(trace, Request::Name, Reply::Text(name))
        },
        Phase::Id { ns, space, name } => {
            &&& in_namespace(trace, ns, space)
            &&& early_refusal(statement, settings) is None
            &&& heard(trace, Request::Name, Reply::Text(name))
            &&& heard(trace, Request::Database { ns, name }, Reply::Database(None))
        },
        Phase::Comment { ns, space, name, id, new } => {
            &&& in_namespace(trace, ns, space)
            &&& early_refusal(statement, settings) is None
            &&& takes_id(statement, settings, trace, ns, space, name, id, new)
        },
        Phase::PutDatabase { ns, space, definition, new } => defines(
            statement,
            settings,
            trace,
            ns,
            space,
            definition,
            new,
        ),
        Phase::SourceName { ns, space, id, target, new } => {
            &&& statement.from is Some
            &&& is_stored(statement, settings, trace, ns, space, id, target, new)
        },
        Phase::Source { ns, space, id, name } => has_source(
            statement,
            settings,
            trace,
            ns,
            space,
            id,
            name,
        ),
        Phase::SourceBranch { space, id, name, source } => finds_source(
            statement,
            settings,
            trace,
            space,
            id,
            name,
            source,
        ),
        Phase::Version { space, id, source } => has_parent(
            statement,
            settings,
            trace,
            space,
            id,
            source,
        ),
        Phase::PutBranch { space, id, metadata } => branches(
            statement,
            settings,
            trace,
            space,
            id,
            metadata,
        ),
        Phase::ClearCaches => is_complete(statement, settings, trace),
    }
}

/// The phase that a run from the beginning comes to after `i` replies.
pub open spec fn phase_at<E>(
    statement: DefineDatabaseStatement,
    settings: Settings,
    trace: Seq<(Request, Reply<E>)>,
    i: nat,
) -> Phase
    decreases i,
{
    if i == 0 {
        Phase::Allowed
    } else {
        let before = phase_at(statement, settings, trace, (i - 1) as nat);
        next(statement, settings, before, trace[i - 1].1)->Ask_0
    }
}

/// What is known at a phase leads, by a reply that was heard, to what is known at the next.
proof fn lemma_known_next<E>(
    statement: DefineDatabaseStatement,
    settings: Settings,
    trace: Seq<(Request, Reply<E>)>,
    phase: Phase,
    reply: Reply<E>,
)
    requires
        known(statement, settings, trace, phase),
        fits(phase_request(statement, phase), reply),
        heard(trace, phase_request(statement, phase), reply),
    ensures
        next(statement, settings, phase, reply) matches Step::Ask(p) ==> known(
            statement,
            settings,
            trace,
            p,
        ) && rank(p) < rank(phase),
{
    if !(reply is Failed) {
        match phase {
            Phase::PutDatabase { ns, space, definition, new } => {
                assert(defines(statement, settings, trace, ns, space, definition, new));
                assert(is_stored(
                    statement,
                    settings,
                    trace,
                    ns,
                    space.id,
                    definition.database_id,
                    definition.name,
                    new,
                ));
            },
            Phase::SourceName { ns, space, id, target, new } => {
                assert(is_stored(statement, settings, trace, ns, space, id, target, new));
            },
            Phase::Source { ns, space, id, name } => {
                assert(has_source(statement, settings, trace, ns, space, id, name));
            },
            Phase::SourceBranch { space, id, name, source } => {
                assert(finds_source(statement, settings, trace, space, id, name, source));
            },
            Phase::PutBranch { space, id, metadata } => {
                assert(branches(statement, settings, trace, space, id, metadata));
                lemma_branch_is_allowed(statement, settings, trace, space, id, metadata.parent);
            },
            _ => {},
        }
    }
}

/// A branch is made only where it is not refused at once, and of a database that is stored.
proof fn lemma_branch_is_allowed<E>(
    statement: DefineDatabaseStatement,
    settings: Settings,
    trace: Seq<(Request, Reply<E>)>,
    space: NamespaceId,
    id: DatabaseId,
    parent: DatabaseId,
)
    requires
        has_parent(statement, settings, trace, space, id, parent),
    ensures
        early_refusal(statement, settings) is None,
        statement.from is Some,
        exists|ns: String, at: NamespaceId, db: DatabaseId, target: String, new: bool| #[trigger]
            is_stored(statement, settings, trace, ns, at, db, target, new),
{
    let source = choose|source: String| #[trigger]
        finds_source(statement, settings, trace, space, id, source, parent);
    let ns = choose|ns: String|
        {
            &&& #[trigger] has_source(statement, settings, trace, ns, space, id, source)
            &&& heard(trace, Request::Source { ns, name: source }, Reply::Database(Some(parent)))
        };
    assert(has_source(statement, settings, trace, ns, space, id, source));
}

/// A run passes through its phases one by one.
proof fn lemma_phases<E>(
    statement: DefineDatabaseStatement,
    settings: Settings,
    trace: Seq<(Request, Reply<E>)>,
    result: Result<Value, DefineError<E>>,
    i: nat,
)
    requires
        runs(statement, settings, Phase::Allowed, trace, result),
        i < trace.len(),
    ensures
        ({
            let phase = phase_at(statement, settings, trace, i);
            let step = next(statement, settings, phase, trace[i as int].1);
            &&& runs(statement, settings, phase, trace.skip(i as int), result)
            &&& known(statement, settings, trace, phase)
            &&& trace[i as int].0 == phase_request(statement, phase)
            &&& request_rank(trace[i as int].0) == rank(phase)
            &&& fits(trace[i as int].0, trace[i as int].1)
            &&& heard(trace, trace[i as int].0, trace[i as int].1)
            &&& i + 1 == trace.len() ==> step == Step::Finished(result)
            &&& i + 1 < trace.len() ==> step is Ask
        }),
    decreases i,
{
    reveal_with_fuel(runs, 2);
    if i == 0 {
        assert(trace.skip(0) =~= trace);
    } else {
        let j = (i - 1) as nat;
        lemma_phases(statement, settings, trace, result, j);
        let before = phase_at(statement, settings, trace, j);
        lemma_known_next(statement, settings, trace, before, trace[j as int].1);
        assert(trace.skip(j as int).drop_first() =~= trace.skip(i as int));
        assert(trace.skip(j as int)[0] == trace[j as int]);
    }
    let phase = phase_at(statement, settings, trace, i);
    let rest = trace.skip(i as int);
    assert(rest[0] == trace[i as int]);
    assert(runs(statement, settings, phase, rest, result));
    if i + 1 < trace.len() {
        assert(rest.len() > 1);
    } else {
        assert(rest.drop_first().len() == 0);
    }
    assert(trace.contains(trace[i as int]));
    assert(trace[i as int] == (trace[i as int].0, trace[i as int].1));
}

/// Requests come in one order and at most once each: a definition is stored before branch
/// metadata, and the caches are cleared last.
pub proof fn law_requests_in_order<E>(
    statement: DefineDatabaseStatement,
    settings: Settings,
    trace: Seq<(Request, Reply<E>)>,
    result: Result<Value, DefineError<E>>,
)
    requires
        runs(statement, settings, Phase::Allowed, trace, result),
    ensures
        forall|i: int, j: int|
            0 <= i < j < trace.len() ==> request_rank((#[trigger] trace[i]).0) > request_rank(
                (#[trigger] trace[j]).0,
            ),
        trace.len() <= 14,
{
    assert forall|i: int, j: int| 0 <= i < j < trace.len() implies request_rank(
        (#[trigger] trace[i]).0,
    ) > request_rank((#[trigger] trace[j]).0) by {
        lemma_order(statement, settings, trace, result, i, j);
    }
    lemma_phases(statement, settings, trace, result, 0);
    if trace.len() > 1 {
        lemma_order(statement, settings, trace, result, 0, trace.len() - 1);
    }
    lemma_phases(statement, settings, trace, result, (trace.len() - 1) as nat);
}

/// The rank falls from request to request.
proof fn lemma_order<E>(
    statement: DefineDatabaseStatement,
    settings: Settings,
    trace: Seq<(Request, Reply<E>)>,
    result: Result<Value, DefineError<E>>,
    i: int,
    j: int,
)
    requires
        runs(statement, settings, Phase::Allowed, trace, result),
        0 <= i < j < trace.len(),
    ensures
        request_rank(trace[i].0) >= request_rank(trace[j].0) + (j - i),
    decreases j - i,
{
    let k = (j - 1) as nat;
    lemma_phases(statement, settings, trace, result, k);
    lemma_phases(statement, settings, trace, result, j as nat);
    lemma_known_next(
        statement,
        settings,
        trace,
        phase_at(statement, settings, trace, k),
        trace[k as int].1,
    );
    if i < j - 1 {
        lemma_order(statement, settings, trace, result, i, j - 1);
    }
}

/// What is asked for once has one reply.
proof fn lemma_heard_once<E>(
    statement: DefineDatabaseStatement,
    settings: Settings,
    trace: Seq<(Request, Reply<E>)>,
    result: Result<Value, DefineError<E>>,
    a: (Request, Reply<E>),
    b: (Request, Reply<E>),
)
    requires
        runs(statement, settings, Phase::Allowed, trace, result),
        heard(trace, a.0, a.1),
        heard(trace, b.0, b.1),
        request_rank(a.0) == request_rank(b.0),
    ensures
        a == b,
{
    law_requests_in_order(statement, settings, trace, result);
    let i = choose|i: int| 0 <= i < trace.len() && trace[i] == (a.0, a.1);
    let j = choose|j: int| 0 <= j < trace.len() && trace[j] == (b.0, b.1);
    assert(trace[i].0 == a.0 && trace[j].0 == b.0);
}

/// A request that fails is the last, and the statement fails with that failure.
pub proof fn law_failure_ends<E>(
    statement: DefineDatabaseStatement,
    settings: Settings,
    trace: Seq<(Request, Reply<E>)>,
    result: Result<Value, DefineError<E>>,
    i: int,
)
    requires
        runs(statement, settings, Phase::Allowed, trace, result),
        0 <= i < trace.len(),
        trace[i].1 is Failed,
    ensures
        i == trace.len() - 1,
        result == Err::<Value, DefineError<E>>(DefineError::Failed(trace[i].1->Failed_0)),
{
    lemma_phases(statement, settings, trace, result, i as nat);
}

/// What is stored as the definition of a database: its namespace, its name and its comment as
/// they were given, the change feed and the strictness of the statement, and the identifier
/// that the database had, if there was one, or else a new one.
pub proof fn law_definition_stored<E>(
    statement: DefineDatabaseStatement,
    settings: Settings,
    trace: Seq<(Request, Reply<E>)>,
    result: Result<Value, DefineError<E>>,
    i: int,
    ns: String,
    definition: DatabaseDefinition,
)
    requires
        runs(statement, settings, Phase::Allowed, trace, result),
        0 <= i < trace.len(),
        trace[i].0 == (Request::PutDatabase { ns, definition }),
    ensures
        exists|used: String, space: Namespace, new: bool| #[trigger]
            defines(statement, settings, trace, used, space, definition, new) && ns == space.name,
{
    lemma_phases(statement, settings, trace, result, i as nat);
}

/// Branch metadata is stored only where the statement has a source, branching is enabled and
/// nothing is overwritten; its parent is a database that there is and that is no branch; and it
/// is pinned to the version that was asked for. So branches have one level.
pub proof fn law_branch_stored<E>(
    statement: DefineDatabaseStatement,
    settings: Settings,
    trace: Seq<(Request, Reply<E>)>,
    result: Result<Value, DefineError<E>>,
    i: int,
    ns: NamespaceId,
    db: DatabaseId,
    metadata: BranchMetadata,
)
    requires
        runs(statement, settings, Phase::Allowed, trace, result),
        0 <= i < trace.len(),
        trace[i].0 == (Request::PutBranch { ns, db, metadata }),
    ensures
        statement.from is Some,
        settings.branching,
        statement.kind != DefineKind::Overwrite,
        branches(statement, settings, trace, ns, db, metadata),
{
    lemma_phases(statement, settings, trace, result, i as nat);
    lemma_branch_is_allowed(statement, settings, trace, ns, db, metadata.parent);
}

/// Where a branch is refused at once, nothing is stored, and the statement fails with that
/// refusal unless a request failed before.
pub proof fn law_refusal_stores_nothing<E>(
    statement: DefineDatabaseStatement,
    settings: Settings,
    trace: Seq<(Request, Reply<E>)>,
    result: Result<Value, DefineError<E>>,
    refusal: Refusal,
)
    requires
        runs(statement, settings, Phase::Allowed, trace, result),
        early_refusal(statement, settings) == Some(refusal),
    ensures
        stores_nothing(trace),
        unfailing(trace) ==> result == Err::<Value, DefineError<E>>(DefineError::Thrown(refusal)),
        !unfailing(trace) ==> result matches Err(DefineError::Failed(_)),
{
    assert forall|i: int| 0 <= i < trace.len() implies rank(
        #[trigger] phase_at(statement, settings, trace, i as nat),
    ) >= 11 && !is_write(trace[i].0) by {
        lemma_phases(statement, settings, trace, result, i as nat);
        lemma_refused_early(statement, settings, trace, i as nat);
    }
    assert forall|i: int| 0 <= i < trace.len() implies !is_write((#[trigger] trace[i]).0) by {
        assert(rank(phase_at(statement, settings, trace, i as nat)) >= 11);
    }
    let last = (trace.len() - 1) as nat;
    assert(rank(phase_at(statement, settings, trace, last)) >= 11);
    lemma_phases(statement, settings, trace, result, last);
    lemma_failed(statement, settings, trace, result);
}

/// A statement of which a branch is refused at once has learned no more than the names.
proof fn lemma_refused_early<E>(
    statement: DefineDatabaseStatement,
    settings: Settings,
    trace: Seq<(Request, Reply<E>)>,
    i: nat,
)
    requires
        early_refusal(statement, settings) is Some,
        known(statement, settings, trace, phase_at(statement, settings, trace, i)),
    ensures
        rank(phase_at(statement, settings, trace, i)) >= 11,
{
    match phase_at(statement, settings, trace, i) {
        Phase::Version { space, id, source } => {
            lemma_branch_is_allowed(statement, settings, trace, space, id, source);
        },
        Phase::PutBranch { space, id, metadata } => {
            lemma_branch_is_allowed(statement, settings, trace, space, id, metadata.parent);
        },
        _ => {},
    }
}

/// A statement of which a request failed fails with it.
proof fn lemma_failed<E>(
    statement: DefineDatabaseStatement,
    settings: Settings,
    trace: Seq<(Request, Reply<E>)>,
    result: Result<Value, DefineError<E>>,
)
    requires
        runs(statement, settings, Phase::Allowed, trace, result),
    ensures
        !unfailing(trace) ==> result matches Err(DefineError::Failed(_)),
{
    if !unfailing(trace) {
        let i = choose|i: int| 0 <= i < trace.len() && (#[trigger] trace[i]).1 is Failed;
        law_failure_ends(statement, settings, trace, result, i);
    }
}

/// The statement found the database and left it.
pub open spec fn left_existing<E>(
    statement: DefineDatabaseStatement,
    trace: Seq<(Request, Reply<E>)>,
) -> bool {
    &&& statement.kind == DefineKind::IfNotExists
    &&& exists|ns: String, name: String, id: DatabaseId| #[trigger]
        heard(trace, Request::Database { ns, name }, Reply::Database(Some(id)))
}

/// A statement that succeeds has stored the definition, and branch metadata where it has a
/// source, and has cleared the caches, unless the database was there and was left; and the
/// caches are cleared by statements that succeed only.
pub proof fn law_success_stores<E>(
    statement: DefineDatabaseStatement,
    settings: Settings,
    trace: Seq<(Request, Reply<E>)>,
    result: Result<Value, DefineError<E>>,
)
    requires
        runs(statement, settings, Phase::Allowed, trace, result),
    ensures
        result is Ok ==> result == Ok::<Value, DefineError<E>>(Value::Nil),
        result is Ok && !left_existing(statement, trace) ==> {
            &&& trace.last().0 == Request::ClearCaches
            &&& is_complete(statement, settings, trace)
        },
        heard(trace, Request::ClearCaches, Reply::Done) ==> result is Ok,
{
    let last = (trace.len() - 1) as nat;
    lemma_phases(statement, settings, trace, result, last);
    if let Phase::Database { ns, name, .. } = phase_at(statement, settings, trace, last) {
        if let Reply::Database(Some(id)) = trace[last as int].1 {
            assert(heard(trace, Request::Database { ns, name }, Reply::Database(Some(id))));
        }
    }
    if heard(trace, Request::ClearCaches, Reply::Done) {
        let i = choose|i: int|
            0 <= i < trace.len() && trace[i] == (Request::ClearCaches, Reply::<E>::Done);
        lemma_phases(statement, settings, trace, result, i as nat);
        assert(phase_at(statement, settings, trace, i as nat) is ClearCaches);
    }
}

/// The databases of the namespace, by their names, once what `trace` stores is stored.
pub open spec fn databases<E>(
    before: Map<Seq<char>, DatabaseId>,
    trace: Seq<(Request, Reply<E>)>,
) -> Map<Seq<char>, DatabaseId>
    decreases trace.len(),
{
    if trace.len() == 0 {
        before
    } else {
        let rest = databases(before, trace.drop_last());
        match trace.last() {
            (Request::PutDatabase { definition, .. }, Reply::Done) => rest.insert(
                definition.name@,
                definition.database_id,
            ),
            _ => rest,
        }
    }
}

/// The database of this name.
pub open spec fn database_of(
    databases: Map<Seq<char>, DatabaseId>,
    name: Seq<char>,
) -> Option<DatabaseId> {
    if databases.contains_key(name) {
        Some(databases[name])
    } else {
        None
    }
}

/// The replies are true of a namespace that held the databases `before`, of which `forked` were
/// branches: a look-up finds what is stored by then, what the statement itself stored included,
/// and a new identifier is none of a database that was there.
pub open spec fn truthful<E>(
    before: Map<Seq<char>, DatabaseId>,
    forked: Set<DatabaseId>,
    trace: Seq<(Request, Reply<E>)>,
) -> bool {
    forall|i: int|
        0 <= i < trace.len() ==> match #[trigger] trace[i] {
            (Request::Database { name, .. }, Reply::Database(found)) => found == database_of(
                databases(before, trace.take(i)),
                name@,
            ),
            (Request::Source { name, .. }, Reply::Database(found)) => found == database_of(
                databases(before, trace.take(i)),
                name@,
            ),
            (Request::NextDatabaseId { .. }, Reply::Id(id)) => !before.contains_value(id),
            (Request::SourceBranch { db, .. }, Reply::Branch(found)) => found is Some
                <==> forked.contains(db),
            _ => true,
        }
}

/// What is stored by the time of a request: nothing up to the definition, and the definition from
/// then on.
proof fn lemma_databases<E>(
    statement: DefineDatabaseStatement,
    settings: Settings,
    trace: Seq<(Request, Reply<E>)>,
    result: Result<Value, DefineError<E>>,
    before: Map<Seq<char>, DatabaseId>,
    i: nat,
)
    requires
        runs(statement, settings, Phase::Allowed, trace, result),
        i < trace.len(),
    ensures
        request_rank(trace[i as int].0) >= 7 ==> databases(before, trace.take(i as int)) == before,
        request_rank(trace[i as int].0) < 7 ==> exists|ns: String, definition: DatabaseDefinition|
            {
                &&& #[trigger] heard(
                    trace,
                    Request::PutDatabase { ns, definition },
                    Reply::Done,
                )
                &&& databases(before, trace.take(i as int)) == before.insert(
                    definition.name@,
                    definition.database_id,
                )
            },
    decreases i,
{
    lemma_phases(statement, settings, trace, result, i);
    if i > 0 {
        let j = (i - 1) as nat;
        lemma_phases(statement, settings, trace, result, j);
        lemma_databases(statement, settings, trace, result, before, j);
        lemma_order(statement, settings, trace, result, j as int, i as int);
        assert(trace.take(i as int).drop_last() =~= trace.take(j as int));
        assert(trace.take(i as int).last() == trace[j as int]);
        if let Request::PutDatabase { ns, definition } = trace[j as int].0 {
            assert(heard(trace, Request::PutDatabase { ns, definition }, Reply::Done));
        } else if request_rank(trace[j as int].0) < 7 {
            let (ns, definition) = choose|ns: String, definition: DatabaseDefinition|
                {
                    &&& #[trigger] heard(
                        trace,
                        Request::PutDatabase { ns, definition },
                        Reply::Done,
                    )
                    &&& databases(before, trace.take(j as int)) == before.insert(
                        definition.name@,
                        definition.database_id,
                    )
                };
            assert(heard(trace, Request::PutDatabase { ns, definition }, Reply::Done));
        }
    }
}

/// What the statement found of the database that it defines is what was there before.
proof fn lemma_target_before<E>(
    statement: DefineDatabaseStatement,
    settings: Settings,
    trace: Seq<(Request, Reply<E>)>,
    result: Result<Value, DefineError<E>>,
    before: Map<Seq<char>, DatabaseId>,
    forked: Set<DatabaseId>,
    ns: String,
    name: String,
    found: Option<DatabaseId>,
)
    requires
        runs(statement, settings, Phase::Allowed, trace, result),
        truthful(before, forked, trace),
        heard(trace, Request::Database { ns, name }, Reply::Database(found)),
    ensures
        found == database_of(before, name@),
{
    let i = choose|i: int|
        0 <= i < trace.len() && trace[i] == (
            Request::Database { ns, name },
            Reply::<E>::Database(found),
        );
    lemma_databases(statement, settings, trace, result, before, i as nat);
    assert(trace[i].0 == (Request::Database { ns, name }));
}

/// What the statement found of its source is what was there before: the definition that it has
/// stored by then makes no difference.
proof fn lemma_source_before<E>(
    statement: DefineDatabaseStatement,
    settings: Settings,
    trace: Seq<(Request, Reply<E>)>,
    result: Result<Value, DefineError<E>>,
    before: Map<Seq<char>, DatabaseId>,
    forked: Set<DatabaseId>,
    ns: String,
    space: NamespaceId,
    id: DatabaseId,
    source: String,
    found: Option<DatabaseId>,
)
    requires
        runs(statement, settings, Phase::Allowed, trace, result),
        truthful(before, forked, trace),
        has_source(statement, settings, trace, ns, space, id, source),
        heard(trace, Request::Source { ns, name: source }, Reply::Database(found)),
    ensures
        found == database_of(before, source@),
{
    let request = Request::Source { ns, name: source };
    let i = choose|i: int|
        0 <= i < trace.len() && trace[i] == (request, Reply::<E>::Database(found));
    assert(trace[i].0 == request);
    lemma_databases(statement, settings, trace, result, before, i as nat);
    let (target, new) = choose|target: String, new: bool|
        {
            &&& #[trigger] is_stored(statement, settings, trace, ns, space, id, target, new)
            &&& !(new && target@ == source@)
        };
    let (at, definition) = choose|at: Namespace, definition: DatabaseDefinition|
        {
            &&& #[trigger] defines(statement, settings, trace, ns, at, definition, new)
            &&& space == at.id
            &&& id == definition.database_id
            &&& target == definition.name
            &&& heard(trace, Request::PutDatabase { ns: at.name, definition }, Reply::Done)
        };
    let (used, stored) = choose|used: String, stored: DatabaseDefinition|
        {
            &&& #[trigger] heard(
                trace,
                Request::PutDatabase { ns: used, definition: stored },
                Reply::Done,
            )
            &&& databases(before, trace.take(i)) == before.insert(
                stored.name@,
                stored.database_id,
            )
        };
    let put: (Request, Reply<E>) = (
        Request::PutDatabase { ns: at.name, definition },
        Reply::Done,
    );
    let kept: (Request, Reply<E>) = (
        Request::PutDatabase { ns: used, definition: stored },
        Reply::Done,
    );
    lemma_heard_once(statement, settings, trace, result, put, kept);
    assert(stored == definition);
    if !new {
        lemma_target_before(
            statement,
            settings,
            trace,
            result,
            before,
            forked,
            ns,
            target,
            Some(id),
        );
    }
}

/// The parent of a branch is the database that had the name of the source before the statement.
/// A database that was new is never its own parent.
pub proof fn law_parent_was_there<E>(
    statement: DefineDatabaseStatement,
    settings: Settings,
    trace: Seq<(Request, Reply<E>)>,
    result: Result<Value, DefineError<E>>,
    before: Map<Seq<char>, DatabaseId>,
    forked: Set<DatabaseId>,
    i: int,
    ns: NamespaceId,
    db: DatabaseId,
    metadata: BranchMetadata,
)
    requires
        runs(statement, settings, Phase::Allowed, trace, result),
        truthful(before, forked, trace),
        0 <= i < trace.len(),
        trace[i].0 == (Request::PutBranch { ns, db, metadata }),
    ensures
        exists|source: String|
            {
                &&& #[trigger] heard(trace, Request::SourceName, Reply::Text(source))
                &&& database_of(before, source@) == Some(metadata.parent)
            },
        !forked.contains(metadata.parent),
        forall|name: String| #[trigger]
            heard(trace, Request::Name, Reply::Text(name)) && !before.contains_key(name@)
                ==> metadata.parent != db,
{
    lemma_phases(statement, settings, trace, result, i as nat);
    let parent = metadata.parent;
    let source = choose|source: String| #[trigger]
        finds_source(statement, settings, trace, ns, db, source, parent);
    let used = choose|used: String|
        {
            &&& #[trigger] has_source(statement, settings, trace, used, ns, db, source)
            &&& heard(
                trace,
                Request::Source { ns: used, name: source },
                Reply::Database(Some(parent)),
            )
        };
    lemma_source_before(
        statement,
        settings,
        trace,
        result,
        before,
        forked,
        used,
        ns,
        db,
        source,
        Some(parent),
    );
    assert(heard(trace, Request::SourceName, Reply::Text(source)));
    assert(before.contains_value(parent)) by {
        assert(before.contains_key(source@) && before[source@] == parent);
    }
    let asked = Request::SourceBranch { ns, db: parent };
    let k = choose|k: int| 0 <= k < trace.len() && trace[k] == (asked, Reply::<E>::Branch(None));
    assert(trace[k].0 == asked);
    assert forall|name: String| #[trigger]
        heard(trace, Request::Name, Reply::Text(name)) && !before.contains_key(
            name@,
        ) implies metadata.parent != db by {
        let (target, new) = choose|target: String, new: bool|
            {
                &&& #[trigger] is_stored(statement, settings, trace, used, ns, db, target, new)
                &&& !(new && target@ == source@)
            };
        let (at, definition) = choose|at: Namespace, definition: DatabaseDefinition|
            {
                &&& #[trigger] defines(statement, settings, trace, used, at, definition, new)
                &&& ns == at.id
                &&& db == definition.database_id
                &&& target == definition.name
                &&& heard(trace, Request::PutDatabase { ns: at.name, definition }, Reply::Done)
            };
        let given: (Request, Reply<E>) = (Request::Name, Reply::Text(name));
        let taken: (Request, Reply<E>) = (Request::Name, Reply::Text(target));
        lemma_heard_once(statement, settings, trace, result, given, taken);
        if new {
            let fresh = Request::NextDatabaseId { ns: at.id };
            let f = choose|f: int| 0 <= f < trace.len() && trace[f] == (fresh, Reply::<E>::Id(db));
            assert(trace[f].0 == fresh);
        } else {
            lemma_target_before(
                statement,
                settings,
                trace,
                result,
                before,
                forked,
                used,
                target,
                Some(db),
            );
        }
    }
}

/// A database that is there already: with `IF NOT EXISTS` it is left as it is and the statement
/// succeeds; by default, outside an import, the statement fails. In neither case is anything
/// stored.
pub proof fn law_existing_database_is_left<E>(
    statement: DefineDatabaseStatement,
    settings: Settings,
    trace: Seq<(Request, Reply<E>)>,
    result: Result<Value, DefineError<E>>,
    before: Map<Seq<char>, DatabaseId>,
    forked: Set<DatabaseId>,
    name: String,
)
    requires
        runs(statement, settings, Phase::Allowed, trace, result),
        truthful(before, forked, trace),
        answered(trace, Request::Name, Reply::Text(name)),
        before.contains_key(name@),
        !may_touch(statement, settings),
    ensures
        stores_nothing(trace),
        unfailing(trace) ==> result == (match early_refusal(statement, settings) {
            Some(refusal) => Err::<Value, DefineError<E>>(DefineError::Thrown(refusal)),
            None => if statement.kind == DefineKind::IfNotExists {
                Ok(Value::Nil)
            } else {
                Err(DefineError::DbAlreadyExists { name })
            },
        }),
{
    if early_refusal(statement, settings) is Some {
        law_refusal_stores_nothing(
            statement,
            settings,
            trace,
            result,
            early_refusal(statement, settings)->0,
        );
    } else {
        assert forall|i: int| 0 <= i < trace.len() implies !is_write((#[trigger] trace[i]).0) by {
            lemma_phases(statement, settings, trace, result, i as nat);
            lemma_stops_at_existing(
                statement,
                settings,
                trace,
                result,
                before,
                forked,
                name,
                i as nat,
            );
        }
        let last = (trace.len() - 1) as nat;
        lemma_phases(statement, settings, trace, result, last);
        lemma_stops_at_existing(
            statement,
            settings,
            trace,
            result,
            before,
            forked,
            name,
            last,
        );
    }
}

/// A statement that may not touch what it finds stops there.
proof fn lemma_stops_at_existing<E>(
    statement: DefineDatabaseStatement,
    settings: Settings,
    trace: Seq<(Request, Reply<E>)>,
    result: Result<Value, DefineError<E>>,
    before: Map<Seq<char>, DatabaseId>,
    forked: Set<DatabaseId>,
    name: String,
    i: nat,
)
    requires
        runs(statement, settings, Phase::Allowed, trace, result),
        truthful(before, forked, trace),
        answered(trace, Request::Name, Reply::Text(name)),
        before.contains_key(name@),
        !may_touch(statement, settings),
        i < trace.len(),
    ensures
        rank(phase_at(statement, settings, trace, i)) >= 10,
        phase_at(statement, settings, trace, i) matches Phase::Database { name: asked, .. }
            ==> asked == name && (trace[i as int].1 matches Reply::Database(found) ==> found is Some),
    decreases i,
{
    lemma_phases(statement, settings, trace, result, i);
    if let Phase::Database { ns, name: asked, .. } = phase_at(statement, settings, trace, i) {
        let k = choose|k: int|
            0 <= k < trace.len() && trace[k] == (Request::Name, Reply::<E>::Text(asked));
        assert(trace[k].0 == Request::Name);
        assert(asked == name);
        if let Reply::Database(found) = trace[i as int].1 {
            lemma_target_before(
                statement,
                settings,
                trace,
                result,
                before,
                forked,
                ns,
                name,
                found,
            );
        }
    }
    if i > 0 {
        let j = (i - 1) as nat;
        lemma_stops_at_existing(
            statement,
            settings,
            trace,
            result,
            before,
            forked,
            name,
            j,
        );
        lemma_phases(statement, settings, trace, result, j);
    }
}

/// Where no request fails, no branch is refused at once, and a database that is there already
/// may be touched, the result is settled by the source and by what there was before the
/// statement: success without a source, or with one that was there and was no branch; otherwise
/// the failure that says what is wrong with it. A new database that names itself as its source
/// names one that was not there. Branch metadata is stored with success only.
pub proof fn law_source_settles<E>(
    statement: DefineDatabaseStatement,
    settings: Settings,
    trace: Seq<(Request, Reply<E>)>,
    result: Result<Value, DefineError<E>>,
    before: Map<Seq<char>, DatabaseId>,
    forked: Set<DatabaseId>,
    name: String,
    source: String,
)
    requires
        runs(statement, settings, Phase::Allowed, trace, result),
        truthful(before, forked, trace),
        unfailing(trace),
        answered(trace, Request::Name, Reply::Text(name)),
        answered(trace, Request::SourceName, Reply::Text(source)),
        statement.from is Some ==> settings.branching && statement.kind != DefineKind::Overwrite,
        before.contains_key(name@) ==> may_touch(statement, settings),
    ensures
        result == (if statement.from is None {
            Ok::<Value, DefineError<E>>(Value::Nil)
        } else {
            match database_of(before, source@) {
                Some(parent) => if forked.contains(parent) {
                    Err(DefineError::Thrown(Refusal::SourceIsBranch { name: source }))
                } else {
                    Ok(Value::Nil)
                },
                None => Err(DefineError::DbNotFound { name: source }),
            }
        }),
        stores_branch(trace) <==> statement.from is Some && result is Ok,
{
    let last = (trace.len() - 1) as nat;
    let phase = phase_at(statement, settings, trace, last);
    lemma_phases(statement, settings, trace, result, last);
    if stores_branch(trace) {
        let i = choose|i: int| 0 <= i < trace.len() && (#[trigger] trace[i]).0 is PutBranch;
        lemma_phases(statement, settings, trace, result, i as nat);
        law_branch_stored(
            statement,
            settings,
            trace,
            result,
            i,
            trace[i].0->PutBranch_ns,
            trace[i].0->PutBranch_db,
            trace[i].0->metadata,
        );
        if i < last {
            lemma_order(statement, settings, trace, result, i, last as int);
        }
    }
    match phase {
        Phase::Database { ns, name: asked, .. } => {
            let k = choose|k: int|
                0 <= k < trace.len() && trace[k] == (Request::Name, Reply::<E>::Text(asked));
            assert(trace[k].0 == Request::Name);
            lemma_target_before(
                statement,
                settings,
                trace,
                result,
                before,
                forked,
                ns,
                name,
                trace[last as int].1->Database_0,
            );
        },
        Phase::SourceName { ns, space, id, target, new } => {
            let (at, definition) = choose|at: Namespace, definition: DatabaseDefinition|
                {
                    &&& #[trigger] defines(statement, settings, trace, ns, at, definition, new)
                    &&& space == at.id
                    &&& id == definition.database_id
                    &&& target == definition.name
                    &&& heard(
                        trace,
                        Request::PutDatabase { ns: at.name, definition },
                        Reply::Done,
                    )
                };
            lemma_target_before(
                statement,
                settings,
                trace,
                result,
                before,
                forked,
                ns,
                target,
                None,
            );
        },
        Phase::Source { ns, space, id, name: asked } => {
            let k = choose|k: int|
                0 <= k < trace.len() && trace[k] == (Request::SourceName, Reply::<E>::Text(asked));
            assert(trace[k].0 == Request::SourceName);
            lemma_source_before(
                statement,
                settings,
                trace,
                result,
                before,
                forked,
                ns,
                space,
                id,
                source,
                trace[last as int].1->Database_0,
            );
        },
        Phase::SourceBranch { space, id, name: asked, source: parent } => {
            lemma_source_found(
                statement,
                settings,
                trace,
                result,
                before,
                forked,
                space,
                id,
                asked,
                parent,
                source,
            );
        },
        Phase::ClearCaches => {
            if statement.from is Some {
                let (space, id, metadata) = choose|
                    space: NamespaceId,
                    id: DatabaseId,
                    metadata: BranchMetadata,
                |
                    {
                        &&& #[trigger] branches(statement, settings, trace, space, id, metadata)
                        &&& heard(
                            trace,
                            Request::PutBranch { ns: space, db: id, metadata },
                            Reply::Done,
                        )
                    };
                let asked = choose|asked: String| #[trigger]
                    finds_source(statement, settings, trace, space, id, asked, metadata.parent);
                lemma_source_found(
                    statement,
                    settings,
                    trace,
                    result,
                    before,
                    forked,
                    space,
                    id,
                    asked,
                    metadata.parent,
                    source,
                );
                let put = Request::PutBranch { ns: space, db: id, metadata };
                let i = choose|i: int|
                    0 <= i < trace.len() && trace[i] == (put, Reply::<E>::Done);
                assert(trace[i].0 is PutBranch);
                let request = Request::SourceBranch { ns: space, db: metadata.parent };
                let k = choose|k: int|
                    0 <= k < trace.len() && trace[k] == (request, Reply::<E>::Branch(None));
                assert(trace[k].0 == request);
            }
        },
        _ => {},
    }
}

/// A source that was found is the one of that name before the statement.
proof fn lemma_source_found<E>(
    statement: DefineDatabaseStatement,
    settings: Settings,
    trace: Seq<(Request, Reply<E>)>,
    result: Result<Value, DefineError<E>>,
    before: Map<Seq<char>, DatabaseId>,
    forked: Set<DatabaseId>,
    space: NamespaceId,
    id: DatabaseId,
    asked: String,
    parent: DatabaseId,
    source: String,
)
    requires
        runs(statement, settings, Phase::Allowed, trace, result),
        truthful(before, forked, trace),
        finds_source(statement, settings, trace, space, id, asked, parent),
        answered(trace, Request::SourceName, Reply::Text(source)),
    ensures
        asked == source,
        database_of(before, source@) == Some(parent),
{
    let ns = choose|ns: String|
        {
            &&& #[trigger] has_source(statement, settings, trace, ns, space, id, asked)
            &&& heard(trace, Request::Source { ns, name: asked }, Reply::Database(Some(parent)))
        };
    let k = choose|k: int|
        0 <= k < trace.len() && trace[k] == (Request::SourceName, Reply::<E>::Text(asked));
    assert(trace[k].0 == Request::SourceName);
    lemma_source_before(
        statement,
        settings,
        trace,
        result,
        before,
        forked,
        ns,
        space,
        id,
        asked,
        Some(parent),
    );
}

/// A statement is refused at once exactly where it has a source and either branching is disabled
/// or it would overwrite, the first of these before the second.
pub proof fn law_refused_at_once(statement: DefineDatabaseStatement, settings: Settings)
    ensures
        early_refusal(statement, settings) is Some <==> statement.from is Some && (
        !settings.branching || statement.kind == DefineKind::Overwrite),
        early_refusal(statement, settings) == Some(Refusal::BranchingDisabled) <==> statement.from
            is Some && !settings.branching,
        early_refusal(statement, settings) == Some(Refusal::OverwriteBranch) <==> statement.from
            is Some && settings.branching && statement.kind == DefineKind::Overwrite,
{
}

/// A statement without a source is never refused, whatever its kind and whatever is enabled.
pub proof fn law_no_source_no_refusal<E>(
    statement: DefineDatabaseStatement,
    settings: Settings,
    trace: Seq<(Request, Reply<E>)>,
    result: Result<Value, DefineError<E>>,
)
    requires
        runs(statement, settings, Phase::Allowed, trace, result),
        statement.from is None,
    ensures
        !(result matches Err(DefineError::Thrown(_))),
        !(result matches Err(DefineError::DbNotFound { .. })),
        !stores_branch(trace),
{
    let last = (trace.len() - 1) as nat;
    lemma_phases(statement, settings, trace, result, last);
    lemma_has_source(statement, settings, trace, phase_at(statement, settings, trace, last));
    assert forall|i: int| 0 <= i < trace.len() implies !((#[trigger] trace[i]).0 is PutBranch) by {
        lemma_phases(statement, settings, trace, result, i as nat);
        lemma_has_source(statement, settings, trace, phase_at(statement, settings, trace, i as nat));
    }
}

/// The phases of a branch are those of statements with a source.
proof fn lemma_has_source<E>(
    statement: DefineDatabaseStatement,
    settings: Settings,
    trace: Seq<(Request, Reply<E>)>,
    phase: Phase,
)
    requires
        known(statement, settings, trace, phase),
    ensures
        2 <= rank(phase) <= 6 ==> statement.from is Some,
{
    match phase {
        Phase::Version { space, id, source } => {
            lemma_branch_is_allowed(statement, settings, trace, space, id, source);
        },
        Phase::PutBranch { space, id, metadata } => {
            lemma_branch_is_allowed(statement, settings, trace, space, id, metadata.parent);
        },
        _ => {},
    }
}

/// A statement without a source that may touch what it finds succeeds where no request fails: the
/// definition is stored and the caches are cleared, and there is no branch metadata.
pub proof fn law_plain_definition_succeeds<E>(
    statement: DefineDatabaseStatement,
    settings: Settings,
    trace: Seq<(Request, Reply<E>)>,
    result: Result<Value, DefineError<E>>,
    before: Map<Seq<char>, DatabaseId>,
    forked: Set<DatabaseId>,
    name: String,
)
    requires
        runs(statement, settings, Phase::Allowed, trace, result),
        truthful(before, forked, trace),
        unfailing(trace),
        answered(trace, Request::Name, Reply::Text(name)),
        statement.from is None,
        before.contains_key(name@) ==> statement.kind == DefineKind::Overwrite || (statement.kind
            == DefineKind::Default && settings.import),
    ensures
        result == Ok::<Value, DefineError<E>>(Value::Nil),
        exists|i: int| 0 <= i < trace.len() && (#[trigger] trace[i]).0 is PutDatabase,
        trace.last().0 == Request::ClearCaches,
        !stores_branch(trace),
{
    let last = (trace.len() - 1) as nat;
    let phase = phase_at(statement, settings, trace, last);
    lemma_phases(statement, settings, trace, result, last);
    law_no_source_no_refusal(statement, settings, trace, result);
    law_refused_at_once(statement, settings);
    if let Phase::Database { ns, name: asked, .. } = phase {
        let k = choose|k: int|
            0 <= k < trace.len() && trace[k] == (Request::Name, Reply::<E>::Text(asked));
        assert(trace[k].0 == Request::Name);
        assert(asked == name);
        lemma_target_before(
            statement,
            settings,
            trace,
            result,
            before,
            forked,
            ns,
            name,
            trace[last as int].1->Database_0,
        );
    }
    lemma_has_source(statement, settings, trace, phase);
    assert(phase is ClearCaches);
    let (ns, space, id, target, new) = choose|
        ns: String,
        space: NamespaceId,
        id: DatabaseId,
        target: String,
        new: bool,
    | #[trigger]
        is_stored(statement, settings, trace, ns, space, id, target, new);
    let (at, definition) = choose|at: Namespace, definition: DatabaseDefinition|
        {
            &&& #[trigger] defines(statement, settings, trace, ns, at, definition, new)
            &&& space == at.id
            &&& id == definition.database_id
            &&& target == definition.name
            &&& heard(trace, Request::PutDatabase { ns: at.name, definition }, Reply::Done)
        };
    let put = Request::PutDatabase { ns: at.name, definition };
    let i = choose|i: int| 0 <= i < trace.len() && trace[i] == (put, Reply::<E>::Done);
    assert(trace[i].0 is PutDatabase);
}

/// A branch is refused where branching is disabled, whatever the kind of the statement, and where
/// it would overwrite; nothing is stored then.
pub proof fn law_branch_is_refused<E>(
    statement: DefineDatabaseStatement,
    settings: Settings,
    trace: Seq<(Request, Reply<E>)>,
    result: Result<Value, DefineError<E>>,
)
    requires
        runs(statement, settings, Phase::Allowed, trace, result),
        unfailing(trace),
        statement.from is Some,
        !settings.branching || statement.kind == DefineKind::Overwrite,
    ensures
        stores_nothing(trace),
        result == Err::<Value, DefineError<E>>(
            DefineError::Thrown(
                if settings.branching {
                    Refusal::OverwriteBranch
                } else {
                    Refusal::BranchingDisabled
                },
            ),
        ),
{
    law_refused_at_once(statement, settings);
    law_refusal_stores_nothing(
        statement,
        settings,
        trace,
        result,
        early_refusal(statement, settings)->0,
    );
}

/// Every statement first asks whether it is allowed, and goes on only where it is.
pub proof fn law_permission_comes_first<E>(
    statement: DefineDatabaseStatement,
    settings: Settings,
    trace: Seq<(Request, Reply<E>)>,
    result: Result<Value, DefineError<E>>,
)
    requires
        runs(statement, settings, Phase::Allowed, trace, result),
    ensures
        trace[0].0 == Request::Allowed,
        trace.len() > 1 ==> trace[0].1 is Done,
        result matches Ok(_) ==> trace[0].1 is Done,
{
    lemma_phases(statement, settings, trace, result, 0);
}

/// The statement of a definition, run with its name and its comment as they are, defines a
/// database of the same name, comment and change feed.
pub proof fn law_definition_is_defined_again<E>(
    original: DatabaseDefinition,
    statement: DefineDatabaseStatement,
    settings: Settings,
    trace: Seq<(Request, Reply<E>)>,
    result: Result<Value, DefineError<E>>,
    i: int,
    ns: String,
    definition: DatabaseDefinition,
)
    requires
        original.is_defined_by(statement),
        runs(statement, settings, Phase::Allowed, trace, result),
        answered(trace, Request::Name, Reply::Text(original.name)),
        answered(trace, Request::Comment, Reply::Comment(original.comment)),
        0 <= i < trace.len(),
        trace[i].0 == (Request::PutDatabase { ns, definition }),
    ensures
        definition.name == original.name,
        definition.comment == original.comment,
        definition.changefeed == original.changefeed,
        !stores_branch(trace),
{
    law_statement_tells_definition(original, statement);
    law_definition_stored(statement, settings, trace, result, i, ns, definition);
    law_no_source_no_refusal(statement, settings, trace, result);
    let (used, space, new) = choose|used: String, space: Namespace, new: bool| #[trigger]
        defines(statement, settings, trace, used, space, definition, new) && ns == space.name;
    let named: (Request, Reply<E>) = (Request::Name, Reply::Text(definition.name));
    let j = choose|j: int| 0 <= j < trace.len() && trace[j] == named;
    assert(trace[j].0 == Request::Name);
    let said: (Request, Reply<E>) = (Request::Comment, Reply::Comment(definition.comment));
    let k = choose|k: int| 0 <= k < trace.len() && trace[k] == said;
    assert(trace[k].0 == Request::Comment);
}

/// Every request but that to clear the caches may fail.
pub proof fn law_requests_may_fail<E>(request: Request, error: E)
    ensures
        fits(request, Reply::Failed(error)) <==> request != Request::ClearCaches,
{
}

/// What is asked for is answered by a reply of its kind, whatever it holds: what is to be done by
/// its being done, names by texts, databases by what was found, and so on.
pub proof fn law_requests_are_answered_in_kind<E>(request: Request, reply: Reply<E>)
    requires
        !(reply is Failed),
    ensures
        fits(request, reply) ==> {
            &&& reply is Done <==> request is Allowed || is_write(request) || request is ClearCaches
            &&& reply is Text <==> request is NamespaceName || request is Name
                || request is SourceName
            &&& reply is Namespace <==> request is Namespace
            &&& reply is Database <==> request is Database || request is Source
            &&& reply is Id <==> request is NextDatabaseId
            &&& reply is Comment <==> request is Comment
            &&& reply is Branch <==> request is SourceBranch
            &&& reply is Version <==> request is Version || request is CurrentVersion
        },
        reply is Done && (request is Allowed || is_write(request) || request is ClearCaches)
            ==> fits(request, reply),
        reply is Text && (request is NamespaceName || request is Name || request is SourceName)
            ==> fits(request, reply),
        reply is Namespace && request is Namespace ==> fits(request, reply),
        reply is Database && (request is Database || request is Source) ==> fits(request, reply),
        reply is Id && request is NextDatabaseId ==> fits(request, reply),
        reply is Comment && request is Comment ==> fits(request, reply),
        reply is Branch && request is SourceBranch ==> fits(request, reply),
        reply is Version && (request is Version || request is CurrentVersion) ==> fits(
            request,
            reply,
        ),
{
}

/// What is evaluated for a request is the expression that the statement has for it, and nothing
/// where the request needs none; the two names are told apart by their labels.
pub proof fn law_requests_evaluate_their_expressions(
    statement: DefineDatabaseStatement,
    request: Request,
)
    ensures
        request is Name ==> request_expression(statement, request) == Some(statement.name),
        request is Comment ==> request_expression(statement, request) == Some(statement.comment),
        request is SourceName ==> request_expression(statement, request) == statement.from,
        request is Version ==> request_expression(statement, request) == statement.from_version,
        request_expression(statement, request) is Some ==> request is Name || request is Comment
            || request is SourceName || request is Version,
        request is Name ==> request_label(request) == Some("database name"@),
        request is SourceName ==> request_label(request) == Some("source database name"@),
        request_label(request) is Some ==> request is Name || request is SourceName,
{
}

/// The text of a refusal says what is refused, and of which source.
pub proof fn law_refusal_says_why(name: String)
    ensures
        refusal_text(Refusal::BranchingDisabled)
            == "Database branching is experimental; enable it with --allow-experimental database_branching"@,
        refusal_text(Refusal::OverwriteBranch)
            == "DEFINE DATABASE ... OVERWRITE cannot be combined with FROM (branching)"@,
        refusal_text(Refusal::SourceIsBranch { name }) == "Cannot branch from `"@ + name@
            + "`: branching from a branch is not supported"@,
{
}

/// A statement begins by asking whether it is allowed, asks for what its phase is to ask, and goes
/// on as the reply leads on; so the runs are those of the calls.
pub proof fn law_calls_make_the_run<E>(
    statement: DefineDatabaseStatement,
    settings: Settings,
    start: Phase,
    phase: Phase,
    request: Request,
    reply: Reply<E>,
    accepted: bool,
    step: Step<E>,
    rest: Seq<(Request, Reply<E>)>,
    result: Result<Value, DefineError<E>>,
)
    requires
        call_ensures(DefineDatabaseStatement::compute, (&statement,), start),
        call_ensures(Phase::request, (&phase, &statement), request),
        call_ensures(Request::accepts::<E>, (&request, &reply), accepted),
        accepted,
        call_ensures(
            DefineDatabaseStatement::resume::<E>,
            (&statement, settings, phase, reply),
            step,
        ),
    ensures
        start == Phase::Allowed,
        step matches Step::Finished(r) ==> runs(
            statement,
            settings,
            phase,
            seq![(request, reply)],
            r,
        ),
        step matches Step::Ask(following) && runs(statement, settings, following, rest, result)
            ==> runs(statement, settings, phase, seq![(request, reply)] + rest, result),
{
    let whole = seq![(request, reply)] + rest;
    assert(whole.drop_first() =~= rest);
    assert(whole[0] == (request, reply));
}

/// The message of a refusal is its text, and a request has the label of what it names.
pub proof fn law_messages_and_labels(
    refusal: Refusal,
    message: String,
    request: Request,
    label: Option<&str>,
    statement: DefineDatabaseStatement,
    expression: Option<&Expr>,
)
    requires
        call_ensures(Refusal::message, (&refusal,), message),
        call_ensures(Request::label, (&request,), label),
        call_ensures(Request::expression, (&request, &statement), expression),
    ensures
        refusal matches Refusal::SourceIsBranch { name } ==> message@ == "Cannot branch from `"@
            + name@ + "`: branching from a branch is not supported"@,
        label is Some <==> request is Name || request is SourceName,
        request is Name ==> label->0@ == "database name"@,
        request is SourceName ==> label->0@ == "source database name"@,
        request is Name ==> expression == Some(&statement.name),
        request is Comment ==> expression == Some(&statement.comment),
        request is SourceName ==> (expression is Some <==> statement.from is Some),
        request is SourceName && expression is Some ==> *expression->0 == statement.from->0,
        request is Version ==> (expression is Some <==> statement.from_version is Some),
        request is Version && expression is Some ==> *expression->0 == statement.from_version->0,
{
}

} // verus!
