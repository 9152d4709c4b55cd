//! Requests: when they are admitted, what is recorded of them, and what becomes of their
//! transactions.

use vstd::prelude::*;

use crate::capture::{Argument, Capture, Outcome, Task};
use crate::chain::mutation::{
    incomplete, mutates, proceeds, proceeds_to_capture, restores, Mutation, MutationView, Request,
    Stage, Target,
};
use crate::error::ChainError;
use crate::laws::operations::{available, passed, pending, stands};
use crate::laws::values::law_identities_are_the_names_of_hashes;
use crate::path::SubjectPath;
use crate::queue::{Exclusion, QueueView, Status};
use crate::record::MutationRecord;
use crate::scalar::{hex, is_identity, CollectionRef, Scalar};
use crate::store::Resolution;
use crate::txn::{covered, TxnId};

verus! {

/// A transaction is registered unless the chain is interrupted, the transaction is finalized,
/// failed, or decided. It observes the resource under the same conditions, and also once it is
/// committed.
pub proof fn law_registration_and_observation_are_refused_for_a_reason(
    queue: QueueView<MutationRecord>,
    id: TxnId,
)
    ensures
        ({
            let registered = queue.register_refusal(id);
            let read = queue.read_refusal(id);
            let current = !queue.interrupted && !passed(queue, id);
            &&& registered == Some(ChainError::Interrupted) <==> queue.interrupted
            &&& registered == Some(ChainError::Outdated) <==> !queue.interrupted && passed(queue, id)
            &&& registered == Some(ChainError::Failed) <==> current && stands(
                queue,
                id,
                Status::Failed,
            )
            &&& registered == Some(ChainError::Committed) <==> current && stands(
                queue,
                id,
                Status::Committed,
            )
            &&& registered == Some(ChainError::RolledBack) <==> current && stands(
                queue,
                id,
                Status::RolledBack,
            )
            &&& registered is None <==> current && (!queue.txns.dom().contains(id) || stands(
                queue,
                id,
                Status::Active,
            ) || stands(queue, id, Status::Running))
            &&& stands(queue, id, Status::Committed) && current ==> read is None
            &&& !stands(queue, id, Status::Committed) || !current ==> read == registered
        }),
{
}

/// Whether a request of a transaction is admitted.
pub open spec fn admissible(queue: QueueView<MutationRecord>, id: TxnId) -> bool {
    &&& available(queue)
    &&& !passed(queue, id)
    &&& !queue.txns.dom().contains(id) || stands(queue, id, Status::Active)
    &&& pending(queue, id).len() < queue.capacity
}

/// Nothing changes but what a queue knows of one transaction, and who excludes others.
pub open spec fn only_of(
    queue: QueueView<MutationRecord>,
    after: QueueView<MutationRecord>,
    id: TxnId,
) -> bool {
    &&& after.frontier == queue.frontier
    &&& after.capacity == queue.capacity
    &&& after.interrupted == queue.interrupted
    &&& after.txns.remove(id) == queue.txns.remove(id)
}

/// A request which is not admitted changes nothing, and it is said why. One which is admitted
/// changes nothing of any other transaction, and leaves its own running, or failed.
pub proof fn law_requests_are_refused_for_a_reason(
    queue: QueueView<MutationRecord>,
    id: TxnId,
    request: Request,
    after: QueueView<MutationRecord>,
    res: Result<(Mutation, Task), ChainError>,
)
    requires
        mutates(queue, id, request, after, res),
    ensures
        ({
            let current = available(queue) && !passed(queue, id);
            let fresh = !queue.txns.dom().contains(id) || stands(queue, id, Status::Active);
            &&& !admissible(queue, id) ==> after == queue && res is Err
            &&& queue.interrupted ==> res == Err::<(Mutation, Task), _>(ChainError::Interrupted)
            &&& !queue.interrupted && queue.exclusion != Exclusion::Free ==> res == Err::<
                (Mutation, Task),
                _,
            >(ChainError::Busy)
            &&& available(queue) && passed(queue, id) ==> res == Err::<(Mutation, Task), _>(
                ChainError::Outdated,
            )
            &&& current && stands(queue, id, Status::Running) ==> res == Err::<(Mutation, Task), _>(
                ChainError::Unfinished,
            )
            &&& current && stands(queue, id, Status::Failed) ==> res == Err::<(Mutation, Task), _>(
                ChainError::Failed,
            )
            &&& current && stands(queue, id, Status::Committed) ==> res == Err::<
                (Mutation, Task),
                _,
            >(ChainError::Committed)
            &&& current && stands(queue, id, Status::RolledBack) ==> res == Err::<
                (Mutation, Task),
                _,
            >(ChainError::RolledBack)
            &&& current && fresh && !admissible(queue, id) ==> res == Err::<(Mutation, Task), _>(
                ChainError::CapacityExhausted,
            )
            &&& admissible(queue, id) ==> {
                &&& only_of(queue, after, id)
                &&& res is Ok ==> stands(after, id, Status::Running)
                &&& res is Err ==> {
                    &&& stands(after, id, Status::Failed)
                    &&& pending(after, id) == pending(queue, id)
                    &&& after.exclusion == Exclusion::Free
                }
            }
        }),
{
    if admissible(queue, id) {
        assert(after.txns.remove(id) =~= queue.txns.remove(id));
    }
}

/// What becomes of an admitted request at first. A deletion, and a literal value, is recorded under
/// the route and the key of the request, and its handler is invoked. A reference to a stored
/// collection is verified first, and a collection is identified first; until the request is
/// recorded it excludes others. Every other value is refused.
pub proof fn law_admitted_requests_begin_by_kind(
    queue: QueueView<MutationRecord>,
    id: TxnId,
    request: Request,
    after: QueueView<MutationRecord>,
    res: Result<(Mutation, Task), ChainError>,
)
    requires
        mutates(queue, id, request, after, res),
        admissible(queue, id),
    ensures
        match request {
            Request::Delete(path, key) => {
                &&& res matches Ok((_, Task::Invoke))
                &&& pending(after, id) == pending(queue, id).push(MutationRecord::Delete(path, key))
                &&& after.exclusion == Exclusion::Free
            },
            Request::Put(path, key, Argument::Scalar(Scalar::Literal(text))) => {
                &&& res matches Ok((_, Task::Invoke))
                &&& pending(after, id) == pending(queue, id).push(
                    MutationRecord::Put(path, key, Scalar::Literal(text)),
                )
                &&& after.exclusion == Exclusion::Free
            },
            Request::Put(_, _, Argument::Scalar(Scalar::Get(found))) => if exists|hash: Seq<u8>|
                hash.len() == 32 && #[trigger] hex(hash) == found.name@ {
                &&& res matches Ok((mutation, Task::Resolve(sought))) && sought == found
                    && !(mutation@.stage is Invoking)
                &&& pending(after, id) == pending(queue, id)
                &&& after.exclusion == Exclusion::Capture(id)
            } else {
                res == Err::<(Mutation, Task), _>(ChainError::InvalidReference)
            },
            Request::Put(_, _, Argument::Scalar(Scalar::Ref(_))) => res == Err::<
                (Mutation, Task),
                _,
            >(ChainError::InvalidReference),
            Request::Put(_, _, Argument::Other) => res == Err::<(Mutation, Task), _>(
                ChainError::UnsupportedValue,
            ),
            _ => {
                &&& res matches Ok((mutation, Task::Identify)) && !(mutation@.stage is Invoking)
                &&& pending(after, id) == pending(queue, id)
                &&& after.exclusion == Exclusion::Capture(id)
            },
        },
{
    match request {
        Request::Put(_, _, Argument::Scalar(Scalar::Get(found))) => {
            law_identities_are_the_names_of_hashes(found.name@);
        },
        _ => {},
    }
}

/// The reference by which a collection is sought, once it is known.
pub open spec fn sought(capture: Capture) -> Option<CollectionRef> {
    match capture {
        Capture::Identifying => None,
        Capture::Probing(found) => Some(found),
        Capture::Copying(found) => Some(found),
        Capture::Verifying(found) => Some(found),
    }
}

/// Whether a mutation is the one which a request of a transaction began: it records under the route
/// and the key of the request, and what it captures is the value of the request.
pub open spec fn pursues(mutation: MutationView, id: TxnId, request: Request) -> bool {
    &&& mutation.id == id
    &&& mutation.stage matches Stage::Capturing(target, capture) ==> match request {
        Request::Put(path, key, argument) => {
            &&& target == Target::Put(path, key)
            &&& match argument {
                Argument::Scalar(Scalar::Get(found)) => capture == Capture::Verifying(found),
                Argument::Collection => true,
                _ => false,
            }
        },
        Request::Delete(_, _) => false,
        Request::Restore => target is Restore,
    }
}

/// Whether a record is that of a request, with the value which was captured of it: the route and
/// the key are those of the request, and so is the value if it is a scalar.
pub open spec fn records(request: Request, value: Scalar, record: MutationRecord) -> bool {
    match request {
        Request::Put(path, key, argument) => {
            &&& record == MutationRecord::Put(path, key, value)
            &&& argument matches Argument::Scalar(given) ==> given == value
        },
        Request::Delete(path, key) => record == MutationRecord::Delete(path, key),
        Request::Restore => record == MutationRecord::Restore(value),
    }
}

/// Whether a task is the next one of a mutation, on the collection which it seeks.
pub open spec fn assigned(mutation: MutationView, task: Task) -> bool {
    match mutation.stage {
        Stage::Invoking => task is Invoke,
        Stage::Capturing(_, Capture::Identifying) => task is Identify,
        Stage::Capturing(_, Capture::Probing(found)) => task matches Task::Probe(name) && name@
            == found.name@,
        Stage::Capturing(_, Capture::Copying(found)) => task matches Task::Copy(name) && name@
            == found.name@,
        Stage::Capturing(_, Capture::Verifying(found)) => task == Task::Resolve(found),
    }
}

/// A request which is made is pursued under its own route and key. If its handler is to be invoked,
/// the last record of its transaction is that of the request, field by field; otherwise nothing is
/// recorded.
pub proof fn law_requests_are_recorded_as_they_were_made(
    queue: QueueView<MutationRecord>,
    id: TxnId,
    request: Request,
    after: QueueView<MutationRecord>,
    res: Result<(Mutation, Task), ChainError>,
)
    requires
        mutates(queue, id, request, after, res),
    ensures
        res matches Ok((mutation, task)) ==> {
            &&& pursues(mutation@, id, request)
            &&& assigned(mutation@, task)
            &&& task is Invoke ==> {
                let all = pending(after, id);
                &&& all.len() == pending(queue, id).len() + 1
                &&& all.drop_last() == pending(queue, id)
                &&& !(request is Restore)
                &&& match request {
                    Request::Put(_, _, argument) => argument is Scalar && records(
                        request,
                        argument->Scalar_0,
                        all.last(),
                    ),
                    Request::Delete(path, key) => all.last() == MutationRecord::Delete(path, key),
                    Request::Restore => false,
                }
            }
            &&& !(task is Invoke) ==> pending(after, id) == pending(queue, id)
        },
{
    if let Ok((mutation, task)) = res {
        if task is Invoke {
            assert(pending(after, id).drop_last() =~= pending(queue, id));
        }
    }
}

/// A request whose value is captured stays pursued under its own route and key, and seeks the same
/// collection. Its handler is to be invoked only once the collection is loaded and has the hash by
/// which it is named; then the last record of its transaction is that of the request, field by
/// field, with the reference to just that collection. Otherwise nothing is recorded.
pub proof fn law_captured_requests_are_recorded_as_they_were_made(
    queue: QueueView<MutationRecord>,
    mutation: MutationView,
    id: TxnId,
    request: Request,
    outcome: Outcome,
    after: QueueView<MutationRecord>,
    res: Result<Option<(Mutation, Task)>, ChainError>,
)
    requires
        pursues(mutation, id, request),
        mutation.stage is Capturing,
        proceeds(queue, mutation, outcome, after, res),
    ensures
        !(res matches Ok(None)),
        res matches Ok(Some((next, task))) ==> {
            let capture = mutation.stage->Capturing_1;
            &&& pursues(next@, id, request)
            &&& assigned(next@, task)
            &&& sought(capture) is Some ==> (next@.stage matches Stage::Capturing(_, later)
                ==> sought(later) == sought(capture))
            &&& task is Invoke ==> {
                let all = pending(after, id);
                &&& sought(capture) matches Some(found)
                &&& outcome matches Outcome::Resolved(Resolution::Loaded(hash))
                &&& hex(hash@) == found.name@
                &&& all.len() == pending(queue, id).len() + 1
                &&& all.drop_last() == pending(queue, id)
                &&& records(request, Scalar::Get(found), all.last())
                &&& after.exclusion == Exclusion::Free
                &&& stands(after, id, Status::Running)
                &&& only_of(queue, after, id)
            }
            &&& !(task is Invoke) ==> after == queue
        },
        res matches Err(_) ==> after == queue.failed(id),
{
    let target = mutation.stage->Capturing_0;
    let capture = mutation.stage->Capturing_1;
    let next = choose|next: Result<(Mutation, Task), ChainError>| {
        &&& #[trigger] incomplete(next) == res
        &&& proceeds_to_capture(queue, id, target, capture, outcome, after, next)
    };
    if let Ok((_, Task::Invoke)) = next {
        assert(pending(after, id).drop_last() =~= pending(queue, id));
        assert(after.txns.remove(id) =~= queue.txns.remove(id));
    }
}

/// A collection which was identified is sought by a reference with its own class and schema, named
/// by its hash.
pub proof fn law_identified_collections_are_sought_by_their_hash(
    queue: QueueView<MutationRecord>,
    id: TxnId,
    target: Target,
    hash: Vec<u8>,
    path: SubjectPath,
    schema: String,
    after: QueueView<MutationRecord>,
    res: Result<Option<(Mutation, Task)>, ChainError>,
)
    requires
        proceeds(
            queue,
            MutationView { id, stage: Stage::Capturing(target, Capture::Identifying) },
            Outcome::Identified { hash, path, schema },
            after,
            res,
        ),
    ensures
        ({
            &&& res matches Ok(Some((next, Task::Probe(name))))
            &&& next@.stage matches Stage::Capturing(kept, Capture::Probing(found))
            &&& kept == target
            &&& found.path == path
            &&& found.schema == schema
            &&& found.name@ == hex(hash@)
            &&& name@ == hex(hash@)
        }),
{
}

/// A collection which is there is verified; one which is not there is copied, and then verified.
pub proof fn law_missing_collections_are_copied(
    queue: QueueView<MutationRecord>,
    id: TxnId,
    target: Target,
    found: CollectionRef,
    present: bool,
    after: QueueView<MutationRecord>,
    res: Result<Option<(Mutation, Task)>, ChainError>,
)
    requires
        is_identity(found.name@),
    ensures
        proceeds(
            queue,
            MutationView { id, stage: Stage::Capturing(target, Capture::Probing(found)) },
            Outcome::Probed(present),
            after,
            res,
        ) ==> {
            &&& res matches Ok(Some((_, task)))
            &&& present ==> task == Task::Resolve(found)
            &&& !present ==> (task matches Task::Copy(name) && name@ == found.name@)
        },
        proceeds(
            queue,
            MutationView { id, stage: Stage::Capturing(target, Capture::Copying(found)) },
            Outcome::Done,
            after,
            res,
        ) ==> (res matches Ok(Some((_, Task::Resolve(next)))) && next == found),
{
}

/// A handler which succeeded completes its request: its transaction has no unfinished request, and
/// keeps its records. If the handler failed, or the chain was interrupted meanwhile, the transaction
/// fails.
pub proof fn law_handlers_complete_their_requests(
    queue: QueueView<MutationRecord>,
    id: TxnId,
    outcome: Outcome,
    after: QueueView<MutationRecord>,
    res: Result<Option<(Mutation, Task)>, ChainError>,
)
    requires
        proceeds(queue, MutationView { id, stage: Stage::Invoking }, outcome, after, res),
        stands(queue, id, Status::Running),
        queue.exclusion != Exclusion::Capture(id),
    ensures
        only_of(queue, after, id),
        after.exclusion == queue.exclusion,
        pending(after, id) == pending(queue, id),
        outcome is Done && !queue.interrupted <==> res == Ok::<_, ChainError>(
            None::<(Mutation, Task)>,
        ),
        outcome is Done && !queue.interrupted ==> stands(after, id, Status::Active),
        !(outcome is Done && !queue.interrupted) ==> res is Err && stands(
            after,
            id,
            Status::Failed,
        ),
        outcome matches Outcome::Failed(error) ==> res == Err::<Option<(Mutation, Task)>, _>(error),
        outcome is Done && queue.interrupted ==> res == Err::<Option<(Mutation, Task)>, _>(
            ChainError::Interrupted,
        ),
{
    assert(after.txns.remove(id) =~= queue.txns.remove(id));
}

/// An abandoned request leaves its transaction failed, with its records, and excludes nobody; where
/// no request is unfinished, nothing changes.
pub proof fn law_abandoned_requests_fail(queue: QueueView<MutationRecord>, id: TxnId)
    ensures
        ({
            let after = queue.failed(id);
            &&& only_of(queue, after, id)
            &&& stands(queue, id, Status::Running) ==> {
                &&& stands(after, id, Status::Failed)
                &&& pending(after, id) == pending(queue, id)
                &&& after.exclusion == if queue.exclusion == Exclusion::Capture(id) {
                    Exclusion::Free
                } else {
                    queue.exclusion
                }
            }
            &&& !stands(queue, id, Status::Running) ==> after == queue
        }),
{
    assert(queue.failed(id).txns.remove(id) =~= queue.txns.remove(id));
}

/// Registration adds an active transaction without records, unless the transaction is known; it
/// changes nothing else.
pub proof fn law_registration_adds_an_empty_transaction(
    queue: QueueView<MutationRecord>,
    id: TxnId,
)
    ensures
        ({
            let after = queue.registered(id);
            &&& only_of(queue, after, id)
            &&& after.exclusion == queue.exclusion
            &&& queue.txns.dom().contains(id) ==> after == queue
            &&& !queue.txns.dom().contains(id) ==> stands(after, id, Status::Active) && pending(
                after,
                id,
            ).len() == 0
        }),
{
    assert(queue.registered(id).txns.remove(id) =~= queue.txns.remove(id));
}

/// A restoration from a snapshot of another class or another schema is refused, and changes
/// nothing. Every other is a request to restore: unless it is refused for its transaction, the
/// snapshot is identified first.
pub proof fn law_restorations_need_the_class_and_the_schema(
    queue: QueueView<MutationRecord>,
    id: TxnId,
    subject: (Seq<char>, Seq<char>),
    snapshot: (Seq<char>, Seq<char>),
    after: QueueView<MutationRecord>,
    res: Result<(Mutation, Task), ChainError>,
)
    requires
        restores(queue, id, subject, snapshot, after, res),
    ensures
        subject != snapshot ==> res == Err::<(Mutation, Task), _>(ChainError::SchemaMismatch)
            && after == queue,
        subject == snapshot ==> mutates(queue, id, Request::Restore, after, res),
        res is Ok <==> subject == snapshot && admissible(queue, id),
        res matches Ok((mutation, task)) ==> task is Identify && pursues(
            mutation@,
            id,
            Request::Restore,
        ),
{
}

/// A commit within the queue leaves a receipt without records and arms the operation, once; a
/// finalization forgets just what the cutoff covers, and never takes the cutoff back.
pub proof fn law_queues_decide_about_one_transaction(
    queue: QueueView<MutationRecord>,
    id: TxnId,
    other: TxnId,
)
    ensures
        ({
            let after = queue.committed(id);
            &&& only_of(queue, after, id)
            &&& stands(after, id, Status::Committed)
            &&& stands(queue, id, Status::Committed) ==> after == queue
            &&& !stands(queue, id, Status::Committed) ==> pending(after, id).len() == 0
                && after.exclusion == (Exclusion::Lifecycle { armed: true })
        }),
        ({
            let after = queue.finalized(id);
            &&& after.txns.dom().contains(other) <==> queue.txns.dom().contains(other)
                && id.before(other)
            &&& after.txns.dom().contains(other) ==> after.txns[other] == queue.txns[other]
            &&& passed(after, other) <==> passed(queue, other) || other == id || other.before(id)
            &&& after.capacity == queue.capacity
            &&& after.interrupted == queue.interrupted
            &&& after.exclusion == queue.exclusion
        }),
        ({
            let fresh = QueueView::<MutationRecord>::fresh(queue.capacity);
            &&& fresh.capacity == queue.capacity
            &&& available(fresh)
            &&& !passed(fresh, id)
            &&& !fresh.txns.dom().contains(id)
        }),
{
    assert(queue.committed(id).txns.remove(id) =~= queue.txns.remove(id));
}

/// Within a lifecycle operation a transaction is committed or rolled back, and a cutoff finalized,
/// under the conditions under which the operation begins; outside of one, never.
pub proof fn law_queues_decide_only_within_an_operation(
    queue: QueueView<MutationRecord>,
    id: TxnId,
)
    ensures
        ({
            let within = queue.exclusion is Lifecycle;
            let current = within && !passed(queue, id);
            let commit = queue.commit_refusal(id);
            let rollback = queue.rollback_refusal(id);
            let finalize = queue.finalize_refusal(id);
            &&& !within ==> commit is Some && rollback is Some && finalize is Some
            &&& commit == Some(ChainError::Outdated) <==> within && passed(queue, id)
            &&& rollback == Some(ChainError::Outdated) <==> within && passed(queue, id)
            &&& commit is None <==> current && (!queue.txns.dom().contains(id) || stands(
                queue,
                id,
                Status::Active,
            ) || stands(queue, id, Status::Committed))
            &&& rollback is None <==> current && (!queue.txns.dom().contains(id) || stands(
                queue,
                id,
                Status::Active,
            ) || stands(queue, id, Status::Failed) || stands(queue, id, Status::RolledBack))
            &&& finalize is None <==> within && forall|other: TxnId| #[trigger]
                stands(queue, other, Status::Running) ==> id.before(other)
            &&& within && finalize is Some ==> finalize == Some(ChainError::Unfinished)
            &&& queue.operation_refusal() is None <==> available(queue)
        }),
{
    if queue.unfinished_through(id) {
        let other = choose|other: TxnId| #[trigger]
            queue.is(other, Status::Running) && covered(Some(id), other);
        assert(stands(queue, other, Status::Running));
    }
    assert forall|other: TxnId| #[trigger] stands(queue, other, Status::Running) implies queue.is(
        other,
        Status::Running,
    ) by {}
}

} // verus!
