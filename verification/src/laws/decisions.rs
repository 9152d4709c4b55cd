//! Decisions about transactions: what every operation keeps.

use vstd::prelude::*;

use crate::capture::{
    capture_begins, capture_continues, capture_sound, law_captured_values_are_verified,
    law_uncaptured_values_are_literal, Captured, Outcome, Task,
};
use crate::chain::mutation::{
    admitted, incomplete, mutates, proceeds, proceeds_to_capture, recorded, settles, Mutation,
    MutationView, Request, Stage,
};
use crate::chain::{
    armed, begun, fails, runs, sound, succeeds, ChainView, EndingView, ProcedureView, Step,
};
use crate::effect::{EffectView, ExpectView, Reply};
use crate::error::ChainError;
use crate::queue::{Exclusion, QueueView, Status};
use crate::record::MutationRecord;
use crate::script::{
    commit_script, finalize_script, reclaim_script, sync_script, validate_script,
};
use crate::store::{any_malformed, captures, malformed, texts};
use crate::txn::{covered, TxnId};

verus! {

/// One use of a chain.
pub enum Action {
    Register(TxnId),
    Mutate(TxnId, Request),
    Proceed(MutationView, Outcome),
    Abandon(TxnId),
    Commit(TxnId),
    Rollback(TxnId),
    Finalize(TxnId),
    Advance(Reply),
    Cancel,
}

/// What becomes of a chain by one use.
pub open spec fn acts(before: ChainView, action: Action, after: ChainView) -> bool {
    match action {
        Action::Register(id) => {
            &&& after.procedure == before.procedure
            &&& after.queue == if before.queue.register_refusal(id) is Some
                || before.queue.txns.dom().contains(id) {
                before.queue
            } else {
                before.queue.with(id, Status::Active, Seq::empty())
            }
        },
        Action::Mutate(id, request) => {
            &&& after.procedure == before.procedure
            &&& exists|res: Result<(Mutation, Task), ChainError>| #[trigger]
                mutates(before.queue, id, request, after.queue, res)
        },
        Action::Proceed(mutation, outcome) => {
            &&& after.procedure == before.procedure
            &&& exists|res: Result<Option<(Mutation, Task)>, ChainError>| #[trigger]
                proceeds(before.queue, mutation, outcome, after.queue, res)
        },
        Action::Abandon(id) => {
            &&& after.procedure == before.procedure
            &&& after.queue == before.queue.failed(id)
        },
        Action::Commit(id) => after == before.commits(id).0,
        Action::Rollback(id) => after == before.rolls_back(id).0,
        Action::Finalize(cutoff) => after == before.begins_to_finalize(cutoff).0,
        Action::Advance(reply) => after == before.advanced(reply).0,
        Action::Cancel => after == before.cancelled(),
    }
}

/// What no change of a queue undoes about a transaction: its finalization, its decision, its
/// failure, and the order in which its requests were admitted.
pub open spec fn keeps(
    before: QueueView<MutationRecord>,
    after: QueueView<MutationRecord>,
    id: TxnId,
) -> bool {
    &&& covered(before.frontier, id) ==> covered(after.frontier, id)
    &&& before.txns.dom().contains(id) && !covered(after.frontier, id) ==> {
        &&& after.txns.dom().contains(id)
        &&& before.is(id, Status::Committed) ==> after.is(id, Status::Committed)
        &&& before.is(id, Status::RolledBack) ==> after.is(id, Status::RolledBack)
        &&& before.is(id, Status::Failed) ==> after.is(id, Status::Failed) || after.is(
            id,
            Status::RolledBack,
        )
        &&& !after.decided(id) ==> before.records(id).is_prefix_of(after.records(id))
    }
}

/// What no change of a queue undoes.
pub open spec fn preserves(
    before: QueueView<MutationRecord>,
    after: QueueView<MutationRecord>,
) -> bool {
    &&& after.capacity == before.capacity
    &&& before.interrupted ==> after.interrupted
    &&& forall|id: TxnId| #[trigger] keeps(before, after, id)
}

/// What two changes keep, both together keep.
proof fn lemma_preserves_transitively(
    a: QueueView<MutationRecord>,
    b: QueueView<MutationRecord>,
    c: QueueView<MutationRecord>,
)
    requires
        preserves(a, b),
        preserves(b, c),
    ensures
        preserves(a, c),
{
    assert forall|id: TxnId| #[trigger] keeps(a, c, id) by {
        assert(keeps(a, b, id));
        assert(keeps(b, c, id));
        if !c.decided(id) && a.txns.dom().contains(id) && !covered(c.frontier, id) {
            assert(!b.decided(id));
            assert(a.records(id) =~= c.records(id).subrange(0, a.records(id).len() as int));
        }
    }
}

/// Ending an operation keeps everything.
proof fn lemma_ends(queue: QueueView<MutationRecord>)
    requires
        queue.valid(),
        !queue.interrupted,
        queue.exclusion is Lifecycle,
    ensures
        preserves(queue, queue.exclusive(Exclusion::Free)),
        queue.exclusive(Exclusion::Free).valid(),
        preserves(queue, queue.abandoned()),
        queue.abandoned().valid(),
        preserves(queue, armed(queue)),
        armed(queue).valid(),
        preserves(queue, begun(queue)),
        begun(queue).valid(),
{
}

/// A commit which is not refused keeps everything.
proof fn lemma_commits(queue: QueueView<MutationRecord>, id: TxnId)
    requires
        queue.valid(),
        queue.commit_refusal(id) is None,
    ensures
        preserves(queue, queue.committed(id)),
        queue.committed(id).valid(),
        queue.committed(id).exclusion is Lifecycle,
        queue.committed(id).interrupted == queue.interrupted,
{
}

/// A rollback which is not refused keeps everything.
proof fn lemma_rolls_back(queue: QueueView<MutationRecord>, id: TxnId)
    requires
        queue.valid(),
        queue.rollback_refusal(id) is None,
    ensures
        preserves(queue, queue.with(id, Status::RolledBack, Seq::empty())),
        queue.with(id, Status::RolledBack, Seq::empty()).valid(),
{
}

/// A finalization which is not refused keeps everything.
proof fn lemma_finalizes(queue: QueueView<MutationRecord>, cutoff: TxnId)
    requires
        queue.valid(),
        queue.finalize_refusal(cutoff) is None,
    ensures
        preserves(queue, queue.finalized(cutoff)),
        queue.finalized(cutoff).valid(),
{
}

/// Whether a step of an operation keeps everything.
spec fn kept(queue: QueueView<MutationRecord>, step: Step) -> bool {
    sound(step.0) && preserves(queue, step.0.queue)
}

/// Whether an operation is under way.
spec fn under_way(queue: QueueView<MutationRecord>) -> bool {
    queue.valid() && queue.exclusion is Lifecycle && !queue.interrupted
}

/// The end of an operation keeps everything.
proof fn lemma_kept_at_end(
    before: QueueView<MutationRecord>,
    queue: QueueView<MutationRecord>,
    error: ChainError,
)
    requires
        under_way(queue),
        preserves(before, queue),
    ensures
        kept(before, fails(queue, error)),
        kept(before, succeeds(queue)),
{
    lemma_ends(queue);
    lemma_preserves_transitively(before, queue, queue.abandoned());
    lemma_preserves_transitively(before, queue, queue.exclusive(Exclusion::Free));
}

/// A step of a script keeps everything.
proof fn lemma_kept_in_script(
    before: QueueView<MutationRecord>,
    queue: QueueView<MutationRecord>,
    rest: Seq<EffectView>,
    ending: EndingView,
)
    requires
        under_way(queue),
        preserves(before, queue),
    ensures
        kept(before, runs(queue, rest, ending)),
{
    lemma_kept_at_end(before, queue, ChainError::AlreadyPublished);
    if rest.len() == 0 {
        match ending {
            EndingView::RollBack(id) => match queue.rollback_refusal(id) {
                Some(error) => lemma_kept_at_end(before, queue, error),
                None => {
                    let after = queue.with(id, Status::RolledBack, Seq::empty());
                    lemma_rolls_back(queue, id);
                    lemma_preserves_transitively(before, queue, after);
                    lemma_kept_at_end(before, after, ChainError::AlreadyPublished);
                },
            },
            EndingView::Finalize(cutoff) => match queue.finalize_refusal(cutoff) {
                Some(error) => lemma_kept_at_end(before, queue, error),
                None => {
                    lemma_finalizes(queue, cutoff);
                    lemma_preserves_transitively(before, queue, queue.finalized(cutoff));
                    lemma_kept_at_end(before, queue.finalized(cutoff), ChainError::AlreadyPublished);
                },
            },
            EndingView::Replay(file, retained) => {
                lemma_ends(queue);
                lemma_preserves_transitively(before, queue, armed(queue));
                match file.frontier {
                    Some(cutoff) => match armed(queue).finalize_refusal(cutoff) {
                        Some(error) => lemma_kept_at_end(before, armed(queue), error),
                        None => {
                            lemma_finalizes(armed(queue), cutoff);
                            lemma_preserves_transitively(
                                before,
                                armed(queue),
                                armed(queue).finalized(cutoff),
                            );
                        },
                    },
                    None => {},
                }
            },
            _ => {},
        }
    }
}

/// A reply to an operation keeps everything.
proof fn lemma_kept_by_reply(chain: ChainView, reply: Reply)
    requires
        sound(chain),
    ensures
        kept(chain.queue, chain.advanced(reply)),
{
    let queue = chain.queue;
    if chain.procedure is Idle {
        assert(queue.abandoned() == queue);
    } else {
        assert forall|error: ChainError| kept(queue, #[trigger] fails(queue, error)) by {
            lemma_kept_at_end(queue, queue, error);
        }
        lemma_kept_at_end(queue, queue, ChainError::UnexpectedReply);
        lemma_ends(queue);
        match (chain.procedure, reply) {
            (ProcedureView::Running { expect, rest, ending }, _) => {
                lemma_kept_in_script(queue, queue, rest, ending);
                if let ExpectView::Receipt(id) = expect {
                    if queue.commit_refusal(id) is None {
                        lemma_commits(queue, id);
                        lemma_kept_in_script(queue, queue.committed(id), rest, ending);
                    }
                }
            },
            (ProcedureView::Publishing { id, records }, Reply::Committed(file)) => {
                lemma_kept_in_script(
                    queue,
                    queue,
                    sync_script(captures(records)),
                    EndingView::AlreadyPublished,
                );
                lemma_kept_in_script(
                    queue,
                    queue,
                    commit_script(file@, id, records),
                    EndingView::Acknowledge,
                );
            },
            (ProcedureView::Finalizing { cutoff }, Reply::Committed(file)) => {
                lemma_kept_in_script(
                    queue,
                    armed(queue),
                    finalize_script(file@, cutoff),
                    EndingView::Finalize(cutoff),
                );
            },
            (ProcedureView::Loading { file, retained }, _) => {
                lemma_kept_in_script(
                    queue,
                    queue,
                    validate_script(file.history()),
                    EndingView::Replay(file, retained),
                );
            },
            (ProcedureView::Listing { retained }, Reply::Captures(names)) => {
                lemma_kept_in_script(
                    queue,
                    queue,
                    reclaim_script(texts(names@), retained),
                    EndingView::Acknowledge,
                );
            },
            _ => {},
        }
    }
}

/// A failed request keeps everything else.
proof fn lemma_kept_by_failure(queue: QueueView<MutationRecord>, id: TxnId)
    requires
        queue.valid(),
    ensures
        queue.failed(id).valid(),
        preserves(queue, queue.failed(id)),
        queue.failed(id).interrupted == queue.interrupted,
        queue.failed(id).exclusion == queue.exclusion || queue.failed(id).exclusion is Free,
        queue.exclusion is Lifecycle ==> queue.failed(id).exclusion == queue.exclusion,
{
}

/// No use of a chain undoes a decision: an interrupted chain stays interrupted, the finalized
/// cutoff never moves back, a committed or a rolled back transaction stays so until it is
/// finalized, a failed transaction can only be rolled back or finalized, and the requests of a
/// transaction keep the order in which they were admitted. The invariant of the chain holds
/// throughout.
pub proof fn law_decisions_are_kept(before: ChainView, action: Action, after: ChainView)
    requires
        sound(before),
        acts(before, action, after),
    ensures
        sound(after),
        preserves(before.queue, after.queue),
{
    let queue = before.queue;
    match action {
        Action::Register(id) => {},
        Action::Mutate(id, request) => {
            if queue.start_refusal(id) is None {
                let admitted = admitted(queue, id);
                assert(admitted.valid());
                assert(preserves(queue, admitted));
                lemma_kept_by_failure(admitted, id);
                lemma_preserves_transitively(queue, admitted, admitted.failed(id));
            }
        },
        Action::Proceed(mutation, outcome) => {
            lemma_kept_by_failure(queue, mutation.id);
        },
        Action::Abandon(id) => lemma_kept_by_failure(queue, id),
        Action::Commit(id) => {
            if queue.operation_refusal() is None {
                assert(under_way(begun(queue)));
                assert(preserves(queue, begun(queue)));
                if begun(queue).commit_refusal(id) is None {
                    lemma_commits(begun(queue), id);
                    lemma_preserves_transitively(
                        queue,
                        begun(queue),
                        begun(queue).committed(id),
                    );
                    lemma_kept_in_script(
                        queue,
                        begun(queue).committed(id),
                        seq![EffectView::CommitSubject(id)],
                        EndingView::Acknowledge,
                    );
                }
            }
        },
        Action::Rollback(id) => {
            if queue.operation_refusal() is None {
                assert(preserves(queue, armed(queue)));
                lemma_kept_in_script(
                    queue,
                    armed(queue),
                    seq![EffectView::RollbackSubject(id)],
                    EndingView::RollBack(id),
                );
            }
        },
        Action::Finalize(cutoff) => {
            if queue.operation_refusal() is None {
                assert(preserves(queue, begun(queue)));
            }
        },
        Action::Advance(reply) => lemma_kept_by_reply(before, reply),
        Action::Cancel => {
            if queue.exclusion is Lifecycle {
                lemma_ends(queue);
            }
        },
    }
}

/// An interrupted chain refuses everything.
pub proof fn law_interrupted_chains_refuse_everything(chain: ChainView, id: TxnId)
    requires
        sound(chain),
        chain.queue.interrupted,
    ensures
        chain.commits(id) == (chain, Err::<Option<EffectView>, _>(ChainError::Interrupted)),
        chain.rolls_back(id) == (chain, Err::<Option<EffectView>, _>(ChainError::Interrupted)),
        chain.begins_to_finalize(id) == (
            chain,
            Err::<Option<EffectView>, _>(ChainError::Interrupted),
        ),
        chain.queue.register_refusal(id) == Some(ChainError::Interrupted),
        chain.queue.read_refusal(id) == Some(ChainError::Interrupted),
        chain.queue.start_refusal(id) == Some(ChainError::Interrupted),
{
}

/// An armed operation which fails or is cancelled interrupts the chain.
pub proof fn law_armed_failures_interrupt(chain: ChainView, reply: Reply)
    requires
        sound(chain),
        chain.queue.exclusion == (Exclusion::Lifecycle { armed: true }),
    ensures
        chain.cancelled().queue.interrupted,
        chain.advanced(reply).1 is Err ==> chain.advanced(reply).0.queue.interrupted,
{
}

/// An operation which is cancelled before it is armed changes nothing.
pub proof fn law_unarmed_cancellation_changes_nothing(
    chain: ChainView,
    operation: Action,
    begun: ChainView,
)
    requires
        sound(chain),
        acts(chain, operation, begun),
        operation is Commit || operation is Rollback || operation is Finalize,
        begun.queue.exclusion == (Exclusion::Lifecycle { armed: false }),
        chain.queue.exclusion is Free,
    ensures
        begun.cancelled().queue == chain.queue,
{
    assert(begun.cancelled().queue =~= chain.queue);
}

/// A failed transaction cannot commit, observe, or make another request.
pub proof fn law_failed_transactions_cannot_commit(chain: ChainView, id: TxnId)
    requires
        sound(chain),
        chain.queue.is(id, Status::Failed),
    ensures
        chain.commits(id).0 == chain,
        chain.commits(id).1 is Err,
        chain.queue.start_refusal(id) is Some,
        chain.queue.register_refusal(id) is Some,
        chain.queue.read_refusal(id) is Some,
{
}

/// A decision which is repeated succeeds at once and has no effect, and the opposite decision is
/// refused.
pub proof fn law_repeated_decisions_have_no_effect(chain: ChainView, id: TxnId)
    requires
        sound(chain),
        chain.queue.operation_refusal() is None,
    ensures
        chain.queue.is(id, Status::Committed) ==> {
            &&& chain.commits(id) == (chain, Ok::<_, ChainError>(None::<EffectView>))
            &&& chain.rolls_back(id) == (
                chain,
                Err::<Option<EffectView>, _>(ChainError::Committed),
            )
        },
        chain.queue.is(id, Status::RolledBack) ==> {
            &&& chain.rolls_back(id) == (chain, Ok::<_, ChainError>(None::<EffectView>))
            &&& chain.commits(id) == (
                chain,
                Err::<Option<EffectView>, _>(ChainError::RolledBack),
            )
        },
{
}

/// An unfinished request excludes no decision about another transaction, and no finalization
/// before it. It excludes those about its own transaction.
pub proof fn law_later_requests_do_not_exclude_earlier_decisions(
    queue: QueueView<MutationRecord>,
    later: TxnId,
    records: Seq<MutationRecord>,
    id: TxnId,
)
    requires
        queue.exclusion is Lifecycle,
        !queue.txns.dom().contains(later),
        !covered(queue.frontier, later),
        id.before(later),
    ensures
        ({
            let running = queue.with(later, Status::Running, records);
            &&& running.commit_refusal(id) == queue.commit_refusal(id)
            &&& running.rollback_refusal(id) == queue.rollback_refusal(id)
            &&& running.finalize_refusal(id) == queue.finalize_refusal(id)
            &&& running.commit_refusal(later) == Some(ChainError::Unfinished)
            &&& running.rollback_refusal(later) == Some(ChainError::Unfinished)
            &&& running.finalize_refusal(later) == Some(ChainError::Unfinished)
        }),
{
    let running = queue.with(later, Status::Running, records);
    assert forall|other: TxnId| covered(Some(id), other) implies running.is(other, Status::Running)
        == queue.is(other, Status::Running) by {
        assert(other != later);
    }
    if queue.unfinished_through(id) {
        let other = choose|other: TxnId| #[trigger]
            queue.is(other, Status::Running) && covered(Some(id), other);
        assert(running.is(other, Status::Running));
    }
    if running.unfinished_through(id) {
        let other = choose|other: TxnId| #[trigger]
            running.is(other, Status::Running) && covered(Some(id), other);
        assert(queue.is(other, Status::Running));
    }
    assert(running.is(later, Status::Running) && covered(Some(later), later));
}

/// The handler of a request is invoked only once the request is recorded, at the end of the
/// records of its transaction.
pub proof fn law_requests_are_recorded_before_their_handlers_are_invoked(
    queue: QueueView<MutationRecord>,
    mutation: MutationView,
    outcome: Outcome,
    after: QueueView<MutationRecord>,
    res: Result<Option<(Mutation, Task)>, ChainError>,
)
    requires
        queue.valid(),
        proceeds(queue, mutation, outcome, after, res),
        res matches Ok(Some((_, Task::Invoke))),
    ensures
        after.records(mutation.id).drop_last() == queue.records(mutation.id),
        after.records(mutation.id).len() == queue.records(mutation.id).len() + 1,
        after.is(mutation.id, Status::Running),
        after.exclusion is Free,
{
    assert(after.records(mutation.id).drop_last() =~= queue.records(mutation.id));
}

/// A request whose value needs no capture is recorded as it is, before its handler is invoked.
pub proof fn law_admitted_requests_are_recorded_before_their_handlers_are_invoked(
    queue: QueueView<MutationRecord>,
    id: TxnId,
    request: Request,
    after: QueueView<MutationRecord>,
    res: Result<(Mutation, Task), ChainError>,
)
    requires
        queue.valid(),
        mutates(queue, id, request, after, res),
        res matches Ok((_, Task::Invoke)),
    ensures
        after.records(id).drop_last() == queue.records(id),
        after.records(id).len() == queue.records(id).len() + 1,
        after.records(id).len() <= after.capacity,
        after.is(id, Status::Running),
        after.exclusion is Free,
{
    assert(after.records(id).drop_last() =~= queue.records(id));
}

/// A request is admitted before its value is captured: as long as it is not recorded, its place
/// is reserved and no other request or operation is prepared.
pub proof fn law_admission_precedes_capture(
    queue: QueueView<MutationRecord>,
    id: TxnId,
    request: Request,
    after: QueueView<MutationRecord>,
    res: Result<(Mutation, Task), ChainError>,
    other: TxnId,
)
    requires
        queue.valid(),
        mutates(queue, id, request, after, res),
        res matches Ok((_, task)) && !(task is Invoke),
    ensures
        after.records(id) == queue.records(id),
        after.records(id).len() < after.capacity,
        after.exclusion == Exclusion::Capture(id),
        after.start_refusal(other) == Some(ChainError::Busy),
        after.operation_refusal() == Some(ChainError::Busy),
{
}

/// A request which fails leaves its transaction failed, with nothing recorded after it.
pub proof fn law_failed_requests_fail_their_transactions(
    queue: QueueView<MutationRecord>,
    mutation: MutationView,
    outcome: Outcome,
    after: QueueView<MutationRecord>,
    res: Result<Option<(Mutation, Task)>, ChainError>,
)
    requires
        queue.valid(),
        queue.is(mutation.id, Status::Running),
        proceeds(queue, mutation, outcome, after, res),
        res is Err,
    ensures
        after.is(mutation.id, Status::Failed),
        after.records(mutation.id) == queue.records(mutation.id),
{
}

/// Whether every pending request of a queue is well-formed: it refers to nothing but stored
/// collections.
pub open spec fn well_formed(queue: QueueView<MutationRecord>) -> bool {
    forall|id: TxnId| !any_malformed(#[trigger] queue.records(id))
}

/// Whether an admitted request is sound: what it verifies has an identity.
pub open spec fn mutation_sound(mutation: MutationView) -> bool {
    mutation.stage matches Stage::Capturing(_, capture) ==> capture_sound(capture)
}

/// A well-formed record leaves the records of a queue well-formed.
proof fn lemma_recorded_well_formed(
    queue: QueueView<MutationRecord>,
    id: TxnId,
    record: MutationRecord,
)
    requires
        well_formed(queue),
        !malformed(record),
    ensures
        well_formed(recorded(queue, id, record)),
{
    let after = recorded(queue, id, record);
    assert forall|other: TxnId| !any_malformed(#[trigger] after.records(other)) by {
        let before = queue.records(other);
        assert(!any_malformed(before));
        if other == id {
            let all = before.push(record);
            assert forall|i: int| 0 <= i < all.len() implies !malformed(#[trigger] all[i]) by {
                if i < before.len() {
                    assert(all[i] == before[i]);
                }
            }
        } else {
            assert(after.records(other) == before);
        }
    }
}

/// Admission and failure change no records.
proof fn lemma_same_records(queue: QueueView<MutationRecord>, id: TxnId)
    requires
        well_formed(queue),
    ensures
        well_formed(admitted(queue, id)),
        well_formed(queue.failed(id)),
        well_formed(queue.with(id, Status::Active, queue.records(id))),
{
    assert forall|other: TxnId| !any_malformed(#[trigger] admitted(queue, id).records(other)) by {
        assert(admitted(queue, id).records(other) == queue.records(other));
    }
    assert forall|other: TxnId| !any_malformed(#[trigger] queue.failed(id).records(other)) by {
        assert(queue.failed(id).records(other) == queue.records(other));
    }
    assert forall|other: TxnId| !any_malformed(
        #[trigger] queue.with(id, Status::Active, queue.records(id)).records(other),
    ) by {
        assert(queue.with(id, Status::Active, queue.records(id)).records(other) == queue.records(
            other,
        ));
    }
}

/// Whatever is recorded refers to nothing but stored collections, whose identities were verified.
/// So a commit is never refused for a malformed reference.
pub proof fn law_recorded_requests_are_well_formed(
    queue: QueueView<MutationRecord>,
    mutation: MutationView,
    outcome: Outcome,
    after: QueueView<MutationRecord>,
    res: Result<Option<(Mutation, Task)>, ChainError>,
)
    requires
        well_formed(queue),
        mutation_sound(mutation),
        proceeds(queue, mutation, outcome, after, res),
    ensures
        well_formed(after),
        res matches Ok(Some((next, _))) ==> mutation_sound(next@),
{
    let id = mutation.id;
    lemma_same_records(queue, id);
    match mutation.stage {
        Stage::Capturing(target, capture) => {
            let next = choose|next: Result<(Mutation, Task), ChainError>| {
                &&& #[trigger] incomplete(next) == res
                &&& proceeds_to_capture(queue, id, target, capture, outcome, after, next)
            };
            let captured = choose|captured: Result<Captured, ChainError>| #[trigger]
                capture_continues(capture, outcome, captured) && settles(
                    queue,
                    id,
                    target,
                    captured,
                    after,
                    next,
                );
            law_captured_values_are_verified(capture, outcome, captured);
            if let Ok(Captured::Value(value)) = captured {
                lemma_recorded_well_formed(queue, id, target.spec_record(value));
            }
        },
        Stage::Invoking => {},
    }
}

/// A request which is made leaves everything recorded well-formed.
pub proof fn law_admitted_requests_are_well_formed(
    queue: QueueView<MutationRecord>,
    id: TxnId,
    request: Request,
    after: QueueView<MutationRecord>,
    res: Result<(Mutation, Task), ChainError>,
)
    requires
        well_formed(queue),
        mutates(queue, id, request, after, res),
    ensures
        well_formed(after),
        res matches Ok((next, _)) ==> mutation_sound(next@),
{
    lemma_same_records(queue, id);
    let started = admitted(queue, id);
    lemma_same_records(started, id);
    match request {
        Request::Put(path, key, argument) => {
            law_uncaptured_values_are_literal(argument);
            if let Ok(Captured::Value(value)) = capture_begins(argument) {
                lemma_recorded_well_formed(started, id, MutationRecord::Put(path, key, value));
            }
        },
        Request::Delete(path, key) => {
            lemma_recorded_well_formed(started, id, MutationRecord::Delete(path, key));
        },
        Request::Restore => {},
    }
}

/// Whether the records of each transaction are the same, or discarded.
pub open spec fn discards(
    before: QueueView<MutationRecord>,
    after: QueueView<MutationRecord>,
) -> bool {
    forall|id: TxnId|
        #![trigger after.records(id)]
        after.records(id) == before.records(id) || after.records(id).len() == 0
}

/// A script records nothing.
proof fn lemma_scripts_record_nothing(
    queue: QueueView<MutationRecord>,
    rest: Seq<EffectView>,
    ending: EndingView,
)
    ensures
        discards(queue, runs(queue, rest, ending).0.queue),
{
}

/// A reply to an operation records nothing.
proof fn lemma_replies_record_nothing(chain: ChainView, reply: Reply)
    ensures
        discards(chain.queue, chain.advanced(reply).0.queue),
{
    match (chain.procedure, reply) {
        (ProcedureView::Running { expect, rest, ending }, _) => {
            lemma_scripts_record_nothing(chain.queue, rest, ending);
            if let ExpectView::Receipt(id) = expect {
                let next = chain.queue.committed(id);
                lemma_scripts_record_nothing(next, rest, ending);
                let after = runs(next, rest, ending).0.queue;
                assert forall|other: TxnId|
                    #![trigger after.records(other)]
                    after.records(other) == chain.queue.records(other) || after.records(
                        other,
                    ).len() == 0 by {
                    assert(next.records(other) == chain.queue.records(other) || next.records(
                        other,
                    ).len() == 0);
                }
            }
        },
        _ => {},
    }
}

/// Whatever a chain is used for, its pending requests refer to nothing but stored collections. So
/// a commit is never refused for a malformed reference.
pub proof fn law_pending_requests_stay_well_formed(
    before: ChainView,
    action: Action,
    after: ChainView,
)
    requires
        well_formed(before.queue),
        acts(before, action, after),
        action matches Action::Proceed(mutation, _) ==> mutation_sound(mutation),
    ensures
        well_formed(after.queue),
        action is Commit && !(before.procedure is Publishing) ==> (
        after.procedure matches ProcedureView::Publishing { records, .. } ==> !any_malformed(
            records,
        )),
{
    let queue = before.queue;
    match action {
        Action::Mutate(id, request) => {
            let res = choose|res: Result<(Mutation, Task), ChainError>| #[trigger]
                mutates(queue, id, request, after.queue, res);
            law_admitted_requests_are_well_formed(queue, id, request, after.queue, res);
        },
        Action::Proceed(mutation, outcome) => {
            let res = choose|res: Result<Option<(Mutation, Task)>, ChainError>| #[trigger]
                proceeds(queue, mutation, outcome, after.queue, res);
            law_recorded_requests_are_well_formed(queue, mutation, outcome, after.queue, res);
        },
        _ => {
            if let Action::Advance(reply) = action {
                lemma_replies_record_nothing(before, reply);
            }
            if let Action::Commit(id) = action {
                assert(!any_malformed(queue.records(id)));
            }
            assert(discards(queue, after.queue));
            assert forall|id: TxnId| !any_malformed(#[trigger] after.queue.records(id)) by {
                assert(!any_malformed(queue.records(id)));
            }
        },
    }
}

} // verus!
