//! Lifecycle operations: when they begin, what they do in which order, and what becomes of the
//! queue.

use vstd::prelude::*;

use crate::block::null_hash;
use crate::chain::{
    asks, begun, create_refusal, create_script, load_refusal, sound, ChainView, EndingView,
    ProcedureView,
};
use crate::effect::{EffectView, ExpectView, Reply};
use crate::error::ChainError;
use crate::file::{ChainFile, FileView};
use crate::laws::durability::{
    asked, durable, finished, law_acknowledged_commits_are_durable_and_visible,
    law_acknowledged_finalizations_are_durable, law_commits_publish_before_they_become_visible,
    law_finalizations_follow_their_script, law_scripts_are_followed,
};
use crate::laws::recovery::lemma_validation_only_verifies;
use crate::laws::replay::lemma_history_kinds;
use crate::laws::success::answers;
use crate::laws::values::{
    law_files_are_refused_for_a_reason, law_files_cover_what_they_retain,
    law_finalization_changes_nothing_else, law_histories_name_every_capture,
    law_publication_changes_nothing_else, law_requests_name_every_capture, misrefers, refers,
};
use crate::map::{ascending, entry_of, has_entry};
use crate::queue::{EntryView, Exclusion, QueueView, Status};
use crate::record::MutationRecord;
use crate::script::{commit_script, finalize_script, sync_script};
use crate::store::{any_malformed, captures, resolution_refusal};
use crate::txn::{covered, TxnId};

verus! {

/// Whether a transaction is at or before the finalized cutoff of a queue.
pub open spec fn passed(queue: QueueView<MutationRecord>, id: TxnId) -> bool {
    queue.frontier matches Some(cutoff) && !cutoff.before(id)
}

/// Whether a transaction has an entry with this status.
pub open spec fn stands(queue: QueueView<MutationRecord>, id: TxnId, status: Status) -> bool {
    queue.txns.dom().contains(id) && queue.txns[id].status == status
}

/// The records which a transaction has pending.
pub open spec fn pending(queue: QueueView<MutationRecord>, id: TxnId) -> Seq<MutationRecord> {
    if queue.txns.dom().contains(id) {
        queue.txns[id].records
    } else {
        Seq::empty()
    }
}

/// Whether a queue lets an operation begin.
pub open spec fn available(queue: QueueView<MutationRecord>) -> bool {
    !queue.interrupted && queue.exclusion == Exclusion::Free
}

/// A commit is refused exactly if the chain is interrupted or busy, or if the transaction is
/// finalized, has an unfinished or a failed request, or is rolled back; the refusal says which, and
/// changes nothing. A repeated commit succeeds at once, and changes nothing.
pub proof fn law_commits_are_refused_for_a_reason(chain: ChainView, id: TxnId)
    ensures
        ({
            let queue = chain.queue;
            let res = chain.commits(id).1;
            let current = available(queue) && !passed(queue, id);
            &&& res == Err::<Option<EffectView>, _>(ChainError::Interrupted) <==> queue.interrupted
            &&& res == Err::<Option<EffectView>, _>(ChainError::Busy) <==> !queue.interrupted
                && queue.exclusion != Exclusion::Free
            &&& res == Err::<Option<EffectView>, _>(ChainError::Outdated) <==> available(queue)
                && passed(queue, id)
            &&& res == Err::<Option<EffectView>, _>(ChainError::Unfinished) <==> current && stands(
                queue,
                id,
                Status::Running,
            )
            &&& res == Err::<Option<EffectView>, _>(ChainError::Failed) <==> current && stands(
                queue,
                id,
                Status::Failed,
            )
            &&& res == Err::<Option<EffectView>, _>(ChainError::RolledBack) <==> current && stands(
                queue,
                id,
                Status::RolledBack,
            )
            &&& res == Ok::<_, ChainError>(None::<EffectView>) <==> current && stands(
                queue,
                id,
                Status::Committed,
            )
            &&& (res matches Ok(Some(_))) <==> current && (stands(queue, id, Status::Active)
                || !queue.txns.dom().contains(id))
            &&& !(res matches Ok(Some(_))) ==> chain.commits(id).0 == chain
        }),
{
}

/// A commit which is not refused, and is no repetition, goes on to publish exactly the pending
/// records of the transaction, of whatever kind they are. Only a transaction without any is left to
/// the subject alone. The receipt is left at once, and from here on a failure interrupts the chain.
pub proof fn law_commits_publish_whatever_is_pending(chain: ChainView, id: TxnId, replies: Seq<Reply>)
    requires
        chain.commits(id).1 matches Ok(Some(_)),
    ensures
        ({
            let queue = chain.queue;
            let (next, res) = chain.commits(id);
            &&& pending(queue, id).len() > 0 ==> {
                &&& res == Ok::<_, ChainError>(Some(EffectView::ReadCommitted))
                &&& next.procedure == (ProcedureView::Publishing { id, records: pending(queue, id) })
            }
            &&& pending(queue, id).len() == 0 ==> {
                &&& res == Ok::<_, ChainError>(Some(EffectView::CommitSubject(id)))
                &&& asked(next, replies).len() == 0
            }
            &&& next.queue.txns == queue.txns.insert(
                id,
                EntryView { status: Status::Committed, records: Seq::empty() },
            )
            &&& next.queue.exclusion == (Exclusion::Lifecycle { armed: true })
            &&& next.queue.frontier == queue.frontier
            &&& next.queue.capacity == queue.capacity
            &&& !next.queue.interrupted
        }),
{
    if pending(chain.queue, id).len() == 0 {
        law_scripts_are_followed(chain.commits(id).0, replies);
    }
}

/// What a commit asks for: each synchronized capture is one to which a pending record refers; the
/// published file is the one which was read, with just the pending records under the transaction;
/// it is published only if the transaction is not in it already, and only after every capture to
/// which a pending record refers is synchronized; and the subject commits directly after it is
/// published.
pub proof fn law_commits_synchronize_publish_and_then_show(
    chain: ChainView,
    id: TxnId,
    replies: Seq<Reply>,
    k: int,
    other: TxnId,
    j: int,
)
    requires
        chain.commits(id).1 matches Ok(Some(_)),
        pending(chain.queue, id).len() > 0,
        0 <= k < asked(chain.commits(id).0, replies).len(),
    ensures
        replies[0] matches Reply::Committed(file) && {
            let performed = asked(chain.commits(id).0, replies);
            let records = pending(chain.queue, id);
            let history = file@.block.history;
            match performed[k] {
                EffectView::SyncCapture(name) => exists|i: int|
                    0 <= i < records.len() && (refers(#[trigger] records[i]) matches Some(found)
                        && found.name@ == name),
                EffectView::Publish(next) => {
                    &&& next.frontier == file@.frontier
                    &&& next.materializing == file@.materializing
                    &&& next.block.previous_hash == file@.block.previous_hash
                    &&& !has_entry(history, id)
                    &&& forall|a: int| 0 <= a < k ==> !(#[trigger] performed[a] is Publish)
                    &&& ascending(history) ==> {
                        &&& next.block.history.contains((id, records))
                        &&& ascending(next.block.history)
                        &&& other != id ==> has_entry(next.block.history, other) == has_entry(
                            history,
                            other,
                        )
                        &&& other != id && has_entry(history, other) ==> entry_of(
                            next.block.history,
                            other,
                        ) == entry_of(history, other)
                    }
                    &&& 0 <= j < records.len() ==> {
                        &&& !misrefers(records[j])
                        &&& refers(records[j]) matches Some(found) ==> performed.take(k).contains(
                            EffectView::SyncCapture(found.name@),
                        )
                    }
                },
                EffectView::CommitSubject(shown) => shown == id && k > 0 && performed[k - 1]
                    is Publish,
                _ => false,
            }
        },
{
    let next = chain.commits(id).0;
    let records = pending(chain.queue, id);
    let performed = asked(next, replies);
    law_commits_publish_before_they_become_visible(next, id, records, replies);
    let file = replies[0]->Committed_0@;
    let names = captures(records);
    let n = performed.len() as int;
    assert(!any_malformed(records));
    if has_entry(file.block.history, id) {
        let script = sync_script(names);
        assert(performed[k] == script.subrange(0, n)[k]);
        assert(performed[k] == EffectView::SyncCapture(names[k]));
        assert(names.contains(names[k]));
        law_requests_name_every_capture(records, names[k]);
    } else {
        let script = commit_script(file, id, records);
        assert forall|i: int| 0 <= i < n implies performed[i] == #[trigger] script[i] by {
            assert(performed[i] == script.subrange(0, n)[i]);
        }
        if k < names.len() {
            assert(performed[k] == script[k]);
            assert(names.contains(names[k]));
            law_requests_name_every_capture(records, names[k]);
        } else if k == names.len() {
            assert(performed[k] == script[k]);
            assert forall|a: int| 0 <= a < k implies !(#[trigger] performed[a] is Publish) by {
                assert(performed[a] == script[a]);
            }
            if ascending(file.block.history) {
                law_publication_changes_nothing_else(file, id, records, other);
            }
            if 0 <= j < records.len() {
                law_requests_name_every_capture(records, Seq::empty());
                if let Some(found) = refers(records[j]) {
                    law_requests_name_every_capture(records, found.name@);
                    let m = choose|m: int| 0 <= m < names.len() && names[m] == found.name@;
                    assert(performed[m] == script[m]);
                    assert(performed.take(k)[m] == EffectView::SyncCapture(found.name@));
                }
            }
        } else {
            assert(performed[k] == script[k]);
            assert(performed[k - 1] == script[k - 1]);
        }
    }
}

/// A commit with pending records which succeeds has published them and then shown them: its last
/// two effects are these. Nothing remains in the queue but the receipt. If the committed file holds
/// the transaction already, or a record is malformed, the commit does not succeed.
pub proof fn law_successful_commits_have_published(chain: ChainView, id: TxnId, replies: Seq<Reply>)
    requires
        chain.commits(id).1 matches Ok(Some(_)),
        pending(chain.queue, id).len() > 0,
        finished(chain.commits(id).0, replies) is Some,
    ensures
        ({
            let performed = asked(chain.commits(id).0, replies);
            &&& performed.len() >= 2
            &&& performed[performed.len() - 2] is Publish
            &&& performed[performed.len() - 1] == EffectView::CommitSubject(id)
        }),
        replies[0] matches Reply::Committed(file) && !has_entry(file@.block.history, id),
        forall|i: int|
            0 <= i < pending(chain.queue, id).len() ==> !misrefers(
                #[trigger] pending(chain.queue, id)[i],
            ),
{
    let next = chain.commits(id).0;
    let records = pending(chain.queue, id);
    law_acknowledged_commits_are_durable_and_visible(next, id, records, replies);
    law_requests_name_every_capture(records, Seq::empty());
}

/// A commit which succeeds leaves the receipt of its transaction, and nothing else: no other
/// transaction is changed, nor the cutoff, and nobody is excluded any more.
pub proof fn law_successful_commits_leave_a_receipt(
    chain: ChainView,
    id: TxnId,
    replies: Seq<Reply>,
)
    requires
        chain.commits(id).1 matches Ok(Some(_)),
    ensures
        finished(chain.commits(id).0, replies) matches Some(after) ==> {
            &&& after.procedure is Idle
            &&& after.queue.txns == chain.queue.txns.insert(
                id,
                EntryView { status: Status::Committed, records: Seq::empty() },
            )
            &&& after.queue.frontier == chain.queue.frontier
            &&& after.queue.capacity == chain.queue.capacity
            &&& after.queue.exclusion == Exclusion::Free
            &&& !after.queue.interrupted
        },
{
    let next = chain.commits(id).0;
    if replies.len() > 0 {
        if next.procedure is Running {
            lemma_commit_ends(next, id, replies);
        } else {
            match next.advanced(replies[0]) {
                (running, Ok(Some(_))) => {
                    lemma_commit_script(replies[0]->Committed_0@, id, pending(chain.queue, id));
                    lemma_commit_ends(running, id, replies.skip(1));
                },
                _ => {},
            }
        }
    }
}

/// The effects of a commit leave no receipt but that of its transaction.
spec fn shows_only(script: Seq<EffectView>, id: TxnId) -> bool {
    forall|i: int|
        0 <= i < script.len() ==> {
            &&& #[trigger] script[i] matches EffectView::CommitSubject(other) ==> other == id
            &&& !(script[i] is ReadCommitted)
        }
}

proof fn lemma_commit_script(file: FileView, id: TxnId, records: Seq<MutationRecord>)
    ensures
        shows_only(commit_script(file, id, records), id),
        shows_only(sync_script(captures(records)), id),
        shows_only(commit_script(file, id, records).skip(1), id),
        captures(records).len() > 0 ==> shows_only(sync_script(captures(records)).skip(1), id),
{
}

proof fn lemma_commit_ends(chain: ChainView, id: TxnId, replies: Seq<Reply>)
    requires
        chain.procedure matches ProcedureView::Running { expect, rest, ending } && {
            &&& ending is Acknowledge || ending is AlreadyPublished
            &&& shows_only(rest, id)
            &&& expect matches ExpectView::Receipt(other) ==> other == id
        },
        chain.queue.is(id, Status::Committed),
        chain.queue.exclusion is Lifecycle,
    ensures
        finished(chain, replies) matches Some(after) ==> after == (ChainView {
            queue: chain.queue.exclusive(Exclusion::Free),
            procedure: ProcedureView::Idle,
        }),
    decreases replies.len(),
{
    if replies.len() > 0 {
        let rest = chain.procedure->rest;
        match chain.advanced(replies[0]) {
            (next, Ok(Some(effect))) => {
                assert(effect == rest[0]);
                assert forall|i: int| 0 <= i < rest.skip(1).len() implies {
                    &&& #[trigger] rest.skip(1)[i] matches EffectView::CommitSubject(other)
                        ==> other == id
                    &&& !(rest.skip(1)[i] is ReadCommitted)
                } by {
                    assert(rest.skip(1)[i] == rest[i + 1]);
                }
                lemma_commit_ends(next, id, replies.skip(1));
            },
            _ => {},
        }
    }
}

/// A rollback is refused exactly if the chain is interrupted or busy, or if the transaction is
/// finalized, has an unfinished request, or is committed; the refusal says which, and changes
/// nothing. A repeated rollback succeeds at once, and changes nothing. Every other is left to the
/// subject: it is asked to roll back just this transaction, and a failure interrupts the chain.
pub proof fn law_rollbacks_are_left_to_the_subject(chain: ChainView, id: TxnId, replies: Seq<Reply>)
    ensures
        ({
            let queue = chain.queue;
            let (next, res) = chain.rolls_back(id);
            let current = available(queue) && !passed(queue, id);
            &&& res == Err::<Option<EffectView>, _>(ChainError::Interrupted) <==> queue.interrupted
            &&& res == Err::<Option<EffectView>, _>(ChainError::Busy) <==> !queue.interrupted
                && queue.exclusion != Exclusion::Free
            &&& res == Err::<Option<EffectView>, _>(ChainError::Outdated) <==> available(queue)
                && passed(queue, id)
            &&& res == Err::<Option<EffectView>, _>(ChainError::Unfinished) <==> current && stands(
                queue,
                id,
                Status::Running,
            )
            &&& res == Err::<Option<EffectView>, _>(ChainError::Committed) <==> current && stands(
                queue,
                id,
                Status::Committed,
            )
            &&& res == Ok::<_, ChainError>(None::<EffectView>) <==> current && stands(
                queue,
                id,
                Status::RolledBack,
            )
            &&& res == Ok::<_, ChainError>(Some(EffectView::RollbackSubject(id))) <==> current && (
            stands(queue, id, Status::Active) || stands(queue, id, Status::Failed)
                || !queue.txns.dom().contains(id))
            &&& !(res matches Ok(Some(_))) ==> next == chain
            &&& res matches Ok(Some(_)) ==> {
                &&& asked(next, replies).len() == 0
                &&& next.queue.txns == queue.txns
                &&& next.queue.frontier == queue.frontier
                &&& next.queue.exclusion == (Exclusion::Lifecycle { armed: true })
            }
        }),
{
    if let Ok(Some(_)) = chain.rolls_back(id).1 {
        law_scripts_are_followed(chain.rolls_back(id).0, replies);
    }
}

/// A rollback which the subject performed discards the records of the transaction and leaves its
/// receipt, and nothing else.
pub proof fn law_rollbacks_discard_the_records(chain: ChainView, id: TxnId, replies: Seq<Reply>)
    requires
        chain.rolls_back(id).1 matches Ok(Some(_)),
    ensures
        replies.len() > 0 && replies[0] == Reply::Done <==> finished(
            chain.rolls_back(id).0,
            replies,
        ) is Some,
        finished(chain.rolls_back(id).0, replies) matches Some(after) ==> {
            &&& after.procedure is Idle
            &&& after.queue.txns == chain.queue.txns.insert(
                id,
                EntryView { status: Status::RolledBack, records: Seq::empty() },
            )
            &&& after.queue.frontier == chain.queue.frontier
            &&& after.queue.capacity == chain.queue.capacity
            &&& after.queue.exclusion == Exclusion::Free
            &&& !after.queue.interrupted
        },
{
    if replies.len() > 0 {
        let step = chain.rolls_back(id).0.advanced(replies[0]);
        assert(finished(chain.rolls_back(id).0, replies) == match step {
            (next, Ok(None)) => Some(next),
            (next, Ok(Some(_))) => finished(next, replies.skip(1)),
            (_, Err(_)) => None,
        });
    }
}

/// A finalization is refused exactly if the chain is interrupted or busy, or if a transaction at or
/// before the cutoff has an unfinished request; the refusal says which, and changes nothing. Every
/// other first reads the committed file.
pub proof fn law_finalizations_are_refused_for_a_reason(chain: ChainView, cutoff: TxnId)
    ensures
        ({
            let queue = chain.queue;
            let (next, res) = chain.begins_to_finalize(cutoff);
            let unfinished = exists|id: TxnId|
                #[trigger] stands(queue, id, Status::Running) && !cutoff.before(id);
            &&& res == Err::<Option<EffectView>, _>(ChainError::Interrupted) <==> queue.interrupted
            &&& res == Err::<Option<EffectView>, _>(ChainError::Busy) <==> !queue.interrupted
                && queue.exclusion != Exclusion::Free
            &&& res == Err::<Option<EffectView>, _>(ChainError::Unfinished) <==> available(queue)
                && unfinished
            &&& res == Ok::<_, ChainError>(Some(EffectView::ReadCommitted)) <==> available(queue)
                && !unfinished
            &&& res is Err ==> next == chain
            &&& res is Ok ==> {
                &&& next.procedure == (ProcedureView::Finalizing { cutoff })
                &&& next.queue.txns == queue.txns
                &&& next.queue.frontier == queue.frontier
                &&& next.queue.exclusion == (Exclusion::Lifecycle { armed: false })
            }
        }),
{
    let queue = chain.queue;
    if exists|id: TxnId| #[trigger] stands(queue, id, Status::Running) && !cutoff.before(id) {
        let id = choose|id: TxnId|
            #[trigger] stands(queue, id, Status::Running) && !cutoff.before(id);
        assert(begun(queue).is(id, Status::Running) && covered(Some(cutoff), id));
    }
    if begun(queue).unfinished_through(cutoff) {
        let id = choose|id: TxnId| #[trigger]
            begun(queue).is(id, Status::Running) && covered(Some(cutoff), id);
        assert(stands(queue, id, Status::Running) && !cutoff.before(id));
    }
}

/// Whether a file retains a transaction at or before a cutoff.
pub open spec fn retains_through(file: FileView, cutoff: TxnId) -> bool {
    exists|i: int|
        0 <= i < file.block.history.len() && !cutoff.before((#[trigger] file.block.history[i]).0)
}

/// What a finalization asks for. The subject is finalized once, at just the cutoff; if the file
/// retains a transaction which the cutoff covers, then only while the committed file, otherwise
/// unchanged, says that the canonical update is unfinished. The file without the covered
/// transactions is published only after the subject is finalized, and, if it retained one, only
/// after the subject is synchronized in between. If it retained none, there is neither such an
/// intent nor a synchronization.
pub proof fn law_finalizations_synchronize_before_they_forget(
    chain: ChainView,
    cutoff: TxnId,
    replies: Seq<Reply>,
    k: int,
    id: TxnId,
)
    requires
        chain.procedure == (ProcedureView::Finalizing { cutoff }),
        0 <= k < asked(chain, replies).len(),
    ensures
        replies[0] matches Reply::Committed(file) && {
            let performed = asked(chain, replies);
            let history = file@.block.history;
            match performed[k] {
                EffectView::Publish(next) => {
                    &&& next.block.previous_hash == file@.block.previous_hash
                    &&& next.materializing is Some ==> {
                        &&& next.materializing == Some(cutoff)
                        &&& next.frontier == file@.frontier
                        &&& next.block.history == history
                        &&& retains_through(file@, cutoff)
                        &&& forall|a: int|
                            0 <= a < k ==> !(#[trigger] performed[a] is FinalizeSubject)
                    }
                    &&& next.materializing is None ==> {
                        &&& next.frontier == Some(cutoff)
                        &&& exists|a: int|
                            0 <= a < k && #[trigger] performed[a] == EffectView::FinalizeSubject(
                                cutoff,
                            )
                        &&& retains_through(file@, cutoff) ==> exists|a: int, b: int|
                            #![trigger performed[a], performed[b]]
                            0 <= a < b < k && performed[a] == EffectView::FinalizeSubject(cutoff)
                                && performed[b] == EffectView::SyncSubject && forall|c: int|
                                b <= c < k ==> !(#[trigger] performed[c] is FinalizeSubject)
                        &&& ascending(history) ==> {
                            &&& ascending(next.block.history)
                            &&& has_entry(next.block.history, id) <==> has_entry(history, id)
                                && cutoff.before(id)
                            &&& has_entry(next.block.history, id) ==> entry_of(
                                next.block.history,
                                id,
                            ) == entry_of(history, id)
                        }
                    }
                },
                EffectView::FinalizeSubject(through) => {
                    &&& through == cutoff
                    &&& forall|a: int| 0 <= a < k ==> !(#[trigger] performed[a] is FinalizeSubject)
                    &&& retains_through(file@, cutoff) ==> {
                        &&& durable(Some(file@), performed.take(k)) matches Some(intent)
                        &&& intent.materializing == Some(cutoff)
                        &&& intent.block == file@.block
                    }
                },
                EffectView::SyncSubject => {
                    &&& retains_through(file@, cutoff)
                    &&& exists|a: int|
                        0 <= a < k && #[trigger] performed[a] == EffectView::FinalizeSubject(cutoff)
                },
                _ => false,
            }
        },
{
    law_finalizations_follow_their_script(chain, cutoff, replies);
    let performed = asked(chain, replies);
    let file = replies[0]->Committed_0@;
    let script = finalize_script(file, cutoff);
    let n = performed.len() as int;
    assert forall|i: int| 0 <= i < n implies performed[i] == #[trigger] script[i] by {
        assert(performed[i] == script.subrange(0, n)[i]);
    }
    law_files_cover_what_they_retain(file, cutoff);
    if ascending(file.block.history) {
        law_finalization_changes_nothing_else(file, cutoff, id);
    }
    assert(performed[k] == script[k]);
    if file.covers(cutoff) {
        assert(k < 4);
        if k == 1 {
            let first = performed.take(1);
            assert(performed[0] == script[0]);
            assert(first.last() == EffectView::Publish(file.with_intent(cutoff)));
        } else if k == 2 {
            assert(performed[1] == script[1]);
        } else if k == 3 {
            assert(performed[1] == script[1]);
            assert(performed[2] == script[2]);
            assert(performed[1] == EffectView::FinalizeSubject(cutoff) && performed[2]
                == EffectView::SyncSubject);
            assert forall|c: int| 2 <= c < 3 implies !(
            #[trigger] performed[c] is FinalizeSubject) by {
                assert(c == 2);
            }
        }
    } else {
        assert(k < 2);
        if k == 1 {
            assert(performed[0] == script[0]);
        }
    }
}

/// A finalization which succeeds has published the file without the covered transactions as its
/// last effect, unless the file says that the cutoff is finalized already: then it has done
/// nothing.
pub proof fn law_successful_finalizations_have_published(
    chain: ChainView,
    cutoff: TxnId,
    replies: Seq<Reply>,
)
    requires
        chain.procedure == (ProcedureView::Finalizing { cutoff }),
        finished(chain, replies) is Some,
    ensures
        replies[0] matches Reply::Committed(file) && {
            let performed = asked(chain, replies);
            let earlier = file@.frontier matches Some(done) && !done.before(cutoff);
            &&& earlier <==> performed.len() == 0
            &&& !earlier ==> {
                &&& performed.last() matches EffectView::Publish(next)
                &&& next.materializing is None
                &&& next.frontier == Some(cutoff)
            }
        },
{
    law_acknowledged_finalizations_are_durable(chain, cutoff, replies);
}

/// A finalization which succeeds has the queue forget all transactions at or before the cutoff, and
/// no other, and refuse them from now on; if the file says that the cutoff is finalized already, the
/// queue is not changed.
pub proof fn law_finalizations_forget_what_the_cutoff_covers(
    chain: ChainView,
    cutoff: TxnId,
    replies: Seq<Reply>,
    id: TxnId,
)
    requires
        chain.procedure == (ProcedureView::Finalizing { cutoff }),
    ensures
        finished(chain, replies) matches Some(after) ==> {
            &&& replies[0] matches Reply::Committed(file)
            &&& after.procedure is Idle
            &&& after.queue.exclusion == Exclusion::Free
            &&& after.queue.interrupted == chain.queue.interrupted
            &&& after.queue.capacity == chain.queue.capacity
            &&& if file@.frontier matches Some(done) && !done.before(cutoff) {
                &&& after.queue.txns == chain.queue.txns
                &&& after.queue.frontier == chain.queue.frontier
            } else {
                &&& after.queue.txns.dom().contains(id) <==> chain.queue.txns.dom().contains(id)
                    && cutoff.before(id)
                &&& after.queue.txns.dom().contains(id) ==> after.queue.txns[id]
                    == chain.queue.txns[id]
                &&& after.queue.frontier == if passed(chain.queue, cutoff) {
                    chain.queue.frontier
                } else {
                    Some(cutoff)
                }
            }
        },
{
    if replies.len() > 0 {
        match chain.advanced(replies[0]) {
            (running, Ok(Some(_))) => {
                let file = replies[0]->Committed_0@;
                let script = finalize_script(file, cutoff);
                assert forall|i: int| 0 <= i < script.skip(1).len() implies !(
                #[trigger] script.skip(1)[i] is CommitSubject) by {
                    assert(script.skip(1)[i] == script[i + 1]);
                }
                lemma_finalization_ends(running, cutoff, replies.skip(1));
            },
            _ => {},
        }
    }
}

proof fn lemma_finalization_ends(chain: ChainView, cutoff: TxnId, replies: Seq<Reply>)
    requires
        chain.procedure matches ProcedureView::Running { expect, rest, ending } && {
            &&& ending == EndingView::Finalize(cutoff)
            &&& !(expect is Receipt)
            &&& forall|i: int| 0 <= i < rest.len() ==> !(#[trigger] rest[i] is CommitSubject)
        },
    ensures
        finished(chain, replies) matches Some(after) ==> after == (ChainView {
            queue: chain.queue.finalized(cutoff).exclusive(Exclusion::Free),
            procedure: ProcedureView::Idle,
        }),
    decreases replies.len(),
{
    if replies.len() > 0 {
        let rest = chain.procedure->rest;
        match chain.advanced(replies[0]) {
            (next, Ok(Some(effect))) => {
                assert(effect == rest[0]);
                assert forall|i: int| 0 <= i < rest.skip(1).len() implies !(
                #[trigger] rest.skip(1)[i] is CommitSubject) by {
                    assert(rest.skip(1)[i] == rest[i + 1]);
                }
                lemma_finalization_ends(next, cutoff, replies.skip(1));
            },
            _ => {},
        }
    }
}

/// A log is created by synchronizing the subject and then creating a file without history, cutoff
/// and predecessor.
pub proof fn law_creations_synchronize_before_they_publish()
    ensures
        create_script().len() == 2,
        create_script()[0] == EffectView::SyncSubject,
        create_script()[1] matches EffectView::CreateCommitted(file) && {
            &&& file.frontier is None
            &&& file.materializing is None
            &&& file.block.history.len() == 0
            &&& file.block.previous_hash == Seq::new(32, |i: int| 0u8)
        },
{
    assert(null_hash() =~= Seq::new(32, |i: int| 0u8));
}

/// A log is created only around a persistent subject, in empty storage, with a queue which has
/// neither transactions nor a cutoff; it is loaded only with such a queue, which a recovery does not
/// change when it begins to read the committed file.
pub proof fn law_openings_are_refused_for_a_reason(
    persistent: bool,
    root_empty: bool,
    values_empty: bool,
    queue: QueueView<MutationRecord>,
)
    ensures
        ({
            let fresh = queue.frontier is None && forall|id: TxnId| !#[trigger]
                queue.txns.dom().contains(id);
            let created = create_refusal(persistent, root_empty, values_empty, queue);
            let loaded = load_refusal(queue);
            &&& created == Some(ChainError::NotPersistent) <==> !persistent
            &&& created == Some(ChainError::StorageNotEmpty) <==> persistent && !(root_empty
                && values_empty)
            &&& created == Some(ChainError::QueueNotFresh) <==> persistent && root_empty
                && values_empty && !fresh
            &&& created is None <==> persistent && root_empty && values_empty && fresh && available(
                queue,
            )
            &&& loaded == Some(ChainError::QueueNotFresh) <==> !fresh
            &&& loaded is None <==> fresh && available(queue)
            &&& loaded == Some(ChainError::Interrupted) <==> fresh && queue.interrupted
            &&& created == Some(ChainError::Interrupted) <==> persistent && root_empty
                && values_empty && fresh && queue.interrupted
        }),
        ({
            let (opening, res) = asks(
                begun(queue),
                ProcedureView::Reading,
                EffectView::ReadCommitted,
            );
            &&& res == Ok::<_, ChainError>(Some(EffectView::ReadCommitted))
            &&& opening.procedure is Reading
            &&& opening.queue.txns == queue.txns
            &&& opening.queue.frontier == queue.frontier
            &&& opening.queue.capacity == queue.capacity
            &&& opening.queue.interrupted == queue.interrupted
            &&& opening.queue.exclusion == (Exclusion::Lifecycle { armed: false })
        }),
{
    if forall|id: TxnId| !#[trigger] queue.txns.dom().contains(id) {
        assert(queue.txns =~= Map::<TxnId, EntryView<MutationRecord>>::empty());
    }
}

/// A file which was read for a recovery is refused exactly for one of these reasons, and otherwise
/// the subject is loaded: an unfinished canonical update, a predecessor, a transaction without a
/// record or at or before the cutoff, or a malformed reference in any record of any transaction.
pub proof fn law_recoveries_are_refused_for_a_reason(
    chain: ChainView,
    file: ChainFile,
)
    requires
        chain.procedure is Reading,
    ensures
        ({
            let res = chain.advanced(Reply::Committed(file)).1;
            let history = file@.block.history;
            let conflicting = exists|i: int|
                0 <= i < history.len() && ((#[trigger] history[i]).1.len() == 0 || (
                file@.frontier matches Some(cutoff) && !cutoff.before(history[i].0)));
            let malformed = exists|i: int, j: int|
                0 <= i < history.len() && 0 <= j < history[i].1.len() && misrefers(
                    #[trigger] history[i].1[j],
                );
            let updating = file@.materializing is Some;
            let follows = file@.block.previous_hash != Seq::new(32, |i: int| 0u8);
            &&& res == Ok::<_, ChainError>(Some(EffectView::LoadSubject)) <==> !updating
                && !follows && !conflicting && !malformed
            &&& res == Err::<Option<EffectView>, _>(ChainError::RecoveryRequired) <==> updating
            &&& res == Err::<Option<EffectView>, _>(ChainError::InvalidPredecessor) <==> !updating
                && follows
            &&& res == Err::<Option<EffectView>, _>(ChainError::ConflictingTransaction)
                <==> !updating && !follows && conflicting
            &&& res == Err::<Option<EffectView>, _>(ChainError::InvalidReference) <==> !updating
                && !follows && !conflicting && malformed
        }),
{
    law_files_are_refused_for_a_reason(file@);
    law_histories_name_every_capture(file@.history(), Seq::empty());
}

/// Whether an operation waits for the reply to an effect.
pub open spec fn awaits(procedure: ProcedureView, effect: EffectView) -> bool {
    match procedure {
        ProcedureView::Idle => false,
        ProcedureView::Publishing { .. } => effect is ReadCommitted,
        ProcedureView::Finalizing { .. } => effect is ReadCommitted,
        ProcedureView::Reading => effect is ReadCommitted,
        ProcedureView::Loading { .. } => effect is LoadSubject,
        ProcedureView::Running { expect, .. } => expect == effect.expect() && !(
        effect is ReadCommitted) && !(effect is LoadSubject) && !(effect is ListCaptures),
        ProcedureView::Listing { .. } => effect is ListCaptures,
    }
}

/// Whether a reply says why an effect was not performed.
pub open spec fn explained(effect: EffectView, reply: Reply) -> bool {
    match reply {
        Reply::Failed(_) => true,
        Reply::Missing => effect is ReadCommitted || effect is SyncCapture,
        Reply::Subject { .. } => effect is LoadSubject,
        Reply::Transaction(_) => effect is RequestTransaction,
        Reply::Resolved(_) => effect is Resolve,
        _ => false,
    }
}

/// An operation goes on only if the effect which it asked for was performed; otherwise it fails,
/// and says why.
pub proof fn law_operations_fail_with_their_effects(
    chain: ChainView,
    effect: EffectView,
    reply: Reply,
)
    requires
        awaits(chain.procedure, effect),
    ensures
        ({
            let res = chain.advanced(reply).1;
            &&& res is Ok ==> answers(effect, reply)
            &&& reply matches Reply::Failed(error) ==> res == Err::<Option<EffectView>, _>(error)
            &&& effect is ReadCommitted && reply is Missing ==> res == Err::<Option<EffectView>, _>(
                ChainError::MissingBlock,
            )
            &&& effect is LoadSubject && reply == (Reply::Subject { persistent: false }) ==> res
                == Err::<Option<EffectView>, _>(ChainError::NotPersistent)
            &&& effect is SyncCapture && reply is Missing ==> res
                == Err::<Option<EffectView>, _>(ChainError::MissingCollection)
            &&& effect matches EffectView::RequestTransaction(id) ==> (
            reply matches Reply::Transaction(given) ==> (given != id ==> res == Err::<
                Option<EffectView>,
                _,
            >(ChainError::IdentityMismatch)))
            &&& effect matches EffectView::Resolve(_, found) ==> (reply matches Reply::Resolved(
                resolution,
            ) ==> (resolution_refusal(found.name@, resolution) matches Some(error) ==> res == Err::<
                Option<EffectView>,
                _,
            >(error)))
            &&& !answers(effect, reply) && !explained(effect, reply) ==> res == Err::<
                Option<EffectView>,
                _,
            >(ChainError::UnexpectedReply)
        }),
{
}

/// What an operation fails with leaves the transactions and the cutoff as they were; the chain is
/// interrupted exactly if the operation was armed.
pub proof fn law_failures_change_no_decision(chain: ChainView, reply: Reply)
    requires
        sound(chain),
    ensures
        ({
            let (next, res) = chain.advanced(reply);
            reply is Failed || (res is Err && chain.procedure is Running && !(
            chain.procedure->expect is Receipt) && !(chain.procedure->ending is Replay)) ==> {
                &&& next.queue.txns == chain.queue.txns
                &&& next.queue.frontier == chain.queue.frontier
                &&& next.procedure is Idle
                &&& next.queue.interrupted == (chain.queue.interrupted || chain.queue.exclusion
                    == (Exclusion::Lifecycle { armed: true }))
                &&& !(next.queue.exclusion is Lifecycle)
            }
        }),
{
}

/// A cancelled operation leaves the transactions and the cutoff as they were; the chain is
/// interrupted exactly if the operation was armed.
pub proof fn law_cancellation_changes_no_decision(chain: ChainView)
    requires
        sound(chain),
    ensures
        ({
            let next = chain.cancelled();
            &&& next.queue.txns == chain.queue.txns
            &&& next.queue.frontier == chain.queue.frontier
            &&& next.queue.capacity == chain.queue.capacity
            &&& next.procedure is Idle
            &&& next.queue.interrupted == (chain.queue.interrupted || chain.queue.exclusion == (
            Exclusion::Lifecycle { armed: true }))
            &&& next.queue.exclusion == if chain.queue.exclusion is Lifecycle {
                Exclusion::Free
            } else {
                chain.queue.exclusion
            }
        }),
{
}

/// Whether what remains of a script stands in scripts only: the committed file is read, the subject
/// loaded and the captures listed between scripts.
pub open spec fn plain(chain: ChainView) -> bool {
    chain.procedure matches ProcedureView::Running { rest, .. } ==> forall|i: int|
        0 <= i < rest.len() ==> !(#[trigger] rest[i] is ReadCommitted) && !(
        rest[i] is LoadSubject) && !(rest[i] is ListCaptures)
}

/// What an operation asks for, it waits for.
pub proof fn law_operations_await_what_they_ask_for(chain: ChainView, reply: Reply, id: TxnId)
    requires
        plain(chain),
    ensures
        chain.advanced(reply) matches (next, Ok(Some(effect))) ==> plain(next) && awaits(
            next.procedure,
            effect,
        ),
        chain.commits(id) matches (next, Ok(Some(effect))) ==> plain(next) && awaits(
            next.procedure,
            effect,
        ),
        chain.rolls_back(id) matches (next, Ok(Some(effect))) ==> plain(next) && awaits(
            next.procedure,
            effect,
        ),
        chain.begins_to_finalize(id) matches (next, Ok(Some(effect))) ==> plain(next) && awaits(
            next.procedure,
            effect,
        ),
{
    match chain.procedure {
        ProcedureView::Loading { file, .. } => {
            lemma_validation_only_verifies(file.history());
            lemma_history_kinds(file.history());
        },
        ProcedureView::Running { ending: EndingView::Replay(file, _), .. } => {
            lemma_history_kinds(file.history());
        },
        _ => {},
    }
}

/// An operation goes on, or succeeds, only if each effect which it asked for so far was performed
/// with what the operation needs: a verified collection is the one named, a capability is that of
/// the transaction, and everything else is reported as done.
pub proof fn law_operations_go_on_only_when_effects_are_performed(
    chain: ChainView,
    replies: Seq<Reply>,
    k: int,
)
    requires
        plain(chain),
        0 <= k < asked(chain, replies).len(),
        k + 1 < asked(chain, replies).len() || finished(chain, replies) is Some,
    ensures
        k + 1 < replies.len(),
        answers(asked(chain, replies)[k], replies[k + 1]),
    decreases replies.len(),
{
    match chain.advanced(replies[0]) {
        (next, Ok(Some(effect))) => {
            law_operations_await_what_they_ask_for(chain, replies[0], arbitrary());
            let rest = replies.skip(1);
            assert(asked(chain, replies) == seq![effect] + asked(next, rest));
            if k == 0 {
                assert(rest.len() > 0);
                law_operations_fail_with_their_effects(next, effect, rest[0]);
                assert(rest[0] == replies[1]);
            } else {
                law_operations_go_on_only_when_effects_are_performed(next, rest, k - 1);
                assert(asked(chain, replies)[k] == asked(next, rest)[k - 1]);
                assert(rest[k] == replies[k + 1]);
            }
        },
        _ => {},
    }
}

} // verus!
