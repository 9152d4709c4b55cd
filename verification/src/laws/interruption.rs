//! Interruption: from which effect on a lifecycle operation cannot be abandoned without a trace.

use vstd::prelude::*;

use crate::block::History;
use crate::chain::{armed, create_script, runs, sound, ChainView, EndingView, ProcedureView};
use crate::effect::{EffectView, Reply};
use crate::error::ChainError;
use crate::file::FileView;
use crate::laws::durability::{asked, finished, law_scripts_are_followed};
use crate::laws::operations::{available, passed, pending};
use crate::laws::recovery::lemma_validation_only_verifies;
use crate::laws::success::answers;
use crate::laws::values::{law_requests_name_every_capture, misrefers};
use crate::map::has_entry;
use crate::queue::{EntryView, Exclusion, QueueView, Status};
use crate::record::MutationRecord;
use crate::script::{finalize_script, replay_history, replay_script, sync_script};
use crate::store::{any_malformed, captures};
use crate::txn::TxnId;

verus! {

/// The chain once it got replies.
pub open spec fn reached(chain: ChainView, replies: Seq<Reply>) -> ChainView
    decreases replies.len(),
{
    if replies.len() == 0 {
        chain
    } else {
        reached(chain.advanced(replies[0]).0, replies.skip(1))
    }
}

/// What an operation fails with, if the replies lead there.
pub open spec fn broken(chain: ChainView, replies: Seq<Reply>) -> Option<ChainError>
    decreases replies.len(),
{
    if replies.len() == 0 {
        None
    } else {
        match chain.advanced(replies[0]) {
            (_, Err(error)) => Some(error),
            (next, Ok(Some(_))) => broken(next, replies.skip(1)),
            (_, Ok(None)) => None,
        }
    }
}

/// Whether abandoning the operation would interrupt the chain.
pub open spec fn is_armed(chain: ChainView) -> bool {
    chain.queue.exclusion == (Exclusion::Lifecycle { armed: true })
}

/// Whether an operation has no validation before it.
spec fn settled(procedure: ProcedureView) -> bool {
    match procedure {
        ProcedureView::Running { ending, .. } => !(ending is Replay),
        ProcedureView::Listing { .. } => true,
        ProcedureView::Publishing { .. } => true,
        _ => false,
    }
}

proof fn lemma_stays_armed(chain: ChainView, replies: Seq<Reply>)
    requires
        is_armed(chain),
        settled(chain.procedure),
        asked(chain, replies).len() == replies.len(),
    ensures
        is_armed(reached(chain, replies)),
    decreases replies.len(),
{
    if replies.len() > 0 {
        match chain.advanced(replies[0]) {
            (next, Ok(Some(effect))) => {
                lemma_stays_armed(next, replies.skip(1));
            },
            _ => {},
        }
    }
}

/// From its first effect on, a commit cannot be abandoned without interrupting the chain; nor can a
/// rollback.
pub proof fn law_decisions_stay_armed(chain: ChainView, id: TxnId, replies: Seq<Reply>)
    ensures
        ({
            let (next, res) = chain.commits(id);
            res matches Ok(Some(_)) ==> (asked(next, replies).len() == replies.len() ==> is_armed(
                reached(next, replies),
            ))
        }),
        ({
            let (next, res) = chain.rolls_back(id);
            res matches Ok(Some(_)) ==> (asked(next, replies).len() == replies.len() ==> is_armed(
                reached(next, replies),
            ))
        }),
{
    if let Ok(Some(_)) = chain.commits(id).1 {
        if asked(chain.commits(id).0, replies).len() == replies.len() {
            lemma_stays_armed(chain.commits(id).0, replies);
        }
    }
    if let Ok(Some(_)) = chain.rolls_back(id).1 {
        if asked(chain.rolls_back(id).0, replies).len() == replies.len() {
            lemma_stays_armed(chain.rolls_back(id).0, replies);
        }
    }
}

/// Until it has read the committed file, a finalization can be abandoned; from then on it cannot
/// without interrupting the chain.
pub proof fn law_finalizations_are_armed_once_they_have_read(
    chain: ChainView,
    cutoff: TxnId,
    replies: Seq<Reply>,
)
    requires
        chain.begins_to_finalize(cutoff).1 is Ok,
        asked(chain.begins_to_finalize(cutoff).0, replies).len() == replies.len(),
    ensures
        is_armed(reached(chain.begins_to_finalize(cutoff).0, replies)) <==> replies.len() > 0,
{
    let start = chain.begins_to_finalize(cutoff).0;
    if replies.len() > 0 {
        match start.advanced(replies[0]) {
            (next, Ok(Some(_))) => {
                lemma_stays_armed(next, replies.skip(1));
            },
            _ => {},
        }
    }
}

/// As long as a finalization asks for effects, the queue keeps every transaction and its cutoff: it
/// forgets only once the file without the covered transactions is published.
pub proof fn law_finalizations_forget_last(chain: ChainView, cutoff: TxnId, replies: Seq<Reply>)
    requires
        chain.begins_to_finalize(cutoff).1 is Ok,
        asked(chain.begins_to_finalize(cutoff).0, replies).len() == replies.len(),
    ensures
        ({
            let queue = reached(chain.begins_to_finalize(cutoff).0, replies).queue;
            &&& queue.txns == chain.queue.txns
            &&& queue.frontier == chain.queue.frontier
            &&& !queue.interrupted
        }),
{
    let start = chain.begins_to_finalize(cutoff).0;
    if replies.len() > 0 {
        match start.advanced(replies[0]) {
            (next, Ok(Some(_))) => {
                let script = finalize_script(replies[0]->Committed_0@, cutoff);
                assert forall|i: int| 0 <= i < script.skip(1).len() implies !(
                #[trigger] script.skip(1)[i] is CommitSubject) by {
                    assert(script.skip(1)[i] == script[i + 1]);
                }
                lemma_queue_waits(next, replies.skip(1));
            },
            _ => {},
        }
    }
}

proof fn lemma_queue_waits(chain: ChainView, replies: Seq<Reply>)
    requires
        chain.procedure matches ProcedureView::Running { expect, rest, ending } && {
            &&& ending is Finalize
            &&& !(expect is Receipt)
            &&& forall|i: int| 0 <= i < rest.len() ==> !(#[trigger] rest[i] is CommitSubject)
        },
        asked(chain, replies).len() == replies.len(),
    ensures
        reached(chain, replies).queue == chain.queue,
    decreases replies.len(),
{
    if replies.len() > 0 {
        let rest = chain.procedure->rest;
        match chain.advanced(replies[0]) {
            (next, Ok(Some(effect))) => {
                assert(effect == rest[0]);
                assert forall|i: int| 0 <= i < rest.skip(1).len() implies !(
                #[trigger] rest.skip(1)[i] is CommitSubject) by {
                    assert(rest.skip(1)[i] == rest[i + 1]);
                }
                lemma_queue_waits(next, replies.skip(1));
            },
            _ => {},
        }
    }
}

/// While it loads the subject and verifies the captures, a recovery can be abandoned; from the first
/// other effect on it cannot without interrupting the chain.
pub proof fn law_recoveries_are_armed_once_they_replay(chain: ChainView, replies: Seq<Reply>)
    requires
        chain.procedure is Reading,
        chain.queue.exclusion == (Exclusion::Lifecycle { armed: false }),
        asked(chain, replies).len() == replies.len(),
    ensures
        is_armed(reached(chain, replies)) <==> exists|k: int|
            0 <= k < replies.len() && !(#[trigger] asked(chain, replies)[k] is LoadSubject) && !(
            asked(chain, replies)[k] is Resolve),
{
    if replies.len() > 0 {
        match chain.advanced(replies[0]) {
            (next, Ok(Some(effect))) => {
                let rest = replies.skip(1);
                lemma_armed_by_replay(next, rest);
                let later = asked(next, rest);
                assert(asked(chain, replies) == seq![effect] + later);
                if exists|k: int| 0 <= k < rest.len() && !(#[trigger] later[k] is Resolve) {
                    let k = choose|k: int| 0 <= k < rest.len() && !(#[trigger] later[k] is Resolve);
                    lemma_no_second_load(next, rest, k);
                    let m = choose|m: int|
                        0 <= m <= k && !(#[trigger] later[m] is Resolve) && !(
                        later[m] is LoadSubject);
                    assert(asked(chain, replies)[m + 1] == later[m]);
                }
                assert forall|k: int| 0 < k < replies.len() implies #[trigger] asked(
                    chain,
                    replies,
                )[k] == later[k - 1] by {}
            },
            _ => {},
        }
    }
}

/// Whether a recovery still validates.
spec fn validating(chain: ChainView) -> bool {
    match chain.procedure {
        ProcedureView::Running { rest, ending, .. } => ending is Replay && forall|i: int|
            0 <= i < rest.len() ==> #[trigger] rest[i] is Resolve,
        ProcedureView::Loading { .. } => true,
        _ => false,
    }
}

proof fn lemma_validating_step(chain: ChainView, reply: Reply)
    requires
        validating(chain),
        chain.queue.exclusion == (Exclusion::Lifecycle { armed: false }),
        chain.procedure matches ProcedureView::Running { expect, .. } ==> !(expect is Receipt),
        chain.advanced(reply).1 matches Ok(Some(_)),
    ensures
        ({
            let (next, res) = chain.advanced(reply);
            let effect = res->Ok_0->Some_0;
            if effect is Resolve {
                &&& validating(next)
                &&& next.queue.exclusion == (Exclusion::Lifecycle { armed: false })
                &&& next.procedure matches ProcedureView::Running { expect, .. } ==> !(
                expect is Receipt)
            } else {
                is_armed(next) && settled(next.procedure)
            }
        }),
        !(chain.advanced(reply).1->Ok_0->Some_0 is LoadSubject),
{
    match chain.procedure {
        ProcedureView::Loading { file, .. } => {
            lemma_validation_only_verifies(file.history());
            lemma_replay_starts(file);
        },
        ProcedureView::Running { rest, ending: EndingView::Replay(file, _), .. } => {
            lemma_replay_starts(file);
            assert forall|i: int| 0 <= i < rest.skip(1).len() && rest.len() > 0 implies
            #[trigger] rest.skip(1)[i] is Resolve by {
                assert(rest.skip(1)[i] == rest[i + 1]);
            }
        },
        _ => {},
    }
}

/// A replay starts with a cutoff or a transaction.
proof fn lemma_replay_starts(file: FileView)
    ensures
        replay_script(file).len() > 0 ==> {
            let first = replay_script(file)[0];
            first is InitializeCutoff || first is RequestTransaction
        },
{
    lemma_history_starts(file.history());
}

proof fn lemma_history_starts(history: History)
    ensures
        replay_history(history).len() > 0 ==> replay_history(
            history,
        )[0] is RequestTransaction,
    decreases history.len(),
{
    if history.len() > 0 {
        lemma_history_starts(history.drop_last());
    }
}

proof fn lemma_armed_by_replay(chain: ChainView, replies: Seq<Reply>)
    requires
        validating(chain),
        chain.queue.exclusion == (Exclusion::Lifecycle { armed: false }),
        chain.procedure matches ProcedureView::Running { expect, .. } ==> !(expect is Receipt),
        asked(chain, replies).len() == replies.len(),
    ensures
        is_armed(reached(chain, replies)) <==> exists|k: int|
            0 <= k < replies.len() && !(#[trigger] asked(chain, replies)[k] is Resolve),
    decreases replies.len(),
{
    if replies.len() > 0 {
        match chain.advanced(replies[0]) {
            (next, Ok(Some(effect))) => {
                let rest = replies.skip(1);
                let later = asked(next, rest);
                lemma_validating_step(chain, replies[0]);
                assert(asked(chain, replies) == seq![effect] + later);
                if effect is Resolve {
                    lemma_armed_by_replay(next, rest);
                    if is_armed(reached(chain, replies)) {
                        let k = choose|k: int|
                            0 <= k < rest.len() && !(#[trigger] later[k] is Resolve);
                        assert(asked(chain, replies)[k + 1] == later[k]);
                    }
                    assert forall|k: int| 0 < k < replies.len() implies #[trigger] asked(
                        chain,
                        replies,
                    )[k] == later[k - 1] by {}
                } else {
                    lemma_stays_armed(next, rest);
                    assert(asked(chain, replies)[0] == effect);
                }
            },
            _ => {},
        }
    }
}

/// The subject is loaded once.
proof fn lemma_no_second_load(chain: ChainView, replies: Seq<Reply>, k: int)
    requires
        validating(chain),
        chain.queue.exclusion == (Exclusion::Lifecycle { armed: false }),
        chain.procedure matches ProcedureView::Running { expect, .. } ==> !(expect is Receipt),
        0 <= k < asked(chain, replies).len(),
        !(asked(chain, replies)[k] is Resolve),
    ensures
        exists|m: int|
            0 <= m <= k && !(#[trigger] asked(chain, replies)[m] is Resolve) && !(
            asked(chain, replies)[m] is LoadSubject),
    decreases replies.len(),
{
    match chain.advanced(replies[0]) {
        (next, Ok(Some(effect))) => {
            let rest = replies.skip(1);
            let later = asked(next, rest);
            lemma_validating_step(chain, replies[0]);
            assert(asked(chain, replies) == seq![effect] + later);
            if effect is Resolve {
                assert(asked(chain, replies)[k] == later[k - 1]);
                lemma_no_second_load(next, rest, k - 1);
                let m = choose|m: int|
                    0 <= m <= k - 1 && !(#[trigger] later[m] is Resolve) && !(
                    later[m] is LoadSubject);
                assert(asked(chain, replies)[m + 1] == later[m]);
            } else {
                assert(asked(chain, replies)[0] == effect);
            }
        },
        _ => {},
    }
}

/// A log is created by an operation which is armed from the start. It asks for a synchronization of
/// the subject, then for the creation of the file, and for nothing else; if both are done, the chain
/// is idle, with nothing in its queue.
pub proof fn law_creations_are_armed(queue: QueueView<MutationRecord>, replies: Seq<Reply>)
    requires
        queue.frontier is None,
        queue.txns == Map::<TxnId, EntryView<MutationRecord>>::empty(),
        available(queue),
    ensures
        ({
            let (opening, res) = runs(armed(queue), create_script(), EndingView::Acknowledge);
            &&& res == Ok::<_, ChainError>(Some(EffectView::SyncSubject))
            &&& asked(opening, replies).len() <= 1
            &&& asked(opening, replies).len() == 1 ==> asked(
                opening,
                replies,
            )[0] is CreateCommitted
            &&& asked(opening, replies).len() == replies.len() ==> is_armed(
                reached(opening, replies),
            )
            &&& finished(opening, replies) is Some <==> replies.len() >= 2 && replies[0]
                == Reply::Done && replies[1] == Reply::Done
            &&& finished(opening, replies) matches Some(after) ==> {
                &&& after.procedure is Idle
                &&& after.queue == queue
            }
        }),
{
    let opening = runs(armed(queue), create_script(), EndingView::Acknowledge).0;
    law_scripts_are_followed(opening, replies);
    if asked(opening, replies).len() == replies.len() {
        lemma_stays_armed(opening, replies);
    }
    let rest = create_script().skip(1);
    assert(rest.len() == 1 && rest[0] is CreateCommitted);
    if asked(opening, replies).len() == 1 {
        assert(asked(opening, replies)[0] == rest.subrange(0, 1)[0]);
    }
    if replies.len() > 0 {
        reveal_with_fuel(finished, 3);
        if replies.len() > 1 {
            assert(replies.skip(1)[0] == replies[1]);
        }
        assert(queue.exclusive(Exclusion::Free) == queue);
        assert(armed(queue).exclusive(Exclusion::Free) == queue);
    }
}

/// A chain which waits for nothing refuses every reply, and is not changed by it.
pub proof fn law_idle_chains_expect_no_reply(chain: ChainView, reply: Reply)
    requires
        sound(chain),
        chain.procedure is Idle,
    ensures
        chain.advanced(reply).0 == chain,
        chain.advanced(reply).1 is Err,
{
}

/// A commit whose records are malformed, of whatever kind they are, fails before it has any effect.
/// One whose transaction the committed file holds already publishes and shows nothing, and fails:
/// if its effects are performed, because the transaction is already published.
pub proof fn law_unpublishable_commits_fail(
    chain: ChainView,
    id: TxnId,
    replies: Seq<Reply>,
    k: int,
)
    requires
        chain.commits(id).1 matches Ok(Some(_)),
        pending(chain.queue, id).len() > 0,
        replies.len() > 0,
        replies[0] is Committed,
    ensures
        ({
            let next = chain.commits(id).0;
            let records = pending(chain.queue, id);
            let malformed = exists|i: int| 0 <= i < records.len() && misrefers(#[trigger] records[i]);
            let published = has_entry(replies[0]->Committed_0@.block.history, id);
            &&& malformed ==> {
                &&& broken(next, replies) == Some(ChainError::InvalidReference)
                &&& asked(next, replies).len() == 0
            }
            &&& !malformed && published ==> {
                &&& finished(next, replies) is None
                &&& 0 <= k < asked(next, replies).len() ==> asked(next, replies)[k] is SyncCapture
                &&& broken(next, replies) matches Some(error) ==> error
                    == ChainError::AlreadyPublished || exists|i: int|
                    0 <= i < asked(next, replies).len() && i + 1 < replies.len() && !answers(
                        #[trigger] asked(next, replies)[i],
                        replies[i + 1],
                    )
            }
        }),
{
    let next = chain.commits(id).0;
    let records = pending(chain.queue, id);
    law_requests_name_every_capture(records, Seq::empty());
    if has_entry(replies[0]->Committed_0@.block.history, id) && !any_malformed(records) {
        let script = sync_script(captures(records));
        match next.advanced(replies[0]) {
            (running, Ok(Some(effect))) => {
                let rest = replies.skip(1);
                assert forall|i: int| 0 <= i < script.skip(1).len() implies
                #[trigger] script.skip(1)[i] is SyncCapture by {
                    assert(script.skip(1)[i] == script[i + 1]);
                }
                lemma_already_published(running, rest, effect);
                let later = asked(running, rest);
                assert(asked(next, replies) == seq![effect] + later);
                assert forall|i: int| 0 <= i < later.len() implies #[trigger] later[i] == asked(
                    next,
                    replies,
                )[i + 1] by {}
                if rest.len() > 0 && !answers(effect, rest[0]) {
                    assert(asked(next, replies)[0] == effect);
                    assert(rest[0] == replies[1]);
                }
                if exists|i: int|
                    0 <= i < later.len() && i + 1 < rest.len() && !answers(
                        #[trigger] later[i],
                        rest[i + 1],
                    ) {
                    let i = choose|i: int|
                        0 <= i < later.len() && i + 1 < rest.len() && !answers(
                            #[trigger] later[i],
                            rest[i + 1],
                        );
                    assert(asked(next, replies)[i + 1] == later[i]);
                    assert(rest[i + 1] == replies[i + 2]);
                }
            },
            _ => {},
        }
    }
}

proof fn lemma_already_published(chain: ChainView, replies: Seq<Reply>, effect: EffectView)
    requires
        effect is SyncCapture,
        chain.procedure matches ProcedureView::Running { expect, rest, ending } && {
            &&& expect == effect.expect()
            &&& ending is AlreadyPublished
            &&& forall|i: int| 0 <= i < rest.len() ==> #[trigger] rest[i] is SyncCapture
        },
    ensures
        finished(chain, replies) is None,
        forall|k: int|
            0 <= k < asked(chain, replies).len() ==> #[trigger] asked(chain, replies)[k]
                is SyncCapture,
        broken(chain, replies) matches Some(error) ==> error == ChainError::AlreadyPublished || (
        replies.len() > 0 && !answers(effect, replies[0])) || exists|i: int|
            0 <= i < asked(chain, replies).len() && i + 1 < replies.len() && !answers(
                #[trigger] asked(chain, replies)[i],
                replies[i + 1],
            ),
    decreases replies.len(),
{
    if replies.len() > 0 {
        let script = chain.procedure->rest;
        match chain.advanced(replies[0]) {
            (next, Ok(Some(effect2))) => {
                let rest = replies.skip(1);
                assert(effect2 == script[0]);
                assert forall|i: int| 0 <= i < script.skip(1).len() implies
                #[trigger] script.skip(1)[i] is SyncCapture by {
                    assert(script.skip(1)[i] == script[i + 1]);
                }
                lemma_already_published(next, rest, effect2);
                let later = asked(next, rest);
                let whole = asked(chain, replies);
                assert(whole == seq![effect2] + later);
                assert forall|k: int| 0 <= k < whole.len() implies #[trigger] whole[k]
                    is SyncCapture by {
                    if k > 0 {
                        assert(whole[k] == later[k - 1]);
                    }
                }
                if rest.len() > 0 && !answers(effect2, rest[0]) {
                    assert(whole[0] == effect2);
                    assert(rest[0] == replies[1]);
                }
                if exists|i: int|
                    0 <= i < later.len() && i + 1 < rest.len() && !answers(
                        #[trigger] later[i],
                        rest[i + 1],
                    ) {
                    let i = choose|i: int|
                        0 <= i < later.len() && i + 1 < rest.len() && !answers(
                            #[trigger] later[i],
                            rest[i + 1],
                        );
                    assert(whole[i + 1] == later[i]);
                    assert(rest[i + 1] == replies[i + 2]);
                }
            },
            _ => {},
        }
    }
}

/// In every state of a chain: each transaction has at most as many records as the queue admits,
/// none if it is decided, and comes after the finalized cutoff; a request which is being captured
/// belongs to a running transaction which may have one more record; an interrupted chain has no
/// operation; and an operation is under way exactly while it excludes others.
pub proof fn law_chains_are_consistent(chain: ChainView, id: TxnId)
    requires
        sound(chain),
    ensures
        ({
            let queue = chain.queue;
            &&& queue.capacity > 0
            &&& queue.txns.dom().contains(id) ==> {
                &&& !passed(queue, id)
                &&& queue.txns[id].records.len() <= queue.capacity
                &&& queue.txns[id].status == Status::Committed || queue.txns[id].status
                    == Status::RolledBack ==> queue.txns[id].records.len() == 0
            }
            &&& queue.exclusion == Exclusion::Capture(id) ==> {
                &&& queue.txns.dom().contains(id)
                &&& queue.txns[id].status == Status::Running
                &&& queue.txns[id].records.len() < queue.capacity
            }
            &&& queue.interrupted ==> queue.exclusion == Exclusion::Free
            &&& chain.procedure is Idle <==> !(queue.exclusion is Lifecycle)
        }),
{
}

} // verus!
