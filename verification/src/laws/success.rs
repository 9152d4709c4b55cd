//! Success: operations whose effects are performed do succeed.

use vstd::prelude::*;

use crate::block::History;
use crate::chain::{
    armed, begun, create_script, runs, ChainView, EndingView, ProcedureView,
};
use crate::effect::{EffectView, ExpectView, Reply};
use crate::error::ChainError;
use crate::file::{conflicts, FileView};
use crate::laws::durability::{
    asked, finished, law_commits_publish_before_they_become_visible,
    law_finalizations_follow_their_script,
};
use crate::laws::receipts::lemma_invocations_commit_nothing;
use crate::laws::recovery::{
    law_recoveries_follow_their_script, lemma_validation_only_verifies, listed, recovery_script,
};
use crate::map::has_entry;
use crate::queue::{EntryView, QueueView, Status};
use crate::record::MutationRecord;
use crate::script::{
    commit_script, finalize_script, invocations, reclaim_script, replay_history, replay_script,
    replay_transaction, sync_script, validate_script,
};
use crate::store::{all_records, any_malformed, captures, resolution_refusal, texts};
use crate::txn::{covered, TxnId};

verus! {

/// Whether a reply says that an effect was performed, with what the operation needs.
pub open spec fn answers(effect: EffectView, reply: Reply) -> bool {
    match effect {
        EffectView::ReadCommitted => reply is Committed,
        EffectView::LoadSubject => reply == (Reply::Subject { persistent: true }),
        EffectView::ListCaptures => reply is Captures,
        EffectView::Resolve(_, found) => reply matches Reply::Resolved(resolution)
            && resolution_refusal(found.name@, resolution) is None,
        EffectView::RequestTransaction(id) => reply == Reply::Transaction(id),
        _ => reply == Reply::Done,
    }
}

/// Whether each effect which a chain asks for is answered by the next reply, if there is one.
pub open spec fn all_answered(chain: ChainView, replies: Seq<Reply>) -> bool {
    forall|i: int|
        0 <= i < asked(chain, replies).len() && i + 1 < replies.len() ==> answers(
            #[trigger] asked(chain, replies)[i],
            replies[i + 1],
        )
}

/// Whether an effect may stand in a script.
spec fn ordinary(effect: EffectView) -> bool {
    !(effect is ReadCommitted) && !(effect is LoadSubject) && !(effect is ListCaptures)
}

/// Whether all effects of a script may stand there.
spec fn all_ordinary(script: Seq<EffectView>) -> bool {
    forall|i: int| 0 <= i < script.len() ==> ordinary(#[trigger] script[i])
}

/// Whether a script commits nothing.
spec fn commits_nothing(script: Seq<EffectView>) -> bool {
    forall|i: int| 0 <= i < script.len() ==> !(#[trigger] script[i] is CommitSubject)
}

/// Whether the queue refuses none of the receipts which a script leaves.
spec fn receivable(queue: QueueView<MutationRecord>, script: Seq<EffectView>) -> bool {
    forall|i: int|
        0 <= i < script.len() ==> (#[trigger] script[i] matches EffectView::CommitSubject(id)
            ==> queue.commit_refusal(id) is None)
}

/// Whether nothing but a failing effect stops a script.
spec fn clear(
    queue: QueueView<MutationRecord>,
    rest: Seq<EffectView>,
    ending: EndingView,
) -> bool {
    &&& queue.exclusion is Lifecycle
    &&& all_ordinary(rest)
    &&& match ending {
        EndingView::Acknowledge => receivable(queue, rest),
        EndingView::Reclaim(_) => receivable(queue, rest),
        EndingView::AlreadyPublished => false,
        EndingView::RollBack(id) => commits_nothing(rest) && queue.rollback_refusal(id) is None,
        EndingView::Finalize(cutoff) => commits_nothing(rest) && queue.finalize_refusal(cutoff)
            is None,
        EndingView::Replay(file, _) => commits_nothing(rest) && replayable(queue, file),
    }
}

/// Whether the queue is unused, and the history of a file lies beyond its cutoff.
spec fn replayable(queue: QueueView<MutationRecord>, file: FileView) -> bool {
    &&& queue.exclusion is Lifecycle
    &&& queue.frontier is None
    &&& queue.txns == Map::<TxnId, EntryView<MutationRecord>>::empty()
    &&& forall|i: int|
        0 <= i < file.history().len() ==> !covered(
            file.frontier,
            (#[trigger] file.history()[i]).0,
        )
}

/// Whether nothing but a failing effect stops an operation.
spec fn ready(chain: ChainView) -> bool {
    match chain.procedure {
        ProcedureView::Running { expect, rest, ending } => match expect {
            ExpectView::Receipt(id) => chain.queue.commit_refusal(id) is None && clear(
                chain.queue.committed(id),
                rest,
                ending,
            ),
            _ => clear(chain.queue, rest, ending),
        },
        ProcedureView::Loading { file, .. } => replayable(chain.queue, file),
        ProcedureView::Listing { .. } => chain.queue.exclusion is Lifecycle,
        _ => false,
    }
}

/// Whether an operation waits for the reply to an effect.
spec fn awaits(procedure: ProcedureView, effect: EffectView) -> bool {
    match procedure {
        ProcedureView::Running { expect, .. } => ordinary(effect) && expect == effect.expect(),
        ProcedureView::Loading { .. } => effect is LoadSubject,
        ProcedureView::Listing { .. } => effect is ListCaptures,
        _ => false,
    }
}

/// A receipt stands in the way of no other.
proof fn lemma_receivable_after_commit(
    queue: QueueView<MutationRecord>,
    id: TxnId,
    script: Seq<EffectView>,
)
    requires
        queue.commit_refusal(id) is None,
        receivable(queue, script),
    ensures
        receivable(queue.committed(id), script),
{
    let after = queue.committed(id);
    assert forall|i: int| 0 <= i < script.len() implies (
    #[trigger] script[i] matches EffectView::CommitSubject(other) ==> after.commit_refusal(other)
        is None) by {
        if let EffectView::CommitSubject(other) = script[i] {
            assert(queue.commit_refusal(other) is None);
        }
    }
}

/// The first effect of a clear script leaves the rest clear.
proof fn lemma_clear_rest(
    queue: QueueView<MutationRecord>,
    rest: Seq<EffectView>,
    ending: EndingView,
)
    requires
        clear(queue, rest, ending),
        rest.len() > 0,
    ensures
        ready(
            ChainView {
                queue,
                procedure: ProcedureView::Running {
                    expect: rest[0].expect(),
                    rest: rest.skip(1),
                    ending,
                },
            },
        ),
        awaits(
            ProcedureView::Running { expect: rest[0].expect(), rest: rest.skip(1), ending },
            rest[0],
        ),
{
    let later = rest.skip(1);
    assert forall|i: int| 0 <= i < later.len() implies later[i] == #[trigger] rest[i + 1] by {}
    assert forall|i: int| 0 <= i < later.len() implies ordinary(#[trigger] later[i]) by {
        assert(ordinary(rest[i + 1]));
    }
    assert(ordinary(rest[0]));
    if commits_nothing(rest) {
        assert forall|i: int| 0 <= i < later.len() implies !(#[trigger] later[i]
            is CommitSubject) by {
            assert(!(rest[i + 1] is CommitSubject));
        }
        assert(!(rest[0] is CommitSubject));
    }
    if receivable(queue, rest) {
        assert forall|i: int| 0 <= i < later.len() implies (
        #[trigger] later[i] matches EffectView::CommitSubject(id) ==> queue.commit_refusal(id)
            is None) by {
            assert(rest[i + 1] == later[i]);
        }
        if let EffectView::CommitSubject(id) = rest[0] {
            assert(queue.commit_refusal(id) is None);
            lemma_receivable_after_commit(queue, id, later);
        }
    }
}

/// Replay is clear.
proof fn lemma_replay_clear(queue: QueueView<MutationRecord>, history: History)
    requires
        queue.exclusion is Lifecycle,
        queue.txns == Map::<TxnId, EntryView<MutationRecord>>::empty(),
        forall|i: int|
            0 <= i < history.len() ==> !covered(queue.frontier, (#[trigger] history[i]).0),
    ensures
        all_ordinary(replay_history(history)),
        receivable(queue, replay_history(history)),
    decreases history.len(),
{
    if history.len() > 0 {
        let init = history.drop_last();
        let (id, records) = history.last();
        assert forall|i: int| 0 <= i < init.len() implies !covered(
            queue.frontier,
            (#[trigger] init[i]).0,
        ) by {
            assert(init[i] == history[i]);
        }
        lemma_replay_clear(queue, init);
        let first = replay_history(init);
        let more = replay_transaction(id, records);
        let all = replay_history(history);
        assert(!covered(queue.frontier, history[history.len() - 1].0));
        assert(queue.commit_refusal(id) is None);
        lemma_invocations_commit_nothing(id, records);
        lemma_invocations_ordinary(id, records);
        assert forall|i: int| 0 <= i < more.len() implies ordinary(#[trigger] more[i]) && (
        more[i] matches EffectView::CommitSubject(other) ==> other == id) by {
            if 0 < i && i < more.len() - 1 {
                assert(more[i] == invocations(id, records)[i - 1]);
            }
        }
        assert forall|i: int| 0 <= i < all.len() implies ordinary(#[trigger] all[i]) && (
        all[i] matches EffectView::CommitSubject(other) ==> queue.commit_refusal(other)
            is None) by {
            if i < first.len() {
                assert(all[i] == first[i]);
            } else {
                assert(all[i] == more[i - first.len()]);
            }
        }
    }
}

/// Invocations may stand in a script.
proof fn lemma_invocations_ordinary(id: TxnId, records: Seq<MutationRecord>)
    ensures
        all_ordinary(invocations(id, records)),
    decreases records.len(),
{
    if records.len() > 0 {
        lemma_invocations_ordinary(id, records.drop_last());
        let first = invocations(id, records.drop_last());
        let all = invocations(id, records);
        assert forall|i: int| 0 <= i < all.len() implies ordinary(#[trigger] all[i]) by {
            if i < first.len() {
                assert(all[i] == first[i]);
            }
        }
    }
}

/// A clear script goes on, or ends well.
proof fn lemma_clear_script(
    queue: QueueView<MutationRecord>,
    rest: Seq<EffectView>,
    ending: EndingView,
)
    requires
        clear(queue, rest, ending),
    ensures
        match runs(queue, rest, ending) {
            (next, Ok(Some(effect))) => ready(next) && awaits(next.procedure, effect),
            (_, Ok(None)) => true,
            (_, Err(_)) => false,
        },
{
    if rest.len() > 0 {
        lemma_clear_rest(queue, rest, ending);
    } else if let EndingView::Replay(file, retained) = ending {
        let start = match file.frontier {
            Some(cutoff) => armed(queue).finalized(cutoff),
            None => armed(queue),
        };
        assert(start.txns =~= Map::<TxnId, EntryView<MutationRecord>>::empty());
        lemma_replay_clear(start, file.history());
        let script = replay_script(file);
        if let Some(cutoff) = file.frontier {
            assert forall|i: int| 0 <= i < script.len() implies ordinary(#[trigger] script[i]) && (
            script[i] matches EffectView::CommitSubject(id) ==> start.commit_refusal(id)
                is None) by {
                if i > 0 {
                    assert(script[i] == replay_history(file.history())[i - 1]);
                }
            }
        }
        assert(clear(start, script, EndingView::Reclaim(retained)));
        if script.len() > 0 {
            lemma_clear_rest(start, script, EndingView::Reclaim(retained));
        }
    }
}

/// An operation whose effect is performed goes on, or ends well.
proof fn lemma_ready_goes_on(chain: ChainView, effect: EffectView, reply: Reply)
    requires
        ready(chain),
        awaits(chain.procedure, effect),
        answers(effect, reply),
    ensures
        match chain.advanced(reply) {
            (next, Ok(Some(following))) => ready(next) && awaits(next.procedure, following),
            (_, Ok(None)) => true,
            (_, Err(_)) => false,
        },
{
    match chain.procedure {
        ProcedureView::Running { expect, rest, ending } => {
            if let ExpectView::Receipt(id) = expect {
                lemma_clear_script(chain.queue.committed(id), rest, ending);
            } else {
                lemma_clear_script(chain.queue, rest, ending);
            }
        },
        ProcedureView::Loading { file, retained } => {
            let script = validate_script(file.history());
            lemma_validation_only_verifies(file.history());
            assert forall|i: int| 0 <= i < script.len() implies ordinary(#[trigger] script[i])
                && !(script[i] is CommitSubject) by {
                assert(script[i] is Resolve);
            }
            lemma_clear_script(chain.queue, script, EndingView::Replay(file, retained));
        },
        ProcedureView::Listing { retained } => {
            if let Reply::Captures(names) = reply {
                let script = reclaim_script(texts(names@), retained);
                assert forall|i: int| 0 <= i < script.len() implies ordinary(#[trigger] script[i])
                    && !(script[i] is CommitSubject) by {}
                assert(receivable(chain.queue, script));
                lemma_clear_script(chain.queue, script, EndingView::Acknowledge);
            }
        },
        _ => {},
    }
}

/// An operation whose effects are all performed succeeds, if the first reply lets it go on.
proof fn lemma_operation_succeeds(chain: ChainView, replies: Seq<Reply>)
    requires
        replies.len() > asked(chain, replies).len(),
        all_answered(chain, replies),
        match chain.advanced(replies[0]) {
            (next, Ok(Some(following))) => ready(next) && awaits(next.procedure, following),
            (_, Ok(None)) => true,
            (_, Err(_)) => false,
        },
    ensures
        finished(chain, replies) is Some,
    decreases replies.len(),
{
    if let (next, Ok(Some(following))) = chain.advanced(replies[0]) {
        let rest = replies.skip(1);
        let whole = asked(chain, replies);
        let after = asked(next, rest);
        assert(whole == seq![following] + after);
        assert(whole[0] == following);
        assert(answers(whole[0], replies[1]));
        assert forall|i: int| 0 <= i < after.len() && i + 1 < rest.len() implies answers(
            #[trigger] after[i],
            rest[i + 1],
        ) by {
            assert(whole[i + 1] == after[i]);
            assert(answers(whole[i + 1], replies[i + 2]));
        }
        lemma_ready_goes_on(next, following, rest[0]);
        lemma_operation_succeeds(next, rest);
    }
}

/// A recovery succeeds, if the committed file may be loaded and refers to nothing but stored
/// collections, and each effect which it asks for is performed.
pub proof fn law_recoveries_whose_effects_are_performed_succeed(
    queue: QueueView<MutationRecord>,
    replies: Seq<Reply>,
)
    requires
        queue.frontier is None,
        queue.txns == Map::<TxnId, EntryView<MutationRecord>>::empty(),
        ({
            let chain = ChainView { queue: begun(queue), procedure: ProcedureView::Reading };
            &&& replies.len() > 0
            &&& replies[0] matches Reply::Committed(file)
            &&& file@.refusal() is None
            &&& !any_malformed(all_records(file@.history()))
            &&& replies.len() > recovery_script(file@, listed(chain, replies)).len()
            &&& all_answered(chain, replies)
        }),
    ensures
        finished(
            ChainView { queue: begun(queue), procedure: ProcedureView::Reading },
            replies,
        ) is Some,
{
    let chain = ChainView { queue: begun(queue), procedure: ProcedureView::Reading };
    law_recoveries_follow_their_script(chain, replies);
    if let Reply::Committed(file) = replies[0] {
        let history = file@.history();
        assert forall|i: int| 0 <= i < history.len() implies !covered(
            file@.frontier,
            (#[trigger] history[i]).0,
        ) by {
            assert(!conflicts(file@.frontier, history[i]));
        }
        lemma_operation_succeeds(chain, replies);
    }
}

/// A commit succeeds, if its transaction is well-formed and not published yet, and each effect
/// which it asks for is performed.
pub proof fn law_commits_whose_effects_are_performed_succeed(
    chain: ChainView,
    id: TxnId,
    records: Seq<MutationRecord>,
    replies: Seq<Reply>,
)
    requires
        chain.procedure == (ProcedureView::Publishing { id, records }),
        chain.queue.commit_refusal(id) is None,
        !any_malformed(records),
        replies.len() > 0,
        ({
            &&& replies[0] matches Reply::Committed(file)
            &&& !has_entry(file@.history(), id)
            &&& replies.len() > commit_script(file@, id, records).len()
        }),
        all_answered(chain, replies),
    ensures
        finished(chain, replies) is Some,
{
    law_commits_publish_before_they_become_visible(chain, id, records, replies);
    if let Reply::Committed(file) = replies[0] {
        let script = commit_script(file@, id, records);
        let names = captures(records);
        assert forall|i: int| 0 <= i < script.len() implies ordinary(#[trigger] script[i]) && (
        script[i] matches EffectView::CommitSubject(other) ==> other == id) by {
            if i < names.len() {
                assert(script[i] == sync_script(names)[i]);
            }
        }
        lemma_clear_script(chain.queue, script, EndingView::Acknowledge);
        lemma_operation_succeeds(chain, replies);
    }
}

/// A finalization succeeds, if no request up to its cutoff is unfinished, and each effect which it
/// asks for is performed.
pub proof fn law_finalizations_whose_effects_are_performed_succeed(
    chain: ChainView,
    cutoff: TxnId,
    replies: Seq<Reply>,
)
    requires
        chain.procedure == (ProcedureView::Finalizing { cutoff }),
        chain.queue.finalize_refusal(cutoff) is None,
        replies.len() > 0,
        ({
            &&& replies[0] matches Reply::Committed(file)
            &&& replies.len() > finalize_script(file@, cutoff).len()
        }),
        all_answered(chain, replies),
    ensures
        finished(chain, replies) is Some,
{
    law_finalizations_follow_their_script(chain, cutoff, replies);
    if let Reply::Committed(file) = replies[0] {
        let script = finalize_script(file@, cutoff);
        assert forall|i: int| 0 <= i < script.len() implies ordinary(#[trigger] script[i]) && !(
        script[i] is CommitSubject) by {}
        let queue = armed(chain.queue);
        assert(queue.unfinished_through(cutoff) == chain.queue.unfinished_through(cutoff)) by {
            if queue.unfinished_through(cutoff) {
                let id = choose|id: TxnId| #[trigger]
                    queue.is(id, Status::Running) && covered(Some(cutoff), id);
                assert(chain.queue.is(id, Status::Running));
            }
            if chain.queue.unfinished_through(cutoff) {
                let id = choose|id: TxnId| #[trigger]
                    chain.queue.is(id, Status::Running) && covered(Some(cutoff), id);
                assert(queue.is(id, Status::Running));
            }
        }
        lemma_clear_script(queue, script, EndingView::Finalize(cutoff));
        lemma_operation_succeeds(chain, replies);
    }
}

/// A creation, a rollback, and the commit of a transaction without requests succeed, once their
/// effects are performed.
pub proof fn law_short_operations_whose_effects_are_performed_succeed(chain: ChainView, id: TxnId)
    ensures
        ({
            let created = runs(armed(chain.queue), create_script(), EndingView::Acknowledge).0;
            created.advanced(Reply::Done).0.advanced(Reply::Done).1 == Ok::<_, ChainError>(
                None::<EffectView>,
            )
        }),
        chain.rolls_back(id).1 is Ok ==> {
            let begun = chain.rolls_back(id);
            begun.1->Ok_0 is Some ==> {
                let after = begun.0.advanced(Reply::Done);
                after.1 == Ok::<_, ChainError>(None::<EffectView>) && after.0.queue.is(
                    id,
                    Status::RolledBack,
                )
            }
        },
        chain.commits(id).1 == Ok::<_, ChainError>(Some(EffectView::CommitSubject(id))) ==> {
            let after = chain.commits(id).0.advanced(Reply::Done);
            after.1 == Ok::<_, ChainError>(None::<EffectView>) && after.0.queue.is(
                id,
                Status::Committed,
            )
        },
{
}

} // verus!
