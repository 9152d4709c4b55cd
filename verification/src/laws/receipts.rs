//! Receipts: what a recovery rebuilds of the queue.

use vstd::prelude::*;

use crate::block::History;
use crate::chain::{armed, begun, runs, ChainView, EndingView, ProcedureView};
use crate::effect::{EffectView, ExpectView, Reply};
use crate::file::FileView;
use crate::laws::durability::finished;
use crate::laws::recovery::lemma_validation_only_verifies;
use crate::map::has_entry;
use crate::queue::{EntryView, Exclusion, QueueView, Status};
use crate::record::MutationRecord;
use crate::script::{
    invocations, reclaim_script, replay_history, replay_script, replay_transaction,
    validate_script,
};
use crate::store::texts;
use crate::txn::TxnId;

verus! {

/// The queue of a recovered chain: it has the finalized cutoff of the file, and a receipt for each
/// retained transaction, and nothing else.
pub open spec fn recovered(capacity: nat, file: FileView) -> QueueView<MutationRecord> {
    QueueView {
        capacity,
        frontier: file.frontier,
        interrupted: false,
        exclusion: Exclusion::Free,
        txns: receipts(file.history()),
    }
}

/// A receipt for each transaction of a history.
pub open spec fn receipts(history: History) -> Map<TxnId, EntryView<MutationRecord>> {
    Map::new(
        |id: TxnId| has_entry(history, id),
        |id: TxnId| EntryView { status: Status::Committed, records: Seq::empty() },
    )
}

/// The receipts which a script leaves, if each of its effects is performed.
spec fn settled(queue: QueueView<MutationRecord>, script: Seq<EffectView>) -> QueueView<
    MutationRecord,
>
    decreases script.len(),
{
    if script.len() == 0 {
        queue
    } else {
        settled(accepted(queue, script[0].expect()), script.skip(1))
    }
}

/// The receipt which an effect leaves, once it is performed.
spec fn accepted(queue: QueueView<MutationRecord>, expect: ExpectView) -> QueueView<
    MutationRecord,
> {
    match expect {
        ExpectView::Receipt(id) => queue.committed(id),
        _ => queue,
    }
}

/// What two scripts leave, one after the other.
proof fn lemma_settled_add(
    queue: QueueView<MutationRecord>,
    a: Seq<EffectView>,
    b: Seq<EffectView>,
)
    ensures
        settled(queue, a + b) == settled(settled(queue, a), b),
    decreases a.len(),
{
    if a.len() == 0 {
        assert(a + b =~= b);
    } else {
        lemma_settled_add(accepted(queue, a[0].expect()), a.skip(1), b);
        assert((a + b).skip(1) =~= a.skip(1) + b);
    }
}

/// A script without commits leaves nothing.
proof fn lemma_settled_unchanged(queue: QueueView<MutationRecord>, script: Seq<EffectView>)
    requires
        forall|i: int| 0 <= i < script.len() ==> !(#[trigger] script[i] is CommitSubject),
    ensures
        settled(queue, script) == queue,
    decreases script.len(),
{
    if script.len() > 0 {
        let rest = script.skip(1);
        assert forall|i: int| 0 <= i < rest.len() implies !(#[trigger] rest[i] is CommitSubject) by {
            assert(rest[i] == script[i + 1]);
        }
        assert(!(script[0] is CommitSubject));
        lemma_settled_unchanged(queue, rest);
    }
}

/// The queue which a recovery leads to.
spec fn target(queue: QueueView<MutationRecord>, procedure: ProcedureView) -> QueueView<
    MutationRecord,
> {
    match procedure {
        ProcedureView::Running { expect, rest, ending } => {
            let done = settled(accepted(queue, expect), rest);
            match ending {
                EndingView::Replay(file, _) => settled(
                    taken_over(done, file),
                    replay_script(file),
                ),
                _ => done,
            }
        },
        ProcedureView::Loading { file, .. } => settled(
            taken_over(settled(queue, validate_script(file.history())), file),
            replay_script(file),
        ),
        _ => queue,
    }
}

/// The armed queue with the finalized cutoff of a file.
spec fn taken_over(queue: QueueView<MutationRecord>, file: FileView) -> QueueView<MutationRecord> {
    match file.frontier {
        Some(cutoff) => armed(queue).finalized(cutoff),
        None => armed(queue),
    }
}

/// Whether a procedure belongs to a recovery which has read the committed file.
spec fn recovering(procedure: ProcedureView) -> bool {
    match procedure {
        ProcedureView::Running { ending, .. } => ending is Replay || ending is Reclaim || ending
            is Acknowledge,
        ProcedureView::Loading { .. } => true,
        ProcedureView::Listing { .. } => true,
        _ => false,
    }
}

/// Reclamation commits nothing.
proof fn lemma_reclaim_settles_nothing(
    queue: QueueView<MutationRecord>,
    names: Seq<Seq<char>>,
    retained: Seq<Seq<char>>,
)
    ensures
        settled(queue, reclaim_script(names, retained)) == queue,
{
    let script = reclaim_script(names, retained);
    assert forall|i: int| 0 <= i < script.len() implies !(#[trigger] script[i] is CommitSubject) by {
    }
    lemma_settled_unchanged(queue, script);
}

/// A script of a recovery leads where it should.
proof fn lemma_target_after_script(
    queue: QueueView<MutationRecord>,
    rest: Seq<EffectView>,
    ending: EndingView,
)
    requires
        ending is Replay || ending is Reclaim || ending is Acknowledge,
    ensures
        ({
            let whole = target(
                queue,
                ProcedureView::Running { expect: ExpectView::Done, rest, ending },
            );
            match runs(queue, rest, ending) {
                (next, Ok(Some(_))) => recovering(next.procedure) && target(
                    next.queue,
                    next.procedure,
                ) == whole,
                (next, Ok(None)) => next.queue == whole.exclusive(Exclusion::Free),
                _ => true,
            }
        }),
{
    reveal_with_fuel(settled, 2);
}

/// A reply to a recovery leads where it should.
proof fn lemma_target_after_reply(chain: ChainView, reply: Reply)
    requires
        recovering(chain.procedure),
    ensures
        match chain.advanced(reply) {
            (next, Ok(Some(_))) => recovering(next.procedure) && target(
                next.queue,
                next.procedure,
            ) == target(chain.queue, chain.procedure),
            (next, Ok(None)) => next.queue == target(chain.queue, chain.procedure).exclusive(
                Exclusion::Free,
            ),
            _ => true,
        },
{
    match chain.procedure {
        ProcedureView::Running { expect, rest, ending } => {
            lemma_target_after_script(accepted(chain.queue, expect), rest, ending);
        },
        ProcedureView::Loading { file, retained } => {
            lemma_target_after_script(
                chain.queue,
                validate_script(file.history()),
                EndingView::Replay(file, retained),
            );
        },
        ProcedureView::Listing { retained } => {
            if let Reply::Captures(names) = reply {
                lemma_reclaim_settles_nothing(chain.queue, texts(names@), retained);
                lemma_target_after_script(
                    chain.queue,
                    reclaim_script(texts(names@), retained),
                    EndingView::Acknowledge,
                );
            }
        },
        _ => {},
    }
}

/// A recovery which succeeds leads where it should.
proof fn lemma_finished(chain: ChainView, replies: Seq<Reply>)
    requires
        recovering(chain.procedure),
    ensures
        finished(chain, replies) matches Some(after) ==> after.queue == target(
            chain.queue,
            chain.procedure,
        ).exclusive(Exclusion::Free),
    decreases replies.len(),
{
    if replies.len() > 0 {
        lemma_target_after_reply(chain, replies[0]);
        match chain.advanced(replies[0]) {
            (next, Ok(Some(_))) => lemma_finished(next, replies.skip(1)),
            _ => {},
        }
    }
}

/// Invocations commit nothing.
pub proof fn lemma_invocations_commit_nothing(id: TxnId, records: Seq<MutationRecord>)
    ensures
        forall|i: int|
            0 <= i < invocations(id, records).len() ==> !(#[trigger] invocations(id, records)[i]
                is CommitSubject),
    decreases records.len(),
{
    if records.len() > 0 {
        lemma_invocations_commit_nothing(id, records.drop_last());
    }
}

/// The replay of a transaction leaves its receipt.
proof fn lemma_transaction_settled(
    queue: QueueView<MutationRecord>,
    id: TxnId,
    records: Seq<MutationRecord>,
)
    ensures
        settled(queue, replay_transaction(id, records)) == queue.committed(id),
{
    let early = seq![EffectView::RequestTransaction(id)] + invocations(id, records);
    let done = seq![EffectView::CommitSubject(id)];
    lemma_invocations_commit_nothing(id, records);
    assert forall|i: int| 0 <= i < early.len() implies !(#[trigger] early[i] is CommitSubject) by {
        if i > 0 {
            assert(early[i] == invocations(id, records)[i - 1]);
        }
    }
    lemma_settled_unchanged(queue, early);
    lemma_settled_add(queue, early, done);
    reveal_with_fuel(settled, 2);
    assert(done.skip(1) =~= Seq::empty());
}

/// The replay of a history leaves a receipt for each of its transactions.
proof fn lemma_history_settled(queue: QueueView<MutationRecord>, history: History)
    requires
        queue.exclusion == (Exclusion::Lifecycle { armed: true }),
        queue.txns == Map::<TxnId, EntryView<MutationRecord>>::empty(),
    ensures
        settled(queue, replay_history(history)) == (QueueView {
            txns: receipts(history),
            ..queue
        }),
    decreases history.len(),
{
    if history.len() == 0 {
        assert(receipts(history) =~= queue.txns);
    } else {
        let init = history.drop_last();
        let (last, records) = history.last();
        lemma_history_settled(queue, init);
        lemma_settled_add(queue, replay_history(init), replay_transaction(last, records));
        let before = settled(queue, replay_history(init));
        lemma_transaction_settled(before, last, records);
        assert forall|id: TxnId| #[trigger] has_entry(history, id) <==> has_entry(init, id) || id
            == last by {
            if has_entry(history, id) {
                let i = choose|i: int| 0 <= i < history.len() && (#[trigger] history[i]).0 == id;
                if i < init.len() {
                    assert(init[i].0 == id);
                }
            }
            if has_entry(init, id) {
                let i = choose|i: int| 0 <= i < init.len() && (#[trigger] init[i]).0 == id;
                assert(history[i].0 == id);
            }
            if id == last {
                assert(history[history.len() - 1].0 == id);
            }
        }
        assert(before.committed(last).txns =~= receipts(history));
        assert(before.committed(last) =~= QueueView { txns: receipts(history), ..queue });
    }
}

/// A recovery which succeeds rebuilds the receipts of the retained transactions and the finalized
/// cutoff, whatever the capacity of the queue is, and leaves no pending work.
pub proof fn law_recovery_rebuilds_exactly_the_receipts(
    queue: QueueView<MutationRecord>,
    replies: Seq<Reply>,
)
    requires
        queue.frontier is None,
        queue.txns == Map::<TxnId, EntryView<MutationRecord>>::empty(),
        !queue.interrupted,
        replies.len() > 0,
    ensures
        ({
            let chain = ChainView { queue: begun(queue), procedure: ProcedureView::Reading };
            finished(chain, replies) matches Some(after) ==> replies[0] matches Reply::Committed(
                file,
            ) && after.queue == recovered(queue.capacity, file@) && after.procedure is Idle
        }),
{
    let chain = ChainView { queue: begun(queue), procedure: ProcedureView::Reading };
    lemma_finished_idle(chain, replies);
    match (replies[0], chain.advanced(replies[0])) {
        (Reply::Committed(file), (next, Ok(Some(_)))) => {
            let history = file@.history();
            lemma_finished(next, replies.skip(1));
            lemma_validation_only_verifies(history);
            lemma_settled_unchanged(begun(queue), validate_script(history));
            let start = taken_over(begun(queue), file@);
            assert(start.txns =~= Map::<TxnId, EntryView<MutationRecord>>::empty());
            lemma_history_settled(start, history);
            match file@.frontier {
                Some(cutoff) => {
                    let first = seq![EffectView::InitializeCutoff(cutoff)];
                    lemma_settled_add(start, first, replay_history(history));
                    lemma_settled_unchanged(start, first);
                },
                None => {},
            }
            assert(settled(start, replay_script(file@)) =~= QueueView {
                txns: receipts(history),
                ..start
            });
            assert(settled(start, replay_script(file@)).exclusive(Exclusion::Free) =~= recovered(
                queue.capacity,
                file@,
            ));
        },
        _ => {},
    }
}

/// A chain whose operation succeeded is idle.
proof fn lemma_finished_idle(chain: ChainView, replies: Seq<Reply>)
    ensures
        finished(chain, replies) matches Some(after) ==> after.procedure is Idle,
    decreases replies.len(),
{
    if replies.len() > 0 {
        match chain.advanced(replies[0]) {
            (next, Ok(Some(_))) => lemma_finished_idle(next, replies.skip(1)),
            _ => {},
        }
    }
}

} // verus!
