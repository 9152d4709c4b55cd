//! Durability: what is on disk at every moment of a lifecycle operation.

use vstd::prelude::*;

use crate::chain::{begun, create_script, ChainView, EndingView, ProcedureView};
use crate::effect::{EffectView, Reply};
use crate::error::ChainError;
use crate::file::{empty_file, FileView};
use crate::laws::history::{law_finalized_files_may_be_loaded, law_published_files_may_be_loaded};
use crate::map::{ascending, has_entry};
use crate::queue::Status;
use crate::record::MutationRecord;
use crate::script::{commit_script, finalize_script, sync_script};
use crate::store::captures;
use crate::txn::{covered, TxnId};

verus! {

/// The effects which a chain asks for, one after the other, as it gets replies.
pub open spec fn asked(chain: ChainView, replies: Seq<Reply>) -> Seq<EffectView>
    decreases replies.len(),
{
    if replies.len() == 0 {
        Seq::empty()
    } else {
        match chain.advanced(replies[0]) {
            (next, Ok(Some(effect))) => seq![effect] + asked(next, replies.skip(1)),
            _ => Seq::empty(),
        }
    }
}

/// The chain once its operation succeeded, if the replies lead there.
pub open spec fn finished(chain: ChainView, replies: Seq<Reply>) -> Option<ChainView>
    decreases replies.len(),
{
    if replies.len() == 0 {
        None
    } else {
        match chain.advanced(replies[0]) {
            (next, Ok(None)) => Some(next),
            (next, Ok(Some(_))) => finished(next, replies.skip(1)),
            (_, Err(_)) => None,
        }
    }
}

/// The committed file once effects are performed.
pub open spec fn durable(file: Option<FileView>, performed: Seq<EffectView>) -> Option<FileView>
    decreases performed.len(),
{
    if performed.len() == 0 {
        file
    } else {
        match performed.last() {
            EffectView::Publish(next) => Some(next),
            EffectView::CreateCommitted(next) => Some(next),
            _ => durable(file, performed.drop_last()),
        }
    }
}

/// Whether a script ends without a recovery.
pub open spec fn ends_plainly(ending: EndingView) -> bool {
    !(ending is Replay) && !(ending is Reclaim)
}

/// A script is followed: what a chain asks for is the rest of its script, as far as the replies
/// go.
pub proof fn law_scripts_are_followed(
    chain: ChainView,
    replies: Seq<Reply>,
)
    requires
        chain.procedure matches ProcedureView::Running { ending, .. } && ends_plainly(ending),
    ensures
        asked(chain, replies).is_prefix_of(chain.procedure->rest),
    decreases replies.len(),
{
    let rest = chain.procedure->rest;
    if replies.len() > 0 {
        let step = chain.advanced(replies[0]);
        match step {
            (next, Ok(Some(effect))) => {
                assert(rest.len() > 0 && effect == rest[0]);
                assert(next.procedure->rest == rest.skip(1));
                law_scripts_are_followed(next, replies.skip(1));
                let after = asked(next, replies.skip(1));
                assert(seq![effect] + after =~= rest.subrange(0, (1 + after.len()) as int));
            },
            _ => {},
        }
    }
}

/// The first effect of a script, and those which follow, are the script, as far as the replies go.
proof fn lemma_script_from_start(
    chain: ChainView,
    replies: Seq<Reply>,
    script: Seq<EffectView>,
)
    requires
        replies.len() > 0,
        chain.advanced(replies[0]).1 matches Ok(Some(effect)) ==> {
            &&& script.len() > 0
            &&& effect == script[0]
            &&& chain.advanced(replies[0]).0.procedure matches ProcedureView::Running {
                rest,
                ending,
                ..
            } && rest == script.skip(1) && ends_plainly(ending)
        },
    ensures
        asked(chain, replies).is_prefix_of(script),
{
    match chain.advanced(replies[0]) {
        (next, Ok(Some(effect))) => {
            law_scripts_are_followed(next, replies.skip(1));
            let after = asked(next, replies.skip(1));
            assert(seq![effect] + after =~= script.subrange(0, (1 + after.len()) as int));
        },
        _ => {},
    }
}

/// A commit synchronizes the captures, then publishes the requests, then makes the transaction
/// visible, and does nothing else. A transaction which is already published is not published again.
pub proof fn law_commits_publish_before_they_become_visible(
    chain: ChainView,
    id: TxnId,
    records: Seq<MutationRecord>,
    replies: Seq<Reply>,
)
    requires
        chain.procedure == (ProcedureView::Publishing { id, records }),
        replies.len() > 0,
    ensures
        match replies[0] {
            Reply::Committed(file) => if has_entry(file@.history(), id) {
                asked(chain, replies).is_prefix_of(sync_script(captures(records)))
            } else {
                asked(chain, replies).is_prefix_of(commit_script(file@, id, records))
            },
            _ => asked(chain, replies).len() == 0,
        },
{
    match replies[0] {
        Reply::Committed(file) => {
            if has_entry(file@.history(), id) {
                lemma_script_from_start(chain, replies, sync_script(captures(records)));
            } else {
                lemma_script_from_start(chain, replies, commit_script(file@, id, records));
            }
        },
        _ => {},
    }
}

/// A transaction without requests is committed and rolled back by the subject alone: nothing is
/// published.
pub proof fn law_empty_decisions_publish_nothing(chain: ChainView, id: TxnId, replies: Seq<Reply>)
    requires
        chain.queue.operation_refusal() is None,
        begun(chain.queue).commit_refusal(id) is None,
        !chain.queue.is(id, Status::Committed),
        chain.queue.records(id).len() == 0,
    ensures
        chain.commits(id).1 == Ok::<_, ChainError>(Some(EffectView::CommitSubject(id))),
        asked(chain.commits(id).0, replies).len() == 0,
{
    law_scripts_are_followed(chain.commits(id).0, replies);
}

/// A rollback is left to the subject: nothing is published.
pub proof fn law_rollbacks_publish_nothing(chain: ChainView, id: TxnId, replies: Seq<Reply>)
    requires
        chain.rolls_back(id).1 matches Ok(Some(_)),
    ensures
        chain.rolls_back(id).1 == Ok::<_, ChainError>(Some(EffectView::RollbackSubject(id))),
        asked(chain.rolls_back(id).0, replies).len() == 0,
{
    law_scripts_are_followed(chain.rolls_back(id).0, replies);
}

/// A finalization follows its script. A cutoff which is already finalized has no effect.
pub proof fn law_finalizations_follow_their_script(
    chain: ChainView,
    cutoff: TxnId,
    replies: Seq<Reply>,
)
    requires
        chain.procedure == (ProcedureView::Finalizing { cutoff }),
        replies.len() > 0,
    ensures
        match replies[0] {
            Reply::Committed(file) => if covered(file@.frontier, cutoff) {
                asked(chain, replies).len() == 0
            } else {
                asked(chain, replies).is_prefix_of(finalize_script(file@, cutoff))
            },
            _ => asked(chain, replies).len() == 0,
        },
{
    match replies[0] {
        Reply::Committed(file) => {
            if !covered(file@.frontier, cutoff) {
                lemma_script_from_start(chain, replies, finalize_script(file@, cutoff));
            }
        },
        _ => {},
    }
}

/// Effects which write no file leave the committed file as it is.
pub proof fn lemma_durable_unchanged(file: Option<FileView>, performed: Seq<EffectView>)
    requires
        forall|i: int|
            0 <= i < performed.len() ==> !(#[trigger] performed[i] is Publish) && !(
            performed[i] is CreateCommitted),
    ensures
        durable(file, performed) == file,
    decreases performed.len(),
{
    if performed.len() > 0 {
        let init = performed.drop_last();
        assert forall|i: int| 0 <= i < init.len() implies !(#[trigger] init[i] is Publish) && !(
        init[i] is CreateCommitted) by {
            assert(init[i] == performed[i]);
        }
        lemma_durable_unchanged(file, init);
        assert(performed[performed.len() - 1] == performed.last());
    }
}

/// At whatever effect a commit is interrupted, the committed file may be loaded: it is the old one,
/// or the old one with the transaction. It holds the transaction exactly once the file was
/// published, which happens after each capture is synchronized, and before the transaction becomes
/// visible.
pub proof fn law_interrupted_commits_leave_a_loadable_file(
    file: FileView,
    id: TxnId,
    records: Seq<MutationRecord>,
    performed: Seq<EffectView>,
)
    requires
        file.refusal() is None,
        ascending(file.history()),
        !has_entry(file.history(), id),
        !covered(file.frontier, id),
        records.len() > 0,
        performed.is_prefix_of(commit_script(file, id, records)),
    ensures
        durable(Some(file), performed) == Some(
            if performed.len() > captures(records).len() {
                file.with_transaction(id, records)
            } else {
                file
            },
        ),
        durable(Some(file), performed)->0.refusal() is None,
        performed.contains(EffectView::CommitSubject(id)) ==> durable(Some(file), performed)
            == Some(file.with_transaction(id, records)),
        performed.len() > captures(records).len() ==> forall|name: Seq<char>|
            captures(records).contains(name) ==> #[trigger] performed.contains(
                EffectView::SyncCapture(name),
            ),
{
    law_published_files_may_be_loaded(file, id, records);
    let names = captures(records);
    let k = names.len() as int;
    let script = commit_script(file, id, records);
    let n = performed.len() as int;
    assert forall|i: int| 0 <= i < n implies performed[i] == #[trigger] script[i] by {
        assert(performed[i] == script.subrange(0, n)[i]);
    }
    assert forall|i: int| 0 <= i < k implies #[trigger] script[i] == EffectView::SyncCapture(
        names[i],
    ) by {}
    let early = performed.take(if n < k {
        n
    } else {
        k
    });
    assert forall|i: int| 0 <= i < early.len() implies !(#[trigger] early[i] is Publish) && !(
    early[i] is CreateCommitted) by {
        assert(early[i] == script[i]);
    }
    lemma_durable_unchanged(Some(file), early);
    if n <= k {
        assert(early =~= performed);
    } else {
        let published = performed.take(k + 1);
        assert(published.last() == script[k]);
        assert(durable(Some(file), published) == Some(file.with_transaction(id, records)));
        if n == k + 1 {
            assert(published =~= performed);
        } else {
            assert(performed.drop_last() =~= published);
            assert(performed.last() == script[k + 1]);
        }
        assert forall|name: Seq<char>| names.contains(name) implies #[trigger] performed.contains(
            EffectView::SyncCapture(name),
        ) by {
            let i = choose|i: int| 0 <= i < names.len() && names[i] == name;
            assert(performed[i] == script[i]);
        }
    }
    if performed.contains(EffectView::CommitSubject(id)) {
        let i = choose|i: int| 0 <= i < n && performed[i] == EffectView::CommitSubject(id);
        assert(performed[i] == script[i]);
    }
}

/// At whatever effect a finalization is interrupted, the committed file is the old one, or it
/// refuses to be loaded because the canonical subject may be half updated, or it is the one without
/// the finalized transactions. The canonical subject is updated only while the file says so, unless
/// no retained transaction is covered; and a file without the finalized transactions is published
/// only after the canonical subject is synchronized.
pub proof fn law_interrupted_finalizations_are_noticed(
    file: FileView,
    cutoff: TxnId,
    performed: Seq<EffectView>,
)
    requires
        file.refusal() is None,
        ascending(file.history()),
        performed.is_prefix_of(finalize_script(file, cutoff)),
    ensures
        ({
            let found = durable(Some(file), performed)->0;
            let updated = performed.contains(EffectView::FinalizeSubject(cutoff));
            let complete = performed == finalize_script(file, cutoff);
            &&& durable(Some(file), performed) is Some
            &&& found == file || found == file.with_intent(cutoff) || found == file.finalized(
                cutoff,
            )
            &&& complete ==> found == file.finalized(cutoff) && found.refusal() is None
            &&& file.covers(cutoff) && !complete ==> {
                &&& updated ==> found.refusal() == Some(ChainError::RecoveryRequired)
                &&& found == file || found == file.with_intent(cutoff)
            }
            &&& file.covers(cutoff) && complete ==> performed.contains(EffectView::SyncSubject)
            &&& !file.covers(cutoff) ==> found.history() == file.history() && found.refusal()
                is None
        }),
{
    law_finalized_files_may_be_loaded(file, cutoff);
    let script = finalize_script(file, cutoff);
    let n = performed.len() as int;
    assert forall|i: int| 0 <= i < n implies performed[i] == #[trigger] script[i] by {
        assert(performed[i] == script.subrange(0, n)[i]);
    }
    reveal_with_fuel(durable, 5);
    if file.covers(cutoff) {
        assert(script[0] == EffectView::Publish(file.with_intent(cutoff)));
        assert(script[1] == EffectView::FinalizeSubject(cutoff));
        assert(script[2] == EffectView::SyncSubject);
        assert(script[3] == EffectView::Publish(file.finalized(cutoff)));
        if n == 4 {
            assert(performed =~= script);
            assert(performed[2] == EffectView::SyncSubject);
        }
    } else {
        assert(script[0] == EffectView::FinalizeSubject(cutoff));
        assert(script[1] == EffectView::Publish(file.finalized(cutoff)));
        if n == 2 {
            assert(performed =~= script);
        }
    }
}

/// At whatever effect a creation is interrupted, there is no committed file, or there is an empty
/// one which may be loaded; there is one only once the initial subject is synchronized.
pub proof fn law_interrupted_creations_leave_no_file(performed: Seq<EffectView>)
    requires
        performed.is_prefix_of(create_script()),
    ensures
        durable(None, performed) == if performed == create_script() {
            Some(empty_file())
        } else {
            None
        },
        durable(None, performed) is Some ==> performed.contains(EffectView::SyncSubject),
        empty_file().refusal() is None,
{
    let script = create_script();
    let n = performed.len() as int;
    assert forall|i: int| 0 <= i < n implies performed[i] == #[trigger] script[i] by {
        assert(performed[i] == script.subrange(0, n)[i]);
    }
    reveal_with_fuel(durable, 3);
    assert(script[0] == EffectView::SyncSubject);
    if n == 2 {
        assert(performed =~= script);
        assert(performed[0] == script[0]);
        assert(performed.last() == script[1]);
    }
}

/// An operation which succeeds has asked for its whole script.
proof fn lemma_scripts_are_completed(chain: ChainView, replies: Seq<Reply>)
    requires
        chain.procedure matches ProcedureView::Running { ending, .. } && ends_plainly(ending),
        finished(chain, replies) is Some,
    ensures
        asked(chain, replies) == chain.procedure->rest,
        !(chain.procedure->ending is AlreadyPublished),
    decreases replies.len(),
{
    let rest = chain.procedure->rest;
    match chain.advanced(replies[0]) {
        (next, Ok(Some(effect))) => {
            lemma_scripts_are_completed(next, replies.skip(1));
            assert(rest =~= seq![rest[0]] + rest.skip(1));
        },
        _ => {
            assert(rest =~= Seq::empty());
        },
    }
}

/// An operation which succeeds has asked for its whole script, from the start.
proof fn lemma_scripts_are_completed_from_start(
    chain: ChainView,
    replies: Seq<Reply>,
    script: Seq<EffectView>,
)
    requires
        replies.len() > 0,
        finished(chain, replies) is Some,
        chain.advanced(replies[0]).1 matches Ok(Some(effect)) && {
            &&& script.len() > 0
            &&& effect == script[0]
            &&& chain.advanced(replies[0]).0.procedure matches ProcedureView::Running {
                rest,
                ending,
                ..
            } && rest == script.skip(1) && ends_plainly(ending)
        },
    ensures
        asked(chain, replies) == script,
        !(chain.advanced(replies[0]).0.procedure->ending is AlreadyPublished),
{
    let next = chain.advanced(replies[0]).0;
    lemma_scripts_are_completed(next, replies.skip(1));
    assert(script =~= seq![script[0]] + script.skip(1));
}

/// A commit which succeeds has synchronized every capture, published the records of the
/// transaction, and made the transaction visible: the committed file holds its records.
pub proof fn law_acknowledged_commits_are_durable_and_visible(
    chain: ChainView,
    id: TxnId,
    records: Seq<MutationRecord>,
    replies: Seq<Reply>,
)
    requires
        chain.procedure == (ProcedureView::Publishing { id, records }),
        finished(chain, replies) is Some,
    ensures
        ({
            &&& replies[0] matches Reply::Committed(file)
            &&& !has_entry(file@.history(), id)
            &&& asked(chain, replies) == commit_script(file@, id, records)
            &&& durable(Some(file@), asked(chain, replies)) == Some(
                file@.with_transaction(id, records),
            )
        }),
{
    match (replies[0], chain.advanced(replies[0])) {
        (Reply::Committed(file), (next, Ok(Some(_)))) => {
            if has_entry(file@.history(), id) {
                lemma_scripts_are_completed_from_start(
                    chain,
                    replies,
                    sync_script(captures(records)),
                );
            } else {
                let script = commit_script(file@, id, records);
                lemma_scripts_are_completed_from_start(chain, replies, script);
                assert(script.last() == EffectView::CommitSubject(id));
                assert(script.drop_last().last() == EffectView::Publish(
                    file@.with_transaction(id, records),
                ));
                reveal_with_fuel(durable, 3);
            }
        },
        _ => {},
    }
}

/// A finalization which succeeds has made the covered transactions canonical and dropped them from
/// the committed file, unless its cutoff was already finalized.
pub proof fn law_acknowledged_finalizations_are_durable(
    chain: ChainView,
    cutoff: TxnId,
    replies: Seq<Reply>,
)
    requires
        chain.procedure == (ProcedureView::Finalizing { cutoff }),
        finished(chain, replies) is Some,
    ensures
        ({
            &&& replies[0] matches Reply::Committed(file)
            &&& if covered(file@.frontier, cutoff) {
                asked(chain, replies).len() == 0
            } else {
                &&& asked(chain, replies) == finalize_script(file@, cutoff)
                &&& durable(Some(file@), asked(chain, replies)) == Some(file@.finalized(cutoff))
            }
        }),
{
    match replies[0] {
        Reply::Committed(file) => {
            if !covered(file@.frontier, cutoff) {
                let script = finalize_script(file@, cutoff);
                lemma_scripts_are_completed_from_start(chain, replies, script);
                assert(script.last() == EffectView::Publish(file@.finalized(cutoff)));
            }
        },
        _ => {},
    }
}

} // verus!
