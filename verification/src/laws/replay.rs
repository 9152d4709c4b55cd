//! Replay: what stands between the effects of a recovery, read off the effects themselves.

use vstd::prelude::*;

use crate::block::History;
use crate::chain::ChainView;
use crate::effect::{EffectView, Reply};
use crate::file::FileView;
use crate::laws::durability::{asked, durable, finished};
use crate::laws::recovery::{
    committed, invoked, law_recoveries_follow_their_script,
    law_recovery_retains_the_committed_file, law_reclamation_keeps_published_captures,
    law_replay_is_exact, law_successful_recoveries_are_complete, law_validation_is_complete,
    lemma_scripts_add, lemma_validation_only_verifies, listed, recovery_script, transactions,
};
use crate::laws::values::{
    law_histories_name_every_capture, law_records_capture_what_they_refer_to, misrefers, refers,
};
use crate::map::{ascending, entry_of, has_entry};
use crate::record::MutationRecord;
use crate::scalar::CollectionRef;
use crate::script::{
    check_effects, checks, invocations, reclaim_script, replay_history, replay_transaction,
    validate_script,
};
use crate::store::{
    all_records, any_malformed, captures, law_captures_are_exactly_the_references,
};
use crate::txn::TxnId;

verus! {

/// The collection to which an invoked request refers is verified by the effect just before, within
/// the same transaction.
pub open spec fn supplied_at(script: Seq<EffectView>, k: int) -> bool {
    match script[k] {
        EffectView::Apply(id, record) => match refers(record) {
            Some(found) => k > 0 && script[k - 1] == EffectView::Resolve(id, found),
            None => true,
        },
        _ => true,
    }
}

spec fn supplied(script: Seq<EffectView>) -> bool {
    forall|k: int| 0 <= k < script.len() ==> #[trigger] supplied_at(script, k)
}

proof fn lemma_supplied_add(a: Seq<EffectView>, b: Seq<EffectView>)
    requires
        supplied(a),
        supplied(b),
    ensures
        supplied(a + b),
{
    assert forall|k: int| 0 <= k < (a + b).len() implies #[trigger] supplied_at(a + b, k) by {
        if k < a.len() {
            assert(supplied_at(a, k));
        } else {
            assert(supplied_at(b, k - a.len()));
        }
    }
}

/// The transaction whose capability was requested last and which has not been committed since.
pub open spec fn current(script: Seq<EffectView>) -> Option<TxnId>
    decreases script.len(),
{
    if script.len() == 0 {
        None
    } else {
        match script.last() {
            EffectView::RequestTransaction(id) => Some(id),
            EffectView::CommitSubject(_) => None,
            _ => current(script.drop_last()),
        }
    }
}

/// Requests are invoked, and transactions committed, only with the capability of the transaction;
/// and a capability is requested only when none is in use.
pub open spec fn capable_at(script: Seq<EffectView>, k: int) -> bool {
    match script[k] {
        EffectView::RequestTransaction(_) => current(script.take(k)) is None,
        EffectView::Apply(id, _) => current(script.take(k)) == Some(id),
        EffectView::CommitSubject(id) => current(script.take(k)) == Some(id),
        _ => true,
    }
}

spec fn capable(script: Seq<EffectView>) -> bool {
    forall|k: int| 0 <= k < script.len() ==> #[trigger] capable_at(script, k)
}

proof fn lemma_current_add(a: Seq<EffectView>, b: Seq<EffectView>)
    ensures
        current(b) is Some ==> current(a + b) == current(b),
        (forall|i: int|
            0 <= i < b.len() ==> !(#[trigger] b[i] is RequestTransaction) && !(
            b[i] is CommitSubject)) ==> current(a + b) == current(a),
        current(a) is None && current(b) is None ==> current(a + b) is None,
    decreases b.len(),
{
    if b.len() == 0 {
        assert(a + b =~= a);
    } else {
        let init = b.drop_last();
        lemma_current_add(a, init);
        assert((a + b).drop_last() =~= a + init);
        assert((a + b).last() == b.last());
        assert(b.last() == b[b.len() - 1]);
        assert forall|i: int| 0 <= i < init.len() implies init[i] == #[trigger] b[i] by {}
    }
}

proof fn lemma_capable_add(a: Seq<EffectView>, b: Seq<EffectView>)
    requires
        capable(a),
        current(a) is None,
        capable(b),
    ensures
        capable(a + b),
        current(b) is None ==> current(a + b) is None,
{
    lemma_current_add(a, b);
    assert forall|k: int| 0 <= k < (a + b).len() implies #[trigger] capable_at(a + b, k) by {
        if k < a.len() {
            assert(capable_at(a, k));
            assert((a + b).take(k) =~= a.take(k));
        } else {
            let n = k - a.len();
            assert(capable_at(b, n));
            assert((a + b).take(k) =~= a + b.take(n));
            lemma_current_add(a, b.take(n));
        }
    }
}

/// Whether an effect belongs to the replay of a transaction.
pub open spec fn replays_requests(effect: EffectView) -> bool {
    effect is RequestTransaction || effect is Apply || effect is CommitSubject
}

/// Effects which replay no request need no value and no capability.
proof fn lemma_other_effects(script: Seq<EffectView>)
    requires
        forall|i: int| 0 <= i < script.len() ==> !replays_requests(#[trigger] script[i]),
    ensures
        supplied(script),
        capable(script),
        current(script) is None,
        committed(script) == Seq::<TxnId>::empty(),
        forall|id: TxnId| #[trigger] invoked(script, id) == Seq::<MutationRecord>::empty(),
    decreases script.len(),
{
    assert forall|k: int| 0 <= k < script.len() implies #[trigger] supplied_at(script, k) by {
        assert(!replays_requests(script[k]));
    }
    assert forall|k: int| 0 <= k < script.len() implies #[trigger] capable_at(script, k) by {
        assert(!replays_requests(script[k]));
    }
    if script.len() > 0 {
        let init = script.drop_last();
        assert forall|i: int| 0 <= i < init.len() implies !replays_requests(#[trigger] init[i]) by {
            assert(init[i] == script[i]);
        }
        lemma_other_effects(init);
        assert(script.last() == script[script.len() - 1]);
        assert forall|id: TxnId| #[trigger] invoked(script, id) == Seq::<
            MutationRecord,
        >::empty() by {
            assert(invoked(init, id) == Seq::<MutationRecord>::empty());
        }
    }
}

/// The invocations of a transaction, each after its value.
proof fn lemma_invocations(id: TxnId, records: Seq<MutationRecord>)
    requires
        forall|j: int| 0 <= j < records.len() ==> !misrefers(#[trigger] records[j]),
    ensures
        supplied(invocations(id, records)),
        forall|i: int|
            0 <= i < invocations(id, records).len() ==> {
                let effect = #[trigger] invocations(id, records)[i];
                effect is Resolve || (effect matches EffectView::Apply(other, _) && other == id)
            },
    decreases records.len(),
{
    if records.len() > 0 {
        let init = records.drop_last();
        let record = records.last();
        assert forall|j: int| 0 <= j < init.len() implies !misrefers(#[trigger] init[j]) by {
            assert(init[j] == records[j]);
        }
        lemma_invocations(id, init);
        assert(records[records.len() - 1] == record);
        law_records_capture_what_they_refer_to(record);
        let one = check_effects(id, record) + seq![EffectView::Apply(id, record)];
        assert forall|k: int| 0 <= k < one.len() implies #[trigger] supplied_at(one, k) by {}
        lemma_supplied_add(invocations(id, init), one);
        assert(invocations(id, records) =~= invocations(id, init) + one);
        assert forall|i: int| 0 <= i < invocations(id, records).len() implies ({
            let effect = #[trigger] invocations(id, records)[i];
            effect is Resolve || (effect matches EffectView::Apply(other, _) && other == id)
        }) by {
            if i < invocations(id, init).len() {
                assert(invocations(id, records)[i] == invocations(id, init)[i]);
            } else {
                assert(invocations(id, records)[i] == one[i - invocations(id, init).len()]);
            }
        }
    }
}

/// The replay of a transaction.
proof fn lemma_transaction(id: TxnId, records: Seq<MutationRecord>)
    requires
        forall|j: int| 0 <= j < records.len() ==> !misrefers(#[trigger] records[j]),
    ensures
        supplied(replay_transaction(id, records)),
        capable(replay_transaction(id, records)),
        current(replay_transaction(id, records)) is None,
{
    let requested = seq![EffectView::RequestTransaction(id)];
    let middle = invocations(id, records);
    let done = seq![EffectView::CommitSubject(id)];
    let whole = replay_transaction(id, records);
    lemma_invocations(id, records);
    assert(whole.last() == EffectView::CommitSubject(id));
    assert(supplied(requested)) by {
        assert forall|k: int| 0 <= k < requested.len() implies #[trigger] supplied_at(
            requested,
            k,
        ) by {}
    }
    assert(supplied(done)) by {
        assert forall|k: int| 0 <= k < done.len() implies #[trigger] supplied_at(done, k) by {}
    }
    lemma_supplied_add(requested, middle);
    lemma_supplied_add(requested + middle, done);
    assert forall|k: int| 0 <= k < whole.len() implies #[trigger] capable_at(whole, k) by {
        if k > 0 {
            let first = middle.take(k - 1);
            assert(whole.take(k) =~= requested + first);
            assert forall|i: int| 0 <= i < first.len() implies !(
            #[trigger] first[i] is RequestTransaction) && !(first[i] is CommitSubject) by {
                assert(first[i] == middle[i]);
            }
            lemma_current_add(requested, first);
            assert(requested.last() == EffectView::RequestTransaction(id));
            if k - 1 < middle.len() {
                assert(whole[k] == middle[k - 1]);
            }
        } else {
            assert(whole.take(0) =~= Seq::empty());
        }
    }
}

/// In the replay of a history, a request which refers to a stored collection is invoked directly
/// after just that collection is verified, within the same transaction, whichever kind of request
/// it is; and it is invoked with the capability of its transaction.
pub proof fn law_replayed_values_are_verified_first(history: History, k: int)
    requires
        forall|i: int, j: int|
            0 <= i < history.len() && 0 <= j < history[i].1.len() ==> !misrefers(
                #[trigger] history[i].1[j],
            ),
        0 <= k < replay_history(history).len(),
    ensures
        supplied_at(replay_history(history), k),
        capable_at(replay_history(history), k),
{
    lemma_history(history);
    assert(supplied_at(replay_history(history), k));
    assert(capable_at(replay_history(history), k));
}

proof fn lemma_history(history: History)
    requires
        forall|i: int, j: int|
            0 <= i < history.len() && 0 <= j < history[i].1.len() ==> !misrefers(
                #[trigger] history[i].1[j],
            ),
    ensures
        supplied(replay_history(history)),
        capable(replay_history(history)),
        current(replay_history(history)) is None,
    decreases history.len(),
{
    if history.len() > 0 {
        let init = history.drop_last();
        let (id, records) = history.last();
        assert forall|i: int, j: int|
            0 <= i < init.len() && 0 <= j < init[i].1.len() implies !misrefers(
            #[trigger] init[i].1[j],
        ) by {
            assert(init[i].1[j] == history[i].1[j]);
        }
        lemma_history(init);
        assert forall|j: int| 0 <= j < records.len() implies !misrefers(#[trigger] records[j]) by {
            assert(history[history.len() - 1].1[j] == records[j]);
        }
        lemma_transaction(id, records);
        lemma_supplied_add(replay_history(init), replay_transaction(id, records));
        lemma_capable_add(replay_history(init), replay_transaction(id, records));
    }
}

/// The parts of a recovery: what comes before the history is replayed, the replay, and what comes
/// after.
spec fn prelude(file: FileView) -> Seq<EffectView> {
    seq![EffectView::LoadSubject] + validate_script(file.history()) + match file.frontier {
        Some(cutoff) => seq![EffectView::InitializeCutoff(cutoff)],
        None => Seq::empty(),
    }
}

spec fn epilogue(file: FileView, names: Seq<Seq<char>>) -> Seq<EffectView> {
    seq![EffectView::ListCaptures] + reclaim_script(names, captures(all_records(file.history())))
}

proof fn lemma_parts(file: FileView, names: Seq<Seq<char>>)
    ensures
        recovery_script(file, names) == prelude(file) + replay_history(file.history()) + epilogue(
            file,
            names,
        ),
        forall|i: int|
            0 <= i < prelude(file).len() ==> !replays_requests(#[trigger] prelude(file)[i])
                && !(prelude(file)[i] is DeleteCapture),
        forall|i: int|
            0 <= i < epilogue(file, names).len() ==> !replays_requests(
                #[trigger] epilogue(file, names)[i],
            ) && !(epilogue(file, names)[i] is InitializeCutoff),
{
    assert(recovery_script(file, names) =~= prelude(file) + replay_history(file.history())
        + epilogue(file, names));
    lemma_validation_only_verifies(file.history());
    assert forall|i: int| 0 <= i < prelude(file).len() implies !replays_requests(
        #[trigger] prelude(file)[i],
    ) && !(prelude(file)[i] is DeleteCapture) by {
        if 0 < i <= validate_script(file.history()).len() {
            assert(prelude(file)[i] == validate_script(file.history())[i - 1]);
        }
    }
    law_reclamation_keeps_published_captures(names, file.history(), Seq::empty());
    let unused = reclaim_script(names, captures(all_records(file.history())));
    assert forall|i: int| 0 <= i < epilogue(file, names).len() implies !replays_requests(
        #[trigger] epilogue(file, names)[i],
    ) && !(epilogue(file, names)[i] is InitializeCutoff) by {
        if i > 0 {
            assert(epilogue(file, names)[i] == unused[i - 1]);
        }
    }
}

/// What a recovery has asked for is the beginning of its script; and it has asked for something
/// only if the file may be loaded.
proof fn lemma_recovery(chain: ChainView, replies: Seq<Reply>)
    requires
        chain.procedure is Reading,
        asked(chain, replies).len() > 0,
    ensures
        replies.len() > 0,
        replies[0] is Committed,
        ({
            let file = replies[0]->Committed_0@;
            let script = recovery_script(file, listed(chain, replies));
            &&& asked(chain, replies).len() <= script.len()
            &&& forall|k: int|
                0 <= k < asked(chain, replies).len() ==> #[trigger] asked(chain, replies)[k]
                    == script[k]
            &&& forall|k: int|
                0 <= k <= asked(chain, replies).len() ==> #[trigger] asked(chain, replies).take(k)
                    == script.take(k)
            &&& file.refusal() is None
            &&& !any_malformed(all_records(file.history()))
            &&& forall|i: int, j: int|
                0 <= i < file.block.history.len() && 0 <= j < file.block.history[i].1.len()
                    ==> !misrefers(#[trigger] file.block.history[i].1[j])
        }),
{
    law_recoveries_follow_their_script(chain, replies);
    let file = replies[0]->Committed_0@;
    let script = recovery_script(file, listed(chain, replies));
    let performed = asked(chain, replies);
    assert forall|k: int| 0 <= k < performed.len() implies #[trigger] performed[k] == script[k] by {
        assert(performed[k] == script.subrange(0, performed.len() as int)[k]);
    }
    assert forall|k: int| 0 <= k <= performed.len() implies #[trigger] performed.take(k)
        == script.take(k) by {
        assert(performed.take(k) =~= script.take(k));
    }
    law_histories_name_every_capture(file.history(), Seq::empty());
}

/// A request which a recovery invokes, and which refers to a stored collection, is invoked directly
/// after just that collection is verified, within the same transaction. Requests are invoked, and
/// transactions committed, only with the capability of the transaction, which was requested before
/// and has not been used up; no other is requested meanwhile.
pub proof fn law_recoveries_supply_verified_values(chain: ChainView, replies: Seq<Reply>, k: int)
    requires
        chain.procedure is Reading,
        0 <= k < asked(chain, replies).len(),
    ensures
        match asked(chain, replies)[k] {
            EffectView::Apply(id, record) => {
                &&& refers(record) matches Some(found) ==> k > 0 && asked(chain, replies)[k - 1]
                    == EffectView::Resolve(id, found)
                &&& current(asked(chain, replies).take(k)) == Some(id)
            },
            EffectView::CommitSubject(id) => current(asked(chain, replies).take(k)) == Some(id),
            EffectView::RequestTransaction(_) => current(asked(chain, replies).take(k)) is None,
            _ => true,
        },
{
    lemma_recovery(chain, replies);
    let file = replies[0]->Committed_0@;
    let names = listed(chain, replies);
    let script = recovery_script(file, names);
    lemma_parts(file, names);
    lemma_other_effects(prelude(file));
    lemma_other_effects(epilogue(file, names));
    lemma_history(file.history());
    let first = prelude(file) + replay_history(file.history());
    lemma_supplied_add(prelude(file), replay_history(file.history()));
    lemma_capable_add(prelude(file), replay_history(file.history()));
    lemma_supplied_add(first, epilogue(file, names));
    lemma_capable_add(first, epilogue(file, names));
    assert(supplied_at(script, k));
    assert(capable_at(script, k));
    assert(asked(chain, replies)[k] == script[k]);
    assert(asked(chain, replies).take(k) == script.take(k));
    if k > 0 {
        assert(asked(chain, replies)[k - 1] == script[k - 1]);
    }
}

/// A recovery which succeeds has invoked, for each transaction, exactly its records in their order,
/// and it has committed exactly the transactions of the file in replay order.
pub proof fn law_successful_recoveries_replay_exactly_the_file(
    chain: ChainView,
    replies: Seq<Reply>,
    id: TxnId,
)
    requires
        chain.procedure is Reading,
        finished(chain, replies) is Some,
        replies[0] matches Reply::Committed(file) ==> ascending(file@.block.history),
    ensures
        ({
            &&& replies[0] matches Reply::Committed(file)
            &&& committed(asked(chain, replies)) == transactions(file@.block.history)
            &&& invoked(asked(chain, replies), id) == if has_entry(file@.block.history, id) {
                entry_of(file@.block.history, id)
            } else {
                Seq::empty()
            }
        }),
{
    law_successful_recoveries_are_complete(chain, replies);
    let file = replies[0]->Committed_0@;
    lemma_whole(file, listed(chain, replies), id);
}

proof fn lemma_whole(file: FileView, names: Seq<Seq<char>>, id: TxnId)
    requires
        ascending(file.history()),
    ensures
        committed(recovery_script(file, names)) == transactions(file.history()),
        committed(prelude(file) + replay_history(file.history())) == transactions(file.history()),
        invoked(recovery_script(file, names), id) == invoked(replay_history(file.history()), id),
        invoked(replay_history(file.history()), id) == if has_entry(file.history(), id) {
            entry_of(file.history(), id)
        } else {
            Seq::empty()
        },
{
    lemma_parts(file, names);
    lemma_other_effects(prelude(file));
    lemma_other_effects(epilogue(file, names));
    law_replay_is_exact(file.history(), id);
    let replay = replay_history(file.history());
    lemma_scripts_add(prelude(file), replay, id);
    lemma_scripts_add(prelude(file) + replay, epilogue(file, names), id);
    assert(invoked(epilogue(file, names), id) == Seq::<MutationRecord>::empty());
    assert(invoked(prelude(file), id) == Seq::<MutationRecord>::empty());
    assert(committed(prelude(file) + replay) =~= transactions(file.history()));
    assert(committed(recovery_script(file, names)) =~= transactions(file.history()));
    assert(invoked(prelude(file) + replay, id) =~= invoked(replay, id));
    assert(invoked(recovery_script(file, names), id) =~= invoked(replay, id));
}

/// Before a recovery asks for the capability of any transaction, it has loaded the subject, verified
/// every collection to which any record of the file refers, and handed the finalized cutoff, if the
/// file has one, to the subject.
pub proof fn law_recoveries_validate_before_they_replay(
    chain: ChainView,
    replies: Seq<Reply>,
    k: int,
    i: int,
    j: int,
)
    requires
        chain.procedure is Reading,
        0 <= k < asked(chain, replies).len(),
        replays_requests(asked(chain, replies)[k]),
    ensures
        asked(chain, replies)[0] == EffectView::LoadSubject,
        replies[0] matches Reply::Committed(file) && {
            let history = file@.block.history;
            let before = asked(chain, replies).take(k);
            &&& 0 <= i < history.len() && 0 <= j < history[i].1.len() ==> {
                refers(history[i].1[j]) matches Some(found) ==> before.contains(
                    EffectView::Resolve(history[i].0, found),
                )
            }
            &&& file@.frontier matches Some(cutoff) ==> before.contains(
                EffectView::InitializeCutoff(cutoff),
            )
        },
{
    lemma_recovery(chain, replies);
    let file = replies[0]->Committed_0@;
    let names = listed(chain, replies);
    let script = recovery_script(file, names);
    let performed = asked(chain, replies);
    let history = file.block.history;
    lemma_parts(file, names);
    let n = prelude(file).len() as int;
    assert(performed[0] == script[0]);
    assert(k >= n) by {
        if k < n {
            assert(script[k] == prelude(file)[k]);
        }
    }
    let before = performed.take(k);
    assert forall|m: int| 0 <= m < n implies before[m] == #[trigger] prelude(file)[m] by {
        assert(performed[m] == script[m]);
    }
    if 0 <= i < history.len() && 0 <= j < history[i].1.len() {
        if let Some(found) = refers(history[i].1[j]) {
            law_records_capture_what_they_refer_to(history[i].1[j]);
            law_validation_is_complete(history, i, j);
            let checked = validate_script(history);
            let m = choose|m: int|
                0 <= m < checked.len() && checked[m] == EffectView::Resolve(history[i].0, found);
            assert(before[m + 1] == prelude(file)[m + 1]);
        }
    }
    if file.frontier is Some {
        assert(before[n - 1] == prelude(file)[n - 1]);
    }
}

/// What a recovery verifies is what a record of the file refers to, within its transaction.
pub proof fn law_recoveries_verify_only_what_is_referred_to(
    chain: ChainView,
    replies: Seq<Reply>,
    k: int,
    id: TxnId,
    found: CollectionRef,
)
    requires
        chain.procedure is Reading,
        0 <= k < asked(chain, replies).len(),
        asked(chain, replies)[k] == EffectView::Resolve(id, found),
    ensures
        replies[0] matches Reply::Committed(file) && referred(file@.block.history, id, found),
{
    lemma_recovery(chain, replies);
    let file = replies[0]->Committed_0@;
    let names = listed(chain, replies);
    let script = recovery_script(file, names);
    let history = file.block.history;
    lemma_parts(file, names);
    lemma_referred(history, id, found);
    law_reclamation_keeps_published_captures(names, history, Seq::empty());
    let n = prelude(file).len() as int;
    let r = replay_history(history).len() as int;
    assert(asked(chain, replies)[k] == script[k]);
    if k < n {
        assert(script[k] == prelude(file)[k]);
        assert(prelude(file)[k] == validate_script(history)[k - 1]);
        assert(validate_script(history).contains(EffectView::Resolve(id, found)));
    } else if k < n + r {
        assert(script[k] == replay_history(history)[k - n]);
        assert(replay_history(history).contains(EffectView::Resolve(id, found)));
    } else {
        let unused = reclaim_script(names, captures(all_records(history)));
        assert(script[k] == epilogue(file, names)[k - n - r]);
        if k > n + r {
            assert(script[k] == unused[k - n - r - 1]);
        }
    }
}

/// Whether a record of a transaction in a history refers to a collection.
pub open spec fn referred(history: History, id: TxnId, found: CollectionRef) -> bool {
    exists|i: int, j: int|
        0 <= i < history.len() && 0 <= j < history[i].1.len() && history[i].0 == id && refers(
            #[trigger] history[i].1[j],
        ) == Some(found)
}

proof fn lemma_referred(history: History, id: TxnId, found: CollectionRef)
    ensures
        validate_script(history).contains(EffectView::Resolve(id, found)) ==> referred(
            history,
            id,
            found,
        ),
        replay_history(history).contains(EffectView::Resolve(id, found)) ==> referred(
            history,
            id,
            found,
        ),
    decreases history.len(),
{
    if history.len() > 0 {
        let init = history.drop_last();
        let (last, records) = history.last();
        let effect = EffectView::Resolve(id, found);
        lemma_referred(init, id, found);
        lemma_referred_within(last, records, id, found);
        if referred(init, id, found) {
            let (i, j) = choose|i: int, j: int|
                0 <= i < init.len() && 0 <= j < init[i].1.len() && init[i].0 == id && refers(
                    #[trigger] init[i].1[j],
                ) == Some(found);
            assert(refers(history[i].1[j]) == Some(found));
        }
        if exists|j: int| 0 <= j < records.len() && refers(#[trigger] records[j]) == Some(found) {
            let j = choose|j: int|
                0 <= j < records.len() && refers(#[trigger] records[j]) == Some(found);
            assert(refers(history[history.len() - 1].1[j]) == Some(found));
        }
        if validate_script(history).contains(effect) {
            let k = choose|k: int|
                0 <= k < validate_script(history).len() && validate_script(history)[k] == effect;
            let n = validate_script(init).len();
            if k < n {
                assert(validate_script(init)[k] == effect);
            } else {
                assert(checks(last, records)[k - n] == effect);
            }
        }
        if replay_history(history).contains(effect) {
            let k = choose|k: int|
                0 <= k < replay_history(history).len() && replay_history(history)[k] == effect;
            let n = replay_history(init).len();
            if k < n {
                assert(replay_history(init)[k] == effect);
            } else {
                assert(replay_transaction(last, records)[k - n] == effect);
                assert(invocations(last, records)[k - n - 1] == effect);
            }
        }
    }
}

proof fn lemma_referred_within(
    last: TxnId,
    records: Seq<MutationRecord>,
    id: TxnId,
    found: CollectionRef,
)
    ensures
        checks(last, records).contains(EffectView::Resolve(id, found)) ==> last == id && exists|
            j: int,
        |
            0 <= j < records.len() && refers(#[trigger] records[j]) == Some(found),
        invocations(last, records).contains(EffectView::Resolve(id, found)) ==> last == id
            && exists|j: int| 0 <= j < records.len() && refers(#[trigger] records[j]) == Some(found),
    decreases records.len(),
{
    if records.len() > 0 {
        let init = records.drop_last();
        let record = records.last();
        let effect = EffectView::Resolve(id, found);
        lemma_referred_within(last, init, id, found);
        law_records_capture_what_they_refer_to(record);
        assert(records[records.len() - 1] == record);
        assert forall|j: int| 0 <= j < init.len() implies #[trigger] init[j] == records[j] by {}
        if checks(last, records).contains(effect) {
            let k = choose|k: int|
                0 <= k < checks(last, records).len() && checks(last, records)[k] == effect;
            if k < checks(last, init).len() {
                assert(checks(last, init)[k] == effect);
            }
        }
        if invocations(last, records).contains(effect) {
            let k = choose|k: int|
                0 <= k < invocations(last, records).len() && invocations(last, records)[k]
                    == effect;
            if k < invocations(last, init).len() {
                assert(invocations(last, init)[k] == effect);
            }
        }
    }
}

/// The subject gets no other cutoff than that of the file, and gets it before any request.
pub proof fn law_recoveries_initialize_the_cutoff_first(
    chain: ChainView,
    replies: Seq<Reply>,
    k: int,
    cutoff: TxnId,
    m: int,
)
    requires
        chain.procedure is Reading,
        0 <= m <= k < asked(chain, replies).len(),
        asked(chain, replies)[k] == EffectView::InitializeCutoff(cutoff),
    ensures
        replies[0] matches Reply::Committed(file) && file@.frontier == Some(cutoff),
        !replays_requests(asked(chain, replies)[m]),
{
    lemma_recovery(chain, replies);
    let file = replies[0]->Committed_0@;
    let names = listed(chain, replies);
    let script = recovery_script(file, names);
    lemma_parts(file, names);
    lemma_validation_only_verifies(file.history());
    lemma_history_kinds(file.history());
    let n = prelude(file).len() as int;
    let r = replay_history(file.history()).len() as int;
    assert(asked(chain, replies)[k] == script[k]);
    assert(asked(chain, replies)[m] == script[m]);
    if k >= n + r {
        assert(script[k] == epilogue(file, names)[k - n - r]);
    } else if k >= n {
        assert(script[k] == replay_history(file.history())[k - n]);
    } else {
        assert(script[k] == prelude(file)[k]);
        assert(script[m] == prelude(file)[m]);
        if 0 < k <= validate_script(file.history()).len() {
            assert(prelude(file)[k] == validate_script(file.history())[k - 1]);
        }
    }
}

/// The kinds of effects in a replay.
pub proof fn lemma_history_kinds(history: History)
    ensures
        forall|i: int|
            0 <= i < replay_history(history).len() ==> {
                let effect = #[trigger] replay_history(history)[i];
                replays_requests(effect) || effect is Resolve
            },
    decreases history.len(),
{
    if history.len() > 0 {
        let init = history.drop_last();
        let (id, records) = history.last();
        lemma_history_kinds(init);
        lemma_invocation_kinds(id, records);
        assert forall|i: int| 0 <= i < replay_history(history).len() implies ({
            let effect = #[trigger] replay_history(history)[i];
            replays_requests(effect) || effect is Resolve
        }) by {
            let n = replay_history(init).len();
            if i < n {
                assert(replay_history(history)[i] == replay_history(init)[i]);
            } else {
                assert(replay_history(history)[i] == replay_transaction(id, records)[i - n]);
                if 0 < i - n <= invocations(id, records).len() {
                    assert(replay_history(history)[i] == invocations(id, records)[i - n - 1]);
                }
            }
        }
    }
}

proof fn lemma_invocation_kinds(id: TxnId, records: Seq<MutationRecord>)
    ensures
        forall|i: int|
            0 <= i < invocations(id, records).len() ==> {
                let effect = #[trigger] invocations(id, records)[i];
                effect is Apply || effect is Resolve
            },
    decreases records.len(),
{
    if records.len() > 0 {
        lemma_invocation_kinds(id, records.drop_last());
    }
}

/// A recovery never deletes a capture to which any record of any transaction of the file refers,
/// whatever else the transaction holds. It deletes only what is listed, and only after it has
/// committed every transaction of the file.
pub proof fn law_recoveries_keep_every_published_capture(
    chain: ChainView,
    replies: Seq<Reply>,
    k: int,
    name: Seq<char>,
    i: int,
    j: int,
)
    requires
        chain.procedure is Reading,
        0 <= k < asked(chain, replies).len(),
        asked(chain, replies)[k] == EffectView::DeleteCapture(name),
    ensures
        replies[0] matches Reply::Committed(file) && {
            let history = file@.block.history;
            &&& 0 <= i < history.len() && 0 <= j < history[i].1.len() ==> {
                refers(history[i].1[j]) matches Some(found) ==> found.name@ != name
            }
            &&& ascending(history) ==> committed(asked(chain, replies).take(k)) == transactions(
                history,
            )
        },
        listed(chain, replies).contains(name),
{
    lemma_recovery(chain, replies);
    let file = replies[0]->Committed_0@;
    let names = listed(chain, replies);
    let script = recovery_script(file, names);
    let history = file.block.history;
    lemma_parts(file, names);
    lemma_history_kinds(history);
    let first = prelude(file) + replay_history(history);
    let n = prelude(file).len() as int;
    assert(asked(chain, replies)[k] == script[k]);
    assert(k >= first.len()) by {
        if k < n {
            assert(script[k] == prelude(file)[k]);
        } else if k < first.len() {
            assert(script[k] == replay_history(history)[k - n]);
        }
    }
    let rest = epilogue(file, names);
    let m = k - first.len();
    let unused = reclaim_script(names, captures(all_records(history)));
    assert(script[k] == rest[m]);
    assert(rest[m] == unused[m - 1]);
    assert(unused.contains(EffectView::DeleteCapture(name)));
    law_reclamation_keeps_published_captures(names, history, name);
    lemma_deleted(names, history, name);
    if 0 <= i < history.len() && 0 <= j < history[i].1.len() {
        if let Some(found) = refers(history[i].1[j]) {
            assert(!misrefers(history[i].1[j]));
        }
    }
    if ascending(history) {
        lemma_whole(file, names, history[0].0);
        let tail = rest.take(m);
        assert forall|x: int| 0 <= x < tail.len() implies !replays_requests(#[trigger] tail[x]) by {
            assert(tail[x] == rest[x]);
        }
        lemma_other_effects(tail);
        assert(script.take(k) =~= first + tail);
        lemma_scripts_add(first, tail, history[0].0);
        assert(committed(first) + Seq::<TxnId>::empty() =~= committed(first));
    }
}

/// What reclamation deletes, by the records of a history.
proof fn lemma_deleted(names: Seq<Seq<char>>, history: History, name: Seq<char>)
    requires
        !any_malformed(all_records(history)),
    ensures
        reclaim_script(names, captures(all_records(history))).contains(
            EffectView::DeleteCapture(name),
        ) <==> names.contains(name) && !exists|i: int, j: int|
            0 <= i < history.len() && 0 <= j < history[i].1.len() && (refers(
                #[trigger] history[i].1[j],
            ) matches Some(found) && found.name@ == name),
{
    let records = all_records(history);
    law_reclamation_keeps_published_captures(names, history, name);
    law_histories_name_every_capture(history, name);
    law_captures_are_exactly_the_references(records);
}

/// A recovery which succeeds has deleted every listed capture to which no record of the file
/// refers, and the deletions are synchronized by the last effect.
pub proof fn law_recoveries_delete_what_nothing_refers_to(
    chain: ChainView,
    replies: Seq<Reply>,
    name: Seq<char>,
)
    requires
        chain.procedure is Reading,
        finished(chain, replies) is Some,
        listed(chain, replies).contains(name),
        replies[0] matches Reply::Committed(file) ==> forall|i: int, j: int|
            0 <= i < file@.block.history.len() && 0 <= j < file@.block.history[i].1.len() ==> {
                refers(#[trigger] file@.block.history[i].1[j]) matches Some(found) ==> found.name@
                    != name
            },
    ensures
        asked(chain, replies).contains(EffectView::DeleteCapture(name)),
        asked(chain, replies).last() == EffectView::SyncDeleted,
{
    law_successful_recoveries_are_complete(chain, replies);
    lemma_recovery(chain, replies);
    let file = replies[0]->Committed_0@;
    let names = listed(chain, replies);
    let history = file.block.history;
    let script = recovery_script(file, names);
    lemma_parts(file, names);
    lemma_deleted(names, history, name);
    let unused = reclaim_script(names, captures(all_records(history)));
    let delete = EffectView::DeleteCapture(name);
    let m = choose|m: int| 0 <= m < unused.len() && unused[m] == delete;
    let first = prelude(file) + replay_history(history);
    assert(epilogue(file, names)[m + 1] == delete);
    assert(script[first.len() + m + 1] == delete);
    assert(unused.last() == EffectView::SyncDeleted);
    assert(script.last() == unused.last());
}

/// A recovery loads the subject first, and only once. It lists the captures only after it has
/// committed every transaction of the file. Deletions are synchronized once, directly after the last
/// of them, and nothing follows.
pub proof fn law_recoveries_end_with_the_captures(chain: ChainView, replies: Seq<Reply>, k: int)
    requires
        chain.procedure is Reading,
        0 <= k < asked(chain, replies).len(),
    ensures
        asked(chain, replies)[k] is LoadSubject <==> k == 0,
        asked(chain, replies)[k] is ListCaptures ==> (replies[0] matches Reply::Committed(file) && (
        ascending(file@.block.history) ==> committed(asked(chain, replies).take(k))
            == transactions(file@.block.history))),
        asked(chain, replies)[k] is SyncDeleted ==> k > 0 && asked(chain, replies)[k - 1]
            is DeleteCapture && k + 1 == asked(chain, replies).len(),
        finished(chain, replies) is Some ==> exists|m: int|
            0 <= m < asked(chain, replies).len() && #[trigger] asked(chain, replies)[m]
                is ListCaptures,
{
    lemma_recovery(chain, replies);
    let file = replies[0]->Committed_0@;
    let names = listed(chain, replies);
    let script = recovery_script(file, names);
    let performed = asked(chain, replies);
    let history = file.block.history;
    lemma_parts(file, names);
    lemma_history_kinds(history);
    lemma_validation_only_verifies(history);
    law_reclamation_keeps_published_captures(names, history, Seq::empty());
    let first = prelude(file) + replay_history(history);
    let n = prelude(file).len() as int;
    let f = first.len() as int;
    let rest = epilogue(file, names);
    let unused = reclaim_script(names, captures(all_records(history)));
    assert(performed[k] == script[k]);
    if k < n {
        assert(script[k] == prelude(file)[k]);
        if 0 < k <= validate_script(history).len() {
            assert(prelude(file)[k] == validate_script(history)[k - 1]);
        }
    } else if k < f {
        assert(script[k] == replay_history(history)[k - n]);
    } else {
        assert(script[k] == rest[k - f]);
        if k > f {
            assert(rest[k - f] == unused[k - f - 1]);
            if unused[k - f - 1] is SyncDeleted {
                assert(k - f - 1 == unused.len() - 1);
                assert(performed[k - 1] == script[k - 1]);
                assert(script[k - 1] == rest[k - 1 - f]);
                assert(rest[k - 1 - f] == unused[k - f - 2]);
            }
        } else if ascending(history) {
            assert(script.take(k) =~= first);
            assert(performed.take(k) == script.take(k));
            lemma_whole(file, names, arbitrary());
        }
    }
    if finished(chain, replies) is Some {
        law_successful_recoveries_are_complete(chain, replies);
        assert(performed[f] == rest[0]);
    }
}

/// A recovery leaves the committed file as it is, however far it comes.
pub proof fn law_recoveries_write_no_file(chain: ChainView, replies: Seq<Reply>)
    requires
        chain.procedure is Reading,
        asked(chain, replies).len() > 0,
    ensures
        replies[0] matches Reply::Committed(file) && durable(Some(file@), asked(chain, replies))
            == Some(file@),
{
    law_recoveries_follow_their_script(chain, replies);
    law_recovery_retains_the_committed_file(
        replies[0]->Committed_0@,
        listed(chain, replies),
        asked(chain, replies),
    );
}

} // verus!
