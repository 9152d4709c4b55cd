//! Recovery: what is validated, what is replayed and what is reclaimed.

use vstd::prelude::*;

use crate::block::History;
use crate::chain::{runs, ChainView, EndingView, ProcedureView};
use crate::effect::{EffectView, ExpectView, Reply};
use crate::file::{empty_file, FileView};
use crate::laws::durability::{asked, durable, finished, lemma_durable_unchanged};
use crate::laws::history::{
    law_finalization_drops_exactly_the_covered_transactions,
    law_publication_adds_exactly_one_transaction,
};
use crate::map::{ascending, entry_of, has_entry};
use crate::queue::{Exclusion, QueueView};
use crate::record::MutationRecord;
use crate::script::{
    check_effects, checks, invocations, reclaim_script, replay_history, replay_script,
    replay_transaction, validate_script,
};
use crate::store::{
    all_records, any_malformed, captured, captures, law_captures_are_exactly_the_references,
    orphaned, texts,
};
use crate::txn::TxnId;

verus! {

/// A file which may not be loaded is refused before the subject is loaded, and before anything is
/// validated, replayed or reclaimed.
pub proof fn law_refused_files_have_no_effect(chain: ChainView, replies: Seq<Reply>)
    requires
        chain.procedure is Reading,
        chain.queue.exclusion == (Exclusion::Lifecycle { armed: false }),
        replies.len() > 0,
        replies[0] matches Reply::Committed(file) ==> file@.refusal() is Some || any_malformed(
            all_records(file@.history()),
        ),
    ensures
        asked(chain, replies).len() == 0,
        chain.advanced(replies[0]).1 is Err,
        replies[0] matches Reply::Committed(file) && file@.refusal() is Some ==> chain.advanced(
            replies[0],
        ).1 == Err::<Option<EffectView>, _>(replies[0]->Committed_0@.refusal()->0),
        chain.advanced(replies[0]).0.queue == chain.queue.exclusive(Exclusion::Free),
{
}

/// All effects of a recovery, in their order: the subject is loaded, every capture is verified, the
/// history is replayed, and the captures which nothing refers to are deleted.
pub open spec fn recovery_script(file: FileView, names: Seq<Seq<char>>) -> Seq<EffectView> {
    seq![EffectView::LoadSubject] + (validate_script(file.history()) + replayed(
        file,
        captures(all_records(file.history())),
        names,
    ))
}

/// The effects of a recovery from the first replayed transaction.
pub open spec fn replayed(
    file: FileView,
    retained: Seq<Seq<char>>,
    names: Seq<Seq<char>>,
) -> Seq<EffectView> {
    replay_script(file) + reclaimed(retained, names)
}

/// The effects of a recovery once the history is replayed.
pub open spec fn reclaimed(retained: Seq<Seq<char>>, names: Seq<Seq<char>>) -> Seq<EffectView> {
    seq![EffectView::ListCaptures] + reclaim_script(names, retained)
}

/// What a recovery still may ask for, if the captures listed are those named.
spec fn remaining(procedure: ProcedureView, names: Seq<Seq<char>>) -> Seq<EffectView> {
    match procedure {
        ProcedureView::Running { rest, ending, .. } => match ending {
            EndingView::Replay(file, retained) => rest + replayed(file, retained, names),
            EndingView::Reclaim(retained) => rest + reclaimed(retained, names),
            _ => rest,
        },
        ProcedureView::Loading { file, retained } => validate_script(file.history()) + replayed(
            file,
            retained,
            names,
        ),
        ProcedureView::Listing { retained } => reclaim_script(names, retained),
        _ => Seq::empty(),
    }
}

/// The names of the captures which the replies list.
pub open spec fn listed(chain: ChainView, replies: Seq<Reply>) -> Seq<Seq<char>>
    decreases replies.len(),
{
    if replies.len() == 0 {
        Seq::empty()
    } else {
        match (chain.procedure, replies[0]) {
            (ProcedureView::Listing { .. }, Reply::Captures(names)) => texts(names@),
            _ => listed(chain.advanced(replies[0]).0, replies.skip(1)),
        }
    }
}

/// A script of a recovery is followed by what remains.
proof fn lemma_remaining_after_script(
    queue: QueueView<MutationRecord>,
    rest: Seq<EffectView>,
    ending: EndingView,
    names: Seq<Seq<char>>,
)
    ensures
        runs(queue, rest, ending) matches (next, Ok(Some(effect))) ==> remaining(
            ProcedureView::Running { expect: ExpectView::Done, rest, ending },
            names,
        ) == seq![effect] + remaining(next.procedure, names),
        runs(queue, rest, ending) matches (next, Ok(Some(_))) ==> next.procedure is Running
            || next.procedure is Listing,
        runs(queue, rest, ending) matches (_, Ok(None)) ==> remaining(
            ProcedureView::Running { expect: ExpectView::Done, rest, ending },
            names,
        ) == Seq::<EffectView>::empty(),
{
    let whole = remaining(ProcedureView::Running { expect: ExpectView::Done, rest, ending }, names);
    if rest.len() > 0 {
        let next = runs(queue, rest, ending).0;
        assert(rest =~= seq![rest[0]] + rest.skip(1));
        assert(whole =~= seq![rest[0]] + remaining(next.procedure, names));
    } else {
        match ending {
            EndingView::Replay(file, retained) => {
                let script = replay_script(file);
                if script.len() > 0 {
                    assert(script =~= seq![script[0]] + script.skip(1));
                    assert(whole =~= seq![script[0]] + (script.skip(1) + reclaimed(
                        retained,
                        names,
                    )));
                } else {
                    assert(whole =~= seq![EffectView::ListCaptures] + reclaim_script(
                        names,
                        retained,
                    ));
                }
            },
            EndingView::Reclaim(retained) => {
                assert(whole =~= seq![EffectView::ListCaptures] + reclaim_script(names, retained));
            },
            _ => {},
        }
    }
}

/// A reply to a recovery leads from what remains to what then remains.
proof fn lemma_remaining_after_reply(chain: ChainView, replies: Seq<Reply>)
    requires
        chain.procedure is Running || chain.procedure is Loading || chain.procedure is Listing,
        replies.len() > 0,
    ensures
        ({
            let whole = remaining(chain.procedure, listed(chain, replies));
            match chain.advanced(replies[0]) {
                (next, Ok(Some(effect))) => {
                    &&& next.procedure is Running || next.procedure is Listing
                    &&& whole == seq![effect] + remaining(
                        next.procedure,
                        listed(next, replies.skip(1)),
                    )
                },
                (_, Ok(None)) => whole == Seq::<EffectView>::empty(),
                _ => true,
            }
        }),
{
    let reply = replies[0];
    let names = listed(chain.advanced(reply).0, replies.skip(1));
    match chain.procedure {
        ProcedureView::Running { expect, rest, ending } => {
            lemma_remaining_after_script(chain.queue, rest, ending, names);
            if let ExpectView::Receipt(id) = expect {
                lemma_remaining_after_script(chain.queue.committed(id), rest, ending, names);
            }
        },
        ProcedureView::Loading { file, retained } => {
            lemma_remaining_after_script(
                chain.queue,
                validate_script(file.history()),
                EndingView::Replay(file, retained),
                names,
            );
        },
        ProcedureView::Listing { retained } => {
            if let Reply::Captures(found) = reply {
                lemma_remaining_after_script(
                    chain.queue,
                    reclaim_script(texts(found@), retained),
                    EndingView::Acknowledge,
                    names,
                );
            }
        },
        _ => {},
    }
}

/// A recovery which has read the committed file asks for what remains, as far as the replies go,
/// and for all of it if it succeeds.
proof fn lemma_recovery_order(chain: ChainView, replies: Seq<Reply>)
    requires
        chain.procedure is Running || chain.procedure is Loading || chain.procedure is Listing,
    ensures
        asked(chain, replies).is_prefix_of(
            remaining(chain.procedure, listed(chain, replies)),
        ),
        finished(chain, replies) is Some ==> asked(chain, replies) == remaining(
            chain.procedure,
            listed(chain, replies),
        ),
    decreases replies.len(),
{
    if replies.len() > 0 {
        lemma_remaining_after_reply(chain, replies);
        match chain.advanced(replies[0]) {
            (next, Ok(Some(effect))) => {
                lemma_recovery_order(next, replies.skip(1));
                let after = asked(next, replies.skip(1));
                let whole = remaining(chain.procedure, listed(chain, replies));
                assert(seq![effect] + after =~= whole.subrange(0, (1 + after.len()) as int));
            },
            _ => {},
        }
    }
}

/// A recovery follows its script: the whole history is validated before the capability of any
/// transaction is requested, and captures are deleted only once the whole history is replayed.
pub proof fn law_recoveries_follow_their_script(chain: ChainView, replies: Seq<Reply>)
    requires
        chain.procedure is Reading,
        replies.len() > 0,
    ensures
        match replies[0] {
            Reply::Committed(file) => asked(chain, replies).is_prefix_of(
                recovery_script(file@, listed(chain, replies)),
            ),
            _ => asked(chain, replies).len() == 0,
        },
{
    match (replies[0], chain.advanced(replies[0])) {
        (Reply::Committed(file), (next, Ok(Some(effect)))) => {
            lemma_recovery_order(next, replies.skip(1));
            let names = listed(chain, replies);
            let after = asked(next, replies.skip(1));
            let whole = recovery_script(file@, names);
            assert(whole.skip(1) =~= remaining(next.procedure, names));
            assert(seq![effect] + after =~= whole.subrange(0, (1 + after.len()) as int));
        },
        _ => {},
    }
}

/// A recovery which succeeds has asked for its whole script: it has loaded the subject, verified
/// every capture, replayed the whole history, and deleted every capture which nothing refers to.
pub proof fn law_successful_recoveries_are_complete(chain: ChainView, replies: Seq<Reply>)
    requires
        chain.procedure is Reading,
        finished(chain, replies) is Some,
    ensures
        ({
            &&& replies[0] matches Reply::Committed(file)
            &&& file@.refusal() is None
            &&& asked(chain, replies) == recovery_script(file@, listed(chain, replies))
        }),
{
    match (replies[0], chain.advanced(replies[0])) {
        (Reply::Committed(file), (next, Ok(Some(effect)))) => {
            lemma_recovery_order(next, replies.skip(1));
            let whole = recovery_script(file@, listed(chain, replies));
            assert(whole =~= seq![effect] + asked(next, replies.skip(1)));
        },
        _ => {},
    }
}

/// The requests of a transaction which effects invoke, in their order.
pub open spec fn invoked(script: Seq<EffectView>, id: TxnId) -> Seq<MutationRecord>
    decreases script.len(),
{
    if script.len() == 0 {
        Seq::empty()
    } else {
        let before = invoked(script.drop_last(), id);
        match script.last() {
            EffectView::Apply(other, record) => if other == id {
                before.push(record)
            } else {
                before
            },
            _ => before,
        }
    }
}

/// The transactions which effects commit, in their order.
pub open spec fn committed(script: Seq<EffectView>) -> Seq<TxnId>
    decreases script.len(),
{
    if script.len() == 0 {
        Seq::empty()
    } else {
        let before = committed(script.drop_last());
        match script.last() {
            EffectView::CommitSubject(id) => before.push(id),
            _ => before,
        }
    }
}

/// The transactions of a history, in replay order.
pub open spec fn transactions(history: History) -> Seq<TxnId> {
    history.map_values(|e: (TxnId, Seq<MutationRecord>)| e.0)
}

/// What two scripts invoke and commit, both together do.
pub proof fn lemma_scripts_add(a: Seq<EffectView>, b: Seq<EffectView>, id: TxnId)
    ensures
        invoked(a + b, id) == invoked(a, id) + invoked(b, id),
        committed(a + b) == committed(a) + committed(b),
    decreases b.len(),
{
    if b.len() == 0 {
        assert(a + b =~= a);
        assert(invoked(a, id) + invoked(b, id) =~= invoked(a, id));
        assert(committed(a) + committed(b) =~= committed(a));
    } else {
        let init = b.drop_last();
        lemma_scripts_add(a, init, id);
        assert((a + b).drop_last() =~= a + init);
        assert((a + b).last() == b.last());
        assert(invoked(a + b, id) =~= invoked(a, id) + invoked(b, id));
        assert(committed(a + b) =~= committed(a) + committed(b));
    }
}

/// What a single effect invokes and commits.
proof fn lemma_single_effect(effect: EffectView, id: TxnId)
    ensures
        invoked(seq![effect], id) == match effect {
            EffectView::Apply(other, record) => if other == id {
                seq![record]
            } else {
                Seq::empty()
            },
            _ => Seq::empty(),
        },
        committed(seq![effect]) == match effect {
            EffectView::CommitSubject(other) => seq![other],
            _ => Seq::empty(),
        },
{
    let script = seq![effect];
    assert(script.drop_last() =~= Seq::empty());
    assert(script.last() == effect);
    reveal_with_fuel(invoked, 2);
    reveal_with_fuel(committed, 2);
    match effect {
        EffectView::Apply(other, record) => {
            assert(Seq::<MutationRecord>::empty().push(record) =~= seq![record]);
        },
        EffectView::CommitSubject(other) => {
            assert(Seq::<TxnId>::empty().push(other) =~= seq![other]);
        },
        _ => {},
    }
}

/// Verification invokes nothing and commits nothing.
proof fn lemma_checks_invoke_nothing(id: TxnId, record: MutationRecord, other: TxnId)
    ensures
        invoked(check_effects(id, record), other) == Seq::<MutationRecord>::empty(),
        committed(check_effects(id, record)) == Seq::<TxnId>::empty(),
{
    if let Some(found) = captured(record) {
        lemma_single_effect(EffectView::Resolve(id, found), other);
    }
}

/// The replay of a transaction invokes its requests, in their order, and those of no other.
proof fn lemma_transaction_replayed(id: TxnId, records: Seq<MutationRecord>, other: TxnId)
    ensures
        invoked(invocations(id, records), other) == if other == id {
            records
        } else {
            Seq::empty()
        },
        committed(invocations(id, records)) == Seq::<TxnId>::empty(),
    decreases records.len(),
{
    if records.len() > 0 {
        let init = records.drop_last();
        let record = records.last();
        lemma_transaction_replayed(id, init, other);
        lemma_checks_invoke_nothing(id, record, other);
        lemma_single_effect(EffectView::Apply(id, record), other);
        let first = invocations(id, init) + check_effects(id, record);
        lemma_scripts_add(invocations(id, init), check_effects(id, record), other);
        lemma_scripts_add(first, seq![EffectView::Apply(id, record)], other);
        assert(invocations(id, records) == first + seq![EffectView::Apply(id, record)]);
        if other == id {
            assert(init + Seq::empty() + seq![record] =~= records);
        }
        assert(invoked(invocations(id, records), other) =~= if other == id {
            records
        } else {
            Seq::empty()
        });
        assert(committed(invocations(id, records)) =~= Seq::<TxnId>::empty());
    } else {
        assert(invocations(id, records) =~= Seq::empty());
        assert(records =~= Seq::empty());
    }
}

/// Replay invokes every retained request exactly once, in the order of its admission, and commits
/// every retained transaction exactly once, in replay order. It invokes and commits nothing else.
pub proof fn law_replay_is_exact(history: History, id: TxnId)
    requires
        ascending(history),
    ensures
        invoked(replay_history(history), id) == if has_entry(history, id) {
            entry_of(history, id)
        } else {
            Seq::empty()
        },
        committed(replay_history(history)) == transactions(history),
    decreases history.len(),
{
    if history.len() == 0 {
        assert(transactions(history) =~= Seq::empty());
    } else {
        let init = history.drop_last();
        let (last, records) = history.last();
        assert forall|i: int, j: int|
            #![trigger init[i], init[j]]
            0 <= i < j < init.len() implies init[i].0.before(init[j].0) by {
            assert(history[i].0.before(history[j].0));
        }
        law_replay_is_exact(init, id);
        lemma_transaction_replayed(last, records, id);
        let requested = seq![EffectView::RequestTransaction(last)];
        let done = seq![EffectView::CommitSubject(last)];
        lemma_single_effect(EffectView::RequestTransaction(last), id);
        lemma_single_effect(EffectView::CommitSubject(last), id);
        lemma_scripts_add(requested, invocations(last, records), id);
        lemma_scripts_add(requested + invocations(last, records), done, id);
        lemma_scripts_add(replay_history(init), replay_transaction(last, records), id);
        assert(invoked(replay_transaction(last, records), id) =~= if id == last {
            records
        } else {
            Seq::empty()
        });
        assert(committed(replay_transaction(last, records)) =~= seq![last]);
        assert(transactions(history) =~= transactions(init) + seq![last]);
        // the last transaction occurs only there
        if has_entry(init, id) {
            let i = choose|i: int| 0 <= i < init.len() && (#[trigger] init[i]).0 == id;
            assert(history[i].0.before(history[history.len() - 1].0));
            assert(history[i].0 == id);
            assert(has_entry(history, id));
            let j = choose|j: int| 0 <= j < history.len() && (#[trigger] history[j]).0 == id;
            let k = choose|k: int| 0 <= k < init.len() && (#[trigger] init[k]).0 == id;
            assert(init[k] == history[k]);
            if j < k {
                assert(history[j].0.before(history[k].0));
            } else if k < j {
                assert(history[k].0.before(history[j].0));
            }
            assert(entry_of(init, id) == entry_of(history, id));
        } else if id == last {
            assert(history[history.len() - 1].0 == id);
            let j = choose|j: int| 0 <= j < history.len() && (#[trigger] history[j]).0 == id;
            if j < init.len() {
                assert(init[j].0 == id);
            }
            assert(entry_of(history, id) == records);
        } else if has_entry(history, id) {
            let j = choose|j: int| 0 <= j < history.len() && (#[trigger] history[j]).0 == id;
            assert(init[j].0 == id);
        }
        assert(invoked(replay_history(history), id) =~= if has_entry(history, id) {
            entry_of(history, id)
        } else {
            Seq::empty()
        });
    }
}

/// Validation verifies the stored collection to which any retained request refers.
pub proof fn law_validation_is_complete(history: History, i: int, j: int)
    requires
        0 <= i < history.len(),
        0 <= j < history[i].1.len(),
        captured(history[i].1[j]) is Some,
    ensures
        validate_script(history).contains(
            EffectView::Resolve(history[i].0, captured(history[i].1[j])->0),
        ),
    decreases history.len(),
{
    let effect = EffectView::Resolve(history[i].0, captured(history[i].1[j])->0);
    let init = history.drop_last();
    let (last, records) = history.last();
    let first = validate_script(init);
    let whole = validate_script(history);
    if i < init.len() {
        assert(init[i] == history[i]);
        law_validation_is_complete(init, i, j);
        let k = choose|k: int| 0 <= k < first.len() && first[k] == effect;
        assert(whole[k] == effect);
    } else {
        lemma_checks_complete(last, records, j);
        let more = checks(last, records);
        let k = choose|k: int| 0 <= k < more.len() && more[k] == effect;
        assert(whole[first.len() + k] == effect);
    }
}

/// The checks of a transaction include that of each of its requests.
proof fn lemma_checks_complete(id: TxnId, records: Seq<MutationRecord>, j: int)
    requires
        0 <= j < records.len(),
        captured(records[j]) is Some,
    ensures
        checks(id, records).contains(EffectView::Resolve(id, captured(records[j])->0)),
    decreases records.len(),
{
    let effect = EffectView::Resolve(id, captured(records[j])->0);
    let init = records.drop_last();
    let first = checks(id, init);
    let whole = checks(id, records);
    if j < init.len() {
        assert(init[j] == records[j]);
        lemma_checks_complete(id, init, j);
        let k = choose|k: int| 0 <= k < first.len() && first[k] == effect;
        assert(whole[k] == effect);
    } else {
        assert(check_effects(id, records.last())[0] == effect);
        assert(whole[first.len() as int] == effect);
    }
}

/// Reclamation deletes exactly the listed captures to which no published request refers.
pub proof fn law_reclamation_keeps_published_captures(
    names: Seq<Seq<char>>,
    history: History,
    name: Seq<char>,
)
    ensures
        reclaim_script(names, captures(all_records(history))).contains(
            EffectView::DeleteCapture(name),
        ) <==> names.contains(name) && !exists|i: int|
            0 <= i < all_records(history).len() && (captured(
                #[trigger] all_records(history)[i],
            ) matches Some(found) && found.name@ == name),
        forall|i: int|
            0 <= i < reclaim_script(names, captures(all_records(history))).len() ==> {
                let effect = #[trigger] reclaim_script(names, captures(all_records(history)))[i];
                effect is DeleteCapture || effect is SyncDeleted
            },
{
    let records = all_records(history);
    let retained = captures(records);
    let unused = orphaned(names, retained);
    let script = reclaim_script(names, retained);
    law_captures_are_exactly_the_references(records);
    lemma_orphans(names, retained, name);
    let delete = EffectView::DeleteCapture(name);
    if script.contains(delete) {
        let i = choose|i: int| 0 <= i < script.len() && script[i] == delete;
        assert(i < unused.len());
        assert(unused[i] == name);
        assert(unused.contains(name));
    }
    if unused.contains(name) {
        let i = choose|i: int| 0 <= i < unused.len() && unused[i] == name;
        assert(script[i] == delete);
    }
}

/// The orphans are the names which are not retained.
proof fn lemma_orphans(names: Seq<Seq<char>>, retained: Seq<Seq<char>>, name: Seq<char>)
    ensures
        orphaned(names, retained).contains(name) <==> names.contains(name) && !retained.contains(
            name,
        ),
    decreases names.len(),
{
    reveal(Seq::filter);
    let whole = orphaned(names, retained);
    if names.len() > 0 {
        let init = names.drop_last();
        let first = orphaned(init, retained);
        lemma_orphans(init, retained, name);
        if names.contains(name) {
            let k = choose|k: int| 0 <= k < names.len() && names[k] == name;
            if k < init.len() {
                assert(init[k] == name);
                assert(init.contains(name));
            }
        }
        if init.contains(name) {
            let k = choose|k: int| 0 <= k < init.len() && init[k] == name;
            assert(names[k] == name);
        }
        if first.contains(name) {
            let k = choose|k: int| 0 <= k < first.len() && first[k] == name;
            assert(whole[k] == name);
        }
        if whole.contains(name) {
            let k = choose|k: int| 0 <= k < whole.len() && whole[k] == name;
            if k < first.len() {
                assert(first[k] == name);
            } else {
                assert(names[names.len() - 1] == name);
            }
        }
        if names.last() == name && !retained.contains(name) {
            assert(whole[whole.len() - 1] == name);
        }
    }
}

/// Validation only verifies.
pub proof fn lemma_validation_only_verifies(history: History)
    ensures
        forall|i: int|
            0 <= i < validate_script(history).len() ==> #[trigger] validate_script(history)[i]
                is Resolve,
    decreases history.len(),
{
    if history.len() > 0 {
        lemma_validation_only_verifies(history.drop_last());
        lemma_checks_only_verify(history.last().0, history.last().1);
    }
}

/// Checks only verify.
proof fn lemma_checks_only_verify(id: TxnId, records: Seq<MutationRecord>)
    ensures
        forall|i: int| 0 <= i < checks(id, records).len() ==> #[trigger] checks(id, records)[i]
            is Resolve,
    decreases records.len(),
{
    if records.len() > 0 {
        lemma_checks_only_verify(id, records.drop_last());
    }
}

/// Recovery of a new chain replays nothing and retains no capture.
pub proof fn law_new_chains_replay_nothing()
    ensures
        replay_script(empty_file()) == Seq::<EffectView>::empty(),
        validate_script(empty_file().history()) == Seq::<EffectView>::empty(),
        captures(all_records(empty_file().history())) == Seq::<Seq<char>>::empty(),
        !any_malformed(all_records(empty_file().history())),
{
}

/// What a commit publishes is what a later recovery replays: exactly the records of the
/// transaction, in the order of their admission, along with all transactions which were retained
/// before.
pub proof fn law_committed_requests_are_replayed(
    file: FileView,
    id: TxnId,
    records: Seq<MutationRecord>,
    other: TxnId,
)
    requires
        ascending(file.history()),
        !has_entry(file.history(), id),
    ensures
        invoked(replay_history(file.with_transaction(id, records).history()), id) == records,
        other != id ==> invoked(
            replay_history(file.with_transaction(id, records).history()),
            other,
        ) == invoked(replay_history(file.history()), other),
{
    let after = file.with_transaction(id, records).history();
    law_publication_adds_exactly_one_transaction(file.history(), id, records);
    law_replay_is_exact(after, id);
    law_replay_is_exact(after, other);
    law_replay_is_exact(file.history(), other);
    assert(has_entry(after, other) || !has_entry(after, other));
}

/// Finalized requests are not replayed again, and all others still are.
pub proof fn law_finalized_requests_are_not_replayed(file: FileView, cutoff: TxnId, id: TxnId)
    requires
        ascending(file.history()),
    ensures
        invoked(replay_history(file.finalized(cutoff).history()), id) == if cutoff.before(id) {
            invoked(replay_history(file.history()), id)
        } else {
            Seq::empty()
        },
{
    let after = file.finalized(cutoff).history();
    law_finalization_drops_exactly_the_covered_transactions(file.history(), cutoff);
    law_replay_is_exact(after, id);
    law_replay_is_exact(file.history(), id);
    assert(has_entry(after, id) || !has_entry(after, id));
}

/// Whether no effect of a script writes the committed file.
spec fn writes_nothing(script: Seq<EffectView>) -> bool {
    forall|i: int|
        0 <= i < script.len() ==> !(#[trigger] script[i] is Publish) && !(
        script[i] is CreateCommitted)
}

/// What neither of two scripts writes, both together do not write.
proof fn lemma_write_nothing(a: Seq<EffectView>, b: Seq<EffectView>)
    requires
        writes_nothing(a),
        writes_nothing(b),
    ensures
        writes_nothing(a + b),
{
    let all = a + b;
    assert forall|i: int| 0 <= i < all.len() implies !(#[trigger] all[i] is Publish) && !(
    all[i] is CreateCommitted) by {
        if i < a.len() {
            assert(all[i] == a[i]);
        } else {
            assert(all[i] == b[i - a.len()]);
        }
    }
}

/// Invocations write no file.
proof fn lemma_invocations_write_nothing(id: TxnId, records: Seq<MutationRecord>)
    ensures
        writes_nothing(invocations(id, records)),
    decreases records.len(),
{
    if records.len() > 0 {
        let init = invocations(id, records.drop_last());
        lemma_invocations_write_nothing(id, records.drop_last());
        lemma_write_nothing(init, check_effects(id, records.last()));
        lemma_write_nothing(
            init + check_effects(id, records.last()),
            seq![EffectView::Apply(id, records.last())],
        );
    }
}

/// Replay writes no file.
proof fn lemma_replay_writes_nothing(history: History)
    ensures
        writes_nothing(replay_history(history)),
    decreases history.len(),
{
    if history.len() > 0 {
        let (id, records) = history.last();
        let requested = seq![EffectView::RequestTransaction(id)];
        let done = seq![EffectView::CommitSubject(id)];
        lemma_replay_writes_nothing(history.drop_last());
        lemma_invocations_write_nothing(id, records);
        lemma_write_nothing(requested, invocations(id, records));
        lemma_write_nothing(requested + invocations(id, records), done);
        lemma_write_nothing(
            replay_history(history.drop_last()),
            replay_transaction(id, records),
        );
    }
}

/// Whether it succeeds or fails, and wherever it is interrupted, a recovery leaves the committed
/// file as it is.
pub proof fn law_recovery_retains_the_committed_file(
    file: FileView,
    names: Seq<Seq<char>>,
    performed: Seq<EffectView>,
)
    requires
        performed.is_prefix_of(recovery_script(file, names)),
    ensures
        durable(Some(file), performed) == Some(file),
{
    let history = file.history();
    let script = recovery_script(file, names);
    let retained = captures(all_records(history));
    let replay = replay_script(file);
    let unused = reclaim_script(names, retained);
    lemma_validation_only_verifies(history);
    assert(writes_nothing(validate_script(history)));
    lemma_replay_writes_nothing(history);
    if let Some(cutoff) = file.frontier {
        lemma_write_nothing(
            seq![EffectView::InitializeCutoff(cutoff)],
            replay_history(history),
        );
    }
    assert(writes_nothing(unused));
    lemma_write_nothing(seq![EffectView::ListCaptures], unused);
    lemma_write_nothing(replay, reclaimed(retained, names));
    lemma_write_nothing(validate_script(history), replayed(file, retained, names));
    lemma_write_nothing(
        seq![EffectView::LoadSubject],
        validate_script(history) + replayed(file, retained, names),
    );
    assert forall|i: int| 0 <= i < performed.len() implies !(#[trigger] performed[i] is Publish)
        && !(performed[i] is CreateCommitted) by {
        assert(performed[i] == script.subrange(0, performed.len() as int)[i]);
        assert(performed[i] == script[i]);
    }
    lemma_durable_unchanged(Some(file), performed);
}

} // verus!
