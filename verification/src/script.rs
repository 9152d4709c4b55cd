//! The sequences of effects which make up the lifecycle operations.

use std::collections::VecDeque;
use vstd::prelude::*;

use crate::block::History;
use crate::effect::{Effect, EffectView};
use crate::file::{ChainFile, FileView};
use crate::record::MutationRecord;
use crate::scalar::reference;
use crate::store::{captured, captures, orphaned, texts};
use crate::txn::TxnId;

verus! {

/// Effects by value.
pub open spec fn effects(script: Seq<Effect>) -> Seq<EffectView> {
    script.map_values(|effect: Effect| effect@)
}

/// The files in a script are well-formed.
pub open spec fn script_wf(script: Seq<Effect>) -> bool {
    forall|i: int| 0 <= i < script.len() ==> (#[trigger] script[i]).wf()
}

/// Synchronize each captured collection.
pub open spec fn sync_script(names: Seq<Seq<char>>) -> Seq<EffectView> {
    names.map_values(|name: Seq<char>| EffectView::SyncCapture(name))
}

/// Make the records of a transaction durable, and then visible.
pub open spec fn commit_script(
    file: FileView,
    id: TxnId,
    records: Seq<MutationRecord>,
) -> Seq<EffectView> {
    sync_script(captures(records)) + seq![
        EffectView::Publish(file.with_transaction(id, records)),
        EffectView::CommitSubject(id),
    ]
}

/// Make the transactions up to a cutoff canonical, and then forget them.
pub open spec fn finalize_script(file: FileView, cutoff: TxnId) -> Seq<EffectView> {
    if file.covers(cutoff) {
        seq![
            EffectView::Publish(file.with_intent(cutoff)),
            EffectView::FinalizeSubject(cutoff),
            EffectView::SyncSubject,
            EffectView::Publish(file.finalized(cutoff)),
        ]
    } else {
        seq![EffectView::FinalizeSubject(cutoff), EffectView::Publish(file.finalized(cutoff))]
    }
}

/// Verify the stored collection to which a request refers, if it refers to one.
pub open spec fn check_effects(id: TxnId, record: MutationRecord) -> Seq<EffectView> {
    match captured(record) {
        Some(found) => seq![EffectView::Resolve(id, found)],
        None => Seq::empty(),
    }
}

/// Verify the stored collections to which requests refer, in their order.
pub open spec fn checks(id: TxnId, records: Seq<MutationRecord>) -> Seq<EffectView>
    decreases records.len(),
{
    if records.len() == 0 {
        Seq::empty()
    } else {
        checks(id, records.drop_last()) + check_effects(id, records.last())
    }
}

/// Verify every stored collection to which the history refers, in replay order.
pub open spec fn validate_script(history: History) -> Seq<EffectView>
    decreases history.len(),
{
    if history.len() == 0 {
        Seq::empty()
    } else {
        validate_script(history.drop_last()) + checks(history.last().0, history.last().1)
    }
}

/// Invoke requests in their order, each with its verified value.
pub open spec fn invocations(id: TxnId, records: Seq<MutationRecord>) -> Seq<EffectView>
    decreases records.len(),
{
    if records.len() == 0 {
        Seq::empty()
    } else {
        invocations(id, records.drop_last()) + check_effects(id, records.last()) + seq![
            EffectView::Apply(id, records.last()),
        ]
    }
}

/// Replay one transaction.
pub open spec fn replay_transaction(id: TxnId, records: Seq<MutationRecord>) -> Seq<EffectView> {
    seq![EffectView::RequestTransaction(id)] + invocations(id, records) + seq![
        EffectView::CommitSubject(id),
    ]
}

/// Replay every transaction of the history, in replay order.
pub open spec fn replay_history(history: History) -> Seq<EffectView>
    decreases history.len(),
{
    if history.len() == 0 {
        Seq::empty()
    } else {
        replay_history(history.drop_last()) + replay_transaction(
            history.last().0,
            history.last().1,
        )
    }
}

/// Bring the subject to the state which a committed file describes.
pub open spec fn replay_script(file: FileView) -> Seq<EffectView> {
    match file.frontier {
        Some(cutoff) => seq![EffectView::InitializeCutoff(cutoff)] + replay_history(
            file.history(),
        ),
        None => replay_history(file.history()),
    }
}

/// Delete the captured collections which are not retained.
pub open spec fn reclaim_script(
    names: Seq<Seq<char>>,
    retained: Seq<Seq<char>>,
) -> Seq<EffectView> {
    let unused = orphaned(names, retained);
    if unused.len() == 0 {
        Seq::empty()
    } else {
        unused.map_values(|name: Seq<char>| EffectView::DeleteCapture(name)).push(
            EffectView::SyncDeleted,
        )
    }
}

/// Add an effect to a script.
fn add_effect(script: &mut VecDeque<Effect>, effect: Effect)
    requires
        script_wf(old(script)@),
        effect.wf(),
    ensures
        script_wf(final(script)@),
        effects(final(script)@) == effects(old(script)@).push(effect@),
        final(script)@.len() == old(script)@.len() + 1,
{
    script.push_back(effect);
    assert(effects(script@) =~= effects(old(script)@).push(effect@));
}

/// Synchronize each captured collection.
pub(crate) fn sync_effects(names: Vec<String>) -> (res: VecDeque<Effect>)
    ensures
        script_wf(res@),
        effects(res@) == sync_script(texts(names@)),
{
    let mut script: VecDeque<Effect> = VecDeque::new();
    let mut i: usize = 0;
    while i < names.len()
        invariant
            i <= names@.len(),
            script_wf(script@),
            effects(script@) =~= sync_script(texts(names@).take(i as int)),
        decreases names@.len() - i,
    {
        add_effect(&mut script, Effect::SyncCapture(names[i].clone()));
        assert(sync_script(texts(names@).take(i + 1)) =~= sync_script(
            texts(names@).take(i as int),
        ).push(EffectView::SyncCapture(names@[i as int]@)));
        i += 1;
    }
    assert(texts(names@).take(names@.len() as int) =~= texts(names@));
    script
}

/// Make the records of a transaction durable, and then visible: the captures named are those of
/// the records, and the file is the one which holds them.
pub(crate) fn commit_effects(names: Vec<String>, file: ChainFile, id: TxnId) -> (res: VecDeque<
    Effect,
>)
    requires
        file.wf(),
    ensures
        script_wf(res@),
        effects(res@) == sync_script(texts(names@)) + seq![
            EffectView::Publish(file@),
            EffectView::CommitSubject(id),
        ],
{
    let mut script = sync_effects(names);
    add_effect(&mut script, Effect::Publish(file));
    add_effect(&mut script, Effect::CommitSubject(id));
    assert(effects(script@) =~= sync_script(texts(names@)) + seq![
        EffectView::Publish(file@),
        EffectView::CommitSubject(id),
    ]);
    script
}

/// Make the transactions up to a cutoff canonical, and then forget them.
pub(crate) fn finalize_effects(file: ChainFile, cutoff: TxnId) -> (res: VecDeque<Effect>)
    requires
        file.wf(),
    ensures
        script_wf(res@),
        effects(res@) == finalize_script(file@, cutoff),
{
    let mut script: VecDeque<Effect> = VecDeque::new();
    if file.covers(&cutoff) {
        let intent = file.duplicate().intend(cutoff);
        add_effect(&mut script, Effect::Publish(intent));
        add_effect(&mut script, Effect::FinalizeSubject(cutoff));
        add_effect(&mut script, Effect::SyncSubject);
    } else {
        add_effect(&mut script, Effect::FinalizeSubject(cutoff));
    }
    let ghost before = file@;
    add_effect(&mut script, Effect::Publish(file.finalize(cutoff)));
    assert(effects(script@) =~= finalize_script(before, cutoff));
    script
}

/// Add the verification of the collection to which a request refers.
fn add_check(script: &mut VecDeque<Effect>, id: TxnId, record: &MutationRecord)
    requires
        script_wf(old(script)@),
    ensures
        script_wf(final(script)@),
        effects(final(script)@) == effects(old(script)@) + check_effects(id, *record),
{
    let ghost before = effects(script@);
    match record.value() {
        Some(value) => match reference(value) {
            Ok(Some(found)) => {
                add_effect(script, Effect::Resolve(id, found.clone()));
                assert(effects(script@) =~= before + check_effects(id, *record));
            },
            _ => {},
        },
        None => {},
    }
    assert(effects(script@) =~= before + check_effects(id, *record));
}

/// Add the verification of the collections to which requests refer.
fn add_checks(script: &mut VecDeque<Effect>, id: TxnId, records: &Vec<MutationRecord>)
    requires
        script_wf(old(script)@),
    ensures
        script_wf(final(script)@),
        effects(final(script)@) == effects(old(script)@) + checks(id, records@),
{
    let ghost before = effects(script@);
    let mut i: usize = 0;
    assert(before =~= before + checks(id, records@.take(0)));
    while i < records.len()
        invariant
            i <= records@.len(),
            script_wf(script@),
            effects(script@) == before + checks(id, records@.take(i as int)),
        decreases records@.len() - i,
    {
        add_check(script, id, &records[i]);
        proof {
            assert(records@.take(i + 1).drop_last() =~= records@.take(i as int));
            assert(effects(script@) =~= before + checks(id, records@.take(i + 1)));
        }
        i += 1;
    }
    assert(records@.take(records@.len() as int) =~= records@);
}

/// Verify every stored collection to which the history refers, in replay order.
pub(crate) fn validate_effects(file: &ChainFile) -> (res: VecDeque<Effect>)
    ensures
        script_wf(res@),
        effects(res@) == validate_script(file@.history()),
{
    let ghost history = file@.history();
    let mut script: VecDeque<Effect> = VecDeque::new();
    let mut i: usize = 0;
    assert(effects(script@) =~= validate_script(history.take(0)));
    while i < file.block.mutations.len()
        invariant
            i <= history.len(),
            history == file@.history(),
            history.len() == file.block.mutations.entries().len(),
            script_wf(script@),
            effects(script@) == validate_script(history.take(i as int)),
        decreases history.len() - i,
    {
        let (id, records) = file.block.mutations.at(i);
        assert(history[i as int] == (id, records@));
        add_checks(&mut script, id, records);
        assert(history.take(i + 1).drop_last() =~= history.take(i as int));
        i += 1;
    }
    assert(history.take(history.len() as int) =~= history);
    script
}

/// Add the replay of one transaction.
fn add_replay(script: &mut VecDeque<Effect>, id: TxnId, records: &Vec<MutationRecord>)
    requires
        script_wf(old(script)@),
    ensures
        script_wf(final(script)@),
        effects(final(script)@) == effects(old(script)@) + replay_transaction(id, records@),
{
    let ghost before = effects(script@);
    add_effect(script, Effect::RequestTransaction(id));
    let ghost requested = before.push(EffectView::RequestTransaction(id));
    let mut i: usize = 0;
    assert(requested =~= requested + invocations(id, records@.take(0)));
    while i < records.len()
        invariant
            i <= records@.len(),
            script_wf(script@),
            effects(script@) == requested + invocations(id, records@.take(i as int)),
        decreases records@.len() - i,
    {
        add_check(script, id, &records[i]);
        add_effect(script, Effect::Apply(id, records[i].clone()));
        proof {
            assert(records@.take(i + 1).drop_last() =~= records@.take(i as int));
            assert(effects(script@) =~= requested + invocations(id, records@.take(i + 1)));
        }
        i += 1;
    }
    assert(records@.take(records@.len() as int) =~= records@);
    add_effect(script, Effect::CommitSubject(id));
    assert(effects(script@) =~= before + replay_transaction(id, records@));
}

/// Bring the subject to the state which a committed file describes.
pub(crate) fn replay_effects(file: &ChainFile) -> (res: VecDeque<Effect>)
    ensures
        script_wf(res@),
        effects(res@) == replay_script(file@),
{
    let ghost history = file@.history();
    let mut script: VecDeque<Effect> = VecDeque::new();
    match file.frontier {
        Some(cutoff) => {
            add_effect(&mut script, Effect::InitializeCutoff(cutoff));
        },
        None => {},
    }
    let ghost first = effects(script@);
    let mut i: usize = 0;
    assert(first =~= first + replay_history(history.take(0)));
    while i < file.block.mutations.len()
        invariant
            i <= history.len(),
            history == file@.history(),
            history.len() == file.block.mutations.entries().len(),
            script_wf(script@),
            effects(script@) == first + replay_history(history.take(i as int)),
        decreases history.len() - i,
    {
        let (id, records) = file.block.mutations.at(i);
        assert(history[i as int] == (id, records@));
        add_replay(&mut script, id, records);
        proof {
            assert(history.take(i + 1).drop_last() =~= history.take(i as int));
            assert(effects(script@) =~= first + replay_history(history.take(i + 1)));
        }
        i += 1;
    }
    assert(history.take(history.len() as int) =~= history);
    assert(effects(script@) =~= replay_script(file@));
    script
}

/// Delete unused captured collections.
pub(crate) fn reclaim_effects(unused: Vec<String>) -> (res: VecDeque<Effect>)
    ensures
        script_wf(res@),
        effects(res@) == if unused@.len() == 0 {
            Seq::empty()
        } else {
            texts(unused@).map_values(|name: Seq<char>| EffectView::DeleteCapture(name)).push(
                EffectView::SyncDeleted,
            )
        },
{
    let ghost names = texts(unused@);
    let mut script: VecDeque<Effect> = VecDeque::new();
    let mut i: usize = 0;
    while i < unused.len()
        invariant
            i <= unused@.len(),
            names == texts(unused@),
            script_wf(script@),
            effects(script@) =~= names.take(i as int).map_values(
                |name: Seq<char>| EffectView::DeleteCapture(name),
            ),
        decreases unused@.len() - i,
    {
        add_effect(&mut script, Effect::DeleteCapture(unused[i].clone()));
        i += 1;
    }
    assert(names.take(unused@.len() as int) =~= names);
    if unused.len() > 0 {
        add_effect(&mut script, Effect::SyncDeleted);
    }
    assert(unused@.len() == 0 ==> effects(script@) =~= Seq::empty());
    script
}

} // verus!
