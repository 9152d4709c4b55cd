//! The committed history: what publication and finalization make of it.

use vstd::prelude::*;

use crate::block::{beyond, History};
use crate::error::ChainError;
use crate::file::{conflicts, empty_file, FileView};
use crate::map::{ascending, entry_of, has_entry, placed};
use crate::record::MutationRecord;
use crate::txn::{covered, TxnId};

verus! {

/// The entries which are kept are among all entries, in the same order.
proof fn lemma_kept_entries(
    history: History,
    keep: spec_fn((TxnId, Seq<MutationRecord>)) -> bool,
)
    requires
        ascending(history),
    ensures
        ascending(history.filter(keep)),
        forall|i: int|
            #![trigger history.filter(keep)[i]]
            0 <= i < history.filter(keep).len() ==> keep(history.filter(keep)[i])
                && history.contains(history.filter(keep)[i]),
        forall|j: int|
            #![trigger history[j]]
            0 <= j < history.len() && keep(history[j]) ==> history.filter(keep).contains(
                history[j],
            ),
    decreases history.len(),
{
    reveal(Seq::filter);
    let kept = history.filter(keep);
    if history.len() > 0 {
        let init = history.drop_last();
        let before = init.filter(keep);
        let last = history.last();
        assert(ascending(init)) by {
            assert forall|i: int, j: int|
                #![trigger init[i], init[j]]
                0 <= i < j < init.len() implies init[i].0.before(init[j].0) by {
                assert(history[i].0.before(history[j].0));
            }
        }
        lemma_kept_entries(init, keep);
        assert forall|i: int| #![trigger kept[i]] 0 <= i < kept.len() implies keep(kept[i])
            && history.contains(kept[i]) by {
            if i < before.len() {
                assert(kept[i] == before[i]);
                let j = choose|j: int| 0 <= j < init.len() && init[j] == before[i];
                assert(history[j] == kept[i]);
            } else {
                assert(history[history.len() - 1] == kept[i]);
            }
        }
        assert forall|i: int, j: int|
            #![trigger kept[i], kept[j]]
            0 <= i < j < kept.len() implies kept[i].0.before(kept[j].0) by {
            assert(kept[i] == before[i]);
            if j < before.len() {
                assert(before[i].0.before(before[j].0));
            } else {
                let k = choose|k: int| 0 <= k < init.len() && init[k] == before[i];
                assert(history[k].0.before(history[history.len() - 1].0));
            }
        }
        assert forall|j: int|
            #![trigger history[j]]
            0 <= j < history.len() && keep(history[j]) implies kept.contains(history[j]) by {
            if j < init.len() {
                assert(init[j] == history[j]);
                let i = choose|i: int| 0 <= i < before.len() && before[i] == init[j];
                assert(kept[i] == history[j]);
            } else {
                assert(kept[kept.len() - 1] == history[j]);
            }
        }
    }
}

/// In replay order, an entry is what the history holds for its transaction.
proof fn lemma_entry(history: History, i: int)
    requires
        ascending(history),
        0 <= i < history.len(),
    ensures
        has_entry(history, history[i].0),
        entry_of(history, history[i].0) == history[i].1,
{
    let id = history[i].0;
    let j = choose|j: int| 0 <= j < history.len() && (#[trigger] history[j]).0 == id;
    if i < j {
        assert(history[i].0.before(history[j].0));
    } else if j < i {
        assert(history[j].0.before(history[i].0));
    }
}

/// Publication adds a transaction in its place, and leaves all others as they are.
pub proof fn law_publication_adds_exactly_one_transaction(
    history: History,
    id: TxnId,
    records: Seq<MutationRecord>,
)
    requires
        ascending(history),
        !has_entry(history, id),
    ensures
        ascending(placed(history, id, records)),
        has_entry(placed(history, id, records), id),
        entry_of(placed(history, id, records), id) == records,
        placed(history, id, records).len() == history.len() + 1,
        forall|other: TxnId|
            #![trigger has_entry(placed(history, id, records), other)]
            other != id ==> {
                &&& has_entry(placed(history, id, records), other) == has_entry(history, other)
                &&& has_entry(history, other) ==> entry_of(placed(history, id, records), other)
                    == entry_of(history, other)
            },
{
    let earlier = |e: (TxnId, Seq<MutationRecord>)| e.0.before(id);
    let later = |e: (TxnId, Seq<MutationRecord>)| id.before(e.0);
    lemma_kept_entries(history, earlier);
    lemma_kept_entries(history, later);
    let first = history.filter(earlier);
    let last = history.filter(later);
    let all = placed(history, id, records);
    assert(all =~= first.push((id, records)) + last);
    lemma_partition(history, id);
    assert forall|i: int, j: int|
        #![trigger all[i], all[j]]
        0 <= i < j < all.len() implies all[i].0.before(all[j].0) by {
        if j < first.len() {
            assert(first[i].0.before(first[j].0));
        } else if j == first.len() {
            assert(earlier(first[i]));
        } else {
            let l = j - first.len() - 1;
            assert(all[j] == last[l]);
            assert(later(last[l]));
            if i < first.len() {
                assert(earlier(first[i]));
            } else if i > first.len() {
                assert(last[i - first.len() - 1].0.before(last[l].0));
            }
        }
    }
    assert(all[first.len() as int] == (id, records));
    lemma_entry(all, first.len() as int);
    assert forall|other: TxnId|
        #![trigger has_entry(all, other)]
        other != id implies {
        &&& has_entry(all, other) == has_entry(history, other)
        &&& has_entry(history, other) ==> entry_of(all, other) == entry_of(history, other)
    } by {
        if has_entry(history, other) {
            let j = choose|j: int| 0 <= j < history.len() && (#[trigger] history[j]).0 == other;
            lemma_entry(history, j);
            if earlier(history[j]) {
                let i = choose|i: int| 0 <= i < first.len() && first[i] == history[j];
                assert(all[i] == history[j]);
                lemma_entry(all, i);
            } else {
                assert(later(history[j]));
                let i = choose|i: int| 0 <= i < last.len() && last[i] == history[j];
                assert(all[first.len() + 1 + i] == history[j]);
                lemma_entry(all, first.len() + 1 + i);
            }
        }
        if has_entry(all, other) {
            let i = choose|i: int| 0 <= i < all.len() && (#[trigger] all[i]).0 == other;
            if i < first.len() {
                assert(all[i] == first[i]);
                assert(history.contains(first[i]));
            } else {
                assert(all[i] == last[i - first.len() - 1]);
                assert(history.contains(last[i - first.len() - 1]));
            }
            let j = choose|j: int| 0 <= j < history.len() && history[j] == all[i];
            assert(history[j].0 == other);
        }
    }
}

/// Every entry of another transaction comes before or after.
proof fn lemma_partition(history: History, id: TxnId)
    requires
        !has_entry(history, id),
    ensures
        history.filter(|e: (TxnId, Seq<MutationRecord>)| e.0.before(id)).len() + history.filter(
            |e: (TxnId, Seq<MutationRecord>)| id.before(e.0),
        ).len() == history.len(),
    decreases history.len(),
{
    reveal(Seq::filter);
    if history.len() > 0 {
        let init = history.drop_last();
        assert(!has_entry(init, id)) by {
            if has_entry(init, id) {
                let k = choose|k: int| 0 <= k < init.len() && (#[trigger] init[k]).0 == id;
                assert(history[k].0 == id);
            }
        }
        assert(history[history.len() - 1].0 != id);
        lemma_partition(init, id);
    }
}

/// Finalization drops exactly the transactions at and before the cutoff, and leaves all others as
/// they are.
pub proof fn law_finalization_drops_exactly_the_covered_transactions(
    history: History,
    cutoff: TxnId,
)
    requires
        ascending(history),
    ensures
        ascending(beyond(history, cutoff)),
        forall|id: TxnId|
            #![trigger has_entry(beyond(history, cutoff), id)]
            {
                &&& has_entry(beyond(history, cutoff), id) <==> has_entry(history, id)
                    && cutoff.before(id)
                &&& has_entry(beyond(history, cutoff), id) ==> entry_of(
                    beyond(history, cutoff),
                    id,
                ) == entry_of(history, id)
            },
{
    let keep = |e: (TxnId, Seq<MutationRecord>)| cutoff.before(e.0);
    lemma_kept_entries(history, keep);
    let rest = beyond(history, cutoff);
    assert forall|id: TxnId| #![trigger has_entry(rest, id)] {
        &&& has_entry(rest, id) <==> has_entry(history, id) && cutoff.before(id)
        &&& has_entry(rest, id) ==> entry_of(rest, id) == entry_of(history, id)
    } by {
        if has_entry(rest, id) {
            let i = choose|i: int| 0 <= i < rest.len() && (#[trigger] rest[i]).0 == id;
            assert(keep(rest[i]) && history.contains(rest[i]));
            let j = choose|j: int| 0 <= j < history.len() && history[j] == rest[i];
            lemma_entry(rest, i);
            lemma_entry(history, j);
        }
        if has_entry(history, id) && cutoff.before(id) {
            let j = choose|j: int| 0 <= j < history.len() && (#[trigger] history[j]).0 == id;
            assert(keep(history[j]));
            let i = choose|i: int| 0 <= i < rest.len() && rest[i] == history[j];
            assert(rest[i].0 == id);
        }
    }
}

/// The file of a new chain may be loaded.
pub proof fn law_new_chains_may_be_loaded()
    ensures
        empty_file().refusal() is None,
        ascending(empty_file().history()),
{
}

/// A file which may be loaded still may be once a transaction is published, unless the transaction
/// is empty or already finalized.
pub proof fn law_published_files_may_be_loaded(
    file: FileView,
    id: TxnId,
    records: Seq<MutationRecord>,
)
    requires
        file.refusal() is None,
        ascending(file.history()),
        !has_entry(file.history(), id),
        !covered(file.frontier, id),
        records.len() > 0,
    ensures
        file.with_transaction(id, records).refusal() is None,
        ascending(file.with_transaction(id, records).history()),
{
    let history = file.history();
    let all = placed(history, id, records);
    law_publication_adds_exactly_one_transaction(history, id, records);
    assert forall|i: int| 0 <= i < all.len() implies !conflicts(
        file.frontier,
        #[trigger] all[i],
    ) by {
        let other = all[i].0;
        lemma_entry(all, i);
        if other != id {
            assert(has_entry(all, other));
            let j = choose|j: int| 0 <= j < history.len() && (#[trigger] history[j]).0 == other;
            lemma_entry(history, j);
            assert(!conflicts(file.frontier, history[j]));
        }
    }
    assert(file.with_transaction(id, records).history() == all);
}

/// A file which may be loaded still may be once a cutoff is finalized. While the canonical subject
/// is being updated, the file may not be loaded.
pub proof fn law_finalized_files_may_be_loaded(file: FileView, cutoff: TxnId)
    requires
        file.refusal() is None,
        ascending(file.history()),
    ensures
        file.finalized(cutoff).refusal() is None,
        ascending(file.finalized(cutoff).history()),
        file.with_intent(cutoff).refusal() == Some(ChainError::RecoveryRequired),
        !file.covers(cutoff) ==> file.finalized(cutoff).history() == file.history(),
{
    let history = file.history();
    let rest = beyond(history, cutoff);
    let keep = |e: (TxnId, Seq<MutationRecord>)| cutoff.before(e.0);
    law_finalization_drops_exactly_the_covered_transactions(history, cutoff);
    lemma_kept_entries(history, keep);
    assert forall|i: int| 0 <= i < rest.len() implies !conflicts(
        Some(cutoff),
        #[trigger] rest[i],
    ) by {
        assert(keep(rest[i]) && history.contains(rest[i]));
        let j = choose|j: int| 0 <= j < history.len() && history[j] == rest[i];
        assert(!conflicts(file.frontier, history[j]));
    }
    assert(file.finalized(cutoff).history() == rest);
    if !file.covers(cutoff) {
        assert forall|i: int| 0 <= i < history.len() implies keep(#[trigger] history[i]) by {
            assert(!covered(Some(cutoff), history[i].0));
        }
        lemma_all_kept(history, keep);
    }
}

/// If every entry is kept, nothing changes.
proof fn lemma_all_kept(history: History, keep: spec_fn((TxnId, Seq<MutationRecord>)) -> bool)
    requires
        forall|i: int| 0 <= i < history.len() ==> keep(#[trigger] history[i]),
    ensures
        history.filter(keep) == history,
    decreases history.len(),
{
    reveal(Seq::filter);
    if history.len() > 0 {
        let init = history.drop_last();
        assert forall|i: int| 0 <= i < init.len() implies keep(#[trigger] init[i]) by {
            assert(init[i] == history[i]);
        }
        lemma_all_kept(init, keep);
        assert(keep(history[history.len() - 1]));
        assert(history.filter(keep) =~= history);
    }
}

} // verus!
