//! The file which publishes the committed history.

use vstd::prelude::*;

use crate::block::{
    beyond, lemma_shown, lemma_shown_placed, null_hash, shown, BlockView, ChainBlock, History,
};
use crate::error::ChainError;
use crate::map::{ascending, has_entry, lemma_filter_map, placed, TxnMap};
use crate::record::MutationRecord;
use crate::txn::{covered, is_covered, TxnId};

verus! {

/// Publication metadata around a shared semantic block.
pub struct ChainFile {
    /// The finalized cutoff: transactions at and before it are part of the canonical subject.
    pub frontier: Option<TxnId>,
    /// The cutoff of a canonical update which has been begun and not finished.
    pub materializing: Option<TxnId>,
    /// The retained history.
    pub block: ChainBlock,
}

/// The contents of a [`ChainFile`].
#[verifier::ext_equal]
pub struct FileView {
    pub frontier: Option<TxnId>,
    pub materializing: Option<TxnId>,
    pub block: BlockView,
}

impl FileView {
    /// The retained transactions, in replay order.
    pub open spec fn history(self) -> History {
        self.block.history
    }

    /// Why this file may not be loaded, if there is a reason.
    ///
    /// A loadable file has no unfinished canonical update and no predecessor, and each retained
    /// transaction lies beyond the finalized cutoff and has a record.
    pub open spec fn refusal(self) -> Option<ChainError> {
        if self.materializing is Some {
            Some(ChainError::RecoveryRequired)
        } else if self.block.previous_hash != null_hash() {
            Some(ChainError::InvalidPredecessor)
        } else if exists|i: int|
            0 <= i < self.history().len() && conflicts(self.frontier, #[trigger] self.history()[i]) {
            Some(ChainError::ConflictingTransaction)
        } else {
            None
        }
    }

    /// Whether one of the retained transactions lies at or before the cutoff.
    pub open spec fn covers(self, cutoff: TxnId) -> bool {
        exists|i: int|
            0 <= i < self.history().len() && covered(
                Some(cutoff),
                (#[trigger] self.history()[i]).0,
            )
    }

    /// This file with one more transaction.
    pub open spec fn with_transaction(self, id: TxnId, records: Seq<MutationRecord>) -> FileView {
        FileView {
            block: BlockView { history: placed(self.history(), id, records), ..self.block },
            ..self
        }
    }

    /// This file while the transactions up to a cutoff become part of the canonical subject.
    pub open spec fn with_intent(self, cutoff: TxnId) -> FileView {
        FileView { materializing: Some(cutoff), ..self }
    }

    /// This file once the transactions up to a cutoff are part of the canonical subject.
    pub open spec fn finalized(self, cutoff: TxnId) -> FileView {
        FileView {
            frontier: Some(cutoff),
            materializing: None,
            block: BlockView { history: beyond(self.history(), cutoff), ..self.block },
        }
    }
}

/// Whether a retained transaction is empty or lies at or before the finalized cutoff.
pub open spec fn conflicts(
    frontier: Option<TxnId>,
    transaction: (TxnId, Seq<MutationRecord>),
) -> bool {
    covered(frontier, transaction.0) || transaction.1.len() == 0
}

/// The file of a chain which has not committed anything.
pub open spec fn empty_file() -> FileView {
    FileView {
        frontier: None,
        materializing: None,
        block: BlockView { previous_hash: null_hash(), history: Seq::empty() },
    }
}

impl View for ChainFile {
    type V = FileView;

    open spec fn view(&self) -> FileView {
        FileView {
            frontier: self.frontier,
            materializing: self.materializing,
            block: self.block@,
        }
    }
}

impl Default for ChainFile {
    fn default() -> (res: Self)
        ensures
            res.wf(),
            res@ == empty_file(),
    {
        ChainFile { frontier: None, materializing: None, block: ChainBlock::new() }
    }
}

impl ChainFile {
    /// The transactions are in replay order.
    pub open spec fn wf(self) -> bool {
        self.block.wf()
    }

    /// Copy this file.
    pub fn duplicate(&self) -> (res: Self)
        requires
            self.wf(),
        ensures
            res.wf(),
            res@ == self@,
    {
        let ghost entries = self.block.mutations.entries();
        let mut mutations: TxnMap<Vec<MutationRecord>> = TxnMap::new();
        let mut i: usize = 0;
        while i < self.block.mutations.len()
            invariant
                i <= entries.len(),
                entries == self.block.mutations.entries(),
                ascending(entries),
                mutations.wf(),
                shown(mutations.entries()) == shown(entries.take(i as int)),
                mutations.entries().len() == i,
                forall|k: int|
                    #![trigger mutations.entries()[k]]
                    0 <= k < i ==> mutations.entries()[k].0 == entries[k].0,
            decreases entries.len() - i,
        {
            let (id, records) = self.block.mutations.at(i);
            let copy = records.clone();
            assert(copy@ =~= records@);
            assert forall|k: int|
                #![trigger mutations.entries()[k]]
                0 <= k < mutations.entries().len() implies mutations.entries()[k].0.before(id) by {
                assert(entries[k].0.before(entries[i as int].0));
            }
            mutations.append(id, copy);
            assert(shown(mutations.entries()) =~= shown(entries.take(i + 1))) by {
                assert(entries.take(i + 1) =~= entries.take(i as int).push(entries[i as int]));
                assert(shown(entries.take(i + 1)) =~= shown(entries.take(i as int)).push(
                    (id, records@),
                ));
            }
            i += 1;
        }
        assert(entries.take(i as int) =~= entries);
        ChainFile {
            frontier: self.frontier,
            materializing: self.materializing,
            block: ChainBlock { previous_hash: self.block.previous_hash, mutations },
        }
    }

    /// Check that this file may be loaded.
    pub fn check(&self) -> (res: Result<(), ChainError>)
        ensures
            match res {
                Ok(()) => self@.refusal() is None,
                Err(e) => self@.refusal() == Some(e),
            },
    {
        if self.materializing.is_some() {
            return Err(ChainError::RecoveryRequired);
        }
        let mut i: usize = 0;
        while i < 32
            invariant
                i <= 32,
                self@.materializing is None,
                self.block.previous_hash@.len() == 32,
                forall|k: int| 0 <= k < i ==> self.block.previous_hash@[k] == 0,
            decreases 32 - i,
        {
            if self.block.previous_hash[i] != 0 {
                assert(self@.block.previous_hash[i as int] != null_hash()[i as int]);
                return Err(ChainError::InvalidPredecessor);
            }
            i += 1;
        }
        assert(self@.block.previous_hash =~= null_hash());
        let ghost history = self@.history();
        let mut j: usize = 0;
        while j < self.block.mutations.len()
            invariant
                j <= history.len(),
                history == self@.history(),
                history.len() == self.block.mutations.entries().len(),
                self@.block.previous_hash == null_hash(),
                self@.materializing is None,
                forall|k: int|
                    0 <= k < j ==> !conflicts(self@.frontier, #[trigger] history[k]),
            decreases history.len() - j,
        {
            let (id, records) = self.block.mutations.at(j);
            assert(history[j as int] == (id, records@));
            if is_covered(self.frontier, &id) || records.len() == 0 {
                assert(conflicts(self@.frontier, self@.history()[j as int]));
                return Err(ChainError::ConflictingTransaction);
            }
            j += 1;
        }
        Ok(())
    }

    /// Whether one of the retained transactions lies at or before the cutoff.
    pub fn covers(&self, cutoff: &TxnId) -> (res: bool)
        requires
            self.wf(),
        ensures
            res == self@.covers(*cutoff),
    {
        let ghost history = self@.history();
        if self.block.mutations.len() == 0 {
            return false;
        }
        // the first transaction comes before all others
        let (first, _) = self.block.mutations.at(0);
        assert(history[0].0 == first);
        proof {
            lemma_shown(self.block.mutations.entries());
            if covered(Some(*cutoff), first) {
                assert(covered(Some(*cutoff), history[0].0));
            } else {
                assert forall|i: int| 0 <= i < history.len() implies !covered(
                    Some(*cutoff),
                    (#[trigger] history[i]).0,
                ) by {
                    if 0 < i {
                        assert(history[0].0.before(history[i].0));
                    }
                }
            }
        }
        is_covered(Some(*cutoff), &first)
    }

    /// Add the records of a transaction, unless the file already holds it.
    pub fn publish(self, id: TxnId, records: Vec<MutationRecord>) -> (res: Result<
        ChainFile,
        ChainError,
    >)
        requires
            self.wf(),
        ensures
            match res {
                Ok(file) => {
                    &&& file.wf()
                    &&& !has_entry(self@.history(), id)
                    &&& file@ == self@.with_transaction(id, records@)
                },
                Err(e) => has_entry(self@.history(), id) && e == ChainError::AlreadyPublished,
            },
    {
        let mut file = self;
        proof {
            lemma_shown(file.block.mutations.entries());
            lemma_shown_placed(file.block.mutations.entries(), id, records);
            assert(file.block.mutations@.dom().contains(id) == has_entry(
                file.block.mutations.entries(),
                id,
            ));
        }
        if file.block.mutations.insert(id, records).is_some() {
            Err(ChainError::AlreadyPublished)
        } else {
            Ok(file)
        }
    }

    /// Record that the transactions up to a cutoff are becoming part of the canonical subject.
    pub fn intend(self, cutoff: TxnId) -> (res: ChainFile)
        requires
            self.wf(),
        ensures
            res.wf(),
            res@ == self@.with_intent(cutoff),
    {
        ChainFile { materializing: Some(cutoff), ..self }
    }

    /// Drop the transactions up to a cutoff, which are part of the canonical subject.
    pub fn finalize(self, cutoff: TxnId) -> (res: ChainFile)
        requires
            self.wf(),
        ensures
            res.wf(),
            res@ == self@.finalized(cutoff),
    {
        let mut file = self;
        file.frontier = Some(cutoff);
        file.materializing = None;
        file.block.mutations.retain_after(&cutoff);
        proof {
            lemma_filter_map(
                self.block.mutations.entries(),
                |e: (TxnId, Vec<MutationRecord>)| (e.0, e.1@),
                |e: (TxnId, Seq<MutationRecord>)| cutoff.before(e.0),
                |e: (TxnId, Vec<MutationRecord>)| cutoff.before(e.0),
            );
        }
        file
    }
}

} // verus!
