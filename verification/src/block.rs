//! The committed history.

use vstd::prelude::*;

use crate::error::ChainError;
use crate::map::{
    ascending, entry_map, has_entry, lemma_entry_map_determines, lemma_entry_map_index,
    lemma_filter_map, placed, TxnMap,
};
use crate::record::MutationRecord;
use crate::txn::TxnId;

verus! {

/// The number of bytes in the hash of a block.
pub const HASH_LEN: usize = 32;

/// History in replay order: each transaction with its records in admission order.
pub type History = Seq<(TxnId, Seq<MutationRecord>)>;

/// Transactions with their records, in the order given.
pub open spec fn shown(entries: Seq<(TxnId, Vec<MutationRecord>)>) -> History {
    entries.map_values(|e: (TxnId, Vec<MutationRecord>)| (e.0, e.1@))
}

/// Showing the records of transactions changes neither their order nor what belongs to which.
pub proof fn lemma_shown(entries: Seq<(TxnId, Vec<MutationRecord>)>)
    requires
        ascending(entries),
    ensures
        ascending(shown(entries)),
        forall|id: TxnId| has_entry(entries, id) == #[trigger] has_entry(shown(entries), id),
        forall|id: TxnId|
            #![trigger entry_map(entries)[id]]
            has_entry(entries, id) ==> entry_map(shown(entries))[id] == entry_map(entries)[id]@,
{
    let s = shown(entries);
    assert forall|i: int, j: int|
        #![trigger s[i], s[j]]
        0 <= i < j < s.len() implies s[i].0.before(s[j].0) by {
        assert(entries[i].0.before(entries[j].0));
    }
    assert forall|id: TxnId| has_entry(entries, id) == #[trigger] has_entry(s, id) by {
        if has_entry(entries, id) {
            let k = choose|k: int| 0 <= k < entries.len() && (#[trigger] entries[k]).0 == id;
            assert(s[k].0 == id);
        }
        if has_entry(s, id) {
            let k = choose|k: int| 0 <= k < s.len() && (#[trigger] s[k]).0 == id;
            assert(entries[k].0 == id);
        }
    }
    assert forall|id: TxnId|
        #![trigger entry_map(entries)[id]]
        has_entry(entries, id) implies entry_map(s)[id] == entry_map(entries)[id]@ by {
        let k = choose|k: int| 0 <= k < entries.len() && (#[trigger] entries[k]).0 == id;
        lemma_entry_map_index(entries, k);
        lemma_entry_map_index(s, k);
    }
}

/// Placing a transaction and showing it.
pub proof fn lemma_shown_placed(
    entries: Seq<(TxnId, Vec<MutationRecord>)>,
    id: TxnId,
    records: Vec<MutationRecord>,
)
    ensures
        shown(placed(entries, id, records)) == placed(shown(entries), id, records@),
{
    let f = |e: (TxnId, Vec<MutationRecord>)| (e.0, e.1@);
    lemma_filter_map(
        entries,
        f,
        |e: (TxnId, Seq<MutationRecord>)| e.0.before(id),
        |e: (TxnId, Vec<MutationRecord>)| e.0.before(id),
    );
    lemma_filter_map(
        entries,
        f,
        |e: (TxnId, Seq<MutationRecord>)| id.before(e.0),
        |e: (TxnId, Vec<MutationRecord>)| id.before(e.0),
    );
    assert(shown(placed(entries, id, records)) =~= placed(shown(entries), id, records@));
}

/// The history beyond a cutoff.
pub open spec fn beyond(history: History, cutoff: TxnId) -> History {
    history.filter(|e: (TxnId, Seq<MutationRecord>)| cutoff.before(e.0))
}

/// Ordered semantic history, linked to the block which it follows.
pub struct ChainBlock {
    /// The hash of the preceding block.
    pub previous_hash: [u8; 32],
    /// The records of each transaction, keyed by its original identity.
    pub mutations: TxnMap<Vec<MutationRecord>>,
}

/// The contents of a [`ChainBlock`].
#[verifier::ext_equal]
pub struct BlockView {
    pub previous_hash: Seq<u8>,
    pub history: History,
}

impl View for ChainBlock {
    type V = BlockView;

    open spec fn view(&self) -> BlockView {
        BlockView {
            previous_hash: self.previous_hash@,
            history: shown(self.mutations.entries()),
        }
    }
}

/// Whether no transaction occurs twice.
pub open spec fn distinct(entries: History) -> bool {
    forall|i: int, j: int|
        #![trigger entries[i], entries[j]]
        0 <= i < j < entries.len() ==> entries[i].0 != entries[j].0
}

/// What becomes of a block which is decoded from a predecessor hash and transactions: no transaction
/// may occur twice, and the hash must have its length. The history is in replay order.
pub open spec fn decodes(
    previous_hash: Seq<u8>,
    given: History,
    res: Result<BlockView, ChainError>,
) -> bool {
    match res {
        Ok(block) => {
            &&& distinct(given)
            &&& block.previous_hash == previous_hash
            &&& previous_hash.len() == HASH_LEN
            &&& ascending(block.history)
            &&& entry_map(block.history) == entry_map(given)
        },
        Err(e) => if distinct(given) {
            e == ChainError::PredecessorLength && previous_hash.len() != HASH_LEN
        } else {
            e == ChainError::DuplicateTransaction
        },
    }
}

/// In entries without duplicates, an entry is what the map holds for its identity.
pub proof fn lemma_distinct_index(entries: History, i: int)
    requires
        distinct(entries),
        0 <= i < entries.len(),
    ensures
        entry_map(entries).dom().contains(entries[i].0),
        entry_map(entries)[entries[i].0] == entries[i].1,
{
    let id = entries[i].0;
    assert(has_entry(entries, id));
    let j = choose|j: int| 0 <= j < entries.len() && (#[trigger] entries[j]).0 == id;
    if i < j {
        assert(entries[i].0 != entries[j].0);
    } else if j < i {
        assert(entries[j].0 != entries[i].0);
    }
}

impl ChainBlock {
    pub open spec fn wf(self) -> bool {
        self.mutations.wf()
    }

    /// The first block of a chain, without history.
    pub fn new() -> (res: Self)
        ensures
            res.wf(),
            res@.previous_hash == null_hash(),
            res@.history == Seq::<(TxnId, Seq<MutationRecord>)>::empty(),
    {
        let res = ChainBlock { previous_hash: [0;32], mutations: TxnMap::new() };
        assert(res@.previous_hash =~= null_hash());
        assert(res@.history =~= Seq::<(TxnId, Seq<MutationRecord>)>::empty());
        res
    }

    /// Decode a block from its predecessor hash and its transactions, in any order.
    ///
    /// A transaction which occurs twice and a hash of the wrong length are rejected.
    pub fn decode(previous_hash: Vec<u8>, transactions: Vec<(TxnId, Vec<MutationRecord>)>) -> (res:
        Result<ChainBlock, ChainError>)
        ensures
            res matches Ok(block) ==> block.wf(),
            decodes(
                previous_hash@,
                shown(transactions@),
                match res {
                    Ok(block) => Ok(block@),
                    Err(e) => Err(e),
                },
            ),
    {
        let ghost given = shown(transactions@);
        let mut mutations: TxnMap<Vec<MutationRecord>> = TxnMap::new();
        let mut rest = transactions;
        // taken from the end: `rest` holds the transactions which are still to be inserted
        while rest.len() > 0
            invariant
                mutations.wf(),
                rest@.len() <= transactions@.len(),
                given == shown(transactions@),
                rest@ == transactions@.take(rest@.len() as int),
                forall|i: int, j: int|
                    #![trigger given[i], given[j]]
                    rest@.len() <= i < j < given.len() ==> given[i].0 != given[j].0,
                forall|id: TxnId| #[trigger]
                    mutations@.dom().contains(id) <==> exists|k: int|
                        rest@.len() <= k < given.len() && (#[trigger] given[k]).0 == id,
                forall|k: int|
                    #![trigger given[k]]
                    rest@.len() <= k < given.len() ==> mutations@[given[k].0]@ == given[k].1,
            decreases rest@.len(),
        {
            let ghost n = rest@.len() - 1;
            let ghost before = mutations@;
            match rest.pop() {
                Some((id, records)) => {
                    assert(transactions@[n] == (id, records));
                    assert(given[n] == (id, records@));
                    if mutations.insert(id, records).is_some() {
                        proof {
                            let k = choose|k: int|
                                rest@.len() < k < given.len() && (#[trigger] given[k]).0 == id;
                            assert(given[n].0 == given[k].0);
                        }
                        return Err(ChainError::DuplicateTransaction);
                    }
                    proof {
                        assert(rest@ =~= transactions@.take(n));
                        assert forall|i: int, j: int|
                            #![trigger given[i], given[j]]
                            n <= i < j < given.len() implies given[i].0 != given[j].0 by {
                            if i == n && given[i].0 == given[j].0 {
                                assert(before.dom().contains(id));
                            }
                        }
                        assert forall|x: TxnId| #[trigger]
                            mutations@.dom().contains(x) <==> exists|k: int|
                                n <= k < given.len() && (#[trigger] given[k]).0 == x by {
                            if x == id {
                                assert(given[n].0 == x);
                            }
                            if before.dom().contains(x) {
                                let k = choose|k: int|
                                    n < k < given.len() && (#[trigger] given[k]).0 == x;
                                assert(given[k].0 == x);
                            }
                        }
                    }
                },
                None => {},
            }
        }
        proof {
            assert(distinct(given));
            lemma_shown(mutations.entries());
            let history = shown(mutations.entries());
            assert forall|id: TxnId| #[trigger]
                entry_map(history).dom().contains(id) == entry_map(given).dom().contains(id) by {
                assert(has_entry(history, id) == has_entry(mutations.entries(), id));
                assert(mutations@.dom().contains(id) == has_entry(mutations.entries(), id));
            }
            assert forall|id: TxnId| #[trigger] entry_map(history).dom().contains(id) implies
                entry_map(history)[id] == entry_map(given)[id] by {
                let k = choose|k: int| 0 <= k < given.len() && (#[trigger] given[k]).0 == id;
                lemma_distinct_index(given, k);
                assert(entry_map(mutations.entries())[id]@ == given[k].1);
            }
            assert(entry_map(history) =~= entry_map(given));
        }
        if previous_hash.len() != HASH_LEN {
            return Err(ChainError::PredecessorLength);
        }
        let mut hash: [u8; 32] = [0;32];
        let mut i: usize = 0;
        while i < 32
            invariant
                i <= 32,
                previous_hash@.len() == 32,
                hash@.len() == 32,
                forall|k: int| 0 <= k < i ==> hash@[k] == previous_hash@[k],
            decreases 32 - i,
        {
            hash[i] = previous_hash[i];
            i += 1;
        }
        let block = ChainBlock { previous_hash: hash, mutations };
        assert(block@.previous_hash =~= previous_hash@);
        Ok(block)
    }

    /// The predecessor hash and the transactions in replay order, as they are persisted.
    pub fn encode(self) -> (res: (Vec<u8>, Vec<(TxnId, Vec<MutationRecord>)>))
        ensures
            res.0@ == self@.previous_hash,
            shown(res.1@) == self@.history,
    {
        let mut hash: Vec<u8> = Vec::new();
        let mut i: usize = 0;
        while i < 32
            invariant
                i <= 32,
                self.previous_hash@.len() == 32,
                hash@ == self.previous_hash@.take(i as int),
            decreases 32 - i,
        {
            hash.push(self.previous_hash[i]);
            assert(hash@ =~= self.previous_hash@.take(i + 1));
            i += 1;
        }
        assert(hash@ =~= self.previous_hash@);
        (hash, self.mutations.into_entries())
    }
}

/// A block which is read has the history which was written, in replay order, whatever the order is
/// in which the transactions are found.
pub proof fn law_blocks_are_read_as_they_were_written(
    written: History,
    found: History,
    read: History,
)
    requires
        ascending(written),
        entry_map(found) == entry_map(written),
        ascending(read),
        entry_map(read) == entry_map(found),
    ensures
        read == written,
        distinct(written),
{
    lemma_entry_map_determines(read, written);
    assert forall|i: int, j: int|
        #![trigger written[i], written[j]]
        0 <= i < j < written.len() implies written[i].0 != written[j].0 by {
        assert(written[i].0.before(written[j].0));
    }
}

/// The hash which a block without a predecessor holds.
pub open spec fn null_hash() -> Seq<u8> {
    Seq::new(32, |i: int| 0u8)
}

} // verus!
