//! The bounded queue of pending work, by transaction.

use vstd::prelude::*;

use crate::error::ChainError;
use crate::map::{has_entry, lemma_entry_map_index, TxnMap};
use crate::txn::{covered, is_covered, TxnId};

verus! {

/// How far a transaction has come.
#[derive(Clone, Copy, Debug, PartialEq, Eq, Structural)]
pub enum Status {
    /// No request is unfinished.
    Active,
    /// A request is being captured or executed.
    Running,
    /// A request failed or was cancelled; the transaction can only be discarded.
    Failed,
    /// A receipt: the transaction was committed.
    Committed,
    /// A receipt: the transaction was rolled back.
    RolledBack,
}

/// Who prepares a change to the log. Captures and lifecycle operations exclude one another.
#[derive(Clone, Copy, Debug, PartialEq, Eq, Structural)]
pub enum Exclusion {
    /// Nobody.
    Free,
    /// A request of a transaction, until it is recorded.
    Capture(TxnId),
    /// A lifecycle operation. Once it is armed, abandoning it interrupts the queue.
    Lifecycle { armed: bool },
}

/// The pending work of one transaction.
pub struct Entry<T> {
    pub status: Status,
    pub records: Vec<T>,
}

/// The pending work of one transaction, or its receipt.
#[verifier::ext_equal]
pub struct EntryView<T> {
    pub status: Status,
    pub records: Seq<T>,
}

impl<T> View for Entry<T> {
    type V = EntryView<T>;

    open spec fn view(&self) -> EntryView<T> {
        EntryView { status: self.status, records: self.records@ }
    }
}

/// Pending work and decision receipts, bounded for each transaction.
pub struct TxnTaskQueue<T> {
    capacity: usize,
    frontier: Option<TxnId>,
    interrupted: bool,
    exclusion: Exclusion,
    entries: TxnMap<Entry<T>>,
}

/// The contents of a [`TxnTaskQueue`].
#[verifier::ext_equal]
#[verifier::reject_recursive_types(T)]
pub struct QueueView<T> {
    /// The number of records which a transaction may have.
    pub capacity: nat,
    /// The finalized cutoff.
    pub frontier: Option<TxnId>,
    /// Whether an armed lifecycle operation was abandoned.
    pub interrupted: bool,
    /// Who prepares a change to the log.
    pub exclusion: Exclusion,
    /// The transactions which have pending work or a receipt.
    pub txns: Map<TxnId, EntryView<T>>,
}

impl<T> QueueView<T> {
    /// A queue which has not been used.
    pub open spec fn fresh(capacity: nat) -> QueueView<T> {
        QueueView {
            capacity,
            frontier: None,
            interrupted: false,
            exclusion: Exclusion::Free,
            txns: Map::empty(),
        }
    }

    /// The invariant of a queue.
    pub open spec fn valid(self) -> bool {
        &&& self.capacity > 0
        &&& forall|id: TxnId| #[trigger]
            self.txns.dom().contains(id) ==> {
                &&& !covered(self.frontier, id)
                &&& self.txns[id].records.len() <= self.capacity
                &&& self.decided(id) ==> self.txns[id].records.len() == 0
            }
        &&& self.exclusion matches Exclusion::Capture(id) ==> {
            &&& self.is(id, Status::Running)
            &&& self.txns[id].records.len() < self.capacity
        }
        &&& self.interrupted ==> self.exclusion is Free
    }

    /// Whether a transaction has the status.
    pub open spec fn is(self, id: TxnId, status: Status) -> bool {
        self.txns.dom().contains(id) && self.txns[id].status == status
    }

    /// Whether a transaction has a receipt.
    pub open spec fn decided(self, id: TxnId) -> bool {
        self.is(id, Status::Committed) || self.is(id, Status::RolledBack)
    }

    /// The records of a transaction, in the order of their admission.
    pub open spec fn records(self, id: TxnId) -> Seq<T> {
        if self.txns.dom().contains(id) {
            self.txns[id].records
        } else {
            Seq::empty()
        }
    }

    /// This queue with the entry of a transaction set.
    pub open spec fn with(self, id: TxnId, status: Status, records: Seq<T>) -> QueueView<T> {
        QueueView { txns: self.txns.insert(id, EntryView { status, records }), ..self }
    }

    /// This queue with another exclusion.
    pub open spec fn exclusive(self, exclusion: Exclusion) -> QueueView<T> {
        QueueView { exclusion, ..self }
    }

    /// Why a transaction cannot be registered, if there is a reason.
    pub open spec fn register_refusal(self, id: TxnId) -> Option<ChainError> {
        if self.interrupted {
            Some(ChainError::Interrupted)
        } else if covered(self.frontier, id) {
            Some(ChainError::Outdated)
        } else if self.is(id, Status::Failed) {
            Some(ChainError::Failed)
        } else if self.is(id, Status::Committed) {
            Some(ChainError::Committed)
        } else if self.is(id, Status::RolledBack) {
            Some(ChainError::RolledBack)
        } else {
            None
        }
    }

    /// This queue with a transaction registered. One which is known already keeps its entry.
    pub open spec fn registered(self, id: TxnId) -> QueueView<T> {
        if self.txns.dom().contains(id) {
            self
        } else {
            self.with(id, Status::Active, Seq::empty())
        }
    }

    /// Why a transaction cannot observe the resource, if there is a reason.
    pub open spec fn read_refusal(self, id: TxnId) -> Option<ChainError> {
        if self.interrupted {
            Some(ChainError::Interrupted)
        } else if covered(self.frontier, id) {
            Some(ChainError::Outdated)
        } else if self.is(id, Status::Failed) {
            Some(ChainError::Failed)
        } else if self.is(id, Status::RolledBack) {
            Some(ChainError::RolledBack)
        } else {
            None
        }
    }

    /// Why a request of a transaction cannot be admitted, if there is a reason.
    pub open spec fn start_refusal(self, id: TxnId) -> Option<ChainError> {
        if self.interrupted {
            Some(ChainError::Interrupted)
        } else if self.exclusion != Exclusion::Free {
            Some(ChainError::Busy)
        } else if covered(self.frontier, id) {
            Some(ChainError::Outdated)
        } else if self.is(id, Status::Running) {
            Some(ChainError::Unfinished)
        } else if self.is(id, Status::Failed) {
            Some(ChainError::Failed)
        } else if self.is(id, Status::Committed) {
            Some(ChainError::Committed)
        } else if self.is(id, Status::RolledBack) {
            Some(ChainError::RolledBack)
        } else if self.records(id).len() >= self.capacity {
            Some(ChainError::CapacityExhausted)
        } else {
            None
        }
    }

    /// Why a lifecycle operation cannot begin, if there is a reason.
    pub open spec fn operation_refusal(self) -> Option<ChainError> {
        if self.interrupted {
            Some(ChainError::Interrupted)
        } else if self.exclusion != Exclusion::Free {
            Some(ChainError::Busy)
        } else {
            None
        }
    }

    /// Why a transaction cannot be committed within a lifecycle operation, if there is a reason.
    pub open spec fn commit_refusal(self, id: TxnId) -> Option<ChainError> {
        if !(self.exclusion is Lifecycle) {
            Some(ChainError::UnexpectedReply)
        } else if covered(self.frontier, id) {
            Some(ChainError::Outdated)
        } else if self.is(id, Status::Running) {
            Some(ChainError::Unfinished)
        } else if self.is(id, Status::Failed) {
            Some(ChainError::Failed)
        } else if self.is(id, Status::RolledBack) {
            Some(ChainError::RolledBack)
        } else {
            None
        }
    }

    /// This queue with a transaction committed.
    pub open spec fn committed(self, id: TxnId) -> QueueView<T> {
        if self.is(id, Status::Committed) {
            self
        } else {
            self.with(id, Status::Committed, Seq::empty()).exclusive(
                Exclusion::Lifecycle { armed: true },
            )
        }
    }

    /// Why a transaction cannot be rolled back within a lifecycle operation, if there is a reason.
    pub open spec fn rollback_refusal(self, id: TxnId) -> Option<ChainError> {
        if !(self.exclusion is Lifecycle) {
            Some(ChainError::UnexpectedReply)
        } else if covered(self.frontier, id) {
            Some(ChainError::Outdated)
        } else if self.is(id, Status::Running) {
            Some(ChainError::Unfinished)
        } else if self.is(id, Status::Committed) {
            Some(ChainError::Committed)
        } else {
            None
        }
    }

    /// Whether a request at or before the cutoff is unfinished.
    pub open spec fn unfinished_through(self, cutoff: TxnId) -> bool {
        exists|id: TxnId| #[trigger]
            self.is(id, Status::Running) && covered(Some(cutoff), id)
    }

    /// Why a cutoff cannot be finalized within a lifecycle operation, if there is a reason.
    pub open spec fn finalize_refusal(self, cutoff: TxnId) -> Option<ChainError> {
        if !(self.exclusion is Lifecycle) {
            Some(ChainError::UnexpectedReply)
        } else if self.unfinished_through(cutoff) {
            Some(ChainError::Unfinished)
        } else {
            None
        }
    }

    /// This queue with the transactions up to a cutoff finalized.
    pub open spec fn finalized(self, cutoff: TxnId) -> QueueView<T> {
        QueueView {
            frontier: if covered(self.frontier, cutoff) {
                self.frontier
            } else {
                Some(cutoff)
            },
            txns: self.txns.restrict(Set::new(|id: TxnId| cutoff.before(id))),
            ..self
        }
    }

    /// This queue once a lifecycle operation is abandoned.
    pub open spec fn abandoned(self) -> QueueView<T> {
        match self.exclusion {
            Exclusion::Lifecycle { armed } => QueueView {
                interrupted: self.interrupted || armed,
                exclusion: Exclusion::Free,
                ..self
            },
            _ => self,
        }
    }

    /// This queue once a request is abandoned.
    pub open spec fn failed(self, id: TxnId) -> QueueView<T> {
        if self.is(id, Status::Running) {
            self.with(id, Status::Failed, self.records(id)).exclusive(
                if self.exclusion == Exclusion::Capture(id) {
                    Exclusion::Free
                } else {
                    self.exclusion
                },
            )
        } else {
            self
        }
    }
}

impl<T> View for TxnTaskQueue<T> {
    type V = QueueView<T>;

    closed spec fn view(&self) -> QueueView<T> {
        QueueView {
            capacity: self.capacity as nat,
            frontier: self.frontier,
            interrupted: self.interrupted,
            exclusion: self.exclusion,
            txns: self.entries@.map_values(|e: Entry<T>| e@),
        }
    }
}

impl<T> TxnTaskQueue<T> {
    pub closed spec fn wf(self) -> bool {
        &&& self.entries.wf()
        &&& self@.valid()
    }

    /// A well-formed queue keeps its invariant.
    pub proof fn lemma_valid(self)
        requires
            self.wf(),
        ensures
            self@.valid(),
    {
    }

    /// A fresh queue which admits a positive number of records for each transaction.
    pub fn new(capacity: usize) -> (res: Self)
        requires
            capacity > 0,
        ensures
            res.wf(),
            res@ == QueueView::<T>::fresh(capacity as nat),
    {
        let res = TxnTaskQueue {
            capacity,
            frontier: None,
            interrupted: false,
            exclusion: Exclusion::Free,
            entries: TxnMap::new(),
        };
        assert(res@.txns =~= Map::<TxnId, EntryView<T>>::empty());
        res
    }

    /// The status of a transaction, if it has pending work or a receipt.
    pub fn status(&self, id: &TxnId) -> (res: Option<Status>)
        requires
            self.wf(),
        ensures
            match res {
                Some(status) => self@.is(*id, status),
                None => !self@.txns.dom().contains(*id),
            },
    {
        match self.entries.get(id) {
            Some(entry) => Some(entry.status),
            None => None,
        }
    }

    /// The number of records of a transaction.
    fn count(&self, id: &TxnId) -> (res: usize)
        requires
            self.wf(),
        ensures
            res == self@.records(*id).len(),
    {
        match self.entries.get(id) {
            Some(entry) => entry.records.len(),
            None => 0,
        }
    }

    /// Set the entry of a transaction; returns the records which it had.
    fn set(&mut self, id: TxnId, status: Status, records: Vec<T>) -> (res: Vec<T>)
        requires
            old(self).wf(),
            !covered(old(self)@.frontier, id),
            records@.len() <= old(self)@.capacity,
            status == Status::Committed || status == Status::RolledBack ==> records@.len() == 0,
            old(self)@.exclusion != Exclusion::Capture(id),
        ensures
            final(self).wf(),
            final(self)@ == old(self)@.with(id, status, records@),
            res@ == old(self)@.records(id),
    {
        let ghost before = *self;
        let entry = Entry { status, records };
        let replaced = self.entries.insert(id, entry);
        assert(self@.txns =~= before@.txns.insert(id, entry@));
        match replaced {
            Some(entry) => entry.records,
            None => Vec::new(),
        }
    }

    /// Set the status of a transaction, and keep its records.
    fn mark(&mut self, id: TxnId, status: Status)
        requires
            old(self).wf(),
            !covered(old(self)@.frontier, id),
            status != Status::Committed && status != Status::RolledBack,
            old(self)@.exclusion != Exclusion::Capture(id),
        ensures
            final(self).wf(),
            final(self)@ == old(self)@.with(id, status, old(self)@.records(id)),
    {
        let ghost before = self@;
        let records = self.set(id, status, Vec::new());
        self.set(id, status, records);
        assert(self@.txns =~= before.txns.insert(id, EntryView { status, records: records@ }));
    }

    /// Check that this queue has never been used.
    pub fn validate_fresh(&self) -> (res: Result<(), ChainError>)
        requires
            self.wf(),
        ensures
            match res {
                Ok(()) => self@.txns == Map::<TxnId, EntryView<T>>::empty() && self@.frontier is None,
                Err(e) => {
                    &&& e == ChainError::QueueNotFresh
                    &&& self@.frontier is Some || self@.txns != Map::<TxnId, EntryView<T>>::empty()
                },
            },
    {
        if self.frontier.is_some() {
            Err(ChainError::QueueNotFresh)
        } else if !self.entries.is_empty() {
            proof {
                lemma_entry_map_index(self.entries.entries(), 0);
                assert(self@.txns.dom().contains(self.entries.entries()[0].0));
            }
            Err(ChainError::QueueNotFresh)
        } else {
            assert(self@.txns =~= Map::<TxnId, EntryView<T>>::empty());
            Ok(())
        }
    }

    /// Admit a transaction without a request.
    pub fn register(&mut self, id: TxnId) -> (res: Result<(), ChainError>)
        requires
            old(self).wf(),
        ensures
            final(self).wf(),
            match res {
                Ok(()) => {
                    &&& old(self)@.register_refusal(id) is None
                    &&& final(self)@ == old(self)@.registered(id)
                },
                Err(e) => {
                    &&& old(self)@.register_refusal(id) == Some(e)
                    &&& final(self)@ == old(self)@
                },
            },
    {
        if self.interrupted {
            return Err(ChainError::Interrupted);
        }
        if is_covered(self.frontier, &id) {
            return Err(ChainError::Outdated);
        }
        match self.status(&id) {
            Some(Status::Failed) => Err(ChainError::Failed),
            Some(Status::Committed) => Err(ChainError::Committed),
            Some(Status::RolledBack) => Err(ChainError::RolledBack),
            Some(_) => Ok(()),
            None => {
                self.set(id, Status::Active, Vec::new());
                Ok(())
            },
        }
    }

    /// Check that a transaction may observe the resource. This registers nothing.
    pub fn readable(&self, id: &TxnId) -> (res: Result<(), ChainError>)
        requires
            self.wf(),
        ensures
            match res {
                Ok(()) => self@.read_refusal(*id) is None,
                Err(e) => self@.read_refusal(*id) == Some(e),
            },
    {
        if self.interrupted {
            return Err(ChainError::Interrupted);
        }
        if is_covered(self.frontier, id) {
            return Err(ChainError::Outdated);
        }
        match self.status(id) {
            Some(Status::Failed) => Err(ChainError::Failed),
            Some(Status::RolledBack) => Err(ChainError::RolledBack),
            _ => Ok(()),
        }
    }

    /// Admit a request of a transaction, and reserve its place before it is captured.
    pub fn start(&mut self, id: TxnId) -> (res: Result<(), ChainError>)
        requires
            old(self).wf(),
        ensures
            final(self).wf(),
            match res {
                Ok(()) => {
                    &&& old(self)@.start_refusal(id) is None
                    &&& final(self)@ == old(self)@.with(
                        id,
                        Status::Running,
                        old(self)@.records(id),
                    ).exclusive(Exclusion::Capture(id))
                },
                Err(e) => {
                    &&& old(self)@.start_refusal(id) == Some(e)
                    &&& final(self)@ == old(self)@
                },
            },
    {
        if self.interrupted {
            return Err(ChainError::Interrupted);
        }
        if self.exclusion != Exclusion::Free {
            return Err(ChainError::Busy);
        }
        if is_covered(self.frontier, &id) {
            return Err(ChainError::Outdated);
        }
        match self.status(&id) {
            Some(Status::Running) => { return Err(ChainError::Unfinished); },
            Some(Status::Failed) => { return Err(ChainError::Failed); },
            Some(Status::Committed) => { return Err(ChainError::Committed); },
            Some(Status::RolledBack) => { return Err(ChainError::RolledBack); },
            _ => {},
        }
        if self.count(&id) >= self.capacity {
            return Err(ChainError::CapacityExhausted);
        }
        self.mark(id, Status::Running);
        self.exclusion = Exclusion::Capture(id);
        Ok(())
    }

    /// Record the request which a transaction is capturing. Other requests may then be prepared.
    pub fn record(&mut self, id: TxnId, record: T) -> (res: Result<(), ChainError>)
        requires
            old(self).wf(),
        ensures
            final(self).wf(),
            match res {
                Ok(()) => {
                    &&& old(self)@.exclusion == Exclusion::Capture(id)
                    &&& final(self)@ == old(self)@.with(
                        id,
                        Status::Running,
                        old(self)@.records(id).push(record),
                    ).exclusive(Exclusion::Free)
                },
                Err(e) => {
                    &&& old(self)@.exclusion != Exclusion::Capture(id)
                    &&& e == ChainError::UnexpectedReply
                    &&& final(self)@ == old(self)@
                },
            },
    {
        if self.exclusion != Exclusion::Capture(id) {
            return Err(ChainError::UnexpectedReply);
        }
        let ghost before = self@;
        self.exclusion = Exclusion::Free;
        let mut records = self.set(id, Status::Running, Vec::new());
        records.push(record);
        self.set(id, Status::Running, records);
        assert(self@.txns =~= before.txns.insert(
            id,
            EntryView { status: Status::Running, records: records@ },
        ));
        Ok(())
    }

    /// Complete the recorded request of a transaction.
    pub fn complete(&mut self, id: TxnId) -> (res: Result<(), ChainError>)
        requires
            old(self).wf(),
        ensures
            final(self).wf(),
            match res {
                Ok(()) => {
                    &&& !old(self)@.interrupted
                    &&& old(self)@.is(id, Status::Running)
                    &&& old(self)@.exclusion != Exclusion::Capture(id)
                    &&& final(self)@ == old(self)@.with(
                        id,
                        Status::Active,
                        old(self)@.records(id),
                    )
                },
                Err(e) => {
                    &&& final(self)@ == old(self)@
                    &&& if old(self)@.interrupted {
                        e == ChainError::Interrupted
                    } else {
                        e == ChainError::UnexpectedReply && (!old(self)@.is(id, Status::Running)
                            || old(self)@.exclusion == Exclusion::Capture(id))
                    }
                },
            },
    {
        if self.interrupted {
            return Err(ChainError::Interrupted);
        }
        if self.exclusion == Exclusion::Capture(id) {
            return Err(ChainError::UnexpectedReply);
        }
        match self.status(&id) {
            Some(Status::Running) => {
                self.mark(id, Status::Active);
                Ok(())
            },
            _ => Err(ChainError::UnexpectedReply),
        }
    }

    /// Give up the unfinished request of a transaction, which thereby fails.
    pub fn abandon(&mut self, id: TxnId)
        requires
            old(self).wf(),
        ensures
            final(self).wf(),
            final(self)@ == old(self)@.failed(id),
    {
        match self.status(&id) {
            Some(Status::Running) => {
                if self.exclusion == Exclusion::Capture(id) {
                    self.exclusion = Exclusion::Free;
                }
                self.mark(id, Status::Failed);
            },
            _ => {},
        }
    }

    /// Begin a lifecycle operation.
    pub fn operation(&mut self) -> (res: Result<(), ChainError>)
        requires
            old(self).wf(),
        ensures
            final(self).wf(),
            match res {
                Ok(()) => {
                    &&& old(self)@.operation_refusal() is None
                    &&& final(self)@ == old(self)@.exclusive(
                        Exclusion::Lifecycle { armed: false },
                    )
                },
                Err(e) => {
                    &&& old(self)@.operation_refusal() == Some(e)
                    &&& final(self)@ == old(self)@
                },
            },
    {
        if self.interrupted {
            return Err(ChainError::Interrupted);
        }
        if self.exclusion != Exclusion::Free {
            return Err(ChainError::Busy);
        }
        self.exclusion = Exclusion::Lifecycle { armed: false };
        Ok(())
    }

    /// Arm the lifecycle operation: from now on, abandoning it interrupts the queue.
    pub fn arm(&mut self)
        requires
            old(self).wf(),
        ensures
            final(self).wf(),
            final(self)@ == if old(self)@.exclusion is Lifecycle {
                old(self)@.exclusive(Exclusion::Lifecycle { armed: true })
            } else {
                old(self)@
            },
    {
        match self.exclusion {
            Exclusion::Lifecycle { .. } => {
                self.exclusion = Exclusion::Lifecycle { armed: true };
            },
            _ => {},
        }
    }

    /// Commit a transaction within a lifecycle operation.
    ///
    /// Returns its records, in the order of their admission, or `None` if it is already committed.
    /// An unseen transaction has no records. A commit arms the operation.
    pub fn commit(&mut self, id: &TxnId) -> (res: Result<Option<Vec<T>>, ChainError>)
        requires
            old(self).wf(),
        ensures
            final(self).wf(),
            match res {
                Ok(records) => {
                    &&& old(self)@.commit_refusal(*id) is None
                    &&& final(self)@ == old(self)@.committed(*id)
                    &&& match records {
                        Some(records) => {
                            &&& !old(self)@.is(*id, Status::Committed)
                            &&& records@ == old(self)@.records(*id)
                        },
                        None => old(self)@.is(*id, Status::Committed),
                    }
                },
                Err(e) => {
                    &&& old(self)@.commit_refusal(*id) == Some(e)
                    &&& final(self)@ == old(self)@
                },
            },
    {
        match self.exclusion {
            Exclusion::Lifecycle { .. } => {},
            _ => { return Err(ChainError::UnexpectedReply); },
        }
        if is_covered(self.frontier, id) {
            return Err(ChainError::Outdated);
        }
        match self.status(id) {
            Some(Status::Running) => Err(ChainError::Unfinished),
            Some(Status::Failed) => Err(ChainError::Failed),
            Some(Status::RolledBack) => Err(ChainError::RolledBack),
            Some(Status::Committed) => Ok(None),
            _ => {
                let records = self.set(*id, Status::Committed, Vec::new());
                self.exclusion = Exclusion::Lifecycle { armed: true };
                assert(self@ =~= old(self)@.committed(*id));
                Ok(Some(records))
            },
        }
    }

    /// Whether a transaction is still to be rolled back within a lifecycle operation.
    pub fn check_rollback(&self, id: &TxnId) -> (res: Result<bool, ChainError>)
        requires
            self.wf(),
        ensures
            match res {
                Ok(pending) => {
                    &&& self@.rollback_refusal(*id) is None
                    &&& pending == !self@.is(*id, Status::RolledBack)
                },
                Err(e) => self@.rollback_refusal(*id) == Some(e),
            },
    {
        match self.exclusion {
            Exclusion::Lifecycle { .. } => {},
            _ => { return Err(ChainError::UnexpectedReply); },
        }
        if is_covered(self.frontier, id) {
            return Err(ChainError::Outdated);
        }
        match self.status(id) {
            Some(Status::Running) => Err(ChainError::Unfinished),
            Some(Status::Committed) => Err(ChainError::Committed),
            Some(Status::RolledBack) => Ok(false),
            _ => Ok(true),
        }
    }

    /// Roll back a transaction within a lifecycle operation, and discard its records.
    pub fn rollback(&mut self, id: &TxnId) -> (res: Result<(), ChainError>)
        requires
            old(self).wf(),
        ensures
            final(self).wf(),
            match res {
                Ok(()) => {
                    &&& old(self)@.rollback_refusal(*id) is None
                    &&& final(self)@ == old(self)@.with(*id, Status::RolledBack, Seq::empty())
                },
                Err(e) => {
                    &&& old(self)@.rollback_refusal(*id) == Some(e)
                    &&& final(self)@ == old(self)@
                },
            },
    {
        match self.check_rollback(id) {
            Ok(_) => {
                self.set(*id, Status::RolledBack, Vec::new());
                Ok(())
            },
            Err(e) => Err(e),
        }
    }

    /// Check that no request at or before a cutoff is unfinished.
    pub fn check_finalize(&self, cutoff: &TxnId) -> (res: Result<(), ChainError>)
        requires
            self.wf(),
        ensures
            match res {
                Ok(()) => self@.finalize_refusal(*cutoff) is None,
                Err(e) => self@.finalize_refusal(*cutoff) == Some(e),
            },
    {
        match self.exclusion {
            Exclusion::Lifecycle { .. } => {},
            _ => { return Err(ChainError::UnexpectedReply); },
        }
        let ghost entries = self.entries.entries();
        let mut i: usize = 0;
        while i < self.entries.len()
            invariant
                i <= entries.len(),
                self.wf(),
                entries == self.entries.entries(),
                self@.exclusion is Lifecycle,
                forall|k: int|
                    #![trigger entries[k]]
                    0 <= k < i ==> !(entries[k].1.status == Status::Running && covered(
                        Some(*cutoff),
                        entries[k].0,
                    )),
            decreases entries.len() - i,
        {
            let (id, entry) = self.entries.at(i);
            if entry.status == Status::Running && is_covered(Some(*cutoff), &id) {
                proof {
                    lemma_entry_map_index(entries, i as int);
                    assert(self@.is(id, Status::Running));
                }
                return Err(ChainError::Unfinished);
            }
            i += 1;
        }
        assert(!self@.unfinished_through(*cutoff)) by {
            assert forall|id: TxnId| #[trigger]
                self@.is(id, Status::Running) implies !covered(Some(*cutoff), id) by {
                let k = choose|k: int| 0 <= k < entries.len() && (#[trigger] entries[k]).0 == id;
                assert(has_entry(entries, id));
                lemma_entry_map_index(entries, k);
            }
        }
        Ok(())
    }

    /// Finalize a cutoff within a lifecycle operation: forget the transactions up to it.
    pub fn finalize(&mut self, cutoff: TxnId) -> (res: Result<(), ChainError>)
        requires
            old(self).wf(),
        ensures
            final(self).wf(),
            match res {
                Ok(()) => {
                    &&& old(self)@.finalize_refusal(cutoff) is None
                    &&& final(self)@ == old(self)@.finalized(cutoff)
                },
                Err(e) => {
                    &&& old(self)@.finalize_refusal(cutoff) == Some(e)
                    &&& final(self)@ == old(self)@
                },
            },
    {
        match self.check_finalize(&cutoff) {
            Ok(()) => {},
            Err(e) => { return Err(e); },
        }
        self.entries.retain_after(&cutoff);
        if !is_covered(self.frontier, &cutoff) {
            self.frontier = Some(cutoff);
        }
        assert(self@.txns =~= old(self)@.finalized(cutoff).txns);
        Ok(())
    }

    /// End the lifecycle operation, which succeeded.
    pub fn finish(&mut self)
        requires
            old(self).wf(),
        ensures
            final(self).wf(),
            final(self)@ == if old(self)@.exclusion is Lifecycle {
                old(self)@.exclusive(Exclusion::Free)
            } else {
                old(self)@
            },
    {
        match self.exclusion {
            Exclusion::Lifecycle { .. } => {
                self.exclusion = Exclusion::Free;
            },
            _ => {},
        }
    }

    /// Give up the lifecycle operation. If it was armed, the queue is interrupted.
    pub fn release(&mut self)
        requires
            old(self).wf(),
        ensures
            final(self).wf(),
            final(self)@ == old(self)@.abandoned(),
    {
        match self.exclusion {
            Exclusion::Lifecycle { armed } => {
                if armed {
                    self.interrupted = true;
                }
                self.exclusion = Exclusion::Free;
            },
            _ => {},
        }
    }
}

} // verus!
