//! What a chain asks of its surroundings, and what it is told in return.

use vstd::prelude::*;

use crate::error::ChainError;
use crate::file::{ChainFile, FileView};
use crate::record::MutationRecord;
use crate::scalar::CollectionRef;
use crate::store::Resolution;
use crate::txn::TxnId;

verus! {

/// One step of a lifecycle operation, to be performed by the owner of the storage and the subject.
pub enum Effect {
    /// Read the committed file.
    ReadCommitted,
    /// Create the committed file durably.
    CreateCommitted(ChainFile),
    /// Replace the committed file atomically and durably.
    Publish(ChainFile),
    /// Synchronize a captured collection.
    SyncCapture(String),
    /// Load the subject strictly.
    LoadSubject,
    /// Synchronize the subject's canonical storage.
    SyncSubject,
    /// Initialize the subject's finalized cutoff.
    InitializeCutoff(TxnId),
    /// Commit a transaction of the subject, in memory.
    CommitSubject(TxnId),
    /// Roll back a transaction of the subject.
    RollbackSubject(TxnId),
    /// Finalize the subject up to a cutoff.
    FinalizeSubject(TxnId),
    /// Load a stored collection strictly, and take its hash within a transaction.
    Resolve(TxnId, CollectionRef),
    /// Obtain the capability of a transaction.
    RequestTransaction(TxnId),
    /// Invoke a recorded request with the capability of its transaction.
    Apply(TxnId, MutationRecord),
    /// List the names of the captured collections.
    ListCaptures,
    /// Delete a captured collection.
    DeleteCapture(String),
    /// Make the deletions durable.
    SyncDeleted,
}

/// An [`Effect`], with its file or its name by value.
pub enum EffectView {
    ReadCommitted,
    CreateCommitted(FileView),
    Publish(FileView),
    SyncCapture(Seq<char>),
    LoadSubject,
    SyncSubject,
    InitializeCutoff(TxnId),
    CommitSubject(TxnId),
    RollbackSubject(TxnId),
    FinalizeSubject(TxnId),
    Resolve(TxnId, CollectionRef),
    RequestTransaction(TxnId),
    Apply(TxnId, MutationRecord),
    ListCaptures,
    DeleteCapture(Seq<char>),
    SyncDeleted,
}

impl View for Effect {
    type V = EffectView;

    open spec fn view(&self) -> EffectView {
        match *self {
            Effect::ReadCommitted => EffectView::ReadCommitted,
            Effect::CreateCommitted(file) => EffectView::CreateCommitted(file@),
            Effect::Publish(file) => EffectView::Publish(file@),
            Effect::SyncCapture(name) => EffectView::SyncCapture(name@),
            Effect::LoadSubject => EffectView::LoadSubject,
            Effect::SyncSubject => EffectView::SyncSubject,
            Effect::InitializeCutoff(cutoff) => EffectView::InitializeCutoff(cutoff),
            Effect::CommitSubject(id) => EffectView::CommitSubject(id),
            Effect::RollbackSubject(id) => EffectView::RollbackSubject(id),
            Effect::FinalizeSubject(cutoff) => EffectView::FinalizeSubject(cutoff),
            Effect::Resolve(id, found) => EffectView::Resolve(id, found),
            Effect::RequestTransaction(id) => EffectView::RequestTransaction(id),
            Effect::Apply(id, record) => EffectView::Apply(id, record),
            Effect::ListCaptures => EffectView::ListCaptures,
            Effect::DeleteCapture(name) => EffectView::DeleteCapture(name@),
            Effect::SyncDeleted => EffectView::SyncDeleted,
        }
    }
}

/// What came of an effect.
pub enum Reply {
    /// It was performed.
    Done,
    /// The committed file.
    Committed(ChainFile),
    /// There is no committed file, or no captured collection of that name.
    Missing,
    /// The subject was loaded. It may or may not be persistent.
    Subject { persistent: bool },
    /// What the value store found.
    Resolved(Resolution),
    /// A capability, for this transaction.
    Transaction(TxnId),
    /// The names of the captured collections.
    Captures(Vec<String>),
    /// It failed.
    Failed(ChainError),
}

impl Effect {
    /// The transactions of a file are in replay order.
    pub open spec fn wf(self) -> bool {
        match self {
            Effect::CreateCommitted(file) => file.wf(),
            Effect::Publish(file) => file.wf(),
            _ => true,
        }
    }
}

impl Reply {
    /// The transactions of a file are in replay order.
    pub open spec fn wf(self) -> bool {
        self matches Reply::Committed(file) ==> file.wf()
    }
}

/// The reply which an effect of a script has to get.
pub enum Expect {
    /// [`Reply::Done`].
    Done,
    /// The synchronization of a captured collection, which has to exist.
    Capture,
    /// A stored collection with this identity.
    Identity(String),
    /// The capability of this transaction.
    Transaction(TxnId),
    /// The commit of this transaction, for which the queue then keeps a receipt.
    Receipt(TxnId),
}

/// An [`Expect`], with its name by value.
pub enum ExpectView {
    Done,
    Capture,
    Identity(Seq<char>),
    Transaction(TxnId),
    Receipt(TxnId),
}

impl View for Expect {
    type V = ExpectView;

    open spec fn view(&self) -> ExpectView {
        match *self {
            Expect::Done => ExpectView::Done,
            Expect::Capture => ExpectView::Capture,
            Expect::Identity(name) => ExpectView::Identity(name@),
            Expect::Transaction(id) => ExpectView::Transaction(id),
            Expect::Receipt(id) => ExpectView::Receipt(id),
        }
    }
}

impl EffectView {
    /// The reply which this effect has to get.
    pub open spec fn expect(self) -> ExpectView {
        match self {
            EffectView::SyncCapture(_) => ExpectView::Capture,
            EffectView::Resolve(_, found) => ExpectView::Identity(found.name@),
            EffectView::RequestTransaction(id) => ExpectView::Transaction(id),
            EffectView::CommitSubject(id) => ExpectView::Receipt(id),
            _ => ExpectView::Done,
        }
    }
}

impl Effect {
    /// The reply which this effect has to get.
    pub(crate) fn expect(&self) -> (res: Expect)
        ensures
            res@ == self@.expect(),
    {
        match self {
            Effect::SyncCapture(_) => Expect::Capture,
            Effect::Resolve(_, found) => Expect::Identity(found.name.clone()),
            Effect::RequestTransaction(id) => Expect::Transaction(*id),
            Effect::CommitSubject(id) => Expect::Receipt(*id),
            _ => Expect::Done,
        }
    }
}

} // verus!
