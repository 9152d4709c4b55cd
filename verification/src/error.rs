//! What can go wrong, and how it is reported.

use vstd::prelude::*;

verus! {

/// Why a request, a recovery or a stored value was refused.
#[derive(Debug)]
pub enum ChainError {
    /// The subject does not own persistent storage.
    NotPersistent,
    /// Creation was given storage which is already in use.
    StorageNotEmpty,
    /// The queue delegated to a new chain has been used before.
    QueueNotFresh,
    /// There is no committed block to load.
    MissingBlock,
    /// The committed block follows another block.
    InvalidPredecessor,
    /// A canonical update was begun and not finished.
    RecoveryRequired,
    /// A retained transaction is empty, or lies at or before the finalized cutoff.
    ConflictingTransaction,
    /// The capability supplied for replay has another identity.
    IdentityMismatch,
    /// The committed block already holds the transaction.
    AlreadyPublished,
    /// A scalar reference is not a reference to a stored collection.
    InvalidReference,
    /// A mutation value is neither a scalar nor a collection.
    UnsupportedValue,
    /// The class or schema of a stored collection cannot be read.
    InvalidSchema,
    /// A restored snapshot differs in class or schema from the subject.
    SchemaMismatch,
    /// There is no stored collection of that identity.
    MissingCollection,
    /// A stored collection does not have the identity it is stored under.
    CollectionChecksum,
    /// A mutation record has the wrong number of elements.
    InvalidLength(usize),
    /// A mutation record does not begin with a path or a stored collection.
    InvalidRecord,
    /// A route is not a path.
    InvalidPath,
    /// A block holds one transaction twice.
    DuplicateTransaction,
    /// The predecessor hash of a block is not 32 bytes long.
    PredecessorLength,
    /// A file ends before its checksum does.
    UnexpectedEof,
    /// The contents of a file do not have the checksum it begins with.
    FileChecksum,
    /// The size of a file cannot be represented.
    SizeOverflow,
    /// A lifecycle operation was interrupted; the resource has to be loaded again.
    Interrupted,
    /// Another request is being prepared.
    Busy,
    /// The transaction lies at or before the finalized cutoff.
    Outdated,
    /// The transaction is already committed.
    Committed,
    /// The transaction is already rolled back.
    RolledBack,
    /// A request of the transaction failed or was cancelled.
    Failed,
    /// A request of the transaction is still being executed.
    Unfinished,
    /// The transaction has as many records as the queue admits.
    CapacityExhausted,
    /// A reply does not answer the effect which was asked for.
    UnexpectedReply,
    /// Data could not be decoded.
    Invalid(String),
    /// A delegated storage, subject or host operation reported an error of this category.
    Delegated(ErrorKind, String),
}

/// The category of an error.
#[derive(Clone, Copy, Debug, PartialEq, Eq, Structural)]
pub enum ErrorKind {
    BadGateway,
    BadRequest,
    Conflict,
    Forbidden,
    Internal,
    InvalidData,
    MethodNotAllowed,
    NotFound,
    NotImplemented,
    Timeout,
    Unauthorized,
    Unavailable,
    UnexpectedEof,
}

/// Report data which could not be decoded.
pub fn invalid(error: String) -> (res: ChainError)
    ensures
        res == ChainError::Invalid(error),
{
    ChainError::Invalid(error)
}

impl ChainError {
    /// The category of this error. That of a delegated error is the one which was reported.
    pub open spec fn spec_kind(self) -> ErrorKind {
        match self {
            ChainError::AlreadyPublished
            | ChainError::Busy
            | ChainError::Outdated
            | ChainError::Committed
            | ChainError::RolledBack
            | ChainError::Failed
            | ChainError::Unfinished
            | ChainError::CapacityExhausted => ErrorKind::Conflict,
            ChainError::InvalidLength(_)
            | ChainError::InvalidRecord
            | ChainError::InvalidPath
            | ChainError::DuplicateTransaction
            | ChainError::PredecessorLength
            | ChainError::FileChecksum
            | ChainError::Invalid(_) => ErrorKind::InvalidData,
            ChainError::UnexpectedEof => ErrorKind::UnexpectedEof,
            ChainError::Interrupted | ChainError::RecoveryRequired => ErrorKind::Unavailable,
            ChainError::Delegated(kind, _) => kind,
            _ => ErrorKind::BadRequest,
        }
    }

    /// The category of this error.
    pub fn kind(&self) -> (res: ErrorKind)
        ensures
            res == self.spec_kind(),
    {
        match self {
            ChainError::AlreadyPublished
            | ChainError::Busy
            | ChainError::Outdated
            | ChainError::Committed
            | ChainError::RolledBack
            | ChainError::Failed
            | ChainError::Unfinished
            | ChainError::CapacityExhausted => ErrorKind::Conflict,
            ChainError::InvalidLength(_)
            | ChainError::InvalidRecord
            | ChainError::InvalidPath
            | ChainError::DuplicateTransaction
            | ChainError::PredecessorLength
            | ChainError::FileChecksum
            | ChainError::Invalid(_) => ErrorKind::InvalidData,
            ChainError::UnexpectedEof => ErrorKind::UnexpectedEof,
            ChainError::Interrupted | ChainError::RecoveryRequired => ErrorKind::Unavailable,
            ChainError::Delegated(kind, _) => *kind,
            _ => ErrorKind::BadRequest,
        }
    }

    /// The text by which this error is reported.
    pub open spec fn spec_message(self) -> Seq<char> {
        match self {
            ChainError::NotPersistent => "SyncChain requires a persistent collection owner"@,
            ChainError::StorageNotEmpty => "creation requires empty WAL storage"@,
            ChainError::QueueNotFresh => "the transaction queue has been used before"@,
            ChainError::MissingBlock => "missing committed SyncChain block"@,
            ChainError::InvalidPredecessor => "invalid SyncChain predecessor"@,
            ChainError::RecoveryRequired =>
                "unfinished materialization requires authoritative recovery"@,
            ChainError::ConflictingTransaction => "conflicting or empty WAL transaction"@,
            ChainError::IdentityMismatch => "recovery transaction identity mismatch"@,
            ChainError::AlreadyPublished => "transaction already published"@,
            ChainError::InvalidReference => "invalid stored collection reference"@,
            ChainError::UnsupportedValue => "mutation values must be scalars or collections"@,
            ChainError::InvalidSchema => "invalid collection schema"@,
            ChainError::SchemaMismatch => "snapshot class and schema must match the subject"@,
            ChainError::MissingCollection => "missing stored collection"@,
            ChainError::CollectionChecksum => "stored collection checksum mismatch"@,
            ChainError::InvalidLength(_) | ChainError::InvalidRecord =>
                "expected a DELETE (path, key), a PUT (path, key, value) or a restoration (reference)"@,
            ChainError::InvalidPath => "invalid mutation path"@,
            ChainError::DuplicateTransaction => "duplicate block transaction ID"@,
            ChainError::PredecessorLength => "invalid predecessor hash length"@,
            ChainError::UnexpectedEof => "unexpected end of WAL file"@,
            ChainError::FileChecksum => "WAL file checksum mismatch"@,
            ChainError::SizeOverflow => "WAL file size overflow"@,
            ChainError::Interrupted => "the resource was interrupted and must be loaded again"@,
            ChainError::Busy => "another request is being prepared"@,
            ChainError::Outdated => "the transaction is already finalized"@,
            ChainError::Committed => "the transaction is already committed"@,
            ChainError::RolledBack => "the transaction is already rolled back"@,
            ChainError::Failed => "a request of the transaction failed"@,
            ChainError::Unfinished => "a request of the transaction is unfinished"@,
            ChainError::CapacityExhausted => "transaction queue capacity exhausted"@,
            ChainError::UnexpectedReply => "unexpected reply"@,
            ChainError::Invalid(message) | ChainError::Delegated(_, message) => message@,
        }
    }

    /// The text by which this error is reported.
    pub fn message(&self) -> (res: String)
        ensures
            res@ == self.spec_message(),
    {
        match self {
            ChainError::NotPersistent =>
                "SyncChain requires a persistent collection owner".to_owned(),
            ChainError::StorageNotEmpty => "creation requires empty WAL storage".to_owned(),
            ChainError::QueueNotFresh => "the transaction queue has been used before".to_owned(),
            ChainError::MissingBlock => "missing committed SyncChain block".to_owned(),
            ChainError::InvalidPredecessor => "invalid SyncChain predecessor".to_owned(),
            ChainError::RecoveryRequired =>
                "unfinished materialization requires authoritative recovery".to_owned(),
            ChainError::ConflictingTransaction => "conflicting or empty WAL transaction".to_owned(),
            ChainError::IdentityMismatch => "recovery transaction identity mismatch".to_owned(),
            ChainError::AlreadyPublished => "transaction already published".to_owned(),
            ChainError::InvalidReference => "invalid stored collection reference".to_owned(),
            ChainError::UnsupportedValue =>
                "mutation values must be scalars or collections".to_owned(),
            ChainError::InvalidSchema => "invalid collection schema".to_owned(),
            ChainError::SchemaMismatch =>
                "snapshot class and schema must match the subject".to_owned(),
            ChainError::MissingCollection => "missing stored collection".to_owned(),
            ChainError::CollectionChecksum => "stored collection checksum mismatch".to_owned(),
            ChainError::InvalidLength(_) | ChainError::InvalidRecord =>
                "expected a DELETE (path, key), a PUT (path, key, value) or a restoration (reference)".to_owned(),
            ChainError::InvalidPath => "invalid mutation path".to_owned(),
            ChainError::DuplicateTransaction => "duplicate block transaction ID".to_owned(),
            ChainError::PredecessorLength => "invalid predecessor hash length".to_owned(),
            ChainError::UnexpectedEof => "unexpected end of WAL file".to_owned(),
            ChainError::FileChecksum => "WAL file checksum mismatch".to_owned(),
            ChainError::SizeOverflow => "WAL file size overflow".to_owned(),
            ChainError::Interrupted =>
                "the resource was interrupted and must be loaded again".to_owned(),
            ChainError::Busy => "another request is being prepared".to_owned(),
            ChainError::Outdated => "the transaction is already finalized".to_owned(),
            ChainError::Committed => "the transaction is already committed".to_owned(),
            ChainError::RolledBack => "the transaction is already rolled back".to_owned(),
            ChainError::Failed => "a request of the transaction failed".to_owned(),
            ChainError::Unfinished => "a request of the transaction is unfinished".to_owned(),
            ChainError::CapacityExhausted => "transaction queue capacity exhausted".to_owned(),
            ChainError::UnexpectedReply => "unexpected reply".to_owned(),
            ChainError::Invalid(message) | ChainError::Delegated(_, message) => message.clone(),
        }
    }
}

} // verus!
