//! A write-ahead log for transactional collections.

pub mod block;
pub mod capture;
pub mod chain;
pub mod effect;
pub mod error;
pub mod file;
pub mod frame;
pub mod handler;
pub mod laws;
pub mod map;
pub mod path;
pub mod queue;
pub mod record;
pub mod scalar;
pub mod script;
pub mod store;
pub mod txn;

pub use block::ChainBlock;
pub use capture::{Argument, Capture, Captured, Outcome, Task};
pub use chain::{Mutation, Opening, Progress, Request, SyncChain};
pub use effect::{Effect, Reply};
pub use error::{invalid, ChainError, ErrorKind};
pub use file::ChainFile;
pub use handler::{ChainHandler, Leaf};
pub use map::TxnMap;
pub use path::SubjectPath;
pub use queue::{Exclusion, Status, TxnTaskQueue};
pub use record::{element, Element, ElementRef, MutationRecord};
pub use scalar::{check_identity, identity, reference, CollectionRef, Scalar};
pub use store::{Resolution, Resolved, Store};
pub use txn::TxnId;
