//! The handlers by which a chain stands before its subject.

use vstd::prelude::*;

use crate::capture::{Argument, Task};
use crate::chain::mutation::{mutates, Mutation, Request};
use crate::chain::SyncChain;
use crate::error::ChainError;
use crate::path::SubjectPath;
use crate::scalar::Scalar;
use crate::txn::TxnId;

verus! {

/// Which methods the subject handles at a route.
#[derive(Clone, Copy, Debug, PartialEq, Eq, Structural)]
pub struct Leaf {
    pub get: bool,
    pub post: bool,
    pub put: bool,
    pub delete: bool,
}

/// Stands before the subject's handler of a route. It offers the methods which the subject offers:
/// GET and POST observe, PUT and DELETE are recorded.
pub struct ChainHandler {
    pub path: SubjectPath,
    pub leaf: Leaf,
}

impl ChainHandler {
    /// The handler of a route, if the subject handles the route.
    pub fn route(path: SubjectPath, leaf: Option<Leaf>) -> (res: Option<ChainHandler>)
        ensures
            res == match leaf {
                Some(leaf) => Some(ChainHandler { path, leaf }),
                None => None,
            },
    {
        match leaf {
            Some(leaf) => Some(ChainHandler { path, leaf }),
            None => None,
        }
    }

    /// Whether a transaction may call the subject's GET handler, if there is one.
    pub fn get(&self, chain: &SyncChain, id: &TxnId) -> (res: Option<Result<(), ChainError>>)
        requires
            chain.wf(),
        ensures
            match res {
                None => !self.leaf.get,
                Some(Ok(())) => self.leaf.get && chain@.queue.read_refusal(*id) is None,
                Some(Err(error)) => self.leaf.get && chain@.queue.read_refusal(*id) == Some(error),
            },
    {
        if self.leaf.get {
            Some(chain.readable(id))
        } else {
            None
        }
    }

    /// Whether a transaction may call the subject's POST handler, if there is one.
    pub fn post(&self, chain: &SyncChain, id: &TxnId) -> (res: Option<Result<(), ChainError>>)
        requires
            chain.wf(),
        ensures
            match res {
                None => !self.leaf.post,
                Some(Ok(())) => self.leaf.post && chain@.queue.read_refusal(*id) is None,
                Some(Err(error)) => self.leaf.post && chain@.queue.read_refusal(*id) == Some(error),
            },
    {
        if self.leaf.post {
            Some(chain.readable(id))
        } else {
            None
        }
    }

    /// Begin a PUT request, if the subject has a PUT handler.
    pub fn put(self, chain: &mut SyncChain, id: TxnId, key: Scalar, argument: Argument) -> (res:
        Option<Result<(Mutation, Task), ChainError>>)
        requires
            old(chain).wf(),
        ensures
            final(chain).wf(),
            final(chain)@.procedure == old(chain)@.procedure,
            match res {
                None => !self.leaf.put && final(chain)@.queue == old(chain)@.queue,
                Some(res) => self.leaf.put && mutates(
                    old(chain)@.queue,
                    id,
                    Request::Put(self.path, key, argument),
                    final(chain)@.queue,
                    res,
                ),
            },
    {
        if self.leaf.put {
            Some(chain.mutate(id, Request::Put(self.path, key, argument)))
        } else {
            None
        }
    }

    /// Begin a DELETE request, if the subject has a DELETE handler.
    pub fn delete(self, chain: &mut SyncChain, id: TxnId, key: Scalar) -> (res: Option<
        Result<(Mutation, Task), ChainError>,
    >)
        requires
            old(chain).wf(),
        ensures
            final(chain).wf(),
            final(chain)@.procedure == old(chain)@.procedure,
            match res {
                None => !self.leaf.delete && final(chain)@.queue == old(chain)@.queue,
                Some(res) => self.leaf.delete && mutates(
                    old(chain)@.queue,
                    id,
                    Request::Delete(self.path, key),
                    final(chain)@.queue,
                    res,
                ),
            },
    {
        if self.leaf.delete {
            Some(chain.mutate(id, Request::Delete(self.path, key)))
        } else {
            None
        }
    }
}

} // verus!
