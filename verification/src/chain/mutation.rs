//! Requests which change the subject.

use vstd::prelude::*;

use crate::capture::{
    capture_begins, capture_continues, Argument, Capture, Captured, Outcome, Task,
};
use crate::chain::SyncChain;
use crate::error::ChainError;
use crate::path::SubjectPath;
use crate::queue::{Exclusion, QueueView, Status};
use crate::record::MutationRecord;
use crate::scalar::Scalar;
use crate::store::Store;
use crate::txn::TxnId;

verus! {

/// A request which changes the subject.
pub enum Request {
    /// Set a value: the route, the key and the value.
    Put(SubjectPath, Scalar, Argument),
    /// Delete a value: the route and the key.
    Delete(SubjectPath, Scalar),
    /// Replace the subject's contents by those of a native collection.
    Restore,
}

/// The record which a value is captured for.
pub enum Target {
    /// Set a value: the route and the key.
    Put(SubjectPath, Scalar),
    /// Replace the subject's contents.
    Restore,
}

/// How far a request has come.
pub enum Stage {
    /// Its value is captured.
    Capturing(Target, Capture),
    /// It is recorded, and its handler is invoked.
    Invoking,
}

impl Target {
    /// The record, once the value is captured.
    pub open spec fn spec_record(self, value: Scalar) -> MutationRecord {
        match self {
            Target::Put(path, key) => MutationRecord::Put(path, key, value),
            Target::Restore => MutationRecord::Restore(value),
        }
    }

    /// The record, once the value is captured.
    fn record(self, value: Scalar) -> (res: MutationRecord)
        ensures
            res == self.spec_record(value),
    {
        match self {
            Target::Put(path, key) => MutationRecord::Put(path, key, value),
            Target::Restore => MutationRecord::Restore(value),
        }
    }
}

/// An admitted request of a transaction, which has not been completed.
pub struct Mutation {
    id: TxnId,
    stage: Stage,
}

/// The contents of a [`Mutation`].
pub struct MutationView {
    pub id: TxnId,
    pub stage: Stage,
}

impl View for Mutation {
    type V = MutationView;

    closed spec fn view(&self) -> MutationView {
        MutationView { id: self.id, stage: self.stage }
    }
}

/// A queue which has admitted a request of a transaction.
pub open spec fn admitted(queue: QueueView<MutationRecord>, id: TxnId) -> QueueView<
    MutationRecord,
> {
    queue.with(id, Status::Running, queue.records(id)).exclusive(Exclusion::Capture(id))
}

/// A queue which has recorded a request of a transaction.
pub open spec fn recorded(
    queue: QueueView<MutationRecord>,
    id: TxnId,
    record: MutationRecord,
) -> QueueView<MutationRecord> {
    queue.with(id, Status::Running, queue.records(id).push(record)).exclusive(Exclusion::Free)
}

/// A request fails, and leaves its transaction failed.
pub open spec fn gives_up(
    queue: QueueView<MutationRecord>,
    id: TxnId,
    error: ChainError,
    after: QueueView<MutationRecord>,
    res: Result<(Mutation, Task), ChainError>,
) -> bool {
    &&& res == Err::<(Mutation, Task), _>(error)
    &&& after == queue.failed(id)
}

/// A request is recorded, and then its handler is invoked.
pub open spec fn invokes(
    queue: QueueView<MutationRecord>,
    id: TxnId,
    record: MutationRecord,
    after: QueueView<MutationRecord>,
    res: Result<(Mutation, Task), ChainError>,
) -> bool {
    if queue.exclusion == Exclusion::Capture(id) {
        &&& after == recorded(queue, id, record)
        &&& res matches Ok((mutation, Task::Invoke))
        &&& mutation@ == (MutationView { id, stage: Stage::Invoking })
    } else {
        gives_up(queue, id, ChainError::UnexpectedReply, after, res)
    }
}

/// What becomes of a request, given what is known of its captured value.
pub open spec fn settles(
    queue: QueueView<MutationRecord>,
    id: TxnId,
    target: Target,
    captured: Result<Captured, ChainError>,
    after: QueueView<MutationRecord>,
    res: Result<(Mutation, Task), ChainError>,
) -> bool {
    match captured {
        Ok(Captured::Value(value)) => invokes(queue, id, target.spec_record(value), after, res),
        Ok(Captured::Pending(capture, task)) => {
            &&& after == queue
            &&& res matches Ok((mutation, next))
            &&& mutation@ == (MutationView { id, stage: Stage::Capturing(target, capture) })
            &&& next == task
        },
        Err(error) => gives_up(queue, id, error, after, res),
    }
}

/// What becomes of a request which is made: it is refused, or it is admitted, and its value is
/// captured.
pub open spec fn mutates(
    queue: QueueView<MutationRecord>,
    id: TxnId,
    request: Request,
    after: QueueView<MutationRecord>,
    res: Result<(Mutation, Task), ChainError>,
) -> bool {
    match queue.start_refusal(id) {
        Some(error) => {
            &&& res == Err::<(Mutation, Task), _>(error)
            &&& after == queue
        },
        None => match request {
            Request::Put(path, key, argument) => settles(
                admitted(queue, id),
                id,
                Target::Put(path, key),
                capture_begins(argument),
                after,
                res,
            ),
            Request::Delete(path, key) => invokes(
                admitted(queue, id),
                id,
                MutationRecord::Delete(path, key),
                after,
                res,
            ),
            Request::Restore => settles(
                admitted(queue, id),
                id,
                Target::Restore,
                capture_begins(Argument::Collection),
                after,
                res,
            ),
        },
    }
}

/// What becomes of a restoration which is requested: the class and the schema of the snapshot have
/// to be those of the subject.
pub open spec fn restores(
    queue: QueueView<MutationRecord>,
    id: TxnId,
    subject: (Seq<char>, Seq<char>),
    snapshot: (Seq<char>, Seq<char>),
    after: QueueView<MutationRecord>,
    res: Result<(Mutation, Task), ChainError>,
) -> bool {
    if subject.0 != snapshot.0 || subject.1 != snapshot.1 {
        &&& res == Err::<(Mutation, Task), _>(ChainError::SchemaMismatch)
        &&& after == queue
    } else {
        mutates(queue, id, Request::Restore, after, res)
    }
}

/// A request which goes on or fails, but is not completed.
pub open spec fn incomplete(res: Result<(Mutation, Task), ChainError>) -> Result<
    Option<(Mutation, Task)>,
    ChainError,
> {
    match res {
        Ok(next) => Ok(Some(next)),
        Err(error) => Err(error),
    }
}

/// What becomes of a request whose value is captured when its task has an outcome.
pub open spec fn proceeds_to_capture(
    queue: QueueView<MutationRecord>,
    id: TxnId,
    target: Target,
    capture: Capture,
    outcome: Outcome,
    after: QueueView<MutationRecord>,
    res: Result<(Mutation, Task), ChainError>,
) -> bool {
    exists|captured: Result<Captured, ChainError>| #[trigger]
        capture_continues(capture, outcome, captured) && settles(
            queue,
            id,
            target,
            captured,
            after,
            res,
        )
}

/// What becomes of a request when its task has an outcome.
pub open spec fn proceeds(
    queue: QueueView<MutationRecord>,
    mutation: MutationView,
    outcome: Outcome,
    after: QueueView<MutationRecord>,
    res: Result<Option<(Mutation, Task)>, ChainError>,
) -> bool {
    let id = mutation.id;
    match mutation.stage {
        Stage::Capturing(target, capture) => exists|next: Result<(Mutation, Task), ChainError>| {
            &&& #[trigger] incomplete(next) == res
            &&& proceeds_to_capture(queue, id, target, capture, outcome, after, next)
        },
        Stage::Invoking => match outcome {
            Outcome::Done => if queue.interrupted {
                &&& res == Err::<Option<(Mutation, Task)>, _>(ChainError::Interrupted)
                &&& after == queue.failed(id)
            } else if queue.is(id, Status::Running) && queue.exclusion != Exclusion::Capture(id) {
                &&& res == Ok::<Option<(Mutation, Task)>, ChainError>(None)
                &&& after == queue.with(id, Status::Active, queue.records(id))
            } else {
                &&& res == Err::<Option<(Mutation, Task)>, _>(ChainError::UnexpectedReply)
                &&& after == queue.failed(id)
            },
            Outcome::Failed(error) => {
                &&& res == Err::<Option<(Mutation, Task)>, _>(error)
                &&& after == queue.failed(id)
            },
            _ => {
                &&& res == Err::<Option<(Mutation, Task)>, _>(ChainError::UnexpectedReply)
                &&& after == queue.failed(id)
            },
        },
    }
}

impl SyncChain {
    /// Record a request, and then invoke its handler.
    fn invoke(&mut self, id: TxnId, record: MutationRecord) -> (res: Result<
        (Mutation, Task),
        ChainError,
    >)
        requires
            old(self).wf(),
        ensures
            final(self).wf(),
            final(self)@.procedure == old(self)@.procedure,
            invokes(old(self)@.queue, id, record, final(self)@.queue, res),
    {
        match self.queue.record(id, record) {
            Ok(()) => Ok((Mutation { id, stage: Stage::Invoking }, Task::Invoke)),
            Err(error) => {
                self.queue.abandon(id);
                Err(error)
            },
        }
    }

    /// Go on with a request, given what is known of its captured value.
    fn settle(&mut self, id: TxnId, target: Target, captured: Result<Captured, ChainError>) -> (res:
        Result<(Mutation, Task), ChainError>)
        requires
            old(self).wf(),
        ensures
            final(self).wf(),
            final(self)@.procedure == old(self)@.procedure,
            settles(old(self)@.queue, id, target, captured, final(self)@.queue, res),
    {
        match captured {
            Ok(Captured::Value(value)) => self.invoke(id, target.record(value)),
            Ok(Captured::Pending(capture, task)) => Ok(
                (Mutation { id, stage: Stage::Capturing(target, capture) }, task),
            ),
            Err(error) => {
                self.queue.abandon(id);
                Err(error)
            },
        }
    }

    /// Admit a request of a transaction, and begin to capture its value.
    ///
    /// Returns the first task. The request is recorded before its handler is invoked. A request
    /// which fails after it was admitted leaves its transaction failed.
    pub fn mutate(&mut self, id: TxnId, request: Request) -> (res: Result<
        (Mutation, Task),
        ChainError,
    >)
        requires
            old(self).wf(),
        ensures
            final(self).wf(),
            final(self)@.procedure == old(self)@.procedure,
            mutates(old(self)@.queue, id, request, final(self)@.queue, res),
    {
        match self.queue.start(id) {
            Ok(()) => {},
            Err(error) => { return Err(error); },
        }
        match request {
            Request::Put(path, key, argument) => self.settle(
                id,
                Target::Put(path, key),
                Store::capture(argument),
            ),
            Request::Delete(path, key) => self.invoke(id, MutationRecord::Delete(path, key)),
            Request::Restore => self.settle(
                id,
                Target::Restore,
                Store::capture(Argument::Collection),
            ),
        }
    }

    /// Admit the replacement of the subject's contents by those of a snapshot. The class and the
    /// schema of the snapshot have to be the subject's.
    pub fn restore_from(
        &mut self,
        id: TxnId,
        subject: (&SubjectPath, &String),
        snapshot: (&SubjectPath, &String),
    ) -> (res: Result<(Mutation, Task), ChainError>)
        requires
            old(self).wf(),
        ensures
            final(self).wf(),
            final(self)@.procedure == old(self)@.procedure,
            restores(
                old(self)@.queue,
                id,
                (subject.0@, subject.1@),
                (snapshot.0@, snapshot.1@),
                final(self)@.queue,
                res,
            ),
    {
        if !subject.0.same(snapshot.0) || *subject.1 != *snapshot.1 {
            return Err(ChainError::SchemaMismatch);
        }
        self.mutate(id, Request::Restore)
    }

    /// Hand over the outcome of the task of a request, to the chain which admitted it.
    ///
    /// Returns the next task, or `None` once the request is completed. If the request fails, its
    /// transaction can only be discarded.
    pub fn proceed(&mut self, mutation: Mutation, outcome: Outcome) -> (res: Result<
        Option<(Mutation, Task)>,
        ChainError,
    >)
        requires
            old(self).wf(),
        ensures
            final(self).wf(),
            final(self)@.procedure == old(self)@.procedure,
            proceeds(old(self)@.queue, mutation@, outcome, final(self)@.queue, res),
    {
        let id = mutation.id;
        match mutation.stage {
            Stage::Capturing(target, capture) => {
                let captured = capture.advance(outcome);
                let next = self.settle(id, target, captured);
                let res = match next {
                    Ok(next) => Ok(Some(next)),
                    Err(error) => Err(error),
                };
                assert(incomplete(next) == res);
                res
            },
            Stage::Invoking => {
                let error = match outcome {
                    Outcome::Done => match self.queue.complete(id) {
                        Ok(()) => { return Ok(None); },
                        Err(error) => error,
                    },
                    Outcome::Failed(error) => error,
                    _ => ChainError::UnexpectedReply,
                };
                self.queue.abandon(id);
                Err(error)
            },
        }
    }

    /// Cancel a request, which leaves its transaction failed.
    pub fn abandon(&mut self, mutation: Mutation)
        requires
            old(self).wf(),
        ensures
            final(self).wf(),
            final(self)@.procedure == old(self)@.procedure,
            final(self)@.queue == old(self)@.queue.failed(mutation@.id),
    {
        self.queue.abandon(mutation.id);
    }
}

} // verus!
