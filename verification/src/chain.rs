//! A request log around a persistent collection.

pub mod mutation;

use std::collections::VecDeque;
use vstd::prelude::*;

use crate::effect::{Effect, EffectView, Expect, ExpectView, Reply};
use crate::error::ChainError;
use crate::file::{empty_file, ChainFile, FileView};
use crate::map::has_entry;
use crate::queue::{EntryView, Exclusion, QueueView, Status, TxnTaskQueue};
use crate::record::MutationRecord;
use crate::script::{
    commit_effects, commit_script, effects, finalize_effects, finalize_script, reclaim_effects,
    reclaim_script, replay_effects, replay_script, script_wf, sync_effects, sync_script,
    validate_effects, validate_script,
};
use crate::store::{
    all_records, any_malformed, captures, resolution_refusal, texts, Store,
};
use crate::txn::{covered, is_covered, TxnId};

pub use mutation::{Mutation, Request};

verus! {

/// What is done once the last effect of a script has been performed.
enum Ending {
    /// The operation succeeds.
    Acknowledge,
    /// The operation fails: the transaction is already published.
    AlreadyPublished,
    /// The queue rolls back a transaction, and the operation succeeds.
    RollBack(TxnId),
    /// The queue finalizes a cutoff, and the operation succeeds.
    Finalize(TxnId),
    /// The committed file is replayed; its captures are retained.
    Replay(ChainFile, Vec<String>),
    /// The captures which are not retained are reclaimed.
    Reclaim(Vec<String>),
}

/// How far a lifecycle operation has come.
enum Procedure {
    /// There is none.
    Idle,
    /// A commit awaits the committed file.
    Publishing { id: TxnId, records: Vec<MutationRecord> },
    /// A finalization awaits the committed file.
    Finalizing { cutoff: TxnId },
    /// A recovery awaits the committed file.
    Reading,
    /// A recovery awaits the subject.
    Loading { file: ChainFile, retained: Vec<String> },
    /// An effect of a script awaits its reply.
    Running { expect: Expect, rest: VecDeque<Effect>, ending: Ending },
    /// A recovery awaits the names of the captures.
    Listing { retained: Vec<String> },
}

/// What is done once the last effect of a script has been performed.
pub enum EndingView {
    Acknowledge,
    AlreadyPublished,
    RollBack(TxnId),
    Finalize(TxnId),
    Replay(FileView, Seq<Seq<char>>),
    Reclaim(Seq<Seq<char>>),
}

/// How far a lifecycle operation has come.
pub enum ProcedureView {
    Idle,
    Publishing { id: TxnId, records: Seq<MutationRecord> },
    Finalizing { cutoff: TxnId },
    Reading,
    Loading { file: FileView, retained: Seq<Seq<char>> },
    Running { expect: ExpectView, rest: Seq<EffectView>, ending: EndingView },
    Listing { retained: Seq<Seq<char>> },
}

impl View for Ending {
    type V = EndingView;

    closed spec fn view(&self) -> EndingView {
        match *self {
            Ending::Acknowledge => EndingView::Acknowledge,
            Ending::AlreadyPublished => EndingView::AlreadyPublished,
            Ending::RollBack(id) => EndingView::RollBack(id),
            Ending::Finalize(cutoff) => EndingView::Finalize(cutoff),
            Ending::Replay(file, retained) => EndingView::Replay(file@, texts(retained@)),
            Ending::Reclaim(retained) => EndingView::Reclaim(texts(retained@)),
        }
    }
}

impl Ending {
    spec fn wf(self) -> bool {
        self matches Ending::Replay(file, _) ==> file.wf()
    }
}

impl View for Procedure {
    type V = ProcedureView;

    closed spec fn view(&self) -> ProcedureView {
        match *self {
            Procedure::Idle => ProcedureView::Idle,
            Procedure::Publishing { id, records } => ProcedureView::Publishing {
                id,
                records: records@,
            },
            Procedure::Finalizing { cutoff } => ProcedureView::Finalizing { cutoff },
            Procedure::Reading => ProcedureView::Reading,
            Procedure::Loading { file, retained } => ProcedureView::Loading {
                file: file@,
                retained: texts(retained@),
            },
            Procedure::Running { expect, rest, ending } => ProcedureView::Running {
                expect: expect@,
                rest: effects(rest@),
                ending: ending@,
            },
            Procedure::Listing { retained } => ProcedureView::Listing { retained: texts(retained@) },
        }
    }
}

impl Procedure {
    spec fn wf(self) -> bool {
        match self {
            Procedure::Loading { file, .. } => file.wf(),
            Procedure::Running { rest, ending, .. } => script_wf(rest@) && ending.wf(),
            _ => true,
        }
    }
}

/// A write-ahead log of the requests to a persistent collection.
///
/// The chain decides; what it decides upon is performed elsewhere. A lifecycle operation returns
/// the first effect to be performed, if there is one. Each reply to an effect is handed to
/// [`SyncChain::advance`], which returns the next effect, or none once the operation succeeded.
pub struct SyncChain {
    queue: TxnTaskQueue<MutationRecord>,
    procedure: Procedure,
}

/// The contents of a [`SyncChain`].
pub struct ChainView {
    /// Pending work and decision receipts.
    pub queue: QueueView<MutationRecord>,
    /// The lifecycle operation.
    pub procedure: ProcedureView,
}

/// What becomes of a chain, and what it says: the next effect, success, or an error.
pub type Step = (ChainView, Result<Option<EffectView>, ChainError>);

impl View for SyncChain {
    type V = ChainView;

    closed spec fn view(&self) -> ChainView {
        ChainView { queue: self.queue@, procedure: self.procedure@ }
    }
}

/// The queue of an unarmed lifecycle operation.
pub open spec fn begun(queue: QueueView<MutationRecord>) -> QueueView<MutationRecord> {
    queue.exclusive(Exclusion::Lifecycle { armed: false })
}

/// The queue of an armed lifecycle operation.
pub open spec fn armed(queue: QueueView<MutationRecord>) -> QueueView<MutationRecord> {
    queue.exclusive(Exclusion::Lifecycle { armed: true })
}

/// A lifecycle operation fails.
pub open spec fn fails(queue: QueueView<MutationRecord>, error: ChainError) -> Step {
    (ChainView { queue: queue.abandoned(), procedure: ProcedureView::Idle }, Err(error))
}

/// A lifecycle operation succeeds.
pub open spec fn succeeds(queue: QueueView<MutationRecord>) -> Step {
    (
        ChainView { queue: queue.exclusive(Exclusion::Free), procedure: ProcedureView::Idle },
        Ok(None),
    )
}

/// A lifecycle operation asks for an effect.
pub open spec fn asks(
    queue: QueueView<MutationRecord>,
    procedure: ProcedureView,
    effect: EffectView,
) -> Step {
    (ChainView { queue, procedure }, Ok(Some(effect)))
}

/// The first effect of a script is performed, if there is one; else the captures are listed.
pub open spec fn reclaims(
    queue: QueueView<MutationRecord>,
    rest: Seq<EffectView>,
    retained: Seq<Seq<char>>,
) -> Step {
    if rest.len() > 0 {
        asks(
            queue,
            ProcedureView::Running {
                expect: rest[0].expect(),
                rest: rest.skip(1),
                ending: EndingView::Reclaim(retained),
            },
            rest[0],
        )
    } else {
        asks(queue, ProcedureView::Listing { retained }, EffectView::ListCaptures)
    }
}

/// A recovery whose history is valid: the operation is armed, the queue takes over the finalized
/// cutoff, and the history is replayed.
pub open spec fn replays(
    queue: QueueView<MutationRecord>,
    file: FileView,
    retained: Seq<Seq<char>>,
) -> Step {
    match file.frontier {
        Some(cutoff) => match armed(queue).finalize_refusal(cutoff) {
            Some(error) => fails(armed(queue), error),
            None => reclaims(armed(queue).finalized(cutoff), replay_script(file), retained),
        },
        None => reclaims(armed(queue), replay_script(file), retained),
    }
}

/// The next effect of a script is performed, if there is one; else the script ends.
pub open spec fn runs(
    queue: QueueView<MutationRecord>,
    rest: Seq<EffectView>,
    ending: EndingView,
) -> Step {
    if rest.len() > 0 {
        asks(
            queue,
            ProcedureView::Running { expect: rest[0].expect(), rest: rest.skip(1), ending },
            rest[0],
        )
    } else {
        match ending {
            EndingView::Acknowledge => succeeds(queue),
            EndingView::AlreadyPublished => fails(queue, ChainError::AlreadyPublished),
            EndingView::RollBack(id) => match queue.rollback_refusal(id) {
                Some(error) => fails(queue, error),
                None => succeeds(queue.with(id, Status::RolledBack, Seq::empty())),
            },
            EndingView::Finalize(cutoff) => match queue.finalize_refusal(cutoff) {
                Some(error) => fails(queue, error),
                None => succeeds(queue.finalized(cutoff)),
            },
            EndingView::Replay(file, retained) => replays(queue, file, retained),
            EndingView::Reclaim(retained) => reclaims(queue, rest, retained),
        }
    }
}

/// An effect of a script got its reply.
pub open spec fn resumes(
    queue: QueueView<MutationRecord>,
    expect: ExpectView,
    rest: Seq<EffectView>,
    ending: EndingView,
    reply: Reply,
) -> Step {
    match (expect, reply) {
        (_, Reply::Failed(error)) => fails(queue, error),
        (ExpectView::Done, Reply::Done) => runs(queue, rest, ending),
        (ExpectView::Capture, Reply::Done) => runs(queue, rest, ending),
        (ExpectView::Capture, Reply::Missing) => fails(queue, ChainError::MissingCollection),
        (ExpectView::Identity(name), Reply::Resolved(found)) => match resolution_refusal(
            name,
            found,
        ) {
            Some(error) => fails(queue, error),
            None => runs(queue, rest, ending),
        },
        (ExpectView::Transaction(id), Reply::Transaction(given)) => if given == id {
            runs(queue, rest, ending)
        } else {
            fails(queue, ChainError::IdentityMismatch)
        },
        (ExpectView::Receipt(id), Reply::Done) => match queue.commit_refusal(id) {
            Some(error) => fails(queue, error),
            None => runs(queue.committed(id), rest, ending),
        },
        _ => fails(queue, ChainError::UnexpectedReply),
    }
}

/// A commit got the committed file: the captures are synchronized, the file is replaced by one
/// which also holds the records, and then the subject commits.
pub open spec fn publishes(
    queue: QueueView<MutationRecord>,
    id: TxnId,
    records: Seq<MutationRecord>,
    file: FileView,
) -> Step {
    if any_malformed(records) {
        fails(queue, ChainError::InvalidReference)
    } else if has_entry(file.history(), id) {
        runs(queue, sync_script(captures(records)), EndingView::AlreadyPublished)
    } else {
        runs(queue, commit_script(file, id, records), EndingView::Acknowledge)
    }
}

/// A finalization got the committed file: a cutoff which is already finalized succeeds.
pub open spec fn finalizes(
    queue: QueueView<MutationRecord>,
    cutoff: TxnId,
    file: FileView,
) -> Step {
    if covered(file.frontier, cutoff) {
        succeeds(queue)
    } else {
        runs(armed(queue), finalize_script(file, cutoff), EndingView::Finalize(cutoff))
    }
}

/// A recovery got the committed file: it is validated before the subject is loaded.
pub open spec fn loads(queue: QueueView<MutationRecord>, file: FileView) -> Step {
    match file.refusal() {
        Some(error) => fails(queue, error),
        None => if any_malformed(all_records(file.history())) {
            fails(queue, ChainError::InvalidReference)
        } else {
            asks(
                queue,
                ProcedureView::Loading {
                    file,
                    retained: captures(all_records(file.history())),
                },
                EffectView::LoadSubject,
            )
        },
    }
}

impl ChainView {
    /// The lifecycle operation gets the reply to its effect.
    pub open spec fn advanced(self, reply: Reply) -> Step {
        match (self.procedure, reply) {
            (ProcedureView::Running { expect, rest, ending }, _) => resumes(
                self.queue,
                expect,
                rest,
                ending,
                reply,
            ),
            (_, Reply::Failed(error)) => fails(self.queue, error),
            (ProcedureView::Publishing { id, records }, Reply::Committed(file)) => publishes(
                self.queue,
                id,
                records,
                file@,
            ),
            (ProcedureView::Finalizing { cutoff }, Reply::Committed(file)) => finalizes(
                self.queue,
                cutoff,
                file@,
            ),
            (ProcedureView::Reading, Reply::Committed(file)) => loads(self.queue, file@),
            (ProcedureView::Publishing { .. }, Reply::Missing) => fails(
                self.queue,
                ChainError::MissingBlock,
            ),
            (ProcedureView::Finalizing { .. }, Reply::Missing) => fails(
                self.queue,
                ChainError::MissingBlock,
            ),
            (ProcedureView::Reading, Reply::Missing) => fails(
                self.queue,
                ChainError::MissingBlock,
            ),
            (
                ProcedureView::Loading { file, retained },
                Reply::Subject { persistent },
            ) => if persistent {
                runs(
                    self.queue,
                    validate_script(file.history()),
                    EndingView::Replay(file, retained),
                )
            } else {
                fails(self.queue, ChainError::NotPersistent)
            },
            (ProcedureView::Listing { retained }, Reply::Captures(names)) => runs(
                self.queue,
                reclaim_script(texts(names@), retained),
                EndingView::Acknowledge,
            ),
            _ => fails(self.queue, ChainError::UnexpectedReply),
        }
    }

    /// A transaction is committed.
    pub open spec fn commits(self, id: TxnId) -> Step {
        match self.queue.operation_refusal() {
            Some(error) => (self, Err(error)),
            None => match begun(self.queue).commit_refusal(id) {
                Some(error) => (self, Err(error)),
                None => if self.queue.is(id, Status::Committed) {
                    (self, Ok(None))
                } else if self.queue.records(id).len() == 0 {
                    runs(
                        begun(self.queue).committed(id),
                        seq![EffectView::CommitSubject(id)],
                        EndingView::Acknowledge,
                    )
                } else {
                    asks(
                        begun(self.queue).committed(id),
                        ProcedureView::Publishing { id, records: self.queue.records(id) },
                        EffectView::ReadCommitted,
                    )
                },
            },
        }
    }

    /// A transaction is rolled back.
    pub open spec fn rolls_back(self, id: TxnId) -> Step {
        match self.queue.operation_refusal() {
            Some(error) => (self, Err(error)),
            None => match begun(self.queue).rollback_refusal(id) {
                Some(error) => (self, Err(error)),
                None => if self.queue.is(id, Status::RolledBack) {
                    (self, Ok(None))
                } else {
                    runs(
                        armed(self.queue),
                        seq![EffectView::RollbackSubject(id)],
                        EndingView::RollBack(id),
                    )
                },
            },
        }
    }

    /// A cutoff is finalized.
    pub open spec fn begins_to_finalize(self, cutoff: TxnId) -> Step {
        match self.queue.operation_refusal() {
            Some(error) => (self, Err(error)),
            None => match begun(self.queue).finalize_refusal(cutoff) {
                Some(error) => (self, Err(error)),
                None => asks(
                    begun(self.queue),
                    ProcedureView::Finalizing { cutoff },
                    EffectView::ReadCommitted,
                ),
            },
        }
    }

    /// The lifecycle operation is cancelled.
    pub open spec fn cancelled(self) -> ChainView {
        ChainView { queue: self.queue.abandoned(), procedure: ProcedureView::Idle }
    }
}

/// The invariant of a chain: that of its queue, and that an operation is under way exactly while it
/// excludes others.
pub open spec fn sound(chain: ChainView) -> bool {
    &&& chain.queue.valid()
    &&& chain.queue.exclusion is Lifecycle <==> !(chain.procedure is Idle)
}

/// Why a chain may not be created, if there is a reason.
pub open spec fn create_refusal(
    persistent: bool,
    root_empty: bool,
    values_empty: bool,
    queue: QueueView<MutationRecord>,
) -> Option<ChainError> {
    if !persistent {
        Some(ChainError::NotPersistent)
    } else if !root_empty || !values_empty {
        Some(ChainError::StorageNotEmpty)
    } else if !unused(queue) {
        Some(ChainError::QueueNotFresh)
    } else {
        queue.operation_refusal()
    }
}

/// Why a chain may not be loaded, if there is a reason.
pub open spec fn load_refusal(queue: QueueView<MutationRecord>) -> Option<ChainError> {
    if !unused(queue) {
        Some(ChainError::QueueNotFresh)
    } else {
        queue.operation_refusal()
    }
}

/// Whether a queue has neither transactions nor a finalized cutoff.
pub open spec fn unused(queue: QueueView<MutationRecord>) -> bool {
    queue.frontier is None && queue.txns == Map::<TxnId, EntryView<MutationRecord>>::empty()
}

/// What a chain says, by value.
pub open spec fn said(res: Result<Option<Effect>, ChainError>) -> Result<
    Option<EffectView>,
    ChainError,
> {
    match res {
        Ok(Some(effect)) => Ok(Some(effect@)),
        Ok(None) => Ok(None),
        Err(error) => Err(error),
    }
}

/// The file of an effect is well-formed.
pub open spec fn said_wf(res: Result<Option<Effect>, ChainError>) -> bool {
    res matches Ok(Some(effect)) ==> effect.wf()
}

impl SyncChain {
    /// The invariant: an operation is under way exactly while it excludes others.
    pub closed spec fn wf(self) -> bool {
        &&& self.queue.wf()
        &&& self.procedure.wf()
        &&& self@.queue.exclusion is Lifecycle <==> !(self@.procedure is Idle)
    }

    /// A well-formed chain is sound.
    pub proof fn lemma_valid(self)
        requires
            self.wf(),
        ensures
            sound(self@),
    {
        self.queue.lemma_valid();
    }

    fn fail(&mut self, error: ChainError) -> (res: Result<Option<Effect>, ChainError>)
        requires
            old(self).queue.wf(),
        ensures
            final(self).wf(),
            said_wf(res),
            (final(self)@, said(res)) == fails(old(self)@.queue, error),
    {
        self.queue.release();
        self.procedure = Procedure::Idle;
        Err(error)
    }

    fn succeed(&mut self) -> (res: Result<Option<Effect>, ChainError>)
        requires
            old(self).queue.wf(),
            old(self)@.queue.exclusion is Lifecycle,
        ensures
            final(self).wf(),
            said_wf(res),
            (final(self)@, said(res)) == succeeds(old(self)@.queue),
    {
        self.queue.finish();
        self.procedure = Procedure::Idle;
        Ok(None)
    }

    fn ask(&mut self, procedure: Procedure, effect: Effect) -> (res: Result<
        Option<Effect>,
        ChainError,
    >)
        requires
            old(self).queue.wf(),
            old(self)@.queue.exclusion is Lifecycle,
            procedure.wf(),
            !(procedure is Idle),
            effect.wf(),
        ensures
            final(self).wf(),
            said_wf(res),
            (final(self)@, said(res)) == asks(old(self)@.queue, procedure@, effect@),
    {
        self.procedure = procedure;
        Ok(Some(effect))
    }

    fn reclaim(&mut self, rest: VecDeque<Effect>, retained: Vec<String>) -> (res: Result<
        Option<Effect>,
        ChainError,
    >)
        requires
            old(self).queue.wf(),
            old(self)@.queue.exclusion is Lifecycle,
            script_wf(rest@),
        ensures
            final(self).wf(),
            said_wf(res),
            (final(self)@, said(res)) == reclaims(
                old(self)@.queue,
                effects(rest@),
                texts(retained@),
            ),
    {
        let mut rest = rest;
        let ghost before = rest@;
        match rest.pop_front() {
            Some(effect) => {
                let expect = effect.expect();
                assert(effects(rest@) =~= effects(before).skip(1));
                self.ask(
                    Procedure::Running { expect, rest, ending: Ending::Reclaim(retained) },
                    effect,
                )
            },
            None => self.ask(Procedure::Listing { retained }, Effect::ListCaptures),
        }
    }

    fn replay(&mut self, file: ChainFile, retained: Vec<String>) -> (res: Result<
        Option<Effect>,
        ChainError,
    >)
        requires
            old(self).queue.wf(),
            old(self)@.queue.exclusion is Lifecycle,
        ensures
            final(self).wf(),
            said_wf(res),
            (final(self)@, said(res)) == replays(old(self)@.queue, file@, texts(retained@)),
    {
        self.queue.arm();
        match file.frontier {
            Some(cutoff) => match self.queue.finalize(cutoff) {
                Ok(()) => {},
                Err(error) => { return self.fail(error); },
            },
            None => {},
        }
        let script = replay_effects(&file);
        self.reclaim(script, retained)
    }

    fn run(&mut self, rest: VecDeque<Effect>, ending: Ending) -> (res: Result<
        Option<Effect>,
        ChainError,
    >)
        requires
            old(self).queue.wf(),
            old(self)@.queue.exclusion is Lifecycle,
            script_wf(rest@),
            ending.wf(),
        ensures
            final(self).wf(),
            said_wf(res),
            (final(self)@, said(res)) == runs(old(self)@.queue, effects(rest@), ending@),
    {
        let mut rest = rest;
        let ghost before = rest@;
        match rest.pop_front() {
            Some(effect) => {
                let expect = effect.expect();
                assert(effects(rest@) =~= effects(before).skip(1));
                self.ask(Procedure::Running { expect, rest, ending }, effect)
            },
            None => match ending {
                Ending::Acknowledge => self.succeed(),
                Ending::AlreadyPublished => self.fail(ChainError::AlreadyPublished),
                Ending::RollBack(id) => match self.queue.rollback(&id) {
                    Ok(()) => self.succeed(),
                    Err(error) => self.fail(error),
                },
                Ending::Finalize(cutoff) => match self.queue.finalize(cutoff) {
                    Ok(()) => self.succeed(),
                    Err(error) => self.fail(error),
                },
                Ending::Replay(file, retained) => self.replay(file, retained),
                Ending::Reclaim(retained) => self.reclaim(rest, retained),
            },
        }
    }

    fn resume(
        &mut self,
        expect: Expect,
        rest: VecDeque<Effect>,
        ending: Ending,
        reply: Reply,
    ) -> (res: Result<Option<Effect>, ChainError>)
        requires
            old(self).queue.wf(),
            old(self)@.queue.exclusion is Lifecycle,
            script_wf(rest@),
            ending.wf(),
        ensures
            final(self).wf(),
            said_wf(res),
            (final(self)@, said(res)) == resumes(
                old(self)@.queue,
                expect@,
                effects(rest@),
                ending@,
                reply,
            ),
    {
        match (expect, reply) {
            (_, Reply::Failed(error)) => self.fail(error),
            (Expect::Done, Reply::Done) => self.run(rest, ending),
            (Expect::Capture, Reply::Done) => self.run(rest, ending),
            (Expect::Capture, Reply::Missing) => self.fail(ChainError::MissingCollection),
            (Expect::Identity(name), Reply::Resolved(found)) => match Store::verify(
                &name,
                &found,
            ) {
                Ok(()) => self.run(rest, ending),
                Err(error) => self.fail(error),
            },
            (Expect::Transaction(id), Reply::Transaction(given)) => if given == id {
                self.run(rest, ending)
            } else {
                self.fail(ChainError::IdentityMismatch)
            },
            (Expect::Receipt(id), Reply::Done) => match self.queue.commit(&id) {
                Ok(_) => self.run(rest, ending),
                Err(error) => self.fail(error),
            },
            _ => self.fail(ChainError::UnexpectedReply),
        }
    }
}

impl SyncChain {
    fn publish(&mut self, id: TxnId, records: Vec<MutationRecord>, file: ChainFile) -> (res: Result<
        Option<Effect>,
        ChainError,
    >)
        requires
            old(self).queue.wf(),
            old(self)@.queue.exclusion is Lifecycle,
            file.wf(),
        ensures
            final(self).wf(),
            said_wf(res),
            (final(self)@, said(res)) == publishes(old(self)@.queue, id, records@, file@),
    {
        let names = match Store::sync(&records) {
            Ok(names) => names,
            Err(error) => { return self.fail(error); },
        };
        match file.publish(id, records) {
            Ok(file) => {
                let script = commit_effects(names, file, id);
                self.run(script, Ending::Acknowledge)
            },
            Err(_) => {
                let script = sync_effects(names);
                self.run(script, Ending::AlreadyPublished)
            },
        }
    }

    fn read(&mut self, file: ChainFile) -> (res: Result<Option<Effect>, ChainError>)
        requires
            old(self).queue.wf(),
            old(self)@.queue.exclusion is Lifecycle,
            file.wf(),
        ensures
            final(self).wf(),
            said_wf(res),
            (final(self)@, said(res)) == loads(old(self)@.queue, file@),
    {
        match file.check() {
            Ok(()) => {},
            Err(error) => { return self.fail(error); },
        }
        match Store::published(&file) {
            Ok(retained) => self.ask(Procedure::Loading { file, retained }, Effect::LoadSubject),
            Err(error) => self.fail(error),
        }
    }

    /// Hand over the reply to the effect of the lifecycle operation.
    ///
    /// Returns the next effect, or `None` once the operation succeeded. An operation which fails
    /// is over; if it was armed, the chain is interrupted.
    pub fn advance(&mut self, reply: Reply) -> (res: Result<Option<Effect>, ChainError>)
        requires
            old(self).wf(),
            reply.wf(),
        ensures
            final(self).wf(),
            said_wf(res),
            (final(self)@, said(res)) == old(self)@.advanced(reply),
    {
        let mut procedure = Procedure::Idle;
        std::mem::swap(&mut self.procedure, &mut procedure);
        match (procedure, reply) {
            (Procedure::Running { expect, rest, ending }, reply) => self.resume(
                expect,
                rest,
                ending,
                reply,
            ),
            (_, Reply::Failed(error)) => self.fail(error),
            (Procedure::Publishing { id, records }, Reply::Committed(file)) => self.publish(
                id,
                records,
                file,
            ),
            (Procedure::Finalizing { cutoff }, Reply::Committed(file)) => {
                if is_covered(file.frontier, &cutoff) {
                    return self.succeed();
                }
                self.queue.arm();
                let script = finalize_effects(file, cutoff);
                self.run(script, Ending::Finalize(cutoff))
            },
            (Procedure::Reading, Reply::Committed(file)) => self.read(file),
            (Procedure::Publishing { .. }, Reply::Missing) => self.fail(ChainError::MissingBlock),
            (Procedure::Finalizing { .. }, Reply::Missing) => self.fail(ChainError::MissingBlock),
            (Procedure::Reading, Reply::Missing) => self.fail(ChainError::MissingBlock),
            (Procedure::Loading { file, retained }, Reply::Subject { persistent }) => {
                if !persistent {
                    return self.fail(ChainError::NotPersistent);
                }
                let script = validate_effects(&file);
                self.run(script, Ending::Replay(file, retained))
            },
            (Procedure::Listing { retained }, Reply::Captures(names)) => {
                let unused = Store::orphans(names, &retained);
                let script = reclaim_effects(unused);
                self.run(script, Ending::Acknowledge)
            },
            _ => self.fail(ChainError::UnexpectedReply),
        }
    }

    /// Commit a transaction.
    ///
    /// Its captures are synchronized, its records are published, and then the subject commits.
    /// A transaction without records is committed by the subject alone. A transaction which is
    /// already committed succeeds at once.
    pub fn commit(&mut self, id: TxnId) -> (res: Result<Option<Effect>, ChainError>)
        requires
            old(self).wf(),
        ensures
            final(self).wf(),
            said_wf(res),
            (final(self)@, said(res)) == old(self)@.commits(id),
    {
        match self.queue.operation() {
            Ok(()) => {},
            Err(error) => { return Err(error); },
        }
        match self.queue.commit(&id) {
            Err(error) => {
                self.queue.release();
                assert(self@.queue =~= old(self)@.queue);
                Err(error)
            },
            Ok(None) => {
                self.queue.release();
                assert(self@.queue =~= old(self)@.queue);
                Ok(None)
            },
            Ok(Some(records)) => {
                if records.len() == 0 {
                    let mut script: VecDeque<Effect> = VecDeque::new();
                    script.push_back(Effect::CommitSubject(id));
                    assert(effects(script@) =~= seq![EffectView::CommitSubject(id)]);
                    self.run(script, Ending::Acknowledge)
                } else {
                    self.ask(Procedure::Publishing { id, records }, Effect::ReadCommitted)
                }
            },
        }
    }

    /// Roll back a transaction. A transaction which is already rolled back succeeds at once.
    pub fn rollback(&mut self, id: TxnId) -> (res: Result<Option<Effect>, ChainError>)
        requires
            old(self).wf(),
        ensures
            final(self).wf(),
            said_wf(res),
            (final(self)@, said(res)) == old(self)@.rolls_back(id),
    {
        match self.queue.operation() {
            Ok(()) => {},
            Err(error) => { return Err(error); },
        }
        match self.queue.check_rollback(&id) {
            Err(error) => {
                self.queue.release();
                assert(self@.queue =~= old(self)@.queue);
                Err(error)
            },
            Ok(false) => {
                self.queue.release();
                assert(self@.queue =~= old(self)@.queue);
                Ok(None)
            },
            Ok(true) => {
                self.queue.arm();
                let mut script: VecDeque<Effect> = VecDeque::new();
                script.push_back(Effect::RollbackSubject(id));
                assert(effects(script@) =~= seq![EffectView::RollbackSubject(id)]);
                self.run(script, Ending::RollBack(id))
            },
        }
    }

    /// Finalize a cutoff: make the transactions up to it canonical, and forget them.
    pub fn finalize(&mut self, cutoff: TxnId) -> (res: Result<Option<Effect>, ChainError>)
        requires
            old(self).wf(),
        ensures
            final(self).wf(),
            said_wf(res),
            (final(self)@, said(res)) == old(self)@.begins_to_finalize(cutoff),
    {
        match self.queue.operation() {
            Ok(()) => {},
            Err(error) => { return Err(error); },
        }
        match self.queue.check_finalize(&cutoff) {
            Err(error) => {
                self.queue.release();
                assert(self@.queue =~= old(self)@.queue);
                Err(error)
            },
            Ok(()) => self.ask(Procedure::Finalizing { cutoff }, Effect::ReadCommitted),
        }
    }

    /// Cancel the lifecycle operation, if there is one. If it was armed, the chain is interrupted.
    pub fn cancel(&mut self)
        requires
            old(self).wf(),
        ensures
            final(self).wf(),
            final(self)@ == old(self)@.cancelled(),
    {
        self.queue.release();
        self.procedure = Procedure::Idle;
    }

    /// Admit a transaction without a request. Its identity is the caller's.
    pub fn register(&mut self, id: TxnId) -> (res: Result<(), ChainError>)
        requires
            old(self).wf(),
        ensures
            final(self).wf(),
            final(self)@.procedure == old(self)@.procedure,
            match res {
                Ok(()) => {
                    &&& old(self)@.queue.register_refusal(id) is None
                    &&& final(self)@.queue == old(self)@.queue.registered(id)
                },
                Err(error) => {
                    &&& old(self)@.queue.register_refusal(id) == Some(error)
                    &&& final(self)@.queue == old(self)@.queue
                },
            },
    {
        self.queue.register(id)
    }

    /// The queue of pending work and decision receipts.
    pub fn queue(&self) -> (res: &TxnTaskQueue<MutationRecord>)
        requires
            self.wf(),
        ensures
            res.wf(),
            res@ == self@.queue,
    {
        &self.queue
    }

    /// Check that a transaction may observe the subject: read it, view it or take its hash.
    /// An observation registers nothing.
    pub fn readable(&self, id: &TxnId) -> (res: Result<(), ChainError>)
        requires
            self.wf(),
        ensures
            match res {
                Ok(()) => self@.queue.read_refusal(*id) is None,
                Err(error) => self@.queue.read_refusal(*id) == Some(error),
            },
    {
        self.queue.readable(id)
    }

    /// Publish an empty log around a canonical subject which has not been published.
    ///
    /// The subject has to be persistent, the storage of the log and of the captured collections
    /// has to be empty, and the queue has to be fresh. The subject is synchronized before the
    /// committed file is created.
    pub fn create(
        persistent: bool,
        root_empty: bool,
        values_empty: bool,
        queue: TxnTaskQueue<MutationRecord>,
    ) -> (res: Result<(Opening, Effect), ChainError>)
        requires
            queue.wf(),
        ensures
            match res {
                Ok((opening, effect)) => {
                    &&& create_refusal(persistent, root_empty, values_empty, queue@) is None
                    &&& opening.wf()
                    &&& effect.wf()
                    &&& (opening@, Ok::<_, ChainError>(Some(effect@))) == runs(
                        armed(queue@),
                        create_script(),
                        EndingView::Acknowledge,
                    )
                },
                Err(error) => create_refusal(persistent, root_empty, values_empty, queue@) == Some(
                    error,
                ),
            },
    {
        if !persistent {
            return Err(ChainError::NotPersistent);
        }
        if !root_empty || !values_empty {
            return Err(ChainError::StorageNotEmpty);
        }
        match queue.validate_fresh() {
            Ok(()) => {},
            Err(error) => { return Err(error); },
        }
        let mut chain = SyncChain { queue, procedure: Procedure::Idle };
        match chain.queue.operation() {
            Ok(()) => {},
            Err(error) => { return Err(error); },
        }
        chain.queue.arm();
        let mut script: VecDeque<Effect> = VecDeque::new();
        script.push_back(Effect::CreateCommitted(ChainFile::default()));
        assert(effects(script@) =~= create_script().skip(1));
        chain.procedure = Procedure::Running {
            expect: Expect::Done,
            rest: script,
            ending: Ending::Acknowledge,
        };
        Ok((Opening { chain }, Effect::SyncSubject))
    }

    /// Recover a chain: validate the committed file and the captured collections, replay the
    /// history into a strictly loaded subject, and reclaim the captures which nothing refers to.
    pub fn load(queue: TxnTaskQueue<MutationRecord>) -> (res: Result<
        (Opening, Effect),
        ChainError,
    >)
        requires
            queue.wf(),
        ensures
            match res {
                Ok((opening, effect)) => {
                    &&& load_refusal(queue@) is None
                    &&& opening.wf()
                    &&& effect.wf()
                    &&& (opening@, Ok::<_, ChainError>(Some(effect@))) == asks(
                        begun(queue@),
                        ProcedureView::Reading,
                        EffectView::ReadCommitted,
                    )
                },
                Err(error) => load_refusal(queue@) == Some(error),
            },
    {
        match queue.validate_fresh() {
            Ok(()) => {},
            Err(error) => { return Err(error); },
        }
        let mut chain = SyncChain { queue, procedure: Procedure::Idle };
        match chain.queue.operation() {
            Ok(()) => {},
            Err(error) => { return Err(error); },
        }
        chain.procedure = Procedure::Reading;
        Ok((Opening { chain }, Effect::ReadCommitted))
    }
}

/// Make the initial subject durable, and then publish the empty log.
pub open spec fn create_script() -> Seq<EffectView> {
    seq![EffectView::SyncSubject, EffectView::CreateCommitted(empty_file())]
}

/// A chain which is being created or loaded, and cannot be used yet.
pub struct Opening {
    chain: SyncChain,
}

/// How far the opening of a chain has come.
pub enum Progress {
    /// Another effect has to be performed.
    Next(Opening, Effect),
    /// The chain may be used.
    Opened(SyncChain),
}

impl View for Opening {
    type V = ChainView;

    closed spec fn view(&self) -> ChainView {
        self.chain@
    }
}

impl Opening {
    pub closed spec fn wf(self) -> bool {
        self.chain.wf()
    }

    /// Hand over the reply to the last effect. If the opening fails, there is no chain.
    pub fn advance(self, reply: Reply) -> (res: Result<Progress, ChainError>)
        requires
            self.wf(),
            reply.wf(),
        ensures
            match self@.advanced(reply) {
                (_, Err(error)) => res == Err::<Progress, _>(error),
                (chain, Ok(None)) => res matches Ok(Progress::Opened(opened)) && opened.wf()
                    && opened@ == chain,
                (chain, Ok(Some(effect))) => res matches Ok(Progress::Next(opening, next))
                    && opening.wf() && opening@ == chain && next.wf() && next@ == effect,
            },
    {
        let mut chain = self.chain;
        match chain.advance(reply) {
            Ok(Some(effect)) => Ok(Progress::Next(Opening { chain }, effect)),
            Ok(None) => Ok(Progress::Opened(chain)),
            Err(error) => Err(error),
        }
    }
}

} // verus!
