//! Capturing the values which requests store.

use vstd::prelude::*;

use crate::error::ChainError;
use crate::path::SubjectPath;
use crate::scalar::{
    check_identity, hex, identity, is_identity, reference, stored, CollectionRef, Scalar,
};
use crate::store::{resolution_refusal, Resolution, Store};

verus! {

/// The value which a request stores.
pub enum Argument {
    /// A scalar.
    Scalar(Scalar),
    /// A native collection, whose value at this moment has to be kept.
    Collection,
    /// Anything else.
    Other,
}

/// One step of a request, to be performed by the owner of the storage and the subject.
pub enum Task {
    /// Take the hash of the collection which the request stores, and its class and schema.
    Identify,
    /// Look for a captured collection.
    Probe(String),
    /// Copy the collection which the request stores into new storage of this name.
    Copy(String),
    /// Load a stored collection strictly, and take its hash.
    Resolve(CollectionRef),
    /// Invoke the selected handler.
    Invoke,
}

/// What came of a task.
pub enum Outcome {
    /// It was performed.
    Done,
    /// The hash, the class and the schema of a collection.
    Identified { hash: Vec<u8>, path: SubjectPath, schema: String },
    /// Whether there is a captured collection of that name.
    Probed(bool),
    /// What the value store found.
    Resolved(Resolution),
    /// It failed.
    Failed(ChainError),
}

/// How far the capture of a value has come.
pub enum Capture {
    /// The collection is identified.
    Identifying,
    /// A captured collection is looked for.
    Probing(CollectionRef),
    /// The collection is copied.
    Copying(CollectionRef),
    /// The captured collection is verified.
    Verifying(CollectionRef),
}

/// What is known of the captured value.
pub enum Captured {
    /// The value as it is stored.
    Value(Scalar),
    /// Another task has to be performed.
    Pending(Capture, Task),
}

/// The beginning of the capture of a value.
///
/// A scalar is kept as it is. A scalar which is a reference has to refer to a stored collection,
/// which is verified. A collection is stored under its identity.
pub open spec fn capture_begins(argument: Argument) -> Result<Captured, ChainError> {
    match argument {
        Argument::Scalar(value) => match stored(value) {
            Ok(None) => Ok(Captured::Value(value)),
            Ok(Some(found)) => Ok(
                Captured::Pending(Capture::Verifying(found), Task::Resolve(found)),
            ),
            Err(error) => Err(error),
        },
        Argument::Collection => Ok(Captured::Pending(Capture::Identifying, Task::Identify)),
        Argument::Other => Err(ChainError::UnsupportedValue),
    }
}

/// The verification of a captured collection.
pub open spec fn capture_verifies(found: CollectionRef) -> Result<Captured, ChainError> {
    if is_identity(found.name@) {
        Ok(Captured::Pending(Capture::Verifying(found), Task::Resolve(found)))
    } else {
        Err(ChainError::InvalidReference)
    }
}

/// What becomes of a capture when its task has an outcome.
///
/// A collection is copied only if there is none of its identity. In either case what is then
/// stored has to have that identity.
pub open spec fn capture_continues(
    capture: Capture,
    outcome: Outcome,
    res: Result<Captured, ChainError>,
) -> bool {
    match (capture, outcome) {
        (_, Outcome::Failed(error)) => res == Err::<Captured, _>(error),
        (Capture::Identifying, Outcome::Identified { hash, path, schema }) => {
            &&& res matches Ok(Captured::Pending(Capture::Probing(found), Task::Probe(name)))
            &&& found.name@ == hex(hash@)
            &&& found.path == path
            &&& found.schema == schema
            &&& name@ == hex(hash@)
        },
        (Capture::Probing(found), Outcome::Probed(true)) => res == capture_verifies(found),
        (Capture::Probing(found), Outcome::Probed(false)) => {
            &&& res matches Ok(Captured::Pending(Capture::Copying(kept), Task::Copy(name)))
            &&& kept == found
            &&& name@ == found.name@
        },
        (Capture::Copying(found), Outcome::Done) => res == capture_verifies(found),
        (Capture::Verifying(found), Outcome::Resolved(resolution)) => res
            == match resolution_refusal(found.name@, resolution) {
            Some(error) => Err(error),
            None => Ok(Captured::Value(Scalar::Get(found))),
        },
        _ => res == Err::<Captured, _>(ChainError::UnexpectedReply),
    }
}

impl Store {
    /// Begin to capture a value.
    pub fn capture(argument: Argument) -> (res: Result<Captured, ChainError>)
        ensures
            res == capture_begins(argument),
    {
        match argument {
            Argument::Scalar(value) => match reference(&value) {
                Ok(None) => Ok(Captured::Value(value)),
                Ok(Some(found)) => Ok(
                    Captured::Pending(
                        Capture::Verifying(found.clone()),
                        Task::Resolve(found.clone()),
                    ),
                ),
                Err(error) => Err(error),
            },
            Argument::Collection => Ok(Captured::Pending(Capture::Identifying, Task::Identify)),
            Argument::Other => Err(ChainError::UnsupportedValue),
        }
    }
}

impl Capture {
    fn verify(found: CollectionRef) -> (res: Result<Captured, ChainError>)
        ensures
            res == capture_verifies(found),
    {
        if check_identity(found.name.as_str()) {
            let task = Task::Resolve(found.clone());
            Ok(Captured::Pending(Capture::Verifying(found), task))
        } else {
            Err(ChainError::InvalidReference)
        }
    }

    /// Hand over the outcome of the task of a capture.
    pub fn advance(self, outcome: Outcome) -> (res: Result<Captured, ChainError>)
        ensures
            capture_continues(self, outcome, res),
    {
        match (self, outcome) {
            (_, Outcome::Failed(error)) => Err(error),
            (Capture::Identifying, Outcome::Identified { hash, path, schema }) => {
                let name = identity(hash.as_slice());
                let task = Task::Probe(name.clone());
                Ok(Captured::Pending(Capture::Probing(CollectionRef { name, path, schema }), task))
            },
            (Capture::Probing(found), Outcome::Probed(true)) => Self::verify(found),
            (Capture::Probing(found), Outcome::Probed(false)) => {
                let task = Task::Copy(found.name.clone());
                Ok(Captured::Pending(Capture::Copying(found), task))
            },
            (Capture::Copying(found), Outcome::Done) => Self::verify(found),
            (Capture::Verifying(found), Outcome::Resolved(resolution)) => match Store::verify(
                &found.name,
                &resolution,
            ) {
                Ok(()) => Ok(Captured::Value(Scalar::Get(found))),
                Err(error) => Err(error),
            },
            _ => Err(ChainError::UnexpectedReply),
        }
    }
}

/// Whether a capture which is verified has an identity.
pub open spec fn capture_sound(capture: Capture) -> bool {
    capture matches Capture::Verifying(found) ==> is_identity(found.name@)
}

/// A value which needs no capture is a scalar which is no reference.
pub proof fn law_uncaptured_values_are_literal(argument: Argument)
    ensures
        capture_begins(argument) matches Ok(Captured::Value(value)) ==> argument
            == Argument::Scalar(value) && stored(value) == Ok::<_, ChainError>(
            None::<CollectionRef>,
        ),
        capture_begins(argument) matches Ok(Captured::Pending(capture, _)) ==> capture_sound(
            capture,
        ),
{
}

/// A value which was captured refers to a stored collection, which has the identity under which it
/// is stored.
pub proof fn law_captured_values_are_verified(
    capture: Capture,
    outcome: Outcome,
    res: Result<Captured, ChainError>,
)
    requires
        capture_sound(capture),
        capture_continues(capture, outcome, res),
    ensures
        res matches Ok(Captured::Value(value)) ==> {
            &&& capture matches Capture::Verifying(found)
            &&& value == Scalar::Get(found)
            &&& stored(value) == Ok::<_, ChainError>(Some(found))
            &&& outcome matches Outcome::Resolved(Resolution::Loaded(hash))
            &&& hex(hash@) == found.name@
        },
        res matches Ok(Captured::Pending(next, _)) ==> capture_sound(next),
{
}

} // verus!
