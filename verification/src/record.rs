//! Persisted mutation requests.

use vstd::prelude::*;

use crate::error::ChainError;
use crate::path::{from_root, path_text, SubjectPath};
use crate::scalar::{reference, stored, Scalar};

verus! {

/// A persisted request.
#[derive(Debug)]
pub enum MutationRecord {
    /// Set a value: the route, the key and the value.
    Put(SubjectPath, Scalar, Scalar),
    /// Delete a value: the route and the key.
    Delete(SubjectPath, Scalar),
    /// Replace the subject's contents by a captured collection.
    Restore(Scalar),
}

/// One element of an encoded record.
#[derive(Debug)]
pub enum Element {
    Path(SubjectPath),
    Value(Scalar),
}

/// One element of a record which is encoded without being copied.
pub enum ElementRef<'a> {
    Path(&'a SubjectPath),
    Value(&'a Scalar),
}

impl<'a> ElementRef<'a> {
    /// The element itself.
    pub open spec fn owned(self) -> Element {
        match self {
            ElementRef::Path(path) => Element::Path(*path),
            ElementRef::Value(value) => Element::Value(*value),
        }
    }
}

/// Read an element of a record, which was decoded as a scalar. The first element is a route exactly
/// if it is a text; every other element is a value.
pub fn element(first: bool, text: Option<&str>, value: Scalar) -> (res: Result<
    Element,
    ChainError,
>)
    ensures
        match text {
            Some(route) if first => match res {
                Ok(found) => found matches Element::Path(path) && path_text(route@) == Some(path@)
                    && path@ == from_root(route@),
                Err(e) => path_text(route@) is None && e == ChainError::InvalidPath,
            },
            _ => res == Ok::<_, ChainError>(Element::Value(value)),
        },
{
    match text {
        Some(route) if first => match SubjectPath::parse(route) {
            Ok(path) => Ok(Element::Path(path)),
            Err(e) => Err(e),
        },
        _ => Ok(Element::Value(value)),
    }
}

impl Clone for MutationRecord {
    fn clone(&self) -> (res: Self)
        ensures
            res == *self,
    {
        match self {
            MutationRecord::Put(path, key, value) => MutationRecord::Put(
                path.clone(),
                key.clone(),
                value.clone(),
            ),
            MutationRecord::Delete(path, key) => MutationRecord::Delete(path.clone(), key.clone()),
            MutationRecord::Restore(value) => MutationRecord::Restore(value.clone()),
        }
    }
}

impl MutationRecord {
    /// The value which this request stores, if it stores one.
    pub open spec fn spec_value(self) -> Option<Scalar> {
        match self {
            MutationRecord::Put(_, _, value) => Some(value),
            MutationRecord::Delete(_, _) => None,
            MutationRecord::Restore(value) => Some(value),
        }
    }

    /// The value which this request stores, if it stores one.
    pub fn value(&self) -> (res: Option<&Scalar>)
        ensures
            match res {
                Some(value) => self.spec_value() == Some(*value),
                None => self.spec_value() is None,
            },
    {
        match self {
            MutationRecord::Put(_, _, value) => Some(value),
            MutationRecord::Delete(_, _) => None,
            MutationRecord::Restore(value) => Some(value),
        }
    }

    /// The elements by which this request is persisted: `(path, key, value)` for a PUT,
    /// `(path, key)` for a DELETE, and `(reference,)` for a restoration.
    pub open spec fn elements(self) -> Seq<Element> {
        match self {
            MutationRecord::Put(path, key, value) => seq![
                Element::Path(path),
                Element::Value(key),
                Element::Value(value),
            ],
            MutationRecord::Delete(path, key) => seq![Element::Path(path), Element::Value(key)],
            MutationRecord::Restore(value) => seq![Element::Value(value)],
        }
    }

    /// Encode this request.
    pub fn encode(self) -> (res: Vec<Element>)
        ensures
            res@ == self.elements(),
    {
        let mut res = Vec::new();
        match self {
            MutationRecord::Put(path, key, value) => {
                res.push(Element::Path(path));
                res.push(Element::Value(key));
                res.push(Element::Value(value));
            },
            MutationRecord::Delete(path, key) => {
                res.push(Element::Path(path));
                res.push(Element::Value(key));
            },
            MutationRecord::Restore(value) => {
                res.push(Element::Value(value));
            },
        }
        assert(res@ =~= self.elements());
        res
    }

    /// Encode this request without copying it.
    pub fn to_elements(&self) -> (res: Vec<ElementRef<'_>>)
        ensures
            res@.map_values(|e: ElementRef<'_>| e.owned()) == self.elements(),
    {
        let mut res = Vec::new();
        match self {
            MutationRecord::Put(path, key, value) => {
                res.push(ElementRef::Path(path));
                res.push(ElementRef::Value(key));
                res.push(ElementRef::Value(value));
            },
            MutationRecord::Delete(path, key) => {
                res.push(ElementRef::Path(path));
                res.push(ElementRef::Value(key));
            },
            MutationRecord::Restore(value) => {
                res.push(ElementRef::Value(value));
            },
        }
        assert(res@.map_values(|e: ElementRef<'_>| e.owned()) =~= self.elements());
        res
    }

    /// The request which the elements encode, if they encode one.
    pub open spec fn decoded(elements: Seq<Element>) -> Result<MutationRecord, ChainError> {
        if elements.len() == 0 {
            Err(ChainError::InvalidLength(0))
        } else {
            match elements[0] {
                Element::Path(path) => if elements.len() == 1 {
                    Err(ChainError::InvalidLength(1))
                } else if !(elements[1] is Value) || (elements.len() > 2 && !(elements[2] is Value)) {
                    Err(ChainError::InvalidRecord)
                } else if elements.len() == 2 {
                    Ok(MutationRecord::Delete(path, elements[1]->Value_0))
                } else if elements.len() == 3 {
                    Ok(MutationRecord::Put(path, elements[1]->Value_0, elements[2]->Value_0))
                } else {
                    Err(ChainError::InvalidLength(4))
                },
                Element::Value(value) => if elements.len() == 1 && (stored(value) matches Ok(Some(_))) {
                    Ok(MutationRecord::Restore(value))
                } else {
                    Err(ChainError::InvalidRecord)
                },
            }
        }
    }

    /// Decode a request.
    pub fn decode(elements: Vec<Element>) -> (res: Result<MutationRecord, ChainError>)
        ensures
            res == Self::decoded(elements@),
    {
        let mut elements = elements;
        let ghost given = elements@;
        let count = elements.len();
        if count > 3 {
            elements.truncate(3);
        }
        let third = if count > 2 { elements.pop() } else { None };
        let second = if count > 1 { elements.pop() } else { None };
        match elements.pop() {
            None => Err(ChainError::InvalidLength(0)),
            Some(Element::Value(value)) => {
                let single = match second {
                    None => true,
                    Some(_) => false,
                };
                let is_stored = match reference(&value) {
                    Ok(Some(_)) => true,
                    _ => false,
                };
                if single && is_stored {
                    Ok(MutationRecord::Restore(value))
                } else {
                    Err(ChainError::InvalidRecord)
                }
            },
            Some(Element::Path(path)) => match second {
                None => Err(ChainError::InvalidLength(1)),
                Some(Element::Path(_)) => Err(ChainError::InvalidRecord),
                Some(Element::Value(key)) => match third {
                    None => Ok(MutationRecord::Delete(path, key)),
                    Some(Element::Path(_)) => Err(ChainError::InvalidRecord),
                    Some(Element::Value(value)) => if count > 3 {
                        Err(ChainError::InvalidLength(4))
                    } else {
                        Ok(MutationRecord::Put(path, key, value))
                    },
                },
            },
        }
    }
}

/// A PUT, a DELETE, or the restoration of a stored collection is read back as it was persisted.
pub proof fn law_record_round_trip(record: MutationRecord)
    requires
        record matches MutationRecord::Restore(value) ==> (stored(value) matches Ok(Some(_))),
    ensures
        MutationRecord::decoded(record.elements()) == Ok::<_, ChainError>(record),
{
}

/// No two different requests are persisted alike; in particular a PUT of any value, null
/// included, is never taken for a DELETE.
pub proof fn law_record_encoding_is_unambiguous(a: MutationRecord, b: MutationRecord)
    requires
        a.elements() == b.elements(),
    ensures
        a == b,
{
    lemma_elements(a);
    lemma_elements(b);
}

/// The elements of a request, one by one.
proof fn lemma_elements(record: MutationRecord)
    ensures
        ({
            let e = record.elements();
            match record {
                MutationRecord::Put(path, key, value) => e.len() == 3 && e[0] == Element::Path(path)
                    && e[1] == Element::Value(key) && e[2] == Element::Value(value),
                MutationRecord::Delete(path, key) => e.len() == 2 && e[0] == Element::Path(path)
                    && e[1] == Element::Value(key),
                MutationRecord::Restore(value) => e.len() == 1 && e[0] == Element::Value(value),
            }
        }),
{
}

} // verus!
