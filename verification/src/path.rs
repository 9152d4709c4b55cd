//! Routes relative to the subject of a chain.

use vstd::prelude::*;

use crate::error::ChainError;

verus! {

/// The error by which `pathlink` rejects a path.
#[verifier::external_type_specification]
#[verifier::external_body]
pub struct ExParseError(pathlink::ParseError);

/// The text by which `pathlink::PathBuf` displays the path which it parses from a text, or `None`
/// where it parses none.
pub uninterp spec fn path_text(text: Seq<char>) -> Option<Seq<char>>;

/// Parse a path with `pathlink::PathBuf::from_str`, and display it with its `Display`.
///
/// What is claimed: the result depends on the text alone; a path which begins with a slash is
/// displayed as it was written, and any other with a slash before it; a displayed path is displayed
/// the same way when it is parsed again; the root is a path, and a text which ends in a slash
/// (other than the root) or holds two slashes in a row is none.
#[verifier::external_body]
fn parse_and_display(text: &str) -> (res: Result<String, pathlink::ParseError>)
    ensures
        res is Ok ==> path_text(text@) == Some(res->Ok_0@),
        res is Err ==> path_text(text@) is None,
        res is Ok ==> res->Ok_0@ == from_root(text@),
        res is Ok ==> path_text(res->Ok_0@) == Some(res->Ok_0@),
        text@ == seq!['/'] ==> res is Ok && res->Ok_0@ == seq!['/'],
        text@.len() > 1 && text@.last() == '/' ==> res is Err,
        has_empty_segment(text@) ==> res is Err,
{
    text.parse::<pathlink::PathBuf>().map(|path| path.to_string())
}

/// A route from the root: the text, with a slash before it unless it begins with one.
pub open spec fn from_root(text: Seq<char>) -> Seq<char> {
    if text.len() > 0 && text[0] == '/' {
        text
    } else {
        seq!['/'] + text
    }
}

/// Whether a text holds an empty path segment.
pub open spec fn has_empty_segment(text: Seq<char>) -> bool {
    exists|i: int| 0 <= i < text.len() - 1 && #[trigger] text[i] == '/' && text[i + 1] == '/'
}

/// A route relative to the subject of a chain, or the class path of a collection.
#[derive(Debug)]
pub struct SubjectPath {
    text: String,
}

impl View for SubjectPath {
    type V = Seq<char>;

    closed spec fn view(&self) -> Seq<char> {
        self.text@
    }
}

impl SubjectPath {
    #[verifier::type_invariant]
    spec fn displayed(self) -> bool {
        path_text(self.text@) == Some(self.text@)
    }

    /// Read a path from its text.
    pub fn parse(text: &str) -> (res: Result<SubjectPath, ChainError>)
        ensures
            match res {
                Ok(path) => path_text(text@) == Some(path@) && path@ == from_root(text@),
                Err(e) => path_text(text@) is None && e == ChainError::InvalidPath,
            },
            text@ == seq!['/'] ==> (res matches Ok(path) && path@ == seq!['/']),
            text@.len() > 1 && text@.last() == '/' ==> res is Err,
            has_empty_segment(text@) ==> res is Err,
    {
        match parse_and_display(text) {
            Ok(shown) => Ok(SubjectPath { text: shown }),
            Err(_) => Err(ChainError::InvalidPath),
        }
    }

    /// The text of this path, from which the same path is read.
    pub fn as_str(&self) -> (res: &str)
        ensures
            res@ == self@,
            path_text(res@) == Some(self@),
    {
        proof {
            use_type_invariant(self);
        }
        self.text.as_str()
    }

    /// Whether two paths are the same.
    pub fn same(&self, other: &SubjectPath) -> (res: bool)
        ensures
            res == (self@ == other@),
    {
        self.text == other.text
    }
}

impl Clone for SubjectPath {
    fn clone(&self) -> (res: Self)
        ensures
            res == *self,
    {
        proof {
            use_type_invariant(self);
        }
        SubjectPath { text: self.text.clone() }
    }
}

} // verus!
